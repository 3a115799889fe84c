//! The decoded bitmap: rows of RGBA pixels.
use vstd::prelude::*;

verus! {

/// One 8-bit RGBA pixel.
#[derive(Debug, Clone, Copy, PartialEq, Eq, Structural)]
pub struct Pixel {
    pub r: u8,
    pub g: u8,
    pub b: u8,
    pub a: u8,
}

/// A `width` by `height` bitmap stored row-major.
#[derive(Debug)]
pub struct RasterImage {
    pub width: usize,
    pub height: usize,
    pub pixels: Vec<Pixel>,
}

impl RasterImage {
    /// One pixel per grid position.
    pub open spec fn wf(&self) -> bool {
        self.pixels@.len() == self.width * self.height
    }

    /// A copy of this image.
    pub fn duplicate(&self) -> (r: RasterImage)
        ensures
            r.width == self.width,
            r.height == self.height,
            r.pixels@ == self.pixels@,
    {
        let mut pixels: Vec<Pixel> = Vec::new();
        let mut i: usize = 0;
        while i < self.pixels.len()
            invariant
                i <= self.pixels@.len(),
                pixels@ == self.pixels@.take(i as int),
            decreases self.pixels@.len() - i,
        {
            pixels.push(self.pixels[i]);
            i = i + 1;
            assert(pixels@ =~= self.pixels@.take(i as int));
        }
        assert(pixels@ =~= self.pixels@);
        RasterImage { width: self.width, height: self.height, pixels }
    }
}

/// Pixel `k` of a buffer of `ch`-byte pixels in B, G, R[, A] order; a
/// three-channel pixel takes the alpha `alpha`.
pub open spec fn channel_pixel(data: Seq<u8>, ch: nat, k: int, alpha: u8) -> Pixel {
    Pixel {
        r: data[ch * k + 2],
        g: data[ch * k + 1],
        b: data[ch * k],
        a: if ch == 4 {
            data[ch * k + 3]
        } else {
            alpha
        },
    }
}

/// The first `count` pixels of a buffer of `channels`-byte pixels in B, G,
/// R[, A] order, as RGBA; three-channel pixels take the alpha `alpha`.
pub fn pixels_from_channels(data: &[u8], count: usize, channels: usize, alpha: u8) -> (r: Vec<
    Pixel,
>)
    requires
        channels == 3 || channels == 4,
        count * channels <= data.len(),
    ensures
        r@.len() == count,
        forall|k: int|
            0 <= k < count ==> #[trigger] r@[k] == channel_pixel(
                data@,
                channels as nat,
                k,
                alpha,
            ),
{
    let mut out: Vec<Pixel> = Vec::new();
    let mut pos: usize = 0;
    let mut k: usize = 0;
    while k < count
        invariant
            channels == 3 || channels == 4,
            count * channels <= data.len(),
            k <= count,
            pos == channels * k,
            out@.len() == k,
            forall|j: int|
                0 <= j < k ==> #[trigger] out@[j] == channel_pixel(
                    data@,
                    channels as nat,
                    j,
                    alpha,
                ),
        decreases count - k,
    {
        proof {
            assert((k + 1) * channels <= count * channels) by (nonlinear_arith)
                requires
                    k + 1 <= count,
                    channels > 0,
            ;
            assert(channels * (k + 1) == channels * k + channels) by (nonlinear_arith);
        }
        let a = if channels == 4 {
            data[pos + 3]
        } else {
            alpha
        };
        out.push(Pixel { r: data[pos + 2], g: data[pos + 1], b: data[pos], a });
        pos = pos + channels;
        k = k + 1;
    }
    out
}

} // verus!
