//! XOR compositing of a sub-image onto a decoded base image.
use vstd::prelude::*;
use vstd::arithmetic::div_mod::{lemma_mod_bound, lemma_multiply_divide_lt};

use crate::raster::{Pixel, RasterImage};

verus! {

/// Channel-wise XOR of two pixels.
pub open spec fn xor_pixel(p: Pixel, s: Pixel) -> Pixel {
    Pixel { r: p.r ^ s.r, g: p.g ^ s.g, b: p.b ^ s.b, a: p.a ^ s.a }
}

/// Whether grid position `q` of a `bw`-wide image lies in the window of
/// `w` by `h` pixels whose top-left corner is (`x`, `y`).
pub open spec fn in_window(q: int, bw: nat, x: nat, y: nat, w: nat, h: nat) -> bool {
    let col = q % (bw as int);
    let row = q / (bw as int);
    x <= col < x + w && y <= row < y + h
}

/// The pixels of the `bw`-wide image `base` with the `w` by `h` pixels `sub`
/// XORed onto the window at (`x`, `y`); outside the window `base` is kept.
pub open spec fn composite(
    base: Seq<Pixel>,
    bw: nat,
    sub: Seq<Pixel>,
    x: nat,
    y: nat,
    w: nat,
    h: nat,
) -> Seq<Pixel> {
    Seq::new(
        base.len(),
        |q: int|
            if in_window(q, bw, x, y, w, h) {
                xor_pixel(
                    base[q],
                    sub[(q / (bw as int) - y) * w + (q % (bw as int) - x)],
                )
            } else {
                base[q]
            },
    )
}

/// Compositing the same sub-image twice gives the base back, everywhere.
pub proof fn lemma_composite_twice_restores(
    base: Seq<Pixel>,
    bw: nat,
    sub: Seq<Pixel>,
    x: nat,
    y: nat,
    w: nat,
    h: nat,
)
    ensures
        composite(composite(base, bw, sub, x, y, w, h), bw, sub, x, y, w, h) == base,
{
    let once = composite(base, bw, sub, x, y, w, h);
    let twice = composite(once, bw, sub, x, y, w, h);
    assert forall|a: u8, b: u8| (a ^ b) ^ b == a by {
        assert((a ^ b) ^ b == a) by (bit_vector);
    }
    assert(twice =~= base);
}

/// A copy of `base` with the `width` by `height` pixels `sub` XORed onto the
/// window whose top-left corner is (`x`, `y`).
pub fn xor_composite(
    base: &RasterImage,
    sub: &Vec<Pixel>,
    x: usize,
    y: usize,
    width: usize,
    height: usize,
) -> (r: RasterImage)
    requires
        base.wf(),
        sub@.len() == width * height,
        x + width <= base.width,
        y + height <= base.height,
    ensures
        r.wf(),
        r.width == base.width,
        r.height == base.height,
        r.pixels@ == composite(
            base.pixels@,
            base.width as nat,
            sub@,
            x as nat,
            y as nat,
            width as nat,
            height as nat,
        ),
{
    let bw = base.width;
    let n = base.pixels.len();
    let ghost target = composite(
        base.pixels@,
        bw as nat,
        sub@,
        x as nat,
        y as nat,
        width as nat,
        height as nat,
    );
    let mut out: Vec<Pixel> = Vec::new();
    let mut q: usize = 0;
    while q < n
        invariant
            base.wf(),
            bw == base.width,
            n == base.pixels@.len(),
            sub@.len() == width * height,
            x + width <= base.width,
            y + height <= base.height,
            target.len() == n,
            target == composite(
                base.pixels@,
                bw as nat,
                sub@,
                x as nat,
                y as nat,
                width as nat,
                height as nat,
            ),
            q <= n,
            out@.len() == q,
            forall|k: int| 0 <= k < q ==> #[trigger] out@[k] == target[k],
        decreases n - q,
    {
        proof {
            lemma_mod_bound(q as int, bw as int);
            lemma_multiply_divide_lt(q as int, bw as int, base.height as int);
        }
        let col = q % bw;
        let row = q / bw;
        let p = base.pixels[q];
        if x <= col && col < x + width && y <= row && row < y + height {
            let sub_len = sub.len();
            let dy = row - y;
            let dx = col - x;
            assert(dy * width + dx < width * height) by (nonlinear_arith)
                requires
                    dy < height,
                    dx < width,
            ;
            assert(dy * width <= dy * width + dx);
            let s = sub[dy * width + dx];
            out.push(Pixel { r: p.r ^ s.r, g: p.g ^ s.g, b: p.b ^ s.b, a: p.a ^ s.a });
        } else {
            out.push(p);
        }
        q = q + 1;
    }
    assert(out@ =~= target);
    RasterImage { width: base.width, height: base.height, pixels: out }
}

} // verus!
