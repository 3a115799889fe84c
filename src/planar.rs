//! The planar filter: a fixed-point colour transform with 4:2:0 chroma.
use vstd::prelude::*;
use vstd::arithmetic::div_mod::{lemma_mod_bound, lemma_multiply_divide_lt};

verus! {

/// A chroma byte read as a two's-complement signed value.
pub open spec fn signed(b: u8) -> int {
    if b < 128 {
        b as int
    } else {
        b as int - 256
    }
}

/// `v` clamped to a byte.
pub open spec fn clamp_channel(v: int) -> u8 {
    if v < 0 {
        0
    } else if v > 255 {
        255
    } else {
        v as u8
    }
}

/// The unclamped channel value `((lum << 7) + coeff) >> 7`, with the shift
/// flooring (`/` on `int` floors for a positive divisor).
pub open spec fn raw_channel(lum: u8, coeff: int) -> int {
    (lum as int * 128 + coeff) / 128
}

/// The fixed-point chroma term (scaled by 2^7) of channel `c` (0 blue,
/// 1 green, 2 red) for chroma bytes `a` and `b`.
pub open spec fn chroma_coeff(c: int, a: u8, b: u8) -> int {
    if c == 0 {
        226 * signed(a)
    } else if c == 1 {
        -43 * signed(a) - 89 * signed(b)
    } else {
        179 * signed(b)
    }
}

/// Channel `c` (0 blue, 1 green, 2 red) of pixel `p` of a `w` by `h` image
/// whose buffer holds plane A at 0, plane B at `w*h/4` (both one byte per 2x2
/// block) and the full-resolution luma at `w*h/2`. Pixels outside every whole
/// block (the last column or row of an odd size) are 0.
pub open spec fn planar_channel(data: Seq<u8>, w: nat, h: nat, p: int, c: int) -> u8 {
    let x = p % (w as int);
    let y = p / (w as int);
    let size = (w * h) as int;
    if x < 2 * (w / 2) && y < 2 * (h / 2) {
        let j = (y / 2) * (w / 2) + x / 2;
        clamp_channel(
            raw_channel(data[size / 2 + p], chroma_coeff(c, data[j], data[size / 4 + j])),
        )
    } else {
        0
    }
}

/// Every channel is the clamped transform: 0 where the transform falls below
/// zero, 255 where it passes 255, the transform itself in between, whatever
/// the plane bytes.
pub proof fn lemma_planar_channel_clamped(lum: u8, c: int, a: u8, b: u8)
    ensures
        ({
            let v = raw_channel(lum, chroma_coeff(c, a, b));
            let out = clamp_channel(v) as int;
            &&& 0 <= out <= 255
            &&& v < 0 ==> out == 0
            &&& v > 255 ==> out == 255
            &&& 0 <= v <= 255 ==> out == v
        }),
{
}

proof fn lemma_block_in_planes(w: nat, h: nat, x: nat, y: nat)
    requires
        x < 2 * (w / 2),
        y < 2 * (h / 2),
    ensures
        (y / 2) * (w / 2) + x / 2 < (w * h) / 4,
{
    let a = w / 2;
    let b = h / 2;
    let xx = x / 2;
    let yy = y / 2;
    assert(yy < b);
    assert(xx < a);
    assert(yy * a + xx < b * a) by (nonlinear_arith)
        requires
            yy < b,
            xx < a,
    ;
    assert(4 * (b * a) <= w * h) by (nonlinear_arith)
        requires
            2 * a <= w,
            2 * b <= h,
    ;
}

fn shade(lum: u8, coeff: i32) -> (r: u8)
    requires
        -65536 <= coeff <= 65536,
    ensures
        r == clamp_channel(raw_channel(lum, coeff as int)),
{
    let v: i32 = (lum as i32) * 128 + coeff;
    if v < 0 {
        assert(v as int / 128 < 0) by (nonlinear_arith)
            requires
                v < 0,
        ;
        0
    } else {
        let q: u32 = (v as u32) / 128;
        if q > 255 {
            255
        } else {
            q as u8
        }
    }
}

fn signed_of(b: u8) -> (r: i32)
    ensures
        r as int == signed(b),
        -128 <= r <= 127,
{
    if b < 128 {
        b as i32
    } else {
        b as i32 - 256
    }
}

/// Undoes the planar filter of a `width` by `height` image: three bytes (blue,
/// green, red) per pixel, row-major.
pub fn apply_filter(data: &[u8], width: usize, height: usize) -> (r: Vec<u8>)
    requires
        (width * height) / 2 + width * height <= data.len(),
    ensures
        r@.len() == 3 * (width * height),
        forall|p: int, c: int|
            0 <= p < width * height && 0 <= c < 3 ==> #[trigger] r@[3 * p + c] == planar_channel(
                data@,
                width as nat,
                height as nat,
                p,
                c,
            ),
{
    let size = width * height;
    let mut out: Vec<u8> = Vec::new();
    let mut p: usize = 0;
    while p < size
        invariant
            size == width * height,
            size / 2 + size <= data.len(),
            p <= size,
            out@.len() == 3 * p,
            forall|q: int, c: int|
                0 <= q < p && 0 <= c < 3 ==> #[trigger] out@[3 * q + c] == planar_channel(
                    data@,
                    width as nat,
                    height as nat,
                    q,
                    c,
                ),
        decreases size - p,
    {
        proof {
            lemma_mod_bound(p as int, width as int);
            lemma_multiply_divide_lt(p as int, width as int, height as int);
        }
        let x = p % width;
        let y = p / width;
        if x < 2 * (width / 2) && y < 2 * (height / 2) {
            proof {
                lemma_block_in_planes(width as nat, height as nat, x as nat, y as nat);
            }
            let j = (y / 2) * (width / 2) + x / 2;
            let a = signed_of(data[j]);
            let b = signed_of(data[size / 4 + j]);
            let lum = data[size / 2 + p];
            out.push(shade(lum, 226 * a));
            let green: i32 = 0 - 43 * a - 89 * b;
            assert(green == -43 * a - 89 * b);
            out.push(shade(lum, green));
            out.push(shade(lum, 179 * b));
        } else {
            out.push(0);
            out.push(0);
            out.push(0);
        }
        assert forall|q: int, c: int| 0 <= q < p + 1 && 0 <= c < 3 implies #[trigger] out@[3 * q
            + c] == planar_channel(data@, width as nat, height as nat, q, c) by {
            if q == p {
                assert(out@[3 * q + c] == out@[3 * p + c]);
            }
        }
        p = p + 1;
    }
    out
}

} // verus!
