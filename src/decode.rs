//! Whole image records: header, payload, filter and compositing.
use vstd::prelude::*;
use vstd::slice::slice_subrange;

use crate::compose::{composite, lemma_composite_twice_restores, xor_composite};
use crate::delta::{apply_delta_filter, known_mode, unfiltered};
use crate::error::DecodeError;
use crate::header::{
    le16,
    le32,
    main_header_of,
    parse_main_header,
    parse_sub_header,
    read_u16,
    FilterKind,
    MAIN_HEADER_LEN,
    SUB_HEADER_LEN,
};
use crate::lz::{decompress, decompressed};
use crate::names::{asset_key, is_terminated, key_of, nul_index, ImageCache};
use crate::planar::{apply_filter, planar_channel};
use crate::raster::{channel_pixel, pixels_from_channels, Pixel, RasterImage};

verus! {

/// The RGBA pixels of a `w` by `h` planar-filtered buffer.
pub open spec fn planar_pixels(data: Seq<u8>, w: nat, h: nat) -> Seq<Pixel> {
    Seq::new(
        w * h,
        |p: int|
            Pixel {
                r: planar_channel(data, w, h, p, 2),
                g: planar_channel(data, w, h, p, 1),
                b: planar_channel(data, w, h, p, 0),
                a: 255,
            },
    )
}

/// Byte `i` of a delta-filtered buffer of `w`-pixel rows of `ch` bytes, reconstructed.
pub open spec fn delta_byte(pix: Seq<u8>, modes: Seq<u8>, w: nat, ch: nat, i: int) -> u8 {
    unfiltered(pix, modes, w * ch, ch, i as nat)
}

/// The RGBA pixels of a `w` by `h` delta-filtered buffer of `ch`-byte pixels
/// in B, G, R[, A] order; three-channel pixels take the alpha `alpha`.
pub open spec fn delta_pixels(
    pix: Seq<u8>,
    modes: Seq<u8>,
    w: nat,
    h: nat,
    ch: nat,
    alpha: u8,
) -> Seq<Pixel> {
    Seq::new(
        w * h,
        |p: int|
            Pixel {
                r: delta_byte(pix, modes, w, ch, ch * p + 2),
                g: delta_byte(pix, modes, w, ch, ch * p + 1),
                b: delta_byte(pix, modes, w, ch, ch * p),
                a: if ch == 4 {
                    delta_byte(pix, modes, w, ch, ch * p + 3)
                } else {
                    alpha
                },
            },
    )
}

/// The pixels of a delta-filtered image with one mode byte per row in
/// `modes`, or why there are none.
pub open spec fn delta_image(
    modes: Seq<u8>,
    pix: Seq<u8>,
    w: nat,
    h: nat,
    ch: nat,
    alpha: u8,
) -> Result<Seq<Pixel>, DecodeError> {
    if ch != 3 && ch != 4 {
        Err(DecodeError::UnsupportedFormat)
    } else if pix.len() < h * (w * ch) {
        Err(DecodeError::Truncated)
    } else if exists|y: int| 0 <= y < h && !known_mode(#[trigger] modes[y]) {
        Err(DecodeError::UnsupportedFilterMode)
    } else if h > 0 && (modes[0] == 2 || modes[0] == 4) {
        Err(DecodeError::UnsupportedFilterMode)
    } else {
        Ok(delta_pixels(pix, modes, w, h, ch, alpha))
    }
}

/// Width, height and pixels of the main image record `rec` (read past its
/// magic), or why it cannot be decoded.
pub open spec fn main_image(rec: Seq<u8>) -> Result<(nat, nat, Seq<Pixel>), DecodeError> {
    match main_header_of(rec) {
        Err(e) => Err(e),
        Ok(hd) => {
            let w = hd.width as nat;
            let h = hd.height as nat;
            if rec.len() < 36 + hd.size_comp {
                Err(DecodeError::Truncated)
            } else {
                match decompressed(rec.subrange(36, 36 + hd.size_comp as int), hd.size_orig as nat) {
                    None => Err(DecodeError::CorruptStream),
                    Some(data) => {
                        let px = match hd.filter {
                            FilterKind::Planar => {
                                if (w * h) / 2 + w * h > data.len() {
                                    Err(DecodeError::Truncated)
                                } else {
                                    Ok(planar_pixels(data, w, h))
                                }
                            },
                            FilterKind::Delta => {
                                if data.len() < 8 + h {
                                    Err(DecodeError::Truncated)
                                } else {
                                    delta_image(
                                        data.subrange(8, 8 + h as int),
                                        data.skip(8 + h as int),
                                        w,
                                        h,
                                        le16(data, 0) / 8,
                                        255,
                                    )
                                }
                            },
                        };
                        match px {
                            Ok(p) => Ok((w, h, p)),
                            Err(e) => Err(e),
                        }
                    },
                }
            }
        },
    }
}

/// Width, height and pixels of the sub-image record `rec` (read past its
/// magic) composited onto its base image in `cache`, or why there are none.
pub open spec fn sub_image(rec: Seq<u8>, cache: ImageCache) -> Result<
    (nat, nat, Seq<Pixel>),
    DecodeError,
> {
    if rec.len() < 56 {
        Err(DecodeError::Truncated)
    } else {
        let x = le16(rec, 0);
        let y = le16(rec, 2);
        let w = le16(rec, 4);
        let h = le16(rec, 6);
        let ch = le16(rec, 8) / 8;
        let comp = le32(rec, 52);
        if rec.len() < 56 + comp {
            Err(DecodeError::Truncated)
        } else {
            match decompressed(rec.subrange(56, 56 + comp as int), le32(rec, 48)) {
                None => Err(DecodeError::CorruptStream),
                Some(data) => {
                    if data.len() < h {
                        Err(DecodeError::Truncated)
                    } else {
                        match delta_image(data.take(h as int), data.skip(h as int), w, h, ch, 0) {
                            Err(e) => Err(e),
                            Ok(sub) => if nul_index(rec.subrange(10, 42), 0) >= 32 {
                                Err(DecodeError::UnsupportedFormat)
                            } else {
                                match cache.cached(key_of(rec.subrange(10, 42))) {
                                None => Err(DecodeError::MissingBaseImage),
                                Some(base) => {
                                    if x + w > base.width || y + h > base.height {
                                        Err(DecodeError::WindowOutOfBounds)
                                    } else {
                                        Ok(
                                            (
                                                base.width as nat,
                                                base.height as nat,
                                                composite(
                                                    base.pixels@,
                                                    base.width as nat,
                                                    sub,
                                                    x,
                                                    y,
                                                    w,
                                                    h,
                                                ),
                                            ),
                                        )
                                    }
                                },
                            }},
                        }
                    }
                },
            }
        }
    }
}

/// Decoding a sub-image onto its base and then decoding it again onto that
/// result gives the base back: the window is restored and the rest untouched.
pub proof fn lemma_sub_image_twice_restores(
    rec: Seq<u8>,
    cache: ImageCache,
    base: RasterImage,
    once: RasterImage,
    cache2: ImageCache,
)
    requires
        rec.len() >= 56,
        cache.cached(key_of(rec.subrange(10, 42))) == Some(base),
        sub_image(rec, cache) == Ok::<(nat, nat, Seq<Pixel>), DecodeError>(
            (once.width as nat, once.height as nat, once.pixels@),
        ),
        cache2.cached(key_of(rec.subrange(10, 42))) == Some(once),
    ensures
        sub_image(rec, cache2) == Ok::<(nat, nat, Seq<Pixel>), DecodeError>(
            (base.width as nat, base.height as nat, base.pixels@),
        ),
{
    let x = le16(rec, 0);
    let y = le16(rec, 2);
    let w = le16(rec, 4);
    let h = le16(rec, 6);
    let data = decompressed(rec.subrange(56, 56 + le32(rec, 52) as int), le32(rec, 48)).unwrap();
    let sub = delta_image(data.take(h as int), data.skip(h as int), w, h, le16(rec, 8) / 8, 0)->Ok_0;
    lemma_composite_twice_restores(base.pixels@, base.width as nat, sub, x, y, w, h);
}

/// Reconstructs a delta-filtered image: `modes` holds one mode byte per row,
/// `pix` the filtered pixel bytes.
pub fn decode_delta(
    modes: &[u8],
    pix: Vec<u8>,
    width: usize,
    height: usize,
    channels: usize,
    alpha: u8,
) -> (r: Result<Vec<Pixel>, DecodeError>)
    requires
        modes@.len() == height,
    ensures
        match r {
            Ok(v) => delta_image(
                modes@,
                pix@,
                width as nat,
                height as nat,
                channels as nat,
                alpha,
            ) == Ok::<Seq<Pixel>, DecodeError>(v@),
            Err(e) => delta_image(
                modes@,
                pix@,
                width as nat,
                height as nat,
                channels as nat,
                alpha,
            ) == Err::<Seq<Pixel>, DecodeError>(e),
        },
{
    let ghost target = delta_image(
        modes@,
        pix@,
        width as nat,
        height as nat,
        channels as nat,
        alpha,
    );
    if channels != 3 && channels != 4 {
        return Err(DecodeError::UnsupportedFormat);
    }
    assert(width * channels <= usize::MAX * 4) by (nonlinear_arith)
        requires
            channels <= 4,
            width <= usize::MAX,
    ;
    let row_bytes: u128 = (width as u128) * (channels as u128);
    if height > 0 && row_bytes > pix.len() as u128 {
        assert(height * (width * channels) >= width * channels) by (nonlinear_arith)
            requires
                height >= 1,
        ;
        return Err(DecodeError::Truncated);
    }
    let need: u128 = if height == 0 {
        0
    } else {
        assert(height * row_bytes <= usize::MAX * usize::MAX) by (nonlinear_arith)
            requires
                height <= usize::MAX,
                row_bytes <= usize::MAX,
        ;
        (height as u128) * row_bytes
    };
    if need > pix.len() as u128 {
        return Err(DecodeError::Truncated);
    }
    if height == 0 {
        let empty: Vec<Pixel> = Vec::new();
        assert(empty@ =~= delta_pixels(pix@, modes@, width as nat, 0, channels as nat, alpha));
        return Ok(empty);
    }
    assert(width * channels <= height * (width * channels)) by (nonlinear_arith)
        requires
            height >= 1,
    ;
    if modes[0] == 2 || modes[0] == 4 {
        return Err(DecodeError::UnsupportedFilterMode);
    }
    assert(width * height <= height * (width * channels)) by (nonlinear_arith)
        requires
            channels >= 3,
    ;
    let stride = width * channels;
    let mut data = pix;
    let ghost enc = data@;
    match apply_delta_filter(&mut data, modes, width, height, channels) {
        Err(e) => {
            return Err(e);
        },
        Ok(()) => {},
    }
    let count = width * height;
    assert(count * channels == height * stride) by (nonlinear_arith)
        requires
            count == width * height,
            stride == width * channels,
    ;
    let pixels = pixels_from_channels(data.as_slice(), count, channels, alpha);
    assert forall|k: int| 0 <= k < count implies #[trigger] pixels@[k] == delta_pixels(
        enc,
        modes@,
        width as nat,
        height as nat,
        channels as nat,
        alpha,
    )[k] by {
        assert(channels * k + channels <= count * channels) by (nonlinear_arith)
            requires
                0 <= k < count,
                channels > 0,
        ;
        assert(pixels@[k] == channel_pixel(data@, channels as nat, k, alpha));
    }
    assert(pixels@ =~= delta_pixels(
        enc,
        modes@,
        width as nat,
        height as nat,
        channels as nat,
        alpha,
    ));
    Ok(pixels)
}

/// Decodes a main image record, read past its magic.
pub fn decode_main(rec: &[u8]) -> (r: Result<RasterImage, DecodeError>)
    ensures
        match r {
            Ok(img) => img.wf() && main_image(rec@) == Ok::<(nat, nat, Seq<Pixel>), DecodeError>(
                (img.width as nat, img.height as nat, img.pixels@),
            ),
            Err(e) => main_image(rec@) == Err::<(nat, nat, Seq<Pixel>), DecodeError>(e),
        },
{
    let hd = match parse_main_header(rec) {
        Ok(hd) => hd,
        Err(e) => {
            return Err(e);
        },
    };
    let comp = hd.size_comp as usize;
    if rec.len() - MAIN_HEADER_LEN < comp {
        return Err(DecodeError::Truncated);
    }
    let payload = slice_subrange(rec, MAIN_HEADER_LEN, MAIN_HEADER_LEN + comp);
    let data = match decompress(payload, hd.size_orig as usize) {
        Ok(d) => d,
        Err(e) => {
            return Err(e);
        },
    };
    let w = hd.width as usize;
    let h = hd.height as usize;
    match hd.filter {
        FilterKind::Planar => {
            assert((w as int) * (h as int) <= 0xffff_ffff * 0xffff_ffff) by (nonlinear_arith)
                requires
                    w <= 0xffff_ffff,
                    h <= 0xffff_ffff,
            ;
            let size: u128 = (w as u128) * (h as u128);
            if size / 2 + size > data.len() as u128 {
                return Err(DecodeError::Truncated);
            }
            let bgr = apply_filter(data.as_slice(), w, h);
            let count = w * h;
            let pixels = pixels_from_channels(bgr.as_slice(), count, 3, 255);
            assert forall|k: int| 0 <= k < count implies #[trigger] pixels@[k] == planar_pixels(
                data@,
                w as nat,
                h as nat,
            )[k] by {
                assert(pixels@[k] == channel_pixel(bgr@, 3, k, 255));
                assert(bgr@[3 * k + 0] == planar_channel(data@, w as nat, h as nat, k, 0));
                assert(bgr@[3 * k + 1] == planar_channel(data@, w as nat, h as nat, k, 1));
                assert(bgr@[3 * k + 2] == planar_channel(data@, w as nat, h as nat, k, 2));
            }
            assert(pixels@ =~= planar_pixels(data@, w as nat, h as nat));
            Ok(RasterImage { width: w, height: h, pixels })
        },
        FilterKind::Delta => {
            if data.len() < 8 || data.len() - 8 < h {
                return Err(DecodeError::Truncated);
            }
            let channels = (read_u16(data.as_slice(), 0) / 8) as usize;
            let modes = slice_subrange(data.as_slice(), 8, 8 + h);
            let pix = vstd::slice::slice_to_vec(
                slice_subrange(data.as_slice(), 8 + h, data.len()),
            );
            assert(pix@ =~= data@.skip(8 + h as int));
            match decode_delta(modes, pix, w, h, channels, 255) {
                Ok(pixels) => {
                    assert(pixels@.len() == w * h);
                    Ok(RasterImage { width: w, height: h, pixels })
                },
                Err(e) => Err(e),
            }
        },
    }
}

/// Decodes a sub-image record, read past its magic, and composites it onto
/// its base image from `cache`. A base-name field without its NUL terminator
/// is `UnsupportedFormat`.
pub fn decode_sub(rec: &[u8], cache: &ImageCache) -> (r: Result<RasterImage, DecodeError>)
    requires
        cache.wf(),
    ensures
        match r {
            Ok(img) => img.wf() && sub_image(rec@, *cache) == Ok::<
                (nat, nat, Seq<Pixel>),
                DecodeError,
            >((img.width as nat, img.height as nat, img.pixels@)),
            Err(e) => sub_image(rec@, *cache) == Err::<(nat, nat, Seq<Pixel>), DecodeError>(e),
        },
{
    let hd = match parse_sub_header(rec) {
        Ok(hd) => hd,
        Err(e) => {
            return Err(e);
        },
    };
    let comp = hd.size_comp as usize;
    if rec.len() - SUB_HEADER_LEN < comp {
        return Err(DecodeError::Truncated);
    }
    let payload = slice_subrange(rec, SUB_HEADER_LEN, SUB_HEADER_LEN + comp);
    let data = match decompress(payload, hd.size_orig as usize) {
        Ok(d) => d,
        Err(e) => {
            return Err(e);
        },
    };
    let w = hd.width as usize;
    let h = hd.height as usize;
    if data.len() < h {
        return Err(DecodeError::Truncated);
    }
    let modes = slice_subrange(data.as_slice(), 0, h);
    let pix = vstd::slice::slice_to_vec(slice_subrange(data.as_slice(), h, data.len()));
    assert(modes@ =~= data@.take(h as int));
    assert(pix@ =~= data@.skip(h as int));
    let sub = match decode_delta(modes, pix, w, h, hd.channels as usize, 0) {
        Ok(s) => s,
        Err(e) => {
            return Err(e);
        },
    };
    if !is_terminated(hd.name.as_slice()) {
        return Err(DecodeError::UnsupportedFormat);
    }
    let key = asset_key(hd.name.as_slice());
    let base = match cache.lookup(key.as_str()) {
        Some(b) => b,
        None => {
            return Err(DecodeError::MissingBaseImage);
        },
    };
    let x = hd.x as usize;
    let y = hd.y as usize;
    if x + w > base.width || y + h > base.height {
        return Err(DecodeError::WindowOutOfBounds);
    }
    Ok(xor_composite(base, &sub, x, y, w, h))
}

} // verus!
