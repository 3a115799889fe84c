use pgd_codec::archive::{AssetLoader, PacData};
use pgd_codec::compose::xor_composite;
use pgd_codec::decode::{decode_delta, decode_main, decode_sub};
use pgd_codec::delta::apply_delta_filter;
use pgd_codec::error::DecodeError;
use pgd_codec::extract::{extract_entries, is_image_name, Extracted};
use pgd_codec::header::{classify, parse_main_header, parse_sub_header, FilterKind, ImageKind};
use pgd_codec::lz::decompress;
use pgd_codec::names::{asset_key, is_terminated, same_text, ImageCache};
use pgd_codec::planar::apply_filter;
use pgd_codec::raster::{pixels_from_channels, Pixel, RasterImage};

fn px(r: u8, g: u8, b: u8, a: u8) -> Pixel {
    Pixel { r, g, b, a }
}

/// A literal-only token stream carrying `data` (at most 255 bytes).
fn literal_stream(data: &[u8]) -> Vec<u8> {
    let mut s = vec![0x00, data.len() as u8];
    s.extend_from_slice(data);
    s
}

fn put_u16(b: &mut Vec<u8>, v: u16) {
    b.extend_from_slice(&v.to_le_bytes());
}

fn put_u32(b: &mut Vec<u8>, v: u32) {
    b.extend_from_slice(&v.to_le_bytes());
}

/// A main image record, past its magic.
fn main_record(width: u32, height: u32, filter: u16, decompressed: &[u8]) -> Vec<u8> {
    let payload = literal_stream(decompressed);
    let mut r = vec![0u8; 8];
    put_u32(&mut r, width);
    put_u32(&mut r, height);
    r.extend_from_slice(&[0u8; 8]);
    put_u16(&mut r, filter);
    r.extend_from_slice(&[0u8; 2]);
    put_u32(&mut r, decompressed.len() as u32);
    put_u32(&mut r, payload.len() as u32);
    r.extend_from_slice(&payload);
    r
}

fn name_field(name: &str) -> Vec<u8> {
    let mut f = name.as_bytes().to_vec();
    f.resize(32, 0);
    f
}

/// A sub-image record, past its magic.
fn sub_record(x: u16, y: u16, w: u16, h: u16, channels: u16, base: &str, decompressed: &[u8]) -> Vec<u8> {
    let payload = literal_stream(decompressed);
    let mut r = Vec::new();
    put_u16(&mut r, x);
    put_u16(&mut r, y);
    put_u16(&mut r, w);
    put_u16(&mut r, h);
    put_u16(&mut r, channels << 3);
    r.extend_from_slice(&name_field(base));
    r.extend_from_slice(&[0u8; 6]);
    put_u32(&mut r, decompressed.len() as u32);
    put_u32(&mut r, payload.len() as u32);
    r.extend_from_slice(&payload);
    r
}

fn uniform_image(w: usize, h: usize, p: Pixel) -> RasterImage {
    RasterImage { width: w, height: h, pixels: vec![p; w * h] }
}

#[test]
fn decompress_literal_run() {
    assert_eq!(decompress(&[0x00, 3, b'a', b'b', b'c'], 3), Ok(b"abc".to_vec()));
}

#[test]
fn decompress_short_back_reference_repeats() {
    let input = [0x02, 2, 1, 2, 0x28, 0x00];
    assert_eq!(decompress(&input, 6), Ok(vec![1, 2, 1, 2, 1, 2]));
}

#[test]
fn decompress_long_back_reference() {
    let input = [0x02, 1, 0x41, 0x10, 0x00, 0x01];
    assert_eq!(decompress(&input, 6), Ok(vec![0x41; 6]));
}

#[test]
fn decompress_long_back_reference_adds_eight() {
    // tmp = 0x1000: low twelve bits 0, distance 1, so eight copies.
    let input = [0x02, 1, 0xAA, 0x10, 0x00, 0x00];
    assert_eq!(decompress(&input, 9), Ok(vec![0xAA; 9]));
    assert_eq!(decompress(&input, 6), Ok(vec![0xAA; 6]));
    assert_eq!(decompress(&input, 10), Err(DecodeError::CorruptStream));
}

#[test]
fn main_delta_channels_come_from_first_two_bytes() {
    let mut buf = vec![24, 0, 0, 0, 0, 0, 0, 0, 1];
    buf.extend_from_slice(&[1, 2, 3]);
    let img = decode_main(&main_record(1, 1, 3, &buf)).unwrap();
    assert_eq!(img.pixels, vec![px(3, 2, 1, 255)]);
    let mut buf = vec![0, 0, 24, 0, 0, 0, 0, 0, 1];
    buf.extend_from_slice(&[1, 2, 3]);
    assert_eq!(decode_main(&main_record(1, 1, 3, &buf)).unwrap_err(), DecodeError::UnsupportedFormat);
}

#[test]
fn sub_image_name_without_nul_is_rejected() {
    let name = "ABCDEFGHIJKLMNOPQRSTUVWXYZ012345";
    let mut cache = ImageCache::new();
    cache.insert(asset_key(name.as_bytes()), uniform_image(1, 1, px(1, 1, 1, 1)));
    let rec = sub_record(0, 0, 1, 1, 3, name, &[1, 1, 2, 3]);
    assert_eq!(decode_sub(&rec, &cache).unwrap_err(), DecodeError::UnsupportedFormat);
    assert!(!is_terminated(name.as_bytes()));
    assert!(is_terminated(b"ab\0cd"));
}

#[test]
fn decompress_stops_mid_run() {
    assert_eq!(decompress(&[0x00, 5, 1, 2, 3, 4, 5], 3), Ok(vec![1, 2, 3]));
    let input = [0x02, 2, 1, 2, 0x28, 0x00];
    assert_eq!(decompress(&input, 5), Ok(vec![1, 2, 1, 2, 1]));
}

#[test]
fn decompress_zero_size_reads_nothing() {
    assert_eq!(decompress(&[], 0), Ok(vec![]));
}

#[test]
fn decompress_zero_distance_is_corrupt() {
    let input = [0x02, 2, 1, 2, 0x08, 0x00];
    assert_eq!(decompress(&input, 6), Err(DecodeError::CorruptStream));
}

#[test]
fn decompress_distance_before_start_is_corrupt() {
    let input = [0x02, 2, 1, 2, 0x38, 0x00];
    assert_eq!(decompress(&input, 6), Err(DecodeError::CorruptStream));
}

#[test]
fn decompress_short_input_is_corrupt() {
    assert_eq!(decompress(&[0x00, 5, 1, 2], 5), Err(DecodeError::CorruptStream));
    assert_eq!(decompress(&[], 1), Err(DecodeError::CorruptStream));
    assert_eq!(decompress(&[0x02, 1, 7, 0x10, 0x00], 6), Err(DecodeError::CorruptStream));
}

#[test]
fn decompress_output_has_declared_size_on_every_stream() {
    for seed in 0u32..200 {
        let input: Vec<u8> = (0..24).map(|i| ((seed * 31 + i * 17) % 256) as u8).collect();
        for size in [0usize, 1, 7, 40] {
            if let Ok(out) = decompress(&input, size) {
                assert_eq!(out.len(), size);
            }
        }
    }
}

#[test]
fn delta_horizontal_row() {
    let mut d = vec![10, 20, 30, 5, 5, 5];
    assert_eq!(apply_delta_filter(&mut d, &[1], 2, 1, 3), Ok(()));
    assert_eq!(d, vec![10, 20, 30, 5, 15, 25]);
}

#[test]
fn delta_vertical_row() {
    let mut d = vec![10, 20, 30, 1, 2, 3];
    assert_eq!(apply_delta_filter(&mut d, &[1, 2], 1, 2, 3), Ok(()));
    assert_eq!(d, vec![10, 20, 30, 9, 18, 27]);
}

#[test]
fn delta_average_row() {
    let mut d = vec![100, 100, 100, 0, 0, 0, 7, 7, 7, 10, 10, 10];
    assert_eq!(apply_delta_filter(&mut d, &[1, 4], 2, 2, 3), Ok(()));
    assert_eq!(d, vec![100, 100, 100, 100, 100, 100, 7, 7, 7, 43, 43, 43]);
}

#[test]
fn delta_wraps_modulo_256() {
    let mut d = vec![0, 0, 0, 1, 1, 1];
    assert_eq!(apply_delta_filter(&mut d, &[1], 2, 1, 3), Ok(()));
    assert_eq!(d, vec![0, 0, 0, 255, 255, 255]);
}

#[test]
fn delta_unknown_mode_fails_and_keeps_data() {
    let mut d = vec![1, 2, 3, 4, 5, 6, 7, 8];
    assert_eq!(apply_delta_filter(&mut d, &[1, 3], 1, 2, 4), Err(DecodeError::UnsupportedFilterMode));
    assert_eq!(d, vec![1, 2, 3, 4, 5, 6, 7, 8]);
}

#[test]
fn delta_leaves_bytes_past_the_image() {
    let mut d = vec![10, 20, 30, 5, 5, 5, 99];
    assert_eq!(apply_delta_filter(&mut d, &[1], 2, 1, 3), Ok(()));
    assert_eq!(d[6], 99);
}

#[test]
fn delta_encoding_round_trips_every_byte() {
    for pred in 0..=255u8 {
        for orig in 0..=255u8 {
            let encoded = pred.wrapping_sub(orig);
            let mut d = vec![pred, 0, 0, encoded, 0, 0];
            apply_delta_filter(&mut d, &[1], 2, 1, 3).unwrap();
            assert_eq!(d[3], orig);
        }
    }
}

#[test]
fn delta_encoded_buffer_round_trips() {
    let (w, h, ch) = (3usize, 4usize, 4usize);
    let stride = w * ch;
    let modes = [1u8, 2, 4, 1];
    let orig: Vec<u8> = (0..h * stride).map(|i| ((i * 97 + 13) % 256) as u8).collect();
    let mut enc = orig.clone();
    for i in 0..h * stride {
        let (y, x) = (i / stride, i % stride);
        let left = if x >= ch { orig[i - ch] } else { 0 };
        let above = if i >= stride { orig[i - stride] } else { 0 };
        let pred = match modes[y] {
            1 if x >= ch => Some(left),
            2 => Some(above),
            4 if x >= ch => Some(((above as u16 + left as u16) / 2) as u8),
            _ => None,
        };
        if let Some(p) = pred {
            enc[i] = p.wrapping_sub(orig[i]);
        }
    }
    assert_ne!(enc, orig);
    apply_delta_filter(&mut enc, &modes, w, h, ch).unwrap();
    assert_eq!(enc, orig);
}

#[test]
fn delta_first_row_vertical_is_rejected_by_decode() {
    let r = decode_delta(&[2], vec![1, 2, 3], 1, 1, 3, 255);
    assert_eq!(r.unwrap_err(), DecodeError::UnsupportedFilterMode);
}

#[test]
fn decode_delta_checks_channels_and_length() {
    assert_eq!(decode_delta(&[1], vec![1, 2, 3, 4, 5], 1, 1, 5, 0).unwrap_err(), DecodeError::UnsupportedFormat);
    assert_eq!(decode_delta(&[1], vec![1, 2], 1, 1, 3, 0).unwrap_err(), DecodeError::Truncated);
}

#[test]
fn planar_neutral_chroma_copies_luma() {
    let out = apply_filter(&[0, 0, 10, 20, 30, 40], 2, 2);
    assert_eq!(out, vec![10, 10, 10, 20, 20, 20, 30, 30, 30, 40, 40, 40]);
}

#[test]
fn planar_extreme_chroma_is_clamped() {
    assert_eq!(apply_filter(&[0x80, 0x80, 0, 0, 0, 0], 2, 2)[0..3], [0, 132, 0]);
    assert_eq!(apply_filter(&[0x7f, 0x7f, 255, 255, 255, 255], 2, 2)[0..3], [255, 124, 255]);
}

#[test]
fn planar_channels_stay_clamped_for_all_extremes() {
    let vals = [0x00u8, 0x7f, 0x80, 0xff];
    for &a in &vals {
        for &b in &vals {
            for &lum in &vals {
                let out = apply_filter(&[a, b, lum, lum, lum, lum], 2, 2);
                let (sa, sb) = (a as i8 as i32, b as i8 as i32);
                let base = (lum as i32) << 7;
                let expect = |c: i32| ((base + c) >> 7).clamp(0, 255) as u8;
                assert_eq!(out[0], expect(226 * sa));
                assert_eq!(out[1], expect(-43 * sa - 89 * sb));
                assert_eq!(out[2], expect(179 * sb));
            }
        }
    }
}

#[test]
fn planar_uses_each_block_chroma() {
    // 4x2: two blocks; plane A = [0, 1], plane B = [0, 0], luma rows of 4.
    let data = [0, 1, 0, 0, 64, 64, 64, 64, 64, 64, 64, 64, 0, 0];
    let out = apply_filter(&data, 4, 2);
    assert_eq!(out[0], 64);
    assert_eq!(out[3 * 2], 65);
    assert_eq!(out[3 * 7], 65);
}

#[test]
fn pixels_from_channels_swaps_to_rgba() {
    assert_eq!(pixels_from_channels(&[1, 2, 3], 1, 3, 9), vec![px(3, 2, 1, 9)]);
    assert_eq!(pixels_from_channels(&[1, 2, 3, 4], 1, 4, 9), vec![px(3, 2, 1, 4)]);
}

#[test]
fn composite_xors_only_the_window() {
    let base = uniform_image(2, 2, px(0x30, 0x20, 0x10, 0x40));
    let out = xor_composite(&base, &vec![px(3, 2, 1, 0)], 1, 1, 1, 1);
    assert_eq!(out.pixels[3], px(0x33, 0x22, 0x11, 0x40));
    assert_eq!(&out.pixels[0..3], &base.pixels[0..3]);
}

#[test]
fn composite_twice_restores_base() {
    let base = RasterImage {
        width: 3,
        height: 2,
        pixels: (0..6u8).map(|i| px(i, i * 3, i * 7, 200 - i)).collect(),
    };
    let sub = vec![px(0xff, 1, 2, 3), px(4, 5, 6, 7)];
    let once = xor_composite(&base, &sub, 1, 0, 1, 2);
    assert_ne!(once.pixels, base.pixels);
    let twice = xor_composite(&once, &sub, 1, 0, 1, 2);
    assert_eq!(twice.pixels, base.pixels);
}

#[test]
fn header_kinds() {
    assert_eq!(classify(&[0x47, 0x45, 0x20, 0x00, 1]), Ok(ImageKind::Main));
    assert_eq!(classify(&[0x50, 0x47, 0x44, 0x33]), Ok(ImageKind::Sub));
    assert_eq!(classify(&[0x50, 0x41, 0x43, 0x20]), Err(DecodeError::UnsupportedFormat));
    assert_eq!(classify(&[0x47]), Err(DecodeError::Truncated));
}

#[test]
fn main_header_fields() {
    let rec = main_record(640, 480, 2, &[1, 2, 3]);
    let hd = parse_main_header(&rec).unwrap();
    assert_eq!((hd.width, hd.height, hd.filter, hd.size_orig, hd.size_comp), (640, 480, FilterKind::Planar, 3, 5));
    let rec = main_record(1, 1, 7, &[]);
    assert_eq!(parse_main_header(&rec), Err(DecodeError::UnsupportedFormat));
    assert_eq!(parse_main_header(&rec[..35]), Err(DecodeError::Truncated));
}

#[test]
fn sub_header_fields() {
    let rec = sub_record(3, 4, 5, 6, 4, "Base.PGD", &[9]);
    let hd = parse_sub_header(&rec).unwrap();
    assert_eq!((hd.x, hd.y, hd.width, hd.height, hd.channels), (3, 4, 5, 6, 4));
    assert_eq!(hd.name, name_field("Base.PGD"));
    assert_eq!((hd.size_orig, hd.size_comp), (1, 3));
    assert!(parse_sub_header(&rec[..55]).is_err());
}

#[test]
fn main_delta_image_end_to_end() {
    let mut buf = vec![24, 0, 0, 0, 0, 0, 0, 0, 1, 1];
    buf.extend_from_slice(&[10, 20, 30, 5, 5, 5, 50, 60, 70, 1, 2, 3]);
    let img = decode_main(&main_record(2, 2, 3, &buf)).unwrap();
    assert_eq!((img.width, img.height), (2, 2));
    assert_eq!(
        img.pixels,
        vec![px(30, 20, 10, 255), px(25, 15, 5, 255), px(70, 60, 50, 255), px(67, 58, 49, 255)]
    );
}

#[test]
fn main_delta_image_with_alpha() {
    let mut buf = vec![32, 0, 0, 0, 0, 0, 0, 0, 1];
    buf.extend_from_slice(&[1, 2, 3, 4]);
    let img = decode_main(&main_record(1, 1, 3, &buf)).unwrap();
    assert_eq!(img.pixels, vec![px(3, 2, 1, 4)]);
}

#[test]
fn main_planar_image_end_to_end() {
    let img = decode_main(&main_record(2, 2, 2, &[0, 0, 10, 20, 30, 40])).unwrap();
    assert_eq!(img.pixels, vec![px(10, 10, 10, 255), px(20, 20, 20, 255), px(30, 30, 30, 255), px(40, 40, 40, 255)]);
}

#[test]
fn main_image_errors() {
    assert_eq!(decode_main(&main_record(2, 2, 2, &[0, 0, 1])).unwrap_err(), DecodeError::Truncated);
    let buf = [40, 0, 0, 0, 0, 0, 0, 0, 1, 9, 9, 9, 9, 9];
    assert_eq!(decode_main(&main_record(1, 1, 3, &buf)).unwrap_err(), DecodeError::UnsupportedFormat);
    let buf = [24, 0, 0, 0, 0, 0, 0, 0, 4, 9, 9, 9];
    assert_eq!(decode_main(&main_record(1, 1, 3, &buf)).unwrap_err(), DecodeError::UnsupportedFilterMode);
    let buf = [24, 0, 0, 0, 0, 0, 0, 0, 6, 9, 9, 9];
    assert_eq!(decode_main(&main_record(1, 1, 3, &buf)).unwrap_err(), DecodeError::UnsupportedFilterMode);
    let mut rec = main_record(1, 1, 3, &[1, 2, 3]);
    rec.truncate(rec.len() - 1);
    assert_eq!(decode_main(&rec).unwrap_err(), DecodeError::Truncated);
    let mut rec = main_record(1, 1, 3, &[]);
    rec.extend_from_slice(&[0x01, 0x00, 0x00]);
    let n = rec.len();
    rec[28] = 4;
    rec[32] = (n - 36) as u8;
    assert_eq!(decode_main(&rec).unwrap_err(), DecodeError::CorruptStream);
}

#[test]
fn base_name_lookup_ignores_case() {
    let mut cache = ImageCache::new();
    cache.insert(asset_key(&name_field("image")), uniform_image(2, 2, px(0x30, 0x20, 0x10, 0x40)));
    let rec = sub_record(1, 1, 1, 1, 3, "Image", &[1, 1, 2, 3]);
    let img = decode_sub(&rec, &cache).unwrap();
    assert_eq!(img.pixels[3], px(0x33, 0x22, 0x11, 0x40));
    assert_eq!(img.pixels[0], px(0x30, 0x20, 0x10, 0x40));
}

#[test]
fn sub_image_errors() {
    let mut cache = ImageCache::new();
    cache.insert(asset_key(&name_field("base")), uniform_image(2, 2, px(1, 1, 1, 1)));
    let rec = sub_record(0, 0, 1, 1, 3, "other", &[1, 1, 2, 3]);
    assert_eq!(decode_sub(&rec, &cache).unwrap_err(), DecodeError::MissingBaseImage);
    let rec = sub_record(2, 0, 1, 1, 3, "BASE", &[1, 1, 2, 3]);
    assert_eq!(decode_sub(&rec, &cache).unwrap_err(), DecodeError::WindowOutOfBounds);
    let rec = sub_record(0, 0, 1, 1, 3, "base", &[5, 1, 2, 3]);
    assert_eq!(decode_sub(&rec, &cache).unwrap_err(), DecodeError::UnsupportedFilterMode);
}

#[test]
fn sub_image_alpha_channel_is_xored() {
    let mut cache = ImageCache::new();
    cache.insert(asset_key(&name_field("base")), uniform_image(1, 1, px(0, 0, 0, 0xf0)));
    let rec = sub_record(0, 0, 1, 1, 4, "base", &[1, 1, 2, 3, 0x0f]);
    assert_eq!(decode_sub(&rec, &cache).unwrap().pixels, vec![px(3, 2, 1, 0xff)]);
}

#[test]
fn cache_later_insert_hides_earlier() {
    let mut cache = ImageCache::new();
    cache.insert(asset_key(b"a"), uniform_image(1, 1, px(1, 1, 1, 1)));
    cache.insert(asset_key(b"a"), uniform_image(1, 1, px(2, 2, 2, 2)));
    assert_eq!(cache.lookup("a").unwrap().pixels, vec![px(2, 2, 2, 2)]);
    assert!(cache.lookup("b").is_none());
}

#[test]
fn names_lower_case_and_stop_at_nul() {
    assert_eq!(asset_key(b"MiXeD.PgD\0junk"), "mixed.pgd");
    assert_eq!(asset_key(b"Plain\0"), "plain");
    assert_eq!(asset_key(&[0xff, b'A', 0, b'B']), "\u{fffd}a");
    assert!(same_text("abc", "abc"));
    assert!(!same_text("abc", "abd"));
    assert!(is_image_name("x.pgd"));
    assert!(!is_image_name("x.txt"));
}

/// An archive with the given entries (name, data).
fn archive(entries: &[(&str, Vec<u8>)]) -> Vec<u8> {
    let mut b = b"PAC ".to_vec();
    b.extend_from_slice(&[0u8; 4]);
    b.extend_from_slice(&(entries.len() as u64).to_le_bytes());
    b.resize(0x0804, 0);
    let mut offset = 0x0804 + 40 * entries.len();
    for (name, data) in entries {
        b.extend_from_slice(&name_field(name));
        put_u32(&mut b, data.len() as u32);
        put_u32(&mut b, offset as u32);
        offset += data.len();
    }
    for (_, data) in entries {
        b.extend_from_slice(data);
    }
    b
}

#[test]
fn empty_archive_has_no_entries() {
    let bytes = archive(&[]);
    let pac = PacData::new("empty.pac").build(&bytes).unwrap();
    assert!(pac.metadata.is_empty());
    let (outs, _) = extract_entries(&bytes, &pac.metadata);
    assert!(outs.is_empty());
}

#[test]
fn short_empty_archive_has_no_entries() {
    let mut bytes = b"PAC ".to_vec();
    bytes.extend_from_slice(&[0u8; 4]);
    bytes.extend_from_slice(&0u64.to_le_bytes());
    assert_eq!(bytes.len(), 16);
    let pac = PacData::new("short.pac").build(&bytes).unwrap();
    assert!(pac.metadata.is_empty());
    assert_eq!(pac.name, "short.pac");
    let (outs, _) = extract_entries(&bytes, &pac.metadata);
    assert!(outs.is_empty());
}

#[test]
fn short_archive_count_field_is_truncated() {
    assert_eq!(PacData::new("t.pac").build(b"PAC \0\0\0\0\0").unwrap_err(), DecodeError::Truncated);
}

#[test]
fn non_archive_has_no_entries() {
    let pac = PacData::new("x.pac").build(b"nope").unwrap();
    assert!(pac.metadata.is_empty());
    assert_eq!(pac.name, "x.pac");
}

#[test]
fn truncated_table_is_reported() {
    let mut bytes = archive(&[("a.txt", vec![1])]);
    bytes.truncate(0x0804 + 20);
    assert_eq!(PacData::new("t.pac").build(&bytes).unwrap_err(), DecodeError::Truncated);
}

#[test]
fn archive_entries_are_read_in_order() {
    let bytes = archive(&[("Foo.TXT", b"abc".to_vec()), ("bar", vec![7])]);
    let pac = PacData::new("a.pac").build(&bytes).unwrap();
    assert_eq!(pac.metadata.len(), 2);
    assert_eq!(pac.metadata[0].name, "foo.txt");
    assert_eq!(pac.metadata[0].len, 3);
    assert_eq!(pac.metadata[0].offset, 0x0804 + 80);
    assert_eq!(pac.metadata[1].name, "bar");
}

#[test]
fn archive_later_row_of_a_name_wins() {
    let bytes = archive(&[("a.txt", vec![1]), ("b.txt", vec![9]), ("A.TXT", vec![2, 3])]);
    let pac = PacData::new("d.pac").build(&bytes).unwrap();
    assert_eq!(pac.metadata.len(), 2);
    let a = pac.metadata.iter().find(|e| e.name == "a.txt").unwrap();
    assert_eq!(a.len, 2);
    assert_eq!(a.offset, 0x0804 + 120 + 2);
    assert!(pac.metadata.iter().any(|e| e.name == "b.txt"));
}

#[test]
fn extraction_decodes_main_before_sub() {
    let mut sub = b"PGD3".to_vec();
    sub.extend_from_slice(&sub_record(0, 0, 1, 1, 3, "BASE.PGD", &[1, 1, 2, 3]));
    let mut main = vec![0x47, 0x45, 0x20, 0x00];
    let mut buf = vec![24, 0, 0, 0, 0, 0, 0, 0, 1];
    buf.extend_from_slice(&[0x10, 0x20, 0x30]);
    main.extend_from_slice(&main_record(1, 1, 3, &buf));
    let bytes = archive(&[
        ("over.pgd", sub),
        ("base.pgd", main),
        ("note.txt", b"hi".to_vec()),
        ("bad.pgd", vec![1, 2, 3, 4, 5]),
    ]);
    let pac = PacData::new("a.pac").build(&bytes).unwrap();
    let (outs, cache) = extract_entries(&bytes, &pac.metadata);
    assert_eq!(outs.len(), 4);
    match &outs[0] {
        Extracted::Image(img) => assert_eq!(img.pixels, vec![px(0x33, 0x22, 0x11, 255)]),
        other => panic!("{:?}", other),
    }
    match &outs[1] {
        Extracted::Image(img) => assert_eq!(img.pixels, vec![px(0x30, 0x20, 0x10, 255)]),
        other => panic!("{:?}", other),
    }
    match &outs[2] {
        Extracted::Raw(v) => assert_eq!(v, b"hi"),
        other => panic!("{:?}", other),
    }
    assert!(matches!(outs[3], Extracted::Failed(DecodeError::UnsupportedFormat)));
    assert!(cache.lookup("base.pgd").is_some());
}

#[test]
fn loader_starts_empty() {
    let l = AssetLoader::new("assets");
    assert_eq!(l.name, "assets");
    assert!(l.data.is_empty());
}
