//! The fixed little-endian layouts of image records.
use vstd::prelude::*;

use crate::error::DecodeError;

verus! {

/// Little-endian 16-bit field at `i`.
pub open spec fn le16(b: Seq<u8>, i: int) -> nat {
    b[i] as nat + 256 * (b[i + 1] as nat)
}

/// Little-endian 32-bit field at `i`.
pub open spec fn le32(b: Seq<u8>, i: int) -> nat {
    le16(b, i) + 65536 * le16(b, i + 2)
}

/// Reads the little-endian 16-bit field at `i`.
pub fn read_u16(b: &[u8], i: usize) -> (r: u16)
    requires
        i + 2 <= b@.len(),
    ensures
        r as nat == le16(b@, i as int),
{
    b[i] as u16 + (b[i + 1] as u16) * 256
}

/// Reads the little-endian 32-bit field at `i`.
pub fn read_u32(b: &[u8], i: usize) -> (r: u32)
    requires
        i + 4 <= b.len(),
    ensures
        r as nat == le32(b@, i as int),
{
    let lo = read_u16(b, i) as u32;
    let hi = read_u16(b, i + 2) as u32;
    assert(hi * 65536 <= 65535 * 65536) by (nonlinear_arith)
        requires
            hi <= 65535,
    ;
    lo + hi * 65536
}

/// The two kinds of image record, told apart by their four magic bytes.
#[derive(Debug, Clone, Copy, PartialEq, Eq, Structural)]
pub enum ImageKind {
    /// `47 45 20 00`: an image decoded on its own.
    Main,
    /// `50 47 44 33`: an image XORed onto a main image.
    Sub,
}

/// The kind of the record `rec` by its magic bytes.
pub open spec fn kind_of(rec: Seq<u8>) -> Result<ImageKind, DecodeError> {
    if rec.len() < 4 {
        Err(DecodeError::Truncated)
    } else if rec[0] == 0x47 && rec[1] == 0x45 && rec[2] == 0x20 && rec[3] == 0 {
        Ok(ImageKind::Main)
    } else if rec[0] == 0x50 && rec[1] == 0x47 && rec[2] == 0x44 && rec[3] == 0x33 {
        Ok(ImageKind::Sub)
    } else {
        Err(DecodeError::UnsupportedFormat)
    }
}

/// Tells a record's kind by its magic bytes.
pub fn classify(rec: &[u8]) -> (r: Result<ImageKind, DecodeError>)
    ensures
        r == kind_of(rec@),
{
    if rec.len() < 4 {
        Err(DecodeError::Truncated)
    } else if rec[0] == 0x47 && rec[1] == 0x45 && rec[2] == 0x20 && rec[3] == 0 {
        Ok(ImageKind::Main)
    } else if rec[0] == 0x50 && rec[1] == 0x47 && rec[2] == 0x44 && rec[3] == 0x33 {
        Ok(ImageKind::Sub)
    } else {
        Err(DecodeError::UnsupportedFormat)
    }
}

/// The pixel filter of a main image.
#[derive(Debug, Clone, Copy, PartialEq, Eq, Structural)]
pub enum FilterKind {
    /// Kind 2: planar chroma and luma.
    Planar,
    /// Kind 3: row-predictive deltas.
    Delta,
}

/// Header of a main image.
#[derive(Debug, Clone, Copy, PartialEq, Eq, Structural)]
pub struct MainHeader {
    pub width: u32,
    pub height: u32,
    pub filter: FilterKind,
    pub size_orig: u32,
    pub size_comp: u32,
}

/// Bytes of a main image header after its magic; the payload follows.
pub const MAIN_HEADER_LEN: usize = 36;

/// Bytes of a sub-image header after its magic; the payload follows.
pub const SUB_HEADER_LEN: usize = 56;

/// The header of a main image record whose magic has been read: 8 bytes
/// skipped, width and height (32 bits each), 8 bytes skipped, the filter kind
/// (16 bits), 2 bytes skipped, the decompressed and the compressed size
/// (32 bits each).
pub open spec fn main_header_of(rec: Seq<u8>) -> Result<MainHeader, DecodeError> {
    if rec.len() < 36 {
        Err(DecodeError::Truncated)
    } else if le16(rec, 24) != 2 && le16(rec, 24) != 3 {
        Err(DecodeError::UnsupportedFormat)
    } else {
        Ok(
            MainHeader {
                width: le32(rec, 8) as u32,
                height: le32(rec, 12) as u32,
                filter: if le16(rec, 24) == 2 {
                    FilterKind::Planar
                } else {
                    FilterKind::Delta
                },
                size_orig: le32(rec, 28) as u32,
                size_comp: le32(rec, 32) as u32,
            },
        )
    }
}

/// Reads the header of a main image record whose magic has been read.
pub fn parse_main_header(rec: &[u8]) -> (r: Result<MainHeader, DecodeError>)
    ensures
        r == main_header_of(rec@),
{
    if rec.len() < MAIN_HEADER_LEN {
        return Err(DecodeError::Truncated);
    }
    let kind = read_u16(rec, 24);
    let filter = if kind == 2 {
        FilterKind::Planar
    } else if kind == 3 {
        FilterKind::Delta
    } else {
        return Err(DecodeError::UnsupportedFormat);
    };
    Ok(
        MainHeader {
            width: read_u32(rec, 8),
            height: read_u32(rec, 12),
            filter,
            size_orig: read_u32(rec, 28),
            size_comp: read_u32(rec, 32),
        },
    )
}

/// Header of a sub-image.
#[derive(Debug)]
pub struct SubHeader {
    pub x: u16,
    pub y: u16,
    pub width: u16,
    pub height: u16,
    pub channels: u16,
    /// The NUL-terminated name of the base image, 32 bytes.
    pub name: Vec<u8>,
    pub size_orig: u32,
    pub size_comp: u32,
}

/// Reads the header of a sub-image record whose magic has been read: x, y,
/// width, height and the packed channel field (16 bits each; the count is the
/// field shifted right by three), the 32-byte base name, 6 bytes skipped, the
/// decompressed and the compressed size (32 bits each).
pub fn parse_sub_header(rec: &[u8]) -> (r: Result<SubHeader, DecodeError>)
    ensures
        rec@.len() < 56 <==> r is Err,
        r is Err ==> r matches Err(DecodeError::Truncated),
        r matches Ok(hd) ==> {
            &&& hd.x as nat == le16(rec@, 0)
            &&& hd.y as nat == le16(rec@, 2)
            &&& hd.width as nat == le16(rec@, 4)
            &&& hd.height as nat == le16(rec@, 6)
            &&& hd.channels as nat == le16(rec@, 8) / 8
            &&& hd.name@ == rec@.subrange(10, 42)
            &&& hd.size_orig as nat == le32(rec@, 48)
            &&& hd.size_comp as nat == le32(rec@, 52)
        },
{
    if rec.len() < SUB_HEADER_LEN {
        return Err(DecodeError::Truncated);
    }
    let name = vstd::slice::slice_to_vec(vstd::slice::slice_subrange(rec, 10, 42));
    Ok(
        SubHeader {
            x: read_u16(rec, 0),
            y: read_u16(rec, 2),
            width: read_u16(rec, 4),
            height: read_u16(rec, 6),
            channels: read_u16(rec, 8) / 8,
            name,
            size_orig: read_u32(rec, 48),
            size_comp: read_u32(rec, 52),
        },
    )
}

} // verus!
