use vstd::prelude::*;

verus! {

/// Why an asset could not be decoded.
#[derive(Debug, Clone, Copy, PartialEq, Eq, Structural)]
pub enum DecodeError {
    /// A read or a back-reference of the compressed stream went out of bounds.
    CorruptStream,
    /// A magic value, filter kind or channel count that this decoder does not
    /// know, or a name field without its NUL terminator.
    UnsupportedFormat,
    /// A row of a delta-filtered image selects an unknown (or, on the first row, an unusable) predictor.
    UnsupportedFilterMode,
    /// A sub-image names a base image that was not decoded.
    MissingBaseImage,
    /// A sub-image window does not fit inside its base image.
    WindowOutOfBounds,
    /// A record ends before its fixed-size header or its payload.
    Truncated,
}

} // verus!
