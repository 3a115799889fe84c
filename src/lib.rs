//! Decoder for the compressed raster images stored in flat asset archives:
//! an LZ-style token stream, a planar and a row-delta pixel filter, and XOR
//! compositing of sub-images onto the images they are based on.
pub mod error;
pub mod lz;
pub mod delta;
pub mod raster;
pub mod planar;
pub mod compose;
pub mod names;
pub mod header;
pub mod decode;
pub mod archive;
pub mod extract;
