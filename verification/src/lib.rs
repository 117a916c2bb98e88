//! A lossy still-image codec: RGB rasters are recoded as luma/chroma samples,
//! decorrelated over 2x2 pixel blocks, quantized into narrow integer codes and
//! packed six fields to a 32-bit codeword.
//!
//! Real-valued samples are carried as exact fixed-point numbers: an `i64`
//! counting millionths of a unit. Every coefficient of the color transform and
//! the quantizer limit have at most six decimal places, so the linear algebra
//! of the codec is exact integer arithmetic here, rounded once per stage.
//!
//! Reading and writing image files and codeword streams, and the non-uniform
//! chroma level table, are outside collaborators: they live with the binary
//! around this library, which only ever sees plain integers.

pub mod bitfield;
pub mod codec;
pub mod codeword;
pub mod color;
pub mod fixed;
pub mod grid;
pub mod quantize;
pub mod transform;

