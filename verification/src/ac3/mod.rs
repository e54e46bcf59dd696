//! AC-3 and E-AC-3 bitstream decoding, up to the transform coefficients.

pub mod allocation;
pub mod bitalloc;
pub mod bitstream;
pub mod block;
pub mod bsi;
pub mod coupling;
pub mod eac3_bsi;
pub mod decoder;
pub mod eac3_block;
pub mod error;
pub mod exponents;
pub mod mantissa;
pub mod spectrum;
pub mod tables;
