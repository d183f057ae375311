//! The error types of the decoder.
use vstd::prelude::*;

verus! {

/// Declares `nintendo_lz`'s error for a stream that does not start with
/// a known magic number.
#[verifier::external_type_specification]
#[verifier::external_body]
pub struct ExInvalidMagicNumberError(nintendo_lz::errors::InvalidMagicNumberError);

/// Declares `nintendo_lz`'s error for a parameter out of its range.
#[verifier::external_type_specification]
#[verifier::external_body]
pub struct ExOutOfRangeError(nintendo_lz::errors::OutOfRangeError);

/// Why a buffer is too short, or does not hold the payload its header
/// describes.
#[derive(Clone, Copy, Debug, PartialEq, Eq, Structural)]
pub enum Truncation {
    /// The buffer is shorter than the 16-byte header.
    HeaderTooShort,
    /// The payload after the header does not hold exactly one pixel for each
    /// position of the padded canvas, or the header names an empty canvas.
    PayloadSize,
}

/// The decoder's error type.
#[derive(Debug)]
#[non_exhaustive]
pub enum Error {
    /// The header names a colour format code that the decoder does not know.
    ColourType(u32),
    /// The buffer ended early, or its size does not match its header.
    Truncated(Truncation),
    /// The compressed stream could not be decompressed.
    Compression(NintendoLzError),
}

/// The errors of the LZ decompressor.
#[derive(Debug)]
#[non_exhaustive]
pub enum NintendoLzError {
    /// The magic number of the compressed stream is invalid.
    InvalidMagicNumber(nintendo_lz::errors::InvalidMagicNumberError),
    /// A parameter of the compressed stream is out of range.
    OutOfRange(nintendo_lz::errors::OutOfRangeError),
    /// Any other failure of the decompressor, with its message.
    Unknown(String),
}

} // verus!
