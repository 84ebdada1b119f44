//! The error taxonomy: I/O failures, format validation failures,
//! structural corruption, bounds violations and processing failures.

use vstd::prelude::*;

verus! {

/// Relies on `std::io::Error` being an ordinary (if opaque) value type;
/// the library only carries such a value through to its caller.
#[verifier::external_type_specification]
#[verifier::external_body]
pub struct ExIoError(std::io::Error);

/// Everything that can go wrong while encoding, decoding, mapping or
/// processing a file of this format.
#[derive(Debug)]
pub enum IbuError {
    /// A failure of the underlying byte source or sink, always propagated.
    Io(std::io::Error),
    /// The first four header bytes do not spell the format's magic number.
    InvalidMagicNumber { expected: u32, actual: u32 },
    /// A stream ended inside a record; `pos` is the byte offset at which
    /// the incomplete record begins.
    TruncatedRecord { pos: usize },
    /// The header names a format version this library does not support.
    InvalidVersion { expected: u32, actual: u32 },
    /// The barcode length is outside 1..=32.
    InvalidBarcodeLength(u32),
    /// The UMI length is outside 1..=32.
    InvalidUmiLength(u32),
    /// The byte count after the header is not a multiple of the record size.
    InvalidMapSize,
    /// A slice request against a mapped view was out of range or inverted;
    /// `max` is the number of records in the view.
    InvalidIndex { idx: usize, max: usize },
    /// An error surfaced by caller-supplied processing logic.
    Process(String),
}

/// The usual result type of this library's fallible operations.
pub type Result<T> = core::result::Result<T, IbuError>;

/// Relies on `std::io::Error::new` to build the error value that
/// reports a source ending before a fixed-size value was complete.
#[verifier::external_body]
pub(crate) fn unexpected_eof_error() -> std::io::Error {
    std::io::Error::new(
        std::io::ErrorKind::UnexpectedEof,
        "source ended before the end of a fixed-size value",
    )
}

} // verus!
