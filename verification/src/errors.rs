//! Error types.

use vstd::prelude::*;

verus! {

/// Declares the standard library's I/O error so that error values of this library can carry the
/// I/O errors that reading or writing device files gave.
#[verifier::external_type_specification]
#[verifier::external_body]
pub struct ExIoError(std::io::Error);

/// Wrong magic value encountered.
#[derive(Debug, Clone, Copy, PartialEq, Eq)]
pub struct WrongMagicError {
    /// Encountered value in the data.
    pub value: [u8; 4],
}

/// Calculated checksum did not match the expected value.
#[derive(Debug, Clone, Copy, PartialEq, Eq)]
pub struct ChecksumError {
    /// Calculated value.
    pub calculated: u32,
    /// Expected value in the data.
    pub expected: u32,
}

/// Less data received than expected.
#[derive(Debug, Clone, Copy, PartialEq, Eq)]
pub struct MissingDataError {
    /// Length of the data received.
    pub length: usize,
    /// Expected length of the data.
    pub expected: usize,
}

/// CBOR payload parsing failed.
///
/// Mirrors the errors of the CBOR decoder.
#[derive(Debug, Clone)]
pub enum CBORParsingError {
    /// IO failure.
    Io,
    /// Syntax error at offset.
    Syntax(usize),
    /// Semantic error with description and offset.
    Semantic(String, Option<usize>),
    /// Serde tried to recurse too much.
    RecursionLimitExceeded,
}

/// Failed to convert some payload or config data.
#[derive(Debug, Clone, Copy, PartialEq, Eq)]
pub enum ExtraValueConversionError {
    /// Integer type is not yet supported.
    UnsupportedIntegerType,
    /// Map keys were not all strings.
    MapKeysMustBeStrings,
    /// Unsupported value type encountered.
    UnsupportedValueType,
}

} // verus!
