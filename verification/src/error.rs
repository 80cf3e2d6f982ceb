//! Structured errors for configuration, row alignment and field decoding.
use vstd::prelude::*;

verus! {

/// Why a configuration was rejected when a stream was opened.
#[derive(Debug, Clone, Copy, PartialEq, Eq, Structural)]
pub enum ConfigErrorKind {
    /// The quote must be exactly one byte; `len` is what was given.
    QuoteNotSingleByte { len: usize },
    /// The field delimiter must be exactly one byte (or absent for the default).
    FieldDelimiterNotSingleByte { len: usize },
    /// The record delimiter must be one byte, `\r\n`, or absent for the default.
    RecordDelimiterInvalid { len: usize },
    /// The schema must have at least one field.
    NoFields,
}

/// Why a completed row was rejected by the aligner.
#[derive(Debug, Clone, Copy, PartialEq, Eq, Structural)]
pub enum RowErrorKind {
    /// Fewer field ends than the schema requires.
    TooFewFields { expected: usize, found: usize },
    /// More field ends than the schema allows, even with the trailing-delimiter
    /// exception.
    TooManyFields { expected: usize, found: usize },
    /// The scratch table of field ends filled up before the record ended.
    FieldEndsOverflow { expected: usize, capacity: usize },
    /// Exactly one extra field end, but with data after the trailing delimiter.
    DataAfterTrailingDelimiter,
    /// The byte stream ended inside an unterminated record.
    UnexpectedEndOfInput,
}

/// Why a single field's bytes failed to decode.
#[derive(Debug, Clone, Copy, PartialEq, Eq, Structural)]
pub enum FieldErrorKind {
    /// The bytes do not parse as the column's type.
    Parse,
    /// A value parsed, but bytes remained after it.
    TrailingBytes,
}

/// Any failure of this crate.  All errors are fatal for the unit they concern:
/// a configuration error at open, a malformed row for the stream, a malformed
/// field for the batch.
#[derive(Debug)]
#[allow(inconsistent_fields)]
pub enum CsvError {
    /// Bad settings, detected when the stream is opened.
    Configuration { kind: ConfigErrorKind },
    /// The byte stream itself is invalid at the given row.
    MalformedRow { path: String, row: usize, kind: RowErrorKind },
    /// One field of one row failed to decode; carries the raw bytes.
    MalformedField {
        path: String,
        row: usize,
        column: usize,
        column_name: String,
        raw: Vec<u8>,
        kind: FieldErrorKind,
    },
    /// A sizing invariant was violated: an implementation bug, not bad data.
    Internal { row: usize },
}

} // verus!
