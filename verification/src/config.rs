//! Per-stream format settings, validated once when a stream is opened.
use vstd::prelude::*;

use crate::error::ConfigErrorKind;
use crate::error::CsvError;
use crate::InputFormatCSV;

verus! {

/// How records are terminated: any of `\r`, `\n`, `\r\n`, or one fixed byte.
#[derive(Debug, Clone, Copy, PartialEq, Eq, Structural)]
pub enum RecordDelimiter {
    Crlf,
    Any(u8),
}

/// The immutable per-stream settings captured when the stream is opened.
#[derive(Debug)]
pub struct FormatSettings {
    pub field_delimiter: u8,
    pub record_delimiter: RecordDelimiter,
    pub quote_char: u8,
    /// The byte sequence that denotes an explicit null field (default `\N`).
    pub null_bytes: Vec<u8>,
    /// Whether an empty field produces the column's default value.
    pub empty_as_default: bool,
}

impl InputFormatCSV {
    /// The field delimiter used when none is configured.
    pub fn default_field_delimiter() -> (r: u8)
        ensures
            r == 44u8,
    {
        44u8
    }

    /// Builds the per-stream settings from raw configured byte strings.
    /// The quote must be exactly one byte; the field delimiter one byte or
    /// empty (for the default `,`); the record delimiter empty (for the
    /// default `\r`/`\n`/`\r\n`), one byte, or the two bytes `\r\n`.
    pub fn get_format_settings(
        field_delimiter: &Vec<u8>,
        record_delimiter: &Vec<u8>,
        quote: &Vec<u8>,
        empty_as_default: bool,
    ) -> (r: Result<FormatSettings, CsvError>)
        ensures
            r.is_ok() <==> quote@.len() == 1 && (field_delimiter@.len() == 0
                || field_delimiter@.len() == 1) && (record_delimiter@.len() == 0
                || record_delimiter@.len() == 1 || (record_delimiter@.len() == 2
                && record_delimiter@ == seq![13u8, 10u8])),
            r.is_ok() ==> ({
                let s = r.unwrap();
                &&& s.quote_char == quote@[0]
                &&& s.field_delimiter == (if field_delimiter@.len() == 1 {
                    field_delimiter@[0]
                } else {
                    44u8
                })
                &&& s.record_delimiter == (if record_delimiter@.len() == 1 {
                    RecordDelimiter::Any(record_delimiter@[0])
                } else {
                    RecordDelimiter::Crlf
                })
                &&& s.null_bytes@ == seq![92u8, 78u8]
                &&& s.empty_as_default == empty_as_default
            }),
            r.is_err() ==> (r matches Err(CsvError::Configuration { kind }) && (
                kind matches ConfigErrorKind::QuoteNotSingleByte { len } ==> len == quote@.len())),
    {
        if quote.len() != 1 {
            return Err(CsvError::Configuration {
                kind: ConfigErrorKind::QuoteNotSingleByte { len: quote.len() },
            });
        }
        let fd: u8 = if field_delimiter.len() == 0 {
            Self::default_field_delimiter()
        } else if field_delimiter.len() == 1 {
            field_delimiter[0]
        } else {
            return Err(CsvError::Configuration {
                kind: ConfigErrorKind::FieldDelimiterNotSingleByte { len: field_delimiter.len() },
            });
        };
        let rd: RecordDelimiter = if record_delimiter.len() == 0 {
            RecordDelimiter::Crlf
        } else if record_delimiter.len() == 1 {
            RecordDelimiter::Any(record_delimiter[0])
        } else if record_delimiter.len() == 2 && record_delimiter[0] == 13u8
            && record_delimiter[1] == 10u8 {
            proof {
                assert(record_delimiter@ =~= seq![13u8, 10u8]);
            }
            RecordDelimiter::Crlf
        } else {
            return Err(CsvError::Configuration {
                kind: ConfigErrorKind::RecordDelimiterInvalid { len: record_delimiter.len() },
            });
        };
        let mut null_bytes: Vec<u8> = Vec::new();
        null_bytes.push(92u8);
        null_bytes.push(78u8);
        proof {
            assert(null_bytes@ =~= seq![92u8, 78u8]);
        }
        Ok(FormatSettings {
            field_delimiter: fd,
            record_delimiter: rd,
            quote_char: quote[0],
            null_bytes,
            empty_as_default,
        })
    }
}

} // verus!
