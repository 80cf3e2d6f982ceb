//! Streaming CSV alignment and row decoding.
//!
//! The crate turns a byte stream, delivered in chunks of arbitrary size, into
//! batches of complete rows and then into typed column values.  A stateful
//! aligner carries the bytes of an incomplete trailing row from one chunk to
//! the next, enforces a fixed field count per row, and can skip a number of
//! header rows; a stateless decoder trims each field, recognises the null
//! marker, and appends parsed values to column builders.
use vstd::prelude::*;

pub mod error;
pub mod config;
pub mod tokenizer;
pub mod batch;
pub mod aligner;
pub mod decoder;

verus! {

/// The CSV input format: row alignment (`align`) and row decoding
/// (`deserialize`, `read_row`) over a configuration (`get_format_settings`).
pub struct InputFormatCSV {}

} // verus!
