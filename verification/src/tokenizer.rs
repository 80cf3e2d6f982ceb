//! The byte-level tokenizer: trusted declarations around `csv_core`.
//!
//! `csv_core::Reader` is a resumable CSV state machine: one call of
//! `read_record` consumes input bytes, writes the record's unescaped bytes to
//! an output buffer and the end offset of each field to an `ends` buffer, and
//! reports why it stopped.  All quote and escape interpretation happens there;
//! nothing downstream re-interprets quoting.  The contracts below state what
//! `csv_core`'s source shows of each call, over named aspects of the opaque
//! reader state: how many unescaped bytes of the current, not yet terminated
//! record earlier calls have produced; whether the reader stands inside such
//! a record at all; and, for a given byte sequence, which records it would
//! complete in it and with which field ends.
use vstd::prelude::*;

use crate::config::RecordDelimiter;

verus! {

#[verifier::external_type_specification]
#[verifier::external_body]
pub struct ExReader(csv_core::Reader);

/// The number of unescaped output bytes that earlier `read_record` calls have
/// produced for the record currently in progress (the reader's internal
/// output position, reset to zero whenever a record completes).
pub uninterp spec fn csv_pending_output(r: csv_core::Reader) -> nat;

/// Whether the reader stands inside a record whose terminator it has not yet
/// seen, so that exhausting the input now would complete that record.
pub uninterp spec fn csv_in_record(r: csv_core::Reader) -> bool;

/// What the reader, in this state, yields from these bytes: one entry per
/// record it completes while consuming them (buffers assumed large enough;
/// the end-of-input flush of an unterminated record not counted), holding the
/// field-end offsets it records from these bytes for that record.  Offsets
/// count from the start of the record's unescaped output, output already
/// pending from earlier bytes included, so for a record begun earlier only
/// the ends not yet recorded appear.  The reader is a deterministic state
/// machine, so this is a function of the state and the bytes alone.
pub uninterp spec fn csv_records(r: csv_core::Reader, input: Seq<u8>) -> Seq<Seq<usize>>;

/// How many field ends the reader records from these bytes after the last
/// record it completes in them: the progress of the unfinished trailing
/// record.
pub uninterp spec fn csv_trailing_ends(r: csv_core::Reader, input: Seq<u8>) -> nat;

/// How one `read_record` call ended.
#[derive(Debug, Clone, Copy, PartialEq, Eq, Structural)]
pub enum TokenizerStatus {
    /// All input was consumed before the record ended.
    InputEmpty,
    /// The output buffer filled before the record ended.
    OutputFull,
    /// The field-end buffer filled before the record ended.
    OutputEndsFull,
    /// A record was completed.
    Record,
    /// All CSV data has been read (only after exhausted input).
    End,
}

/// Relies on `csv_core::ReaderBuilder`: a freshly built reader has read
/// nothing, so it has produced no output for any record and stands in no
/// record.
#[verifier::external_body]
pub fn new_csv_reader(field_delimiter: u8, quote: u8, record_delimiter: &RecordDelimiter) -> (r:
    csv_core::Reader)
    ensures
        csv_pending_output(r) == 0,
        !csv_in_record(r),
{
    let mut b = csv_core::ReaderBuilder::new();
    b.delimiter(field_delimiter);
    b.quote(quote);
    match record_delimiter {
        RecordDelimiter::Crlf => {
            b.terminator(csv_core::Terminator::CRLF);
        },
        RecordDelimiter::Any(v) => {
            b.terminator(csv_core::Terminator::Any(*v));
        },
    }
    b.build()
}

/// Relies on `csv_core::Reader::read_record`, called on `input[in_pos..]`,
/// `output[out_pos..]` and `ends[ends_pos..]`.  The result is the status and
/// the counts of bytes read, bytes written and field ends written.  Per
/// `csv_core`'s source: every output byte is a copied input byte; field ends
/// are offsets from the start of the record's output, even when the record
/// spans several calls, so they are non-decreasing, at least the output
/// already pending, at most the output pending after the call, and on
/// `Record` the last one equals the record's total unescaped length; a
/// completed record resets the pending output; `InputEmpty` means all input
/// was consumed; `OutputFull` can only be reported with input left over;
/// `End` is reported only when the remaining input holds no record (at most a
/// leading byte-order mark), hence never while output is pending, and only
/// when the bytes complete no record; and with exhausted input and room for
/// one end, the reader reports `Record` exactly when it stands inside an
/// unterminated record, which flushes that record.
///
/// The last clauses relate one call to the named whole-input yield
/// `csv_records`, using that the reader parses deterministically and that one
/// call consumes at most one record: a completed record is the first named
/// record of the given bytes, its ends are exactly the ends the call wrote,
/// and the rest of the yield is that of the advanced reader on the remaining
/// bytes; consuming all input without completing a record means the bytes
/// complete none, and the ends written then are the trailing record's
/// progress; a full end table stops inside a record, so the ends written so
/// far are at most those the current record would record from these bytes;
/// and no bytes yield no records.
#[verifier::external_body]
pub fn read_record_step(
    r: &mut csv_core::Reader,
    input: &[u8],
    in_pos: usize,
    output: &mut Vec<u8>,
    out_pos: usize,
    ends: &mut Vec<usize>,
    ends_pos: usize,
) -> (res: (TokenizerStatus, usize, usize, usize))
    requires
        in_pos <= input.len(),
        out_pos <= old(output).len(),
        ends_pos <= old(ends).len(),
    ensures
        final(output).len() == old(output).len(),
        final(ends).len() == old(ends).len(),
        res.1 <= input.len() - in_pos,
        res.2 <= old(output).len() - out_pos,
        res.3 <= old(ends).len() - ends_pos,
        res.2 <= res.1,
        forall|i: int|
            (0 <= i < out_pos || out_pos + res.2 <= i < old(output).len()) ==> final(output)@[i]
                == old(output)@[i],
        forall|i: int|
            (0 <= i < ends_pos || ends_pos + res.3 <= i < old(ends).len()) ==> final(ends)@[i]
                == old(ends)@[i],
        forall|i: int|
            0 <= i < res.3 ==> csv_pending_output(*old(r)) <= #[trigger] final(ends)@[ends_pos + i]
                <= csv_pending_output(*old(r)) + res.2,
        forall|i: int, j: int|
            #![trigger final(ends)@[ends_pos + i], final(ends)@[ends_pos + j]]
            0 <= i <= j < res.3 ==> final(ends)@[ends_pos + i] <= final(ends)@[ends_pos + j],
        res.0 == TokenizerStatus::Record ==> res.3 >= 1 && final(ends)@[ends_pos + res.3 - 1]
            == csv_pending_output(*old(r)) + res.2,
        res.0 == TokenizerStatus::Record ==> csv_pending_output(*final(r)) == 0 && !csv_in_record(
            *final(r),
        ),
        res.0 != TokenizerStatus::Record ==> csv_pending_output(*final(r)) == csv_pending_output(
            *old(r),
        ) + res.2,
        res.0 == TokenizerStatus::InputEmpty ==> res.1 == input.len() - in_pos,
        res.0 == TokenizerStatus::OutputFull ==> res.2 == old(output).len() - out_pos && res.1
            < input.len() - in_pos,
        res.0 == TokenizerStatus::End ==> res.1 == input.len() - in_pos && csv_pending_output(
            *old(r),
        ) == 0,
        in_pos < input.len() && res.0 == TokenizerStatus::Record ==> res.1 >= 1,
        in_pos == input.len() ==> res.1 == 0 && res.2 == 0,
        in_pos == input.len() && ends_pos < old(ends).len() ==> (res.0 == TokenizerStatus::Record
            || res.0 == TokenizerStatus::End),
        in_pos == input.len() && ends_pos < old(ends).len() ==> (res.0 == TokenizerStatus::Record
            <==> csv_in_record(*old(r))),
        in_pos < input.len() && res.0 == TokenizerStatus::Record ==> csv_records(
            *old(r),
            input@.skip(in_pos as int),
        ).len() >= 1 && csv_records(*old(r), input@.skip(in_pos as int))[0] == final(ends)@.subrange(ends_pos as int, ends_pos + res.3) && csv_records(
            *old(r),
            input@.skip(in_pos as int),
        ).skip(1) == csv_records(*final(r), input@.skip(in_pos + res.1)) && csv_trailing_ends(
            *old(r),
            input@.skip(in_pos as int),
        ) == csv_trailing_ends(*final(r), input@.skip(in_pos + res.1)),
        res.0 == TokenizerStatus::InputEmpty ==> csv_records(*old(r), input@.skip(in_pos as int))
            == Seq::<Seq<usize>>::empty() && csv_trailing_ends(*old(r), input@.skip(in_pos as int))
            == res.3,
        in_pos < input.len() && res.0 == TokenizerStatus::End ==> csv_records(
            *old(r),
            input@.skip(in_pos as int),
        ) == Seq::<Seq<usize>>::empty(),
        in_pos < input.len() && res.0 == TokenizerStatus::OutputEndsFull ==> res.3 == old(ends).len() - ends_pos && res.3 <= (if csv_records(*old(r), input@.skip(in_pos as int)).len()
            > 0 {
            csv_records(*old(r), input@.skip(in_pos as int))[0].len() as int
        } else {
            csv_trailing_ends(*old(r), input@.skip(in_pos as int)) as int
        }),
        csv_records(*final(r), input@.skip(input@.len() as int)) == Seq::<Seq<usize>>::empty(),
{
    let (st, n_in, n_out, n_end) = r.read_record(
        &input[in_pos..],
        &mut output[out_pos..],
        &mut ends[ends_pos..],
    );
    let status = match st {
        csv_core::ReadRecordResult::InputEmpty => TokenizerStatus::InputEmpty,
        csv_core::ReadRecordResult::OutputFull => TokenizerStatus::OutputFull,
        csv_core::ReadRecordResult::OutputEndsFull => TokenizerStatus::OutputEndsFull,
        csv_core::ReadRecordResult::Record => TokenizerStatus::Record,
        csv_core::ReadRecordResult::End => TokenizerStatus::End,
    };
    (status, n_in, n_out, n_end)
}

} // verus!
