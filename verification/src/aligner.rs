//! The aligner: consumes one chunk of raw bytes at a time, carries the bytes
//! of an incomplete trailing row between calls, and emits batches of complete
//! rows with a fixed field count per row.
use vstd::prelude::*;

use crate::batch::offsets_wf;
use crate::batch::row_lower;
use crate::batch::RowBatch;
use crate::config::FormatSettings;
use crate::error::CsvError;
use crate::error::RowErrorKind;
use crate::tokenizer::csv_in_record;
use crate::tokenizer::csv_pending_output;
use crate::tokenizer::csv_records;
use crate::tokenizer::csv_trailing_ends;
use crate::tokenizer::new_csv_reader;
use crate::tokenizer::read_record_step;
use crate::tokenizer::TokenizerStatus;
use crate::InputFormatCSV;

verus! {

/// The tokenizer-side state carried between chunks of one stream.
#[derive(Debug)]
pub struct CsvReaderState {
    /// The configured tokenizer.
    pub reader: csv_core::Reader,
    /// The tail: unescaped bytes after the last completed row, kept for the
    /// next chunk and never discarded.
    pub out: Vec<u8>,
    /// Scratch table of field-end offsets of the record in progress.
    pub field_ends: Vec<usize>,
    /// How many entries of `field_ends` are in use.
    pub n_end: usize,
}

impl CsvReaderState {
    /// The scratch table holds the expected field count plus slack, so that
    /// the one tolerated extra field end still fits.
    pub open spec fn wf(self, num_fields: int) -> bool {
        &&& self.field_ends@.len() == num_fields + 6
        &&& self.n_end <= self.field_ends@.len()
    }

    /// Opens the tokenizer-side state for one stream.
    pub fn create(settings: &FormatSettings, num_fields: usize) -> (r: CsvReaderState)
        requires
            num_fields + 6 <= usize::MAX,
        ensures
            r.wf(num_fields as int),
            r.out@.len() == 0,
            r.n_end == 0,
            csv_pending_output(r.reader) == 0,
            !csv_in_record(r.reader),
    {
        let reader = new_csv_reader(
            settings.field_delimiter,
            settings.quote_char,
            &settings.record_delimiter,
        );
        let mut field_ends: Vec<usize> = Vec::new();
        while field_ends.len() < num_fields + 6
            invariant
                field_ends@.len() <= num_fields + 6,
                num_fields + 6 <= usize::MAX,
            decreases num_fields + 6 - field_ends@.len(),
        {
            field_ends.push(0);
        }
        CsvReaderState { reader, out: Vec::new(), field_ends, n_end: 0 }
    }
}

/// The per-stream alignment state: the tokenizer state, the tail, the row
/// counter, the header rows still to skip, and the batch counter.
#[derive(Debug)]
pub struct AligningState {
    /// The source path, for diagnostics.
    pub path: String,
    /// Rows consumed so far, skipped header rows included.
    pub rows: usize,
    /// Raw bytes consumed so far.
    pub offset: usize,
    /// Header rows still to be skipped.
    pub rows_to_skip: usize,
    /// The sequence number of the next batch.
    pub batch_id: usize,
    /// The expected number of fields per row.
    pub num_fields: usize,
    /// The tokenizer-side state.
    pub csv_reader: CsvReaderState,
}

impl AligningState {
    /// The cross-chunk invariant.  Once header skipping is over, the
    /// tokenizer's pending output is exactly the tail, and the pending field
    /// ends are non-decreasing offsets into the pending record.  While header
    /// rows remain, no tail has been kept.
    pub open spec fn wf(self) -> bool {
        &&& self.num_fields >= 1
        &&& self.num_fields + 6 <= usize::MAX
        &&& self.csv_reader.wf(self.num_fields as int)
        &&& (self.rows_to_skip == 0 ==> {
            &&& csv_pending_output(self.csv_reader.reader) == self.csv_reader.out@.len()
            &&& (forall|i: int|
                0 <= i < self.csv_reader.n_end ==> #[trigger] (
                self.csv_reader.field_ends@[i] as int) <= self.csv_reader.out@.len())
            &&& (forall|i: int, j: int|
                #![trigger self.csv_reader.field_ends@[i], self.csv_reader.field_ends@[j]]
                0 <= i <= j < self.csv_reader.n_end ==> self.csv_reader.field_ends@[i]
                    <= self.csv_reader.field_ends@[j])
        })
        &&& (self.rows_to_skip > 0 ==> self.csv_reader.out@.len() == 0)
    }

    /// Opens the alignment state for one stream: `open(config)`.
    /// `num_fields` comes from the schema and must be at least one.
    pub fn create(
        settings: &FormatSettings,
        path: String,
        num_fields: usize,
        rows_to_skip: usize,
    ) -> (r: Result<AligningState, CsvError>)
        ensures
            r.is_ok() <==> 1 <= num_fields <= usize::MAX - 6,
            r matches Ok(s) ==> {
                &&& s.wf()
                &&& s.path@ == path@
                &&& s.rows == 0
                &&& s.offset == 0
                &&& s.rows_to_skip == rows_to_skip
                &&& s.batch_id == 0
                &&& s.num_fields == num_fields
                &&& s.csv_reader.out@.len() == 0
                &&& s.csv_reader.n_end == 0
                &&& !csv_in_record(s.csv_reader.reader)
            },
    {
        if num_fields < 1 || num_fields > usize::MAX - 6 {
            return Err(
                CsvError::Configuration { kind: crate::error::ConfigErrorKind::NoFields },
            );
        }
        let csv_reader = CsvReaderState::create(settings, num_fields);
        Ok(
            AligningState {
                path,
                rows: 0,
                offset: 0,
                rows_to_skip,
                batch_id: 0,
                num_fields,
                csv_reader,
            },
        )
    }
}

/// Appends `src[start..end]` to `dst`.
fn push_range(dst: &mut Vec<u8>, src: &Vec<u8>, start: usize, end: usize)
    requires
        start <= end <= src@.len(),
    ensures
        final(dst)@ == old(dst)@ + src@.subrange(start as int, end as int),
{
    let mut i: usize = start;
    while i < end
        invariant
            start <= i <= end <= src@.len(),
            dst@ == old(dst)@ + src@.subrange(start as int, i as int),
        decreases end - i,
    {
        dst.push(src[i]);
        proof {
            assert(dst@ =~= old(dst)@ + src@.subrange(start as int, i + 1 as int));
        }
        i = i + 1;
    }
    proof {
        assert(dst@ =~= old(dst)@ + src@.subrange(start as int, end as int));
    }
}

/// A fresh zeroed buffer of length `n`.
fn zero_vec(n: usize) -> (v: Vec<u8>)
    ensures
        v@.len() == n,
{
    let mut v: Vec<u8> = Vec::new();
    while v.len() < n
        invariant
            v@.len() <= n,
        decreases n - v@.len(),
    {
        v.push(0);
    }
    v
}

/// After one tokenizer call extended the scratch table of field ends, the
/// whole used prefix is still non-decreasing and bounded by the record's
/// output so far: old entries were bounded by the output already pending, and
/// the new entries continue upward from there.
proof fn lemma_ends_extend(
    fe_old: Seq<usize>,
    fe_new: Seq<usize>,
    used: int,
    added: int,
    pending_old: int,
    add_out: int,
)
    requires
        0 <= used,
        0 <= added,
        0 <= add_out,
        used + added <= fe_new.len(),
        fe_old.len() == fe_new.len(),
        forall|i: int| 0 <= i < used ==> fe_new[i] == fe_old[i],
        forall|i: int|
            0 <= i < added ==> pending_old <= #[trigger] (fe_new[used + i] as int) <= pending_old
                + add_out,
        forall|i: int, j: int|
            #![trigger fe_new[used + i], fe_new[used + j]]
            0 <= i <= j < added ==> fe_new[used + i] <= fe_new[used + j],
        forall|i: int| 0 <= i < used ==> #[trigger] (fe_old[i] as int) <= pending_old,
        forall|i: int, j: int|
            #![trigger fe_old[i], fe_old[j]]
            0 <= i <= j < used ==> fe_old[i] <= fe_old[j],
    ensures
        forall|i: int|
            0 <= i < used + added ==> #[trigger] (fe_new[i] as int) <= pending_old + add_out,
        forall|i: int, j: int|
            #![trigger fe_new[i], fe_new[j]]
            0 <= i <= j < used + added ==> fe_new[i] <= fe_new[j],
{
    assert forall|i: int| 0 <= i < used + added implies #[trigger] (fe_new[i] as int)
        <= pending_old + add_out by {
        if i < used {
            assert(fe_old[i] as int <= pending_old);
        } else {
            assert(pending_old <= fe_new[used + (i - used)] as int <= pending_old + add_out);
        }
    }
    assert forall|i: int, j: int|
        #![trigger fe_new[i], fe_new[j]]
        0 <= i <= j < used + added implies fe_new[i] <= fe_new[j] by {
        if j < used {
            assert(fe_old[i] <= fe_old[j]);
        } else if i >= used {
            assert(fe_new[used + (i - used)] <= fe_new[used + (j - used)]);
        } else {
            assert(fe_old[i] as int <= pending_old);
            assert(pending_old <= fe_new[used + (j - used)] as int);
        }
    }
}

/// The field-count policy applied to each completed record: with `found` the
/// number of field ends recorded, exactly `num_fields` is accepted; one extra
/// is tolerated only when the extra, final field is empty (its end equals the
/// previous field's end, i.e. the row merely ended with a trailing
/// delimiter); anything else is malformed.
pub fn validate_field_count(ends: &Vec<usize>, found: usize, num_fields: usize) -> (r: Result<
    (),
    RowErrorKind,
>)
    requires
        found <= ends@.len(),
        1 <= num_fields < usize::MAX,
    ensures
        r.is_ok() <==> (found == num_fields || (found == num_fields + 1 && ends@[num_fields as int]
            == ends@[num_fields - 1])),
        (found < num_fields) <==> r == Err::<(), RowErrorKind>(
            RowErrorKind::TooFewFields { expected: num_fields, found },
        ),
        (found > num_fields + 1) <==> r == Err::<(), RowErrorKind>(
            RowErrorKind::TooManyFields { expected: num_fields, found },
        ),
        (found == num_fields + 1 && ends@[num_fields as int] != ends@[num_fields - 1]) <==> r
            == Err::<(), RowErrorKind>(RowErrorKind::DataAfterTrailingDelimiter),
{
    if found < num_fields {
        Err(RowErrorKind::TooFewFields { expected: num_fields, found })
    } else if found > num_fields + 1 {
        Err(RowErrorKind::TooManyFields { expected: num_fields, found })
    } else if found == num_fields + 1 {
        if ends[num_fields] != ends[num_fields - 1] {
            Err(RowErrorKind::DataAfterTrailingDelimiter)
        } else {
            Ok(())
        }
    } else {
        Ok(())
    }
}


/// The field-count policy as a predicate on one record's full table of field
/// ends: exactly `nf` ends, or one extra whose end equals the previous one
/// (a bare trailing delimiter).
pub open spec fn row_policy_ok(ends: Seq<usize>, nf: int) -> bool {
    ends.len() == nf || (ends.len() == nf + 1 && ends[nf] == ends[nf - 1])
}

/// The full table of field ends of the `j`-th record a chunk completes: the
/// field ends carried from earlier chunks belong to the first record, every
/// later record's ends come from this chunk alone.
pub open spec fn chunk_record_ends(carried: Seq<usize>, recs: Seq<Seq<usize>>, j: int) -> Seq<
    usize,
> {
    if j == 0 {
        carried + recs[0]
    } else {
        recs[j]
    }
}

impl InputFormatCSV {
    /// Consumes one chunk and emits the rows it completes, if any.
    ///
    /// The contract speaks over `csv_records`, the named yield of the carried
    /// tokenizer state on the chunk's bytes.  While header rows remain they
    /// are tokenized, checked against the field-count policy and discarded;
    /// the records past them become the rows of one batch, which is emitted
    /// exactly when there is at least one.  Unescaped bytes past the last
    /// completed row are carried to the next call as the tail, never
    /// discarded.  Each error names the offending record by its absolute row
    /// number, with every earlier record passing the policy: a field-count
    /// violation, a field-end table too small for the record, or input that
    /// ends where no record can follow.  On an error the counters and the
    /// tail keep their values; the stream is dead.
    #[verifier::loop_isolation(false)]
    #[verifier::rlimit(100)]
    pub fn align(state: &mut AligningState, buf_in: &[u8]) -> (res: Result<Vec<RowBatch>, CsvError>)
        requires
            old(state).wf(),
            old(state).csv_reader.out@.len() + buf_in@.len() <= usize::MAX,
            old(state).rows + buf_in@.len() <= usize::MAX,
            old(state).offset + buf_in@.len() <= usize::MAX,
            old(state).batch_id < usize::MAX,
        ensures
            final(state).num_fields == old(state).num_fields,
            final(state).path == old(state).path,
            res matches Ok(batches) ==> ({
                let recs = csv_records(old(state).csv_reader.reader, buf_in@);
                let carried = old(state).csv_reader.field_ends@.subrange(
                    0,
                    old(state).csv_reader.n_end as int,
                );
                let nf = old(state).num_fields as int;
                let skipped = old(state).rows_to_skip - final(state).rows_to_skip;
                &&& final(state).wf()
                &&& final(state).rows <= old(state).rows + buf_in@.len()
                &&& final(state).csv_reader.out@.len() <= old(state).csv_reader.out@.len()
                    + buf_in@.len()
                &&& final(state).offset == old(state).offset + buf_in@.len()
                &&& final(state).rows_to_skip <= old(state).rows_to_skip
                &&& batches@.len() <= 1
                &&& (buf_in@.len() > 0 ==> (forall|i: int|
                    0 <= i < recs.len() ==> row_policy_ok(
                        #[trigger] chunk_record_ends(carried, recs, i),
                        nf,
                    )))
                &&& (batches@.len() == 0 ==> {
                    &&& (buf_in@.len() > 0 ==> recs.len() == skipped)
                    &&& final(state).rows == old(state).rows + skipped
                    &&& final(state).batch_id == old(state).batch_id
                    &&& final(state).csv_reader.out@.len() >= old(state).csv_reader.out@.len()
                    &&& final(state).csv_reader.out@.subrange(
                        0,
                        old(state).csv_reader.out@.len() as int,
                    ) == old(state).csv_reader.out@
                })
                &&& (batches@.len() == 1 ==> {
                    let b = batches@[0];
                    &&& final(state).rows_to_skip == 0
                    &&& b.wf(nf)
                    &&& b.row_count() >= 1
                    &&& b.row_count() == recs.len() - skipped
                    &&& b.start_row == old(state).rows + skipped
                    &&& final(state).rows == b.start_row + b.row_count()
                    &&& b.batch_id == old(state).batch_id
                    &&& final(state).batch_id == old(state).batch_id + 1
                    &&& b.path@ == old(state).path@
                    &&& b.data@.len() >= old(state).csv_reader.out@.len()
                    &&& b.data@.subrange(0, old(state).csv_reader.out@.len() as int) == old(
                        state,
                    ).csv_reader.out@
                })
            }),
            res matches Err(e) ==> ({
                let recs = csv_records(old(state).csv_reader.reader, buf_in@);
                let trail = csv_trailing_ends(old(state).csv_reader.reader, buf_in@);
                let carried = old(state).csv_reader.field_ends@.subrange(
                    0,
                    old(state).csv_reader.n_end as int,
                );
                let nf = old(state).num_fields as int;
                let skipped = old(state).rows_to_skip - final(state).rows_to_skip;
                &&& final(state).batch_id == old(state).batch_id
                &&& final(state).csv_reader.out == old(state).csv_reader.out
                &&& final(state).csv_reader.n_end == old(state).csv_reader.n_end
                &&& final(state).offset == old(state).offset + buf_in@.len()
                &&& final(state).rows_to_skip <= old(state).rows_to_skip
                &&& final(state).rows == old(state).rows + skipped
                &&& (e matches CsvError::MalformedRow { path, row, kind } && ({
                    let j = row as int - old(state).rows as int;
                    &&& path@ == old(state).path@
                    &&& 0 <= j <= recs.len()
                    &&& (forall|i: int|
                        0 <= i < j ==> row_policy_ok(
                            #[trigger] chunk_record_ends(carried, recs, i),
                            nf,
                        ))
                    &&& (kind matches RowErrorKind::TooFewFields { expected, found } ==> (expected
                        == old(state).num_fields && j < recs.len() && found as int
                        == chunk_record_ends(carried, recs, j).len() && (found as int) < nf))
                    &&& (kind matches RowErrorKind::TooManyFields { expected, found } ==> (expected
                        == old(state).num_fields && j < recs.len() && found as int
                        == chunk_record_ends(carried, recs, j).len() && (found as int) > nf + 1))
                    &&& (kind == RowErrorKind::DataAfterTrailingDelimiter ==> (j < recs.len()
                        && chunk_record_ends(carried, recs, j).len() == nf + 1
                        && chunk_record_ends(carried, recs, j)[nf] != chunk_record_ends(
                        carried,
                        recs,
                        j,
                    )[nf - 1]))
                    &&& (kind matches RowErrorKind::FieldEndsOverflow { expected, capacity } ==> (
                    expected == old(state).num_fields && capacity == old(state).num_fields + 6 && (
                    if j < recs.len() {
                        chunk_record_ends(carried, recs, j).len() as int
                    } else if j == 0 {
                        carried.len() as int + trail as int
                    } else {
                        trail as int
                    }) >= nf + 6))
                    &&& (kind == RowErrorKind::UnexpectedEndOfInput ==> j == recs.len())
                }))
            }),
    {
        let num_fields = state.num_fields;
        let buf_len = buf_in.len();
        let ghost recs = csv_records(old(state).csv_reader.reader, buf_in@);
        let ghost trail = csv_trailing_ends(old(state).csv_reader.reader, buf_in@);
        let ghost n_end0: int = old(state).csv_reader.n_end as int;
        let ghost carried0 = old(state).csv_reader.field_ends@.subrange(0, n_end0);
        state.offset = state.offset + buf_len;
        let mut out_tmp = zero_vec(buf_len);
        let mut endlen: usize = state.csv_reader.n_end;
        let mut pos: usize = 0;
        proof {
            assert(buf_in@.skip(0) =~= buf_in@);
        }

        while state.rows_to_skip > 0 && pos < buf_len
            invariant
                state.num_fields == num_fields,
                old(state).wf(),
                num_fields == old(state).num_fields,
                buf_len == buf_in@.len(),
                state.path == old(state).path,
                state.batch_id == old(state).batch_id,
                state.offset == old(state).offset + buf_len,
                state.csv_reader.out == old(state).csv_reader.out,
                state.csv_reader.n_end == old(state).csv_reader.n_end,
                state.csv_reader.field_ends@.len() == num_fields + 6,
                endlen <= num_fields + 6,
                pos <= buf_len,
                out_tmp@.len() == buf_len,
                state.rows <= old(state).rows + pos,
                old(state).rows <= state.rows,
                state.rows_to_skip <= old(state).rows_to_skip,
                state.rows - old(state).rows == old(state).rows_to_skip - state.rows_to_skip,
                old(state).rows + buf_len <= usize::MAX,
                state.rows_to_skip > 0 ==> state.csv_reader.out@.len() == 0,
                state.rows_to_skip == 0 ==> csv_pending_output(state.csv_reader.reader)
                    == state.csv_reader.out@.len(),
                state.rows_to_skip == 0 ==> (forall|i: int|
                    0 <= i < endlen ==> #[trigger] (state.csv_reader.field_ends@[i] as int)
                        <= state.csv_reader.out@.len()),
                state.rows_to_skip == 0 ==> (forall|i: int, j: int|
                    #![trigger state.csv_reader.field_ends@[i], state.csv_reader.field_ends@[j]]
                    0 <= i <= j < endlen ==> state.csv_reader.field_ends@[i]
                        <= state.csv_reader.field_ends@[j]),
                old(state).rows_to_skip - state.rows_to_skip <= recs.len(),
                csv_records(state.csv_reader.reader, buf_in@.skip(pos as int)) == recs.skip(
                    old(state).rows_to_skip - state.rows_to_skip,
                ),
                csv_trailing_ends(state.csv_reader.reader, buf_in@.skip(pos as int)) == trail,
                forall|i: int|
                    0 <= i < old(state).rows_to_skip - state.rows_to_skip ==> row_policy_ok(
                        #[trigger] chunk_record_ends(carried0, recs, i),
                        num_fields as int,
                    ),
                old(state).rows_to_skip == state.rows_to_skip ==> endlen == n_end0
                    && state.csv_reader.field_ends@.subrange(0, n_end0) == carried0,
                old(state).rows_to_skip != state.rows_to_skip ==> endlen == 0,
                buf_len > 0 && pos == buf_len ==> csv_records(
                    state.csv_reader.reader,
                    buf_in@.skip(pos as int),
                ).len() == 0,
            decreases buf_len - pos,
        {
            let ghost r_before = state.csv_reader.reader;
            let ghost pos_before: int = pos as int;
            let ghost j_before: int = old(state).rows_to_skip - state.rows_to_skip;
            let ghost endlen_before: int = endlen as int;
            let ghost ends_before = state.csv_reader.field_ends@;
            let step = read_record_step(
                &mut state.csv_reader.reader,
                buf_in,
                pos,
                &mut out_tmp,
                0,
                &mut state.csv_reader.field_ends,
                endlen,
            );
            pos = pos + step.1;
            endlen = endlen + step.3;
            proof {
                assert(csv_records(r_before, buf_in@.skip(pos_before)) == recs.skip(j_before));
            }
            match step.0 {
                TokenizerStatus::InputEmpty => {
                    state.csv_reader.n_end = endlen;
                    proof {
                        assert(recs.skip(j_before).len() == 0);
                        assert(state.csv_reader.out@.subrange(
                            0,
                            old(state).csv_reader.out@.len() as int,
                        ) =~= old(state).csv_reader.out@);
                    }
                    return Ok(Vec::new());
                },
                TokenizerStatus::OutputFull => {
                    proof {
                        // never reached: the output buffer is as large as the
                        // chunk, and at most one output byte arises per input
                        // byte consumed
                        assert(step.2 == out_tmp@.len() - 0);
                        assert(step.1 < buf_in@.len() - (pos - step.1));
                        assert(step.2 <= step.1);
                        assert(false);
                    }
                    return Err(CsvError::Internal { row: state.rows });
                },
                TokenizerStatus::OutputEndsFull => {
                    proof {
                        assert(step.3 == num_fields + 6 - endlen_before);
                        if recs.skip(j_before).len() > 0 {
                            assert(recs.skip(j_before)[0] == recs[j_before]);
                            assert(step.3 <= recs[j_before].len());
                            if j_before == 0 {
                                assert(carried0.len() == n_end0);
                                assert(chunk_record_ends(carried0, recs, 0).len() == n_end0
                                    + recs[0].len());
                            }
                        } else {
                            assert(j_before == recs.len());
                            assert(step.3 <= trail);
                        }
                    }
                    return Err(
                        CsvError::MalformedRow {
                            path: state.path.clone(),
                            row: state.rows,
                            kind: RowErrorKind::FieldEndsOverflow {
                                expected: num_fields,
                                capacity: num_fields + 6,
                            },
                        },
                    );
                },
                TokenizerStatus::Record => {
                    proof {
                        let fe = state.csv_reader.field_ends@;
                        assert(recs.skip(j_before).len() >= 1);
                        assert(j_before < recs.len());
                        assert(recs.skip(j_before)[0] == recs[j_before]);
                        assert(recs[j_before] == fe.subrange(endlen_before, endlen as int));
                        assert(recs.skip(j_before).skip(1) =~= recs.skip(j_before + 1));
                        if j_before == 0 {
                            assert(fe.subrange(0, n_end0) =~= ends_before.subrange(0, n_end0));
                            assert(fe.subrange(0, endlen as int) =~= carried0 + fe.subrange(
                                n_end0,
                                endlen as int,
                            ));
                            assert(chunk_record_ends(carried0, recs, j_before) == fe.subrange(
                                0,
                                endlen as int,
                            ));
                        } else {
                            assert(endlen_before == 0);
                            assert(fe.subrange(0, endlen as int) =~= fe.subrange(
                                endlen_before,
                                endlen as int,
                            ));
                            assert(chunk_record_ends(carried0, recs, j_before) == fe.subrange(
                                0,
                                endlen as int,
                            ));
                        }
                    }
                    match validate_field_count(&state.csv_reader.field_ends, endlen, num_fields) {
                        Err(kind) => {
                            proof {
                                let ce = chunk_record_ends(carried0, recs, j_before);
                                assert(ce.len() == endlen as int);
                            }
                            return Err(
                                CsvError::MalformedRow {
                                    path: state.path.clone(),
                                    row: state.rows,
                                    kind,
                                },
                            );
                        },
                        Ok(_u) => {},
                    }
                    proof {
                        assert(row_policy_ok(
                            chunk_record_ends(carried0, recs, j_before),
                            num_fields as int,
                        ));
                        assert(forall|i: int|
                            0 <= i < j_before + 1 ==> row_policy_ok(
                                #[trigger] chunk_record_ends(carried0, recs, i),
                                num_fields as int,
                            ));
                    }
                    state.rows_to_skip = state.rows_to_skip - 1;
                    state.rows = state.rows + 1;
                    endlen = 0;
                },
                TokenizerStatus::End => {
                    proof {
                        assert(recs.skip(j_before).len() == 0);
                        assert(j_before == recs.len());
                    }
                    return Err(
                        CsvError::MalformedRow {
                            path: state.path.clone(),
                            row: state.rows,
                            kind: RowErrorKind::UnexpectedEndOfInput,
                        },
                    );
                },
            }
        }
        if state.rows_to_skip > 0 {
            state.csv_reader.n_end = endlen;
            proof {
                assert(state.csv_reader.out@.subrange(0, old(state).csv_reader.out@.len() as int)
                    =~= old(state).csv_reader.out@);
            }
            return Ok(Vec::new());
        }

        let ghost skipped: int = old(state).rows_to_skip - state.rows_to_skip;
        let ghost rows0: int = state.rows as int;
        let ghost pos0: int = pos as int;
        let last_remain_len = state.csv_reader.out.len();
        let ghost remain: int = last_remain_len as int;
        let mut out_pos: usize = 0;
        let mut row_batch_end: usize = 0;
        let mut rows_vec: Vec<usize> = Vec::new();
        let mut fields_vec: Vec<usize> = Vec::new();

        while pos < buf_len
            invariant
                state.num_fields == num_fields,
                1 <= num_fields,
                num_fields + 6 <= usize::MAX,
                num_fields == old(state).num_fields,
                buf_len == buf_in@.len(),
                state.path == old(state).path,
                state.batch_id == old(state).batch_id,
                state.offset == old(state).offset + buf_len,
                state.rows_to_skip == 0,
                state.rows == rows0,
                rows0 == old(state).rows + skipped,
                skipped == old(state).rows_to_skip - state.rows_to_skip,
                old(state).rows + buf_len <= usize::MAX,
                rows0 + (buf_len - pos0) <= usize::MAX,
                state.csv_reader.out == old(state).csv_reader.out,
                state.csv_reader.n_end == old(state).csv_reader.n_end,
                remain == state.csv_reader.out@.len(),
                remain + buf_len <= usize::MAX,
                state.csv_reader.field_ends@.len() == num_fields + 6,
                endlen <= num_fields + 6,
                pos0 <= pos <= buf_len,
                out_pos <= pos - pos0,
                out_pos <= buf_len,
                out_tmp@.len() == buf_len,
                row_batch_end <= out_pos,
                offsets_wf(rows_vec@, fields_vec@, num_fields as int),
                rows_vec@.len() <= pos - pos0,
                rows_vec@.len() == 0 ==> row_batch_end == 0,
                rows_vec@.len() >= 1 ==> rows_vec@[rows_vec@.len() - 1] as int == remain
                    + row_batch_end,
                csv_pending_output(state.csv_reader.reader) == remain + out_pos - row_lower(
                    rows_vec@,
                    rows_vec@.len() as int,
                ),
                forall|i: int|
                    0 <= i < endlen ==> #[trigger] (state.csv_reader.field_ends@[i] as int)
                        <= remain + out_pos - row_lower(rows_vec@, rows_vec@.len() as int),
                forall|i: int, j: int|
                    #![trigger state.csv_reader.field_ends@[i], state.csv_reader.field_ends@[j]]
                    0 <= i <= j < endlen ==> state.csv_reader.field_ends@[i]
                        <= state.csv_reader.field_ends@[j],
                skipped + rows_vec@.len() <= recs.len(),
                csv_records(state.csv_reader.reader, buf_in@.skip(pos as int)) == recs.skip(
                    skipped + rows_vec@.len(),
                ),
                csv_trailing_ends(state.csv_reader.reader, buf_in@.skip(pos as int)) == trail,
                forall|i: int|
                    0 <= i < skipped + rows_vec@.len() ==> row_policy_ok(
                        #[trigger] chunk_record_ends(carried0, recs, i),
                        num_fields as int,
                    ),
                skipped + rows_vec@.len() == 0 ==> endlen == n_end0
                    && state.csv_reader.field_ends@.subrange(0, n_end0) == carried0,
                skipped + rows_vec@.len() > 0 ==> endlen == 0,
                buf_len > 0 && pos == buf_len ==> csv_records(
                    state.csv_reader.reader,
                    buf_in@.skip(pos as int),
                ).len() == 0,
            decreases buf_len - pos,
        {
            let ghost pending_before: nat = csv_pending_output(state.csv_reader.reader);
            let ghost ends_before = state.csv_reader.field_ends@;
            let ghost r_before = state.csv_reader.reader;
            let ghost pos_before: int = pos as int;
            let ghost j_before: int = skipped + rows_vec@.len();
            let step = read_record_step(
                &mut state.csv_reader.reader,
                buf_in,
                pos,
                &mut out_tmp,
                out_pos,
                &mut state.csv_reader.field_ends,
                endlen,
            );
            pos = pos + step.1;
            let ghost old_endlen: int = endlen as int;
            endlen = endlen + step.3;
            out_pos = out_pos + step.2;
            proof {
                lemma_ends_extend(
                    ends_before,
                    state.csv_reader.field_ends@,
                    old_endlen,
                    step.3 as int,
                    pending_before as int,
                    step.2 as int,
                );
                assert(csv_records(r_before, buf_in@.skip(pos_before)) == recs.skip(j_before));
            }
            match step.0 {
                TokenizerStatus::InputEmpty => {
                    proof {
                        assert(recs.skip(j_before).len() == 0);
                    }
                    break ;
                },
                TokenizerStatus::OutputFull => {
                    proof {
                        // never reached: the free output region is at least as
                        // large as the remaining input, and at most one output
                        // byte arises per input byte consumed
                        assert(step.2 == out_tmp@.len() - (out_pos - step.2));
                        assert(step.1 < buf_in@.len() - (pos - step.1));
                        assert(out_pos - step.2 <= pos - step.1);
                        assert(step.2 <= step.1);
                        assert(false);
                    }
                    return Err(CsvError::Internal { row: state.rows });
                },
                TokenizerStatus::OutputEndsFull => {
                    proof {
                        assert(step.3 == num_fields + 6 - old_endlen);
                        if recs.skip(j_before).len() > 0 {
                            assert(recs.skip(j_before)[0] == recs[j_before]);
                            assert(step.3 <= recs[j_before].len());
                            if j_before == 0 {
                                assert(carried0.len() == n_end0);
                                assert(chunk_record_ends(carried0, recs, 0).len() == n_end0
                                    + recs[0].len());
                            }
                        } else {
                            assert(j_before == recs.len());
                            assert(step.3 <= trail);
                        }
                    }
                    return Err(
                        CsvError::MalformedRow {
                            path: state.path.clone(),
                            row: state.rows + rows_vec.len(),
                            kind: RowErrorKind::FieldEndsOverflow {
                                expected: num_fields,
                                capacity: num_fields + 6,
                            },
                        },
                    );
                },
                TokenizerStatus::Record => {
                    proof {
                        let fe = state.csv_reader.field_ends@;
                        assert(recs.skip(j_before).len() >= 1);
                        assert(j_before < recs.len());
                        assert(recs.skip(j_before)[0] == recs[j_before]);
                        assert(recs[j_before] == fe.subrange(old_endlen, endlen as int));
                        assert(recs.skip(j_before).skip(1) =~= recs.skip(j_before + 1));
                        if j_before == 0 {
                            assert(fe.subrange(0, n_end0) =~= ends_before.subrange(0, n_end0));
                            assert(fe.subrange(0, endlen as int) =~= carried0 + fe.subrange(
                                n_end0,
                                endlen as int,
                            ));
                            assert(chunk_record_ends(carried0, recs, j_before) == fe.subrange(
                                0,
                                endlen as int,
                            ));
                        } else {
                            assert(old_endlen == 0);
                            assert(fe.subrange(0, endlen as int) =~= fe.subrange(
                                old_endlen,
                                endlen as int,
                            ));
                            assert(chunk_record_ends(carried0, recs, j_before) == fe.subrange(
                                0,
                                endlen as int,
                            ));
                        }
                    }
                    match validate_field_count(&state.csv_reader.field_ends, endlen, num_fields) {
                        Err(kind) => {
                            proof {
                                let ce = chunk_record_ends(carried0, recs, j_before);
                                assert(ce.len() == endlen as int);
                            }
                            return Err(
                                CsvError::MalformedRow {
                                    path: state.path.clone(),
                                    row: state.rows + rows_vec.len(),
                                    kind,
                                },
                            );
                        },
                        Ok(_u) => {},
                    }
                    proof {
                        assert(row_policy_ok(
                            chunk_record_ends(carried0, recs, j_before),
                            num_fields as int,
                        ));
                        assert(forall|i: int|
                            0 <= i < j_before + 1 ==> row_policy_ok(
                                #[trigger] chunk_record_ends(carried0, recs, i),
                                num_fields as int,
                            ));
                    }
                    let ghost k: int = rows_vec@.len() as int;
                    let ghost fields_before = fields_vec@;
                    let ghost row_base: int = row_lower(rows_vec@, k);
                    let mut c: usize = 0;
                    while c < num_fields
                        invariant
                            c <= num_fields,
                            num_fields <= endlen <= state.csv_reader.field_ends@.len(),
                            fields_vec@ == fields_before + state.csv_reader.field_ends@.subrange(
                                0,
                                c as int,
                            ),
                        decreases num_fields - c,
                    {
                        let e = state.csv_reader.field_ends[c];
                        fields_vec.push(e);
                        proof {
                            assert(fields_vec@ =~= fields_before
                                + state.csv_reader.field_ends@.subrange(0, c + 1 as int));
                        }
                        c = c + 1;
                    }
                    proof {
                        assert(step.2 <= out_tmp@.len() - (out_pos - step.2));
                        assert(out_pos <= buf_len);
                        assert(last_remain_len + out_pos <= usize::MAX);
                    }
                    let ghost rows_before = rows_vec@;
                    rows_vec.push(last_remain_len + out_pos);
                    let ghost endv: int = endlen as int;
                    endlen = 0;
                    row_batch_end = out_pos;
                    proof {
                        let nf: int = num_fields as int;
                        let fe = state.csv_reader.field_ends@;
                        let rl = rows_vec@;
                        let fl = fields_vec@;
                        assert((k + 1) * nf == k * nf + nf) by (nonlinear_arith);
                        assert(fields_before.len() == k * nf);
                        assert(fl == fields_before + fe.subrange(0, nf));
                        assert(fl.len() == (k + 1) * nf);
                        assert forall|i: int, j: int| 0 <= i < k && 0 <= j < nf implies (0 <= #[trigger] (
                        i * nf + j) && i * nf + j < k * nf) by {
                            assert(0 <= i * nf + j && i * nf + j + 1 <= k * nf)
                                by (nonlinear_arith)
                                requires
                                    0 <= i,
                                    i + 1 <= k,
                                    0 <= j,
                                    j < nf,
                                    1 <= nf,
                            ;
                        }
                        assert forall|j: int| 0 <= j < nf implies fl[k * nf + j] == fe[j] by {
                            assert(fe.subrange(0, nf)[j] == fe[j]);
                        }
                        // the row's end and base offsets
                        assert(rl[k] as int == remain + out_pos);
                        assert(row_lower(rl, k) == row_lower(rows_before, k));
                        assert(pending_before + step.2 == remain + out_pos - row_lower(rl, k));
                        // the record's last recorded end equals the row's length
                        assert(fe[old_endlen + step.3 - 1] as int == pending_before + step.2);
                        assert(endv == old_endlen + step.3);
                        if endv == nf + 1 {
                            assert(fe[nf] == fe[nf - 1]);
                        }
                        assert(fe[nf - 1] as int == pending_before + step.2);
                        // each conjunct of the batch offset invariant
                        assert forall|i: int| 0 <= i < rl.len() implies row_lower(rl, i) <= rl[i]
                            as int by {
                            if i < k {
                                assert(rl[i] == rows_before[i]);
                                assert(row_lower(rl, i) == row_lower(rows_before, i));
                            }
                        }
                        assert forall|i: int| 0 <= i < rl.len() implies #[trigger] (rl[i] as int)
                            <= rl[rl.len() - 1] as int by {
                            if i < k {
                                assert(rows_before[i] as int <= rows_before[k - 1] as int);
                                assert(rows_before[k - 1] as int == row_lower(rl, k));
                            }
                        }
                        assert forall|i: int, j: int| 0 <= i < rl.len() && 0 < j < nf implies (
                        fl[i * nf + j - 1] as int) <= #[trigger] (fl[i * nf + j] as int) by {
                            if i < k {
                                assert(fl[i * nf + j - 1] == fields_before[i * nf + j - 1]);
                                assert(fl[i * nf + j] == fields_before[i * nf + j]);
                            } else {
                                assert(fl[k * nf + j - 1] == fe[j - 1]);
                                assert(fl[k * nf + j] == fe[j]);
                            }
                        }
                        assert forall|i: int| 0 <= i < rl.len() implies #[trigger] (fl[i * nf + nf
                            - 1] as int) == rl[i] - row_lower(rl, i) by {
                            if i < k {
                                assert(0 <= i * nf + (nf - 1) && i * nf + (nf - 1) < k * nf);
                                assert(fl[i * nf + nf - 1] == fields_before[i * nf + nf - 1]);
                                assert(rl[i] == rows_before[i]);
                                assert(row_lower(rl, i) == row_lower(rows_before, i));
                            } else {
                                assert(fl[k * nf + (nf - 1)] == fe[nf - 1]);
                                assert(fl[k * nf + nf - 1] == fe[nf - 1]);
                            }
                        }
                        assert(offsets_wf(rows_vec@, fields_vec@, nf));
                    }
                },
                TokenizerStatus::End => {
                    proof {
                        assert(recs.skip(j_before).len() == 0);
                        assert(j_before == recs.len());
                    }
                    return Err(
                        CsvError::MalformedRow {
                            path: state.path.clone(),
                            row: state.rows + rows_vec.len(),
                            kind: RowErrorKind::UnexpectedEndOfInput,
                        },
                    );
                },
            }
        }

        proof {
            if buf_len > 0 {
                assert(recs.skip(skipped + rows_vec@.len()).len() == 0);
                assert(skipped + rows_vec@.len() == recs.len());
            }
        }
        state.csv_reader.n_end = endlen;
        if rows_vec.len() == 0 {
            let ghost out_before = state.csv_reader.out@;
            push_range(&mut state.csv_reader.out, &out_tmp, 0, out_pos);
            proof {
                assert(state.csv_reader.out@.subrange(0, out_before.len() as int) =~= out_before);
            }
            return Ok(Vec::new());
        }
        let mut data: Vec<u8> = Vec::new();
        push_range(&mut data, &state.csv_reader.out, 0, last_remain_len);
        push_range(&mut data, &out_tmp, 0, row_batch_end);
        let mut new_tail: Vec<u8> = Vec::new();
        push_range(&mut new_tail, &out_tmp, row_batch_end, out_pos);
        state.csv_reader.out = new_tail;
        let bid = state.batch_id;
        state.batch_id = state.batch_id + 1;
        let srow = state.rows;
        let n_new = rows_vec.len();
        state.rows = state.rows + n_new;
        let batch = RowBatch {
            data,
            row_ends: rows_vec,
            field_ends: fields_vec,
            path: state.path.clone(),
            batch_id: bid,
            start_row: srow,
        };
        let mut result: Vec<RowBatch> = Vec::new();
        result.push(batch);
        Ok(result)
    }
}


impl InputFormatCSV {
    /// Ends the stream.  A stream whose bytes stop inside an unterminated
    /// record — so that a tail of buffered bytes never became a complete row
    /// — is malformed; a stream that ended exactly at a record boundary
    /// closes cleanly, with nothing left buffered.
    pub fn close(state: &mut AligningState) -> (res: Result<(), CsvError>)
        requires
            old(state).wf(),
        ensures
            res.is_ok() <==> !csv_in_record(old(state).csv_reader.reader),
            res.is_ok() ==> final(state).csv_reader.out@.len() == 0,
            res matches Err(e) ==> (e matches CsvError::MalformedRow { path, row, kind }
                && path@ == old(state).path@ && row == old(state).rows && kind
                == RowErrorKind::UnexpectedEndOfInput),
    {
        let empty_in: Vec<u8> = Vec::new();
        let mut flush_out: Vec<u8> = Vec::new();
        let mut flush_ends: Vec<usize> = Vec::new();
        flush_ends.push(0);
        let step = read_record_step(
            &mut state.csv_reader.reader,
            empty_in.as_slice(),
            0,
            &mut flush_out,
            0,
            &mut flush_ends,
            0,
        );
        match step.0 {
            TokenizerStatus::Record => {
                Err(
                    CsvError::MalformedRow {
                        path: state.path.clone(),
                        row: state.rows,
                        kind: RowErrorKind::UnexpectedEndOfInput,
                    },
                )
            },
            _ => {
                Ok(())
            },
        }
    }
}

} // verus!
