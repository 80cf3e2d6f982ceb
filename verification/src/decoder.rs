//! The row/field decoder: extracts each field's bytes from a batch, trims
//! whitespace, recognises the null marker, and appends a typed value to the
//! column's builder.
use vstd::prelude::*;

use crate::batch::row_lower;
use crate::batch::RowBatch;
use crate::config::FormatSettings;
use crate::error::CsvError;
use crate::error::FieldErrorKind;
use crate::InputFormatCSV;

verus! {

/// ASCII whitespace as trimmed around field values.
pub open spec fn is_space(b: u8) -> bool {
    b == 32 || b == 9 || b == 13 || b == 10
}

/// `s` without leading whitespace.
pub open spec fn ltrim(s: Seq<u8>) -> Seq<u8>
    decreases s.len(),
{
    if s.len() > 0 && is_space(s[0]) {
        ltrim(s.drop_first())
    } else {
        s
    }
}

/// `s` without trailing whitespace.
pub open spec fn rtrim(s: Seq<u8>) -> Seq<u8>
    decreases s.len(),
{
    if s.len() > 0 && is_space(s[s.len() - 1]) {
        rtrim(s.drop_last())
    } else {
        s
    }
}

/// `s` without leading and trailing whitespace.
pub open spec fn trimmed(s: Seq<u8>) -> Seq<u8> {
    rtrim(ltrim(s))
}

/// An ASCII decimal digit.
pub open spec fn is_digit(b: u8) -> bool {
    48 <= b <= 57
}

/// The length of the longest digit prefix of `s`.
pub open spec fn digit_count(s: Seq<u8>) -> int
    decreases s.len(),
{
    if s.len() == 0 || !is_digit(s[0]) {
        0
    } else {
        1 + digit_count(s.drop_first())
    }
}

/// The value of a digit sequence, most significant digit first.
pub open spec fn digits_val(s: Seq<u8>) -> int
    decreases s.len(),
{
    if s.len() == 0 {
        0
    } else {
        digits_val(s.drop_last()) * 10 + (s[s.len() - 1] - 48)
    }
}

/// Parsing a signed 64-bit integer from trimmed bytes: an optional sign, a
/// non-empty run of digits whose value fits, and nothing after it.
pub open spec fn spec_parse_i64(t: Seq<u8>) -> Result<i64, FieldErrorKind> {
    if t.len() == 0 {
        Err(FieldErrorKind::Parse)
    } else {
        let signed = t[0] == 45 || t[0] == 43;
        let neg = t[0] == 45;
        let body = if signed {
            t.drop_first()
        } else {
            t
        };
        let k = digit_count(body);
        if k == 0 {
            Err(FieldErrorKind::Parse)
        } else {
            let v = digits_val(body.take(k));
            let bound: int = if neg {
                0x8000000000000000
            } else {
                0x7fffffffffffffff
            };
            if v > bound {
                Err(FieldErrorKind::Parse)
            } else if k < body.len() {
                Err(FieldErrorKind::TrailingBytes)
            } else if neg {
                Ok((-v) as i64)
            } else {
                Ok(v as i64)
            }
        }
    }
}

/// Parsing a boolean from trimmed bytes: exactly `true` or `false`.
pub open spec fn spec_parse_bool(t: Seq<u8>) -> Result<bool, FieldErrorKind> {
    if t == seq![116u8, 114u8, 117u8, 101u8] {
        Ok(true)
    } else if t == seq![102u8, 97u8, 108u8, 115u8, 101u8] {
        Ok(false)
    } else {
        Err(FieldErrorKind::Parse)
    }
}

/// The logical type of one column.
#[derive(Debug, Clone, Copy, PartialEq, Eq, Structural)]
pub enum ColumnKind {
    Int64,
    Boolean,
    Utf8,
}

/// One decoded cell, as contracts speak of it.
pub enum CellValue {
    Null,
    Int64(i64),
    Boolean(bool),
    Utf8(Seq<u8>),
}

/// The default value a column produces for an empty field.
pub open spec fn default_cell(kind: ColumnKind) -> CellValue {
    match kind {
        ColumnKind::Int64 => CellValue::Int64(0),
        ColumnKind::Boolean => CellValue::Boolean(false),
        ColumnKind::Utf8 => CellValue::Utf8(Seq::empty()),
    }
}

/// The typed parse of trimmed bytes for a column kind.
pub open spec fn parse_cell(kind: ColumnKind, t: Seq<u8>) -> Result<CellValue, FieldErrorKind> {
    match kind {
        ColumnKind::Int64 => match spec_parse_i64(t) {
            Ok(v) => Ok(CellValue::Int64(v)),
            Err(k) => Err(k),
        },
        ColumnKind::Boolean => match spec_parse_bool(t) {
            Ok(v) => Ok(CellValue::Boolean(v)),
            Err(k) => Err(k),
        },
        ColumnKind::Utf8 => Ok(CellValue::Utf8(t)),
    }
}

/// What one field's raw bytes decode to: after trimming, an empty field
/// produces the default when so configured, the null marker produces null,
/// and anything else goes to the column's typed parser.
pub open spec fn decode_cell(
    kind: ColumnKind,
    bytes: Seq<u8>,
    null_marker: Seq<u8>,
    empty_as_default: bool,
) -> Result<CellValue, FieldErrorKind> {
    let t = trimmed(bytes);
    if t.len() == 0 && empty_as_default {
        Ok(default_cell(kind))
    } else if t.len() > 0 && t == null_marker {
        Ok(CellValue::Null)
    } else {
        parse_cell(kind, t)
    }
}

/// The stored values of one column, by kind.
pub enum ColumnValues {
    Int64(Vec<i64>),
    Boolean(Vec<bool>),
    Utf8(Vec<Vec<u8>>),
}

/// An append-only builder for one column: values plus a validity mask
/// (`false` marks a null cell).
pub struct ColumnBuilder {
    /// The column's name, for diagnostics.
    pub name: String,
    /// The appended values; a null cell holds the kind's default.
    pub values: ColumnValues,
    /// Whether each cell holds a value (`false`: null).
    pub validity: Vec<bool>,
}

impl ColumnBuilder {
    /// The column's kind.
    pub open spec fn kind(self) -> ColumnKind {
        match self.values {
            ColumnValues::Int64(_) => ColumnKind::Int64,
            ColumnValues::Boolean(_) => ColumnKind::Boolean,
            ColumnValues::Utf8(_) => ColumnKind::Utf8,
        }
    }

    /// The number of cells appended so far.
    pub open spec fn len_spec(self) -> int {
        match self.values {
            ColumnValues::Int64(v) => v@.len() as int,
            ColumnValues::Boolean(v) => v@.len() as int,
            ColumnValues::Utf8(v) => v@.len() as int,
        }
    }

    /// Values and validity always have the same length.
    pub open spec fn wf(self) -> bool {
        self.len_spec() == self.validity@.len()
    }

    /// Cell `i`, null mask applied.
    pub open spec fn cell_at(self, i: int) -> CellValue {
        if !self.validity@[i] {
            CellValue::Null
        } else {
            match self.values {
                ColumnValues::Int64(v) => CellValue::Int64(v@[i]),
                ColumnValues::Boolean(v) => CellValue::Boolean(v@[i]),
                ColumnValues::Utf8(v) => CellValue::Utf8(v@[i]@),
            }
        }
    }

    /// All cells appended so far, in order.
    pub open spec fn cells(self) -> Seq<CellValue> {
        Seq::new(self.len_spec() as nat, |i: int| self.cell_at(i))
    }

    /// A fresh, empty builder for one column.
    pub fn new(name: String, kind: ColumnKind) -> (r: ColumnBuilder)
        ensures
            r.wf(),
            r.kind() == kind,
            r.name == name,
            r.cells() == Seq::<CellValue>::empty(),
    {
        let values = match kind {
            ColumnKind::Int64 => ColumnValues::Int64(Vec::new()),
            ColumnKind::Boolean => ColumnValues::Boolean(Vec::new()),
            ColumnKind::Utf8 => ColumnValues::Utf8(Vec::new()),
        };
        let r = ColumnBuilder { name, values, validity: Vec::new() };
        proof {
            assert(r.cells() =~= Seq::<CellValue>::empty());
        }
        r
    }

    /// The number of cells, as callers see it.
    pub fn len(&self) -> (n: usize)
        requires
            self.wf(),
        ensures
            n == self.cells().len(),
    {
        self.validity.len()
    }

    /// Appends an explicit null cell.
    pub fn append_null(&mut self)
        requires
            old(self).wf(),
        ensures
            final(self).wf(),
            final(self).kind() == old(self).kind(),
            final(self).name == old(self).name,
            final(self).cells() == old(self).cells().push(CellValue::Null),
    {
        match &mut self.values {
            ColumnValues::Int64(v) => v.push(0),
            ColumnValues::Boolean(v) => v.push(false),
            ColumnValues::Utf8(v) => v.push(Vec::new()),
        }
        self.validity.push(false);
        proof {
            assert(self.cells() =~= old(self).cells().push(CellValue::Null));
        }
    }

    /// Appends the column's default value (an empty field, when configured).
    pub fn append_default(&mut self)
        requires
            old(self).wf(),
        ensures
            final(self).wf(),
            final(self).kind() == old(self).kind(),
            final(self).name == old(self).name,
            final(self).cells() == old(self).cells().push(default_cell(old(self).kind())),
    {
        match &mut self.values {
            ColumnValues::Int64(v) => v.push(0),
            ColumnValues::Boolean(v) => v.push(false),
            ColumnValues::Utf8(v) => v.push(Vec::new()),
        }
        self.validity.push(true);
        proof {
            assert(self.cells() =~= old(self).cells().push(default_cell(old(self).kind())));
        }
    }
}

/// Whether one byte is whitespace, as the trim specification counts it.
fn is_space_byte(b: u8) -> (r: bool)
    ensures
        r == is_space(b),
{
    b == 32 || b == 9 || b == 13 || b == 10
}

/// Trims whitespace off both ends of `data[start..end]`, returning the
/// trimmed bounds.
fn trim_range(data: &Vec<u8>, start: usize, end: usize) -> (r: (usize, usize))
    requires
        start <= end <= data@.len(),
    ensures
        start <= r.0 <= r.1 <= end,
        data@.subrange(r.0 as int, r.1 as int) == trimmed(data@.subrange(start as int, end as int)),
{
    let mut ts: usize = start;
    while ts < end && is_space_byte(data[ts])
        invariant
            start <= ts <= end <= data@.len(),
            ltrim(data@.subrange(start as int, end as int)) == ltrim(
                data@.subrange(ts as int, end as int),
            ),
        decreases end - ts,
    {
        proof {
            let s = data@.subrange(ts as int, end as int);
            assert(s.drop_first() =~= data@.subrange(ts + 1, end as int));
        }
        ts = ts + 1;
    }
    let mut te: usize = end;
    while te > ts && is_space_byte(data[te - 1])
        invariant
            ts <= te <= end <= data@.len(),
            rtrim(data@.subrange(ts as int, end as int)) == rtrim(
                data@.subrange(ts as int, te as int),
            ),
        decreases te,
    {
        proof {
            let s = data@.subrange(ts as int, te as int);
            assert(s.drop_last() =~= data@.subrange(ts as int, te - 1));
        }
        te = te - 1;
    }
    (ts, te)
}

/// Whether `data[start..end]` equals `other` byte for byte.
fn bytes_equal_range(data: &Vec<u8>, start: usize, end: usize, other: &Vec<u8>) -> (r: bool)
    requires
        start <= end <= data@.len(),
    ensures
        r <==> data@.subrange(start as int, end as int) == other@,
{
    if end - start != other.len() {
        proof {
            assert(data@.subrange(start as int, end as int).len() != other@.len());
        }
        return false;
    }
    let mut i: usize = 0;
    while i < other.len()
        invariant
            0 <= i <= other@.len(),
            end - start == other@.len(),
            start <= end <= data@.len(),
            forall|j: int| 0 <= j < i ==> data@.subrange(start as int, end as int)[j] == other@[j],
        decreases other@.len() - i,
    {
        if data[start + i] != other[i] {
            proof {
                assert(data@.subrange(start as int, end as int)[i as int] != other@[i as int]);
            }
            return false;
        }
        i = i + 1;
    }
    proof {
        assert(data@.subrange(start as int, end as int) =~= other@);
    }
    true
}

/// Copies `data[start..end]` into a fresh buffer.
fn copy_range(data: &Vec<u8>, start: usize, end: usize) -> (v: Vec<u8>)
    requires
        start <= end <= data@.len(),
    ensures
        v@ == data@.subrange(start as int, end as int),
{
    let mut v: Vec<u8> = Vec::new();
    let mut i: usize = start;
    while i < end
        invariant
            start <= i <= end <= data@.len(),
            v@ == data@.subrange(start as int, i as int),
        decreases end - i,
    {
        v.push(data[i]);
        proof {
            assert(v@ =~= data@.subrange(start as int, i + 1 as int));
        }
        i = i + 1;
    }
    proof {
        assert(v@ =~= data@.subrange(start as int, end as int));
    }
    v
}

/// Whether one byte is an ASCII decimal digit.
fn is_digit_byte(b: u8) -> (r: bool)
    ensures
        r == is_digit(b),
{
    48 <= b && b <= 57
}

/// A sequence of digits has a non-negative value.
proof fn lemma_digits_val_nonneg(s: Seq<u8>)
    requires
        forall|i: int| 0 <= i < s.len() ==> is_digit(#[trigger] s[i]),
    ensures
        digits_val(s) >= 0,
    decreases s.len(),
{
    if s.len() > 0 {
        lemma_digits_val_nonneg(s.drop_last());
    }
}

/// Parses a signed 64-bit integer from `data[start..end]`, exactly as the
/// specification `spec_parse_i64` describes.
#[verifier::loop_isolation(false)]
fn parse_i64_range(data: &Vec<u8>, start: usize, end: usize) -> (r: Result<i64, FieldErrorKind>)
    requires
        start <= end <= data@.len(),
    ensures
        r == spec_parse_i64(data@.subrange(start as int, end as int)),
{
    let ghost t = data@.subrange(start as int, end as int);
    if start == end {
        return Err(FieldErrorKind::Parse);
    }
    let b0 = data[start];
    let signed = b0 == 45 || b0 == 43;
    let neg = b0 == 45;
    let bstart: usize = if signed {
        start + 1
    } else {
        start
    };
    let ghost body = data@.subrange(bstart as int, end as int);
    proof {
        if signed {
            assert(t.drop_first() =~= body);
        }
    }
    let mut j: usize = bstart;
    let mut acc: u64 = 0;
    let mut over = false;
    while j < end && is_digit_byte(data[j])
        invariant
            bstart <= j <= end,
            forall|idx: int| bstart <= idx < j ==> is_digit(#[trigger] data@[idx]),
            digit_count(body) == (j - bstart) + digit_count(data@.subrange(j as int, end as int)),
            !over ==> acc == digits_val(data@.subrange(bstart as int, j as int)),
            over ==> digits_val(data@.subrange(bstart as int, j as int)) > u64::MAX,
        decreases end - j,
    {
        let d: u64 = (data[j] - 48) as u64;
        proof {
            let s = data@.subrange(j as int, end as int);
            assert(s.drop_first() =~= data@.subrange(j + 1, end as int));
            let p = data@.subrange(bstart as int, j + 1);
            assert(p.drop_last() =~= data@.subrange(bstart as int, j as int));
            assert(p[p.len() - 1] == data@[j as int]);
            lemma_digits_val_nonneg(data@.subrange(bstart as int, j as int));
        }
        if over {
        } else if acc > 1844674407370955161u64 || (acc == 1844674407370955161u64 && d > 5) {
            over = true;
        } else {
            acc = acc * 10 + d;
        }
        j = j + 1;
    }
    let k = j - bstart;
    proof {
        let s = data@.subrange(j as int, end as int);
        assert(digit_count(s) == 0);
        assert(digit_count(body) == k);
        assert(body.take(k as int) =~= data@.subrange(bstart as int, j as int));
    }
    if k == 0 {
        return Err(FieldErrorKind::Parse);
    }
    let bound: u64 = if neg {
        9223372036854775808u64
    } else {
        9223372036854775807u64
    };
    if over || acc > bound {
        return Err(FieldErrorKind::Parse);
    }
    if j < end {
        return Err(FieldErrorKind::TrailingBytes);
    }
    if neg {
        if acc == 9223372036854775808u64 {
            Ok(i64::MIN)
        } else {
            Ok(0i64 - (acc as i64))
        }
    } else {
        Ok(acc as i64)
    }
}

/// Parses a boolean from `data[start..end]`, exactly as the specification
/// `spec_parse_bool` describes.
fn parse_bool_range(data: &Vec<u8>, start: usize, end: usize) -> (r: Result<bool, FieldErrorKind>)
    requires
        start <= end <= data@.len(),
    ensures
        r == spec_parse_bool(data@.subrange(start as int, end as int)),
{
    let ghost t = data@.subrange(start as int, end as int);
    let n = end - start;
    if n == 4 && data[start] == 116 && data[start + 1] == 114 && data[start + 2] == 117 && data[start
        + 3] == 101 {
        proof {
            assert(t =~= seq![116u8, 114u8, 117u8, 101u8]);
        }
        Ok(true)
    } else if n == 5 && data[start] == 102 && data[start + 1] == 97 && data[start + 2] == 108
        && data[start + 3] == 115 && data[start + 4] == 101 {
        proof {
            assert(t =~= seq![102u8, 97u8, 108u8, 115u8, 101u8]);
        }
        Ok(false)
    } else {
        proof {
            assert(t != seq![116u8, 114u8, 117u8, 101u8]) by {
                if t == seq![116u8, 114u8, 117u8, 101u8] {
                    assert(t.len() == 4);
                    assert(t[0] == 116 && t[1] == 114 && t[2] == 117 && t[3] == 101);
                }
            }
            assert(t != seq![102u8, 97u8, 108u8, 115u8, 101u8]) by {
                if t == seq![102u8, 97u8, 108u8, 115u8, 101u8] {
                    assert(t.len() == 5);
                    assert(t[0] == 102 && t[1] == 97 && t[2] == 108 && t[3] == 115 && t[4] == 101);
                }
            }
        }
        Err(FieldErrorKind::Parse)
    }
}

/// Decodes the field bytes `data[start..end]` into one appended cell of
/// `builder`: trim, then the empty/default rule, then the null marker, then
/// the column's typed parser.  On failure nothing is appended.
pub fn decode_into(
    builder: &mut ColumnBuilder,
    data: &Vec<u8>,
    start: usize,
    end: usize,
    settings: &FormatSettings,
) -> (r: Result<(), FieldErrorKind>)
    requires
        old(builder).wf(),
        start <= end <= data@.len(),
    ensures
        final(builder).wf(),
        final(builder).kind() == old(builder).kind(),
        final(builder).name == old(builder).name,
        ({
            let d = decode_cell(
                old(builder).kind(),
                data@.subrange(start as int, end as int),
                settings.null_bytes@,
                settings.empty_as_default,
            );
            match r {
                Ok(_) => (d matches Ok(c) && final(builder).cells() == old(builder).cells().push(
                    c,
                )),
                Err(k) => d == Err::<CellValue, FieldErrorKind>(k) && *final(builder) == *old(
                    builder,
                ),
            }
        }),
{
    let bounds = trim_range(data, start, end);
    let ts = bounds.0;
    let te = bounds.1;
    if ts == te && settings.empty_as_default {
        builder.append_default();
        return Ok(());
    }
    if te > ts && bytes_equal_range(data, ts, te, &settings.null_bytes) {
        builder.append_null();
        return Ok(());
    }
    match &mut builder.values {
        ColumnValues::Int64(v) => match parse_i64_range(data, ts, te) {
            Ok(x) => {
                v.push(x);
                builder.validity.push(true);
                proof {
                    assert(builder.cells() =~= old(builder).cells().push(CellValue::Int64(x)));
                }
                Ok(())
            },
            Err(k) => Err(k),
        },
        ColumnValues::Boolean(v) => match parse_bool_range(data, ts, te) {
            Ok(x) => {
                v.push(x);
                builder.validity.push(true);
                proof {
                    assert(builder.cells() =~= old(builder).cells().push(CellValue::Boolean(x)));
                }
                Ok(())
            },
            Err(k) => Err(k),
        },
        ColumnValues::Utf8(v) => {
            let field = copy_range(data, ts, te);
            let ghost fv = field@;
            v.push(field);
            builder.validity.push(true);
            proof {
                assert(builder.cells() =~= old(builder).cells().push(CellValue::Utf8(fv)));
            }
            Ok(())
        },
    }
}

impl InputFormatCSV {
    /// Decodes row `row` of a batch: for each column in schema order, the
    /// field's bytes go through `decode_cell` and the result is appended to
    /// that column's builder.  The first failing field aborts the row with a
    /// `MalformedField` that carries the absolute row number, the column, its
    /// name and the raw bytes; columns after it are left untouched.
    #[verifier::loop_isolation(false)]
    #[verifier::rlimit(100)]
    pub fn read_row(
        batch: &RowBatch,
        row: usize,
        builders: &mut Vec<ColumnBuilder>,
        settings: &FormatSettings,
    ) -> (r: Result<(), CsvError>)
        requires
            old(builders)@.len() >= 1,
            batch.wf(old(builders)@.len() as int),
            row < batch.row_count(),
            batch.start_row + batch.row_count() <= usize::MAX,
            forall|c: int| 0 <= c < old(builders)@.len() ==> (#[trigger] old(builders)@[c]).wf(),
        ensures
            final(builders)@.len() == old(builders)@.len(),
            forall|c: int|
                0 <= c < old(builders)@.len() ==> (#[trigger] final(builders)@[c]).wf() && final(builders)@[c].kind() == old(builders)@[c].kind() && final(builders)@[c].name == old(builders)@[c].name,
            ({
                let nf = old(builders)@.len() as int;
                match r {
                    Ok(_) => forall|c: int|
                        #![trigger old(builders)@[c]]
                        0 <= c < nf ==> (decode_cell(
                            old(builders)@[c].kind(),
                            batch.field_bytes(nf, row as int, c),
                            settings.null_bytes@,
                            settings.empty_as_default,
                        ) matches Ok(cell) && final(builders)@[c].cells() == old(builders)@[c].cells().push(cell)),
                    Err(e) => e matches CsvError::MalformedField {
                        path,
                        row: rr,
                        column,
                        column_name,
                        raw,
                        kind,
                    } && {
                        let cc = column as int;
                        &&& 0 <= cc < nf
                        &&& rr == batch.start_row + row
                        &&& path@ == batch.path@
                        &&& column_name@ == old(builders)@[cc].name@
                        &&& raw@ == batch.field_bytes(nf, row as int, cc)
                        &&& decode_cell(
                            old(builders)@[cc].kind(),
                            batch.field_bytes(nf, row as int, cc),
                            settings.null_bytes@,
                            settings.empty_as_default,
                        ) == Err::<CellValue, FieldErrorKind>(kind)
                        &&& forall|c: int|
                            #![trigger old(builders)@[c]]
                            0 <= c < cc ==> (decode_cell(
                                old(builders)@[c].kind(),
                                batch.field_bytes(nf, row as int, c),
                                settings.null_bytes@,
                                settings.empty_as_default,
                            ) matches Ok(cell) && final(builders)@[c].cells() == old(builders)@[c].cells().push(cell))
                        &&& forall|c: int|
                            cc <= c < nf ==> final(builders)@[c] == #[trigger] old(builders)@[c]
                    },
                }
            }),
    {
        let nf = builders.len();
        let ghost nfi = nf as int;
        let fe_total = batch.field_ends.len();
        let base: usize = if row == 0 {
            0
        } else {
            batch.row_ends[row - 1]
        };
        proof {
            assert(fe_total as int == batch.row_ends@.len() * nfi);
            assert(base as int == row_lower(batch.row_ends@, row as int));
            assert((row as int) * nfi + nfi <= batch.row_ends@.len() * nfi) by (nonlinear_arith)
                requires
                    row as int + 1 <= batch.row_ends@.len(),
                    nfi >= 1,
            ;
            assert((row as int) * nfi >= 0) by (nonlinear_arith)
                requires
                    row as int >= 0,
                    nfi >= 1,
            ;
        }
        proof {
            assert((row as int) * nfi + nfi <= fe_total as int);
        }
        let fe_base: usize = row * nf;
        let ghost feb = fe_base as int;
        let mut c: usize = 0;
        let mut prev: usize = 0;
        while c < nf
            invariant
                0 <= c <= nf,
                builders@.len() == nf,
                prev as int == (if c == 0 {
                    0int
                } else {
                    batch.field_ends@[feb + c - 1] as int
                }),
                forall|c2: int|
                    0 <= c2 < nf ==> (#[trigger] builders@[c2]).wf() && builders@[c2].kind() == old(builders)@[c2].kind() && builders@[c2].name == old(builders)@[c2].name,
                forall|c2: int|
                    #![trigger old(builders)@[c2]]
                    0 <= c2 < c ==> (decode_cell(
                        old(builders)@[c2].kind(),
                        batch.field_bytes(nfi, row as int, c2),
                        settings.null_bytes@,
                        settings.empty_as_default,
                    ) matches Ok(cell) && builders@[c2].cells() == old(builders)@[c2].cells().push(cell)),
                forall|c2: int| c <= c2 < nf ==> builders@[c2] == #[trigger] old(builders)@[c2],
            decreases nf - c,
        {
            proof {
                assert(fe_base + c < fe_total);
            }
            let hi = batch.field_ends[fe_base + c];
            proof {
                let fe = batch.field_ends@;
                assert(fe[feb + nfi - 1] as int == batch.row_ends@[row as int] - base);
                assert(forall|a: int|
                    0 < a < nfi ==> #[trigger] (fe[feb + a - 1] as int) <= fe[feb + a] as int);
                lemma_ends_sorted(fe, feb, nfi, c as int, nfi - 1);
                assert(hi as int <= fe[feb + nfi - 1] as int);
                assert(batch.row_ends@[row as int] as int <= batch.data@.len());
                if c > 0 {
                    assert(fe[feb + c - 1] as int <= fe[feb + c] as int);
                }
            }
            let lo = prev;
            let res = decode_into(&mut builders[c], &batch.data, base + lo, base + hi, settings);
            match res {
                Ok(_u) => {},
                Err(kind) => {
                    let raw = copy_range(&batch.data, base + lo, base + hi);
                    let column_name = builders[c].name.clone();
                    return Err(
                        CsvError::MalformedField {
                            path: batch.path.clone(),
                            row: batch.start_row + row,
                            column: c,
                            column_name,
                            raw,
                            kind,
                        },
                    );
                },
            }
            prev = hi;
            c = c + 1;
        }
        Ok(())
    }
}

/// The cell that a successful decode of one field yields.
pub open spec fn decoded_cell(
    kind: ColumnKind,
    bytes: Seq<u8>,
    null_marker: Seq<u8>,
    empty_as_default: bool,
) -> CellValue {
    decode_cell(kind, bytes, null_marker, empty_as_default)->Ok_0
}

impl InputFormatCSV {
    /// Decodes a whole batch into the column builders, row by row in order.
    /// On success every builder has gained exactly one cell per row, the
    /// decode of that row's field for its column.  The first failing field
    /// aborts the batch with a `MalformedField` naming the absolute row, the
    /// column and the raw bytes; per the error contract the batch is then
    /// discarded, so no more is promised of the builders' contents than their
    /// shape.
    #[verifier::loop_isolation(false)]
    #[verifier::rlimit(100)]
    pub fn deserialize(
        builders: &mut Vec<ColumnBuilder>,
        batch: &RowBatch,
        settings: &FormatSettings,
    ) -> (r: Result<(), CsvError>)
        requires
            old(builders)@.len() >= 1,
            batch.wf(old(builders)@.len() as int),
            batch.start_row + batch.row_count() <= usize::MAX,
            forall|c: int| 0 <= c < old(builders)@.len() ==> (#[trigger] old(builders)@[c]).wf(),
        ensures
            final(builders)@.len() == old(builders)@.len(),
            forall|c: int|
                0 <= c < old(builders)@.len() ==> (#[trigger] final(builders)@[c]).wf() && final(builders)@[c].kind() == old(builders)@[c].kind() && final(builders)@[c].name == old(builders)@[c].name,
            ({
                let nf = old(builders)@.len() as int;
                match r {
                    Ok(_) => {
                        &&& (forall|i: int, c: int|
                            0 <= i < batch.row_count() && 0 <= c < nf ==> (#[trigger] decode_cell(
                                old(builders)@[c].kind(),
                                batch.field_bytes(nf, i, c),
                                settings.null_bytes@,
                                settings.empty_as_default,
                            )) is Ok)
                        &&& (forall|c: int|
                            #![trigger old(builders)@[c]]
                            0 <= c < nf ==> final(builders)@[c].cells() == old(builders)@[c].cells()
                                + Seq::new(
                                batch.row_count() as nat,
                                |i: int|
                                    decoded_cell(
                                        old(builders)@[c].kind(),
                                        batch.field_bytes(nf, i, c),
                                        settings.null_bytes@,
                                        settings.empty_as_default,
                                    ),
                            ))
                    },
                    Err(e) => e matches CsvError::MalformedField {
                        path,
                        row: rr,
                        column,
                        column_name,
                        raw,
                        kind,
                    } && {
                        let i = rr - batch.start_row;
                        let cc = column as int;
                        &&& 0 <= i < batch.row_count()
                        &&& 0 <= cc < nf
                        &&& path@ == batch.path@
                        &&& column_name@ == old(builders)@[cc].name@
                        &&& raw@ == batch.field_bytes(nf, i, cc)
                        &&& decode_cell(
                            old(builders)@[cc].kind(),
                            batch.field_bytes(nf, i, cc),
                            settings.null_bytes@,
                            settings.empty_as_default,
                        ) == Err::<CellValue, FieldErrorKind>(kind)
                        &&& (forall|i2: int, c: int|
                            0 <= i2 < i && 0 <= c < nf ==> (#[trigger] decode_cell(
                                old(builders)@[c].kind(),
                                batch.field_bytes(nf, i2, c),
                                settings.null_bytes@,
                                settings.empty_as_default,
                            )) is Ok)
                        &&& (forall|c: int|
                            0 <= c < cc ==> (#[trigger] decode_cell(
                                old(builders)@[c].kind(),
                                batch.field_bytes(nf, i, c),
                                settings.null_bytes@,
                                settings.empty_as_default,
                            )) is Ok)
                    },
                }
            }),
    {
        let nf = builders.len();
        let ghost nfi = nf as int;
        let n = batch.row_ends.len();
        let mut i: usize = 0;
        while i < n
            invariant
                0 <= i <= n,
                builders@.len() == nf,
                forall|c: int|
                    0 <= c < nf ==> (#[trigger] builders@[c]).wf() && builders@[c].kind() == old(builders)@[c].kind() && builders@[c].name == old(builders)@[c].name,
                forall|i2: int, c: int|
                    0 <= i2 < i && 0 <= c < nf ==> (#[trigger] decode_cell(
                        old(builders)@[c].kind(),
                        batch.field_bytes(nfi, i2, c),
                        settings.null_bytes@,
                        settings.empty_as_default,
                    )) is Ok,
                forall|c: int|
                    #![trigger old(builders)@[c]]
                    0 <= c < nf ==> builders@[c].cells() == old(builders)@[c].cells() + Seq::new(
                        i as nat,
                        |i2: int|
                            decoded_cell(
                                old(builders)@[c].kind(),
                                batch.field_bytes(nfi, i2, c),
                                settings.null_bytes@,
                                settings.empty_as_default,
                            ),
                    ),
            decreases n - i,
        {
            let ghost before = builders@;
            match Self::read_row(batch, i, builders, settings) {
                Ok(_u) => {},
                Err(e) => {
                    return Err(e);
                },
            }
            proof {
                assert forall|c: int|
                    #![trigger old(builders)@[c]]
                    0 <= c < nfi implies builders@[c].cells() == old(builders)@[c].cells()
                    + Seq::new(
                    (i + 1) as nat,
                    |i2: int|
                        decoded_cell(
                            old(builders)@[c].kind(),
                            batch.field_bytes(nfi, i2, c),
                            settings.null_bytes@,
                            settings.empty_as_default,
                        ),
                ) by {
                    assert(before[c].cells() == old(builders)@[c].cells() + Seq::new(
                        i as nat,
                        |i2: int|
                            decoded_cell(
                                old(builders)@[c].kind(),
                                batch.field_bytes(nfi, i2, c),
                                settings.null_bytes@,
                                settings.empty_as_default,
                            ),
                    ));
                    assert(builders@[c].cells() =~= old(builders)@[c].cells() + Seq::new(
                        (i + 1) as nat,
                        |i2: int|
                            decoded_cell(
                                old(builders)@[c].kind(),
                                batch.field_bytes(nfi, i2, c),
                                settings.null_bytes@,
                                settings.empty_as_default,
                            ),
                    ));
                }
            }
            i = i + 1;
        }
        Ok(())
    }
}

/// Within one row, the recorded field ends are non-decreasing between any two
/// positions, not only between neighbours.
proof fn lemma_ends_sorted(fe: Seq<usize>, feb: int, nfi: int, j: int, j2: int)
    requires
        0 <= j <= j2 < nfi,
        feb >= 0,
        feb + nfi <= fe.len(),
        forall|a: int| 0 < a < nfi ==> #[trigger] (fe[feb + a - 1] as int) <= fe[feb + a] as int,
    ensures
        fe[feb + j] as int <= fe[feb + j2] as int,
    decreases j2 - j,
{
    if j < j2 {
        assert(fe[feb + (j + 1) - 1] as int <= fe[feb + (j + 1)] as int);
        lemma_ends_sorted(fe, feb, nfi, j + 1, j2);
    }
}

} // verus!
