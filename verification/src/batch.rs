//! An immutable batch of complete, unescaped rows, ready for type decoding.
use vstd::prelude::*;

verus! {

/// The offset in `data` at which row `i` begins: the previous row's end, or
/// zero for the first row.
pub open spec fn row_lower(row_ends: Seq<usize>, i: int) -> int {
    if i == 0 {
        0
    } else {
        row_ends[i - 1] as int
    }
}

/// The shape shared by a batch's two offset tables, for `nf` fields per row:
/// `field_ends` holds exactly `nf` entries per row, offsets relative to the
/// row's start, non-decreasing within the row, the last one equal to the
/// row's length; `row_ends` is non-decreasing with the last entry largest.
pub open spec fn offsets_wf(row_ends: Seq<usize>, field_ends: Seq<usize>, nf: int) -> bool {
    &&& field_ends.len() == row_ends.len() * nf
    &&& forall|i: int|
        0 <= i < row_ends.len() ==> row_lower(row_ends, i) <= #[trigger] (row_ends[i] as int)
    &&& forall|i: int|
        0 <= i < row_ends.len() ==> #[trigger] (row_ends[i] as int) <= row_ends[row_ends.len()
            - 1] as int
    &&& forall|i: int, j: int|
        0 <= i < row_ends.len() && 0 < j < nf ==> #[trigger] (field_ends[i * nf + j - 1] as int)
            <= field_ends[i * nf + j] as int
    &&& forall|i: int|
        0 <= i < row_ends.len() ==> #[trigger] (field_ends[i * nf + nf - 1] as int) == row_ends[i]
            - row_lower(row_ends, i)
}

/// One batch of complete rows.  `data` holds the rows' unescaped bytes,
/// concatenated; `row_ends` the offset in `data` at which each row ends;
/// `field_ends`, flattened with `num_fields` entries per row, the offset
/// within its row at which each field ends.
#[derive(Debug)]
pub struct RowBatch {
    pub data: Vec<u8>,
    pub row_ends: Vec<usize>,
    pub field_ends: Vec<usize>,
    /// The source path, for diagnostics.
    pub path: String,
    /// The sequence number of this batch within its stream.
    pub batch_id: usize,
    /// The absolute row number of the batch's first row (header rows counted).
    pub start_row: usize,
}

impl RowBatch {
    /// The batch invariant, for `nf` fields per row.
    pub open spec fn wf(self, nf: int) -> bool {
        &&& nf >= 1
        &&& offsets_wf(self.row_ends@, self.field_ends@, nf)
        &&& (self.row_ends@.len() >= 1 ==> self.row_ends@[self.row_ends@.len() - 1] as int
            == self.data@.len())
        &&& (self.row_ends@.len() == 0 ==> self.data@.len() == 0)
    }

    /// The number of rows in the batch.
    pub open spec fn row_count(self) -> int {
        self.row_ends@.len() as int
    }

    /// The raw bytes of field `c` of row `i`, quoting already resolved.
    pub open spec fn field_bytes(self, nf: int, i: int, c: int) -> Seq<u8> {
        let base = row_lower(self.row_ends@, i);
        let lo: int = if c == 0 {
            0
        } else {
            self.field_ends@[i * nf + c - 1] as int
        };
        let hi: int = self.field_ends@[i * nf + c] as int;
        self.data@.subrange(base + lo, base + hi)
    }

    /// The number of rows, as callers see it.
    pub fn num_rows(&self) -> (n: usize)
        ensures
            n == self.row_count(),
    {
        self.row_ends.len()
    }
}

} // verus!
