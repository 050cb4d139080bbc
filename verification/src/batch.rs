//! One flushed unit of column-major data, and its form as an arrow record batch.

use arrow::array::{ArrayRef, StringArray};
use arrow::error::ArrowError;
use arrow::record_batch::RecordBatch;
use std::sync::Arc;
use vstd::prelude::*;
use vstd::utf8::encode_utf8;

use crate::error::VcfError;

verus! {

/// What a batch holds: the column names and, for each column, its values in
/// row order.
pub struct Table {
    pub names: Seq<Seq<char>>,
    pub columns: Seq<Seq<Seq<char>>>,
}

impl Table {
    /// The number of rows.
    pub open spec fn height(self) -> nat {
        if self.columns.len() == 0 {
            0
        } else {
            self.columns[0].len()
        }
    }

    /// There is a column for every name, at least one, and all columns are
    /// of one length.
    pub open spec fn wf(self) -> bool {
        &&& self.names.len() >= 1
        &&& self.columns.len() == self.names.len()
        &&& forall|c: int| 0 <= c < self.columns.len() ==> #[trigger] self.columns[c].len() == self.height()
    }

    /// The same values row by row: value `c` of row `r` is value `r` of column `c`.
    pub open spec fn rows(self) -> Seq<Seq<Seq<char>>> {
        rows_of(self.columns, self.height())
    }

    /// No column holds more bytes of text than a 32-bit offset can address.
    pub open spec fn fits_offsets(self) -> bool {
        forall|c: int| 0 <= c < self.columns.len() ==> #[trigger] total_bytes(self.columns[c]) <= i32::MAX
    }
}

/// The table of the given names and columns.
pub open spec fn table_of(names: Seq<Seq<char>>, columns: Seq<Seq<Seq<char>>>) -> Table {
    Table { names, columns }
}

/// The columns that hold `rows`, each row being `width` values wide.
pub open spec fn columns_of(rows: Seq<Seq<Seq<char>>>, width: nat) -> Seq<Seq<Seq<char>>> {
    Seq::new(width, |c: int| Seq::new(rows.len(), |r: int| rows[r][c]))
}

/// The rows that `columns` hold, each column being `height` values long.
pub open spec fn rows_of(columns: Seq<Seq<Seq<char>>>, height: nat) -> Seq<Seq<Seq<char>>> {
    Seq::new(height, |r: int| Seq::new(columns.len(), |c: int| columns[c][r]))
}

/// The number of bytes that the values of one column take as UTF-8.
pub open spec fn total_bytes(column: Seq<Seq<char>>) -> nat
    decreases column.len(),
{
    if column.len() == 0 {
        0
    } else {
        total_bytes(column.drop_last()) + encode_utf8(column.last()).len()
    }
}

/// Turning rows into columns and back gives the rows again.
pub proof fn lemma_rows_of_columns(rows: Seq<Seq<Seq<char>>>, width: nat)
    requires
        forall|r: int| 0 <= r < rows.len() ==> #[trigger] rows[r].len() == width,
    ensures
        rows_of(columns_of(rows, width), rows.len()) == rows,
{
    let back = rows_of(columns_of(rows, width), rows.len());
    assert forall|r: int| 0 <= r < rows.len() implies #[trigger] back[r] == rows[r] by {}
}

/// A column's bytes are at least those of any of its leading parts.
pub proof fn lemma_total_bytes_grows(column: Seq<Seq<char>>, n: int)
    requires
        0 <= n <= column.len(),
    ensures
        total_bytes(column.take(n)) <= total_bytes(column),
    decreases column.len(),
{
    if n < column.len() {
        assert(column.drop_last().take(n) == column.take(n));
        lemma_total_bytes_grows(column.drop_last(), n);
    } else {
        assert(column.take(n) == column);
    }
}

/// One unit of columnar output: the header and, for every header position,
/// the values of that column.
#[derive(Debug, Clone, PartialEq, Eq)]
pub struct Batch {
    pub header: Vec<String>,
    pub columns: Vec<Vec<String>>,
}

impl View for Batch {
    type V = Table;

    open spec fn view(&self) -> Table {
        table_of(self.header.deep_view(), self.columns.deep_view())
    }
}

/// An arrow record batch whose columns are all UTF-8 text without nulls.
///
/// What is inside is not seen in proofs: what is known of a batch is what
/// `record_names` and `record_columns` say of it.
#[verifier::external_body]
pub struct ArrowBatch {
    pub inner: RecordBatch,
}

/// `arrow::error::ArrowError`, of which nothing is seen here.
#[verifier::external_type_specification]
#[verifier::external_body]
pub struct ExArrowError(ArrowError);

/// The field names of the schema of a record batch, in order.
pub uninterp spec fn record_names(batch: ArrowBatch) -> Seq<Seq<char>>;

/// The values of each column of a record batch, in row order.
pub uninterp spec fn record_columns(batch: ArrowBatch) -> Seq<Seq<Seq<char>>>;

/// Builds each column with `StringArray::from_iter_values` and the batch with
/// `RecordBatch::try_from_iter`.
///
/// The first panics once a column's text passes `i32::MAX` bytes, hence the
/// bound. The second refuses a batch without columns or with columns of
/// unequal length and nothing else that can be built here, since it takes
/// each field's type and nullability from the array itself; for a
/// well-formed table it therefore returns the batch, with the names as
/// field names and the values as they were given.
#[verifier::external_body]
fn utf8_record_batch(header: &Vec<String>, columns: &Vec<Vec<String>>) -> (r: Result<ArrowBatch, ArrowError>)
    requires
        table_of(header.deep_view(), columns.deep_view()).wf(),
        table_of(header.deep_view(), columns.deep_view()).fits_offsets(),
    ensures
        r is Ok,
        r matches Ok(b) ==> record_names(b) == header.deep_view(),
        r matches Ok(b) ==> record_columns(b) == columns.deep_view(),
{
    RecordBatch::try_from_iter(header.iter().zip(columns.iter()).map(|(name, column)| {
        (name.as_str(), Arc::new(StringArray::from_iter_values(column.iter())) as ArrayRef)
    })).map(|inner| ArrowBatch { inner })
}

/// Whether the values of `column` take at most `i32::MAX` bytes as UTF-8.
fn column_fits(column: &Vec<String>) -> (fits: bool)
    ensures
        fits == (total_bytes(column.deep_view()) <= i32::MAX),
{
    broadcast use vstd::slice::group_slice_axioms;

    let limit: usize = 0x7fff_ffff;
    let mut used: usize = 0;
    let mut i: usize = 0;
    while i < column.len()
        invariant
            i <= column.len(),
            limit == i32::MAX,
            used == total_bytes(column.deep_view().take(i as int)),
            used <= limit,
        decreases column.len() - i,
    {
        let size = column[i].as_str().as_bytes().len();
        proof {
            assert(column.deep_view().take(i + 1).drop_last() == column.deep_view().take(i as int));
            lemma_total_bytes_grows(column.deep_view(), i + 1);
        }
        if size > limit - used {
            return false;
        }
        used = used + size;
        i = i + 1;
    }
    assert(column.deep_view().take(i as int) == column.deep_view());
    true
}

impl Batch {
    /// Whether there is a column for every name, at least one, and all
    /// columns are of one length.
    pub fn is_well_formed(&self) -> (ok: bool)
        ensures
            ok == self@.wf(),
    {
        if self.header.len() == 0 || self.columns.len() != self.header.len() {
            return false;
        }
        let height = self.columns[0].len();
        let mut c: usize = 1;
        while c < self.columns.len()
            invariant
                1 <= c <= self.columns.len(),
                self.columns.len() == self.header.len(),
                height == self@.height(),
                forall|k: int| 0 <= k < c ==> #[trigger] self@.columns[k].len() == height,
            decreases self.columns.len() - c,
        {
            if self.columns[c].len() != height {
                assert(self@.columns[c as int].len() != self@.height());
                return false;
            }
            c = c + 1;
        }
        true
    }

    /// Whether no column holds more bytes of text than a 32-bit offset can
    /// address.
    pub fn fits_offsets(&self) -> (ok: bool)
        ensures
            ok == self@.fits_offsets(),
    {
        let mut c: usize = 0;
        while c < self.columns.len()
            invariant
                c <= self.columns.len(),
                forall|k: int| 0 <= k < c ==> #[trigger] total_bytes(self@.columns[k]) <= i32::MAX,
            decreases self.columns.len() - c,
        {
            if !column_fits(&self.columns[c]) {
                assert(total_bytes(self@.columns[c as int]) > i32::MAX);
                return false;
            }
            c = c + 1;
        }
        true
    }

    /// The batch as an arrow record batch of text columns, named as the
    /// header says.
    ///
    /// A batch that is not well-formed, or holds more text in a column than
    /// arrow's 32-bit offsets address, is refused.
    pub fn to_record_batch(&self) -> (r: Result<ArrowBatch, VcfError>)
        ensures
            match r {
                Ok(b) => {
                    &&& self@.wf()
                    &&& self@.fits_offsets()
                    &&& record_names(b) == self@.names
                    &&& record_columns(b) == self@.columns
                },
                Err(e) => e == VcfError::DestinationWriteFailure && !(self@.wf() && self@.fits_offsets()),
            },
    {
        if !self.is_well_formed() || !self.fits_offsets() {
            return Err(VcfError::DestinationWriteFailure);
        }
        match utf8_record_batch(&self.header, &self.columns) {
            Ok(b) => Ok(b),
            Err(_) => Err(VcfError::DestinationWriteFailure),
        }
    }
}

} // verus!
