//! The columnar batch writer: it keeps one buffer per column, takes rows in,
//! and hands out what it has buffered as a batch whenever the flush
//! threshold is reached, and once more when it is finalized.

use vstd::prelude::*;

use crate::batch::{columns_of, rows_of, table_of, Batch, Table};
use crate::create_parquet::{column_names, create_parquet, single_row, Opening};
use crate::error::VcfError;
use crate::text::{copy_texts, lemma_split_nonempty, split_fields, split_on, DELIMITER};

verus! {

/// Whether every row is `width` values wide.
pub open spec fn regular(rows: Seq<Seq<Seq<char>>>, width: nat) -> bool {
    forall|r: int| 0 <= r < rows.len() ==> (#[trigger] rows[r]).len() == width
}

/// What a writer is, as seen from outside.
pub struct WriterView {
    /// The column names, fixed when the writer was made.
    pub names: Seq<Seq<char>>,
    /// The rows taken in since the last flush, oldest first.
    pub pending: Seq<Seq<Seq<char>>>,
    /// The number of buffered rows at which the buffers are flushed.
    pub threshold: nat,
    /// The number of rows taken in so far, the first row included.
    pub rows: nat,
}

impl WriterView {
    /// There is at least one column, every buffered row has a value for
    /// every column, and fewer rows are buffered than the threshold says.
    pub open spec fn wf(self) -> bool {
        &&& self.names.len() >= 1
        &&& regular(self.pending, self.names.len())
        &&& self.pending.len() + 1 <= self.rows
        &&& self.pending.len() == 0 || self.pending.len() < self.threshold
    }

    /// The batch that a flush hands out: all buffered rows, column by column.
    pub open spec fn batch(self) -> Table {
        table_of(self.names, columns_of(self.pending, self.names.len()))
    }

    /// The writer with its buffers emptied.
    pub open spec fn flushed(self) -> WriterView {
        WriterView { pending: Seq::empty(), ..self }
    }

    /// The writer after one more row was taken in and buffered.
    pub open spec fn with_row(self, fields: Seq<Seq<char>>) -> WriterView {
        WriterView { pending: self.pending.push(fields), rows: self.rows + 1, ..self }
    }

    /// Whether the buffers are due for a flush once one more row is in.
    pub open spec fn fills(self) -> bool {
        self.pending.len() + 1 >= self.threshold
    }
}

/// Columns that all hold `height` values are the columns of their rows.
pub proof fn lemma_columns_of_rows(columns: Seq<Seq<Seq<char>>>, height: nat)
    requires
        forall|c: int| 0 <= c < columns.len() ==> (#[trigger] columns[c]).len() == height,
    ensures
        columns_of(rows_of(columns, height), columns.len()) == columns,
        regular(rows_of(columns, height), columns.len()),
{
    let back = columns_of(rows_of(columns, height), columns.len());
    assert forall|c: int| 0 <= c < columns.len() implies #[trigger] back[c] == columns[c] by {}
}

/// Appending one value to each column appends one row.
pub proof fn lemma_rows_of_pushed(
    before: Seq<Seq<Seq<char>>>,
    after: Seq<Seq<Seq<char>>>,
    height: nat,
    fields: Seq<Seq<char>>,
)
    requires
        before.len() == fields.len(),
        after.len() == fields.len(),
        forall|c: int| 0 <= c < before.len() ==> (#[trigger] before[c]).len() == height,
        forall|c: int| 0 <= c < after.len() ==> #[trigger] after[c] == before[c].push(fields[c]),
    ensures
        rows_of(after, height + 1) == rows_of(before, height).push(fields),
{
    let now = rows_of(after, height + 1);
    let then = rows_of(before, height).push(fields);
    assert forall|r: int| 0 <= r < now.len() implies #[trigger] now[r] == then[r] by {}
}

/// Writer state: the header, the column buffers, the flush threshold and
/// the count of rows taken in. The buffers are kept in lock-step: all hold
/// the same number of values at all times.
pub struct ParquetWriter {
    header: Vec<String>,
    row_buffer: Vec<Vec<String>>,
    buffered: usize,
    threshold: usize,
    rows: usize,
}

impl View for ParquetWriter {
    type V = WriterView;

    closed spec fn view(&self) -> WriterView {
        WriterView {
            names: self.header.deep_view(),
            pending: rows_of(self.row_buffer.deep_view(), self.buffered as nat),
            threshold: self.threshold as nat,
            rows: self.rows as nat,
        }
    }
}

/// `width` columns without values.
fn empty_columns(width: usize) -> (columns: Vec<Vec<String>>)
    ensures
        columns.len() == width,
        forall|c: int| 0 <= c < width ==> (#[trigger] columns[c]).len() == 0,
{
    let mut columns: Vec<Vec<String>> = Vec::new();
    while columns.len() < width
        invariant
            columns.len() <= width,
            forall|c: int| 0 <= c < columns.len() ==> (#[trigger] columns[c]).len() == 0,
        decreases width - columns.len(),
    {
        columns.push(Vec::new());
    }
    columns
}

/// Appends value `c` of `fields` to column `c`, for every column.
fn push_row(columns: &mut Vec<Vec<String>>, fields: Vec<String>)
    requires
        old(columns).len() == fields.len(),
    ensures
        final(columns).len() == old(columns).len(),
        forall|c: int| 0 <= c < fields.len() ==> (#[trigger] final(columns)[c]).deep_view() == old(columns)[c].deep_view().push(fields[c]@),
{
    let ghost row = fields.deep_view();
    let mut c: usize = 0;
    for field in rest: fields
        invariant
            rest.seq() == fields@,
            row == fields.deep_view(),
            c == rest.index(),
            columns.len() == old(columns).len() == fields.len(),
            forall|k: int| 0 <= k < c ==> (#[trigger] columns[k]).deep_view() == old(columns)[k].deep_view().push(row[k]),
            forall|k: int| c <= k < columns.len() ==> #[trigger] columns[k] == old(columns)[k],
    {
        columns[c].push(field);
        c = c + 1;
    }
}

impl ParquetWriter {
    /// There is a buffer for every column, and all buffers hold the same
    /// number of values.
    closed spec fn in_step(&self) -> bool {
        &&& self.row_buffer.len() == self.header.len()
        &&& forall|c: int| 0 <= c < self.row_buffer.len() ==> (#[trigger] self.row_buffer[c]).len() == self.buffered
    }

    /// The buffers are in lock-step, and what is seen of the writer is
    /// well-formed.
    pub closed spec fn wf(&self) -> bool {
        &&& self.in_step()
        &&& self@.wf()
    }

    /// A well-formed writer is seen as a well-formed state.
    pub proof fn lemma_wf(&self)
        requires
            self.wf(),
        ensures
            self@.wf(),
    {
    }

    /// Makes a writer for the columns that the header line names, and hands
    /// out what the destination starts with: the schema, and the first data
    /// row as the initial batch.
    ///
    /// Header and first row are split at the delimiter; unless they have the
    /// same number of fields there is no writer.
    pub fn new(header: String, firstrow: String, threshold: usize) -> (r: Result<(ParquetWriter, Opening), VcfError>)
        ensures
            ({
                let names = split_on(header@, DELIMITER);
                let fields = split_on(firstrow@, DELIMITER);
                match r {
                    Ok((writer, opening)) => {
                        &&& fields.len() == names.len()
                        &&& writer.wf()
                        &&& writer@ == (WriterView { names, pending: Seq::empty(), threshold: threshold as nat, rows: 1 })
                        &&& column_names(opening.schema@) == names
                        &&& opening.first@ == table_of(names, single_row(fields))
                    },
                    Err(e) => {
                        &&& fields.len() != names.len()
                        &&& e == (VcfError::ColumnCountMismatch {
                            row: 1,
                            expected: names.len() as usize,
                            found: fields.len() as usize,
                        })
                    },
                }
            }),
    {
        let ghost line = header@;
        match create_parquet(header, firstrow) {
            Ok(opening) => {
                let header = copy_texts(&opening.first.header);
                let row_buffer = empty_columns(header.len());
                let writer = ParquetWriter { header, row_buffer, buffered: 0, threshold, rows: 1 };
                proof {
                    lemma_split_nonempty(line, DELIMITER);
                    assert(writer@.pending =~= Seq::<Seq<Seq<char>>>::empty());
                }
                Ok((writer, opening))
            },
            Err(e) => Err(e),
        }
    }

    /// The number of rows taken in so far, the first row included.
    pub fn rows(&self) -> (rows: usize)
        ensures
            rows == self@.rows,
    {
        self.rows
    }

    /// The flush threshold.
    pub fn threshold(&self) -> (threshold: usize)
        ensures
            threshold == self@.threshold,
    {
        self.threshold
    }

    /// The number of rows in the buffers.
    pub fn buffered(&self) -> (buffered: usize)
        requires
            self.wf(),
        ensures
            buffered == self@.pending.len(),
    {
        self.buffered
    }

    /// The column names.
    pub fn header(&self) -> (header: &Vec<String>)
        ensures
            header.deep_view() == self@.names,
    {
        &self.header
    }

    /// Takes the buffers' content out as a batch, if they hold any row, and
    /// leaves them empty. On empty buffers this does nothing.
    pub fn write(&mut self) -> (batch: Option<Batch>)
        requires
            old(self).wf(),
        ensures
            final(self).wf(),
            final(self)@ == old(self)@.flushed(),
            match batch {
                Some(b) => old(self)@.pending.len() > 0 && b@ == old(self)@.batch(),
                None => old(self)@.pending.len() == 0,
            },
    {
        self.flush()
    }

    /// The flush itself, which needs the buffers in lock-step and no more.
    fn flush(&mut self) -> (batch: Option<Batch>)
        requires
            old(self).in_step(),
        ensures
            final(self).in_step(),
            final(self)@ == old(self)@.flushed(),
            match batch {
                Some(b) => old(self)@.pending.len() > 0 && b@ == old(self)@.batch(),
                None => old(self)@.pending.len() == 0,
            },
    {
        if self.buffered == 0 {
            assert(self@.pending =~= Seq::<Seq<Seq<char>>>::empty());
            return None;
        }
        proof {
            lemma_columns_of_rows(self.row_buffer.deep_view(), self.buffered as nat);
        }
        let mut columns = empty_columns(self.header.len());
        core::mem::swap(&mut self.row_buffer, &mut columns);
        self.buffered = 0;
        assert(self@.pending =~= Seq::<Seq<Seq<char>>>::empty());
        Some(Batch { header: copy_texts(&self.header), columns })
    }

    /// Takes one data row in.
    ///
    /// The row is split at the delimiter. If it has another number of fields
    /// than the header, it is refused and the writer stays as it was: nothing
    /// is dropped or padded. Otherwise each field is appended to the buffer
    /// of its column, and when the buffered rows reach the threshold, they
    /// are flushed: the batch is handed out and the buffers are left empty.
    pub fn add_row(&mut self, row: &String) -> (r: Result<Option<Batch>, VcfError>)
        requires
            old(self).wf(),
            old(self)@.rows < usize::MAX,
        ensures
            final(self).wf(),
            ({
                let before = old(self)@;
                let fields = split_on(row@, DELIMITER);
                if fields.len() != before.names.len() {
                    &&& r == Err::<Option<Batch>, VcfError>(
                        VcfError::ColumnCountMismatch {
                            row: (before.rows + 1) as usize,
                            expected: before.names.len() as usize,
                            found: fields.len() as usize,
                        },
                    )
                    &&& final(self)@ == before
                } else if before.fills() {
                    &&& r matches Ok(Some(b))
                    &&& b@ == before.with_row(fields).batch()
                    &&& final(self)@ == before.with_row(fields).flushed()
                } else {
                    &&& r == Ok::<Option<Batch>, VcfError>(None)
                    &&& final(self)@ == before.with_row(fields)
                }
            }),
    {
        let fields = split_fields(row.as_str(), DELIMITER);
        if fields.len() != self.header.len() {
            return Err(
                VcfError::ColumnCountMismatch { row: self.rows + 1, expected: self.header.len(), found: fields.len() },
            );
        }
        let ghost before = self.row_buffer.deep_view();
        push_row(&mut self.row_buffer, fields);
        proof {
            lemma_rows_of_pushed(
                before,
                self.row_buffer.deep_view(),
                self.buffered as nat,
                split_on(row@, DELIMITER),
            );
            assert forall|c: int| 0 <= c < self.row_buffer.len() implies (#[trigger] self.row_buffer[c]).len()
                == self.buffered + 1 by {
                assert(self.row_buffer[c].deep_view().len() == before[c].len() + 1);
            }
        }
        self.buffered = self.buffered + 1;
        self.rows = self.rows + 1;
        if self.buffered >= self.threshold {
            let batch = self.flush();
            Ok(batch)
        } else {
            Ok(None)
        }
    }

    /// Ends the writer: what is still buffered, however little, is handed out
    /// as the last batch. The writer is used up, so this happens once.
    pub fn finalize(self) -> (last: Option<Batch>)
        requires
            self.wf(),
        ensures
            match last {
                Some(b) => self@.pending.len() > 0 && b@ == self@.batch(),
                None => self@.pending.len() == 0,
            },
    {
        let mut writer = self;
        writer.write()
    }
}

} // verus!
