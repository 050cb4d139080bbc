//! What a destination starts with: the schema derived from the header line,
//! and the first data row as the initial batch.

use vstd::prelude::*;

use crate::batch::{columns_of, table_of, Batch};
use crate::error::VcfError;
use crate::text::{split_fields, split_on, DELIMITER};

verus! {

/// The type of a column. Every value is kept as the text it was read as:
/// nothing is parsed as a number, and a marker of absence stays the text
/// that it is.
#[derive(Clone, Copy, Debug, PartialEq, Eq, Structural)]
pub enum ColumnKind {
    Text,
}

/// One column of the schema.
#[derive(Clone, Debug, PartialEq, Eq)]
pub struct Column {
    pub name: String,
    pub kind: ColumnKind,
}

/// The names of the columns of `schema`, in order.
pub open spec fn column_names(schema: Seq<Column>) -> Seq<Seq<char>> {
    Seq::new(schema.len(), |i: int| schema[i].name@)
}

/// The schema and the initial batch that a destination is created with.
#[derive(Clone, Debug, PartialEq, Eq)]
pub struct Opening {
    pub schema: Vec<Column>,
    pub first: Batch,
}

/// The columns that hold the one row `fields`.
pub open spec fn single_row(fields: Seq<Seq<char>>) -> Seq<Seq<Seq<char>>> {
    columns_of(seq![fields], fields.len())
}

/// The schema that the header names: one text column for each name, in the
/// header's order. The first row has no say in it.
pub fn create_schema(header: &Vec<String>, firstrow: &Vec<String>) -> (schema: Vec<Column>)
    ensures
        column_names(schema@) == header.deep_view(),
        forall|i: int| 0 <= i < schema.len() ==> (#[trigger] schema[i]).kind == ColumnKind::Text,
{
    let mut schema: Vec<Column> = Vec::new();
    let mut i: usize = 0;
    while i < header.len()
        invariant
            i <= header.len(),
            schema.len() == i,
            forall|k: int| 0 <= k < i ==> (#[trigger] schema[k]).name@ == header[k]@,
            forall|k: int| 0 <= k < i ==> (#[trigger] schema[k]).kind == ColumnKind::Text,
        decreases header.len() - i,
    {
        schema.push(Column { name: header[i].clone(), kind: ColumnKind::Text });
        i = i + 1;
    }
    schema
}

/// One column for each field, holding that field alone.
fn columns_of_row(fields: Vec<String>) -> (columns: Vec<Vec<String>>)
    ensures
        columns.deep_view() == single_row(fields.deep_view()),
{
    let ghost row = fields.deep_view();
    let mut columns: Vec<Vec<String>> = Vec::new();
    for field in rest: fields
        invariant
            rest.seq() == fields@,
            row == fields.deep_view(),
            columns.len() == rest.index(),
            forall|k: int| 0 <= k < columns.len() ==> (#[trigger] columns[k]).deep_view() == seq![row[k]],
    {
        let mut column: Vec<String> = Vec::new();
        column.push(field);
        columns.push(column);
    }
    assert forall|c: int| 0 <= c < row.len() implies columns.deep_view()[c] == #[trigger] single_row(row)[c] by {}
    columns
}

/// Splits the header line and the first data row at the delimiter and, if
/// they have the same number of fields, gives the schema and the first row
/// as the initial batch.
pub fn create_parquet(header: String, firstrow: String) -> (r: Result<Opening, VcfError>)
    ensures
        ({
            let names = split_on(header@, DELIMITER);
            let fields = split_on(firstrow@, DELIMITER);
            match r {
                Ok(opening) => {
                    &&& fields.len() == names.len()
                    &&& column_names(opening.schema@) == names
                    &&& forall|i: int| 0 <= i < opening.schema.len() ==> (#[trigger] opening.schema[i]).kind == ColumnKind::Text
                    &&& opening.first@ == table_of(names, single_row(fields))
                },
                Err(e) => {
                    &&& fields.len() != names.len()
                    &&& e == (VcfError::ColumnCountMismatch {
                        row: 1,
                        expected: names.len() as usize,
                        found: fields.len() as usize,
                    })
                },
            }
        }),
{
    let names = split_fields(header.as_str(), DELIMITER);
    let fields = split_fields(firstrow.as_str(), DELIMITER);
    if names.len() != fields.len() {
        return Err(VcfError::ColumnCountMismatch { row: 1, expected: names.len(), found: fields.len() });
    }
    let schema = create_schema(&names, &fields);
    let columns = columns_of_row(fields);
    Ok(Opening { schema, first: Batch { header: names, columns } })
}

} // verus!
