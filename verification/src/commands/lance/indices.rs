//! `indices`: the indices of a dataset.
use vstd::prelude::*;

use crate::cell::{batch_of_rows, batch_row, row_ok, rows_ok, typed_as, Cell};
use crate::dataset::IndexInfo;
use crate::listing::{
    is_field, is_text, is_text_list_cell, is_time, is_time_field, text_list_cell, time_cell,
    Listing,
};
use crate::schema::{is_text_list, DataType, Field, Kind, Schema};
use crate::text::texts;

verus! {

/// True of the columns of the `indices` table.
pub open spec fn is_indices_schema(fields: Seq<Field>) -> bool {
    &&& fields.len() == 6
    &&& is_field(fields[0], "name"@, Kind::Utf8, false)
    &&& is_field(fields[1], "type"@, Kind::Utf8, false)
    &&& is_field(fields[2], "uuid"@, Kind::Utf8, false)
    &&& fields[3].name@ == "columns"@ && is_text_list(fields[3].data_type) && !fields[3].nullable
        && fields[3].metadata@.len() == 0
    &&& is_field(fields[4], "dataset_version"@, Kind::UInt64, false)
    &&& is_time_field(fields[5], "created_at"@, true)
}

/// True where every index that has one has an instant of the calendar's range.
pub open spec fn indices_ok(indices: Seq<IndexInfo>) -> bool {
    forall|i: int|
        0 <= i < indices.len() ==> ((#[trigger] indices[i]).created_at matches Some(t) ==> t.wf())
}

/// True where `row` is the row of the `indices` table for `x`.
pub open spec fn is_index_row(row: Seq<Cell>, x: IndexInfo) -> bool {
    &&& row.len() == 6
    &&& is_text(row[0], Some(x.name@))
    &&& is_text(row[1], Some(x.index_type@))
    &&& is_text(row[2], Some(x.uuid@))
    &&& is_text_list_cell(row[3], texts(x.columns@))
    &&& row[4] == Cell::UInt(x.dataset_version)
    &&& is_time(row[5], x.created_at)
}

fn index_row(x: &IndexInfo) -> (row: Vec<Cell>)
    requires
        x.created_at matches Some(t) ==> t.wf(),
    ensures
        is_index_row(row@, *x),
        row_ok(row, 6),
{
    let mut row: Vec<Cell> = Vec::new();
    row.push(Cell::Text(x.name.clone()));
    row.push(Cell::Text(x.index_type.clone()));
    row.push(Cell::Text(x.uuid.clone()));
    row.push(text_list_cell(&x.columns));
    row.push(Cell::UInt(x.dataset_version));
    row.push(time_cell(x.created_at));
    row
}

/// The indices as a table.
pub fn indices_table(indices: &Vec<IndexInfo>) -> (r: Listing)
    requires
        indices_ok(indices@),
    ensures
        is_indices_schema(r.schema.fields@),
        typed_as(r.batch, r.schema.fields@),
        r.batch.wf(),
        r.batch.rows == indices@.len(),
        forall|i: int|
            0 <= i < indices@.len() ==> is_index_row(#[trigger] batch_row(r.batch, i), indices@[i]),
{
    let mut rows: Vec<Vec<Cell>> = Vec::new();
    let mut i: usize = 0;
    while i < indices.len()
        invariant
            i <= indices@.len(),
            indices_ok(indices@),
            rows@.len() == i,
            rows_ok(rows@, 6),
            forall|j: int| 0 <= j < i ==> is_index_row((#[trigger] rows@[j])@, indices@[j]),
        decreases indices@.len() - i,
    {
        rows.push(index_row(&indices[i]));
        i += 1;
    }
    let mut fields: Vec<Field> = Vec::new();
    fields.push(Field::new("name", DataType::utf8(), false));
    fields.push(Field::new("type", DataType::utf8(), false));
    fields.push(Field::new("uuid", DataType::utf8(), false));
    fields.push(Field::new("columns", DataType::text_list(), false));
    fields.push(Field::new("dataset_version", DataType::uint64(), false));
    fields.push(Field::new("created_at", DataType::utc_micros(), true));
    let schema = Schema::new(fields);
    let batch = batch_of_rows(&schema.fields, rows);
    Listing { schema, batch }
}

} // verus!
