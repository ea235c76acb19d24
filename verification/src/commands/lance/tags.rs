//! `tags`: the tags of a dataset, on whatever branch.
use vstd::prelude::*;

use crate::cell::{batch_of_rows, batch_row, row_ok, rows_ok, typed_as, Cell};
use crate::dataset::TagInfo;
use crate::listing::{is_field, is_text, Listing};
use crate::schema::{DataType, Field, Kind, Schema};

verus! {

/// True of the columns of the `tags` table.
pub open spec fn is_tags_schema(fields: Seq<Field>) -> bool {
    &&& fields.len() == 3
    &&& is_field(fields[0], "name"@, Kind::Utf8, false)
    &&& is_field(fields[1], "branch"@, Kind::Utf8, false)
    &&& is_field(fields[2], "version"@, Kind::UInt64, false)
}

/// True where `row` is the row of the `tags` table for `t`.
pub open spec fn is_tag_row(row: Seq<Cell>, t: TagInfo) -> bool {
    &&& row.len() == 3
    &&& is_text(row[0], Some(t.name@))
    &&& is_text(row[1], Some(t.branch@))
    &&& row[2] == Cell::UInt(t.version)
}

fn tag_row(t: &TagInfo) -> (row: Vec<Cell>)
    ensures
        is_tag_row(row@, *t),
        row_ok(row, 3),
{
    let mut row: Vec<Cell> = Vec::new();
    row.push(Cell::Text(t.name.clone()));
    row.push(Cell::Text(t.branch.clone()));
    row.push(Cell::UInt(t.version));
    row
}

/// The tags as a table.
pub fn tags_table(tags: &Vec<TagInfo>) -> (r: Listing)
    ensures
        is_tags_schema(r.schema.fields@),
        typed_as(r.batch, r.schema.fields@),
        r.batch.wf(),
        r.batch.rows == tags@.len(),
        forall|i: int|
            0 <= i < tags@.len() ==> is_tag_row(#[trigger] batch_row(r.batch, i), tags@[i]),
{
    let mut rows: Vec<Vec<Cell>> = Vec::new();
    let mut i: usize = 0;
    while i < tags.len()
        invariant
            i <= tags@.len(),
            rows@.len() == i,
            rows_ok(rows@, 3),
            forall|j: int| 0 <= j < i ==> is_tag_row((#[trigger] rows@[j])@, tags@[j]),
        decreases tags@.len() - i,
    {
        rows.push(tag_row(&tags[i]));
        i += 1;
    }
    let mut fields: Vec<Field> = Vec::new();
    fields.push(Field::new("name", DataType::utf8(), false));
    fields.push(Field::new("branch", DataType::utf8(), false));
    fields.push(Field::new("version", DataType::uint64(), false));
    let schema = Schema::new(fields);
    let batch = batch_of_rows(&schema.fields, rows);
    Listing { schema, batch }
}

} // verus!
