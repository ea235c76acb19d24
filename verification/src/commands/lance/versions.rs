//! `versions`: the versions of a branch.
use vstd::prelude::*;

use crate::cell::{batch_of_rows, batch_row, row_ok, rows_ok, typed_as, Cell};
use crate::commands::lance::diff::versions_ok;
use crate::dataset::VersionInfo;
use crate::json::opt_view;
use crate::listing::{is_field, is_text, is_time, is_time_field, text_cell, time_cell, Listing};
use crate::schema::{DataType, Field, Kind, Schema};

verus! {

/// True of the columns of the `versions` table.
pub open spec fn is_versions_schema(fields: Seq<Field>) -> bool {
    &&& fields.len() == 4
    &&& is_field(fields[0], "version"@, Kind::UInt64, false)
    &&& is_time_field(fields[1], "timestamp"@, false)
    &&& is_field(fields[2], "tag"@, Kind::Utf8, true)
    &&& is_field(fields[3], "message"@, Kind::Utf8, true)
}

/// True where `row` is the row of the `versions` table for `v`.
pub open spec fn is_version_row(row: Seq<Cell>, v: VersionInfo) -> bool {
    &&& row.len() == 4
    &&& row[0] == Cell::UInt(v.version)
    &&& is_time(row[1], Some(v.timestamp))
    &&& is_text(row[2], opt_view(v.tag))
    &&& is_text(row[3], opt_view(v.message))
}

fn version_row(v: &VersionInfo) -> (row: Vec<Cell>)
    requires
        v.timestamp.wf(),
    ensures
        is_version_row(row@, *v),
        row_ok(row, 4),
{
    let mut row: Vec<Cell> = Vec::new();
    row.push(Cell::UInt(v.version));
    row.push(time_cell(Some(v.timestamp)));
    row.push(text_cell(&v.tag));
    row.push(text_cell(&v.message));
    row
}

/// The versions as a table.
pub fn versions_table(versions: &Vec<VersionInfo>) -> (r: Listing)
    requires
        versions_ok(versions@),
    ensures
        is_versions_schema(r.schema.fields@),
        typed_as(r.batch, r.schema.fields@),
        r.batch.wf(),
        r.batch.rows == versions@.len(),
        forall|i: int|
            0 <= i < versions@.len() ==> is_version_row(
                #[trigger] batch_row(r.batch, i),
                versions@[i],
            ),
{
    let mut rows: Vec<Vec<Cell>> = Vec::new();
    let mut i: usize = 0;
    while i < versions.len()
        invariant
            i <= versions@.len(),
            versions_ok(versions@),
            rows@.len() == i,
            rows_ok(rows@, 4),
            forall|j: int| 0 <= j < i ==> is_version_row((#[trigger] rows@[j])@, versions@[j]),
        decreases versions@.len() - i,
    {
        rows.push(version_row(&versions[i]));
        i += 1;
    }
    let mut fields: Vec<Field> = Vec::new();
    fields.push(Field::new("version", DataType::uint64(), false));
    fields.push(Field::new("timestamp", DataType::utc_micros(), false));
    fields.push(Field::new("tag", DataType::utf8(), true));
    fields.push(Field::new("message", DataType::utf8(), true));
    let schema = Schema::new(fields);
    let batch = batch_of_rows(&schema.fields, rows);
    Listing { schema, batch }
}

} // verus!
