//! `branches`: the branches of a dataset.
use vstd::prelude::*;

use crate::cell::{batch_of_rows, batch_row, row_ok, rows_ok, typed_as, Cell};
use crate::dataset::BranchInfo;
use crate::json::opt_view;
use crate::listing::{
    is_field, is_number, is_text, is_time, is_time_field, number_cell, text_cell, time_cell,
    Listing,
};
use crate::schema::{DataType, Field, Kind, Schema};

verus! {

/// True of the columns of the `branches` table.
pub open spec fn is_branches_schema(fields: Seq<Field>) -> bool {
    &&& fields.len() == 4
    &&& is_field(fields[0], "name"@, Kind::Utf8, false)
    &&& is_field(fields[1], "parent_branch"@, Kind::Utf8, true)
    &&& is_field(fields[2], "parent_version"@, Kind::UInt64, true)
    &&& is_time_field(fields[3], "created_at"@, true)
}

/// True where every branch that has one has an instant of the calendar's range.
pub open spec fn branches_ok(branches: Seq<BranchInfo>) -> bool {
    forall|i: int|
        0 <= i < branches.len() ==> ((#[trigger] branches[i]).created_at matches Some(t) ==> t.wf())
}

/// True where `row` is the row of the `branches` table for `b`.
pub open spec fn is_branch_row(row: Seq<Cell>, b: BranchInfo) -> bool {
    &&& row.len() == 4
    &&& is_text(row[0], Some(b.name@))
    &&& is_text(row[1], opt_view(b.parent_branch))
    &&& is_number(row[2], b.parent_version)
    &&& is_time(row[3], b.created_at)
}

fn branch_row(b: &BranchInfo) -> (row: Vec<Cell>)
    requires
        b.created_at matches Some(t) ==> t.wf(),
    ensures
        is_branch_row(row@, *b),
        row_ok(row, 4),
{
    let mut row: Vec<Cell> = Vec::new();
    row.push(Cell::Text(b.name.clone()));
    row.push(text_cell(&b.parent_branch));
    row.push(number_cell(b.parent_version));
    row.push(time_cell(b.created_at));
    row
}

/// The branches as a table.
pub fn branches_table(branches: &Vec<BranchInfo>) -> (r: Listing)
    requires
        branches_ok(branches@),
    ensures
        is_branches_schema(r.schema.fields@),
        typed_as(r.batch, r.schema.fields@),
        r.batch.wf(),
        r.batch.rows == branches@.len(),
        forall|i: int|
            0 <= i < branches@.len() ==> is_branch_row(
                #[trigger] batch_row(r.batch, i),
                branches@[i],
            ),
{
    let mut rows: Vec<Vec<Cell>> = Vec::new();
    let mut i: usize = 0;
    while i < branches.len()
        invariant
            i <= branches@.len(),
            branches_ok(branches@),
            rows@.len() == i,
            rows_ok(rows@, 4),
            forall|j: int| 0 <= j < i ==> is_branch_row((#[trigger] rows@[j])@, branches@[j]),
        decreases branches@.len() - i,
    {
        rows.push(branch_row(&branches[i]));
        i += 1;
    }
    let mut fields: Vec<Field> = Vec::new();
    fields.push(Field::new("name", DataType::utf8(), false));
    fields.push(Field::new("parent_branch", DataType::utf8(), true));
    fields.push(Field::new("parent_version", DataType::uint64(), true));
    fields.push(Field::new("created_at", DataType::utc_micros(), true));
    let schema = Schema::new(fields);
    let batch = batch_of_rows(&schema.fields, rows);
    Listing { schema, batch }
}

} // verus!
