//! `index-stats`: how much of a dataset its indices cover.
use vstd::prelude::*;

use crate::binary64::{one_decimal, percent_tenths, percent_text};
use crate::cell::{batch_of_rows, batch_row, row_ok, rows_ok, typed_as, Cell};
use crate::cli::Format;
use crate::dataset::IndexStats;
use crate::listing::{is_field, is_text, Listing};
use crate::schema::{DataType, Field, Kind, Schema};

verus! {

/// True where the rows of every index can be counted in 64 bits.
pub open spec fn stats_ok(stats: Seq<IndexStats>) -> bool {
    forall|i: int|
        0 <= i < stats.len() ==> (#[trigger] stats[i]).indexed_rows + stats[i].unindexed_rows
            <= u64::MAX
}

/// The share of rows covered, in percent with one decimal place; `n/a` without rows.
pub open spec fn coverage_of(s: IndexStats) -> Seq<char> {
    let total = (s.indexed_rows + s.unindexed_rows) as nat;
    if total == 0 {
        "n/a"@
    } else {
        one_decimal(percent_tenths(s.indexed_rows as nat, total)) + "%"@
    }
}

/// Render coverage as a percentage with one decimal place, or `n/a` for an index
/// without rows.
pub fn coverage_display(stats: &IndexStats) -> (r: String)
    requires
        stats.indexed_rows + stats.unindexed_rows <= u64::MAX,
    ensures
        r@ == coverage_of(*stats),
{
    let total: u64 = stats.indexed_rows + stats.unindexed_rows;
    if total == 0 {
        return "n/a".to_owned();
    }
    let mut s = percent_text(stats.indexed_rows, total);
    s.append("%");
    s
}

/// True of the columns of the `index-stats` table; the details only on request.
pub open spec fn is_index_stats_schema(fields: Seq<Field>, detail: bool) -> bool {
    &&& fields.len() == if detail {
        6int
    } else {
        5
    }
    &&& is_field(fields[0], "name"@, Kind::Utf8, false)
    &&& is_field(fields[1], "type"@, Kind::Utf8, false)
    &&& is_field(fields[2], "indexed_rows"@, Kind::UInt64, false)
    &&& is_field(fields[3], "unindexed_rows"@, Kind::UInt64, false)
    &&& is_field(fields[4], "coverage"@, Kind::Utf8, false)
    &&& detail ==> is_field(fields[5], "detail"@, Kind::Utf8, false)
}

/// True where `row` is the row of the `index-stats` table for `s`.
pub open spec fn is_index_stats_row(row: Seq<Cell>, s: IndexStats, detail: bool) -> bool {
    &&& row.len() == if detail {
        6int
    } else {
        5
    }
    &&& is_text(row[0], Some(s.name@))
    &&& is_text(row[1], Some(s.index_type@))
    &&& row[2] == Cell::UInt(s.indexed_rows)
    &&& row[3] == Cell::UInt(s.unindexed_rows)
    &&& is_text(row[4], Some(coverage_of(s)))
    &&& detail ==> is_text(row[5], Some(s.detail@))
}

fn index_stats_row(s: &IndexStats, detail: bool) -> (row: Vec<Cell>)
    requires
        s.indexed_rows + s.unindexed_rows <= u64::MAX,
    ensures
        is_index_stats_row(row@, *s, detail),
        row_ok(row, row@.len()),
{
    let mut row: Vec<Cell> = Vec::new();
    row.push(Cell::Text(s.name.clone()));
    row.push(Cell::Text(s.index_type.clone()));
    row.push(Cell::UInt(s.indexed_rows));
    row.push(Cell::UInt(s.unindexed_rows));
    row.push(Cell::Text(coverage_display(s)));
    if detail {
        row.push(Cell::Text(s.detail.clone()));
    }
    row
}

/// The statistics of the indices as a table. The details are long, so that only
/// `jsonl` carries them.
pub fn index_stats_table(stats: &Vec<IndexStats>, format: Format) -> (r: Listing)
    requires
        stats_ok(stats@),
    ensures
        is_index_stats_schema(r.schema.fields@, format == Format::Jsonl),
        typed_as(r.batch, r.schema.fields@),
        r.batch.wf(),
        r.batch.rows == stats@.len(),
        forall|i: int|
            0 <= i < stats@.len() ==> is_index_stats_row(
                #[trigger] batch_row(r.batch, i),
                stats@[i],
                format == Format::Jsonl,
            ),
{
    let detail = format == Format::Jsonl;
    let mut fields: Vec<Field> = Vec::new();
    fields.push(Field::new("name", DataType::utf8(), false));
    fields.push(Field::new("type", DataType::utf8(), false));
    fields.push(Field::new("indexed_rows", DataType::uint64(), false));
    fields.push(Field::new("unindexed_rows", DataType::uint64(), false));
    fields.push(Field::new("coverage", DataType::utf8(), false));
    if detail {
        fields.push(Field::new("detail", DataType::utf8(), false));
    }
    let ghost width = fields@.len();
    let mut rows: Vec<Vec<Cell>> = Vec::new();
    let mut i: usize = 0;
    while i < stats.len()
        invariant
            i <= stats@.len(),
            stats_ok(stats@),
            width == if detail {
                6int
            } else {
                5
            },
            rows@.len() == i,
            rows_ok(rows@, width),
            forall|j: int|
                0 <= j < i ==> is_index_stats_row((#[trigger] rows@[j])@, stats@[j], detail),
        decreases stats@.len() - i,
    {
        rows.push(index_stats_row(&stats[i], detail));
        i += 1;
    }
    let schema = Schema::new(fields);
    let batch = batch_of_rows(&schema.fields, rows);
    Listing { schema, batch }
}

} // verus!
