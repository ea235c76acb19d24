//! `fragments`: the physical fragments of a dataset.
use vstd::prelude::*;

use crate::cell::{batch_of_rows, batch_row, cell_ok, row_ok, rows_ok, typed_as, Cell};
use crate::cli::Format;
use crate::commands::common::{human, human_bytes};
use crate::commands::lance::stat::{
    bytes, deleted, fragment_bytes, fragment_totals, physical, total,
};
use crate::dataset::FragmentInfo;
use crate::listing::{is_field, is_number, is_text, number_cell, Listing};
use crate::schema::{DataType, Field, Kind, Schema};
use crate::text::{dec, dec_u64, dec_usize, join, join_texts, texts};

verus! {

/// True of the columns of the `fragments` table.
pub open spec fn is_fragments_schema(fields: Seq<Field>, human_size: bool, files: bool) -> bool {
    &&& fields.len() == if files {
        6int
    } else {
        5
    }
    &&& is_field(fields[0], "id"@, Kind::UInt64, false)
    &&& is_field(fields[1], "physical_rows"@, Kind::UInt64, false)
    &&& is_field(fields[2], "deleted_rows"@, Kind::UInt64, false)
    &&& is_field(fields[3], "num_files"@, Kind::UInt64, false)
    &&& files ==> is_field(fields[4], "files"@, Kind::Utf8, false)
    &&& is_field(
        fields.last(),
        "size"@,
        if human_size {
            Kind::Utf8
        } else {
            Kind::UInt64
        },
        true,
    )
}

/// A size as text.
pub open spec fn size_text(size: Option<u64>) -> Option<Seq<char>> {
    match size {
        Some(n) => Some(human(n as nat)),
        None => None,
    }
}

/// True where `row` is the row of the `fragments` table for `f`.
pub open spec fn is_fragment_row(
    row: Seq<Cell>,
    f: FragmentInfo,
    human_size: bool,
    files: bool,
) -> bool {
    &&& row.len() == if files {
        6int
    } else {
        5
    }
    &&& row[0] == Cell::UInt(f.id)
    &&& row[1] == Cell::UInt(f.physical_rows)
    &&& row[2] == Cell::UInt(f.deleted_rows)
    &&& row[3] == Cell::UInt(f.num_files)
    &&& files ==> is_text(row[4], Some(join(texts(f.files@), ","@)))
    &&& if human_size {
        is_text(row.last(), size_text(f.size))
    } else {
        is_number(row.last(), f.size)
    }
}

fn size_cell(size: Option<u64>, human_size: bool) -> (c: Cell)
    ensures
        if human_size {
            is_text(c, size_text(size))
        } else {
            is_number(c, size)
        },
        cell_ok(c),
{
    if human_size {
        match size {
            Some(n) => Cell::Text(human_bytes(n)),
            None => Cell::Null,
        }
    } else {
        number_cell(size)
    }
}

fn fragment_row(f: &FragmentInfo, human_size: bool, files: bool) -> (row: Vec<Cell>)
    ensures
        is_fragment_row(row@, *f, human_size, files),
        row_ok(row, row@.len()),
{
    let mut row: Vec<Cell> = Vec::new();
    row.push(Cell::UInt(f.id));
    row.push(Cell::UInt(f.physical_rows));
    row.push(Cell::UInt(f.deleted_rows));
    row.push(Cell::UInt(f.num_files));
    if files {
        row.push(Cell::Text(join_texts(f.files.as_slice(), ",")));
    }
    row.push(size_cell(f.size, human_size));
    row
}

/// The fragments as a table. `human_size` asks for readable sizes in place of bytes,
/// `files` for the paths of the data files.
pub fn build_batch(fragments: &Vec<FragmentInfo>, human_size: bool, files: bool) -> (r: Listing)
    ensures
        is_fragments_schema(r.schema.fields@, human_size, files),
        typed_as(r.batch, r.schema.fields@),
        r.batch.wf(),
        r.batch.rows == fragments@.len(),
        forall|i: int|
            0 <= i < fragments@.len() ==> is_fragment_row(
                #[trigger] batch_row(r.batch, i),
                fragments@[i],
                human_size,
                files,
            ),
{
    let mut fields: Vec<Field> = Vec::new();
    fields.push(Field::new("id", DataType::uint64(), false));
    fields.push(Field::new("physical_rows", DataType::uint64(), false));
    fields.push(Field::new("deleted_rows", DataType::uint64(), false));
    fields.push(Field::new("num_files", DataType::uint64(), false));
    if files {
        fields.push(Field::new("files", DataType::utf8(), false));
    }
    if human_size {
        fields.push(Field::new("size", DataType::utf8(), true));
    } else {
        fields.push(Field::new("size", DataType::uint64(), true));
    }
    let ghost width = fields@.len();
    let mut rows: Vec<Vec<Cell>> = Vec::new();
    let mut i: usize = 0;
    while i < fragments.len()
        invariant
            i <= fragments@.len(),
            width == if files {
                6int
            } else {
                5
            },
            rows@.len() == i,
            rows_ok(rows@, width),
            forall|j: int|
                0 <= j < i ==> is_fragment_row(
                    (#[trigger] rows@[j])@,
                    fragments@[j],
                    human_size,
                    files,
                ),
        decreases fragments@.len() - i,
    {
        rows.push(fragment_row(&fragments[i], human_size, files));
        i += 1;
    }
    let schema = Schema::new(fields);
    let batch = batch_of_rows(&schema.fields, rows);
    Listing { schema, batch }
}

/// The fragments as `fragments` shows them: in a grid sizes are readable and the
/// paths only shown on request; everywhere else sizes are bytes and the paths are
/// there.
pub fn fragments_table(fragments: &Vec<FragmentInfo>, format: Format, verbose: bool) -> (r: Listing)
    ensures
        ({
            let human_size = format == Format::Table;
            let files = verbose || format != Format::Table;
            &&& is_fragments_schema(r.schema.fields@, human_size, files)
            &&& typed_as(r.batch, r.schema.fields@)
            &&& r.batch.wf()
            &&& r.batch.rows == fragments@.len()
            &&& forall|i: int|
                0 <= i < fragments@.len() ==> is_fragment_row(
                    #[trigger] batch_row(r.batch, i),
                    fragments@[i],
                    human_size,
                    files,
                )
        }),
{
    build_batch(fragments, format == Format::Table, verbose || format != Format::Table)
}

/// The totals over all fragments; without the bytes where sizes were not computed.
pub open spec fn summary(fragments: Seq<FragmentInfo>, no_size: bool) -> Seq<char> {
    let line = dec(fragments.len()) + " fragment(s), "@ + dec(total(fragments, physical()))
        + " physical row(s), "@ + dec(total(fragments, deleted())) + " deleted row(s)"@;
    if no_size {
        line
    } else {
        line + ", "@ + human(total(fragments, bytes())) + " total"@
    }
}

/// The line of totals below the grid.
pub fn summary_line(fragments: &Vec<FragmentInfo>, no_size: bool) -> (r: String)
    requires
        total(fragments@, physical()) <= u64::MAX,
        total(fragments@, deleted()) <= u64::MAX,
        !no_size ==> total(fragments@, bytes()) <= u64::MAX,
    ensures
        r@ == summary(fragments@, no_size),
{
    let (stored, gone) = fragment_totals(fragments);
    let mut s = dec_usize(fragments.len());
    s.append(" fragment(s), ");
    s.append(dec_u64(stored).as_str());
    s.append(" physical row(s), ");
    s.append(dec_u64(gone).as_str());
    s.append(" deleted row(s)");
    if !no_size {
        s.append(", ");
        s.append(human_bytes(fragment_bytes(fragments)).as_str());
        s.append(" total");
    }
    s
}

} // verus!
