//! Rows as they are written: what each format makes of the cells of a batch.
use vstd::prelude::*;

use crate::cell::{Batch, Cell};
use crate::error::Error;
use crate::json::{array, object, value_text};
use crate::output::csv::{begun, put_record, record, row_fields, CsvRowWriter, Sheet};
use crate::output::json::{json_rows, JsonRowWriter};
use crate::output::jsonl::{jsonl_rows, row_members, row_object, JsonlRowWriter};
use crate::output::table::{
    grid, grid_rows, preset_of, row_cells, shown_cell, TableRowWriter, TableStyle,
};
use crate::output::value::{csv_of, csv_type, first_refused, json_of, table_of, CsvModel};
use crate::output::{RenderOptions, RowWriter};
use crate::schema::{names, Field, Schema};
use crate::text::texts;

verus! {

/// The cell in a column and a row.
pub open spec fn cell_at(b: Batch, c: int, r: int) -> Cell {
    b.columns@[c].cells@[r]
}

/// Texts one after another.
pub open spec fn run_together(n: nat, f: spec_fn(int) -> Seq<char>) -> Seq<char>
    decreases n,
{
    if n == 0 {
        Seq::empty()
    } else {
        run_together((n - 1) as nat, f) + f(n - 1)
    }
}

// ---------- CSV ----------

/// The fields of a row: the text of each cell, and nothing for a null.
pub open spec fn fields_of(b: Batch, r: int, o: RenderOptions) -> Seq<Seq<char>> {
    Seq::new(
        b.columns@.len(),
        |c: int|
            match csv_of(cell_at(b, c, r), o) {
                CsvModel::Text(t) => t,
                _ => Seq::empty(),
            },
    )
}

/// True of a batch whose every cell has a CSV form.
pub open spec fn all_writable(b: Batch, o: RenderOptions) -> bool {
    forall|c: int, r: int|
        0 <= c < b.columns@.len() && 0 <= r < b.rows ==> !(csv_of(#[trigger] cell_at(b, c, r), o) is Refused)
}

proof fn lemma_row_fields(b: Batch, r: int, n: nat, o: RenderOptions)
    requires
        all_writable(b, o),
        0 <= r < b.rows,
        n <= b.columns@.len(),
    ensures
        row_fields(b, r, n, o) == Ok::<Seq<Seq<char>>, Seq<char>>(fields_of(b, r, o).take(n as int)),
    decreases n,
{
    let all = fields_of(b, r, o);
    if n > 0 {
        lemma_row_fields(b, r, (n - 1) as nat, o);
        assert(!(csv_of(cell_at(b, n - 1, r), o) is Refused));
        assert(all.take(n as int) =~= all.take(n - 1).push(all[n - 1]));
    } else {
        assert(all.take(0) =~= Seq::empty());
    }
}

proof fn lemma_csv_rows(s: Sheet, b: Batch, n: nat, o: RenderOptions)
    requires
        all_writable(b, o),
        n <= b.rows,
        s.stop is None,
        s.pending.len() == 0,
        s.width is Some ==> s.width == Some(b.columns@.len()),
    ensures
        ({
            let t = crate::output::csv::csv_rows(s, b, n, o);
            &&& t.stop is None
            &&& t.pending.len() == 0
            &&& t.width is Some ==> t.width == Some(b.columns@.len())
            &&& t.text == s.text + run_together(n, |r: int| record(fields_of(b, r, o)))
        }),
    decreases n,
{
    let f = |r: int| record(fields_of(b, r, o));
    if n > 0 {
        lemma_csv_rows(s, b, (n - 1) as nat, o);
        let before = crate::output::csv::csv_rows(s, b, (n - 1) as nat, o);
        lemma_row_fields(b, n - 1, b.columns@.len(), o);
        let all = fields_of(b, n - 1, o);
        assert(all.take(b.columns@.len() as int) =~= all);
        assert(before.pending =~= Seq::empty());
        assert(before.pending + all =~= all);
        lemma_nothing_begun();
        assert(record(all).skip(0) =~= record(all));
        let t = crate::output::csv::csv_rows(s, b, n, o);
        assert(t.text =~= s.text + (run_together((n - 1) as nat, f) + f(n - 1)));
    } else {
        assert(s.text + Seq::<char>::empty() =~= s.text);
    }
}

proof fn lemma_nothing_begun()
    ensures
        begun(Seq::empty()).len() == 0,
{
    let none = Seq::<Seq<char>>::empty();
    assert(none.map_values(|f: Seq<char>| crate::output::csv::field_text(f)) =~= none);
}

/// CSV is one record of the column names, then one record for each row of each batch
/// in its order, of the texts of its cells.
pub proof fn law_csv_is_names_then_rows(
    pre: CsvRowWriter,
    mid: CsvRowWriter,
    post: CsvRowWriter,
    schema: Schema,
    b: Batch,
    empty: Seq<char>,
    header: Seq<char>,
    text: Seq<char>,
    r: Result<(), Error>,
)
    requires
        pre.width is None,
        pre.pending@.len() == 0,
        b.columns@.len() == schema.fields@.len(),
        all_writable(b, pre.render),
        CsvRowWriter::starts(pre, mid, schema, empty, header, Ok::<(), Error>(())),
        CsvRowWriter::writes(mid, post, b, header, text, r),
    ensures
        r is Ok,
        header == empty + record(Seq::new(schema.fields@.len(), |i: int| schema.fields@[i].name@)),
        text == header + run_together(b.rows as nat, |i: int| record(fields_of(b, i, pre.render))),
{
    let fields = schema.fields@;
    assert(names(fields) =~= Seq::new(fields.len(), |i: int| fields[i].name@));
    let s = pre.sheet(empty);
    assert(s.pending =~= Seq::empty());
    assert(s.pending + names(fields) =~= names(fields));
    lemma_nothing_begun();
    assert(record(names(fields)).skip(0) =~= record(names(fields)));
    let t = put_record(s, names(fields));
    assert(header == empty + record(names(fields)));
    assert(mid.sheet(header) == (Sheet { stop: None, ..t }));
    lemma_csv_rows(mid.sheet(header), b, b.rows as nat, pre.render);
}

/// A header is refused for the first column whose type CSV cannot write, by its name,
/// and only for such a column.
pub proof fn law_csv_refuses_by_the_first_column(fields: Seq<Field>)
    ensures
        first_refused(fields) <= fields.len(),
        first_refused(fields) < fields.len() ==> !csv_type(
            fields[first_refused(fields) as int].data_type,
        ),
        forall|i: int| 0 <= i < first_refused(fields) ==> csv_type((#[trigger] fields[i]).data_type),
    decreases fields.len(),
{
    if fields.len() > 0 && csv_type(fields[0].data_type) {
        let rest = fields.drop_first();
        law_csv_refuses_by_the_first_column(rest);
        assert forall|i: int| 0 <= i < first_refused(fields) implies csv_type(
            (#[trigger] fields[i]).data_type,
        ) by {
            if i > 0 {
                assert(csv_type(rest[i - 1].data_type));
            }
        }
    }
}

// ---------- JSON ----------

/// True of names that differ.
pub open spec fn all_different(keys: Seq<Seq<char>>) -> bool {
    forall|i: int, j: int| 0 <= i < j < keys.len() ==> #[trigger] keys[i] != #[trigger] keys[j]
}

/// True of a batch whose every cell has a JSON form.
pub open spec fn all_shown(b: Batch, o: RenderOptions) -> bool {
    forall|c: int, r: int|
        0 <= c < b.columns@.len() && 0 <= r < b.rows ==> json_of(#[trigger] cell_at(b, c, r), o) is Ok
}

/// The members of a row: each column's name with the value of its cell.
pub open spec fn members_at(keys: Seq<Seq<char>>, b: Batch, r: int, o: RenderOptions) -> Seq<
    (Seq<char>, Seq<char>),
> {
    Seq::new(
        b.columns@.len(),
        |c: int| (keys[c], value_text(json_of(cell_at(b, c, r), o)->Ok_0)),
    )
}

proof fn lemma_row_members(keys: Seq<Seq<char>>, b: Batch, r: int, n: nat, o: RenderOptions)
    requires
        all_different(keys),
        all_shown(b, o),
        0 <= r < b.rows,
        n <= b.columns@.len() <= keys.len(),
    ensures
        row_members(keys, b, r, n, o) == Ok::<Seq<(Seq<char>, Seq<char>)>, Seq<char>>(
            members_at(keys, b, r, o).take(n as int),
        ),
    decreases n,
{
    let all = members_at(keys, b, r, o);
    if n > 0 {
        lemma_row_members(keys, b, r, (n - 1) as nat, o);
        assert(json_of(cell_at(b, n - 1, r), o) is Ok);
        let before = all.take(n - 1);
        assert forall|i: int| 0 <= i < before.len() implies (#[trigger] before[i]).0 != keys[n
            - 1] by {
            assert(keys[i] != keys[n - 1]);
        }
        crate::laws::cells::lemma_new_key(before, keys[n - 1]);
        assert(all.take(n as int) =~= before.push(all[n - 1]));
    } else {
        assert(all.take(0) =~= Seq::empty());
    }
}

/// A row is an object of its cells in the order of the columns, each under the name
/// of its column.
pub proof fn law_row_is_an_object_of_its_cells(
    keys: Seq<Seq<char>>,
    b: Batch,
    r: int,
    o: RenderOptions,
)
    requires
        all_different(keys),
        all_shown(b, o),
        0 <= r < b.rows,
        b.columns@.len() <= keys.len(),
    ensures
        row_object(keys, b, r, o) == Ok::<Seq<char>, Seq<char>>(object(members_at(keys, b, r, o))),
{
    lemma_row_members(keys, b, r, b.columns@.len(), o);
    let all = members_at(keys, b, r, o);
    assert(all.take(b.columns@.len() as int) =~= all);
}

proof fn lemma_jsonl_rows(keys: Seq<Seq<char>>, b: Batch, n: nat, o: RenderOptions)
    requires
        all_different(keys),
        all_shown(b, o),
        n <= b.rows,
        b.columns@.len() <= keys.len(),
    ensures
        jsonl_rows(keys, b, n, o).refused is None,
        jsonl_rows(keys, b, n, o).text == run_together(
            n,
            |r: int| object(members_at(keys, b, r, o)) + seq!['\n'],
        ),
    decreases n,
{
    let f = |r: int| object(members_at(keys, b, r, o)) + seq!['\n'];
    if n > 0 {
        lemma_jsonl_rows(keys, b, (n - 1) as nat, o);
        law_row_is_an_object_of_its_cells(keys, b, n - 1, o);
        reveal_strlit("\n");
        assert("\n"@ =~= seq!['\n']);
        let t = jsonl_rows(keys, b, n, o).text;
        assert(t =~= run_together((n - 1) as nat, f) + f(n - 1));
    }
}

/// JSON lines are one object for each row, each on a line of its own, under the names
/// of the schema.
pub proof fn law_json_lines_are_the_rows(
    pre: JsonlRowWriter,
    mid: JsonlRowWriter,
    post: JsonlRowWriter,
    schema: Schema,
    b: Batch,
    empty: Seq<char>,
    header: Seq<char>,
    text: Seq<char>,
    r: Result<(), Error>,
)
    requires
        JsonlRowWriter::starts(pre, mid, schema, empty, header, Ok::<(), Error>(())),
        JsonlRowWriter::writes(mid, post, b, header, text, r),
        b.columns@.len() == schema.fields@.len(),
        all_shown(b, pre.render),
        all_different(Seq::new(schema.fields@.len(), |i: int| schema.fields@[i].name@)),
    ensures
        r is Ok,
        text == empty + run_together(
            b.rows as nat,
            |i: int|
                object(
                    members_at(
                        Seq::new(schema.fields@.len(), |i: int| schema.fields@[i].name@),
                        b,
                        i,
                        pre.render,
                    ),
                ) + seq!['\n'],
        ),
{
    let keys = Seq::new(schema.fields@.len(), |i: int| schema.fields@[i].name@);
    assert(names(schema.fields@) =~= keys);
    lemma_jsonl_rows(keys, b, b.rows as nat, pre.render);
}

proof fn lemma_json_rows(keys: Seq<Seq<char>>, b: Batch, n: nat, o: RenderOptions)
    requires
        all_different(keys),
        all_shown(b, o),
        n <= b.rows,
        b.columns@.len() <= keys.len(),
    ensures
        json_rows(keys, b, n, false, o).refused is None,
        json_rows(keys, b, n, false, o).text == crate::text::join(
            Seq::new(n, |r: int| object(members_at(keys, b, r, o))),
            ","@,
        ),
    decreases n,
{
    let all = Seq::new(n, |r: int| object(members_at(keys, b, r, o)));
    if n > 0 {
        lemma_json_rows(keys, b, (n - 1) as nat, o);
        law_row_is_an_object_of_its_cells(keys, b, n - 1, o);
        assert(all.drop_last() =~= Seq::new(
            (n - 1) as nat,
            |r: int| object(members_at(keys, b, r, o)),
        ));
        if n == 1 {
            let t = json_rows(keys, b, n, false, o).text;
            reveal_with_fuel(json_rows, 2);
            assert(t =~= all[0]);
        }
    }
}

/// JSON is one array with an object for each row, under the names of the schema.
pub proof fn law_json_is_an_array_of_the_rows(
    pre: JsonRowWriter,
    mid: JsonRowWriter,
    post: JsonRowWriter,
    schema: Schema,
    b: Batch,
    header: Seq<char>,
    text: Seq<char>,
    r: Result<(), Error>,
)
    requires
        !pre.wrote_any,
        JsonRowWriter::starts(pre, mid, schema, Seq::empty(), header, Ok::<(), Error>(())),
        JsonRowWriter::writes(mid, post, b, header, text, r),
        b.columns@.len() == schema.fields@.len(),
        all_shown(b, pre.render),
        all_different(Seq::new(schema.fields@.len(), |i: int| schema.fields@[i].name@)),
    ensures
        r is Ok,
        text + "]"@ == array(
            Seq::new(
                b.rows as nat,
                |i: int|
                    object(
                        members_at(
                            Seq::new(schema.fields@.len(), |i: int| schema.fields@[i].name@),
                            b,
                            i,
                            pre.render,
                        ),
                    ),
            ),
        ),
{
    let keys = Seq::new(schema.fields@.len(), |i: int| schema.fields@[i].name@);
    assert(names(schema.fields@) =~= keys);
    lemma_json_rows(keys, b, b.rows as nat, pre.render);
    let all = Seq::new(b.rows as nat, |i: int| object(members_at(keys, b, i, pre.render)));
    assert(header =~= "["@);
    assert(text + "]"@ =~= array(all));
}

// ---------- tables ----------

/// A cell of a table no wider than the limit: cut, with a mark for what is missing,
/// where it is wider.
pub proof fn law_wide_cells_are_cut(t: Seq<char>, o: RenderOptions)
    ensures
        o.max_cell_width is None ==> shown_cell(t, o) == t,
        o.max_cell_width matches Some(k) ==> (t.len() <= k ==> shown_cell(t, o) == t),
        o.max_cell_width matches Some(k) ==> (0 < k < t.len() ==> shown_cell(t, o).len() == k
            && shown_cell(t, o).last() == '\u{2026}' && shown_cell(t, o).drop_last() == t.take(k - 1)),
        o.max_cell_width == Some(0usize) && t.len() > 0 ==> shown_cell(t, o) == seq!['\u{2026}'],
{
    if let Some(k) = o.max_cell_width {
        if 0 < k < t.len() {
            assert(shown_cell(t, o).drop_last() =~= t.take(k - 1));
        }
    }
}

/// The cells of a row of the table: each cell's own text, cut to the limit.
pub open spec fn cells_shown(b: Batch, r: int, o: RenderOptions) -> Seq<Seq<char>> {
    Seq::new(
        b.columns@.len(),
        |c: int| shown_cell(table_of(cell_at(b, c, r), o)->Ok_0, o),
    )
}

/// True of a batch whose every cell can stand in a table.
pub open spec fn all_tabled(b: Batch, o: RenderOptions) -> bool {
    forall|c: int, r: int|
        0 <= c < b.columns@.len() && 0 <= r < b.rows ==> table_of(#[trigger] cell_at(b, c, r), o) is Ok
}

proof fn lemma_row_cells(b: Batch, r: int, n: nat, o: RenderOptions)
    requires
        all_tabled(b, o),
        0 <= r < b.rows,
        n <= b.columns@.len(),
    ensures
        row_cells(b, r, n, o) == Ok::<Seq<Seq<char>>, Seq<char>>(cells_shown(b, r, o).take(n as int)),
    decreases n,
{
    let all = cells_shown(b, r, o);
    if n > 0 {
        lemma_row_cells(b, r, (n - 1) as nat, o);
        assert(table_of(cell_at(b, n - 1, r), o) is Ok);
        assert(all.take(n as int) =~= all.take(n - 1).push(all[n - 1]));
    } else {
        assert(all.take(0) =~= Seq::empty());
    }
}

proof fn lemma_grid_rows(b: Batch, n: nat, o: RenderOptions)
    requires
        all_tabled(b, o),
        n <= b.rows,
    ensures
        grid_rows(b, n, o) == Ok::<Seq<Seq<Seq<char>>>, Seq<char>>(
            Seq::new(n, |r: int| cells_shown(b, r, o)),
        ),
    decreases n,
{
    let all = Seq::new(n, |r: int| cells_shown(b, r, o));
    if n > 0 {
        lemma_grid_rows(b, (n - 1) as nat, o);
        lemma_row_cells(b, n - 1, b.columns@.len(), o);
        let cells = cells_shown(b, n - 1, o);
        assert(cells.take(b.columns@.len() as int) =~= cells);
        assert(all =~= Seq::new((n - 1) as nat, |r: int| cells_shown(b, r, o)).push(cells));
    } else {
        assert(all =~= Seq::empty());
    }
}

/// A table has the names of the schema for headers and one row for each row of each
/// batch in its order, of the texts of its cells.
pub proof fn law_table_holds_names_and_rows(
    pre: TableRowWriter,
    mid: TableRowWriter,
    post: TableRowWriter,
    schema: Schema,
    b: Batch,
    empty: Seq<char>,
    header: Seq<char>,
    text: Seq<char>,
    r: Result<(), Error>,
)
    requires
        TableRowWriter::starts(pre, mid, schema, empty, header, Ok::<(), Error>(())),
        TableRowWriter::writes(mid, post, b, header, text, r),
        all_tabled(b, pre.render),
        pre.rows@.len() == 0,
    ensures
        r is Ok,
        text == empty,
        post.headers matches Some(h) && texts(h@) == Seq::new(
            schema.fields@.len(),
            |i: int| schema.fields@[i].name@,
        ),
        post.rows@.len() == b.rows,
        forall|i: int|
            0 <= i < b.rows ==> texts((#[trigger] post.rows@[i])@) == cells_shown(b, i, pre.render),
{
    assert(names(schema.fields@) =~= Seq::new(
        schema.fields@.len(),
        |i: int| schema.fields@[i].name@,
    ));
    lemma_grid_rows(b, b.rows as nat, pre.render);
    let all = Seq::new(b.rows as nat, |i: int| cells_shown(b, i, pre.render));
    let got = crate::output::table::row_texts(post.rows@);
    assert(crate::output::table::row_texts(mid.rows@) =~= Seq::empty());
    assert(got =~= all);
    assert(got.len() == post.rows@.len());
    assert forall|i: int| 0 <= i < b.rows implies texts((#[trigger] post.rows@[i])@) == cells_shown(
        b,
        i,
        pre.render,
    ) by {
        assert(got[i] == texts(post.rows@[i]@));
        assert(got[i] == all[i]);
    }
}

/// What was begun is ended: an array is closed and its line ended, a table is drawn
/// of its headers and rows and its line ended, and the other formats need no end.
pub proof fn law_every_format_ends_what_it_began(
    csv: (CsvRowWriter, CsvRowWriter),
    lines: (JsonlRowWriter, JsonlRowWriter),
    json: (JsonRowWriter, JsonRowWriter),
    table: (TableRowWriter, TableRowWriter),
    before: Seq<char>,
    after: Seq<char>,
    r: Result<(), Error>,
)
    ensures
        CsvRowWriter::finishes(csv.0, csv.1, before, after, r) ==> r is Ok && after == before
            && csv.1.finished,
        JsonlRowWriter::finishes(lines.0, lines.1, before, after, r) ==> r is Ok && after == before,
        JsonRowWriter::finishes(json.0, json.1, before, after, r) ==> r is Ok && after == before
            + seq![']', '\n'],
        TableRowWriter::finishes(table.0, table.1, before, after, r) ==> r is Ok && after == before
            + grid(
            preset_of(table.0.table_style),
            texts(table.0.headers->Some_0@),
            Seq::new(table.0.rows@.len(), |i: int| texts(table.0.rows@[i]@)),
        ) + seq!['\n'],
{
    reveal_strlit("]\n");
    reveal_strlit("\n");
    assert("]\n"@ =~= seq![']', '\n']);
    assert("\n"@ =~= seq!['\n']);
    assert(crate::output::table::row_texts(table.0.rows@) =~= Seq::new(
        table.0.rows@.len(),
        |i: int| texts(table.0.rows@[i]@),
    ));
}

/// A plain table is drawn in ASCII, and a pretty one is not.
pub proof fn law_plain_tables_are_ascii(i: int)
    ensures
        0 <= i < preset_of(TableStyle::Plain).len() ==> (preset_of(TableStyle::Plain)[i] as int)
            < 128,
        preset_of(TableStyle::Plain) != preset_of(TableStyle::Pretty),
        preset_of(TableStyle::Plain).len() == 19,
        preset_of(TableStyle::Pretty).len() == 19,
{
    reveal_strlit("||--+==+|-+||++++++");
    reveal_strlit("││──╞═╪╡┆╌┼├┤┬┴┌┐└┘");
    assert(preset_of(TableStyle::Plain)[0] == '|');
    assert(preset_of(TableStyle::Pretty)[0] == '│');
}

} // verus!
