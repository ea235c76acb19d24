//! `--format table`: a grid, rendered once all rows are known.
use vstd::prelude::*;
use vstd::slice::slice_subrange;

use crate::cell::Batch;
use crate::error::Error;
use crate::output::value::{table_cell, table_of};
use crate::output::{RenderOptions, RowWriter};
use crate::schema::{field_names, names, Schema};
use crate::text::{chars_of, text_of, texts};

verus! {

/// How a grid is drawn.
#[derive(Debug, Copy, Clone, PartialEq, Eq, Structural)]
pub enum TableStyle {
    /// Box-drawing characters, for a terminal.
    Pretty,
    /// ASCII only, for pipes and files.
    Plain,
}

// ---------- truncation ----------

/// `s` cut to at most `max` characters. The marker in place of the tail counts as
/// one of them, so `max == 0` leaves the bare marker of any text.
pub open spec fn truncated(s: Seq<char>, max: nat) -> Seq<char> {
    if s.len() <= max {
        s
    } else if max == 0 {
        seq!['\u{2026}']
    } else {
        s.take(max - 1).push('\u{2026}')
    }
}

/// Truncate a rendered cell to at most `max` characters, replacing the tail with
/// `…` when shortened. Characters are never split.
pub fn truncate_cell(s: String, max: usize) -> (r: String)
    ensures
        r@ == truncated(s@, max as nat),
{
    let chars = chars_of(s.as_str());
    if chars.len() <= max {
        return s;
    }
    let keep: usize = if max > 0 {
        max - 1
    } else {
        0
    };
    let mut out = text_of(slice_subrange(chars.as_slice(), 0, keep));
    out.push('\u{2026}');
    proof {
        assert(out@ =~= truncated(s@, max as nat));
    }
    out
}

/// A truncated text is no longer than the limit, or than the bare marker.
pub proof fn law_truncation_bounds_length(s: Seq<char>, max: nat)
    ensures
        truncated(s, max).len() <= if max == 0 {
            1
        } else {
            max
        },
        s.len() <= max ==> truncated(s, max) == s,
{
}

// ---------- grids ----------

/// The grid that `comfy_table` draws with a preset for headers and rows.
pub uninterp spec fn grid(
    preset: Seq<char>,
    headers: Seq<Seq<char>>,
    rows: Seq<Seq<Seq<char>>>,
) -> Seq<char>;

/// The characters that a style draws its lines with.
pub open spec fn preset_of(style: TableStyle) -> Seq<char> {
    match style {
        TableStyle::Plain => "||--+==+|-+||++++++"@,
        TableStyle::Pretty => "││──╞═╪╡┆╌┼├┤┬┴┌┐└┘"@,
    }
}

/// The constant `comfy_table::presets::ASCII_FULL`.
#[verifier::external_body]
fn ascii_preset() -> (r: &'static str)
    ensures
        r@ == preset_of(TableStyle::Plain),
{
    comfy_table::presets::ASCII_FULL
}

/// The constant `comfy_table::presets::UTF8_FULL`.
#[verifier::external_body]
fn utf8_preset() -> (r: &'static str)
    ensures
        r@ == preset_of(TableStyle::Pretty),
{
    comfy_table::presets::UTF8_FULL
}

/// A `comfy_table::Table` with a preset, a header and rows, turned into text. With
/// no column arrangement set, what it draws rests on these alone.
#[verifier::external_body]
fn draw(preset: &str, headers: Vec<String>, rows: Vec<Vec<String>>) -> (r: String)
    ensures
        r@ == grid(preset@, texts(headers@), row_texts(rows@)),
{
    let mut table = comfy_table::Table::new();
    table.load_preset(preset);
    table.set_header(headers);
    table.add_rows(rows);
    table.to_string()
}

/// The texts of every row.
pub open spec fn row_texts(rows: Seq<Vec<String>>) -> Seq<Seq<Seq<char>>> {
    rows.map_values(|r: Vec<String>| texts(r@))
}

// ---------- rows ----------

/// A value as it stands in a grid.
pub open spec fn shown_cell(t: Seq<char>, o: RenderOptions) -> Seq<char> {
    match o.max_cell_width {
        Some(max) => truncated(t, max as nat),
        None => t,
    }
}

/// The first `n` cells of row `r`, or why a value cannot be shown.
pub open spec fn row_cells(b: Batch, r: int, n: nat, o: RenderOptions) -> Result<
    Seq<Seq<char>>,
    Seq<char>,
>
    decreases n,
{
    if n == 0 {
        Ok(Seq::empty())
    } else {
        match row_cells(b, r, (n - 1) as nat, o) {
            Err(why) => Err(why),
            Ok(cells) => match table_of(b.columns@[n - 1].cells@[r], o) {
                Err(why) => Err(why),
                Ok(t) => Ok(cells.push(shown_cell(t, o))),
            },
        }
    }
}

/// The first `n` rows of a batch, or why the first row that cannot be shown cannot.
pub open spec fn grid_rows(b: Batch, n: nat, o: RenderOptions) -> Result<
    Seq<Seq<Seq<char>>>,
    Seq<char>,
>
    decreases n,
{
    if n == 0 {
        Ok(Seq::empty())
    } else {
        match grid_rows(b, (n - 1) as nat, o) {
            Err(why) => Err(why),
            Ok(rows) => match row_cells(b, n - 1, b.columns@.len(), o) {
                Err(why) => Err(why),
                Ok(cells) => Ok(rows.push(cells)),
            },
        }
    }
}

proof fn lemma_first_cell_error(b: Batch, r: int, k: nat, n: nat, o: RenderOptions)
    requires
        k <= n,
        row_cells(b, r, k, o) is Err,
    ensures
        row_cells(b, r, n, o) == row_cells(b, r, k, o),
    decreases n - k,
{
    if k < n {
        lemma_first_cell_error(b, r, k, (n - 1) as nat, o);
    }
}

proof fn lemma_first_row_error(b: Batch, k: nat, n: nat, o: RenderOptions)
    requires
        k <= n,
        grid_rows(b, k, o) is Err,
    ensures
        grid_rows(b, n, o) == grid_rows(b, k, o),
    decreases n - k,
{
    if k < n {
        lemma_first_row_error(b, k, (n - 1) as nat, o);
    }
}

fn render_row(batch: &Batch, row: usize, render: RenderOptions) -> (r: Result<Vec<String>, Error>)
    requires
        batch.wf(),
        row < batch.rows,
    ensures
        match row_cells(*batch, row as int, batch.columns@.len(), render) {
            Ok(cells) => r matches Ok(v) && texts(v@) == cells,
            Err(why) => r matches Err(Error::UnsupportedCsvType { column, data_type })
                && column@.len() == 0 && data_type@ == why,
        },
{
    let mut out: Vec<String> = Vec::new();
    let mut col: usize = 0;
    proof {
        assert(texts(out@) =~= Seq::<Seq<char>>::empty());
    }
    while col < batch.columns.len()
        invariant
            batch.wf(),
            row < batch.rows,
            col <= batch.columns@.len(),
            row_cells(*batch, row as int, col as nat, render) == Ok::<Seq<Seq<char>>, Seq<char>>(
                texts(out@),
            ),
        decreases batch.columns@.len() - col,
    {
        proof {
            assert(crate::cell::column_ok(batch.columns@[col as int], batch.rows as nat));
        }
        match table_cell(&batch.columns[col].cells[row], render) {
            Err(e) => {
                proof {
                    assert(row_cells(*batch, row as int, (col + 1) as nat, render) is Err);
                    lemma_first_cell_error(
                        *batch,
                        row as int,
                        (col + 1) as nat,
                        batch.columns@.len(),
                        render,
                    );
                }
                return Err(e);
            },
            Ok(cell) => {
                let ghost before = out@;
                let text = match render.max_cell_width {
                    Some(max) => truncate_cell(cell, max),
                    None => cell,
                };
                out.push(text);
                proof {
                    assert(texts(out@) =~= texts(before).push(text@));
                }
            },
        }
        col += 1;
    }
    Ok(out)
}

/// Draws a grid when finished. Every row is kept until then: column widths depend
/// on all of them.
#[derive(Debug)]
pub struct TableRowWriter {
    pub render: RenderOptions,
    pub table_style: TableStyle,
    pub headers: Option<Vec<String>>,
    pub rows: Vec<Vec<String>>,
}

impl TableRowWriter {
    pub fn new(render: RenderOptions, table_style: TableStyle) -> (r: Self)
        ensures
            r.render == render,
            r.table_style == table_style,
            r.headers is None,
            r.rows@.len() == 0,
    {
        TableRowWriter { render, table_style, headers: None, rows: Vec::new() }
    }
}

impl RowWriter for TableRowWriter {
    open spec fn startable(&self) -> bool {
        true
    }

    open spec fn accepts(&self, batch: Batch) -> bool {
        true
    }

    /// Only a started grid has a header.
    open spec fn finishable(&self) -> bool {
        self.headers is Some
    }

    /// Take the column names.
    open spec fn starts(
        pre: Self,
        post: Self,
        schema: Schema,
        before: Seq<char>,
        after: Seq<char>,
        r: Result<(), Error>,
    ) -> bool {
        &&& r is Ok
        &&& post.headers matches Some(h) && texts(h@) == names(schema.fields@)
        &&& post.rows == pre.rows
        &&& post.render == pre.render
        &&& post.table_style == pre.table_style
        &&& after == before
    }

    fn start(&mut self, schema: &Schema, out: &mut String) -> (r: Result<(), Error>) {
        self.headers = Some(field_names(schema.fields.as_slice()));
        Ok(())
    }

    /// Keep the rows of a batch: all of them, or none where one cannot be shown.
    open spec fn writes(
        pre: Self,
        post: Self,
        batch: Batch,
        before: Seq<char>,
        after: Seq<char>,
        r: Result<(), Error>,
    ) -> bool {
        &&& post.headers == pre.headers
        &&& post.render == pre.render
        &&& post.table_style == pre.table_style
        &&& after == before
        &&& match grid_rows(batch, batch.rows as nat, pre.render) {
            Ok(rows) => r is Ok && row_texts(post.rows@) == row_texts(pre.rows@)
                + rows,
            Err(why) => (r matches Err(Error::UnsupportedCsvType { column, data_type })
                && column@.len() == 0 && data_type@ == why) && post.rows == pre.rows,
        }
    }

    fn write_batch(&mut self, batch: &Batch, out: &mut String) -> (r: Result<(), Error>) {
        let render = self.render;
        let mut added: Vec<Vec<String>> = Vec::new();
        let mut row: usize = 0;
        proof {
            assert(row_texts(added@) =~= Seq::<Seq<Seq<char>>>::empty());
        }
        while row < batch.rows
            invariant
                *self == *old(self),
                render == old(self).render,
                batch.wf(),
                row <= batch.rows,
                out@ == old(out)@,
                grid_rows(*batch, row as nat, render) == Ok::<Seq<Seq<Seq<char>>>, Seq<char>>(
                    row_texts(added@),
                ),
            decreases batch.rows - row,
        {
            match render_row(batch, row, render) {
                Err(e) => {
                    proof {
                        assert(grid_rows(*batch, (row + 1) as nat, render) is Err);
                        lemma_first_row_error(*batch, (row + 1) as nat, batch.rows as nat, render);
                    }
                    return Err(e);
                },
                Ok(cells) => {
                    let ghost before = added@;
                    added.push(cells);
                    proof {
                        assert(row_texts(added@) =~= row_texts(before).push(texts(cells@)));
                    }
                },
            }
            row += 1;
        }
        let ghost kept = self.rows@;
        let ghost new = added@;
        self.rows.append(&mut added);
        proof {
            assert(row_texts(self.rows@) =~= row_texts(kept) + row_texts(new));
        }
        Ok(())
    }

    /// Draw the grid and end the line. The rows are used up.
    open spec fn finishes(
        pre: Self,
        post: Self,
        before: Seq<char>,
        after: Seq<char>,
        r: Result<(), Error>,
    ) -> bool {
        &&& r is Ok
        &&& after == before + grid(
            preset_of(pre.table_style),
            texts(pre.headers->Some_0@),
            row_texts(pre.rows@),
        ) + "\n"@
        &&& post.rows@.len() == 0
        &&& post.headers is Some
        &&& post.headers->Some_0@ == pre.headers->Some_0@
        &&& post.render == pre.render
        &&& post.table_style == pre.table_style
    }

    fn finish(&mut self, out: &mut String) -> (r: Result<(), Error>) {
        let preset = match self.table_style {
            TableStyle::Plain => ascii_preset(),
            TableStyle::Pretty => utf8_preset(),
        };
        let headers = match &self.headers {
            Some(h) => h.clone(),
            None => Vec::new(),
        };
        proof {
            let before = old(self).headers->Some_0@;
            assert(headers@ =~= before);
        }
        let mut rows: Vec<Vec<String>> = Vec::new();
        rows.append(&mut self.rows);
        proof {
            assert(rows@ =~= old(self).rows@);
        }
        let text = draw(preset, headers, rows);
        out.append(text.as_str());
        out.append("\n");
        Ok(())
    }
}

} // verus!
