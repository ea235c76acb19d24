//! Output: how values, rows and tables become text.
pub mod csv;
pub mod ipc;
pub mod json;
pub mod jsonl;
pub mod table;
pub mod temporal;
pub mod value;

use vstd::prelude::*;

use crate::cell::Batch;
use crate::cli::{BinaryFormat, Format};
use crate::error::Error;
use crate::output::csv::CsvRowWriter;
use crate::output::json::JsonRowWriter;
use crate::output::jsonl::JsonlRowWriter;
use crate::output::table::{TableRowWriter, TableStyle};
use crate::schema::Schema;

verus! {

/// The user-facing rendering options. The truncation and precision fields are
/// `None` by default, which renders every value in full.
#[derive(Debug, Copy, Clone, PartialEq, Eq, Structural)]
pub struct RenderOptions {
    /// How to encode binary cells.
    pub binary_format: BinaryFormat,
    /// Max elements rendered per list level before a marker for the rest.
    pub max_list_items: Option<usize>,
    /// Table only: max characters per rendered cell.
    pub max_cell_width: Option<usize>,
    /// Fractional digits of floats (NaN and infinities unaffected).
    pub float_precision: Option<usize>,
}

/// Options that only set the binary format.
pub open spec fn only_binary(binary_format: BinaryFormat) -> RenderOptions {
    RenderOptions {
        binary_format,
        max_list_items: None,
        max_cell_width: None,
        float_precision: None,
    }
}

impl RenderOptions {
    /// Options that only set the binary format; everything else is rendered in full.
    pub fn new(binary_format: BinaryFormat) -> (r: Self)
        ensures
            r == only_binary(binary_format),
    {
        RenderOptions {
            binary_format,
            max_list_items: None,
            max_cell_width: None,
            float_precision: None,
        }
    }
}

impl Default for RenderOptions {
    fn default() -> (r: Self)
        ensures
            r == only_binary(BinaryFormat::Placeholder),
    {
        RenderOptions::new(BinaryFormat::Placeholder)
    }
}

impl From<BinaryFormat> for RenderOptions {
    fn from(binary_format: BinaryFormat) -> (r: Self) {
        RenderOptions::new(binary_format)
    }
}

impl vstd::std_specs::convert::FromSpecImpl<BinaryFormat> for RenderOptions {
    open spec fn obeys_from_spec() -> bool {
        true
    }

    open spec fn from_spec(binary_format: BinaryFormat) -> RenderOptions {
        only_binary(binary_format)
    }
}

/// Turns rows into text, which each method appends to `out`: first `start`, then
/// `write_batch` for every batch, then `finish`.
pub trait RowWriter: Sized {
    /// True where `start` may be called.
    spec fn startable(&self) -> bool;

    /// True where `batch` may be written next.
    spec fn accepts(&self, batch: Batch) -> bool;

    /// True where `finish` may be called.
    spec fn finishable(&self) -> bool;

    /// What `start` does to the writer and to the text, and what it returns.
    spec fn starts(
        pre: Self,
        post: Self,
        schema: Schema,
        before: Seq<char>,
        after: Seq<char>,
        r: Result<(), Error>,
    ) -> bool;

    /// What `write_batch` does to the writer and to the text, and what it returns.
    spec fn writes(
        pre: Self,
        post: Self,
        batch: Batch,
        before: Seq<char>,
        after: Seq<char>,
        r: Result<(), Error>,
    ) -> bool;

    /// What `finish` does to the writer and to the text, and what it returns.
    spec fn finishes(
        pre: Self,
        post: Self,
        before: Seq<char>,
        after: Seq<char>,
        r: Result<(), Error>,
    ) -> bool;

    fn start(&mut self, schema: &Schema, out: &mut String) -> (r: Result<(), Error>)
        requires
            old(self).startable(),
        ensures
            Self::starts(*old(self), *final(self), *schema, old(out)@, final(out)@, r),
    ;

    fn write_batch(&mut self, batch: &Batch, out: &mut String) -> (r: Result<(), Error>)
        requires
            batch.wf(),
            old(self).accepts(*batch),
        ensures
            Self::writes(*old(self), *final(self), *batch, old(out)@, final(out)@, r),
    ;

    fn finish(&mut self, out: &mut String) -> (r: Result<(), Error>)
        requires
            old(self).finishable(),
        ensures
            Self::finishes(*old(self), *final(self), old(out)@, final(out)@, r),
    ;
}

/// A writer of one of the text formats.
#[derive(Debug)]
pub enum TextWriter {
    Csv(CsvRowWriter),
    Jsonl(JsonlRowWriter),
    Json(JsonRowWriter),
    Table(TableRowWriter),
}

impl RowWriter for TextWriter {
    open spec fn startable(&self) -> bool {
        match self {
            TextWriter::Csv(w) => w.startable(),
            TextWriter::Jsonl(w) => w.startable(),
            TextWriter::Json(w) => w.startable(),
            TextWriter::Table(w) => w.startable(),
        }
    }

    open spec fn accepts(&self, batch: Batch) -> bool {
        match self {
            TextWriter::Csv(w) => w.accepts(batch),
            TextWriter::Jsonl(w) => w.accepts(batch),
            TextWriter::Json(w) => w.accepts(batch),
            TextWriter::Table(w) => w.accepts(batch),
        }
    }

    open spec fn finishable(&self) -> bool {
        match self {
            TextWriter::Csv(w) => w.finishable(),
            TextWriter::Jsonl(w) => w.finishable(),
            TextWriter::Json(w) => w.finishable(),
            TextWriter::Table(w) => w.finishable(),
        }
    }

    /// What the writer inside does.
    open spec fn starts(
        pre: Self,
        post: Self,
        schema: Schema,
        before: Seq<char>,
        after: Seq<char>,
        r: Result<(), Error>,
    ) -> bool {
        match (pre, post) {
            (TextWriter::Csv(a), TextWriter::Csv(b)) => CsvRowWriter::starts(
                a,
                b,
                schema,
                before,
                after,
                r,
            ),
            (TextWriter::Jsonl(a), TextWriter::Jsonl(b)) => JsonlRowWriter::starts(
                a,
                b,
                schema,
                before,
                after,
                r,
            ),
            (TextWriter::Json(a), TextWriter::Json(b)) => JsonRowWriter::starts(
                a,
                b,
                schema,
                before,
                after,
                r,
            ),
            (TextWriter::Table(a), TextWriter::Table(b)) => TableRowWriter::starts(
                a,
                b,
                schema,
                before,
                after,
                r,
            ),
            _ => false,
        }
    }

    fn start(&mut self, schema: &Schema, out: &mut String) -> (r: Result<(), Error>) {
        match self {
            TextWriter::Csv(w) => w.start(schema, out),
            TextWriter::Jsonl(w) => w.start(schema, out),
            TextWriter::Json(w) => w.start(schema, out),
            TextWriter::Table(w) => w.start(schema, out),
        }
    }

    /// What the writer inside does.
    open spec fn writes(
        pre: Self,
        post: Self,
        batch: Batch,
        before: Seq<char>,
        after: Seq<char>,
        r: Result<(), Error>,
    ) -> bool {
        match (pre, post) {
            (TextWriter::Csv(a), TextWriter::Csv(b)) => CsvRowWriter::writes(
                a,
                b,
                batch,
                before,
                after,
                r,
            ),
            (TextWriter::Jsonl(a), TextWriter::Jsonl(b)) => JsonlRowWriter::writes(
                a,
                b,
                batch,
                before,
                after,
                r,
            ),
            (TextWriter::Json(a), TextWriter::Json(b)) => JsonRowWriter::writes(
                a,
                b,
                batch,
                before,
                after,
                r,
            ),
            (TextWriter::Table(a), TextWriter::Table(b)) => TableRowWriter::writes(
                a,
                b,
                batch,
                before,
                after,
                r,
            ),
            _ => false,
        }
    }

    fn write_batch(&mut self, batch: &Batch, out: &mut String) -> (r: Result<(), Error>) {
        match self {
            TextWriter::Csv(w) => w.write_batch(batch, out),
            TextWriter::Jsonl(w) => w.write_batch(batch, out),
            TextWriter::Json(w) => w.write_batch(batch, out),
            TextWriter::Table(w) => w.write_batch(batch, out),
        }
    }

    /// What the writer inside does.
    open spec fn finishes(
        pre: Self,
        post: Self,
        before: Seq<char>,
        after: Seq<char>,
        r: Result<(), Error>,
    ) -> bool {
        match (pre, post) {
            (TextWriter::Csv(a), TextWriter::Csv(b)) => CsvRowWriter::finishes(
                a,
                b,
                before,
                after,
                r,
            ),
            (TextWriter::Jsonl(a), TextWriter::Jsonl(b)) => JsonlRowWriter::finishes(
                a,
                b,
                before,
                after,
                r,
            ),
            (TextWriter::Json(a), TextWriter::Json(b)) => JsonRowWriter::finishes(
                a,
                b,
                before,
                after,
                r,
            ),
            (TextWriter::Table(a), TextWriter::Table(b)) => TableRowWriter::finishes(
                a,
                b,
                before,
                after,
                r,
            ),
            _ => false,
        }
    }

    fn finish(&mut self, out: &mut String) -> (r: Result<(), Error>) {
        match self {
            TextWriter::Csv(w) => w.finish(out),
            TextWriter::Jsonl(w) => w.finish(out),
            TextWriter::Json(w) => w.finish(out),
            TextWriter::Table(w) => w.finish(out),
        }
    }
}

/// What writing rows comes to: the text that was written, and why writing stopped,
/// if it did.
pub struct Rows {
    pub text: Seq<char>,
    pub refused: Option<Seq<char>>,
}

/// The writer for `format`, where it is a text format. `table_style` matters only
/// to the grid.
pub fn make_writer(format: Format, render: RenderOptions, table_style: TableStyle) -> (r: Option<
    TextWriter,
>)
    ensures
        match format {
            Format::Csv => r matches Some(TextWriter::Csv(w)) && w.render == render
                && w.width is None && w.pending@.len() == 0 && !w.finished,
            Format::Jsonl => r matches Some(TextWriter::Jsonl(w)) && w.render == render
                && w.field_names@.len() == 0,
            Format::Json => r matches Some(TextWriter::Json(w)) && w.render == render
                && w.field_names@.len() == 0 && !w.wrote_any,
            Format::Table => r matches Some(TextWriter::Table(w)) && w.render == render
                && w.table_style == table_style && w.headers is None && w.rows@.len() == 0,
            Format::Ipc => r is None,
        },
        r matches Some(w) ==> w.startable(),
{
    match format {
        Format::Csv => Some(TextWriter::Csv(CsvRowWriter::new(render))),
        Format::Jsonl => Some(TextWriter::Jsonl(JsonlRowWriter::new(render))),
        Format::Json => Some(TextWriter::Json(JsonRowWriter::new(render))),
        Format::Table => Some(TextWriter::Table(TableRowWriter::new(render, table_style))),
        Format::Ipc => None,
    }
}

} // verus!
