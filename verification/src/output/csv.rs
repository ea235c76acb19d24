//! `--format csv`: a header line and one record per row.
use vstd::prelude::*;
use vstd::slice::slice_subrange;

use crate::cell::Batch;
use crate::error::Error;
use crate::output::value::{
    csv_cell, csv_of, first_refused, refused_label, validate_csv_schema, CsvModel,
};
use crate::output::{RenderOptions, RowWriter};
use crate::schema::{field_names, names, Schema};
use crate::text::{chars_of, has_char, join, text_of, texts};

verus! {

// ---------- records ----------

/// True of the characters that make a field need quotes.
pub open spec fn special(c: char) -> bool {
    c == ',' || c == '"' || c == '\r' || c == '\n'
}

/// `s` with every quote doubled.
pub open spec fn doubled(s: Seq<char>) -> Seq<char>
    decreases s.len(),
{
    if s.len() == 0 {
        Seq::empty()
    } else if s.last() == '"' {
        doubled(s.drop_last()) + seq!['"', '"']
    } else {
        doubled(s.drop_last()).push(s.last())
    }
}

/// True of the fields that stand in quotes.
pub open spec fn needs_quotes(s: Seq<char>) -> bool {
    exists|i: int| 0 <= i < s.len() && special(#[trigger] s[i])
}

/// How a field stands in a record: in quotes where one of its characters needs
/// them, as it is otherwise.
pub open spec fn field_text(s: Seq<char>) -> Seq<char> {
    if needs_quotes(s) {
        seq!['"'] + doubled(s) + seq!['"']
    } else {
        s
    }
}

/// The fields of a record, separated by commas.
pub open spec fn line(fields: Seq<Seq<char>>) -> Seq<char> {
    join(fields.map_values(|f: Seq<char>| field_text(f)), ","@)
}

/// One line of CSV. A record without any characters is written as one quoted empty
/// field, so that the line does not vanish.
pub open spec fn record(fields: Seq<Seq<char>>) -> Seq<char> {
    if line(fields).len() == 0 {
        "\"\"\n"@
    } else {
        line(fields) + "\n"@
    }
}

/// What is written of a record that has no end yet: the quote behind a field waits for
/// what follows the field.
pub open spec fn begun(fields: Seq<Seq<char>>) -> Seq<char> {
    if fields.len() > 0 && needs_quotes(fields.last()) {
        line(fields).drop_last()
    } else {
        line(fields)
    }
}

proof fn lemma_line_push(fields: Seq<Seq<char>>, f: Seq<char>)
    ensures
        line(fields.push(f)) == if fields.len() == 0 {
            field_text(f)
        } else {
            line(fields) + ","@ + field_text(f)
        },
{
    let all = fields.push(f).map_values(|x: Seq<char>| field_text(x));
    assert(all.drop_last() =~= fields.map_values(|x: Seq<char>| field_text(x)));
}

/// A line holds a comma, or nothing but its one field.
proof fn lemma_line_last(fields: Seq<Seq<char>>)
    requires
        fields.len() > 0,
    ensures
        line(fields).len() >= field_text(fields.last()).len(),
        line(fields).len() == 0 <==> fields.len() == 1 && fields[0].len() == 0,
        needs_quotes(fields.last()) ==> line(fields).len() >= 2,
{
    reveal_strlit(",");
    assert(fields =~= fields.drop_last().push(fields.last()));
    lemma_line_push(fields.drop_last(), fields.last());
}

proof fn lemma_line_goes_on(fields: Seq<Seq<char>>, more: Seq<Seq<char>>)
    requires
        fields.len() > 0,
    ensures
        line(fields).len() <= line(fields + more).len(),
        line(fields + more).take(line(fields).len() as int) == line(fields),
        more.len() > 0 ==> line(fields).len() + 1 + field_text(more.last()).len() <= line(
            fields + more,
        ).len(),
    decreases more.len(),
{
    if more.len() == 0 {
        assert(fields + more =~= fields);
        assert(line(fields).take(line(fields).len() as int) =~= line(fields));
    } else {
        reveal_strlit(",");
        let init = fields + more.drop_last();
        lemma_line_goes_on(fields, more.drop_last());
        assert(fields + more =~= init.push(more.last()));
        lemma_line_push(init, more.last());
        assert(line(fields + more).take(line(fields).len() as int) =~= line(init).take(
            line(fields).len() as int,
        ));
    }
}

/// What is written of a record stays as it is when the record goes on or ends.
pub proof fn law_what_is_begun_stays(fields: Seq<Seq<char>>, more: Seq<Seq<char>>)
    ensures
        begun(fields).is_prefix_of(begun(fields + more)),
        begun(fields).is_prefix_of(record(fields + more)),
{
    let whole = fields + more;
    let n = begun(fields).len() as int;
    reveal_strlit("\n");
    if fields.len() == 0 {
        assert(line(fields) =~= Seq::<char>::empty());
    } else {
        lemma_line_goes_on(fields, more);
        lemma_line_last(fields);
        lemma_line_last(whole);
        if more.len() == 0 {
            assert(whole =~= fields);
        }
        assert(line(whole).take(n) =~= line(whole).take(line(fields).len() as int).take(n));
        assert(begun(fields) =~= line(fields).take(n));
        assert(begun(whole).take(n) =~= line(whole).take(n));
        assert(begun(fields) =~= begun(whole).take(n));
        if line(whole).len() > 0 {
            assert(record(whole).take(n) =~= line(whole).take(n));
        }
    }
}

/// `csv::Writer::write_record` with the default settings, into memory: the fields
/// separated by commas, in quotes only where needed, and a line feed at the end.
#[verifier::external_body]
fn record_text(fields: &[String]) -> (r: String)
    ensures
        r@ == record(texts(fields@)),
{
    let mut writer = csv::WriterBuilder::new().has_headers(false).from_writer(Vec::new());
    writer.write_record(fields).expect("a first record has no width to miss");
    let bytes = writer.into_inner().expect("memory takes every write");
    String::from_utf8(bytes).expect("text in, text out")
}

/// True where a character of `s` makes it need quotes.
fn quoted(s: &str) -> (r: bool)
    ensures
        r == needs_quotes(s@),
{
    let cs = chars_of(s);
    let r = has_char(cs.as_slice(), ',') || has_char(cs.as_slice(), '"') || has_char(
        cs.as_slice(),
        '\r',
    ) || has_char(cs.as_slice(), '\n');
    proof {
        if needs_quotes(s@) {
            let i = choose|i: int| 0 <= i < s@.len() && special(#[trigger] s@[i]);
            assert(s@.contains(s@[i]));
        }
        if r {
            let c = if s@.contains(',') {
                ','
            } else if s@.contains('"') {
                '"'
            } else if s@.contains('\r') {
                '\r'
            } else {
                '\n'
            };
            let i = choose|i: int| 0 <= i < s@.len() && s@[i] == c;
            assert(special(s@[i]));
        }
    }
    r
}

/// What is written of a record that has no end yet.
fn begun_text(fields: &[String]) -> (r: String)
    ensures
        r@ == begun(texts(fields@)),
{
    let n: usize = fields.len();
    if n == 0 {
        proof {
            assert(line(texts(fields@)) =~= Seq::<char>::empty());
        }
        return String::new();
    }
    let ghost all = texts(fields@);
    proof {
        lemma_line_last(all);
        reveal_strlit("\n");
    }
    let last = quoted(fields[n - 1].as_str());
    if n == 1 && fields[0].as_str().unicode_len() == 0 {
        return String::new();
    }
    let written = record_text(fields);
    let cs = chars_of(written.as_str());
    let end: usize = if last {
        cs.len() - 2
    } else {
        cs.len() - 1
    };
    let kept = slice_subrange(cs.as_slice(), 0, end);
    proof {
        assert(kept@ =~= begun(all));
    }
    text_of(kept)
}

// ---------- rows ----------

/// Why writing stopped.
pub enum Stop {
    /// A value of this type, which has no CSV form.
    Type(Seq<char>),
    /// A record of the second number of fields where the first record has the first.
    Width(nat, nat),
}

/// What has been written: the text, the number of fields of the first record, the
/// fields of a record without an end, and why writing stopped, if it did.
pub struct Sheet {
    pub text: Seq<char>,
    pub width: Option<nat>,
    pub pending: Seq<Seq<char>>,
    pub stop: Option<Stop>,
}

/// Writing a record, or going on with the one that has no end yet. Where the number of
/// fields is not that of the first record, the fields are written and the end is not.
pub open spec fn put_record(s: Sheet, fields: Seq<Seq<char>>) -> Sheet {
    let whole = s.pending + fields;
    let there = begun(s.pending).len() as int;
    match s.width {
        Some(w) if w != whole.len() => Sheet {
            text: s.text + begun(whole).skip(there),
            width: s.width,
            pending: whole,
            stop: Some(Stop::Width(w, whole.len())),
        },
        _ => Sheet {
            text: s.text + record(whole).skip(there),
            width: Some(whole.len()),
            pending: Seq::empty(),
            stop: None,
        },
    }
}

/// The first `n` fields of row `r`, or the text of the type that has no CSV form.
pub open spec fn row_fields(b: Batch, r: int, n: nat, o: RenderOptions) -> Result<
    Seq<Seq<char>>,
    Seq<char>,
>
    decreases n,
{
    if n == 0 {
        Ok(Seq::empty())
    } else {
        match row_fields(b, r, (n - 1) as nat, o) {
            Err(why) => Err(why),
            Ok(fields) => match csv_of(b.columns@[n - 1].cells@[r], o) {
                CsvModel::Empty => Ok(fields.push(Seq::empty())),
                CsvModel::Text(t) => Ok(fields.push(t)),
                CsvModel::Refused => Err(refused_label(b.columns@[n - 1].data_type)),
            },
        }
    }
}

/// Writing the first `n` rows of a batch, up to the first that cannot be written.
pub open spec fn csv_rows(s: Sheet, b: Batch, n: nat, o: RenderOptions) -> Sheet
    decreases n,
{
    if n == 0 {
        s
    } else {
        let before = csv_rows(s, b, (n - 1) as nat, o);
        if before.stop is Some {
            before
        } else {
            match row_fields(b, n - 1, b.columns@.len(), o) {
                Ok(fields) => put_record(before, fields),
                Err(why) => Sheet {
                    text: before.text,
                    width: before.width,
                    pending: before.pending,
                    stop: Some(Stop::Type(why)),
                },
            }
        }
    }
}

proof fn lemma_first_field_error(b: Batch, r: int, k: nat, n: nat, o: RenderOptions)
    requires
        k <= n,
        row_fields(b, r, k, o) is Err,
    ensures
        row_fields(b, r, n, o) == row_fields(b, r, k, o),
    decreases n - k,
{
    if k < n {
        lemma_first_field_error(b, r, k, (n - 1) as nat, o);
    }
}

proof fn lemma_csv_rows_stop(s: Sheet, b: Batch, k: nat, n: nat, o: RenderOptions)
    requires
        k <= n,
        csv_rows(s, b, k, o).stop is Some,
    ensures
        csv_rows(s, b, n, o) == csv_rows(s, b, k, o),
    decreases n - k,
{
    if k < n {
        lemma_csv_rows_stop(s, b, k, (n - 1) as nat, o);
    }
}

fn render_row(batch: &Batch, row: usize, render: RenderOptions) -> (r: Result<Vec<String>, Error>)
    requires
        batch.wf(),
        row < batch.rows,
    ensures
        match row_fields(*batch, row as int, batch.columns@.len(), render) {
            Ok(fields) => r matches Ok(v) && texts(v@) == fields,
            Err(why) => r matches Err(Error::UnsupportedCsvType { column, data_type })
                && column@.len() == 0 && data_type@ == why,
        },
{
    let mut out: Vec<String> = Vec::new();
    let mut col: usize = 0;
    proof {
        assert(texts(out@) =~= Seq::<Seq<char>>::empty());
    }
    while col < batch.columns.len()
        invariant
            batch.wf(),
            row < batch.rows,
            col <= batch.columns@.len(),
            row_fields(*batch, row as int, col as nat, render) == Ok::<Seq<Seq<char>>, Seq<char>>(
                texts(out@),
            ),
        decreases batch.columns@.len() - col,
    {
        let column = &batch.columns[col];
        proof {
            assert(crate::cell::column_ok(batch.columns@[col as int], batch.rows as nat));
        }
        match csv_cell(&column.data_type, &column.cells[row], render) {
            Err(e) => {
                proof {
                    assert(row_fields(*batch, row as int, (col + 1) as nat, render) is Err);
                    lemma_first_field_error(
                        *batch,
                        row as int,
                        (col + 1) as nat,
                        batch.columns@.len(),
                        render,
                    );
                }
                return Err(e);
            },
            Ok(cell) => {
                let ghost before = out@;
                let text = match cell {
                    Some(s) => s,
                    None => String::new(),
                };
                out.push(text);
                proof {
                    assert(texts(out@) =~= texts(before).push(text@));
                }
            },
        }
        col += 1;
    }
    Ok(out)
}

/// Writes CSV. All records of one writer have the same number of fields.
#[derive(Debug)]
pub struct CsvRowWriter {
    pub render: RenderOptions,
    /// The number of fields of the first record, once there is one.
    pub width: Option<usize>,
    /// The fields of a record that did not fit and has no end yet.
    pub pending: Vec<String>,
    pub finished: bool,
}

/// The answer to a caller where writing stopped so.
pub open spec fn answers(r: Result<(), Error>, stop: Option<Stop>) -> bool {
    match stop {
        None => r is Ok,
        Some(Stop::Type(why)) => r matches Err(Error::UnsupportedCsvType { column, data_type })
            && column@.len() == 0 && data_type@ == why,
        Some(Stop::Width(w, n)) => r matches Err(Error::Csv { expected_len, len }) && expected_len
            == w && len == n,
    }
}

impl CsvRowWriter {
    pub fn new(render: RenderOptions) -> (r: Self)
        ensures
            r.render == render,
            r.width is None,
            r.pending@.len() == 0,
            !r.finished,
    {
        CsvRowWriter { render, width: None, pending: Vec::new(), finished: false }
    }

    /// What the writer has written, where its output is `text`.
    pub open spec fn sheet(&self, text: Seq<char>) -> Sheet {
        Sheet {
            text,
            width: match self.width {
                Some(w) => Some(w as nat),
                None => None,
            },
            pending: texts(self.pending@),
            stop: None,
        }
    }

    /// True where the writer has written what `s` says, and its output is `text`.
    pub open spec fn stands_at(&self, text: Seq<char>, s: Sheet) -> bool {
        let here = self.sheet(text);
        text == s.text && here.width == s.width && here.pending == s.pending
    }

    fn write_record(&mut self, fields: Vec<String>, out: &mut String) -> (r: Result<(), Error>)
        ensures
            final(self).render == old(self).render,
            final(self).finished == old(self).finished,
            ({
                let s = put_record(old(self).sheet(old(out)@), texts(fields@));
                final(self).stands_at(final(out)@, s) && answers(r, s.stop)
            }),
    {
        let ghost pending = texts(self.pending@);
        let ghost more = texts(fields@);
        let ghost before = out@;
        let there: usize = begun_text(self.pending.as_slice()).as_str().unicode_len();
        let mut added = fields;
        let mut whole: Vec<String> = Vec::new();
        whole.append(&mut self.pending);
        whole.append(&mut added);
        proof {
            assert(texts(whole@) =~= pending + more);
            law_what_is_begun_stays(pending, more);
        }
        let len: usize = whole.len();
        let fits = match self.width {
            Some(w) => w == len,
            None => true,
        };
        let text = if fits {
            record_text(whole.as_slice())
        } else {
            begun_text(whole.as_slice())
        };
        let cs = chars_of(text.as_str());
        let rest = slice_subrange(cs.as_slice(), there, cs.len());
        proof {
            assert(rest@ =~= text@.skip(there as int));
        }
        out.append(text_of(rest).as_str());
        match self.width {
            Some(expected_len) if !fits => {
                self.pending = whole;
                Err(Error::Csv { expected_len, len })
            },
            _ => {
                self.width = Some(len);
                self.pending = Vec::new();
                proof {
                    assert(texts(self.pending@) =~= Seq::<Seq<char>>::empty());
                }
                Ok(())
            },
        }
    }
}

impl RowWriter for CsvRowWriter {
    open spec fn accepts(&self, batch: Batch) -> bool {
        !self.finished
    }

    open spec fn startable(&self) -> bool {
        !self.finished
    }

    open spec fn finishable(&self) -> bool {
        true
    }

    /// Refuse a schema that CSV cannot represent, or write the column names.
    open spec fn starts(
        pre: Self,
        post: Self,
        schema: Schema,
        before: Seq<char>,
        after: Seq<char>,
        r: Result<(), Error>,
    ) -> bool {
        &&& post.render == pre.render
        &&& post.finished == pre.finished
        &&& ({
            let n = first_refused(schema.fields@);
            if n < schema.fields@.len() {
                (r matches Err(Error::UnsupportedCsvType { column, data_type }) && column@
                    == schema.fields@[n as int].name@ && data_type@ == refused_label(
                    schema.fields@[n as int].data_type,
                )) && post.stands_at(after, pre.sheet(before))
            } else {
                let s = put_record(pre.sheet(before), names(schema.fields@));
                post.stands_at(after, s) && answers(r, s.stop)
            }
        })
    }

    fn start(&mut self, schema: &Schema, out: &mut String) -> (r: Result<(), Error>) {
        match validate_csv_schema(schema) {
            Ok(()) => {},
            Err(e) => return Err(e),
        }
        self.write_record(field_names(schema.fields.as_slice()), out)
    }

    /// Write one record per row, up to the first that cannot be written.
    open spec fn writes(
        pre: Self,
        post: Self,
        batch: Batch,
        before: Seq<char>,
        after: Seq<char>,
        r: Result<(), Error>,
    ) -> bool {
        &&& post.render == pre.render
        &&& post.finished == pre.finished
        &&& ({
            let s = csv_rows(pre.sheet(before), batch, batch.rows as nat, pre.render);
            post.stands_at(after, s) && answers(r, s.stop)
        })
    }

    fn write_batch(&mut self, batch: &Batch, out: &mut String) -> (r: Result<(), Error>) {
        let render = self.render;
        let ghost entry = self.sheet(out@);
        let mut row: usize = 0;
        while row < batch.rows
            invariant
                batch.wf(),
                row <= batch.rows,
                render == old(self).render,
                self.render == render,
                self.finished == old(self).finished,
                entry == old(self).sheet(old(out)@),
                csv_rows(entry, *batch, row as nat, render).stop is None,
                self.stands_at(out@, csv_rows(entry, *batch, row as nat, render)),
            decreases batch.rows - row,
        {
            let ghost so_far = csv_rows(entry, *batch, row as nat, render);
            match render_row(batch, row, render) {
                Err(e) => {
                    proof {
                        lemma_csv_rows_stop(
                            entry,
                            *batch,
                            (row + 1) as nat,
                            batch.rows as nat,
                            render,
                        );
                    }
                    return Err(e);
                },
                Ok(fields) => {
                    proof {
                        assert(self.sheet(out@) == so_far);
                    }
                    match self.write_record(fields, out) {
                        Err(e) => {
                            proof {
                                lemma_csv_rows_stop(
                                    entry,
                                    *batch,
                                    (row + 1) as nat,
                                    batch.rows as nat,
                                    render,
                                );
                            }
                            return Err(e);
                        },
                        Ok(()) => {},
                    }
                },
            }
            row += 1;
        }
        Ok(())
    }

    /// Nothing is left to write.
    open spec fn finishes(
        pre: Self,
        post: Self,
        before: Seq<char>,
        after: Seq<char>,
        r: Result<(), Error>,
    ) -> bool {
        &&& r is Ok
        &&& after == before
        &&& post.finished
        &&& post.render == pre.render
        &&& post.width == pre.width
        &&& post.pending == pre.pending
    }

    fn finish(&mut self, out: &mut String) -> (r: Result<(), Error>) {
        self.finished = true;
        Ok(())
    }
}

} // verus!
