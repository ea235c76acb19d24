//! `--format jsonl`: one JSON object per row, each on a line of its own.
use vstd::prelude::*;

use crate::cell::Batch;
use crate::error::Error;
use crate::json::{object, put, value_text, Members};
use crate::output::value::{json_of, json_value};
use crate::output::{RenderOptions, RowWriter, Rows};
use crate::schema::{field_names, names, Schema};
use crate::text::texts;

verus! {

/// The members that the first `n` columns give for row `r`, or why a value has no
/// JSON form.
pub open spec fn row_members(
    keys: Seq<Seq<char>>,
    b: Batch,
    r: int,
    n: nat,
    o: RenderOptions,
) -> Result<Seq<(Seq<char>, Seq<char>)>, Seq<char>>
    decreases n,
{
    if n == 0 {
        Ok(Seq::empty())
    } else {
        match row_members(keys, b, r, (n - 1) as nat, o) {
            Err(why) => Err(why),
            Ok(members) => match json_of(b.columns@[n - 1].cells@[r], o) {
                Err(why) => Err(why),
                Ok(value) => Ok(put(members, keys[n - 1], value_text(value))),
            },
        }
    }
}

/// Row `r` as a JSON object.
pub open spec fn row_object(keys: Seq<Seq<char>>, b: Batch, r: int, o: RenderOptions) -> Result<
    Seq<char>,
    Seq<char>,
> {
    match row_members(keys, b, r, b.columns@.len(), o) {
        Ok(members) => Ok(object(members)),
        Err(why) => Err(why),
    }
}

/// Writing the first `n` rows of a batch, one line each.
pub open spec fn jsonl_rows(keys: Seq<Seq<char>>, b: Batch, n: nat, o: RenderOptions) -> Rows
    decreases n,
{
    if n == 0 {
        Rows { text: Seq::empty(), refused: None }
    } else {
        let before = jsonl_rows(keys, b, (n - 1) as nat, o);
        if before.refused is Some {
            before
        } else {
            match row_object(keys, b, n - 1, o) {
                Ok(text) => Rows { text: before.text + text + "\n"@, refused: None },
                Err(why) => Rows { text: before.text, refused: Some(why) },
            }
        }
    }
}

proof fn lemma_first_member_error(
    keys: Seq<Seq<char>>,
    b: Batch,
    r: int,
    k: nat,
    n: nat,
    o: RenderOptions,
)
    requires
        k <= n,
        row_members(keys, b, r, k, o) is Err,
    ensures
        row_members(keys, b, r, n, o) == row_members(keys, b, r, k, o),
    decreases n - k,
{
    if k < n {
        lemma_first_member_error(keys, b, r, k, (n - 1) as nat, o);
    }
}

proof fn lemma_jsonl_rows_stop(keys: Seq<Seq<char>>, b: Batch, k: nat, n: nat, o: RenderOptions)
    requires
        k <= n,
        jsonl_rows(keys, b, k, o).refused is Some,
    ensures
        jsonl_rows(keys, b, n, o) == jsonl_rows(keys, b, k, o),
    decreases n - k,
{
    if k < n {
        lemma_jsonl_rows_stop(keys, b, k, (n - 1) as nat, o);
    }
}

/// Row `row` of a batch as a JSON object, its members named by `field_names`.
pub fn row_object_text(
    field_names: &Vec<String>,
    batch: &Batch,
    row: usize,
    render: RenderOptions,
) -> (r: Result<String, Error>)
    requires
        batch.wf(),
        row < batch.rows,
        batch.columns@.len() <= field_names@.len(),
    ensures
        match row_object(texts(field_names@), *batch, row as int, render) {
            Ok(text) => r matches Ok(s) && s@ == text,
            Err(why) => r matches Err(Error::UnsupportedCsvType { column, data_type })
                && column@.len() == 0 && data_type@ == why,
        },
{
    let ghost keys = texts(field_names@);
    let mut obj = Members::new();
    let mut col: usize = 0;
    while col < batch.columns.len()
        invariant
            batch.wf(),
            row < batch.rows,
            batch.columns@.len() <= field_names@.len(),
            keys == texts(field_names@),
            col <= batch.columns@.len(),
            obj.wf(),
            row_members(keys, *batch, row as int, col as nat, render) == Ok::<
                Seq<(Seq<char>, Seq<char>)>,
                Seq<char>,
            >(obj@),
        decreases batch.columns@.len() - col,
    {
        proof {
            assert(crate::cell::column_ok(batch.columns@[col as int], batch.rows as nat));
        }
        match json_value(&batch.columns[col].cells[row], render) {
            Err(e) => {
                proof {
                    assert(row_members(keys, *batch, row as int, (col + 1) as nat, render) is Err);
                    lemma_first_member_error(
                        keys,
                        *batch,
                        row as int,
                        (col + 1) as nat,
                        batch.columns@.len(),
                        render,
                    );
                }
                return Err(e);
            },
            Ok(value) => {
                obj.set(field_names[col].as_str(), value.text());
            },
        }
        col += 1;
    }
    Ok(obj.text())
}

/// Writes JSON lines.
#[derive(Debug)]
pub struct JsonlRowWriter {
    pub field_names: Vec<String>,
    pub render: RenderOptions,
}

impl JsonlRowWriter {
    pub fn new(render: RenderOptions) -> (r: Self)
        ensures
            r.render == render,
            r.field_names@.len() == 0,
    {
        JsonlRowWriter { field_names: Vec::new(), render }
    }
}

impl RowWriter for JsonlRowWriter {
    open spec fn startable(&self) -> bool {
        true
    }

    /// Every column has its name from the schema that `start` was given.
    open spec fn accepts(&self, batch: Batch) -> bool {
        batch.columns@.len() <= self.field_names@.len()
    }

    open spec fn finishable(&self) -> bool {
        true
    }

    /// Take the column names.
    open spec fn starts(
        pre: Self,
        post: Self,
        schema: Schema,
        before: Seq<char>,
        after: Seq<char>,
        r: Result<(), Error>,
    ) -> bool {
        &&& r is Ok
        &&& texts(post.field_names@) == names(schema.fields@)
        &&& post.render == pre.render
        &&& after == before
    }

    fn start(&mut self, schema: &Schema, out: &mut String) -> (r: Result<(), Error>) {
        self.field_names = field_names(schema.fields.as_slice());
        Ok(())
    }

    /// Write one line per row, up to the first value that JSON cannot represent.
    open spec fn writes(
        pre: Self,
        post: Self,
        batch: Batch,
        before: Seq<char>,
        after: Seq<char>,
        r: Result<(), Error>,
    ) -> bool {
        &&& post == pre
        &&& ({
            let rows = jsonl_rows(
                texts(pre.field_names@),
                batch,
                batch.rows as nat,
                pre.render,
            );
            after == before + rows.text && match rows.refused {
                None => r is Ok,
                Some(why) => r matches Err(Error::UnsupportedCsvType { column, data_type })
                    && column@.len() == 0 && data_type@ == why,
            }
        })
    }

    fn write_batch(&mut self, batch: &Batch, out: &mut String) -> (r: Result<(), Error>) {
        let ghost keys = texts(self.field_names@);
        let ghost start = out@;
        let mut row: usize = 0;
        proof {
            assert(start + Seq::<char>::empty() =~= start);
        }
        while row < batch.rows
            invariant
                *self == *old(self),
                batch.wf(),
                batch.columns@.len() <= self.field_names@.len(),
                keys == texts(self.field_names@),
                start == old(out)@,
                row <= batch.rows,
                jsonl_rows(keys, *batch, row as nat, self.render).refused is None,
                out@ == start + jsonl_rows(keys, *batch, row as nat, self.render).text,
            decreases batch.rows - row,
        {
            match row_object_text(&self.field_names, batch, row, self.render) {
                Err(e) => {
                    proof {
                        lemma_jsonl_rows_stop(
                            keys,
                            *batch,
                            (row + 1) as nat,
                            batch.rows as nat,
                            self.render,
                        );
                    }
                    return Err(e);
                },
                Ok(text) => {
                    let ghost before = jsonl_rows(keys, *batch, row as nat, self.render).text;
                    out.append(text.as_str());
                    out.append("\n");
                    proof {
                        assert(start + before + text@ + "\n"@ =~= start + (before + text@ + "\n"@));
                    }
                },
            }
            row += 1;
        }
        Ok(())
    }

    /// Nothing is left to write.
    open spec fn finishes(
        pre: Self,
        post: Self,
        before: Seq<char>,
        after: Seq<char>,
        r: Result<(), Error>,
    ) -> bool {
        &&& r is Ok
        &&& post == pre
        &&& after == before
    }

    fn finish(&mut self, out: &mut String) -> (r: Result<(), Error>) {
        Ok(())
    }
}

} // verus!
