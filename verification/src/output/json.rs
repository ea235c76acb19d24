//! `--format json`: a single, well-formed JSON array.
//!
//! The same objects as in JSON lines, inside one array: `[`, the objects separated
//! by commas, `]`. No rows yield `[]`.
use vstd::prelude::*;

use crate::cell::Batch;
use crate::error::Error;
use crate::json::array;
use crate::output::jsonl::{row_object, row_object_text};
use crate::output::{RenderOptions, RowWriter, Rows};
use crate::schema::{field_names, names, Schema};
use crate::text::{join, texts};

verus! {

/// Writing the first `n` rows of a batch as array elements; `later` where elements
/// have been written before. The comma comes before its row.
pub open spec fn json_rows(
    keys: Seq<Seq<char>>,
    b: Batch,
    n: nat,
    later: bool,
    o: RenderOptions,
) -> Rows
    decreases n,
{
    if n == 0 {
        Rows { text: Seq::empty(), refused: None }
    } else {
        let before = json_rows(keys, b, (n - 1) as nat, later, o);
        if before.refused is Some {
            before
        } else {
            let text = if later || n > 1 {
                before.text + ","@
            } else {
                before.text
            };
            match row_object(keys, b, n - 1, o) {
                Ok(object) => Rows { text: text + object, refused: None },
                Err(why) => Rows { text, refused: Some(why) },
            }
        }
    }
}

proof fn lemma_json_rows_stop(
    keys: Seq<Seq<char>>,
    b: Batch,
    k: nat,
    n: nat,
    later: bool,
    o: RenderOptions,
)
    requires
        k <= n,
        json_rows(keys, b, k, later, o).refused is Some,
    ensures
        json_rows(keys, b, n, later, o) == json_rows(keys, b, k, later, o),
    decreases n - k,
{
    if k < n {
        lemma_json_rows_stop(keys, b, k, (n - 1) as nat, later, o);
    }
}

/// Writes one JSON array.
#[derive(Debug)]
pub struct JsonRowWriter {
    pub field_names: Vec<String>,
    pub render: RenderOptions,
    /// Whether an object has been written, so that the next one follows a comma.
    pub wrote_any: bool,
}

impl JsonRowWriter {
    pub fn new(render: RenderOptions) -> (r: Self)
        ensures
            r.render == render,
            r.field_names@.len() == 0,
            !r.wrote_any,
    {
        JsonRowWriter { field_names: Vec::new(), render, wrote_any: false }
    }
}

impl RowWriter for JsonRowWriter {
    open spec fn startable(&self) -> bool {
        true
    }

    /// Every column has its name from the schema that `start` was given.
    open spec fn accepts(&self, batch: Batch) -> bool {
        batch.columns@.len() <= self.field_names@.len()
    }

    open spec fn finishable(&self) -> bool {
        true
    }

    /// Take the column names and open the array.
    open spec fn starts(
        pre: Self,
        post: Self,
        schema: Schema,
        before: Seq<char>,
        after: Seq<char>,
        r: Result<(), Error>,
    ) -> bool {
        &&& r is Ok
        &&& texts(post.field_names@) == names(schema.fields@)
        &&& post.render == pre.render
        &&& post.wrote_any == pre.wrote_any
        &&& after == before + "["@
    }

    fn start(&mut self, schema: &Schema, out: &mut String) -> (r: Result<(), Error>) {
        self.field_names = field_names(schema.fields.as_slice());
        out.append("[");
        Ok(())
    }

    /// Write one element per row, up to the first value that JSON cannot represent.
    open spec fn writes(
        pre: Self,
        post: Self,
        batch: Batch,
        before: Seq<char>,
        after: Seq<char>,
        r: Result<(), Error>,
    ) -> bool {
        &&& post.field_names == pre.field_names
        &&& post.render == pre.render
        &&& ({
            let rows = json_rows(
                texts(pre.field_names@),
                batch,
                batch.rows as nat,
                pre.wrote_any,
                pre.render,
            );
            after == before + rows.text && match rows.refused {
                None => r is Ok && post.wrote_any == (pre.wrote_any || batch.rows
                    > 0),
                Some(why) => r matches Err(Error::UnsupportedCsvType { column, data_type })
                    && column@.len() == 0 && data_type@ == why,
            }
        })
    }

    fn write_batch(&mut self, batch: &Batch, out: &mut String) -> (r: Result<(), Error>) {
        let ghost keys = texts(self.field_names@);
        let ghost start = out@;
        let ghost later = self.wrote_any;
        let mut row: usize = 0;
        proof {
            assert(start + Seq::<char>::empty() =~= start);
        }
        while row < batch.rows
            invariant
                self.field_names == old(self).field_names,
                self.render == old(self).render,
                later == old(self).wrote_any,
                self.wrote_any == (later || row > 0),
                batch.wf(),
                batch.columns@.len() <= self.field_names@.len(),
                keys == texts(self.field_names@),
                start == old(out)@,
                row <= batch.rows,
                json_rows(keys, *batch, row as nat, later, self.render).refused is None,
                out@ == start + json_rows(keys, *batch, row as nat, later, self.render).text,
            decreases batch.rows - row,
        {
            let ghost before = json_rows(keys, *batch, row as nat, later, self.render).text;
            if self.wrote_any {
                out.append(",");
                proof {
                    assert(start + before + ","@ =~= start + (before + ","@));
                }
            }
            match row_object_text(&self.field_names, batch, row, self.render) {
                Err(e) => {
                    proof {
                        lemma_json_rows_stop(
                            keys,
                            *batch,
                            (row + 1) as nat,
                            batch.rows as nat,
                            later,
                            self.render,
                        );
                    }
                    return Err(e);
                },
                Ok(text) => {
                    let ghost so_far = if later || row > 0 {
                        before + ","@
                    } else {
                        before
                    };
                    out.append(text.as_str());
                    proof {
                        assert(start + so_far + text@ =~= start + (so_far + text@));
                    }
                },
            }
            self.wrote_any = true;
            row += 1;
        }
        Ok(())
    }

    /// Close the array.
    open spec fn finishes(
        pre: Self,
        post: Self,
        before: Seq<char>,
        after: Seq<char>,
        r: Result<(), Error>,
    ) -> bool {
        &&& r is Ok
        &&& post == pre
        &&& after == before + "]\n"@
    }

    fn finish(&mut self, out: &mut String) -> (r: Result<(), Error>) {
        out.append("]\n");
        Ok(())
    }
}

// ---------- laws ----------

/// The objects of the first `n` rows of a batch, all of which have a JSON form.
pub open spec fn row_objects(keys: Seq<Seq<char>>, b: Batch, n: nat, o: RenderOptions) -> Seq<
    Seq<char>,
>
    decreases n,
{
    if n == 0 {
        Seq::empty()
    } else {
        row_objects(keys, b, (n - 1) as nat, o).push(row_object(keys, b, n - 1, o)->Ok_0)
    }
}

/// The objects of all rows of the batches.
pub open spec fn all_objects(keys: Seq<Seq<char>>, bs: Seq<Batch>, o: RenderOptions) -> Seq<
    Seq<char>,
>
    decreases bs.len(),
{
    if bs.len() == 0 {
        Seq::empty()
    } else {
        all_objects(keys, bs.drop_last(), o) + row_objects(keys, bs.last(), bs.last().rows as nat, o)
    }
}

/// The text that writing the batches one after another appends.
pub open spec fn batches_text(keys: Seq<Seq<char>>, bs: Seq<Batch>, o: RenderOptions) -> Seq<char>
    decreases bs.len(),
{
    if bs.len() == 0 {
        Seq::empty()
    } else {
        batches_text(keys, bs.drop_last(), o) + json_rows(
            keys,
            bs.last(),
            bs.last().rows as nat,
            any_rows(bs.drop_last()),
            o,
        ).text
    }
}

/// True where some batch has a row.
pub open spec fn any_rows(bs: Seq<Batch>) -> bool {
    exists|i: int| 0 <= i < bs.len() && (#[trigger] bs[i]).rows > 0
}

/// True where every value of every batch has a JSON form.
pub open spec fn representable(keys: Seq<Seq<char>>, bs: Seq<Batch>, o: RenderOptions) -> bool {
    forall|i: int, r: int|
        0 <= i < bs.len() && 0 <= r < bs[i].rows ==> #[trigger] row_object(keys, bs[i], r, o) is Ok
}

proof fn lemma_join_push(items: Seq<Seq<char>>, item: Seq<char>)
    ensures
        join(items.push(item), ","@) == if items.len() == 0 {
            item
        } else {
            join(items, ","@) + ","@ + item
        },
{
    assert(items.push(item).drop_last() =~= items);
    if items.len() == 0 {
        assert(join(items.push(item), ","@) =~= item);
    }
}

proof fn lemma_rows_join(
    keys: Seq<Seq<char>>,
    b: Batch,
    n: nat,
    done: Seq<Seq<char>>,
    o: RenderOptions,
)
    requires
        forall|r: int| 0 <= r < n ==> #[trigger] row_object(keys, b, r, o) is Ok,
    ensures
        row_objects(keys, b, n, o).len() == n,
        json_rows(keys, b, n, done.len() > 0, o).refused is None,
        join(done + row_objects(keys, b, n, o), ","@) == join(done, ","@) + json_rows(
            keys,
            b,
            n,
            done.len() > 0,
            o,
        ).text,
    decreases n,
{
    let later = done.len() > 0;
    if n == 0 {
        assert(done + row_objects(keys, b, n, o) =~= done);
        assert(join(done, ","@) + Seq::<char>::empty() =~= join(done, ","@));
    } else {
        lemma_rows_join(keys, b, (n - 1) as nat, done, o);
        let objects = row_objects(keys, b, (n - 1) as nat, o);
        assert(row_object(keys, b, n - 1, o) is Ok);
        let last = row_object(keys, b, n - 1, o)->Ok_0;
        assert(done + row_objects(keys, b, n, o) =~= (done + objects).push(last));
        lemma_join_push(done + objects, last);
        let text = json_rows(keys, b, (n - 1) as nat, later, o).text;
        if later || n > 1 {
            assert(join(done, ","@) + text + ","@ + last =~= join(done, ","@) + (text + ","@ + last));
        } else {
            assert(done =~= Seq::<Seq<char>>::empty());
            assert(join(done, ","@) + (text + last) =~= last);
        }
    }
}

/// Any number of batches, between `start` and `finish`, gives one JSON array of the
/// rows' objects: the same objects that JSON lines holds.
pub proof fn law_batches_form_one_array(keys: Seq<Seq<char>>, bs: Seq<Batch>, o: RenderOptions)
    requires
        representable(keys, bs, o),
    ensures
        "["@ + batches_text(keys, bs, o) + "]"@ == array(all_objects(keys, bs, o)),
{
    lemma_batches_join(keys, bs, o);
}

proof fn lemma_batches_join(keys: Seq<Seq<char>>, bs: Seq<Batch>, o: RenderOptions)
    requires
        representable(keys, bs, o),
    ensures
        batches_text(keys, bs, o) == join(all_objects(keys, bs, o), ","@),
        (all_objects(keys, bs, o).len() > 0) == any_rows(bs),
    decreases bs.len(),
{
    if bs.len() > 0 {
        let init = bs.drop_last();
        assert forall|i: int, r: int| 0 <= i < init.len() && 0 <= r < init[i].rows implies
            #[trigger] row_object(keys, init[i], r, o) is Ok by {
            assert(row_object(keys, bs[i], r, o) is Ok);
        }
        lemma_batches_join(keys, init, o);
        let done = all_objects(keys, init, o);
        let b = bs.last();
        assert forall|r: int| 0 <= r < b.rows implies #[trigger] row_object(keys, b, r, o) is Ok by {
            assert(row_object(keys, bs[bs.len() - 1], r, o) is Ok);
        }
        lemma_rows_join(keys, b, b.rows as nat, done, o);
        if any_rows(init) {
            let i = choose|i: int| 0 <= i < init.len() && (#[trigger] init[i]).rows > 0;
            assert(bs[i].rows > 0);
        }
        if b.rows > 0 {
            assert(bs[bs.len() - 1].rows > 0);
        }
        if any_rows(bs) {
            let i = choose|i: int| 0 <= i < bs.len() && (#[trigger] bs[i]).rows > 0;
            if i < init.len() {
                assert(init[i].rows > 0);
            }
        }
    }
}

/// No rows yield `[]`.
pub proof fn law_no_rows_is_an_empty_array(keys: Seq<Seq<char>>, o: RenderOptions)
    ensures
        "["@ + batches_text(keys, Seq::empty(), o) + "]"@ == "["@ + "]"@,
{
    assert("["@ + Seq::<char>::empty() =~= "["@);
}

} // verus!
