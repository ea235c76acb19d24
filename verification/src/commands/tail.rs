//! `tail`: the last rows of a dataset.
use std::collections::VecDeque;

use vstd::prelude::*;

use crate::commands::head::lesser;

verus! {

// ---------- without a filter ----------

/// The positions of the last rows, at most `limit`, in order.
pub fn tail_indices(limit: u64, rowcount: u64) -> (r: Vec<u64>)
    ensures
        r@.len() == lesser(limit as nat, rowcount as nat),
        forall|i: int| 0 <= i < r@.len() ==> #[trigger] r@[i] == rowcount - r@.len() + i,
{
    let count: u64 = if limit <= rowcount {
        limit
    } else {
        rowcount
    };
    let start: u64 = rowcount - count;
    let mut out: Vec<u64> = Vec::new();
    let mut at: u64 = start;
    while at < rowcount
        invariant
            start <= at <= rowcount,
            out@.len() == at - start,
            forall|i: int| 0 <= i < out@.len() ==> #[trigger] out@[i] == start + i,
        decreases rowcount - at,
    {
        out.push(at);
        at += 1;
    }
    out
}

// ---------- with a filter ----------

/// A batch, by whatever it is known, with its number of rows.
pub struct Kept<T> {
    pub batch: T,
    pub rows: u64,
}

/// Some consecutive rows of a batch.
pub struct Slice<T> {
    pub batch: T,
    pub offset: u64,
    pub rows: u64,
}

/// Rows `from` to `to` of a batch, each as the batch and its place in it.
pub open spec fn rows_between<T>(batch: T, from: nat, to: nat) -> Seq<(T, nat)> {
    if from <= to {
        Seq::new((to - from) as nat, |i: int| (batch, (from + i) as nat))
    } else {
        Seq::empty()
    }
}

/// All rows of the batches, in order.
pub open spec fn rows_of<T>(batches: Seq<Kept<T>>) -> Seq<(T, nat)>
    decreases batches.len(),
{
    if batches.len() == 0 {
        Seq::empty()
    } else {
        rows_of(batches.drop_last()) + rows_between(
            batches.last().batch,
            0,
            batches.last().rows as nat,
        )
    }
}

/// The rows of the slices, in order.
pub open spec fn sliced_rows<T>(slices: Seq<Slice<T>>) -> Seq<(T, nat)>
    decreases slices.len(),
{
    if slices.len() == 0 {
        Seq::empty()
    } else {
        let s = slices.last();
        sliced_rows(slices.drop_last()) + rows_between(
            s.batch,
            s.offset as nat,
            (s.offset + s.rows) as nat,
        )
    }
}

/// The last rows, at most `limit`.
pub open spec fn last_rows<T>(rows: Seq<(T, nat)>, limit: nat) -> Seq<(T, nat)> {
    rows.skip(rows.len() - lesser(limit, rows.len()))
}

/// The trailing batches of a scan: enough of them to cover the last `limit` rows.
pub struct Tail<T> {
    limit: u64,
    buffered: VecDeque<Kept<T>>,
    rows: u64,
    seen: Ghost<Seq<Kept<T>>>,
    dropped: Ghost<nat>,
}

impl<T> View for Tail<T> {
    type V = Seq<Kept<T>>;

    /// The batches pushed so far.
    closed spec fn view(&self) -> Seq<Kept<T>> {
        self.seen@
    }
}

proof fn lemma_rows_split<T>(batches: Seq<Kept<T>>, n: int)
    requires
        0 <= n <= batches.len(),
    ensures
        rows_of(batches) == rows_of(batches.take(n)) + rows_of(batches.skip(n)),
    decreases batches.len() - n,
{
    if n < batches.len() {
        let init = batches.drop_last();
        lemma_rows_split(init, n);
        assert(init.take(n) =~= batches.take(n));
        assert(batches.skip(n).drop_last() =~= init.skip(n));
        let last = rows_between(batches.last().batch, 0, batches.last().rows as nat);
        assert(rows_of(batches.take(n)) + rows_of(init.skip(n)) + last =~= rows_of(batches.take(n))
            + (rows_of(init.skip(n)) + last));
    } else {
        assert(batches.take(n) =~= batches);
        assert(batches.skip(n) =~= Seq::<Kept<T>>::empty());
        assert(rows_of(batches) + Seq::<(T, nat)>::empty() =~= rows_of(batches));
    }
}

proof fn lemma_rows_push<T>(batches: Seq<Kept<T>>, b: Kept<T>)
    ensures
        rows_of(batches.push(b)) == rows_of(batches) + rows_between(b.batch, 0, b.rows as nat),
{
    assert(batches.push(b).drop_last() =~= batches);
}

impl<T> Tail<T> {
    /// The batches that are held.
    pub closed spec fn held(&self) -> Seq<Kept<T>> {
        self.buffered@
    }

    pub closed spec fn wanted(&self) -> nat {
        self.limit as nat
    }

    /// What is held are the trailing batches, and they hold the rows that are wanted;
    /// without the first of them they would not.
    pub closed spec fn wf(&self) -> bool {
        &&& self.covers()
        &&& self.buffered@.len() > 0 ==> self.rows - self.buffered@[0].rows < self.limit
    }

    spec fn covers(&self) -> bool {
        let seen = self.seen@;
        &&& self.dropped@ <= seen.len()
        &&& self.buffered@ == seen.skip(self.dropped@ as int)
        &&& self.rows == rows_of(self.buffered@).len()
        &&& self.dropped@ > 0 ==> self.rows >= self.limit
    }

    pub fn new(limit: u64) -> (r: Self)
        ensures
            r.wf(),
            r@ == Seq::<Kept<T>>::empty(),
            r.held() == Seq::<Kept<T>>::empty(),
            r.wanted() == limit,
    {
        let r = Tail {
            limit,
            buffered: VecDeque::new(),
            rows: 0,
            seen: Ghost(Seq::empty()),
            dropped: Ghost(0),
        };
        proof {
            assert(r.buffered@ =~= r.seen@.skip(0));
        }
        r
    }

    /// Take in the next batch of a scan. Batches without rows are left out.
    pub fn push(&mut self, batch: T, rows: u64)
        requires
            old(self).wf(),
            rows_of(old(self).held()).len() + rows <= u64::MAX,
        ensures
            final(self).wf(),
            final(self).wanted() == old(self).wanted(),
            rows == 0 ==> final(self)@ == old(self)@,
            rows > 0 ==> final(self)@ == old(self)@.push(Kept { batch, rows }),
            final(self).held().is_suffix_of(final(self)@),
    {
        if rows == 0 {
            proof {
                self.law_held_are_the_last();
            }
            return ;
        }
        let ghost item = Kept { batch, rows };
        let ghost seen = self.seen@;
        proof {
            lemma_rows_push(self.buffered@, item);
            assert(seen.push(item).skip(self.dropped@ as int) =~= seen.skip(
                self.dropped@ as int,
            ).push(item));
        }
        self.rows = self.rows + rows;
        self.buffered.push_back(Kept { batch, rows });
        self.seen = Ghost(seen.push(item));
        let mut going = true;
        while going
            invariant
                self.covers(),
                !going && self.buffered@.len() > 0 ==> self.rows - self.buffered@[0].rows
                    < self.limit,
                self.limit == old(self).limit,
                self.seen@ == seen.push(item),
            decreases self.buffered@.len() + if going {
                1nat
            } else {
                0nat
            },
        {
            let front: u64 = if self.buffered.len() > 0 {
                self.buffered[0].rows
            } else {
                0
            };
            let ghost all = self.buffered@;
            proof {
                if all.len() > 0 {
                    lemma_rows_split(all, 1);
                    lemma_rows_push(Seq::<Kept<T>>::empty(), all[0]);
                    assert(all.take(1) =~= Seq::<Kept<T>>::empty().push(all[0]));
                    assert(rows_of(all.take(1)).len() == front);
                }
            }
            if self.buffered.len() > 0 && self.rows - front >= self.limit {
                self.rows = self.rows - front;
                let _ = self.buffered.pop_front();
                proof {
                    assert(self.buffered@ =~= all.skip(1));
                    assert(self.seen@.skip(self.dropped@ as int).skip(1) =~= self.seen@.skip(
                        self.dropped@ as int + 1,
                    ));
                }
                self.dropped = Ghost((self.dropped@ + 1) as nat);
            } else {
                going = false;
            }
        }
        proof {
            self.law_held_are_the_last();
        }
    }

    /// The last rows, as slices of the batches.
    pub fn finish(self) -> (r: Vec<Slice<T>>)
        requires
            self.wf(),
        ensures
            sliced_rows(r@) == last_rows(rows_of(self@), self.wanted()),
            forall|i: int| 0 <= i < r@.len() ==> (#[trigger] r@[i]).rows > 0,
    {
        let ghost seen = self.seen@;
        let ghost held = self.buffered@;
        let ghost limit = self.limit as nat;
        let keep: u64 = if self.limit <= self.rows {
            self.limit
        } else {
            self.rows
        };
        let cut: u64 = self.rows - keep;
        let mut skip: u64 = cut;
        let mut buffered = self.buffered;
        let mut out: Vec<Slice<T>> = Vec::new();
        let ghost mut done: nat = 0;
        proof {
            assert(held.take(0) =~= Seq::<Kept<T>>::empty());
            assert(held.skip(0) =~= held);
            assert(sliced_rows(out@) =~= rows_of(held.take(0)).skip(0));
        }
        while buffered.len() > 0
            invariant
                done <= held.len(),
                buffered@ == held.skip(done as int),
                skip <= cut,
                cut - skip <= rows_of(held.take(done as int)).len(),
                skip > 0 ==> cut - skip == rows_of(held.take(done as int)).len(),
                sliced_rows(out@) == rows_of(held.take(done as int)).skip(cut - skip),
                forall|i: int| 0 <= i < out@.len() ==> (#[trigger] out@[i]).rows > 0,
            decreases buffered@.len(),
        {
            let ghost before = buffered@;
            if let Some(b) = buffered.pop_front() {
                let rows: u64 = b.rows;
                let ghost item = held[done as int];
                let ghost prefix = rows_of(held.take(done as int));
                let ghost added = rows_between(item.batch, 0, item.rows as nat);
                proof {
                    assert(before[0] == item);
                    assert(b == item);
                    assert(buffered@ =~= held.skip(done as int + 1));
                    assert(held.take(done as int + 1) =~= held.take(done as int).push(item));
                    lemma_rows_push(held.take(done as int), item);
                    assert(rows_of(held.take(done as int + 1)) == prefix + added);
                }
                if skip >= rows {
                    proof {
                        assert(skip > 0 || rows == 0);
                        if skip > 0 {
                            assert(prefix.skip(cut - skip) =~= Seq::<(T, nat)>::empty());
                            assert((prefix + added).skip(cut - (skip - rows)) =~= Seq::<
                                (T, nat),
                            >::empty());
                        } else {
                            assert((prefix + added).skip(cut as int) =~= prefix.skip(cut as int));
                        }
                    }
                    skip = skip - rows;
                } else {
                    let ghost old_out = out@;
                    let slice = Slice { batch: b.batch, offset: skip, rows: rows - skip };
                    out.push(slice);
                    proof {
                        assert(out@.drop_last() =~= old_out);
                        let part = rows_between(item.batch, skip as nat, rows as nat);
                        assert(sliced_rows(out@) == prefix.skip(cut - skip) + part);
                        assert(part =~= added.skip(skip as int));
                        if skip > 0 {
                            assert(prefix.skip(cut - skip) =~= Seq::<(T, nat)>::empty());
                            assert((prefix + added).skip(cut as int) =~= added.skip(skip as int));
                            assert(prefix.skip(cut - skip) + part =~= (prefix + added).skip(
                                cut as int,
                            ));
                        } else {
                            assert(part =~= added);
                            assert(prefix.skip(cut as int) + part =~= (prefix + added).skip(
                                cut as int,
                            ));
                        }
                    }
                    skip = 0;
                }
                proof {
                    done = done + 1;
                }
            }
        }
        proof {
            assert(held.take(held.len() as int) =~= held);
            lemma_rows_split(seen, self.dropped@ as int);
            let all = rows_of(seen);
            let rest = rows_of(held);
            assert(skip == 0);
            assert(rest.skip(cut as int) =~= last_rows(all, limit));
        }
        out
    }

    /// What is held are the last of the batches pushed, and enough of them: their rows
    /// end in those that are wanted.
    pub proof fn law_held_are_the_last(&self)
        requires
            self.wf(),
        ensures
            self.held().is_suffix_of(self@),
            rows_of(self.held()).len() <= rows_of(self@).len(),
            last_rows(rows_of(self.held()), self.wanted()) == last_rows(
                rows_of(self@),
                self.wanted(),
            ),
    {
        let n = self.dropped@ as int;
        lemma_rows_split(self.seen@, n);
        assert(self.seen@.skip(n) =~= self.seen@.subrange(n, self.seen@.len() as int));
        assert(last_rows(rows_of(self.held()), self.wanted()) =~= last_rows(
            rows_of(self@),
            self.wanted(),
        ));
    }

    /// What is held are no more rows than are wanted but for those of its first
    /// batch, so that memory does not grow with the scan.
    pub proof fn law_buffer_is_bounded(&self)
        requires
            self.wf(),
        ensures
            self.held().len() > 0 ==> rows_of(self.held()).len() < self.wanted()
                + self.held()[0].rows,
    {
    }
}

} // verus!
