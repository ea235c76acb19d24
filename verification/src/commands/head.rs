//! `head`: the first rows of a scan.
use vstd::prelude::*;

verus! {

/// The smaller of two numbers.
pub open spec fn lesser(a: nat, b: nat) -> nat {
    if a <= b {
        a
    } else {
        b
    }
}

/// How many rows are still wanted.
#[derive(Debug, Clone, Copy, PartialEq, Eq, Structural)]
pub struct Head {
    pub remaining: u64,
}

impl Head {
    pub fn new(limit: u64) -> (r: Self)
        ensures
            r.remaining == limit,
    {
        Head { remaining: limit }
    }

    /// True once no more rows are wanted; the scan can end.
    pub fn is_done(&self) -> (r: bool)
        ensures
            r == (self.remaining == 0),
    {
        self.remaining == 0
    }

    /// How many rows to take from the start of a batch of `rows`.
    pub fn take(&mut self, rows: u64) -> (r: u64)
        ensures
            r == lesser(rows as nat, old(self).remaining as nat),
            final(self).remaining == old(self).remaining - r,
    {
        if rows <= self.remaining {
            self.remaining = self.remaining - rows;
            rows
        } else {
            let r: u64 = self.remaining;
            self.remaining = 0;
            r
        }
    }
}

// ---------- laws ----------

/// The rows of batches of these sizes.
pub open spec fn total(sizes: Seq<u64>) -> nat
    decreases sizes.len(),
{
    if sizes.len() == 0 {
        0
    } else {
        total(sizes.drop_last()) + sizes.last() as nat
    }
}

/// What is left of `limit` after taking from batches of these sizes.
pub open spec fn left_over(limit: nat, sizes: Seq<u64>) -> nat
    decreases sizes.len(),
{
    if sizes.len() == 0 {
        limit
    } else {
        let before = left_over(limit, sizes.drop_last());
        (before - lesser(sizes.last() as nat, before)) as nat
    }
}

/// Taking batch by batch yields exactly the first `limit` rows, or all rows where
/// there are fewer: what has been taken is the smaller of the two.
pub proof fn law_head_takes_the_limit(limit: nat, sizes: Seq<u64>)
    ensures
        limit - left_over(limit, sizes) == lesser(limit, total(sizes)),
    decreases sizes.len(),
{
    if sizes.len() > 0 {
        law_head_takes_the_limit(limit, sizes.drop_last());
    }
}

} // verus!
