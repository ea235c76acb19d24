//! `sample`: random rows without replacement.
use rand::seq::SliceRandom;
use rand::{Rng, SeedableRng};
use rand_chacha::ChaCha20Rng;

use vstd::prelude::*;

use crate::error::Error;

verus! {

// ---------- chance ----------

/// The generator `rand_chacha::ChaCha20Rng`.
#[verifier::external_type_specification]
#[verifier::external_body]
pub struct ExChaCha20Rng(rand_chacha::ChaCha20Rng);

/// The order that `rand` shuffles a list into with the ChaCha20 generator of a seed.
pub uninterp spec fn seeded_order(list: Seq<u64>, seed: u64) -> Seq<u64>;

/// The number up to `upto` that `rand` draws with the ChaCha20 generator of a seed,
/// after it has drawn one number up to each bound of `before`.
pub uninterp spec fn seeded_draw(seed: u64, before: Seq<u64>, upto: u64) -> u64;

/// `SliceRandom::shuffle` with a `ChaCha20Rng` made by `seed_from_u64`: the list is
/// rearranged, in a way that its contents and the seed determine.
#[verifier::external_body]
fn shuffle_seeded(list: &mut Vec<u64>, seed: u64)
    ensures
        final(list)@ == seeded_order(old(list)@, seed),
        final(list)@.to_multiset() == old(list)@.to_multiset(),
{
    let mut rng = ChaCha20Rng::seed_from_u64(seed);
    list.shuffle(&mut rng);
}

/// `SliceRandom::shuffle` with a `ChaCha20Rng` seeded from the thread's generator: the
/// list is rearranged, in a way that differs from call to call.
#[verifier::external_body]
fn shuffle_fresh(list: &mut Vec<u64>)
    ensures
        final(list)@.to_multiset() == old(list)@.to_multiset(),
{
    let mut rng = ChaCha20Rng::from_rng(&mut rand::rng());
    list.shuffle(&mut rng);
}

/// A generator with the seed it was made from, where there is one, and the bounds of
/// the numbers it has drawn. Values of it come from `seeded` and `fresh` alone, and
/// only `draw` changes them.
pub struct Draws {
    rng: ChaCha20Rng,
    seed: Option<u64>,
    made: Ghost<Seq<u64>>,
}

impl Draws {
    pub closed spec fn seed(&self) -> Option<u64> {
        self.seed
    }

    /// The bounds of the numbers drawn so far.
    pub closed spec fn made(&self) -> Seq<u64> {
        self.made@
    }

    /// `ChaCha20Rng::seed_from_u64`: a generator that the seed determines.
    #[verifier::external_body]
    fn seeded(seed: u64) -> (r: Self)
        ensures
            r.seed() == Some(seed),
            r.made() == Seq::<u64>::empty(),
    {
        Draws {
            rng: ChaCha20Rng::seed_from_u64(seed),
            seed: Some(seed),
            made: Ghost(Seq::empty()),
        }
    }

    /// `ChaCha20Rng::from_rng` on the thread's generator: a generator of its own.
    #[verifier::external_body]
    fn fresh() -> (r: Self)
        ensures
            r.seed() is None,
            r.made() == Seq::<u64>::empty(),
    {
        Draws {
            rng: ChaCha20Rng::from_rng(&mut rand::rng()),
            seed: None,
            made: Ghost(Seq::empty()),
        }
    }

    /// `Rng::random_range` on an inclusive range from zero: a number in the range. A
    /// seeded generator's number is determined by the seed, by what was drawn before
    /// and by the range.
    #[verifier::external_body]
    fn draw(&mut self, upto: u64) -> (r: u64)
        ensures
            r <= upto,
            final(self).seed() == old(self).seed(),
            final(self).made() == old(self).made().push(upto),
            old(self).seed() matches Some(s) ==> r == seeded_draw(s, old(self).made(), upto),
    {
        self.rng.random_range(0..=upto)
    }
}

// ---------- without a filter ----------

/// The numbers below `n`, in order.
pub open spec fn below(n: u64) -> Seq<u64> {
    Seq::new(n as nat, |i: int| i as u64)
}

proof fn lemma_shuffled_below(n: u64, order: Seq<u64>)
    requires
        order.to_multiset() == below(n).to_multiset(),
    ensures
        order.len() == n,
        order.no_duplicates(),
        forall|i: int| 0 <= i < order.len() ==> #[trigger] order[i] < n,
{
    broadcast use vstd::seq_lib::group_to_multiset_ensures;

    let all = below(n);
    assert(all.to_multiset().len() == all.len());
    assert(order.to_multiset().len() == order.len());
    assert(all.no_duplicates());
    all.lemma_multiset_has_no_duplicates();
    order.lemma_multiset_has_no_duplicates_conv();
    assert forall|i: int| 0 <= i < order.len() implies #[trigger] order[i] < n by {
        assert(order.contains(order[i]));
        assert(all.to_multiset().count(order[i]) > 0);
        assert(all.contains(order[i]));
    }
}

/// The first `limit` of a list.
pub fn keep_first(order: Vec<u64>, limit: u64) -> (r: Vec<u64>)
    requires
        limit <= order@.len(),
    ensures
        r@ == order@.take(limit as int),
{
    let mut kept = order;
    kept.truncate(limit as usize);
    proof {
        assert(kept@ =~= order@.take(limit as int));
    }
    kept
}

/// Choose `limit` distinct positions out of `rowcount` rows.
pub fn sample_indices(limit: u64, rowcount: u64, seed: Option<u64>) -> (r: Result<
    Option<Vec<u64>>,
    Error,
>)
    ensures
        if limit > rowcount {
            r == Err::<Option<Vec<u64>>, Error>(
                Error::SampleTooLarge { requested: limit, rowcount },
            )
        } else if limit == 0 {
            r matches Ok(None)
        } else {
            r matches Ok(Some(v)) && v@.len() == limit && v@.no_duplicates() && (forall|i: int|
                0 <= i < v@.len() ==> #[trigger] v@[i] < rowcount) && (seed matches Some(s) ==> v@
                == seeded_order(below(rowcount), s).take(limit as int))
        },
{
    if limit > rowcount {
        return Err(Error::SampleTooLarge { requested: limit, rowcount });
    }
    if limit == 0 {
        return Ok(None);
    }
    let mut pool: Vec<u64> = Vec::new();
    let mut i: u64 = 0;
    while i < rowcount
        invariant
            i <= rowcount,
            pool@ == below(rowcount).take(i as int),
        decreases rowcount - i,
    {
        pool.push(i);
        i += 1;
        proof {
            assert(pool@ =~= below(rowcount).take(i as int));
        }
    }
    proof {
        assert(pool@ =~= below(rowcount));
    }
    match seed {
        Some(s) => shuffle_seeded(&mut pool, s),
        None => shuffle_fresh(&mut pool),
    }
    proof {
        lemma_shuffled_below(rowcount, pool@);
    }
    Ok(Some(keep_first(pool, limit)))
}

// ---------- with a filter ----------

/// What to do with the next row.
#[derive(Debug, Clone, Copy, PartialEq, Eq, Structural)]
pub enum Place {
    /// Keep it behind the rows that are held.
    Append,
    /// Keep it in place of the row that is held at this place.
    Replace(u64),
    /// Leave it out.
    Skip,
}

/// What the number drawn for a row says, where `limit` rows are held.
pub open spec fn place_of(j: u64, limit: nat) -> Place {
    if j < limit {
        Place::Replace(j)
    } else {
        Place::Skip
    }
}

/// What the number drawn for a row says, where `limit` rows are held.
pub fn place(j: u64, limit: u64) -> (r: Place)
    ensures
        r == place_of(j, limit as nat),
{
    if j < limit {
        Place::Replace(j)
    } else {
        Place::Skip
    }
}

/// The positions of the rows that are held after `n` rows, where `js` are the numbers
/// drawn for the rows beyond the first `cap`.
pub open spec fn picks(cap: nat, n: nat, js: Seq<u64>) -> Seq<nat>
    decreases n,
{
    if n == 0 {
        Seq::empty()
    } else {
        let before = picks(cap, (n - 1) as nat, js);
        if before.len() < cap {
            before.push((n - 1) as nat)
        } else {
            let j = js[n - 1 - cap] as int;
            if j < cap {
                before.update(j, (n - 1) as nat)
            } else {
                before
            }
        }
    }
}

/// The bounds of the first `k` numbers drawn: the rows seen by then.
pub open spec fn bounds(cap: nat, k: nat) -> Seq<u64> {
    Seq::new(k, |i: int| (cap + i) as u64)
}

/// The numbers that a seed draws for `n` rows.
pub open spec fn seeded_draws(seed: u64, cap: nat, n: nat) -> Seq<u64> {
    if n <= cap {
        Seq::empty()
    } else {
        Seq::new(
            (n - cap) as nat,
            |k: int| seeded_draw(seed, bounds(cap, k as nat), (cap + k) as u64),
        )
    }
}

proof fn lemma_picks(cap: nat, n: nat, js: Seq<u64>)
    ensures
        picks(cap, n, js).len() == if n < cap {
            n
        } else {
            cap
        },
    decreases n,
{
    if n > 0 {
        lemma_picks(cap, (n - 1) as nat, js);
    }
}

proof fn lemma_picks_extend(cap: nat, n: nat, js: Seq<u64>, j: u64)
    requires
        n <= cap || n - cap <= js.len(),
    ensures
        picks(cap, n, js.push(j)) == picks(cap, n, js),
    decreases n,
{
    if n > 0 {
        lemma_picks_extend(cap, (n - 1) as nat, js, j);
        lemma_picks(cap, (n - 1) as nat, js);
    }
}

/// A sample of a stream of rows whose number is not known beforehand: every row is
/// kept with the same chance, and no more than `limit` rows are held.
pub struct Reservoir {
    limit: u64,
    held: u64,
    seen: u64,
    draws: Draws,
    drawn: Ghost<Seq<u64>>,
}

impl View for Reservoir {
    type V = Seq<nat>;

    /// The positions of the rows that are held.
    closed spec fn view(&self) -> Seq<nat> {
        picks(self.limit as nat, self.seen as nat, self.drawn@)
    }
}

impl Reservoir {
    pub closed spec fn rows(&self) -> nat {
        self.seen as nat
    }

    pub closed spec fn limit(&self) -> nat {
        self.limit as nat
    }

    pub closed spec fn seed(&self) -> Option<u64> {
        self.draws.seed()
    }

    /// The numbers drawn so far.
    pub closed spec fn numbers(&self) -> Seq<u64> {
        self.drawn@
    }

    /// One number was drawn for every row beyond the first `limit`, each below the
    /// number of rows then seen; a seed determines them all.
    pub closed spec fn wf(&self) -> bool {
        let cap = self.limit as nat;
        let n = self.seen as nat;
        let k = self.drawn@.len();
        &&& k == if n <= cap {
            0
        } else {
            n - cap
        }
        &&& self.held == self@.len()
        &&& self.draws.made() == bounds(cap, k)
        &&& forall|i: int| 0 <= i < k ==> #[trigger] self.drawn@[i] <= cap + i
        &&& self.draws.seed() matches Some(s) ==> self.drawn@ == seeded_draws(s, cap, n)
    }

    pub fn new(limit: u64, seed: Option<u64>) -> (r: Self)
        ensures
            r.wf(),
            r@ == Seq::<nat>::empty(),
            r.rows() == 0,
            r.limit() == limit,
            r.seed() == seed,
            r.numbers() == Seq::<u64>::empty(),
    {
        let draws = match seed {
            Some(s) => Draws::seeded(s),
            None => Draws::fresh(),
        };
        let r = Reservoir { limit, held: 0, seen: 0, draws, drawn: Ghost(Seq::empty()) };
        proof {
            assert(bounds(limit as nat, 0) =~= Seq::<u64>::empty());
        }
        r
    }

    /// Decide on the next row of the stream.
    pub fn next(&mut self) -> (r: Place)
        requires
            old(self).wf(),
            old(self).rows() < u64::MAX,
        ensures
            final(self).wf(),
            final(self).rows() == old(self).rows() + 1,
            final(self).limit() == old(self).limit(),
            final(self).seed() == old(self).seed(),
            match r {
                Place::Append => final(self)@ == old(self)@.push(old(self).rows()),
                Place::Replace(at) => at < old(self)@.len() && final(self)@ == old(self)@.update(
                    at as int,
                    old(self).rows(),
                ),
                Place::Skip => final(self)@ == old(self)@,
            },
            (r is Append) == (old(self)@.len() < old(self).limit()),
            if r is Append {
                final(self).numbers() == old(self).numbers()
            } else {
                let j = final(self).numbers().last();
                final(self).numbers() == old(self).numbers().push(j) && j <= old(self).rows() && r
                    == place_of(j, old(self).limit())
            },
    {
        let ghost cap = self.limit as nat;
        let ghost n = self.seen as nat;
        let ghost js = self.drawn@;
        proof {
            lemma_picks(cap, n, js);
        }
        if self.held < self.limit {
            self.held = self.held + 1;
            self.seen = self.seen + 1;
            return Place::Append;
        }
        let j: u64 = self.draws.draw(self.seen);
        proof {
            assert(bounds(cap, js.len()).push(n as u64) =~= bounds(cap, js.len() + 1));
            lemma_picks_extend(cap, n, js, j);
            if let Some(s) = old(self).draws.seed() {
                assert(js.push(j) =~= seeded_draws(s, cap, n + 1));
            }
            assert(js.push(j)[n - cap] == j);
        }
        self.drawn = Ghost(js.push(j));
        self.seen = self.seen + 1;
        place(j, self.limit)
    }

    /// Success where the stream had as many rows as are wanted.
    pub fn finish(&self) -> (r: Result<(), Error>)
        ensures
            self.limit() <= self.rows() ==> r is Ok,
            self.limit() > self.rows() ==> (r matches Err(
                Error::SampleTooLarge { requested, rowcount },
            ) && requested == self.limit() && rowcount == self.rows()),
    {
        if self.limit > self.seen {
            Err(Error::SampleTooLarge { requested: self.limit, rowcount: self.seen })
        } else {
            Ok(())
        }
    }

    /// The same seed gives the same sample of the same number of rows.
    pub proof fn law_same_seed_same_sample(a: Self, b: Self)
        requires
            a.wf(),
            b.wf(),
            a.seed() is Some,
            a.seed() == b.seed(),
            a.limit() == b.limit(),
            a.rows() == b.rows(),
        ensures
            a@ == b@,
    {
    }

    /// The rows held are different rows of the stream, as many as are wanted or all of
    /// them: a sample without replacement.
    pub proof fn law_rows_are_distinct(&self)
        requires
            self.wf(),
        ensures
            self@.no_duplicates(),
            self@.len() == if self.rows() < self.limit() {
                self.rows()
            } else {
                self.limit()
            },
            forall|i: int| 0 <= i < self@.len() ==> #[trigger] self@[i] < self.rows(),
    {
        lemma_picks(self.limit as nat, self.seen as nat, self.drawn@);
        lemma_picks_distinct(self.limit as nat, self.seen as nat, self.drawn@);
    }

    /// With no more rows in the stream than are wanted, every row is held, in order.
    pub proof fn law_full_sample_holds_every_row(&self, i: int)
        requires
            self.wf(),
            self.rows() <= self.limit(),
            0 <= i < self.rows(),
        ensures
            self@.len() == self.rows(),
            self@[i] == i,
    {
        lemma_picks(self.limit as nat, self.seen as nat, self.drawn@);
        lemma_picks_all(self.limit as nat, self.drawn@, self.seen as nat, i);
    }
}

proof fn lemma_picks_distinct(cap: nat, n: nat, js: Seq<u64>)
    ensures
        picks(cap, n, js).no_duplicates(),
        forall|i: int| 0 <= i < picks(cap, n, js).len() ==> #[trigger] picks(cap, n, js)[i] < n,
    decreases n,
{
    if n > 0 {
        lemma_picks(cap, (n - 1) as nat, js);
        lemma_picks_distinct(cap, (n - 1) as nat, js);
    }
}

proof fn lemma_picks_all(cap: nat, js: Seq<u64>, n: nat, i: int)
    requires
        n <= cap,
        0 <= i < n,
    ensures
        picks(cap, n, js)[i] == i,
    decreases n,
{
    lemma_picks(cap, n, js);
    lemma_picks(cap, (n - 1) as nat, js);
    if i < n - 1 {
        lemma_picks_all(cap, js, (n - 1) as nat, i);
    }
}

} // verus!
