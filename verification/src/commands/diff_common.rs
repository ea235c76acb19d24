//! What both `diff` commands share: comparing two lists of named things, and the
//! schema delta built on it.
use vstd::prelude::*;

use crate::json::{
    array, array_text, key_position, object, pairs_of, put_all, quote, quoted, Members,
};
use crate::schema::{Field, Schema};
use crate::sort::{sort, views_of, Order};
use crate::text::{
    le, lemma_text_le_antisymmetric, lemma_text_le_reflexive, lemma_text_le_total,
    lemma_text_le_transitive, same_text, text_le, texts,
};

verus! {

// ---------- keyed lists ----------

/// A key and its value.
pub struct Pair {
    pub key: String,
    pub value: String,
}

impl View for Pair {
    type V = (Seq<char>, Seq<char>);

    open spec fn view(&self) -> (Seq<char>, Seq<char>) {
        (self.key@, self.value@)
    }
}

/// By key, then by value.
pub open spec fn pair_le(a: (Seq<char>, Seq<char>), b: (Seq<char>, Seq<char>)) -> bool {
    if a.0 == b.0 {
        text_le(a.1, b.1)
    } else {
        text_le(a.0, b.0)
    }
}

pub open spec fn pair_order() -> spec_fn((Seq<char>, Seq<char>), (Seq<char>, Seq<char>)) -> bool {
    |a: (Seq<char>, Seq<char>), b: (Seq<char>, Seq<char>)| pair_le(a, b)
}

/// Pairs in the order of their keys.
pub struct PairOrder;

proof fn lemma_text_order(a: Seq<char>, b: Seq<char>, c: Seq<char>)
    ensures
        text_le(a, a),
        text_le(a, b) || text_le(b, a),
        text_le(a, b) && text_le(b, a) ==> a == b,
        text_le(a, b) && text_le(b, c) ==> text_le(a, c),
{
    lemma_text_le_reflexive(a);
    lemma_text_le_total(a, b);
    if text_le(a, b) && text_le(b, a) {
        lemma_text_le_antisymmetric(a, b);
    }
    if text_le(a, b) && text_le(b, c) {
        lemma_text_le_transitive(a, b, c);
    }
}

impl Order<Pair> for PairOrder {
    open spec fn relation(&self) -> spec_fn(
        (Seq<char>, Seq<char>),
        (Seq<char>, Seq<char>),
    ) -> bool {
        pair_order()
    }

    proof fn lemma_total(&self) {
        let r = self.relation();
        assert forall|x: (Seq<char>, Seq<char>)| #[trigger] r(x, x) by {
            lemma_text_order(x.1, x.1, x.1);
        }
        assert forall|x: (Seq<char>, Seq<char>), y: (Seq<char>, Seq<char>)| #[trigger]
            r(x, y) && #[trigger] r(y, x) implies x == y by {
            lemma_text_order(x.0, y.0, x.0);
            lemma_text_order(x.1, y.1, x.1);
        }
        assert forall|
            x: (Seq<char>, Seq<char>),
            y: (Seq<char>, Seq<char>),
            z: (Seq<char>, Seq<char>),
        | #[trigger] r(x, y) && #[trigger] r(y, z) implies r(x, z) by {
            lemma_text_order(x.0, y.0, z.0);
            lemma_text_order(x.1, y.1, z.1);
            lemma_text_order(y.0, x.0, y.0);
        }
        assert forall|x: (Seq<char>, Seq<char>), y: (Seq<char>, Seq<char>)| #[trigger]
            r(x, y) || #[trigger] r(y, x) by {
            lemma_text_order(x.0, y.0, x.0);
            lemma_text_order(x.1, y.1, x.1);
        }
    }

    fn at_most(&self, a: &Pair, b: &Pair) -> (r: bool) {
        if same_text(a.key.as_str(), b.key.as_str()) {
            le(a.value.as_str(), b.value.as_str())
        } else {
            le(a.key.as_str(), b.key.as_str())
        }
    }
}

/// The entries of a list of pairs, one for each key and in the order of the keys.
/// Of several values for one key the last counts.
pub open spec fn keyed(pairs: Seq<(Seq<char>, Seq<char>)>) -> Seq<(Seq<char>, Seq<char>)> {
    put_all(pairs).sort_by(pair_order())
}

/// True where some entry has this key.
pub open spec fn has_key(entries: Seq<(Seq<char>, Seq<char>)>, key: Seq<char>) -> bool {
    key_position(entries, key) < entries.len()
}

/// The value of this key.
pub open spec fn value_of(entries: Seq<(Seq<char>, Seq<char>)>, key: Seq<char>) -> Seq<char> {
    entries[key_position(entries, key) as int].1
}

/// The entries of `a` whose keys `b` does not have.
pub open spec fn only_in(
    a: Seq<(Seq<char>, Seq<char>)>,
    b: Seq<(Seq<char>, Seq<char>)>,
) -> Seq<(Seq<char>, Seq<char>)>
    decreases a.len(),
{
    if a.len() == 0 {
        Seq::empty()
    } else if has_key(b, a.last().0) {
        only_in(a.drop_last(), b)
    } else {
        only_in(a.drop_last(), b).push(a.last())
    }
}

/// The keys that both have with different values, and those values.
pub open spec fn changed(
    from: Seq<(Seq<char>, Seq<char>)>,
    to: Seq<(Seq<char>, Seq<char>)>,
) -> Seq<(Seq<char>, Seq<char>, Seq<char>)>
    decreases to.len(),
{
    if to.len() == 0 {
        Seq::empty()
    } else {
        let before = changed(from, to.drop_last());
        let (key, value) = to.last();
        if has_key(from, key) && value_of(from, key) != value {
            before.push((key, value_of(from, key), value))
        } else {
            before
        }
    }
}

/// What was added, removed and changed between two lists of named things.
#[derive(Debug)]
pub struct Delta {
    /// Key and value of what only the second list has.
    pub added: Vec<(String, String)>,
    /// Key and value of what only the first list has.
    pub removed: Vec<(String, String)>,
    /// Key, first and second value of what both have with different values.
    pub changed: Vec<(String, String, String)>,
}

/// The texts of triples.
pub open spec fn triples_of(v: Seq<(String, String, String)>) -> Seq<
    (Seq<char>, Seq<char>, Seq<char>),
> {
    v.map_values(|t: (String, String, String)| (t.0@, t.1@, t.2@))
}

impl Delta {
    /// True where this is the delta between the two lists.
    pub open spec fn compares(
        &self,
        from: Seq<(Seq<char>, Seq<char>)>,
        to: Seq<(Seq<char>, Seq<char>)>,
    ) -> bool {
        &&& pairs_of(self.added@) == only_in(keyed(to), keyed(from))
        &&& pairs_of(self.removed@) == only_in(keyed(from), keyed(to))
        &&& triples_of(self.changed@) == changed(keyed(from), keyed(to))
    }

    pub open spec fn nothing(&self) -> bool {
        self.added@.len() == 0 && self.removed@.len() == 0 && self.changed@.len() == 0
    }

    /// True when nothing was added, removed or changed.
    pub fn is_empty(&self) -> (r: bool)
        ensures
            r == self.nothing(),
    {
        self.added.len() == 0 && self.removed.len() == 0 && self.changed.len() == 0
    }
}

/// The entries of a list of pairs.
fn collapse(pairs: &Vec<(String, String)>) -> (r: Vec<Pair>)
    ensures
        views_of(r@) == keyed(pairs_of(pairs@)),
{
    let ghost all = pairs_of(pairs@);
    let mut members = Members::new();
    let mut i: usize = 0;
    proof {
        assert(all.take(0) =~= Seq::<(Seq<char>, Seq<char>)>::empty());
    }
    while i < pairs.len()
        invariant
            all == pairs_of(pairs@),
            i <= pairs@.len(),
            members.wf(),
            members@ == put_all(all.take(i as int)),
        decreases pairs@.len() - i,
    {
        proof {
            assert(all.take(i + 1).drop_last() =~= all.take(i as int));
            assert(all.take(i + 1).last() == all[i as int]);
        }
        members.set(pairs[i].0.as_str(), pairs[i].1.clone());
        i += 1;
    }
    proof {
        assert(all.take(all.len() as int) =~= all);
    }
    let flat = members.into_pairs();
    let ghost entries = pairs_of(flat@);
    let mut out: Vec<Pair> = Vec::new();
    let mut i: usize = 0;
    proof {
        assert(views_of(out@) =~= entries.take(0));
    }
    while i < flat.len()
        invariant
            i <= flat@.len(),
            entries == pairs_of(flat@),
            views_of(out@) == entries.take(i as int),
        decreases flat@.len() - i,
    {
        let ghost before = out@;
        let pair = Pair { key: flat[i].0.clone(), value: flat[i].1.clone() };
        out.push(pair);
        proof {
            assert(views_of(out@) =~= views_of(before).push(pair@));
            assert(entries.take(i + 1) =~= entries.take(i as int).push(entries[i as int]));
        }
        i += 1;
    }
    proof {
        assert(entries.take(entries.len() as int) =~= entries);
    }
    sort(out, &PairOrder)
}

fn find_key(entries: &Vec<Pair>, key: &str) -> (r: Option<usize>)
    ensures
        match r {
            Some(i) => i < entries@.len() && i == key_position(views_of(entries@), key@),
            None => !has_key(views_of(entries@), key@),
        },
{
    let ghost all = views_of(entries@);
    let mut i: usize = 0;
    proof {
        assert(all.skip(0) =~= all);
    }
    while i < entries.len()
        invariant
            all == views_of(entries@),
            i <= entries@.len(),
            key_position(all, key@) == i + key_position(all.skip(i as int), key@),
        decreases entries@.len() - i,
    {
        proof {
            assert(all.skip(i as int)[0] == entries@[i as int]@);
            assert(all.skip(i as int).drop_first() =~= all.skip(i + 1));
        }
        if same_text(entries[i].key.as_str(), key) {
            return Some(i);
        }
        i += 1;
    }
    proof {
        assert(all.skip(all.len() as int).len() == 0);
    }
    None
}

fn entries_only_in(a: &Vec<Pair>, b: &Vec<Pair>) -> (r: Vec<(String, String)>)
    ensures
        pairs_of(r@) == only_in(views_of(a@), views_of(b@)),
{
    let ghost left = views_of(a@);
    let ghost right = views_of(b@);
    let mut out: Vec<(String, String)> = Vec::new();
    let mut i: usize = 0;
    proof {
        assert(left.take(0) =~= Seq::<(Seq<char>, Seq<char>)>::empty());
        assert(pairs_of(out@) =~= Seq::<(Seq<char>, Seq<char>)>::empty());
    }
    while i < a.len()
        invariant
            left == views_of(a@),
            right == views_of(b@),
            i <= a@.len(),
            pairs_of(out@) == only_in(left.take(i as int), right),
        decreases a@.len() - i,
    {
        proof {
            assert(left.take(i + 1).drop_last() =~= left.take(i as int));
            assert(left.take(i + 1).last() == a@[i as int]@);
        }
        if find_key(b, a[i].key.as_str()).is_none() {
            let ghost before = out@;
            let pair = (a[i].key.clone(), a[i].value.clone());
            out.push(pair);
            proof {
                assert(pairs_of(out@) =~= pairs_of(before).push((pair.0@, pair.1@)));
            }
        }
        i += 1;
    }
    proof {
        assert(left.take(left.len() as int) =~= left);
    }
    out
}

fn entries_changed(from: &Vec<Pair>, to: &Vec<Pair>) -> (r: Vec<(String, String, String)>)
    ensures
        triples_of(r@) == changed(views_of(from@), views_of(to@)),
{
    let ghost left = views_of(from@);
    let ghost right = views_of(to@);
    let mut out: Vec<(String, String, String)> = Vec::new();
    let mut i: usize = 0;
    proof {
        assert(right.take(0) =~= Seq::<(Seq<char>, Seq<char>)>::empty());
        assert(triples_of(out@) =~= Seq::<(Seq<char>, Seq<char>, Seq<char>)>::empty());
    }
    while i < to.len()
        invariant
            left == views_of(from@),
            right == views_of(to@),
            i <= to@.len(),
            triples_of(out@) == changed(left, right.take(i as int)),
        decreases to@.len() - i,
    {
        proof {
            assert(right.take(i + 1).drop_last() =~= right.take(i as int));
            assert(right.take(i + 1).last() == to@[i as int]@);
        }
        if let Some(at) = find_key(from, to[i].key.as_str()) {
            proof {
                assert(left[at as int] == from@[at as int]@);
            }
            if !same_text(from[at].value.as_str(), to[i].value.as_str()) {
                let ghost before = out@;
                let triple = (to[i].key.clone(), from[at].value.clone(), to[i].value.clone());
                out.push(triple);
                proof {
                    assert(triples_of(out@) =~= triples_of(before).push(
                        (triple.0@, triple.1@, triple.2@),
                    ));
                }
            }
        }
        i += 1;
    }
    proof {
        assert(right.take(right.len() as int) =~= right);
    }
    out
}

/// Compare two lists of named things.
pub fn build_delta(from: &Vec<(String, String)>, to: &Vec<(String, String)>) -> (r: Delta)
    ensures
        r.compares(pairs_of(from@), pairs_of(to@)),
{
    let left = collapse(from);
    let right = collapse(to);
    Delta {
        added: entries_only_in(&right, &left),
        removed: entries_only_in(&left, &right),
        changed: entries_changed(&left, &right),
    }
}

// ---------- rendering ----------

/// One line per pair.
pub open spec fn pair_lines(mark: Seq<char>, pairs: Seq<(Seq<char>, Seq<char>)>) -> Seq<char>
    decreases pairs.len(),
{
    if pairs.len() == 0 {
        Seq::empty()
    } else {
        pair_lines(mark, pairs.drop_last()) + mark + pairs.last().0 + ": "@ + pairs.last().1 + "\n"@
    }
}

/// One line per changed value.
pub open spec fn change_lines(triples: Seq<(Seq<char>, Seq<char>, Seq<char>)>) -> Seq<char>
    decreases triples.len(),
{
    if triples.len() == 0 {
        Seq::empty()
    } else {
        change_lines(triples.drop_last()) + "  ~ "@ + triples.last().0 + ": "@ + triples.last().1
            + " -> "@ + triples.last().2 + "\n"@
    }
}

/// The `+`, `-` and `~` lines of a delta.
pub open spec fn delta_lines(d: Delta) -> Seq<char> {
    pair_lines("  + "@, pairs_of(d.added@)) + pair_lines("  - "@, pairs_of(d.removed@))
        + change_lines(triples_of(d.changed@))
}

/// A pair as a JSON object.
pub open spec fn pair_object(
    key_label: Seq<char>,
    value_label: Seq<char>,
    p: (Seq<char>, Seq<char>),
) -> Seq<char> {
    object(seq![(key_label, quoted(p.0)), (value_label, quoted(p.1))])
}

/// A changed value as a JSON object.
pub open spec fn change_object(
    key_label: Seq<char>,
    t: (Seq<char>, Seq<char>, Seq<char>),
) -> Seq<char> {
    object(seq![(key_label, quoted(t.0)), ("from"@, quoted(t.1)), ("to"@, quoted(t.2))])
}

/// A delta as a JSON object.
pub open spec fn delta_json(
    d: Delta,
    key_label: Seq<char>,
    value_label: Seq<char>,
    changed_label: Seq<char>,
) -> Seq<char> {
    object(
        seq![
            (
                "added"@,
                array(
                    pairs_of(d.added@).map_values(
                        |p: (Seq<char>, Seq<char>)| pair_object(key_label, value_label, p),
                    ),
                ),
            ),
            (
                "removed"@,
                array(
                    pairs_of(d.removed@).map_values(
                        |p: (Seq<char>, Seq<char>)| pair_object(key_label, value_label, p),
                    ),
                ),
            ),
            (
                changed_label,
                array(
                    triples_of(d.changed@).map_values(
                        |t: (Seq<char>, Seq<char>, Seq<char>)| change_object(key_label, t),
                    ),
                ),
            ),
        ],
    )
}

fn push_pair_lines(out: &mut String, mark: &str, pairs: &Vec<(String, String)>)
    ensures
        final(out)@ == old(out)@ + pair_lines(mark@, pairs_of(pairs@)),
{
    let ghost start = out@;
    let ghost all = pairs_of(pairs@);
    let mut i: usize = 0;
    proof {
        assert(all.take(0) =~= Seq::<(Seq<char>, Seq<char>)>::empty());
        assert(start + Seq::<char>::empty() =~= start);
    }
    while i < pairs.len()
        invariant
            all == pairs_of(pairs@),
            i <= pairs@.len(),
            out@ == start + pair_lines(mark@, all.take(i as int)),
        decreases pairs@.len() - i,
    {
        let ghost before = pair_lines(mark@, all.take(i as int));
        proof {
            assert(all.take(i + 1).drop_last() =~= all.take(i as int));
            assert(all.take(i + 1).last() == all[i as int]);
        }
        out.append(mark);
        out.append(pairs[i].0.as_str());
        out.append(": ");
        out.append(pairs[i].1.as_str());
        out.append("\n");
        proof {
            let p = all[i as int];
            assert(start + before + mark@ + p.0 + ": "@ + p.1 + "\n"@ =~= start + (before + mark@
                + p.0 + ": "@ + p.1 + "\n"@));
        }
        i += 1;
    }
    proof {
        assert(all.take(all.len() as int) =~= all);
    }
}

fn push_change_lines(out: &mut String, triples: &Vec<(String, String, String)>)
    ensures
        final(out)@ == old(out)@ + change_lines(triples_of(triples@)),
{
    let ghost start = out@;
    let ghost all = triples_of(triples@);
    let mut i: usize = 0;
    proof {
        assert(all.take(0) =~= Seq::<(Seq<char>, Seq<char>, Seq<char>)>::empty());
        assert(start + Seq::<char>::empty() =~= start);
    }
    while i < triples.len()
        invariant
            all == triples_of(triples@),
            i <= triples@.len(),
            out@ == start + change_lines(all.take(i as int)),
        decreases triples@.len() - i,
    {
        let ghost before = change_lines(all.take(i as int));
        proof {
            assert(all.take(i + 1).drop_last() =~= all.take(i as int));
            assert(all.take(i + 1).last() == all[i as int]);
        }
        out.append("  ~ ");
        out.append(triples[i].0.as_str());
        out.append(": ");
        out.append(triples[i].1.as_str());
        out.append(" -> ");
        out.append(triples[i].2.as_str());
        out.append("\n");
        proof {
            let t = all[i as int];
            assert(start + before + "  ~ "@ + t.0 + ": "@ + t.1 + " -> "@ + t.2 + "\n"@ =~= start + (
            before + "  ~ "@ + t.0 + ": "@ + t.1 + " -> "@ + t.2 + "\n"@));
        }
        i += 1;
    }
    proof {
        assert(all.take(all.len() as int) =~= all);
    }
}

/// Pairs as a JSON array of objects, their members named as given.
pub fn pair_array(pairs: &Vec<(String, String)>, key_label: &str, value_label: &str) -> (r: String)
    ensures
        r@ == array(
            pairs_of(pairs@).map_values(
                |p: (Seq<char>, Seq<char>)| pair_object(key_label@, value_label@, p),
            ),
        ),
{
    let ghost all = pairs_of(pairs@).map_values(
        |p: (Seq<char>, Seq<char>)| pair_object(key_label@, value_label@, p),
    );
    let mut items: Vec<String> = Vec::new();
    let mut i: usize = 0;
    proof {
        assert(texts(items@) =~= all.take(0));
    }
    while i < pairs.len()
        invariant
            all == pairs_of(pairs@).map_values(
                |p: (Seq<char>, Seq<char>)| pair_object(key_label@, value_label@, p),
            ),
            i <= pairs@.len(),
            texts(items@) == all.take(i as int),
        decreases pairs@.len() - i,
    {
        let mut m = Members::new();
        m.add_new(key_label, quote(pairs[i].0.as_str()));
        m.add_new(value_label, quote(pairs[i].1.as_str()));
        proof {
            let p = pairs@[i as int];
            assert(m@ =~= seq![(key_label@, quoted(p.0@)), (value_label@, quoted(p.1@))]);
        }
        let text = m.text();
        let ghost before = items@;
        items.push(text);
        proof {
            assert(text@ == all[i as int]);
            assert(texts(items@) =~= texts(before).push(text@));
            assert(all.take(i + 1) =~= all.take(i as int).push(all[i as int]));
        }
        i += 1;
    }
    proof {
        assert(all.take(all.len() as int) =~= all);
    }
    array_text(items.as_slice())
}

fn change_array(triples: &Vec<(String, String, String)>, key_label: &str) -> (r: String)
    ensures
        r@ == array(
            triples_of(triples@).map_values(
                |t: (Seq<char>, Seq<char>, Seq<char>)| change_object(key_label@, t),
            ),
        ),
{
    let ghost all = triples_of(triples@).map_values(
        |t: (Seq<char>, Seq<char>, Seq<char>)| change_object(key_label@, t),
    );
    let mut items: Vec<String> = Vec::new();
    let mut i: usize = 0;
    proof {
        assert(texts(items@) =~= all.take(0));
    }
    while i < triples.len()
        invariant
            all == triples_of(triples@).map_values(
                |t: (Seq<char>, Seq<char>, Seq<char>)| change_object(key_label@, t),
            ),
            i <= triples@.len(),
            texts(items@) == all.take(i as int),
        decreases triples@.len() - i,
    {
        let mut m = Members::new();
        m.add_new(key_label, quote(triples[i].0.as_str()));
        m.add_new("from", quote(triples[i].1.as_str()));
        m.add_new("to", quote(triples[i].2.as_str()));
        proof {
            let t = triples@[i as int];
            assert(m@ =~= seq![
                (key_label@, quoted(t.0@)),
                ("from"@, quoted(t.1@)),
                ("to"@, quoted(t.2@)),
            ]);
        }
        let text = m.text();
        let ghost before = items@;
        items.push(text);
        proof {
            assert(text@ == all[i as int]);
            assert(texts(items@) =~= texts(before).push(text@));
            assert(all.take(i + 1) =~= all.take(i as int).push(all[i as int]));
        }
        i += 1;
    }
    proof {
        assert(all.take(all.len() as int) =~= all);
    }
    array_text(items.as_slice())
}

impl Delta {
    /// Write the `+`, `-` and `~` lines.
    pub fn write_rows(&self, out: &mut String)
        ensures
            final(out)@ == old(out)@ + delta_lines(*self),
    {
        let ghost start = out@;
        push_pair_lines(out, "  + ", &self.added);
        push_pair_lines(out, "  - ", &self.removed);
        push_change_lines(out, &self.changed);
        proof {
            let a = pair_lines("  + "@, pairs_of(self.added@));
            let b = pair_lines("  - "@, pairs_of(self.removed@));
            let c = change_lines(triples_of(self.changed@));
            assert(start + a + b + c =~= start + (a + b + c));
        }
    }

    /// The delta as a JSON object, its members named as given.
    pub fn to_json(&self, key_label: &str, value_label: &str, changed_label: &str) -> (r: String)
        ensures
            r@ == delta_json(*self, key_label@, value_label@, changed_label@),
    {
        let added = pair_array(&self.added, key_label, value_label);
        let removed = pair_array(&self.removed, key_label, value_label);
        let changed = change_array(&self.changed, key_label);
        let mut m = Members::new();
        proof {
            assert(m@.push(("added"@, added@)).push(("removed"@, removed@)).push(
                (changed_label@, changed@),
            ) =~= seq![("added"@, added@), ("removed"@, removed@), (changed_label@, changed@)]);
        }
        m.add_new("added", added);
        m.add_new("removed", removed);
        m.add_new(changed_label, changed);
        m.text()
    }
}

// ---------- schemas ----------

/// A type with its nullability (`Int32`, `Int32?`), so that a change of nullability
/// alone is a change of type.
pub open spec fn type_label_of(f: Field) -> Seq<char> {
    f.data_type.display@ + if f.nullable {
        "?"@
    } else {
        Seq::<char>::empty()
    }
}

/// The columns with their types.
pub open spec fn labelled(fields: Seq<Field>) -> Seq<(Seq<char>, Seq<char>)> {
    fields.map_values(|f: Field| (f.name@, type_label_of(f)))
}

fn type_label(field: &Field) -> (r: String)
    ensures
        r@ == type_label_of(*field),
{
    let mut s = field.data_type.display.clone();
    if field.nullable {
        s.append("?");
    } else {
        proof {
            assert(s@ + Seq::<char>::empty() =~= s@);
        }
    }
    s
}

fn labels(fields: &[Field]) -> (r: Vec<(String, String)>)
    ensures
        pairs_of(r@) == labelled(fields@),
{
    let ghost all = labelled(fields@);
    let mut out: Vec<(String, String)> = Vec::new();
    let mut i: usize = 0;
    proof {
        assert(pairs_of(out@) =~= all.take(0));
    }
    while i < fields.len()
        invariant
            all == labelled(fields@),
            i <= fields@.len(),
            pairs_of(out@) == all.take(i as int),
        decreases fields@.len() - i,
    {
        let ghost before = out@;
        let pair = (fields[i].name.clone(), type_label(&fields[i]));
        out.push(pair);
        proof {
            assert(pairs_of(out@) =~= pairs_of(before).push((pair.0@, pair.1@)));
            assert(all.take(i + 1) =~= all.take(i as int).push(all[i as int]));
        }
        i += 1;
    }
    proof {
        assert(all.take(all.len() as int) =~= all);
    }
    out
}

/// Compare two schemas column by column, matched by name. Nested types are compared
/// through their texts, which show their structure.
pub fn build_schema_delta(from: &Schema, to: &Schema) -> (r: Delta)
    ensures
        r.compares(labelled(from.fields@), labelled(to.fields@)),
{
    build_delta(&labels(from.fields.as_slice()), &labels(to.fields.as_slice()))
}

// ---------- laws ----------

pub proof fn lemma_has_key(entries: Seq<(Seq<char>, Seq<char>)>, key: Seq<char>)
    ensures
        has_key(entries, key) <==> exists|i: int|
            0 <= i < entries.len() && (#[trigger] entries[i]).0 == key,
        key_position(entries, key) <= entries.len(),
        has_key(entries, key) ==> entries[key_position(entries, key) as int].0 == key,
    decreases entries.len(),
{
    if entries.len() > 0 && entries[0].0 != key {
        let rest = entries.drop_first();
        lemma_has_key(rest, key);
        if has_key(rest, key) {
            let i = choose|i: int| 0 <= i < rest.len() && (#[trigger] rest[i]).0 == key;
            assert(entries[i + 1].0 == key);
        }
        if exists|i: int| 0 <= i < entries.len() && (#[trigger] entries[i]).0 == key {
            let i = choose|i: int| 0 <= i < entries.len() && (#[trigger] entries[i]).0 == key;
            assert(rest[i - 1].0 == key);
        }
    }
}

/// What only one list has: exactly its keys that the other lacks.
pub proof fn law_only_in_is_difference(
    a: Seq<(Seq<char>, Seq<char>)>,
    b: Seq<(Seq<char>, Seq<char>)>,
    key: Seq<char>,
)
    ensures
        has_key(only_in(a, b), key) <==> has_key(a, key) && !has_key(b, key),
    decreases a.len(),
{
    lemma_has_key(a, key);
    lemma_has_key(only_in(a, b), key);
    if a.len() > 0 {
        let init = a.drop_last();
        law_only_in_is_difference(init, b, key);
        lemma_has_key(init, key);
        lemma_has_key(only_in(init, b), key);
        let before = only_in(init, b);
        let after = only_in(a, b);
        if has_key(before, key) {
            let i = choose|i: int| 0 <= i < before.len() && (#[trigger] before[i]).0 == key;
            assert(after[i].0 == key);
        }
        if has_key(init, key) {
            let i = choose|i: int| 0 <= i < init.len() && (#[trigger] init[i]).0 == key;
            assert(a[i].0 == key);
        }
        if has_key(a, key) && !has_key(init, key) {
            let i = choose|i: int| 0 <= i < a.len() && (#[trigger] a[i]).0 == key;
            if i < init.len() {
                assert(init[i].0 == key);
            }
            assert(a.last().0 == key);
            if !has_key(b, key) {
                assert(after[after.len() - 1].0 == key);
            }
        }
        if has_key(after, key) && !has_key(before, key) {
            let i = choose|i: int| 0 <= i < after.len() && (#[trigger] after[i]).0 == key;
            if i < before.len() {
                assert(before[i].0 == key);
            }
            assert(a[a.len() - 1].0 == key);
        }
    }
}

/// Setting keys one after another leaves each key in one place.
pub proof fn lemma_put_all_distinct(entries: Seq<(Seq<char>, Seq<char>)>)
    ensures
        distinct_keys(put_all(entries)),
    decreases entries.len(),
{
    if entries.len() > 0 {
        let before = put_all(entries.drop_last());
        let key = entries.last().0;
        lemma_put_all_distinct(entries.drop_last());
        lemma_has_key(before, key);
        let at = key_position(before, key);
        let after = put_all(entries);
        assert forall|i: int, j: int| 0 <= i < j < after.len() implies (#[trigger] after[i]).0 != (
        #[trigger] after[j]).0 by {
            if at >= before.len() {
                if j == before.len() {
                    assert(before[i].0 != key);
                }
            }
        }
    }
}

/// True where no two entries have the same key.
pub open spec fn distinct_keys(entries: Seq<(Seq<char>, Seq<char>)>) -> bool {
    forall|i: int, j: int|
        0 <= i < j < entries.len() ==> (#[trigger] entries[i]).0 != (#[trigger] entries[j]).0
}

pub proof fn lemma_keyed_distinct(pairs: Seq<(Seq<char>, Seq<char>)>)
    ensures
        distinct_keys(keyed(pairs)),
{
    broadcast use vstd::seq_lib::group_to_multiset_ensures;

    lemma_put_all_distinct(pairs);
    let plain = put_all(pairs);
    let sorted = keyed(pairs);
    PairOrder.lemma_total();
    plain.lemma_sort_by_ensures(pair_order());
    assert forall|i: int, j: int| 0 <= i < j < sorted.len() implies (#[trigger] sorted[i]).0 != (
    #[trigger] sorted[j]).0 by {
        assert(sorted.contains(sorted[i]));
        assert(sorted.contains(sorted[j]));
        assert(plain.contains(sorted[i]));
        assert(plain.contains(sorted[j]));
        let k = choose|k: int| 0 <= k < plain.len() && plain[k] == sorted[i];
        let l = choose|l: int| 0 <= l < plain.len() && plain[l] == sorted[j];
        if sorted[i].0 == sorted[j].0 {
            assert(k == l);
            lemma_two_counts(sorted, i, j);
            lemma_one_count(plain, k);
        }
    }
}

/// Sorting keeps the entries.
pub proof fn lemma_keyed_keeps(pairs: Seq<(Seq<char>, Seq<char>)>, p: (Seq<char>, Seq<char>))
    ensures
        keyed(pairs).contains(p) <==> put_all(pairs).contains(p),
        vstd::relations::sorted_by(keyed(pairs), pair_order()),
{
    broadcast use vstd::seq_lib::group_to_multiset_ensures;

    let plain = put_all(pairs);
    PairOrder.lemma_total();
    plain.lemma_sort_by_ensures(pair_order());
    assert(keyed(pairs).contains(p) <==> keyed(pairs).to_multiset().count(p) > 0);
    assert(plain.contains(p) <==> plain.to_multiset().count(p) > 0);
}

proof fn lemma_two_counts(s: Seq<(Seq<char>, Seq<char>)>, i: int, j: int)
    requires
        0 <= i < j < s.len(),
        s[i] == s[j],
    ensures
        s.to_multiset().count(s[i]) >= 2,
{
    broadcast use vstd::seq_lib::group_to_multiset_ensures;

    let rest = s.remove(j);
    assert(rest[i] == s[i]);
    assert(rest.contains(s[i]));
    assert(rest.to_multiset().count(s[i]) > 0);
    assert(rest.to_multiset() =~= s.to_multiset().remove(s[j]));
}

proof fn lemma_one_count(s: Seq<(Seq<char>, Seq<char>)>, k: int)
    requires
        0 <= k < s.len(),
        distinct_keys(s),
    ensures
        s.to_multiset().count(s[k]) <= 1,
{
    broadcast use vstd::seq_lib::group_to_multiset_ensures;

    let rest = s.remove(k);
    assert(rest.to_multiset() =~= s.to_multiset().remove(s[k]));
    if rest.to_multiset().count(s[k]) > 0 {
        assert(rest.contains(s[k]));
        let i = choose|i: int| 0 <= i < rest.len() && rest[i] == s[k];
        if i < k {
            assert(s[i].0 != s[k].0);
        } else {
            assert(s[i + 1].0 != s[k].0);
        }
    }
}

proof fn lemma_same_list_changes_nothing(
    a: Seq<(Seq<char>, Seq<char>)>,
    n: int,
)
    requires
        distinct_keys(a),
        0 <= n <= a.len(),
    ensures
        only_in(a.take(n), a).len() == 0,
        changed(a, a.take(n)).len() == 0,
    decreases n,
{
    if n > 0 {
        lemma_same_list_changes_nothing(a, n - 1);
        assert(a.take(n).drop_last() =~= a.take(n - 1));
        let key = a[n - 1].0;
        lemma_has_key(a, key);
        assert(a[n - 1].0 == key);
        let at = key_position(a, key) as int;
        if at < n - 1 {
            assert(a[at].0 != a[n - 1].0);
        } else if at > n - 1 {
            assert(a[n - 1].0 != a[at].0);
        }
    }
}

/// A list compared with itself has no differences.
pub proof fn law_same_has_no_delta(d: Delta, pairs: Seq<(Seq<char>, Seq<char>)>)
    requires
        d.compares(pairs, pairs),
    ensures
        d.nothing(),
{
    lemma_keyed_distinct(pairs);
    let a = keyed(pairs);
    lemma_same_list_changes_nothing(a, a.len() as int);
    assert(a.take(a.len() as int) =~= a);
    assert(pairs_of(d.added@).len() == d.added@.len());
    assert(pairs_of(d.removed@).len() == d.removed@.len());
    assert(triples_of(d.changed@).len() == d.changed@.len());
}

/// Where nothing changed, the lists give a key that both have the same value.
proof fn lemma_unchanged(
    from: Seq<(Seq<char>, Seq<char>)>,
    to: Seq<(Seq<char>, Seq<char>)>,
    k: int,
)
    requires
        changed(from, to).len() == 0,
        0 <= k < to.len(),
        has_key(from, to[k].0),
    ensures
        value_of(from, to[k].0) == to[k].1,
    decreases to.len(),
{
    if k < to.len() - 1 {
        lemma_unchanged(from, to.drop_last(), k);
        assert(to.drop_last()[k] == to[k]);
    }
}

/// An empty delta means that the two lists have the same keys with the same values.
pub proof fn law_no_delta_means_equal(
    d: Delta,
    from: Seq<(Seq<char>, Seq<char>)>,
    to: Seq<(Seq<char>, Seq<char>)>,
)
    requires
        d.compares(from, to),
        d.nothing(),
    ensures
        keyed(from) == keyed(to),
{
    broadcast use vstd::seq_lib::group_to_multiset_ensures;

    let a = keyed(from);
    let b = keyed(to);
    assert(pairs_of(d.added@).len() == d.added@.len());
    assert(pairs_of(d.removed@).len() == d.removed@.len());
    assert(triples_of(d.changed@).len() == d.changed@.len());
    lemma_keyed_distinct(from);
    lemma_keyed_distinct(to);
    assert forall|k: int| 0 <= k < b.len() implies a.contains(#[trigger] b[k]) by {
        let key = b[k].0;
        law_only_in_is_difference(b, a, key);
        lemma_has_key(b, key);
        lemma_has_key(a, key);
        lemma_unchanged(a, b, k);
        assert(a[key_position(a, key) as int] == b[k]);
    }
    assert forall|k: int| 0 <= k < a.len() implies b.contains(#[trigger] a[k]) by {
        let key = a[k].0;
        law_only_in_is_difference(a, b, key);
        lemma_has_key(a, key);
        lemma_has_key(b, key);
        let at = key_position(b, key) as int;
        lemma_unchanged(a, b, at);
        let same = key_position(a, key) as int;
        if same < k {
            assert(a[same].0 != a[k].0);
        } else if k < same {
            assert(a[k].0 != a[same].0);
        }
        assert(b[at] == a[k]);
    }
    assert(a.no_duplicates());
    assert(b.no_duplicates());
    a.lemma_multiset_has_no_duplicates();
    b.lemma_multiset_has_no_duplicates();
    assert(a.to_multiset() =~= b.to_multiset()) by {
        assert forall|x: (Seq<char>, Seq<char>)| a.contains(x) <==> b.contains(x) by {
            if a.contains(x) {
                let k = choose|k: int| 0 <= k < a.len() && a[k] == x;
                assert(b.contains(a[k]));
            }
            if b.contains(x) {
                let k = choose|k: int| 0 <= k < b.len() && b[k] == x;
                assert(a.contains(b[k]));
            }
        }
        assert forall|x: (Seq<char>, Seq<char>)| #[trigger]
            a.to_multiset().count(x) == b.to_multiset().count(x) by {
            assert(a.contains(x) <==> b.contains(x));
            assert(a.to_multiset().contains(x) <==> a.contains(x));
            assert(b.to_multiset().contains(x) <==> b.contains(x));
        }
    }
    PairOrder.lemma_total();
    put_all(from).lemma_sort_by_ensures(pair_order());
    put_all(to).lemma_sort_by_ensures(pair_order());
    vstd::seq_lib::lemma_sorted_unique(a, b, pair_order());
}

/// A column that only became nullable, or ceased to be, is told as changed.
pub proof fn law_nullability_change_is_told(d: Delta, from: Field, to: Field)
    requires
        d.compares(labelled(seq![from]), labelled(seq![to])),
        from.name@ == to.name@,
        from.data_type.display@ == to.data_type.display@,
        from.nullable != to.nullable,
    ensures
        !d.nothing(),
        type_label_of(from) != type_label_of(to),
{
    reveal_strlit("?");
    assert(type_label_of(from).len() != type_label_of(to).len());
    if d.nothing() {
        law_no_delta_means_equal(d, labelled(seq![from]), labelled(seq![to]));
        lemma_keyed_one((from.name@, type_label_of(from)));
        lemma_keyed_one((to.name@, type_label_of(to)));
        assert(labelled(seq![from]) =~= seq![(from.name@, type_label_of(from))]);
        assert(labelled(seq![to]) =~= seq![(to.name@, type_label_of(to))]);
        assert(seq![(from.name@, type_label_of(from))][0] == seq![(to.name@, type_label_of(to))][0]);
    }
}

/// The entries of a single pair.
proof fn lemma_keyed_one(p: (Seq<char>, Seq<char>))
    ensures
        keyed(seq![p]) == seq![p],
{
    broadcast use vstd::seq_lib::group_to_multiset_ensures;

    reveal_with_fuel(put_all, 2);
    assert(seq![p].drop_last() =~= Seq::<(Seq<char>, Seq<char>)>::empty());
    assert(put_all(seq![p]) =~= seq![p]);
    PairOrder.lemma_total();
    seq![p].lemma_sort_by_ensures(pair_order());
    let sorted = keyed(seq![p]);
    assert(sorted.to_multiset().len() == seq![p].to_multiset().len());
    assert(sorted.contains(sorted[0]));
    assert(seq![p].contains(sorted[0]));
    assert(sorted =~= seq![p]);
}

/// A key is told as changed exactly where both lists have it with different values.
pub proof fn lemma_changed(
    from: Seq<(Seq<char>, Seq<char>)>,
    to: Seq<(Seq<char>, Seq<char>)>,
    key: Seq<char>,
    a: Seq<char>,
    b: Seq<char>,
)
    requires
        distinct_keys(to),
    ensures
        changed(from, to).contains((key, a, b)) <==> has_key(from, key) && has_key(to, key)
            && value_of(from, key) == a && value_of(to, key) == b && a != b,
    decreases to.len(),
{
    let t = (key, a, b);
    lemma_has_key(to, key);
    if to.len() > 0 {
        let init = to.drop_last();
        lemma_changed(from, init, key, a, b);
        lemma_has_key(init, key);
        let before = changed(from, init);
        let after = changed(from, to);
        let n = to.len() - 1;
        if before.contains(t) {
            let k = choose|k: int| 0 <= k < before.len() && before[k] == t;
            assert(after[k] == t);
        }
        if has_key(init, key) {
            let at = key_position(init, key) as int;
            assert(to[at].0 == key);
            let same = key_position(to, key) as int;
            if same < at {
                assert(to[same].0 != to[at].0);
            } else if at < same {
                assert(to[at].0 != to[same].0);
            }
            assert(to[at].0 != to[n].0);
        } else if has_key(to, key) {
            let at = key_position(to, key) as int;
            if at < n {
                assert(init[at].0 == key);
            }
            assert(to.last() == (key, value_of(to, key)));
            if has_key(from, key) && value_of(from, key) != value_of(to, key) {
                assert(after.last() == (key, value_of(from, key), value_of(to, key)));
                assert(after[after.len() - 1] == after.last());
            }
        }
        if to.last().0 == key {
            assert(to[n].0 == key);
        }
        if after.contains(t) && !before.contains(t) {
            let k = choose|k: int| 0 <= k < after.len() && after[k] == t;
            if k < before.len() {
                assert(before[k] == t);
            }
        }
    }
}

/// The two sides trade places when the comparison is turned round: what was added is
/// removed, and what changed changes back.
pub proof fn law_reversed_delta_swaps_sides(
    forward: Delta,
    backward: Delta,
    from: Seq<(Seq<char>, Seq<char>)>,
    to: Seq<(Seq<char>, Seq<char>)>,
    key: Seq<char>,
    a: Seq<char>,
    b: Seq<char>,
)
    requires
        forward.compares(from, to),
        backward.compares(to, from),
    ensures
        pairs_of(forward.added@) == pairs_of(backward.removed@),
        pairs_of(forward.removed@) == pairs_of(backward.added@),
        triples_of(forward.changed@).contains((key, a, b)) <==> triples_of(
            backward.changed@,
        ).contains((key, b, a)),
{
    lemma_keyed_distinct(from);
    lemma_keyed_distinct(to);
    lemma_changed(keyed(from), keyed(to), key, a, b);
    lemma_changed(keyed(to), keyed(from), key, b, a);
}

} // verus!
