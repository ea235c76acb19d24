//! Sorting by a total order.
use vstd::multiset::Multiset;
use vstd::prelude::*;
use vstd::relations::{sorted_by, total_ordering};
use vstd::seq_lib::{group_to_multiset_ensures, lemma_multiset_commutative, lemma_sorted_unique};

use crate::text::{
    le, lemma_text_le_antisymmetric, lemma_text_le_reflexive, lemma_text_le_total,
    lemma_text_le_transitive, text_le,
};

verus! {

/// A total order on the views of `T`.
pub trait Order<T: View> {
    /// The order as a relation.
    spec fn relation(&self) -> spec_fn(T::V, T::V) -> bool;

    proof fn lemma_total(&self)
        ensures
            total_ordering(self.relation()),
    ;

    /// True where `a` does not come after `b`.
    fn at_most(&self, a: &T, b: &T) -> (r: bool)
        ensures
            r == (self.relation())(a@, b@),
    ;
}

/// The views of the items.
pub open spec fn views_of<T: View>(s: Seq<T>) -> Seq<T::V> {
    s.map_values(|t: T| t@)
}

/// The relation, or its converse.
spec fn directed<V>(relation: spec_fn(V, V) -> bool, ascending: bool) -> spec_fn(V, V) -> bool {
    |a: V, b: V|
        if ascending {
            relation(a, b)
        } else {
            relation(b, a)
        }
}

/// Everything in `a` stands before or at everything in `b`.
spec fn below<V>(a: Seq<V>, b: Seq<V>, relation: spec_fn(V, V) -> bool) -> bool {
    forall|i: int, j: int|
        0 <= i < a.len() && 0 <= j < b.len() ==> #[trigger] relation(a[i], b[j])
}

proof fn lemma_views_push<T: View>(s: Seq<T>, t: T)
    ensures
        views_of(s.push(t)) == views_of(s).push(t@),
{
    assert(views_of(s.push(t)) =~= views_of(s).push(t@));
}

proof fn lemma_views_drop_last<T: View>(s: Seq<T>)
    requires
        s.len() > 0,
    ensures
        views_of(s.drop_last()) == views_of(s).drop_last(),
        views_of(s).last() == s.last()@,
        views_of(s) == views_of(s).drop_last().push(s.last()@),
{
    assert(views_of(s.drop_last()) =~= views_of(s).drop_last());
    assert(views_of(s) =~= views_of(s).drop_last().push(s.last()@));
}

/// Merge two stacks whose tops come first, as `ascending` says, into one sequence in
/// that order.
fn merge<T: View, O: Order<T>>(a: Vec<T>, b: Vec<T>, order: &O, ascending: bool) -> (out: Vec<T>)
    requires
        sorted_by(views_of(a@), directed(order.relation(), !ascending)),
        sorted_by(views_of(b@), directed(order.relation(), !ascending)),
    ensures
        sorted_by(views_of(out@), directed(order.relation(), ascending)),
        views_of(out@).to_multiset() == views_of(a@).to_multiset().add(views_of(b@).to_multiset()),
{
    let ghost le = directed(order.relation(), ascending);
    let ghost ge = directed(order.relation(), !ascending);
    let mut a = a;
    let mut b = b;
    let ghost all = views_of(a@).to_multiset().add(views_of(b@).to_multiset());
    let mut out: Vec<T> = Vec::new();
    proof {
        broadcast use group_to_multiset_ensures;

        assert(views_of(out@) =~= Seq::<T::V>::empty());
        assert(all =~= Multiset::<T::V>::empty().add(all));
    }
    while a.len() > 0 || b.len() > 0
        invariant
            le == directed(order.relation(), ascending),
            ge == directed(order.relation(), !ascending),
            sorted_by(views_of(a@), ge),
            sorted_by(views_of(b@), ge),
            sorted_by(views_of(out@), le),
            below(views_of(out@), views_of(a@), le),
            below(views_of(out@), views_of(b@), le),
            views_of(out@).to_multiset().add(
                views_of(a@).to_multiset().add(views_of(b@).to_multiset()),
            ) == all,
        decreases a@.len() + b@.len(),
    {
        let from_a = if a.len() == 0 {
            false
        } else if b.len() == 0 {
            true
        } else {
            let x = &a[a.len() - 1];
            let y = &b[b.len() - 1];
            if ascending {
                order.at_most(x, y)
            } else {
                order.at_most(y, x)
            }
        };
        let ghost va = views_of(a@);
        let ghost vb = views_of(b@);
        let ghost vo = views_of(out@);
        proof {
            order.lemma_total();
            if a@.len() > 0 {
                lemma_views_drop_last(a@);
            }
            if b@.len() > 0 {
                lemma_views_drop_last(b@);
            }
        }
        let item = if from_a {
            a.pop()
        } else {
            b.pop()
        };
        if let Some(x) = item {
            proof {
                lemma_views_push(out@, x);
                broadcast use group_to_multiset_ensures;

                if from_a {
                    assert(a@ =~= a@.push(x).drop_last());
                    assert(x@ == va.last());
                    assert(views_of(a@) =~= va.drop_last());
                    lemma_step(vo, va, vb, le, ge);
                    assert(views_of(a@).push(x@) =~= va);
                    assert(vo.push(x@).to_multiset().add(
                        views_of(a@).to_multiset().add(vb.to_multiset()),
                    ) =~= all);
                } else {
                    assert(x@ == vb.last());
                    assert(views_of(b@) =~= vb.drop_last());
                    lemma_step(vo, vb, va, le, ge);
                    assert(views_of(b@).push(x@) =~= vb);
                    assert(vo.push(x@).to_multiset().add(
                        va.to_multiset().add(views_of(b@).to_multiset()),
                    ) =~= all);
                }
            }
            out.push(x);
        }
    }
    proof {
        broadcast use group_to_multiset_ensures;

        assert(views_of(a@) =~= Seq::<T::V>::empty());
        assert(views_of(b@) =~= Seq::<T::V>::empty());
        assert(views_of(out@).to_multiset() =~= all);
    }
    out
}

/// Taking the top of `a`, which comes no later than that of `b`, keeps the output
/// sorted and below what is left.
proof fn lemma_step<V>(
    out: Seq<V>,
    a: Seq<V>,
    b: Seq<V>,
    le: spec_fn(V, V) -> bool,
    ge: spec_fn(V, V) -> bool,
)
    requires
        a.len() > 0,
        forall|x: V, y: V| #[trigger] ge(x, y) == le(y, x),
        forall|x: V, y: V, z: V| #[trigger] le(x, y) && #[trigger] le(y, z) ==> le(x, z),
        sorted_by(a, ge),
        sorted_by(b, ge),
        sorted_by(out, le),
        below(out, a, le),
        below(out, b, le),
        b.len() > 0 ==> le(a.last(), b.last()),
    ensures
        sorted_by(out.push(a.last()), le),
        sorted_by(a.drop_last(), ge),
        below(out.push(a.last()), a.drop_last(), le),
        below(out.push(a.last()), b, le),
{
    let next = out.push(a.last());
    assert forall|i: int, j: int| 0 <= i < j < next.len() implies #[trigger] le(
        next[i],
        next[j],
    ) by {
        if j == out.len() {
            assert(le(out[i], a[a.len() - 1]));
        }
    }
    let rest = a.drop_last();
    assert forall|i: int, j: int| 0 <= i < next.len() && 0 <= j < rest.len() implies #[trigger] le(
        next[i],
        rest[j],
    ) by {
        if i < out.len() {
            assert(le(out[i], a[j]));
        } else {
            assert(ge(a[j], a[a.len() - 1]));
        }
    }
    assert forall|i: int, j: int| 0 <= i < next.len() && 0 <= j < b.len() implies #[trigger] le(
        next[i],
        b[j],
    ) by {
        if i < out.len() {
            assert(le(out[i], b[j]));
        } else {
            if j < b.len() - 1 {
                assert(ge(b[j], b[b.len() - 1]));
            }
            assert(le(a.last(), b.last()));
        }
    }
}

fn merge_sort<T: View, O: Order<T>>(v: Vec<T>, order: &O, ascending: bool) -> (out: Vec<T>)
    ensures
        sorted_by(views_of(out@), directed(order.relation(), ascending)),
        views_of(out@).to_multiset() == views_of(v@).to_multiset(),
    decreases v@.len(),
{
    if v.len() <= 1 {
        return v;
    }
    let ghost whole = v@;
    let mut left = v;
    let half: usize = left.len() / 2;
    let right = left.split_off(half);
    proof {
        assert(left@ =~= whole.take(half as int));
        assert(right@ =~= whole.skip(half as int));
        assert(views_of(whole) =~= views_of(left@) + views_of(right@));
        lemma_multiset_commutative(views_of(left@), views_of(right@));
    }
    let a = merge_sort(left, order, !ascending);
    let b = merge_sort(right, order, !ascending);
    merge(a, b, order, ascending)
}

/// The items in ascending order.
pub fn sort<T: View, O: Order<T>>(v: Vec<T>, order: &O) -> (out: Vec<T>)
    ensures
        views_of(out@) == views_of(v@).sort_by(order.relation()),
{
    let out = merge_sort(v, order, true);
    proof {
        let le = order.relation();
        order.lemma_total();
        views_of(v@).lemma_sort_by_ensures(le);
        assert(sorted_by(views_of(out@), le)) by {
            let d = directed(le, true);
            assert forall|i: int, j: int| 0 <= i < j < views_of(out@).len() implies #[trigger] le(
                views_of(out@)[i],
                views_of(out@)[j],
            ) by {
                assert(d(views_of(out@)[i], views_of(out@)[j]));
            }
        }
        lemma_sorted_unique(views_of(out@), views_of(v@).sort_by(le), le);
    }
    out
}

// ---------- orders ----------

/// The lexicographic order of texts.
pub open spec fn text_order() -> spec_fn(Seq<char>, Seq<char>) -> bool {
    |a: Seq<char>, b: Seq<char>| text_le(a, b)
}

/// Texts in lexicographic order.
pub struct TextOrder;

impl Order<String> for TextOrder {
    open spec fn relation(&self) -> spec_fn(Seq<char>, Seq<char>) -> bool {
        text_order()
    }

    proof fn lemma_total(&self) {
        let r = self.relation();
        assert forall|x: Seq<char>| #[trigger] r(x, x) by {
            lemma_text_le_reflexive(x);
        }
        assert forall|x: Seq<char>, y: Seq<char>| #[trigger] r(x, y) && #[trigger] r(
            y,
            x,
        ) implies x == y by {
            lemma_text_le_antisymmetric(x, y);
        }
        assert forall|x: Seq<char>, y: Seq<char>, z: Seq<char>| #[trigger]
            r(x, y) && #[trigger] r(y, z) implies r(x, z) by {
            lemma_text_le_transitive(x, y, z);
        }
        assert forall|x: Seq<char>, y: Seq<char>| #[trigger] r(x, y) || #[trigger] r(y, x) by {
            lemma_text_le_total(x, y);
        }
    }

    fn at_most(&self, a: &String, b: &String) -> (r: bool) {
        le(a.as_str(), b.as_str())
    }
}

/// The order of numbers.
pub open spec fn number_order() -> spec_fn(u64, u64) -> bool {
    |a: u64, b: u64| a <= b
}

/// Numbers in ascending order.
pub struct NumberOrder;

impl Order<u64> for NumberOrder {
    open spec fn relation(&self) -> spec_fn(u64, u64) -> bool {
        number_order()
    }

    proof fn lemma_total(&self) {
    }

    fn at_most(&self, a: &u64, b: &u64) -> (r: bool) {
        *a <= *b
    }
}

} // verus!
