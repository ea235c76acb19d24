//! Frequencies, held against the values that were counted.
use vstd::prelude::*;

use crate::cell::Cell;
use crate::cli::FreqSort;
use crate::commands::freq::{
    count_cell, count_cells, entries, firsts, kept, occurrences, ordered, row_order, value_label,
    EntryModel, EntryOrder, Stop,
};
use crate::output::value::{csv_of, CsvModel};
use crate::output::RenderOptions;
use crate::sort::Order;
use crate::text::text_le;

verus! {

/// How often a value was seen.
pub open spec fn times_seen(seen: Seq<Option<Seq<char>>>, v: Option<Seq<char>>) -> nat {
    seen.filter(|x: Option<Seq<char>>| x == v).len()
}

proof fn lemma_times_seen(seen: Seq<Option<Seq<char>>>, v: Option<Seq<char>>)
    ensures
        occurrences(seen, v) == times_seen(seen, v),
        occurrences(seen, v) <= seen.len(),
        occurrences(seen, v) > 0 <==> seen.contains(v),
    decreases seen.len(),
{
    reveal(Seq::filter);
    if seen.len() > 0 {
        let init = seen.drop_last();
        lemma_times_seen(init, v);
        if init.contains(v) {
            let i = choose|i: int| 0 <= i < init.len() && init[i] == v;
            assert(seen[i] == v);
        }
        if seen.contains(v) && seen.last() != v {
            let i = choose|i: int| 0 <= i < seen.len() && seen[i] == v;
            assert(init[i] == v);
        }
        if seen.last() == v {
            assert(seen[seen.len() - 1] == v);
        }
    }
}

/// Every value that was seen has one entry, with how often it was seen; and no other
/// value has one.
pub proof fn law_every_value_has_its_count(seen: Seq<Option<Seq<char>>>, v: Option<Seq<char>>, n: u64)
    requires
        seen.len() <= u64::MAX,
    ensures
        entries(seen).contains((v, n)) <==> seen.contains(v) && n == times_seen(seen, v),
        forall|i: int, j: int|
            0 <= i < j < entries(seen).len() ==> (#[trigger] entries(seen)[i]).0 != (
            #[trigger] entries(seen)[j]).0,
{
    lemma_times_seen(seen, v);
    lemma_times_seen(seen, None);
    let e = entries(seen);
    let f = firsts(seen);
    assert forall|i: int| 0 <= i < f.len() implies #[trigger] f[i] == f[i] && occurrences(
        seen,
        Some(f[i]),
    ) <= seen.len() by {
        lemma_times_seen(seen, Some(f[i]));
    }
    assert forall|t: Seq<char>| f.contains(t) <==> #[trigger] seen.contains(Some(t)) by {
        lemma_first_seen(seen, t);
    }
    if e.contains((v, n)) {
        let i = choose|i: int| 0 <= i < e.len() && e[i] == (v, n);
        if i < f.len() {
            assert(f.contains(f[i]));
            assert(seen.contains(Some(f[i])));
        }
    }
    if seen.contains(v) && n == times_seen(seen, v) {
        match v {
            Some(t) => {
                assert(f.contains(t));
                let i = choose|i: int| 0 <= i < f.len() && f[i] == t;
                assert(e[i] == (v, n));
            },
            None => {
                assert(e[e.len() - 1] == (v, n));
            },
        }
    }
    lemma_firsts_differ(seen);
    assert forall|i: int, j: int| 0 <= i < j < e.len() implies (#[trigger] e[i]).0 != (
    #[trigger] e[j]).0 by {
        if j < f.len() {
            assert(f[i] != f[j]);
        }
    }
}

proof fn lemma_first_seen(seen: Seq<Option<Seq<char>>>, t: Seq<char>)
    ensures
        firsts(seen).contains(t) <==> seen.contains(Some(t)),
    decreases seen.len(),
{
    if seen.len() > 0 {
        let init = seen.drop_last();
        lemma_first_seen(init, t);
        let before = firsts(init);
        let after = firsts(seen);
        if before.contains(t) {
            let i = choose|i: int| 0 <= i < before.len() && before[i] == t;
            assert(after[i] == t);
        }
        if init.contains(Some(t)) {
            let i = choose|i: int| 0 <= i < init.len() && init[i] == Some(t);
            assert(seen[i] == Some(t));
        }
        if seen.last() == Some(t) {
            assert(seen[seen.len() - 1] == Some(t));
            if !before.contains(t) {
                assert(after[before.len() as int] == t);
            }
        }
        if after.contains(t) && !before.contains(t) {
            let i = choose|i: int| 0 <= i < after.len() && after[i] == t;
            if i < before.len() {
                assert(before[i] == t);
            }
        }
        if seen.contains(Some(t)) && seen.last() != Some(t) {
            let i = choose|i: int| 0 <= i < seen.len() && seen[i] == Some(t);
            assert(init[i] == Some(t));
        }
    }
}

proof fn lemma_firsts_differ(seen: Seq<Option<Seq<char>>>)
    ensures
        forall|i: int, j: int|
            0 <= i < j < firsts(seen).len() ==> #[trigger] firsts(seen)[i] != #[trigger] firsts(
                seen,
            )[j],
    decreases seen.len(),
{
    if seen.len() > 0 {
        lemma_firsts_differ(seen.drop_last());
        let before = firsts(seen.drop_last());
        let after = firsts(seen);
        assert forall|i: int, j: int| 0 <= i < j < after.len() implies #[trigger] after[i]
            != #[trigger] after[j] by {
            assert(after[i] == before[i]);
            if j < before.len() {
                assert(before[i] != before[j]);
            } else {
                assert(before.contains(before[i]));
            }
        }
    }
}

/// Sorting keeps the entries, each as often as it was there.
pub proof fn law_sorting_keeps_the_entries(
    seen: Seq<Option<Seq<char>>>,
    sort: FreqSort,
    e: EntryModel,
)
    ensures
        ordered(seen, sort).contains(e) <==> entries(seen).contains(e),
        ordered(seen, sort).len() == entries(seen).len(),
{
    broadcast use vstd::seq_lib::group_to_multiset_ensures;

    let order = EntryOrder { sort };
    order.lemma_total();
    entries(seen).lemma_sort_by_ensures(row_order(sort));
    let s = ordered(seen, sort);
    let p = entries(seen);
    assert(s.contains(e) <==> s.to_multiset().count(e) > 0);
    assert(p.contains(e) <==> p.to_multiset().count(e) > 0);
    assert(s.len() == s.to_multiset().len() && p.len() == p.to_multiset().len());
}

/// True where a value comes no later than another in ascending order, a null last.
pub open spec fn no_later_than(a: Option<Seq<char>>, b: Option<Seq<char>>) -> bool {
    b is None || (a is Some && text_le(a->Some_0, b->Some_0))
}

/// Sorted by count, the more frequent values come first, and equally frequent ones in
/// ascending order. Sorted by value, the values are in ascending order. A null comes
/// last among its equals.
pub proof fn law_entries_are_sorted_as_asked(
    seen: Seq<Option<Seq<char>>>,
    sort: FreqSort,
    i: int,
    j: int,
)
    requires
        0 <= i < j < ordered(seen, sort).len(),
    ensures
        sort == FreqSort::Count ==> ordered(seen, sort)[i].1 >= ordered(seen, sort)[j].1,
        sort == FreqSort::Count && ordered(seen, sort)[i].1 == ordered(seen, sort)[j].1
            ==> no_later_than(ordered(seen, sort)[i].0, ordered(seen, sort)[j].0),
        sort == FreqSort::Value ==> no_later_than(
            ordered(seen, sort)[i].0,
            ordered(seen, sort)[j].0,
        ),
{
    let order = EntryOrder { sort };
    order.lemma_total();
    entries(seen).lemma_sort_by_ensures(row_order(sort));
    let s = ordered(seen, sort);
    let le = row_order(sort);
    assert(le(s[i], s[j]));
    if s[i].0 == s[j].0 {
        match s[i].0 {
            Some(t) => crate::text::lemma_text_le_reflexive(t),
            None => {},
        }
    }
}

/// The rows that are shown are as many as the limit allows: all, where there is none
/// or no more than it.
pub proof fn law_limit_bounds_the_rows(len: nat, limit: Option<u64>)
    ensures
        limit is None ==> kept(len, limit) == len,
        limit matches Some(n) ==> kept(len, limit) <= n && kept(len, limit) <= len && (kept(len, limit)
            == n || kept(len, limit) == len),
{
}

/// A value is labelled by its text, and a null by `NULL`.
pub proof fn law_nulls_are_labelled(t: Seq<char>)
    ensures
        value_label(Some(t)) == t,
        value_label(None) == "NULL"@,
{
}

/// What counting sees in a cell: its text, and nothing in a null.
pub open spec fn sight(c: Cell, o: RenderOptions) -> Option<Seq<char>> {
    match csv_of(c, o) {
        CsvModel::Text(t) => Some(t),
        _ => None,
    }
}

/// Counting a column sees its cells one after another. It goes through where every
/// cell has a text and there are no more than a million different ones.
pub proof fn law_counting_sees_every_cell(
    seen: Seq<Option<Seq<char>>>,
    cells: Seq<Cell>,
    n: nat,
    label: Seq<char>,
    o: RenderOptions,
)
    requires
        n <= cells.len(),
        forall|i: int| 0 <= i < n ==> !(csv_of(#[trigger] cells[i], o) is Refused),
        firsts(seen + Seq::new(n, |i: int| sight(cells[i], o))).len() <= 1_000_000,
    ensures
        count_cells(seen, cells, n, label, o) == Ok::<Seq<Option<Seq<char>>>, Stop>(
            seen + Seq::new(n, |i: int| sight(cells[i], o)),
        ),
    decreases n,
{
    let now = Seq::new(n, |i: int| sight(cells[i], o));
    if n == 0 {
        assert(seen + now =~= seen);
    } else {
        let m = (n - 1) as nat;
        let before = seen + Seq::new(m, |i: int| sight(cells[i], o));
        assert((seen + now).drop_last() =~= before);
        assert(firsts(before).len() <= firsts(seen + now).len());
        law_counting_sees_every_cell(seen, cells, m, label, o);
        assert((seen + now).last() == sight(cells[n - 1], o));
        assert(!(csv_of(cells[n - 1], o) is Refused));
        assert(seen + now =~= before.push(sight(cells[n - 1], o)));
    }
}

/// One more value than a million different ones is refused, and so is a value without
/// a text; a value that was seen before never is.
pub proof fn law_too_many_values_are_refused(
    seen: Seq<Option<Seq<char>>>,
    c: Cell,
    label: Seq<char>,
    o: RenderOptions,
)
    ensures
        csv_of(c, o) is Refused ==> count_cell(seen, c, label, o) == Err::<
            Seq<Option<Seq<char>>>,
            Stop,
        >(Stop::Type(label)),
        csv_of(c, o) matches CsvModel::Text(t) ==> (seen.contains(Some(t)) ==> count_cell(
            seen,
            c,
            label,
            o,
        ) == Ok::<Seq<Option<Seq<char>>>, Stop>(seen.push(Some(t)))),
        csv_of(c, o) matches CsvModel::Text(t) ==> (!seen.contains(Some(t)) && firsts(seen).len()
            >= 1_000_000 ==> count_cell(seen, c, label, o) == Err::<Seq<Option<Seq<char>>>, Stop>(
            Stop::Cardinality,
        )),
        csv_of(c, o) is Empty ==> count_cell(seen, c, label, o) == Ok::<
            Seq<Option<Seq<char>>>,
            Stop,
        >(seen.push(None)),
{
    if let CsvModel::Text(t) = csv_of(c, o) {
        lemma_first_seen(seen, t);
    }
}

} // verus!
