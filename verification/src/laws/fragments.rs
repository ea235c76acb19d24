//! Changes of fragments and indices, held against the two versions.
use vstd::prelude::*;

use crate::commands::lance::deltas::{
    added_rows, deleted_rows, has_id, ids_only_in, index_names, last_with_id, live_rows,
    names_only_in, rewritten_ids, rows_only_in, FragmentDelta, IndexDelta, RowDelta,
};
use crate::dataset::{FragmentInfo, IndexInfo};
use crate::sort::number_order;
use crate::text::texts;

verus! {

/// The rows that a fragment still has.
pub open spec fn rows_of(f: FragmentInfo) -> nat {
    if f.deleted_rows <= f.physical_rows {
        (f.physical_rows - f.deleted_rows) as nat
    } else {
        0
    }
}

/// The rows that fragments still have together.
pub open spec fn all_rows_of(fragments: Seq<FragmentInfo>) -> nat
    decreases fragments.len(),
{
    if fragments.len() == 0 {
        0
    } else {
        rows_of(fragments[0]) + all_rows_of(fragments.drop_first())
    }
}

proof fn lemma_all_rows_push(fragments: Seq<FragmentInfo>, f: FragmentInfo)
    ensures
        all_rows_of(fragments.push(f)) == all_rows_of(fragments) + rows_of(f),
    decreases fragments.len(),
{
    let all = fragments.push(f);
    if fragments.len() == 0 {
        reveal_with_fuel(all_rows_of, 2);
        assert(all.drop_first() =~= Seq::empty());
    } else {
        lemma_all_rows_push(fragments.drop_first(), f);
        assert(all.drop_first() =~= fragments.drop_first().push(f));
    }
}

proof fn lemma_live(fragments: Seq<FragmentInfo>)
    ensures
        live_rows(fragments) == all_rows_of(fragments),
    decreases fragments.len(),
{
    if fragments.len() > 0 {
        let init = fragments.drop_last();
        lemma_live(init);
        lemma_all_rows_push(init, fragments.last());
        assert(init.push(fragments.last()) =~= fragments);
    }
}

/// The rows of a version are those that its fragments still have.
pub proof fn law_versions_have_the_rows_of_their_fragments(
    d: RowDelta,
    from: Seq<FragmentInfo>,
    to: Seq<FragmentInfo>,
)
    requires
        d.compares(from, to),
    ensures
        d.from_rows == all_rows_of(from),
        d.to_rows == all_rows_of(to),
{
    lemma_live(from);
    lemma_live(to);
}

/// True where some fragment has the number.
pub open spec fn numbered(fragments: Seq<FragmentInfo>, id: u64) -> bool {
    exists|i: int| 0 <= i < fragments.len() && (#[trigger] fragments[i]).id == id
}

proof fn lemma_numbered(fragments: Seq<FragmentInfo>, id: u64)
    ensures
        has_id(fragments, id) <==> numbered(fragments, id),
        has_id(fragments, id) ==> last_with_id(fragments, id) < fragments.len() && fragments[last_with_id(
            fragments,
            id,
        )].id == id,
    decreases fragments.len(),
{
    if fragments.len() > 0 {
        let init = fragments.drop_last();
        lemma_numbered(init, id);
        if numbered(init, id) {
            let i = choose|i: int| 0 <= i < init.len() && (#[trigger] init[i]).id == id;
            assert(fragments[i].id == id);
        }
        if numbered(fragments, id) && fragments.last().id != id {
            let i = choose|i: int| 0 <= i < fragments.len() && (#[trigger] fragments[i]).id == id;
            assert(init[i].id == id);
        }
        if fragments.last().id == id {
            assert(fragments[fragments.len() - 1].id == id);
        }
    }
}

/// A further fragment in the second version adds its rows where its number is new.
pub proof fn law_new_fragment_adds_its_rows(
    from: Seq<FragmentInfo>,
    to: Seq<FragmentInfo>,
    f: FragmentInfo,
)
    requires
        !numbered(from, f.id),
    ensures
        added_rows(from, to.push(f)) == added_rows(from, to) + rows_of(f),
        deleted_rows(from, to.push(f)) == deleted_rows(from, to),
        added_rows(from, Seq::empty()) == 0,
        deleted_rows(from, Seq::empty()) == all_rows_of(from),
{
    lemma_numbered(from, f.id);
    let all = to.push(f);
    assert(all.drop_last() =~= to);
    lemma_rows_only_in_more(from, to, f);
    lemma_rows_without(from);
}

proof fn lemma_rows_only_in_more(a: Seq<FragmentInfo>, to: Seq<FragmentInfo>, f: FragmentInfo)
    requires
        !numbered(a, f.id),
    ensures
        rows_only_in(a, to.push(f)) == rows_only_in(a, to),
    decreases a.len(),
{
    if a.len() > 0 {
        let init = a.drop_last();
        assert(!numbered(init, f.id)) by {
            if numbered(init, f.id) {
                let i = choose|i: int| 0 <= i < init.len() && (#[trigger] init[i]).id == f.id;
                assert(a[i].id == f.id);
            }
        }
        lemma_rows_only_in_more(init, to, f);
        assert(a[a.len() - 1].id != f.id);
        assert(to.push(f).drop_last() =~= to);
    }
}

proof fn lemma_rows_without(a: Seq<FragmentInfo>)
    ensures
        rows_only_in(a, Seq::empty()) == all_rows_of(a),
    decreases a.len(),
{
    if a.len() > 0 {
        let init = a.drop_last();
        lemma_rows_without(init);
        lemma_all_rows_push(init, a.last());
        assert(init.push(a.last()) =~= a);
    }
}

/// A fragment that both versions have, at the end of the second and nowhere else in
/// it, adds the rows that are no longer marked as deleted and deletes those that now
/// are.
pub proof fn law_kept_fragment_changes_by_its_marks(
    from: Seq<FragmentInfo>,
    to: Seq<FragmentInfo>,
    old: int,
    f: FragmentInfo,
)
    requires
        0 <= old < from.len(),
        from[old].id == f.id,
        forall|i: int| 0 <= i < from.len() && i != old ==> (#[trigger] from[i]).id != f.id,
        !numbered(to, f.id),
    ensures
        f.deleted_rows >= from[old].deleted_rows ==> added_rows(from, to.push(f)) == added_rows(
            from,
            to,
        ) && deleted_rows(from, to.push(f)) + rows_of(from[old]) == deleted_rows(from, to) + (
        f.deleted_rows - from[old].deleted_rows),
        f.deleted_rows <= from[old].deleted_rows ==> added_rows(from, to.push(f)) == added_rows(
            from,
            to,
        ) + (from[old].deleted_rows - f.deleted_rows) && deleted_rows(from, to.push(f)) + rows_of(
            from[old],
        ) == deleted_rows(from, to),
{
    lemma_numbered(from, f.id);
    assert(numbered(from, f.id)) by {
        assert(from[old].id == f.id);
    }
    let at = last_with_id(from, f.id);
    assert(at == old);
    let all = to.push(f);
    assert(all.drop_last() =~= to);
    lemma_one_less(from, to, old, f);
}

proof fn lemma_one_less(a: Seq<FragmentInfo>, to: Seq<FragmentInfo>, old: int, f: FragmentInfo)
    requires
        0 <= old < a.len(),
        a[old].id == f.id,
        forall|i: int| 0 <= i < a.len() && i != old ==> (#[trigger] a[i]).id != f.id,
        !numbered(to, f.id),
    ensures
        rows_only_in(a, to.push(f)) + rows_of(a[old]) == rows_only_in(a, to),
    decreases a.len(),
{
    let init = a.drop_last();
    assert(to.push(f).drop_last() =~= to);
    lemma_numbered(to, f.id);
    if old == a.len() - 1 {
        assert(!numbered(init, f.id)) by {
            if numbered(init, f.id) {
                let i = choose|i: int| 0 <= i < init.len() && (#[trigger] init[i]).id == f.id;
                assert(a[i].id == f.id);
            }
        }
        lemma_rows_only_in_more(init, to, f);
        lemma_numbered(to.push(f), f.id);
        assert(to.push(f)[to.len() as int].id == f.id);
    } else {
        assert forall|i: int| 0 <= i < init.len() && i != old implies (#[trigger] init[i]).id
            != f.id by {
            assert(a[i].id != f.id);
        }
        lemma_one_less(init, to, old, f);
        assert(a[a.len() - 1].id != f.id);
    }
}

proof fn lemma_ids_only_in(a: Seq<FragmentInfo>, b: Seq<FragmentInfo>, id: u64)
    ensures
        ids_only_in(a, b).contains(id) <==> numbered(a, id) && !numbered(b, id),
    decreases a.len(),
{
    lemma_numbered(b, id);
    if a.len() > 0 {
        let init = a.drop_last();
        lemma_ids_only_in(init, b, id);
        let before = ids_only_in(init, b);
        let after = ids_only_in(a, b);
        if before.contains(id) {
            let i = choose|i: int| 0 <= i < before.len() && before[i] == id;
            assert(after[i] == id);
        }
        if after.contains(id) && !before.contains(id) {
            let i = choose|i: int| 0 <= i < after.len() && after[i] == id;
            if i < before.len() {
                assert(before[i] == id);
            }
            assert(a[a.len() - 1].id == id);
        }
        if numbered(init, id) {
            let i = choose|i: int| 0 <= i < init.len() && (#[trigger] init[i]).id == id;
            assert(a[i].id == id);
        }
        if numbered(a, id) && !numbered(init, id) {
            let i = choose|i: int| 0 <= i < a.len() && (#[trigger] a[i]).id == id;
            if i < init.len() {
                assert(init[i].id == id);
            }
            assert(a.last().id == id);
            if !numbered(b, id) {
                assert(after[after.len() - 1] == id);
            }
        }
    }
}

/// A fragment is told as added where only the second version has its number, and as
/// removed where only the first has.
pub proof fn law_fragments_are_told_by_number(
    d: FragmentDelta,
    from: Seq<FragmentInfo>,
    to: Seq<FragmentInfo>,
    id: u64,
)
    requires
        d.compares(from, to),
    ensures
        d.added@.contains(id) <==> numbered(to, id) && !numbered(from, id),
        d.removed@.contains(id) <==> numbered(from, id) && !numbered(to, id),
{
    lemma_ids_only_in(to, from, id);
    lemma_ids_only_in(from, to, id);
}

/// True where both versions have a fragment of the number, with other data files.
pub open spec fn changed_files(from: Seq<FragmentInfo>, to: Seq<FragmentInfo>, id: u64) -> bool {
    exists|i: int, j: int|
        0 <= i < from.len() && 0 <= j < to.len() && (#[trigger] from[i]).id == id && (
        #[trigger] to[j]).id == id && texts(from[i].files@).to_multiset() != texts(
            to[j].files@,
        ).to_multiset()
}

/// True of fragments with different numbers.
pub open spec fn own_numbers(fragments: Seq<FragmentInfo>) -> bool {
    forall|i: int, j: int|
        0 <= i < j < fragments.len() ==> (#[trigger] fragments[i]).id != (
        #[trigger] fragments[j]).id
}

proof fn lemma_rewritten(from: Seq<FragmentInfo>, to: Seq<FragmentInfo>, id: u64)
    requires
        own_numbers(from),
    ensures
        rewritten_ids(from, to).contains(id) <==> changed_files(from, to, id),
    decreases to.len(),
{
    if to.len() > 0 {
        let init = to.drop_last();
        let n = to.len() - 1;
        lemma_rewritten(from, init, id);
        lemma_numbered(from, to.last().id);
        let before = rewritten_ids(from, init);
        let after = rewritten_ids(from, to);
        if before.contains(id) {
            let i = choose|i: int| 0 <= i < before.len() && before[i] == id;
            assert(after[i] == id);
        }
        if after.contains(id) && !before.contains(id) {
            let k = choose|k: int| 0 <= k < after.len() && after[k] == id;
            if k < before.len() {
                assert(before[k] == id);
            }
            let i = last_with_id(from, id);
            assert(from[i].id == id && to[n].id == id);
        }
        if changed_files(from, init, id) {
            let (i, j) = choose|i: int, j: int|
                0 <= i < from.len() && 0 <= j < init.len() && (#[trigger] from[i]).id == id && (
                #[trigger] init[j]).id == id && texts(from[i].files@).to_multiset() != texts(
                    init[j].files@,
                ).to_multiset();
            assert(to[j].id == id);
        }
        if changed_files(from, to, id) && !changed_files(from, init, id) {
            let (i, j) = choose|i: int, j: int|
                0 <= i < from.len() && 0 <= j < to.len() && (#[trigger] from[i]).id == id && (
                #[trigger] to[j]).id == id && texts(from[i].files@).to_multiset() != texts(
                    to[j].files@,
                ).to_multiset();
            if j < init.len() {
                assert(init[j].id == id);
            }
            assert(j == n);
            assert(numbered(from, id));
            let at = last_with_id(from, id);
            if at < i {
                assert(from[at].id != from[i].id);
            } else if i < at {
                assert(from[i].id != from[at].id);
            }
            assert(after[after.len() - 1] == id);
        }
    }
}

/// A fragment is told as rewritten exactly where both versions have it with other
/// data files. The numbers are in ascending order.
pub proof fn law_rewritten_fragments_have_other_files(
    d: FragmentDelta,
    from: Seq<FragmentInfo>,
    to: Seq<FragmentInfo>,
    id: u64,
)
    requires
        d.compares(from, to),
        own_numbers(from),
    ensures
        d.rewritten@.contains(id) <==> changed_files(from, to, id),
        forall|i: int, j: int|
            0 <= i < j < d.rewritten@.len() ==> #[trigger] d.rewritten@[i] <= #[trigger] d.rewritten@[j],
{
    broadcast use vstd::seq_lib::group_to_multiset_ensures;

    lemma_rewritten(from, to, id);
    let plain = rewritten_ids(from, to);
    let le = number_order();
    assert(vstd::relations::total_ordering(le)) by {
        assert(vstd::relations::reflexive(le));
        assert(vstd::relations::antisymmetric(le));
        assert(vstd::relations::transitive(le));
        assert(vstd::relations::strongly_connected(le));
    }
    plain.lemma_sort_by_ensures(le);
    assert(plain.contains(id) <==> plain.to_multiset().count(id) > 0);
    assert(d.rewritten@.contains(id) <==> d.rewritten@.to_multiset().count(id) > 0);
    assert forall|i: int, j: int| 0 <= i < j < d.rewritten@.len() implies #[trigger] d.rewritten@[i]
        <= #[trigger] d.rewritten@[j] by {
        assert(le(d.rewritten@[i], d.rewritten@[j]));
    }
}

proof fn lemma_names_only_in(a: Seq<Seq<char>>, b: Seq<Seq<char>>, name: Seq<char>)
    ensures
        names_only_in(a, b).contains(name) <==> a.contains(name) && !b.contains(name),
    decreases a.len(),
{
    if a.len() > 0 {
        let init = a.drop_last();
        lemma_names_only_in(init, b, name);
        let before = names_only_in(init, b);
        let after = names_only_in(a, b);
        if before.contains(name) {
            let i = choose|i: int| 0 <= i < before.len() && before[i] == name;
            assert(after[i] == name);
        }
        if after.contains(name) && !before.contains(name) {
            let i = choose|i: int| 0 <= i < after.len() && after[i] == name;
            if i < before.len() {
                assert(before[i] == name);
            }
            assert(a[a.len() - 1] == name);
        }
        if init.contains(name) {
            let i = choose|i: int| 0 <= i < init.len() && init[i] == name;
            assert(a[i] == name);
        }
        if a.contains(name) && !init.contains(name) {
            let i = choose|i: int| 0 <= i < a.len() && a[i] == name;
            if i < init.len() {
                assert(init[i] == name);
            }
            assert(a.last() == name);
            if !b.contains(name) {
                assert(after[after.len() - 1] == name);
            }
        }
    }
}

/// True where some index has the name.
pub open spec fn indexed(indices: Seq<IndexInfo>, name: Seq<char>) -> bool {
    exists|i: int| 0 <= i < indices.len() && (#[trigger] indices[i]).name@ == name
}

proof fn lemma_indexed(indices: Seq<IndexInfo>, name: Seq<char>)
    ensures
        index_names(indices).contains(name) <==> indexed(indices, name),
{
    let all = index_names(indices);
    if all.contains(name) {
        let i = choose|i: int| 0 <= i < all.len() && all[i] == name;
        assert(indices[i].name@ == name);
    }
    if indexed(indices, name) {
        let i = choose|i: int| 0 <= i < indices.len() && (#[trigger] indices[i]).name@ == name;
        assert(all[i] == name);
    }
}

/// An index is told as created where only the second version has its name, and as
/// dropped where only the first has.
pub proof fn law_indices_are_told_by_name(
    d: IndexDelta,
    from: Seq<IndexInfo>,
    to: Seq<IndexInfo>,
    name: Seq<char>,
)
    requires
        d.compares(from, to),
    ensures
        texts(d.created@).contains(name) <==> indexed(to, name) && !indexed(from, name),
        texts(d.dropped@).contains(name) <==> indexed(from, name) && !indexed(to, name),
{
    lemma_indexed(from, name);
    lemma_indexed(to, name);
    lemma_names_only_in(index_names(to), index_names(from), name);
    lemma_names_only_in(index_names(from), index_names(to), name);
}

} // verus!
