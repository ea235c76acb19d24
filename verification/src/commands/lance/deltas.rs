//! Row, fragment and index differences between two versions of a dataset, from
//! metadata alone.
use std::collections::HashMap;

use vstd::prelude::*;

use crate::dataset::{FragmentInfo, IndexInfo};
use crate::sort::{number_order, sort, text_order, views_of, NumberOrder, TextOrder, Order};
use crate::text::{copy_texts, has_text, same_text, texts};

verus! {

broadcast use vstd::std_specs::hash::group_hash_axioms;

// ---------- fragments by id ----------

/// Position of the last fragment with this id, or -1.
pub open spec fn last_with_id(fragments: Seq<FragmentInfo>, id: u64) -> int
    decreases fragments.len(),
{
    if fragments.len() == 0 {
        -1
    } else if fragments.last().id == id {
        fragments.len() - 1
    } else {
        last_with_id(fragments.drop_last(), id)
    }
}

/// True where some fragment has this id.
pub open spec fn has_id(fragments: Seq<FragmentInfo>, id: u64) -> bool {
    last_with_id(fragments, id) >= 0
}

proof fn lemma_last_with_id(fragments: Seq<FragmentInfo>, id: u64)
    ensures
        -1 <= last_with_id(fragments, id) < fragments.len(),
        has_id(fragments, id) ==> fragments[last_with_id(fragments, id)].id == id,
        has_id(fragments, id) <==> exists|i: int|
            0 <= i < fragments.len() && (#[trigger] fragments[i]).id == id,
    decreases fragments.len(),
{
    if fragments.len() > 0 && fragments.last().id != id {
        let init = fragments.drop_last();
        lemma_last_with_id(init, id);
        if has_id(init, id) {
            let i = choose|i: int| 0 <= i < init.len() && (#[trigger] init[i]).id == id;
            assert(fragments[i].id == id);
        }
        if exists|i: int| 0 <= i < fragments.len() && (#[trigger] fragments[i]).id == id {
            let i = choose|i: int| 0 <= i < fragments.len() && (#[trigger] fragments[i]).id == id;
            assert(init[i].id == id);
        }
    } else if fragments.len() > 0 {
        assert(fragments[fragments.len() - 1].id == id);
    }
}

/// The fragments' positions by id.
fn by_id(fragments: &Vec<FragmentInfo>) -> (r: HashMap<u64, usize>)
    ensures
        forall|id: u64| #[trigger] r@.contains_key(id) <==> has_id(fragments@, id),
        forall|id: u64| #[trigger]
            r@.contains_key(id) ==> r@[id] == last_with_id(fragments@, id) && r@[id]
                < fragments@.len(),
{
    let mut index: HashMap<u64, usize> = HashMap::new();
    let mut i: usize = 0;
    proof {
        assert(fragments@.take(0) =~= Seq::<FragmentInfo>::empty());
    }
    while i < fragments.len()
        invariant
            i <= fragments@.len(),
            forall|id: u64| #[trigger]
                index@.contains_key(id) <==> has_id(fragments@.take(i as int), id),
            forall|id: u64| #[trigger]
                index@.contains_key(id) ==> index@[id] == last_with_id(
                    fragments@.take(i as int),
                    id,
                ),
        decreases fragments@.len() - i,
    {
        proof {
            assert(fragments@.take(i + 1).drop_last() =~= fragments@.take(i as int));
            assert(fragments@.take(i + 1).last() == fragments@[i as int]);
        }
        index.insert(fragments[i].id, i);
        i += 1;
    }
    proof {
        assert(fragments@.take(fragments@.len() as int) =~= fragments@);
        assert forall|id: u64| #[trigger] index@.contains_key(id) implies index@[id]
            < fragments@.len() by {
            lemma_last_with_id(fragments@, id);
        }
    }
    index
}

// ---------- rows ----------

/// Rows of a fragment that are not deleted.
pub open spec fn live(f: FragmentInfo) -> nat {
    if f.physical_rows >= f.deleted_rows {
        (f.physical_rows - f.deleted_rows) as nat
    } else {
        0
    }
}

/// Rows deleted in `new` that were not in `old`.
pub open spec fn newly_deleted(new: FragmentInfo, old: FragmentInfo) -> nat {
    if new.deleted_rows > old.deleted_rows {
        (new.deleted_rows - old.deleted_rows) as nat
    } else {
        0
    }
}

/// Live rows of all fragments.
pub open spec fn live_rows(fragments: Seq<FragmentInfo>) -> nat
    decreases fragments.len(),
{
    if fragments.len() == 0 {
        0
    } else {
        live_rows(fragments.drop_last()) + live(fragments.last())
    }
}

/// Live rows of the fragments of `a` whose ids `b` does not have.
pub open spec fn rows_only_in(a: Seq<FragmentInfo>, b: Seq<FragmentInfo>) -> nat
    decreases a.len(),
{
    if a.len() == 0 {
        0
    } else {
        rows_only_in(a.drop_last(), b) + if has_id(b, a.last().id) {
            0nat
        } else {
            live(a.last())
        }
    }
}

/// The sum of `g` over the fragments of `a` that `b` has too, each with its
/// counterpart.
pub open spec fn shared_sum(
    a: Seq<FragmentInfo>,
    b: Seq<FragmentInfo>,
    g: spec_fn(FragmentInfo, FragmentInfo) -> nat,
) -> nat
    decreases a.len(),
{
    if a.len() == 0 {
        0
    } else {
        shared_sum(a.drop_last(), b, g) + if has_id(b, a.last().id) {
            g(a.last(), b[last_with_id(b, a.last().id)])
        } else {
            0nat
        }
    }
}

pub open spec fn deleted_since() -> spec_fn(FragmentInfo, FragmentInfo) -> nat {
    |new: FragmentInfo, old: FragmentInfo| newly_deleted(new, old)
}

pub open spec fn restored_since() -> spec_fn(FragmentInfo, FragmentInfo) -> nat {
    |new: FragmentInfo, old: FragmentInfo| newly_deleted(old, new)
}

/// Live rows of fragments that are new, and rows undeleted on fragments that stayed.
pub open spec fn added_rows(from: Seq<FragmentInfo>, to: Seq<FragmentInfo>) -> nat {
    rows_only_in(to, from) + shared_sum(to, from, restored_since())
}

/// Live rows of fragments that are gone, and rows deleted on fragments that stayed.
pub open spec fn deleted_rows(from: Seq<FragmentInfo>, to: Seq<FragmentInfo>) -> nat {
    rows_only_in(from, to) + shared_sum(to, from, deleted_since())
}

/// How the rows changed.
#[derive(Debug)]
pub struct RowDelta {
    pub from_rows: u64,
    pub to_rows: u64,
    pub added: u64,
    pub deleted: u64,
}

/// True where all row counts of a comparison fit in 64 bits.
pub open spec fn countable_rows(from: Seq<FragmentInfo>, to: Seq<FragmentInfo>) -> bool {
    live_rows(from) <= u64::MAX && live_rows(to) <= u64::MAX && added_rows(from, to) <= u64::MAX
        && deleted_rows(from, to) <= u64::MAX
}

impl RowDelta {
    pub open spec fn compares(&self, from: Seq<FragmentInfo>, to: Seq<FragmentInfo>) -> bool {
        &&& self.from_rows == live_rows(from)
        &&& self.to_rows == live_rows(to)
        &&& self.added == added_rows(from, to)
        &&& self.deleted == deleted_rows(from, to)
    }
}

fn live_of(f: &FragmentInfo) -> (r: u64)
    ensures
        r == live(*f),
{
    if f.physical_rows >= f.deleted_rows {
        f.physical_rows - f.deleted_rows
    } else {
        0
    }
}

proof fn lemma_live_rows_prefix(fragments: Seq<FragmentInfo>, n: int)
    requires
        0 <= n <= fragments.len(),
    ensures
        live_rows(fragments.take(n)) <= live_rows(fragments),
    decreases fragments.len() - n,
{
    if n < fragments.len() {
        lemma_live_rows_prefix(fragments, n + 1);
        assert(fragments.take(n + 1).drop_last() =~= fragments.take(n));
    } else {
        assert(fragments.take(n) =~= fragments);
    }
}

proof fn lemma_rows_only_prefix(a: Seq<FragmentInfo>, b: Seq<FragmentInfo>, n: int)
    requires
        0 <= n <= a.len(),
    ensures
        rows_only_in(a.take(n), b) <= rows_only_in(a, b),
    decreases a.len() - n,
{
    if n < a.len() {
        lemma_rows_only_prefix(a, b, n + 1);
        assert(a.take(n + 1).drop_last() =~= a.take(n));
    } else {
        assert(a.take(n) =~= a);
    }
}

proof fn lemma_shared_prefix(
    a: Seq<FragmentInfo>,
    b: Seq<FragmentInfo>,
    g: spec_fn(FragmentInfo, FragmentInfo) -> nat,
    n: int,
)
    requires
        0 <= n <= a.len(),
    ensures
        shared_sum(a.take(n), b, g) <= shared_sum(a, b, g),
    decreases a.len() - n,
{
    if n < a.len() {
        lemma_shared_prefix(a, b, g, n + 1);
        assert(a.take(n + 1).drop_last() =~= a.take(n));
    } else {
        assert(a.take(n) =~= a);
    }
}

fn sum_live(fragments: &Vec<FragmentInfo>) -> (r: u64)
    requires
        live_rows(fragments@) <= u64::MAX,
    ensures
        r == live_rows(fragments@),
{
    let mut total: u64 = 0;
    let mut i: usize = 0;
    proof {
        assert(fragments@.take(0) =~= Seq::<FragmentInfo>::empty());
    }
    while i < fragments.len()
        invariant
            i <= fragments@.len(),
            live_rows(fragments@) <= u64::MAX,
            total == live_rows(fragments@.take(i as int)),
        decreases fragments@.len() - i,
    {
        proof {
            lemma_live_rows_prefix(fragments@, i + 1);
            assert(fragments@.take(i + 1).drop_last() =~= fragments@.take(i as int));
            assert(fragments@.take(i + 1).last() == fragments@[i as int]);
        }
        total = total + live_of(&fragments[i]);
        i += 1;
    }
    proof {
        assert(fragments@.take(fragments@.len() as int) =~= fragments@);
    }
    total
}

fn sum_only_in(a: &Vec<FragmentInfo>, b: &Vec<FragmentInfo>, index: &HashMap<u64, usize>) -> (r:
    u64)
    requires
        rows_only_in(a@, b@) <= u64::MAX,
        forall|id: u64| #[trigger] index@.contains_key(id) <==> has_id(b@, id),
    ensures
        r == rows_only_in(a@, b@),
{
    let mut total: u64 = 0;
    let mut i: usize = 0;
    proof {
        assert(a@.take(0) =~= Seq::<FragmentInfo>::empty());
    }
    while i < a.len()
        invariant
            i <= a@.len(),
            rows_only_in(a@, b@) <= u64::MAX,
            forall|id: u64| #[trigger] index@.contains_key(id) <==> has_id(b@, id),
            total == rows_only_in(a@.take(i as int), b@),
        decreases a@.len() - i,
    {
        proof {
            lemma_rows_only_prefix(a@, b@, i + 1);
            assert(a@.take(i + 1).drop_last() =~= a@.take(i as int));
            assert(a@.take(i + 1).last() == a@[i as int]);
        }
        if !index.contains_key(&a[i].id) {
            total = total + live_of(&a[i]);
        }
        i += 1;
    }
    proof {
        assert(a@.take(a@.len() as int) =~= a@);
    }
    total
}

/// Compare the rows of two versions.
pub fn build_row_delta(from: &Vec<FragmentInfo>, to: &Vec<FragmentInfo>) -> (r: RowDelta)
    requires
        countable_rows(from@, to@),
    ensures
        r.compares(from@, to@),
{
    let from_by_id = by_id(from);
    let to_by_id = by_id(to);
    let from_rows: u64 = sum_live(from);
    let to_rows: u64 = sum_live(to);
    let added_frag_rows: u64 = sum_only_in(to, from, &from_by_id);
    let removed_frag_rows: u64 = sum_only_in(from, to, &to_by_id);
    let mut new_tombstones: u64 = 0;
    let mut restored_tombstones: u64 = 0;
    let mut i: usize = 0;
    proof {
        assert(to@.take(0) =~= Seq::<FragmentInfo>::empty());
    }
    while i < to.len()
        invariant
            i <= to@.len(),
            countable_rows(from@, to@),
            forall|id: u64| #[trigger] from_by_id@.contains_key(id) <==> has_id(from@, id),
            forall|id: u64| #[trigger]
                from_by_id@.contains_key(id) ==> from_by_id@[id] == last_with_id(from@, id)
                    && from_by_id@[id] < from@.len(),
            new_tombstones == shared_sum(to@.take(i as int), from@, deleted_since()),
            restored_tombstones == shared_sum(to@.take(i as int), from@, restored_since()),
        decreases to@.len() - i,
    {
        proof {
            lemma_shared_prefix(to@, from@, deleted_since(), i + 1);
            lemma_shared_prefix(to@, from@, restored_since(), i + 1);
            assert(to@.take(i + 1).drop_last() =~= to@.take(i as int));
            assert(to@.take(i + 1).last() == to@[i as int]);
        }
        let f = &to[i];
        if let Some(at) = from_by_id.get(&f.id) {
            let old = &from[*at];
            if f.deleted_rows > old.deleted_rows {
                new_tombstones = new_tombstones + (f.deleted_rows - old.deleted_rows);
            }
            if old.deleted_rows > f.deleted_rows {
                restored_tombstones = restored_tombstones + (old.deleted_rows - f.deleted_rows);
            }
        }
        i += 1;
    }
    proof {
        assert(to@.take(to@.len() as int) =~= to@);
    }
    RowDelta {
        from_rows,
        to_rows,
        added: added_frag_rows + restored_tombstones,
        deleted: removed_frag_rows + new_tombstones,
    }
}

// ---------- fragments ----------

/// The ids of the fragments of `a` that `b` does not have.
pub open spec fn ids_only_in(a: Seq<FragmentInfo>, b: Seq<FragmentInfo>) -> Seq<u64>
    decreases a.len(),
{
    if a.len() == 0 {
        Seq::empty()
    } else if has_id(b, a.last().id) {
        ids_only_in(a.drop_last(), b)
    } else {
        ids_only_in(a.drop_last(), b).push(a.last().id)
    }
}

/// True where two fragments have different data files, in whatever order.
pub open spec fn files_differ(a: FragmentInfo, b: FragmentInfo) -> bool {
    texts(a.files@).to_multiset() != texts(b.files@).to_multiset()
}

/// The ids of the fragments that both have with different data files, in the order
/// of `to`.
pub open spec fn rewritten_ids(from: Seq<FragmentInfo>, to: Seq<FragmentInfo>) -> Seq<u64>
    decreases to.len(),
{
    if to.len() == 0 {
        Seq::empty()
    } else {
        let id = to.last().id;
        if has_id(from, id) && files_differ(to.last(), from[last_with_id(from, id)]) {
            rewritten_ids(from, to.drop_last()).push(id)
        } else {
            rewritten_ids(from, to.drop_last())
        }
    }
}

/// How the fragments changed, by id.
#[derive(Debug)]
pub struct FragmentDelta {
    pub added: Vec<u64>,
    pub removed: Vec<u64>,
    /// In ascending order.
    pub rewritten: Vec<u64>,
}

impl FragmentDelta {
    pub open spec fn compares(&self, from: Seq<FragmentInfo>, to: Seq<FragmentInfo>) -> bool {
        &&& self.added@ == ids_only_in(to, from)
        &&& self.removed@ == ids_only_in(from, to)
        &&& self.rewritten@ == rewritten_ids(from, to).sort_by(number_order())
    }
}

fn collect_only_in(a: &Vec<FragmentInfo>, b: &Vec<FragmentInfo>, index: &HashMap<u64, usize>) -> (r:
    Vec<u64>)
    requires
        forall|id: u64| #[trigger] index@.contains_key(id) <==> has_id(b@, id),
    ensures
        r@ == ids_only_in(a@, b@),
{
    let mut out: Vec<u64> = Vec::new();
    let mut i: usize = 0;
    proof {
        assert(a@.take(0) =~= Seq::<FragmentInfo>::empty());
    }
    while i < a.len()
        invariant
            i <= a@.len(),
            forall|id: u64| #[trigger] index@.contains_key(id) <==> has_id(b@, id),
            out@ == ids_only_in(a@.take(i as int), b@),
        decreases a@.len() - i,
    {
        proof {
            assert(a@.take(i + 1).drop_last() =~= a@.take(i as int));
            assert(a@.take(i + 1).last() == a@[i as int]);
        }
        if !index.contains_key(&a[i].id) {
            out.push(a[i].id);
        }
        i += 1;
    }
    proof {
        assert(a@.take(a@.len() as int) =~= a@);
    }
    out
}

fn same_lists(a: &Vec<String>, b: &Vec<String>) -> (r: bool)
    ensures
        r == (texts(a@) == texts(b@)),
{
    if a.len() != b.len() {
        proof {
            assert(texts(a@).len() != texts(b@).len());
        }
        return false;
    }
    let mut i: usize = 0;
    while i < a.len()
        invariant
            i <= a@.len(),
            a@.len() == b@.len(),
            forall|j: int| 0 <= j < i ==> #[trigger] texts(a@)[j] == texts(b@)[j],
        decreases a@.len() - i,
    {
        proof {
            assert(texts(a@)[i as int] == a@[i as int]@);
            assert(texts(b@)[i as int] == b@[i as int]@);
        }
        if !same_text(a[i].as_str(), b[i].as_str()) {
            return false;
        }
        i += 1;
    }
    proof {
        assert(texts(a@) =~= texts(b@));
    }
    true
}

/// True where two fragments have different data files.
pub fn file_set_differs(a: &FragmentInfo, b: &FragmentInfo) -> (r: bool)
    ensures
        r == files_differ(*a, *b),
{
    let fa = sort(copy_texts(a.files.as_slice()), &TextOrder);
    let fb = sort(copy_texts(b.files.as_slice()), &TextOrder);
    proof {
        let x = texts(a.files@);
        let y = texts(b.files@);
        TextOrder.lemma_total();
        x.lemma_sort_by_ensures(text_order());
        y.lemma_sort_by_ensures(text_order());
        assert(views_of(a.files@) =~= x);
        assert(views_of(b.files@) =~= y);
        assert(views_of(fa@) =~= texts(fa@));
        assert(views_of(fb@) =~= texts(fb@));
        if x.to_multiset() == y.to_multiset() {
            vstd::seq_lib::lemma_sorted_unique(
                x.sort_by(text_order()),
                y.sort_by(text_order()),
                text_order(),
            );
        }
    }
    !same_lists(&fa, &fb)
}

/// Compare the fragments of two versions.
pub fn build_fragment_delta(from: &Vec<FragmentInfo>, to: &Vec<FragmentInfo>) -> (r: FragmentDelta)
    ensures
        r.compares(from@, to@),
{
    let from_by_id = by_id(from);
    let to_by_id = by_id(to);
    let added = collect_only_in(to, from, &from_by_id);
    let removed = collect_only_in(from, to, &to_by_id);
    let mut rewritten: Vec<u64> = Vec::new();
    let mut i: usize = 0;
    proof {
        assert(to@.take(0) =~= Seq::<FragmentInfo>::empty());
    }
    while i < to.len()
        invariant
            i <= to@.len(),
            forall|id: u64| #[trigger] from_by_id@.contains_key(id) <==> has_id(from@, id),
            forall|id: u64| #[trigger]
                from_by_id@.contains_key(id) ==> from_by_id@[id] == last_with_id(from@, id)
                    && from_by_id@[id] < from@.len(),
            rewritten@ == rewritten_ids(from@, to@.take(i as int)),
        decreases to@.len() - i,
    {
        proof {
            assert(to@.take(i + 1).drop_last() =~= to@.take(i as int));
            assert(to@.take(i + 1).last() == to@[i as int]);
        }
        if let Some(at) = from_by_id.get(&to[i].id) {
            if file_set_differs(&to[i], &from[*at]) {
                rewritten.push(to[i].id);
            }
        }
        i += 1;
    }
    proof {
        assert(to@.take(to@.len() as int) =~= to@);
        assert(views_of(rewritten@) =~= rewritten@);
    }
    let rewritten = sort(rewritten, &NumberOrder);
    proof {
        assert(views_of(rewritten@) =~= rewritten@);
    }
    FragmentDelta { added, removed, rewritten }
}

// ---------- indices ----------

/// The names of the indices.
pub open spec fn index_names(indices: Seq<IndexInfo>) -> Seq<Seq<char>> {
    indices.map_values(|i: IndexInfo| i.name@)
}

/// The names in `a` that `b` does not have.
pub open spec fn names_only_in(a: Seq<Seq<char>>, b: Seq<Seq<char>>) -> Seq<Seq<char>>
    decreases a.len(),
{
    if a.len() == 0 {
        Seq::empty()
    } else if b.contains(a.last()) {
        names_only_in(a.drop_last(), b)
    } else {
        names_only_in(a.drop_last(), b).push(a.last())
    }
}

/// How the indices changed, by name.
#[derive(Debug)]
pub struct IndexDelta {
    pub created: Vec<String>,
    pub dropped: Vec<String>,
}

impl IndexDelta {
    pub open spec fn compares(&self, from: Seq<IndexInfo>, to: Seq<IndexInfo>) -> bool {
        &&& texts(self.created@) == names_only_in(index_names(to), index_names(from))
        &&& texts(self.dropped@) == names_only_in(index_names(from), index_names(to))
    }
}

fn collect_names(indices: &Vec<IndexInfo>) -> (r: Vec<String>)
    ensures
        texts(r@) == index_names(indices@),
{
    let ghost all = index_names(indices@);
    let mut out: Vec<String> = Vec::new();
    let mut i: usize = 0;
    proof {
        assert(texts(out@) =~= all.take(0));
    }
    while i < indices.len()
        invariant
            all == index_names(indices@),
            i <= indices@.len(),
            texts(out@) == all.take(i as int),
        decreases indices@.len() - i,
    {
        let ghost before = out@;
        out.push(indices[i].name.clone());
        proof {
            assert(texts(out@) =~= texts(before).push(all[i as int]));
            assert(all.take(i + 1) =~= all.take(i as int).push(all[i as int]));
        }
        i += 1;
    }
    proof {
        assert(all.take(all.len() as int) =~= all);
    }
    out
}

fn collect_names_only_in(a: &Vec<String>, b: &Vec<String>) -> (r: Vec<String>)
    ensures
        texts(r@) == names_only_in(texts(a@), texts(b@)),
{
    let ghost left = texts(a@);
    let mut out: Vec<String> = Vec::new();
    let mut i: usize = 0;
    proof {
        assert(left.take(0) =~= Seq::<Seq<char>>::empty());
        assert(texts(out@) =~= Seq::<Seq<char>>::empty());
    }
    while i < a.len()
        invariant
            left == texts(a@),
            i <= a@.len(),
            texts(out@) == names_only_in(left.take(i as int), texts(b@)),
        decreases a@.len() - i,
    {
        proof {
            assert(left.take(i + 1).drop_last() =~= left.take(i as int));
            assert(left.take(i + 1).last() == a@[i as int]@);
        }
        if !has_text(b.as_slice(), a[i].as_str()) {
            let ghost before = out@;
            out.push(a[i].clone());
            proof {
                assert(texts(out@) =~= texts(before).push(a@[i as int]@));
            }
        }
        i += 1;
    }
    proof {
        assert(left.take(left.len() as int) =~= left);
    }
    out
}

/// Compare the indices of two versions.
pub fn build_index_delta(from: &Vec<IndexInfo>, to: &Vec<IndexInfo>) -> (r: IndexDelta)
    ensures
        r.compares(from@, to@),
{
    let from_names = collect_names(from);
    let to_names = collect_names(to);
    IndexDelta {
        created: collect_names_only_in(&to_names, &from_names),
        dropped: collect_names_only_in(&from_names, &to_names),
    }
}

// ---------- laws ----------

/// True where no two fragments have the same id.
pub open spec fn distinct_ids(fragments: Seq<FragmentInfo>) -> bool {
    forall|i: int, j: int|
        0 <= i < j < fragments.len() ==> (#[trigger] fragments[i]).id != (
        #[trigger] fragments[j]).id
}

/// True where no fragment has more rows deleted than stored, and fragments that both
/// versions have store the same rows.
pub open spec fn consistent(from: Seq<FragmentInfo>, to: Seq<FragmentInfo>) -> bool {
    &&& forall|i: int|
        0 <= i < from.len() ==> (#[trigger] from[i]).deleted_rows <= from[i].physical_rows
    &&& forall|i: int| 0 <= i < to.len() ==> (#[trigger] to[i]).deleted_rows <= to[i].physical_rows
    &&& forall|i: int, j: int|
        0 <= i < from.len() && 0 <= j < to.len() && (#[trigger] from[i]).id == (
        #[trigger] to[j]).id ==> from[i].physical_rows == to[j].physical_rows
}

/// With distinct ids, the position of an id is the only one.
proof fn lemma_only_position(fragments: Seq<FragmentInfo>, i: int)
    requires
        distinct_ids(fragments),
        0 <= i < fragments.len(),
    ensures
        last_with_id(fragments, fragments[i].id) == i,
{
    let id = fragments[i].id;
    lemma_last_with_id(fragments, id);
    let at = last_with_id(fragments, id);
    assert(fragments[i].id == id);
    if at < i {
        assert(fragments[at].id != fragments[i].id);
    } else if at > i {
        assert(fragments[i].id != fragments[at].id);
    }
}

spec fn flipped(g: spec_fn(FragmentInfo, FragmentInfo) -> nat) -> spec_fn(
    FragmentInfo,
    FragmentInfo,
) -> nat {
    |x: FragmentInfo, y: FragmentInfo| g(y, x)
}

/// The share of one fragment of `b` in the sum over `a`.
spec fn term(
    a: Seq<FragmentInfo>,
    y: FragmentInfo,
    g: spec_fn(FragmentInfo, FragmentInfo) -> nat,
) -> nat {
    if has_id(a, y.id) {
        g(a[last_with_id(a, y.id)], y)
    } else {
        0
    }
}

/// Appending a fragment with a new id to `b` adds its term to the sum over `a`.
proof fn lemma_shared_push(
    a: Seq<FragmentInfo>,
    b: Seq<FragmentInfo>,
    y: FragmentInfo,
    g: spec_fn(FragmentInfo, FragmentInfo) -> nat,
)
    requires
        distinct_ids(a),
        !has_id(b, y.id),
    ensures
        shared_sum(a, b.push(y), g) == shared_sum(a, b, g) + term(a, y, g),
    decreases a.len(),
{
    let c = b.push(y);
    assert(c.drop_last() =~= b);
    if a.len() > 0 {
        let init = a.drop_last();
        let x = a.last();
        assert(distinct_ids(init));
        lemma_shared_push(init, b, y, g);
        lemma_last_with_id(b, x.id);
        lemma_last_with_id(init, y.id);
        lemma_last_with_id(a, y.id);
        if x.id == y.id {
            assert(last_with_id(c, x.id) == b.len());
            assert(c[b.len() as int] == y);
            if has_id(init, y.id) {
                let k = last_with_id(init, y.id);
                assert(a[k].id != a[a.len() - 1].id);
            }
            assert(last_with_id(a, y.id) == a.len() - 1);
        } else {
            assert(last_with_id(c, x.id) == last_with_id(b, x.id));
            if has_id(b, x.id) {
                assert(c[last_with_id(b, x.id)] == b[last_with_id(b, x.id)]);
            }
            assert(last_with_id(a, y.id) == last_with_id(init, y.id));
            if has_id(init, y.id) {
                assert(a[last_with_id(init, y.id)] == init[last_with_id(init, y.id)]);
            }
        }
    }
}

proof fn lemma_shared_empty(
    a: Seq<FragmentInfo>,
    g: spec_fn(FragmentInfo, FragmentInfo) -> nat,
)
    ensures
        shared_sum(a, Seq::empty(), g) == 0,
    decreases a.len(),
{
    if a.len() > 0 {
        lemma_shared_empty(a.drop_last(), g);
    }
}

/// Summing over the shared fragments gives the same from either side.
proof fn lemma_shared_symmetric(
    a: Seq<FragmentInfo>,
    b: Seq<FragmentInfo>,
    g: spec_fn(FragmentInfo, FragmentInfo) -> nat,
)
    requires
        distinct_ids(a),
        distinct_ids(b),
    ensures
        shared_sum(a, b, g) == shared_sum(b, a, flipped(g)),
    decreases b.len(),
{
    if b.len() == 0 {
        assert(b =~= Seq::<FragmentInfo>::empty());
        lemma_shared_empty(a, g);
    } else {
        let init = b.drop_last();
        let y = b.last();
        assert(distinct_ids(init));
        lemma_shared_symmetric(a, init, g);
        lemma_last_with_id(init, y.id);
        if has_id(init, y.id) {
            let k = last_with_id(init, y.id);
            assert(b[k].id != b[b.len() - 1].id);
        }
        lemma_shared_push(a, init, y, g);
        assert(init.push(y) =~= b);
        lemma_last_with_id(a, y.id);
    }
}

spec fn live_of_first() -> spec_fn(FragmentInfo, FragmentInfo) -> nat {
    |x: FragmentInfo, y: FragmentInfo| live(x)
}

proof fn lemma_live_split(a: Seq<FragmentInfo>, b: Seq<FragmentInfo>)
    ensures
        live_rows(a) == rows_only_in(a, b) + shared_sum(a, b, live_of_first()),
    decreases a.len(),
{
    if a.len() > 0 {
        lemma_live_split(a.drop_last(), b);
    }
}

/// On shared fragments, rows gained and rows restored balance rows lost and rows
/// deleted.
proof fn lemma_shared_balance(to: Seq<FragmentInfo>, from: Seq<FragmentInfo>)
    requires
        consistent(from, to),
    ensures
        shared_sum(to, from, live_of_first()) + shared_sum(to, from, deleted_since())
            == shared_sum(to, from, flipped(live_of_first())) + shared_sum(
            to,
            from,
            restored_since(),
        ),
    decreases to.len(),
{
    if to.len() > 0 {
        let init = to.drop_last();
        assert(consistent(from, init)) by {
            assert forall|i: int| 0 <= i < init.len() implies (#[trigger] init[i]).deleted_rows
                <= init[i].physical_rows by {
                assert(to[i].deleted_rows <= to[i].physical_rows);
            }
            assert forall|i: int, j: int|
                0 <= i < from.len() && 0 <= j < init.len() && (#[trigger] from[i]).id == (
                #[trigger] init[j]).id implies from[i].physical_rows == init[j].physical_rows by {
                assert(from[i].id == to[j].id);
            }
        }
        lemma_shared_balance(init, from);
        let x = to.last();
        lemma_last_with_id(from, x.id);
        if has_id(from, x.id) {
            let y = from[last_with_id(from, x.id)];
            assert(y.id == x.id);
            assert(to[to.len() - 1].deleted_rows <= to[to.len() - 1].physical_rows);
            assert(y.deleted_rows <= y.physical_rows);
            assert(from[last_with_id(from, x.id)].id == to[to.len() - 1].id);
            assert(y.physical_rows == x.physical_rows);
        }
    }
}

/// The split always reconciles with the net change: rows added less rows deleted are
/// the rows of the second version less those of the first.
pub proof fn law_split_equals_net(d: RowDelta, from: Seq<FragmentInfo>, to: Seq<FragmentInfo>)
    requires
        d.compares(from, to),
        distinct_ids(from),
        distinct_ids(to),
        consistent(from, to),
    ensures
        d.added - d.deleted == d.to_rows - d.from_rows,
{
    lemma_live_split(to, from);
    lemma_live_split(from, to);
    lemma_shared_symmetric(from, to, live_of_first());
    lemma_shared_balance(to, from);
}

/// Turning the comparison round trades rows added for rows deleted.
pub proof fn law_reversed_rows_swap(
    forward: RowDelta,
    backward: RowDelta,
    from: Seq<FragmentInfo>,
    to: Seq<FragmentInfo>,
)
    requires
        forward.compares(from, to),
        backward.compares(to, from),
        distinct_ids(from),
        distinct_ids(to),
    ensures
        forward.added == backward.deleted,
        forward.deleted == backward.added,
        forward.from_rows == backward.to_rows,
        forward.to_rows == backward.from_rows,
{
    lemma_shared_symmetric(to, from, restored_since());
    lemma_shared_symmetric(to, from, deleted_since());
    lemma_same_function(from, to, flipped(restored_since()), deleted_since());
    lemma_same_function(from, to, flipped(deleted_since()), restored_since());
}

proof fn lemma_same_function(
    a: Seq<FragmentInfo>,
    b: Seq<FragmentInfo>,
    g: spec_fn(FragmentInfo, FragmentInfo) -> nat,
    h: spec_fn(FragmentInfo, FragmentInfo) -> nat,
)
    requires
        forall|x: FragmentInfo, y: FragmentInfo| #[trigger] g(x, y) == h(x, y),
    ensures
        shared_sum(a, b, g) == shared_sum(a, b, h),
    decreases a.len(),
{
    if a.len() > 0 {
        lemma_same_function(a.drop_last(), b, g, h);
    }
}

proof fn lemma_self_rows(all: Seq<FragmentInfo>, n: int)
    requires
        distinct_ids(all),
        0 <= n <= all.len(),
    ensures
        rows_only_in(all.take(n), all) == 0,
        shared_sum(all.take(n), all, deleted_since()) == 0,
        shared_sum(all.take(n), all, restored_since()) == 0,
        ids_only_in(all.take(n), all).len() == 0,
        rewritten_ids(all, all.take(n)).len() == 0,
    decreases n,
{
    if n > 0 {
        lemma_self_rows(all, n - 1);
        assert(all.take(n).drop_last() =~= all.take(n - 1));
        lemma_only_position(all, n - 1);
    }
}

/// A version compared with itself has no row and no fragment changes.
pub proof fn law_same_fragments_have_no_delta(
    rows: RowDelta,
    fragments: FragmentDelta,
    all: Seq<FragmentInfo>,
)
    requires
        rows.compares(all, all),
        fragments.compares(all, all),
        distinct_ids(all),
    ensures
        rows.added == 0,
        rows.deleted == 0,
        rows.from_rows == rows.to_rows,
        fragments.added@.len() == 0,
        fragments.removed@.len() == 0,
        fragments.rewritten@.len() == 0,
{
    broadcast use vstd::seq_lib::group_to_multiset_ensures;

    lemma_self_rows(all, all.len() as int);
    assert(all.take(all.len() as int) =~= all);
    let none = rewritten_ids(all, all);
    NumberOrder.lemma_total();
    none.lemma_sort_by_ensures(number_order());
    assert(none.to_multiset().len() == none.len());
    assert(none.sort_by(number_order()).to_multiset().len() == none.sort_by(number_order()).len());
}

proof fn lemma_names_only_in_self(all: Seq<Seq<char>>, n: int)
    requires
        0 <= n <= all.len(),
    ensures
        names_only_in(all.take(n), all).len() == 0,
    decreases n,
{
    if n > 0 {
        lemma_names_only_in_self(all, n - 1);
        assert(all.take(n).drop_last() =~= all.take(n - 1));
        assert(all[n - 1] == all.take(n).last());
        assert(all.contains(all[n - 1]));
    }
}

/// A version compared with itself has no index changes.
pub proof fn law_same_indices_have_no_delta(d: IndexDelta, all: Seq<IndexInfo>)
    requires
        d.compares(all, all),
    ensures
        d.created@.len() == 0,
        d.dropped@.len() == 0,
{
    let names = index_names(all);
    lemma_names_only_in_self(names, names.len() as int);
    assert(names.take(names.len() as int) =~= names);
    assert(texts(d.created@).len() == d.created@.len());
    assert(texts(d.dropped@).len() == d.dropped@.len());
}

} // verus!
