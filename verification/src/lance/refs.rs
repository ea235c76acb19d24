//! The listings of versions, branches and tags.
use vstd::prelude::*;
use vstd::relations::total_ordering;

use crate::dataset::{BranchInfo, Instant, TagInfo, VersionInfo, MAIN_BRANCH};
use crate::json::opt_view;
use crate::lance::adapter::{instant_at, unix_seconds_to_utc};
use crate::sort::{sort, text_order, views_of, Order, TextOrder};
use crate::text::{
    join, join_texts, le, lemma_text_le_antisymmetric, lemma_text_le_reflexive, lemma_text_le_total,
    lemma_text_le_transitive, same_text, text_le, texts,
};

verus! {

/// A version as the dataset records it.
#[derive(Debug)]
pub struct Commit {
    pub version: u64,
    pub timestamp: Instant,
    pub message: Option<String>,
}

/// A tag as the dataset records it: no branch means the default branch.
#[derive(Debug)]
pub struct TagRef {
    pub name: String,
    pub branch: Option<String>,
    pub version: u64,
}

/// A branch as the dataset records it: no parent means the default branch.
#[derive(Debug)]
pub struct BranchRef {
    pub name: String,
    pub parent_branch: Option<String>,
    pub parent_version: u64,
    /// Seconds since the epoch.
    pub created_at: u64,
}

/// The name that a recorded branch stands for.
pub open spec fn named(branch: Option<String>) -> Seq<char> {
    match branch {
        Some(b) => b@,
        None => MAIN_BRANCH@,
    }
}

fn name_of(branch: &Option<String>) -> (r: String)
    ensures
        r@ == named(*branch),
{
    match branch {
        Some(b) => b.clone(),
        None => MAIN_BRANCH.to_owned(),
    }
}

// ---------- order by name ----------

/// A name with the position that it stands at.
struct Placed {
    name: String,
    at: usize,
}

impl View for Placed {
    type V = (Seq<char>, int);

    closed spec fn view(&self) -> (Seq<char>, int) {
        (self.name@, self.at as int)
    }
}

/// Order by name, and by position where names are equal.
pub open spec fn placed_order() -> spec_fn((Seq<char>, int), (Seq<char>, int)) -> bool {
    |a: (Seq<char>, int), b: (Seq<char>, int)|
        if a.0 == b.0 {
            a.1 <= b.1
        } else {
            text_le(a.0, b.0)
        }
}

struct PlacedOrder;

impl Order<Placed> for PlacedOrder {
    closed spec fn relation(&self) -> spec_fn((Seq<char>, int), (Seq<char>, int)) -> bool {
        placed_order()
    }

    proof fn lemma_total(&self) {
        lemma_placed_total();
    }

    fn at_most(&self, a: &Placed, b: &Placed) -> (r: bool) {
        if same_text(a.name.as_str(), b.name.as_str()) {
            a.at <= b.at
        } else {
            le(a.name.as_str(), b.name.as_str())
        }
    }
}

proof fn lemma_placed_total()
    ensures
        total_ordering(placed_order()),
{
    let r = placed_order();
    assert forall|x: (Seq<char>, int), y: (Seq<char>, int)| #[trigger]
        r(x, y) && #[trigger] r(y, x) implies x == y by {
        if x.0 != y.0 {
            lemma_text_le_antisymmetric(x.0, y.0);
        }
    }
    assert forall|x: (Seq<char>, int), y: (Seq<char>, int), z: (Seq<char>, int)| #[trigger]
        r(x, y) && #[trigger] r(y, z) implies r(x, z) by {
        if x.0 != y.0 && y.0 != z.0 {
            lemma_text_le_transitive(x.0, y.0, z.0);
            if x.0 == z.0 {
                lemma_text_le_antisymmetric(x.0, y.0);
            }
        }
    }
    assert forall|x: (Seq<char>, int), y: (Seq<char>, int)| #[trigger]
        r(x, y) || #[trigger] r(y, x) by {
        lemma_text_le_total(x.0, y.0);
    }
}

/// The names with their positions.
pub open spec fn placed(names: Seq<Seq<char>>) -> Seq<(Seq<char>, int)> {
    Seq::new(names.len(), |i: int| (names[i], i))
}

/// The positions of the names in the order of the names. Equal names keep their order.
pub open spec fn by_name(names: Seq<Seq<char>>) -> Seq<int> {
    placed(names).sort_by(placed_order()).map_values(|p: (Seq<char>, int)| p.1)
}

/// Ordering by name loses nothing and adds nothing, and puts the names in order.
pub proof fn law_by_name_is_an_order(names: Seq<Seq<char>>)
    ensures
        by_name(names).len() == names.len(),
        by_name(names).no_duplicates(),
        forall|k: int| 0 <= k < names.len() ==> 0 <= #[trigger] by_name(names)[k] < names.len(),
        forall|j: int, k: int|
            0 <= j <= k < names.len() ==> text_le(
                names[#[trigger] by_name(names)[j]],
                names[#[trigger] by_name(names)[k]],
            ),
{
    broadcast use vstd::seq_lib::group_to_multiset_ensures;

    let all = placed(names);
    let out = all.sort_by(placed_order());
    lemma_placed_total();
    all.lemma_sort_by_ensures(placed_order());
    assert(out.len() == out.to_multiset().len());
    assert(all.len() == all.to_multiset().len());
    assert forall|k: int| 0 <= k < out.len() implies 0 <= (#[trigger] out[k]).1 < names.len()
        && out[k].0 == names[out[k].1] by {
        assert(out.to_multiset().count(out[k]) > 0);
        assert(all.contains(out[k]));
    }
    all.lemma_multiset_has_no_duplicates();
    out.lemma_multiset_has_no_duplicates_conv();
    assert(by_name(names).no_duplicates()) by {
        assert forall|j: int, k: int| 0 <= j < out.len() && 0 <= k < out.len() && j != k implies (
        #[trigger] by_name(names)[j]) != (#[trigger] by_name(names)[k]) by {
            assert(out[j] != out[k]);
        }
    }
    assert forall|j: int, k: int| 0 <= j <= k < names.len() implies text_le(
        names[#[trigger] by_name(names)[j]],
        names[#[trigger] by_name(names)[k]],
    ) by {
        if j == k {
            lemma_text_le_reflexive(names[by_name(names)[j]]);
        } else {
            assert(placed_order()(out[j], out[k]));
            if out[j].0 == out[k].0 {
                lemma_text_le_reflexive(out[j].0);
            }
        }
    }
}

fn positions(names: Vec<String>) -> (r: Vec<usize>)
    ensures
        r@.len() == names@.len(),
        forall|k: int| 0 <= k < r@.len() ==> (#[trigger] r@[k]) as int == by_name(texts(names@))[k],
        forall|k: int| 0 <= k < r@.len() ==> (#[trigger] r@[k]) < names@.len(),
{
    let ghost all = texts(names@);
    let mut entries: Vec<Placed> = Vec::new();
    let mut i: usize = 0;
    while i < names.len()
        invariant
            i <= names@.len(),
            all == texts(names@),
            entries@.len() == i,
            forall|j: int| 0 <= j < i ==> (#[trigger] entries@[j])@ == (all[j], j),
        decreases names@.len() - i,
    {
        entries.push(Placed { name: names[i].clone(), at: i });
        i += 1;
    }
    proof {
        assert(views_of(entries@) =~= placed(all));
        law_by_name_is_an_order(all);
    }
    let sorted = sort(entries, &PlacedOrder);
    let ghost out = placed(all).sort_by(placed_order());
    let mut r: Vec<usize> = Vec::new();
    let mut k: usize = 0;
    proof {
        assert(views_of(sorted@).len() == sorted@.len());
        assert(by_name(all).len() == out.len());
    }
    while k < sorted.len()
        invariant
            k <= sorted@.len(),
            views_of(sorted@) == out,
            sorted@.len() == out.len(),
            by_name(all) == out.map_values(|p: (Seq<char>, int)| p.1),
            r@.len() == k,
            forall|j: int| 0 <= j < k ==> (#[trigger] r@[j]) as int == by_name(all)[j],
        decreases sorted@.len() - k,
    {
        proof {
            assert(views_of(sorted@)[k as int] == sorted@[k as int]@);
        }
        r.push(sorted[k].at);
        k += 1;
    }
    r
}

// ---------- versions ----------

/// The names of the tags on a version of a branch.
pub open spec fn tag_names(tags: Seq<TagRef>, branch: Seq<char>, version: u64) -> Seq<Seq<char>>
    decreases tags.len(),
{
    if tags.len() == 0 {
        Seq::empty()
    } else {
        let before = tag_names(tags.drop_last(), branch, version);
        let t = tags.last();
        if named(t.branch) == branch && t.version == version {
            before.push(t.name@)
        } else {
            before
        }
    }
}

/// The tags on a version of a branch, in order and joined by commas.
pub open spec fn tag_label(tags: Seq<TagRef>, branch: Seq<char>, version: u64) -> Option<
    Seq<char>,
> {
    let names = tag_names(tags, branch, version);
    if names.len() == 0 {
        None
    } else {
        Some(join(names.sort_by(text_order()), ","@))
    }
}

fn label_of(tags: &Vec<TagRef>, branch: &str, version: u64) -> (r: Option<String>)
    ensures
        opt_view(r) == tag_label(tags@, branch@, version),
{
    let mut names: Vec<String> = Vec::new();
    let mut i: usize = 0;
    proof {
        assert(tags@.take(0) =~= Seq::<TagRef>::empty());
        assert(texts(names@) =~= Seq::<Seq<char>>::empty());
    }
    while i < tags.len()
        invariant
            i <= tags@.len(),
            texts(names@) == tag_names(tags@.take(i as int), branch@, version),
        decreases tags@.len() - i,
    {
        let ghost before = names@;
        proof {
            assert(tags@.take(i + 1).drop_last() =~= tags@.take(i as int));
            assert(tags@.take(i + 1).last() == tags@[i as int]);
        }
        let on = match &tags[i].branch {
            Some(b) => same_text(b.as_str(), branch),
            None => same_text(MAIN_BRANCH, branch),
        };
        if on && tags[i].version == version {
            names.push(tags[i].name.clone());
            proof {
                assert(texts(names@) =~= texts(before).push(tags@[i as int].name@));
            }
        }
        i += 1;
    }
    proof {
        assert(tags@.take(tags@.len() as int) =~= tags@);
        assert(texts(names@).len() == names@.len());
        assert(views_of(names@) =~= texts(names@));
    }
    if names.len() == 0 {
        return None;
    }
    let sorted = sort(names, &TextOrder);
    proof {
        assert(views_of(sorted@) =~= texts(sorted@));
    }
    Some(join_texts(sorted.as_slice(), ","))
}

/// True of the row of a commit.
pub open spec fn is_version_of(
    row: VersionInfo,
    c: Commit,
    tags: Seq<TagRef>,
    branch: Seq<char>,
) -> bool {
    &&& row.version == c.version
    &&& row.timestamp == c.timestamp
    &&& opt_view(row.tag) == tag_label(tags, branch, c.version)
    &&& row.message == c.message
}

/// The commits that are listed: all, or those with a tag.
pub open spec fn listed(
    commits: Seq<Commit>,
    tags: Seq<TagRef>,
    branch: Seq<char>,
    tagged_only: bool,
) -> Seq<Commit> {
    commits.filter(|c: Commit| !tagged_only || tag_label(tags, branch, c.version) is Some)
}

/// The versions of a branch, each with its tags. Tags belong to the whole dataset, so
/// only those of the branch count.
pub fn version_rows(
    commits: &Vec<Commit>,
    tags: &Vec<TagRef>,
    branch: &str,
    tagged_only: bool,
) -> (r: Vec<VersionInfo>)
    ensures
        r@.len() == listed(commits@, tags@, branch@, tagged_only).len(),
        forall|i: int|
            0 <= i < r@.len() ==> is_version_of(
                #[trigger] r@[i],
                listed(commits@, tags@, branch@, tagged_only)[i],
                tags@,
                branch@,
            ),
{
    let ghost keep = |c: Commit| !tagged_only || tag_label(tags@, branch@, c.version) is Some;
    let mut out: Vec<VersionInfo> = Vec::new();
    let mut i: usize = 0;
    proof {
        reveal(Seq::filter);
        assert(commits@.take(0).filter(keep) =~= Seq::<Commit>::empty());
    }
    while i < commits.len()
        invariant
            i <= commits@.len(),
            keep == |c: Commit| !tagged_only || tag_label(tags@, branch@, c.version) is Some,
            out@.len() == commits@.take(i as int).filter(keep).len(),
            forall|j: int|
                0 <= j < out@.len() ==> is_version_of(
                    #[trigger] out@[j],
                    commits@.take(i as int).filter(keep)[j],
                    tags@,
                    branch@,
                ),
        decreases commits@.len() - i,
    {
        let c = &commits[i];
        let tag = label_of(tags, branch, c.version);
        proof {
            reveal(Seq::filter);
            assert(commits@.take(i + 1).drop_last() =~= commits@.take(i as int));
            assert(commits@.take(i + 1).last() == commits@[i as int]);
        }
        if !tagged_only || tag.is_some() {
            out.push(
                VersionInfo {
                    version: c.version,
                    timestamp: c.timestamp,
                    tag,
                    message: c.message.clone(),
                },
            );
        }
        i += 1;
    }
    proof {
        assert(commits@.take(commits@.len() as int) =~= commits@);
    }
    out
}

// ---------- branches ----------

/// True where the default branch is among the recorded ones.
pub open spec fn has_main(branches: Seq<BranchRef>) -> bool {
    exists|i: int| 0 <= i < branches.len() && (#[trigger] branches[i]).name@ == MAIN_BRANCH@
}

/// True where the default branch is among the recorded ones. It is implicit and seldom
/// is.
pub fn lists_main(branches: &Vec<BranchRef>) -> (r: bool)
    ensures
        r == has_main(branches@),
{
    let mut i: usize = 0;
    while i < branches.len()
        invariant
            i <= branches@.len(),
            forall|j: int| 0 <= j < i ==> (#[trigger] branches@[j]).name@ != MAIN_BRANCH@,
        decreases branches@.len() - i,
    {
        if same_text(branches[i].name.as_str(), MAIN_BRANCH) {
            return true;
        }
        i += 1;
    }
    false
}

/// The branches to list, in the order recorded. The default branch comes first where
/// it is implicit; it is marked by nothing.
pub open spec fn all_branches(branches: Seq<BranchRef>) -> Seq<Option<BranchRef>> {
    let recorded = branches.map_values(|b: BranchRef| Some(b));
    if has_main(branches) {
        recorded
    } else {
        seq![None] + recorded
    }
}

/// The name of a branch to list.
pub open spec fn branch_name(b: Option<BranchRef>) -> Seq<char> {
    match b {
        Some(b) => b.name@,
        None => MAIN_BRANCH@,
    }
}

/// True of the row of a branch. The default branch has no parent, and came into being
/// with the dataset's first version.
pub open spec fn is_branch_of(
    row: BranchInfo,
    b: Option<BranchRef>,
    main_created_at: Option<Instant>,
) -> bool {
    match b {
        Some(b) => {
            &&& row.name@ == b.name@
            &&& row.parent_branch matches Some(p) && p@ == named(b.parent_branch)
            &&& row.parent_version == Some(b.parent_version)
            &&& row.created_at == instant_at(b.created_at)
        },
        None => {
            &&& row.name@ == MAIN_BRANCH@
            &&& row.parent_branch is None
            &&& row.parent_version is None
            &&& row.created_at == main_created_at
        },
    }
}

/// The names of the branches to list.
pub open spec fn branch_names(branches: Seq<BranchRef>) -> Seq<Seq<char>> {
    all_branches(branches).map_values(|b: Option<BranchRef>| branch_name(b))
}

fn recorded_row(b: &BranchRef) -> (r: BranchInfo)
    ensures
        forall|t: Option<Instant>| is_branch_of(r, Some(*b), t),
{
    BranchInfo {
        name: b.name.clone(),
        parent_branch: Some(name_of(&b.parent_branch)),
        parent_version: Some(b.parent_version),
        created_at: unix_seconds_to_utc(b.created_at),
    }
}

/// The branches by name, the default branch included.
pub fn branch_rows(branches: &Vec<BranchRef>, main_created_at: Option<Instant>) -> (r: Vec<
    BranchInfo,
>)
    requires
        branches@.len() < usize::MAX,
    ensures
        ({
            let all = all_branches(branches@);
            let order = by_name(branch_names(branches@));
            &&& r@.len() == all.len()
            &&& forall|k: int|
                0 <= k < r@.len() ==> is_branch_of(
                    #[trigger] r@[k],
                    all[order[k]],
                    main_created_at,
                )
        }),
{
    let ghost all = all_branches(branches@);
    let ghost names_of_all = branch_names(branches@);
    let implicit = !lists_main(branches);
    let mut names: Vec<String> = Vec::new();
    if implicit {
        names.push(MAIN_BRANCH.to_owned());
    }
    let shift: usize = if implicit {
        1
    } else {
        0
    };
    let mut i: usize = 0;
    while i < branches.len()
        invariant
            i <= branches@.len(),
            shift == (if implicit { 1 } else { 0int }),
            implicit == !has_main(branches@),
            all == all_branches(branches@),
            names@.len() == i + shift,
            forall|j: int| 0 <= j < names@.len() ==> (#[trigger] names@[j])@ == branch_name(all[j]),
        decreases branches@.len() - i,
    {
        proof {
            assert(all[i + shift] == Some(branches@[i as int]));
        }
        names.push(branches[i].name.clone());
        i += 1;
    }
    proof {
        assert(all.len() == branches@.len() + shift);
        assert(texts(names@) =~= names_of_all);
    }
    let order = positions(names);
    let mut out: Vec<BranchInfo> = Vec::new();
    let mut k: usize = 0;
    while k < order.len()
        invariant
            k <= order@.len(),
            shift == (if implicit { 1 } else { 0int }),
            implicit == !has_main(branches@),
            all == all_branches(branches@),
            all.len() == branches@.len() + shift,
            order@.len() == all.len(),
            out@.len() == k,
            forall|j: int|
                0 <= j < order@.len() ==> (#[trigger] order@[j]) as int == by_name(
                    branch_names(branches@),
                )[j],
            forall|j: int| 0 <= j < order@.len() ==> (#[trigger] order@[j]) < all.len(),
            forall|j: int|
                0 <= j < k ==> is_branch_of(
                    #[trigger] out@[j],
                    all[order@[j] as int],
                    main_created_at,
                ),
        decreases order@.len() - k,
    {
        let at = order[k];
        if implicit && at == 0 {
            out.push(
                BranchInfo {
                    name: MAIN_BRANCH.to_owned(),
                    parent_branch: None,
                    parent_version: None,
                    created_at: main_created_at,
                },
            );
        } else {
            proof {
                assert(all[at as int] == Some(branches@[at - shift]));
            }
            out.push(recorded_row(&branches[at - shift]));
        }
        k += 1;
    }
    out
}

/// The default branch is always listed.
pub proof fn law_main_is_listed(branches: Seq<BranchRef>)
    ensures
        branch_names(branches).contains(MAIN_BRANCH@),
{
    let names = branch_names(branches);
    if has_main(branches) {
        let i = choose|i: int|
            0 <= i < branches.len() && (#[trigger] branches[i]).name@ == MAIN_BRANCH@;
        assert(names[i] == MAIN_BRANCH@);
    } else {
        assert(names[0] == MAIN_BRANCH@);
    }
}

// ---------- tags ----------

/// The names of tags.
pub open spec fn names_of_tags(tags: Seq<TagRef>) -> Seq<Seq<char>> {
    tags.map_values(|t: TagRef| t.name@)
}

/// The tags of all branches by name.
pub fn tag_rows(tags: &Vec<TagRef>) -> (r: Vec<TagInfo>)
    ensures
        r@.len() == tags@.len(),
        forall|k: int|
            0 <= k < r@.len() ==> {
                let t = tags@[by_name(names_of_tags(tags@))[k]];
                (#[trigger] r@[k]).name@ == t.name@ && r@[k].branch@ == named(t.branch)
                    && r@[k].version == t.version
            },
{
    let mut names: Vec<String> = Vec::new();
    let mut i: usize = 0;
    while i < tags.len()
        invariant
            i <= tags@.len(),
            names@.len() == i,
            forall|j: int| 0 <= j < i ==> (#[trigger] names@[j])@ == tags@[j].name@,
        decreases tags@.len() - i,
    {
        names.push(tags[i].name.clone());
        i += 1;
    }
    proof {
        assert(texts(names@) =~= names_of_tags(tags@));
    }
    let order = positions(names);
    let mut out: Vec<TagInfo> = Vec::new();
    let mut k: usize = 0;
    while k < order.len()
        invariant
            k <= order@.len(),
            order@.len() == tags@.len(),
            out@.len() == k,
            forall|j: int|
                0 <= j < order@.len() ==> (#[trigger] order@[j]) as int == by_name(
                    names_of_tags(tags@),
                )[j],
            forall|j: int| 0 <= j < order@.len() ==> (#[trigger] order@[j]) < tags@.len(),
            forall|j: int|
                0 <= j < k ==> {
                    let t = tags@[order@[j] as int];
                    (#[trigger] out@[j]).name@ == t.name@ && out@[j].branch@ == named(t.branch)
                        && out@[j].version == t.version
                },
        decreases order@.len() - k,
    {
        let t = &tags[order[k]];
        out.push(TagInfo { name: t.name.clone(), branch: name_of(&t.branch), version: t.version });
        k += 1;
    }
    out
}

} // verus!
