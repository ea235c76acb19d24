//! Versions, branches and tags: which one is meant, and what is listed of them.
use vstd::prelude::*;

use crate::cli::LanceArgs;
use crate::dataset::{BranchInfo, Instant, VersionInfo};
use crate::json::opt_view;
use crate::lance::adapter::instant_at;
use crate::lance::as_of::{first_commit, latest, law_version_is_the_latest, no_later, reading};
use crate::lance::checkout::{branch_or_main, steps, Step};
use crate::lance::refs::{
    all_branches, has_main, is_branch_of, is_version_of, listed, named, tag_label, tag_names,
    BranchRef, Commit, TagRef,
};
use crate::sort::{text_order, Order};
use crate::text::join;

verus! {

/// An instant in nanoseconds after the epoch.
pub open spec fn nanoseconds(t: Instant) -> int {
    t.secs * 1_000_000_000 + t.nanos
}

/// Instants are compared as the nanoseconds that they are after the epoch.
pub proof fn law_instants_are_compared_in_time(a: Instant, b: Instant)
    requires
        a.wf(),
        b.wf(),
    ensures
        no_later(a, b) <==> nanoseconds(a) <= nanoseconds(b),
{
}

/// The version of a moment is the highest that was committed by then; there is none
/// where every version was committed later.
pub proof fn law_moment_has_the_highest_version_by_then(versions: Seq<VersionInfo>, t: Instant)
    requires
        t.wf(),
        forall|i: int| 0 <= i < versions.len() ==> (#[trigger] versions[i]).timestamp.wf(),
    ensures
        latest(versions, t) is None <==> forall|i: int|
            0 <= i < versions.len() ==> nanoseconds((#[trigger] versions[i]).timestamp) > nanoseconds(t),
        latest(versions, t) matches Some(v) ==> exists|i: int|
            0 <= i < versions.len() && (#[trigger] versions[i]).version == v && nanoseconds(
                versions[i].timestamp,
            ) <= nanoseconds(t),
        forall|i: int|
            0 <= i < versions.len() && nanoseconds((#[trigger] versions[i]).timestamp) <= nanoseconds(t)
                ==> (latest(versions, t) matches Some(v) && versions[i].version <= v),
{
    law_version_is_the_latest(versions, t);
    assert forall|i: int| 0 <= i < versions.len() implies (no_later(
        (#[trigger] versions[i]).timestamp,
        t,
    ) <==> nanoseconds(versions[i].timestamp) <= nanoseconds(t)) by {
        law_instants_are_compared_in_time(versions[i].timestamp, t);
    }
}

/// The first commit is that of a version, and none is earlier.
pub proof fn law_first_commit_is_the_earliest(versions: Seq<VersionInfo>)
    requires
        versions.len() > 0,
        forall|i: int| 0 <= i < versions.len() ==> (#[trigger] versions[i]).timestamp.wf(),
    ensures
        exists|i: int| 0 <= i < versions.len() && (#[trigger] versions[i]).timestamp == first_commit(
            versions,
        ),
        forall|i: int|
            0 <= i < versions.len() ==> nanoseconds(first_commit(versions)) <= nanoseconds(
                (#[trigger] versions[i]).timestamp,
            ),
    decreases versions.len(),
{
    if versions.len() > 1 {
        let init = versions.drop_last();
        assert forall|i: int| 0 <= i < init.len() implies (#[trigger] init[i]).timestamp.wf() by {
            assert(versions[i].timestamp.wf());
        }
        law_first_commit_is_the_earliest(init);
        let k = choose|k: int| 0 <= k < init.len() && (#[trigger] init[k]).timestamp == first_commit(
            init,
        );
        assert(versions[k].timestamp == first_commit(init));
        let n = versions.len() - 1;
        assert(versions[n].timestamp.wf());
        law_instants_are_compared_in_time(first_commit(init), versions[n].timestamp);
        assert forall|i: int| 0 <= i < versions.len() implies nanoseconds(first_commit(versions))
            <= nanoseconds((#[trigger] versions[i]).timestamp) by {
            if i < n {
                assert(nanoseconds(first_commit(init)) <= nanoseconds(init[i].timestamp));
            }
        }
    } else {
        assert(versions[0].timestamp == first_commit(versions));
    }
}

/// A moment is read with its own offset where it has one, else as a moment of UTC,
/// and a day as its first second in UTC.
pub proof fn law_moments_are_read_in_turn(
    zoned: Option<(int, int)>,
    naive: Option<(int, int)>,
    day: Option<int>,
)
    ensures
        zoned is Some ==> reading(zoned, naive, day) == zoned,
        zoned is None && naive is Some ==> reading(zoned, naive, day) == naive,
        zoned is None && naive is None ==> (day matches Some(d) ==> (reading(zoned, naive, day) matches Some(
            t,
        ) && t.0 == d * 24 * 60 * 60 && t.1 == 0)),
        zoned is None && naive is None && day is None ==> reading(zoned, naive, day) is None,
{
}

// ---------- checking out ----------

/// A tag alone is gone to; with a branch, it is held against the branch first. A
/// branch without a tag is gone to before anything on it, and a version counts before
/// a moment.
pub proof fn law_selectors_are_followed_in_turn(a: LanceArgs)
    ensures
        a.tag matches Some(t) ==> steps(Some(a)).last() == Step::Tag(t) && (a.branch is None
            ==> steps(Some(a)).len() == 1),
        a.tag matches Some(t) ==> (a.branch matches Some(b) ==> steps(Some(a)).len() == 2 && steps(
            Some(a),
        )[0] == Step::CheckTag(t, b)),
        a.tag is None ==> (a.branch matches Some(b) ==> steps(Some(a)).len() > 0 && steps(Some(a))[0]
            == Step::Branch(b)),
        a.tag is None ==> (a.version matches Some(v) ==> steps(Some(a)).last() == Step::Version(v)),
        a.tag is None && a.version is None ==> (a.as_of matches Some(m) ==> steps(Some(a)).last()
            == Step::AsOf(m)),
        a.tag is None ==> steps(Some(a)).len() == (if a.branch is Some {
            1int
        } else {
            0
        }) + (if a.version is Some || a.as_of is Some {
            1int
        } else {
            0
        }),
{
}

// ---------- listing ----------

/// A branch without a name is the main one.
pub proof fn law_unnamed_branch_is_main(b: Option<String>)
    ensures
        b is None ==> named(b) == "main"@,
        b matches Some(s) ==> named(b) == s@,
{
}

/// True where a tag of this name is on the version of the branch.
pub open spec fn tagged(tags: Seq<TagRef>, branch: Seq<char>, version: u64, name: Seq<char>) -> bool {
    exists|i: int|
        0 <= i < tags.len() && (#[trigger] tags[i]).name@ == name && tags[i].version == version
            && named(tags[i].branch) == branch
}

/// A version carries the names of the tags on it, those of its own branch.
pub proof fn law_versions_carry_their_tags(
    tags: Seq<TagRef>,
    branch: Seq<char>,
    version: u64,
    name: Seq<char>,
)
    ensures
        tag_names(tags, branch, version).contains(name) <==> tagged(tags, branch, version, name),
    decreases tags.len(),
{
    if tags.len() > 0 {
        let init = tags.drop_last();
        law_versions_carry_their_tags(init, branch, version, name);
        let before = tag_names(init, branch, version);
        let after = tag_names(tags, branch, version);
        if before.contains(name) {
            let i = choose|i: int| 0 <= i < before.len() && before[i] == name;
            assert(after[i] == name);
        }
        if tagged(init, branch, version, name) {
            let i = choose|i: int|
                0 <= i < init.len() && (#[trigger] init[i]).name@ == name && init[i].version
                    == version && named(init[i].branch) == branch;
            assert(tags[i].name@ == name);
        }
        if after.contains(name) && !before.contains(name) {
            let i = choose|i: int| 0 <= i < after.len() && after[i] == name;
            if i < before.len() {
                assert(before[i] == name);
            }
            assert(tags[tags.len() - 1].name@ == name);
        }
        if tagged(tags, branch, version, name) && !tagged(init, branch, version, name) {
            let i = choose|i: int|
                0 <= i < tags.len() && (#[trigger] tags[i]).name@ == name && tags[i].version
                    == version && named(tags[i].branch) == branch;
            if i < init.len() {
                assert(init[i].name@ == name);
            }
            assert(after[after.len() - 1] == name);
        }
    }
}

/// A version without tags has no label. Otherwise the label is the names in ascending
/// order, with commas between.
pub proof fn law_label_joins_the_tags(tags: Seq<TagRef>, branch: Seq<char>, version: u64)
    ensures
        tag_label(tags, branch, version) is None <==> tag_names(tags, branch, version).len() == 0,
        tag_label(tags, branch, version) matches Some(t) ==> t == join(
            tag_names(tags, branch, version).sort_by(text_order()),
            ","@,
        ),
        tag_names(tags, branch, version).len() == 1 ==> tag_label(tags, branch, version) == Some(
            tag_names(tags, branch, version)[0],
        ),
{
    let names = tag_names(tags, branch, version);
    if names.len() == 1 {
        broadcast use vstd::seq_lib::group_to_multiset_ensures;

        crate::sort::TextOrder.lemma_total();
        names.lemma_sort_by_ensures(text_order());
        let s = names.sort_by(text_order());
        assert(s.len() == s.to_multiset().len());
        assert(names.len() == names.to_multiset().len());
        assert(names.contains(names[0]));
        assert(s.to_multiset().count(names[0]) > 0);
        assert(s.contains(names[0]));
    }
}

/// All commits are listed, or only those with a tag where only they are wanted.
pub proof fn law_only_tagged_versions_are_left(
    commits: Seq<Commit>,
    tags: Seq<TagRef>,
    branch: Seq<char>,
    c: Commit,
)
    ensures
        listed(commits, tags, branch, false) == commits,
        listed(commits, tags, branch, true).contains(c) <==> commits.contains(c) && tag_label(
            tags,
            branch,
            c.version,
        ) is Some,
    decreases commits.len(),
{
    reveal(Seq::filter);
    if commits.len() > 0 {
        let init = commits.drop_last();
        law_only_tagged_versions_are_left(init, tags, branch, c);
        assert(init.push(commits.last()) =~= commits);
        let before = listed(init, tags, branch, true);
        let after = listed(commits, tags, branch, true);
        if before.contains(c) {
            let i = choose|i: int| 0 <= i < before.len() && before[i] == c;
            assert(after[i] == c);
        }
        if init.contains(c) {
            let i = choose|i: int| 0 <= i < init.len() && init[i] == c;
            assert(commits[i] == c);
        }
        if after.contains(c) && !before.contains(c) {
            let i = choose|i: int| 0 <= i < after.len() && after[i] == c;
            if i < before.len() {
                assert(before[i] == c);
            }
            assert(commits[commits.len() - 1] == c);
        }
        if commits.contains(c) && !init.contains(c) {
            let i = choose|i: int| 0 <= i < commits.len() && commits[i] == c;
            if i < init.len() {
                assert(init[i] == c);
            }
            if tag_label(tags, branch, c.version) is Some {
                assert(after[after.len() - 1] == c);
            }
        }
    }
}

/// A row of versions holds what was committed, with the label of its tags.
pub proof fn law_version_rows_hold_the_commit(
    row: VersionInfo,
    c: Commit,
    tags: Seq<TagRef>,
    branch: Seq<char>,
)
    requires
        is_version_of(row, c, tags, branch),
    ensures
        row.version == c.version,
        row.timestamp == c.timestamp,
        row.message == c.message,
        opt_view(row.tag) == tag_label(tags, branch, c.version),
{
}

/// Every branch that is recorded is listed, and the main one too where it is not
/// recorded.
pub proof fn law_all_branches_are_listed(branches: Seq<BranchRef>)
    ensures
        has_main(branches) ==> all_branches(branches).len() == branches.len(),
        !has_main(branches) ==> all_branches(branches).len() == branches.len() + 1 && all_branches(
            branches,
        )[0] is None,
        forall|i: int|
            0 <= i < branches.len() ==> all_branches(branches).contains(Some(#[trigger] branches[i])),
        has_main(branches) <==> exists|i: int|
            0 <= i < branches.len() && (#[trigger] branches[i]).name@ == "main"@,
{
    let all = all_branches(branches);
    let shift = if has_main(branches) {
        0int
    } else {
        1
    };
    assert forall|i: int| 0 <= i < branches.len() implies all.contains(
        Some(#[trigger] branches[i]),
    ) by {
        assert(all[i + shift] == Some(branches[i]));
    }
}

/// A row of branches holds what is recorded of the branch; the main branch, where it
/// is not recorded, has no parent.
pub proof fn law_branch_rows_hold_the_branch(
    row: BranchInfo,
    b: Option<BranchRef>,
    created: Option<Instant>,
)
    requires
        is_branch_of(row, b, created),
    ensures
        b matches Some(x) ==> row.name@ == x.name@ && opt_view(row.parent_branch) == Some(
            named(x.parent_branch),
        ) && row.parent_version == Some(x.parent_version) && (row.created_at matches Some(t)
            ==> t.secs == x.created_at && t.nanos == 0),
        b is None ==> row.name@ == "main"@ && row.parent_branch is None && row.parent_version is None
            && row.created_at == created,
{
}

/// A number of seconds is that instant, where the calendar reaches it.
pub proof fn law_seconds_are_an_instant(seconds: u64)
    ensures
        seconds <= 8_210_266_876_799 ==> (instant_at(seconds) matches Some(t) && t.wf() && nanoseconds(t)
            == seconds * 1_000_000_000),
        seconds > 8_210_266_876_799 ==> instant_at(seconds) is None,
{
}

/// The branch of a tag without one is the main branch.
pub proof fn law_tags_without_a_branch_are_on_main(branch: Option<&str>)
    ensures
        branch is None ==> branch_or_main(branch) == "main"@,
        branch matches Some(b) ==> branch_or_main(branch) == b@,
{
}

} // verus!
