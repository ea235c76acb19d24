//! The summary of a dataset, held against the listings that it sums up.
use vstd::prelude::*;

use crate::binary64::{of_count, percent_tenths, quotient, tenths, times, two};
use crate::commands::common::human;
use crate::commands::freq::percent_of;
use crate::commands::lance::diff::opt_quoted;
use crate::commands::lance::stat::{
    bytes, deleted, grouped, index_pairs, latest, law_latest_has_the_highest_number, metrics,
    physical, sorted_rows, stat_members, stored, total, DatasetStat, Listings,
};
use crate::dataset::{FragmentInfo, VersionInfo};
use crate::json::{array, object, pairs_of, quoted};
use crate::laws::numbers::law_digits_read_back;
use crate::output::temporal::rfc3339_seconds_text;
use crate::sort::number_order;
use crate::text::{dec, join};

verus! {

// ---------- what the listings hold ----------

/// The rows that fragments store.
pub open spec fn rows_stored(fragments: Seq<FragmentInfo>) -> nat
    decreases fragments.len(),
{
    if fragments.len() == 0 {
        0
    } else {
        fragments[0].physical_rows as nat + rows_stored(fragments.drop_first())
    }
}

/// The rows that are deleted in fragments.
pub open spec fn rows_deleted(fragments: Seq<FragmentInfo>) -> nat
    decreases fragments.len(),
{
    if fragments.len() == 0 {
        0
    } else {
        fragments[0].deleted_rows as nat + rows_deleted(fragments.drop_first())
    }
}

/// The bytes of fragments whose size is known.
pub open spec fn bytes_stored(fragments: Seq<FragmentInfo>) -> nat
    decreases fragments.len(),
{
    if fragments.len() == 0 {
        0
    } else {
        (match fragments[0].size {
            Some(n) => n as nat,
            None => 0,
        }) + bytes_stored(fragments.drop_first())
    }
}

proof fn lemma_total_first(fragments: Seq<FragmentInfo>, f: spec_fn(FragmentInfo) -> nat)
    requires
        fragments.len() > 0,
    ensures
        total(fragments, f) == f(fragments[0]) + total(fragments.drop_first(), f),
    decreases fragments.len(),
{
    if fragments.len() > 1 {
        lemma_total_first(fragments.drop_last(), f);
        assert(fragments.drop_last().drop_first() =~= fragments.drop_first().drop_last());
    } else {
        assert(fragments.drop_last() =~= Seq::empty());
        assert(fragments.drop_first() =~= Seq::empty());
        reveal_with_fuel(total, 2);
    }
}

/// The totals that the summary takes are those of the fragments.
pub proof fn law_totals_are_sums(fragments: Seq<FragmentInfo>)
    ensures
        total(fragments, physical()) == rows_stored(fragments),
        total(fragments, deleted()) == rows_deleted(fragments),
        total(fragments, bytes()) == bytes_stored(fragments),
    decreases fragments.len(),
{
    if fragments.len() > 0 {
        law_totals_are_sums(fragments.drop_first());
        lemma_total_first(fragments, physical());
        lemma_total_first(fragments, deleted());
        lemma_total_first(fragments, bytes());
    }
}

/// The rows that are left where some of the stored ones are deleted.
pub open spec fn rows_left(fragments: Seq<FragmentInfo>) -> nat {
    if rows_stored(fragments) >= rows_deleted(fragments) {
        (rows_stored(fragments) - rows_deleted(fragments)) as nat
    } else {
        0
    }
}

/// True where `rows` are the row numbers that the fragments store, in ascending order.
pub open spec fn is_spread(rows: Seq<u64>, fragments: Seq<FragmentInfo>) -> bool {
    &&& rows.to_multiset() == Seq::new(
        fragments.len(),
        |i: int| fragments[i].physical_rows,
    ).to_multiset()
    &&& forall|i: int, j: int| 0 <= i <= j < rows.len() ==> #[trigger] rows[i] <= #[trigger] rows[j]
}

/// The middle of row numbers in ascending order; between two, their mean, rounded up.
pub open spec fn middle(rows: Seq<u64>) -> int {
    let h = rows.len() as int / 2;
    if rows.len() % 2 == 1 {
        rows[h] as int
    } else {
        (rows[h - 1] + rows[h] + 1) / 2
    }
}

proof fn lemma_spread(rows: Seq<u64>, fragments: Seq<FragmentInfo>)
    requires
        is_spread(rows, fragments),
    ensures
        rows == sorted_rows(fragments),
        rows.len() == fragments.len(),
{
    broadcast use vstd::seq_lib::group_to_multiset_ensures;

    let plain = stored(fragments);
    assert(plain =~= Seq::new(fragments.len(), |i: int| fragments[i].physical_rows));
    let le = number_order();
    assert(vstd::relations::total_ordering(le)) by {
        assert(vstd::relations::reflexive(le));
        assert(vstd::relations::antisymmetric(le));
        assert(vstd::relations::transitive(le));
        assert(vstd::relations::strongly_connected(le));
    }
    plain.lemma_sort_by_ensures(le);
    assert(vstd::relations::sorted_by(rows, le)) by {
        assert forall|i: int, j: int| 0 <= i < j < rows.len() implies #[trigger] le(rows[i], rows[j]) by {
            assert(rows[i] <= rows[j]);
        }
    }
    vstd::seq_lib::lemma_sorted_unique(rows, sorted_rows(fragments), le);
    assert(rows.len() == rows.to_multiset().len());
    assert(plain.len() == plain.to_multiset().len());
}

/// The summary holds what the listings hold: the path, the versions and the counts
/// as they stand, the rows summed over the fragments, and the spread of the
/// fragments' rows.
pub proof fn law_summary_holds_the_listings(s: DatasetStat, of: Listings, rows: Seq<u64>)
    requires
        s.aggregates(of),
        is_spread(rows, of.fragments),
    ensures
        s.path@ == of.path,
        s.manifest_version == of.manifest_version,
        s.columns == of.columns,
        s.num_branches == of.num_branches,
        s.num_tags == of.num_tags,
        s.num_fragments == of.fragments.len(),
        s.num_versions == of.versions.len(),
        s.physical_rows == rows_stored(of.fragments),
        s.deleted_rows == rows_deleted(of.fragments),
        s.rows == rows_left(of.fragments),
        of.with_size ==> (s.data_size_bytes matches Some(n) && n == bytes_stored(of.fragments)),
        !of.with_size ==> s.data_size_bytes is None,
        of.fragments.len() == 0 <==> s.fragment_min_rows is None,
        of.fragments.len() == 0 <==> s.fragment_max_rows is None,
        of.fragments.len() == 0 <==> s.fragment_median_rows is None,
        of.fragments.len() > 0 ==> s.fragment_min_rows == Some(rows[0]) && s.fragment_max_rows == Some(
            rows.last(),
        ) && s.fragment_median_rows->Some_0 == middle(rows),
        s.indices@.len() == of.indices.len(),
        forall|i: int|
            0 <= i < of.indices.len() ==> (#[trigger] s.indices@[i]).0@ == of.indices[i].name@
                && s.indices@[i].1@ == of.indices[i].index_type@,
{
    law_totals_are_sums(of.fragments);
    lemma_spread(rows, of.fragments);
    let pairs = pairs_of(s.indices@);
    assert(pairs.len() == s.indices@.len());
    assert forall|i: int| 0 <= i < of.indices.len() implies (#[trigger] s.indices@[i]).0@
        == of.indices[i].name@ && s.indices@[i].1@ == of.indices[i].index_type@ by {
        assert(pairs[i] == (s.indices@[i].0@, s.indices@[i].1@));
        assert(pairs[i] == index_pairs(of.indices)[i]);
    }
}

// ---------- digits in groups ----------

/// A number in groups of three digits.
pub open spec fn in_groups(n: nat) -> Seq<char> {
    grouped(dec(n))
}

/// Digits in groups have a `_` before every three digits from the right, and nowhere
/// else; short numbers have none.
pub proof fn law_groups_are_of_three(digits: Seq<char>, i: int)
    requires
        forall|k: int| 0 <= k < digits.len() ==> #[trigger] digits[k] != '_',
        0 <= i < grouped(digits).len(),
    ensures
        grouped(digits)[grouped(digits).len() - 1 - i] == '_' <==> i % 4 == 3,
        digits.len() <= 3 ==> grouped(digits) == digits,
        grouped(digits)[0] == digits[0],
    decreases digits.len(),
{
    reveal_strlit("_");
    if digits.len() > 3 {
        let head = digits.take(digits.len() - 3);
        lemma_grouped_len(head);
        assert forall|k: int| 0 <= k < head.len() implies #[trigger] head[k] != '_' by {
            assert(digits[k] != '_');
        }
        let g = grouped(head);
        let t = grouped(digits);
        assert(t.len() == g.len() + 4);
        assert(t[0] == g[0]);
        law_groups_are_of_three(head, 0);
        if i >= 4 {
            law_groups_are_of_three(head, i - 4);
            assert(t[t.len() - 1 - i] == g[g.len() - 1 - (i - 4)]);
        } else if i < 3 {
            assert(t[t.len() - 1 - i] == digits[digits.len() - 1 - i]);
        }
    } else {
        assert(grouped(digits)[grouped(digits).len() - 1 - i] == digits[digits.len() - 1 - i]);
    }
}

proof fn lemma_grouped_len(digits: Seq<char>)
    ensures
        digits.len() > 0 ==> grouped(digits).len() > 0,
    decreases digits.len(),
{
    if digits.len() > 3 {
        lemma_grouped_len(digits.take(digits.len() - 3));
    }
}

// ---------- the table ----------

/// The names of the metrics, in the order in which the table lists them.
pub open spec fn metric_names() -> Seq<Seq<char>> {
    seq![
        "path"@,
        "format"@,
        "rows"@,
        "deleted rows"@,
        "columns"@,
        "fragments"@,
        "data size"@,
        "versions"@,
        "branches"@,
        "tags"@,
        "indices"@,
    ]
}

/// The table lists the metrics in a fixed order, each once.
pub proof fn law_table_lists_every_metric(s: DatasetStat)
    ensures
        metrics(s).len() == metric_names().len(),
        forall|i: int| 0 <= i < metrics(s).len() ==> (#[trigger] metrics(s)[i]).0 == metric_names()[i],
{
}

/// The table shows the counts of the listings: beside each metric stands the number
/// that the listings hold of it.
#[verifier::rlimit(40)]
pub proof fn law_table_shows_the_listings(s: DatasetStat, of: Listings, rows: Seq<u64>)
    requires
        s.aggregates(of),
        is_spread(rows, of.fragments),
    ensures
        metrics(s).contains(("path"@, of.path)),
        metrics(s).contains(
            ("format"@, "lance (manifest version "@ + dec(of.manifest_version as nat) + ")"@),
        ),
        metrics(s).contains(("rows"@, in_groups(rows_left(of.fragments)))),
        metrics(s).contains(
            (
                "deleted rows"@,
                in_groups(rows_deleted(of.fragments)) + "  ("@ + percent_of(
                    rows_deleted(of.fragments),
                    rows_stored(of.fragments),
                ) + ")"@,
            ),
        ),
        metrics(s).contains(("columns"@, in_groups(of.columns as nat))),
        of.fragments.len() == 0 ==> metrics(s).contains(("fragments"@, in_groups(0))),
        of.fragments.len() > 0 ==> metrics(s).contains(
            (
                "fragments"@,
                in_groups(of.fragments.len()) + "  (min "@ + in_groups(rows[0] as nat)
                    + " rows, max "@ + in_groups(rows.last() as nat) + " rows, median "@ + in_groups(
                    middle(rows) as nat,
                ) + ")"@,
            ),
        ),
        of.with_size ==> metrics(s).contains(("data size"@, human(bytes_stored(of.fragments)))),
        !of.with_size ==> metrics(s).contains(("data size"@, "n/a (--no-size)"@)),
        metrics(s).contains(("branches"@, in_groups(of.num_branches as nat))),
        metrics(s).contains(("tags"@, in_groups(of.num_tags as nat))),
        of.versions.len() == 0 ==> metrics(s).contains(("versions"@, in_groups(0))),
        of.indices.len() == 0 ==> metrics(s).contains(("indices"@, in_groups(0))),
        of.indices.len() > 0 ==> metrics(s).contains(
            (
                "indices"@,
                in_groups(of.indices.len()) + "  ("@ + join(
                    Seq::new(
                        of.indices.len(),
                        |i: int| of.indices[i].name@ + " "@ + of.indices[i].index_type@,
                    ),
                    ", "@,
                ) + ")"@,
            ),
        ),
{
    law_summary_holds_the_listings(s, of, rows);
    law_latest_has_the_highest_number(of.versions);
    let m = metrics(s);
    assert(m[0].0 == "path"@ && m[1].0 == "format"@ && m[2].0 == "rows"@ && m[3].0
        == "deleted rows"@ && m[4].0 == "columns"@ && m[5].0 == "fragments"@ && m[6].0 == "data size"@
        && m[7].0 == "versions"@ && m[8].0 == "branches"@ && m[9].0 == "tags"@ && m[10].0
        == "indices"@);
    assert(m.contains(m[0]) && m.contains(m[1]) && m.contains(m[2]) && m.contains(m[3])
        && m.contains(m[4]) && m.contains(m[5]) && m.contains(m[6]) && m.contains(m[7])
        && m.contains(m[8]) && m.contains(m[9]) && m.contains(m[10]));
    if of.indices.len() > 0 {
        let labels = Seq::new(
            of.indices.len(),
            |i: int| of.indices[i].name@ + " "@ + of.indices[i].index_type@,
        );
        assert(crate::commands::lance::stat::index_labels(pairs_of(s.indices@)) =~= labels);
    }
}

/// True of the version with the highest number of all.
pub open spec fn is_newest(v: VersionInfo, versions: Seq<VersionInfo>) -> bool {
    &&& versions.contains(v)
    &&& forall|i: int|
        0 <= i < versions.len() ==> (#[trigger] versions[i]) == v || versions[i].version < v.version
}

/// The table says how many versions there are and when the newest was committed.
pub proof fn law_table_shows_the_newest_version(s: DatasetStat, of: Listings, v: VersionInfo)
    requires
        s.aggregates(of),
        is_newest(v, of.versions),
    ensures
        s.latest_version_timestamp == Some(v.timestamp),
        metrics(s).contains(
            (
                "versions"@,
                in_groups(of.versions.len()) + "  (latest "@ + rfc3339_seconds_text(v.timestamp)
                    + ")"@,
            ),
        ),
{
    law_latest_has_the_highest_number(of.versions);
    let w = latest(of.versions)->Some_0;
    let i = choose|i: int| 0 <= i < of.versions.len() && of.versions[i] == v;
    let j = choose|j: int| 0 <= j < of.versions.len() && of.versions[j] == w;
    assert(of.versions[i].version <= w.version);
    assert(of.versions[j] == v || of.versions[j].version < v.version);
    assert(metrics(s)[7].0 == "versions"@);
    assert(metrics(s).contains(metrics(s)[7]));
}

proof fn lemma_nothing_in_percent(whole: nat)
    ensures
        percent_of(0, whole) == "0.0%"@,
{
    reveal_strlit("0.0%");
    reveal_strlit(".");
    reveal_strlit("%");
    if whole > 0 {
        let zero = (0nat, 0int);
        assert(of_count(0) == zero);
        assert(quotient(zero, of_count(whole)) == zero);
        assert(times(zero, 100) == zero);
        assert(tenths(zero) == 0) by {
            assert(two(0) == 1);
        }
        assert(percent_tenths(0, whole) == 0);
        assert(dec(0) =~= seq!['0']);
        assert(percent_of(0, whole) =~= "0.0%"@);
    }
}

/// Beside `deleted rows` stands `0  (0.0%)` exactly where no fragment has deleted
/// rows; otherwise it begins with the number of them.
#[verifier::rlimit(40)]
pub proof fn law_nothing_deleted_shows_zero(s: DatasetStat, of: Listings, value: Seq<char>)
    requires
        s.aggregates(of),
        metrics(s).contains(("deleted rows"@, value)),
    ensures
        value == "0  (0.0%)"@ <==> forall|i: int|
            0 <= i < of.fragments.len() ==> (#[trigger] of.fragments[i]).deleted_rows == 0,
        in_groups(rows_deleted(of.fragments)).is_prefix_of(value),
{
    reveal_strlit("deleted rows");
    reveal_strlit("path");
    reveal_strlit("format");
    reveal_strlit("rows");
    reveal_strlit("columns");
    reveal_strlit("fragments");
    reveal_strlit("data size");
    reveal_strlit("versions");
    reveal_strlit("branches");
    reveal_strlit("tags");
    reveal_strlit("indices");
    law_totals_are_sums(of.fragments);
    let n = rows_deleted(of.fragments);
    let i = choose|i: int| 0 <= i < metrics(s).len() && metrics(s)[i] == ("deleted rows"@, value);
    assert(i == 3) by {
        let m = metrics(s);
        assert(m[i].0.len() == 12);
        assert(m[0].0.len() == 4 && m[1].0.len() == 6 && m[2].0.len() == 4 && m[4].0.len() == 7
            && m[5].0.len() == 9 && m[6].0.len() == 9 && m[7].0.len() == 8 && m[8].0.len() == 8
            && m[9].0.len() == 4 && m[10].0.len() == 7);
    }
    assert(value == in_groups(n) + "  ("@ + percent_of(n, rows_stored(of.fragments)) + ")"@);
    lemma_none_deleted(of.fragments);
    law_digits_read_back(n);
    lemma_grouped_len(dec(n));
    reveal_strlit("0  (0.0%)");
    reveal_strlit("  (");
    reveal_strlit(")");
    assert(in_groups(n).is_prefix_of(value)) by {
        assert(value.take(in_groups(n).len() as int) =~= in_groups(n));
    }
    if n == 0 {
        lemma_nothing_in_percent(rows_stored(of.fragments));
        reveal_strlit("0.0%");
        assert(dec(0) =~= seq!['0']);
        assert(in_groups(0) =~= seq!['0']);
        assert(value =~= "0  (0.0%)"@);
    } else {
        crate::text::lemma_dec_digits(n);
        assert forall|k: int| 0 <= k < dec(n).len() implies #[trigger] dec(n)[k] != '_' by {
            assert(crate::text::is_digit(dec(n)[k]));
        }
        law_groups_are_of_three(dec(n), 0);
        assert(value[0] == dec(n)[0]);
        assert("0  (0.0%)"@[0] == '0');
    }
}

proof fn lemma_none_deleted(fragments: Seq<FragmentInfo>)
    ensures
        rows_deleted(fragments) == 0 <==> forall|i: int|
            0 <= i < fragments.len() ==> (#[trigger] fragments[i]).deleted_rows == 0,
    decreases fragments.len(),
{
    if fragments.len() > 0 {
        let rest = fragments.drop_first();
        lemma_none_deleted(rest);
        if rows_deleted(fragments) == 0 {
            assert forall|i: int| 0 <= i < fragments.len() implies (
            #[trigger] fragments[i]).deleted_rows == 0 by {
                if i > 0 {
                    assert(rest[i - 1].deleted_rows == 0);
                }
            }
        }
        if forall|i: int| 0 <= i < fragments.len() ==> (#[trigger] fragments[i]).deleted_rows == 0 {
            assert forall|i: int| 0 <= i < rest.len() implies (#[trigger] rest[i]).deleted_rows
                == 0 by {
                assert(fragments[i + 1].deleted_rows == 0);
            }
            assert(fragments[0].deleted_rows == 0);
        }
    }
}

// ---------- the object ----------

/// A number where there is one, and `null` where there is none.
pub open spec fn number_or_null(n: Option<int>) -> Seq<char> {
    match n {
        Some(x) => dec(x as nat),
        None => "null"@,
    }
}

/// The keys of the object, in their order.
pub open spec fn object_keys() -> Seq<Seq<char>> {
    seq![
        "path"@,
        "format"@,
        "manifest_version"@,
        "rows"@,
        "physical_rows"@,
        "deleted_rows"@,
        "deleted_ratio"@,
        "columns"@,
        "fragments"@,
        "fragment_min_rows"@,
        "fragment_max_rows"@,
        "fragment_median_rows"@,
        "data_size_bytes"@,
        "versions"@,
        "latest_version_timestamp"@,
        "branches"@,
        "tags"@,
        "num_indices"@,
        "indices"@,
        "compaction_hint"@,
    ]
}

/// The object holds the numbers of the listings: under each key stands the number
/// that the listings hold of it.
#[verifier::rlimit(40)]
pub proof fn law_object_shows_the_listings(
    s: DatasetStat,
    of: Listings,
    rows: Seq<u64>,
    ratio: Seq<char>,
)
    requires
        s.aggregates(of),
        is_spread(rows, of.fragments),
    ensures
        ({
            let m = stat_members(s, ratio);
            let some = of.fragments.len() > 0;
            &&& m.len() == object_keys().len()
            &&& forall|i: int| 0 <= i < m.len() ==> (#[trigger] m[i]).0 == object_keys()[i]
            &&& m.contains(("path"@, quoted(of.path)))
            &&& m.contains(("format"@, quoted("lance"@)))
            &&& m.contains(("manifest_version"@, dec(of.manifest_version as nat)))
            &&& m.contains(("rows"@, dec(rows_left(of.fragments))))
            &&& m.contains(("physical_rows"@, dec(rows_stored(of.fragments))))
            &&& m.contains(("deleted_rows"@, dec(rows_deleted(of.fragments))))
            &&& m.contains(("deleted_ratio"@, ratio))
            &&& m.contains(("columns"@, dec(of.columns as nat)))
            &&& m.contains(("fragments"@, dec(of.fragments.len())))
            &&& m.contains(
                (
                    "fragment_min_rows"@,
                    number_or_null(
                        if some {
                            Some(rows[0] as int)
                        } else {
                            None
                        },
                    ),
                ),
            )
            &&& m.contains(
                (
                    "fragment_max_rows"@,
                    number_or_null(
                        if some {
                            Some(rows.last() as int)
                        } else {
                            None
                        },
                    ),
                ),
            )
            &&& m.contains(
                (
                    "fragment_median_rows"@,
                    number_or_null(
                        if some {
                            Some(middle(rows))
                        } else {
                            None
                        },
                    ),
                ),
            )
            &&& m.contains(
                (
                    "data_size_bytes"@,
                    number_or_null(
                        if of.with_size {
                            Some(bytes_stored(of.fragments) as int)
                        } else {
                            None
                        },
                    ),
                ),
            )
            &&& m.contains(("versions"@, dec(of.versions.len())))
            &&& of.versions.len() == 0 ==> m.contains(("latest_version_timestamp"@, "null"@))
            &&& m.contains(("branches"@, dec(of.num_branches as nat)))
            &&& m.contains(("tags"@, dec(of.num_tags as nat)))
            &&& m.contains(("num_indices"@, dec(of.indices.len())))
            &&& m.contains(
                (
                    "indices"@,
                    array(
                        Seq::new(
                            of.indices.len(),
                            |i: int|
                                object(
                                    seq![
                                        ("name"@, quoted(of.indices[i].name@)),
                                        ("type"@, quoted(of.indices[i].index_type@)),
                                    ],
                                ),
                        ),
                    ),
                ),
            )
            &&& m.contains(("compaction_hint"@, opt_quoted(s.hint())))
        }),
{
    law_summary_holds_the_listings(s, of, rows);
    law_latest_has_the_highest_number(of.versions);
    let m = stat_members(s, ratio);
    lemma_holds(m, 0);
    lemma_holds(m, 1);
    lemma_holds(m, 2);
    lemma_holds(m, 3);
    lemma_holds(m, 4);
    lemma_holds(m, 5);
    lemma_holds(m, 6);
    lemma_holds(m, 7);
    lemma_holds(m, 8);
    lemma_holds(m, 9);
    lemma_holds(m, 10);
    lemma_holds(m, 11);
    lemma_holds(m, 12);
    lemma_holds(m, 13);
    lemma_holds(m, 14);
    lemma_holds(m, 15);
    lemma_holds(m, 16);
    lemma_holds(m, 17);
    lemma_holds(m, 18);
    lemma_holds(m, 19);
    let objects = Seq::new(
        of.indices.len(),
        |i: int|
            object(
                seq![
                    ("name"@, quoted(of.indices[i].name@)),
                    ("type"@, quoted(of.indices[i].index_type@)),
                ],
            ),
    );
    assert(pairs_of(s.indices@).map_values(
        |p: (Seq<char>, Seq<char>)|
            crate::commands::diff_common::pair_object("name"@, "type"@, p),
    ) =~= objects);
}

proof fn lemma_holds(m: Seq<(Seq<char>, Seq<char>)>, i: int)
    requires
        0 <= i < m.len(),
    ensures
        m.contains(m[i]),
{
}

/// The object says when the newest version was committed.
pub proof fn law_object_shows_the_newest_version(
    s: DatasetStat,
    of: Listings,
    v: VersionInfo,
    ratio: Seq<char>,
)
    requires
        s.aggregates(of),
        is_newest(v, of.versions),
    ensures
        stat_members(s, ratio).contains(
            ("latest_version_timestamp"@, quoted(rfc3339_seconds_text(v.timestamp))),
        ),
{
    law_table_shows_the_newest_version(s, of, v);
    lemma_holds(stat_members(s, ratio), 14);
}

// ---------- the hint ----------

/// There is a hint exactly where the fragments are many and small, or many of their
/// rows are deleted, and it names which. Many fragments are a hundred; they are
/// small where the middle one stores fewer than a hundred thousand rows.
pub proof fn law_hint_names_its_reasons(s: DatasetStat, of: Listings, rows: Seq<u64>)
    requires
        s.aggregates(of),
        is_spread(rows, of.fragments),
    ensures
        ({
            let small = of.fragments.len() >= 100 && middle(rows) < 100_000;
            let gone = s.many_deleted();
            s.hint() == if small && gone {
                Some("many small fragments, high deleted-row ratio; compaction would likely help"@)
            } else if small {
                Some("many small fragments; compaction would likely help"@)
            } else if gone {
                Some("high deleted-row ratio; compaction would likely help"@)
            } else {
                None
            }
        }),
{
    law_summary_holds_the_listings(s, of, rows);
}

} // verus!
