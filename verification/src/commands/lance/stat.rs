//! `stat`: a one-screen summary of a dataset, from metadata alone.
use vstd::prelude::*;
use vstd::slice::slice_subrange;

use crate::binary64::{at_least, of_count, quotient, Binary64};
use crate::cell::{batch_of_rows, batch_row, row_ok, rows_ok, typed_as, Cell};
use crate::cli::Format;
use crate::commands::common::{human, human_bytes};
use crate::commands::diff_common::{pair_array, pair_object};
use crate::commands::freq::{percent, percent_of};
use crate::commands::lance::diff::{opt_quote, opt_quoted};
use crate::dataset::{FragmentInfo, IndexInfo, Instant, VersionInfo};
use crate::json::{array, object, opt_view, pairs_of, quote, quoted, Members};
use crate::listing::{is_field, is_text, Listing};
use crate::output::temporal::{format_rfc3339_seconds, rfc3339_seconds_text};
use crate::schema::{DataType, Field, Kind, Schema};
use crate::sort::{number_order, sort, views_of, NumberOrder, Order};
use crate::text::{chars_of, dec, dec_u64, join, join_texts, text_of, texts};

verus! {

/// Number of fragments from which on the "many small fragments" hint may be given.
pub const MANY_FRAGMENTS: u64 = 100;

/// A fragment of fewer stored rows than this is small.
pub const SMALL_FRAGMENT_ROWS: u64 = 100_000;

/// The summary in raw form.
#[derive(Debug)]
pub struct DatasetStat {
    pub path: String,
    pub manifest_version: u64,
    /// Stored rows less deleted ones.
    pub rows: u64,
    pub physical_rows: u64,
    pub deleted_rows: u64,
    pub columns: u64,
    pub num_fragments: u64,
    /// The spread of stored rows; `None` without fragments.
    pub fragment_min_rows: Option<u64>,
    pub fragment_max_rows: Option<u64>,
    pub fragment_median_rows: Option<u64>,
    /// Summed size of the data files, where it was asked for.
    pub data_size_bytes: Option<u64>,
    pub num_versions: u64,
    pub latest_version_timestamp: Option<Instant>,
    pub num_branches: u64,
    pub num_tags: u64,
    /// Name and type of every index, in listing order.
    pub indices: Vec<(String, String)>,
}

// ---------- aggregation ----------

/// A sum over fragments.
pub open spec fn total(fragments: Seq<FragmentInfo>, f: spec_fn(FragmentInfo) -> nat) -> nat
    decreases fragments.len(),
{
    if fragments.len() == 0 {
        0
    } else {
        total(fragments.drop_last(), f) + f(fragments.last())
    }
}

pub open spec fn physical() -> spec_fn(FragmentInfo) -> nat {
    |f: FragmentInfo| f.physical_rows as nat
}

pub open spec fn deleted() -> spec_fn(FragmentInfo) -> nat {
    |f: FragmentInfo| f.deleted_rows as nat
}

pub open spec fn bytes() -> spec_fn(FragmentInfo) -> nat {
    |f: FragmentInfo|
        match f.size {
            Some(n) => n as nat,
            None => 0,
        }
}

proof fn lemma_total_prefix(fragments: Seq<FragmentInfo>, f: spec_fn(FragmentInfo) -> nat, n: int)
    requires
        0 <= n <= fragments.len(),
    ensures
        total(fragments.take(n), f) <= total(fragments, f),
    decreases fragments.len() - n,
{
    if n < fragments.len() {
        lemma_total_prefix(fragments, f, n + 1);
        assert(fragments.take(n + 1).drop_last() =~= fragments.take(n));
    } else {
        assert(fragments.take(n) =~= fragments);
    }
}

/// Stored rows and deleted rows of all fragments.
pub fn fragment_totals(fragments: &Vec<FragmentInfo>) -> (r: (u64, u64))
    requires
        total(fragments@, physical()) <= u64::MAX,
        total(fragments@, deleted()) <= u64::MAX,
    ensures
        r.0 == total(fragments@, physical()),
        r.1 == total(fragments@, deleted()),
{
    let mut p: u64 = 0;
    let mut d: u64 = 0;
    let mut i: usize = 0;
    proof {
        assert(fragments@.take(0) =~= Seq::<FragmentInfo>::empty());
    }
    while i < fragments.len()
        invariant
            i <= fragments@.len(),
            total(fragments@, physical()) <= u64::MAX,
            total(fragments@, deleted()) <= u64::MAX,
            p == total(fragments@.take(i as int), physical()),
            d == total(fragments@.take(i as int), deleted()),
        decreases fragments@.len() - i,
    {
        proof {
            lemma_total_prefix(fragments@, physical(), i + 1);
            lemma_total_prefix(fragments@, deleted(), i + 1);
            assert(fragments@.take(i + 1).drop_last() =~= fragments@.take(i as int));
            assert(fragments@.take(i + 1).last() == fragments@[i as int]);
        }
        p = p + fragments[i].physical_rows;
        d = d + fragments[i].deleted_rows;
        i += 1;
    }
    proof {
        assert(fragments@.take(fragments@.len() as int) =~= fragments@);
    }
    (p, d)
}

/// Bytes of all fragments.
pub fn fragment_bytes(fragments: &Vec<FragmentInfo>) -> (r: u64)
    requires
        total(fragments@, bytes()) <= u64::MAX,
    ensures
        r == total(fragments@, bytes()),
{
    let mut b: u64 = 0;
    let mut i: usize = 0;
    proof {
        assert(fragments@.take(0) =~= Seq::<FragmentInfo>::empty());
    }
    while i < fragments.len()
        invariant
            i <= fragments@.len(),
            total(fragments@, bytes()) <= u64::MAX,
            b == total(fragments@.take(i as int), bytes()),
        decreases fragments@.len() - i,
    {
        proof {
            lemma_total_prefix(fragments@, bytes(), i + 1);
            assert(fragments@.take(i + 1).drop_last() =~= fragments@.take(i as int));
            assert(fragments@.take(i + 1).last() == fragments@[i as int]);
        }
        if let Some(n) = fragments[i].size {
            b = b + n;
        }
        i += 1;
    }
    proof {
        assert(fragments@.take(fragments@.len() as int) =~= fragments@);
    }
    b
}

/// The stored rows of each fragment.
pub open spec fn stored(fragments: Seq<FragmentInfo>) -> Seq<u64> {
    fragments.map_values(|f: FragmentInfo| f.physical_rows)
}

/// The stored rows of the fragments, in ascending order.
pub open spec fn sorted_rows(fragments: Seq<FragmentInfo>) -> Seq<u64> {
    stored(fragments).sort_by(number_order())
}

/// The middle value of a sorted list, or the mean of the two middle ones rounded up.
pub open spec fn median(sorted: Seq<u64>) -> int {
    let n = sorted.len() as int;
    if n % 2 == 0 {
        (sorted[n / 2 - 1] + sorted[n / 2] + 1) / 2
    } else {
        sorted[n / 2] as int
    }
}

/// Median of a sorted list, rounded up.
pub fn median_u64(sorted: &[u64]) -> (r: u64)
    requires
        sorted@.len() > 0,
    ensures
        r == median(sorted@),
{
    let n: usize = sorted.len();
    if n % 2 == 0 {
        let sum: u128 = sorted[n / 2 - 1] as u128 + sorted[n / 2] as u128 + 1;
        (sum / 2) as u64
    } else {
        sorted[n / 2]
    }
}

/// The version of the highest number; the last listed of several.
pub open spec fn latest(versions: Seq<VersionInfo>) -> Option<VersionInfo>
    decreases versions.len(),
{
    if versions.len() == 0 {
        None
    } else {
        match latest(versions.drop_last()) {
            None => Some(versions.last()),
            Some(best) => if versions.last().version >= best.version {
                Some(versions.last())
            } else {
                Some(best)
            },
        }
    }
}

fn latest_timestamp(versions: &Vec<VersionInfo>) -> (r: Option<Instant>)
    ensures
        match latest(versions@) {
            Some(v) => r == Some(v.timestamp),
            None => r is None,
        },
{
    let mut best: Option<usize> = None;
    let mut i: usize = 0;
    proof {
        assert(versions@.take(0) =~= Seq::<VersionInfo>::empty());
    }
    while i < versions.len()
        invariant
            i <= versions@.len(),
            match best {
                Some(at) => at < versions@.len() && latest(versions@.take(i as int)) == Some(
                    versions@[at as int],
                ),
                None => latest(versions@.take(i as int)) is None,
            },
        decreases versions@.len() - i,
    {
        proof {
            assert(versions@.take(i + 1).drop_last() =~= versions@.take(i as int));
            assert(versions@.take(i + 1).last() == versions@[i as int]);
        }
        let newer = match best {
            Some(at) => versions[i].version >= versions[at].version,
            None => true,
        };
        if newer {
            best = Some(i);
        }
        i += 1;
    }
    proof {
        assert(versions@.take(versions@.len() as int) =~= versions@);
    }
    match best {
        Some(at) => Some(versions[at].timestamp),
        None => None,
    }
}

/// The names and types of the indices.
pub open spec fn index_pairs(indices: Seq<IndexInfo>) -> Seq<(Seq<char>, Seq<char>)> {
    indices.map_values(|i: IndexInfo| (i.name@, i.index_type@))
}

fn collect_indices(indices: &Vec<IndexInfo>) -> (r: Vec<(String, String)>)
    ensures
        pairs_of(r@) == index_pairs(indices@),
{
    let ghost all = index_pairs(indices@);
    let mut out: Vec<(String, String)> = Vec::new();
    let mut i: usize = 0;
    proof {
        assert(pairs_of(out@) =~= all.take(0));
    }
    while i < indices.len()
        invariant
            all == index_pairs(indices@),
            i <= indices@.len(),
            pairs_of(out@) == all.take(i as int),
        decreases indices@.len() - i,
    {
        let ghost before = out@;
        let pair = (indices[i].name.clone(), indices[i].index_type.clone());
        out.push(pair);
        proof {
            assert(pairs_of(out@) =~= pairs_of(before).push((pair.0@, pair.1@)));
            assert(all.take(i + 1) =~= all.take(i as int).push(all[i as int]));
        }
        i += 1;
    }
    proof {
        assert(all.take(all.len() as int) =~= all);
    }
    out
}

fn collect_rows(fragments: &Vec<FragmentInfo>) -> (r: Vec<u64>)
    ensures
        r@ == sorted_rows(fragments@),
{
    let ghost all = stored(fragments@);
    let mut out: Vec<u64> = Vec::new();
    let mut i: usize = 0;
    while i < fragments.len()
        invariant
            all == stored(fragments@),
            i <= fragments@.len(),
            out@ == all.take(i as int),
        decreases fragments@.len() - i,
    {
        out.push(fragments[i].physical_rows);
        proof {
            assert(all.take(i + 1) =~= all.take(i as int).push(all[i as int]));
        }
        i += 1;
    }
    proof {
        assert(all.take(all.len() as int) =~= all);
        assert(views_of(out@) =~= out@);
    }
    let sorted = sort(out, &NumberOrder);
    proof {
        assert(views_of(sorted@) =~= sorted@);
    }
    sorted
}

proof fn lemma_sorted_len(s: Seq<u64>)
    ensures
        s.sort_by(number_order()).len() == s.len(),
{
    broadcast use vstd::seq_lib::group_to_multiset_ensures;

    NumberOrder.lemma_total();
    s.lemma_sort_by_ensures(number_order());
    assert(s.to_multiset().len() == s.len());
    assert(s.sort_by(number_order()).to_multiset().len() == s.sort_by(number_order()).len());
}

/// What a summary aggregates.
pub struct Listings {
    pub path: Seq<char>,
    pub manifest_version: u64,
    pub columns: u64,
    pub fragments: Seq<FragmentInfo>,
    pub versions: Seq<VersionInfo>,
    pub num_branches: u64,
    pub num_tags: u64,
    pub indices: Seq<IndexInfo>,
    pub with_size: bool,
}

impl DatasetStat {
    /// True where this is the summary of the listings.
    pub open spec fn aggregates(&self, of: Listings) -> bool {
        &&& self.path@ == of.path
        &&& self.manifest_version == of.manifest_version
        &&& self.columns == of.columns
        &&& self.num_branches == of.num_branches
        &&& self.num_tags == of.num_tags
        &&& self.physical_rows == total(of.fragments, physical())
        &&& self.deleted_rows == total(of.fragments, deleted())
        &&& self.rows == if self.physical_rows >= self.deleted_rows {
            self.physical_rows - self.deleted_rows
        } else {
            0
        }
        &&& self.num_fragments == of.fragments.len()
        &&& ({
            let rows = sorted_rows(of.fragments);
            if of.fragments.len() == 0 {
                self.fragment_min_rows is None && self.fragment_max_rows is None
                    && self.fragment_median_rows is None
            } else {
                &&& self.fragment_min_rows == Some(rows[0])
                &&& self.fragment_max_rows == Some(rows.last())
                &&& self.fragment_median_rows matches Some(m) && m == median(rows)
            }
        })
        &&& match self.data_size_bytes {
            Some(n) => of.with_size && n == total(of.fragments, bytes()),
            None => !of.with_size,
        }
        &&& self.num_versions == of.versions.len()
        &&& match latest(of.versions) {
            Some(v) => self.latest_version_timestamp == Some(v.timestamp),
            None => self.latest_version_timestamp is None,
        }
        &&& pairs_of(self.indices@) == index_pairs(of.indices)
    }
}

/// Aggregate the listings of a dataset.
pub fn build_stat(
    path: String,
    manifest_version: u64,
    columns: u64,
    fragments: &Vec<FragmentInfo>,
    versions: &Vec<VersionInfo>,
    num_branches: u64,
    num_tags: u64,
    indices: &Vec<IndexInfo>,
    with_size: bool,
) -> (r: DatasetStat)
    requires
        total(fragments@, physical()) <= u64::MAX,
        total(fragments@, deleted()) <= u64::MAX,
        with_size ==> total(fragments@, bytes()) <= u64::MAX,
    ensures
        r.aggregates(
            (Listings {
                path: path@,
                manifest_version,
                columns,
                fragments: fragments@,
                versions: versions@,
                num_branches,
                num_tags,
                indices: indices@,
                with_size,
            }),
        ),
{
    let (physical_rows, deleted_rows) = fragment_totals(fragments);
    let rows: u64 = if physical_rows >= deleted_rows {
        physical_rows - deleted_rows
    } else {
        0
    };
    let frag_rows = collect_rows(fragments);
    proof {
        lemma_sorted_len(stored(fragments@));
    }
    let (min, max, median) = if frag_rows.len() == 0 {
        (None, None, None)
    } else {
        (
            Some(frag_rows[0]),
            Some(frag_rows[frag_rows.len() - 1]),
            Some(median_u64(frag_rows.as_slice())),
        )
    };
    DatasetStat {
        path,
        manifest_version,
        rows,
        physical_rows,
        deleted_rows,
        columns,
        num_fragments: fragments.len() as u64,
        fragment_min_rows: min,
        fragment_max_rows: max,
        fragment_median_rows: median,
        data_size_bytes: if with_size {
            Some(fragment_bytes(fragments))
        } else {
            None
        },
        num_versions: versions.len() as u64,
        latest_version_timestamp: latest_timestamp(versions),
        num_branches,
        num_tags,
        indices: collect_indices(indices),
    }
}

// ---------- the hint ----------

impl DatasetStat {
    /// True where at least a tenth of the stored rows are deleted.
    pub open spec fn many_deleted(&self) -> bool {
        let ratio = quotient(of_count(self.deleted_rows as nat), of_count(self.physical_rows as nat));
        self.physical_rows > 0 && ratio.0 > 0 && at_least(ratio, (7205759403792794, -56))
    }

    /// True where there are many fragments and most of them are small.
    pub open spec fn many_small(&self) -> bool {
        self.num_fragments >= MANY_FRAGMENTS && (self.fragment_median_rows matches Some(m) && m
            < SMALL_FRAGMENT_ROWS)
    }

    /// Why compaction would help, where something stands out.
    pub open spec fn hint(&self) -> Option<Seq<char>> {
        if self.many_small() && self.many_deleted() {
            Some(
                "many small fragments, high deleted-row ratio; compaction would likely help"@,
            )
        } else if self.many_small() {
            Some("many small fragments; compaction would likely help"@)
        } else if self.many_deleted() {
            Some("high deleted-row ratio; compaction would likely help"@)
        } else {
            None
        }
    }

    fn has_many_deleted(&self) -> (r: bool)
        ensures
            r == self.many_deleted(),
    {
        if self.physical_rows == 0 {
            return false;
        }
        let ratio = Binary64::of(self.deleted_rows).over(Binary64::of(self.physical_rows));
        ratio.reaches(Binary64 { m: 7205759403792794, e: -56 })
    }
}

/// A conservative hint that compaction would help.
pub fn compaction_hint(s: &DatasetStat) -> (r: Option<String>)
    ensures
        opt_view(r) == s.hint(),
{
    let small = s.num_fragments >= MANY_FRAGMENTS && match s.fragment_median_rows {
        Some(m) => m < SMALL_FRAGMENT_ROWS,
        None => false,
    };
    let deleted = s.has_many_deleted();
    if small && deleted {
        Some(
            "many small fragments, high deleted-row ratio; compaction would likely help".to_owned(),
        )
    } else if small {
        Some("many small fragments; compaction would likely help".to_owned())
    } else if deleted {
        Some("high deleted-row ratio; compaction would likely help".to_owned())
    } else {
        None
    }
}

// ---------- digits in groups ----------

/// Digits in groups of three, separated by `_`.
pub open spec fn grouped(digits: Seq<char>) -> Seq<char>
    decreases digits.len(),
{
    if digits.len() <= 3 {
        digits
    } else {
        grouped(digits.take(digits.len() - 3)) + "_"@ + digits.skip(digits.len() - 3)
    }
}

fn group_chars(digits: &[char]) -> (r: String)
    ensures
        r@ == grouped(digits@),
    decreases digits@.len(),
{
    let n: usize = digits.len();
    if n <= 3 {
        text_of(digits)
    } else {
        let mut s = group_chars(slice_subrange(digits, 0, n - 3));
        s.append("_");
        s.append(text_of(slice_subrange(digits, n - 3, n)).as_str());
        proof {
            assert(digits@.subrange(0, n - 3) =~= digits@.take(n - 3));
            assert(digits@.subrange(n - 3, n as int) =~= digits@.skip(n - 3));
        }
        s
    }
}

/// Format an integer with `_` between groups of three digits.
pub fn group_digits(n: u64) -> (r: String)
    ensures
        r@ == grouped(dec(n as nat)),
{
    let digits = chars_of(dec_u64(n).as_str());
    group_chars(digits.as_slice())
}

/// The text without its underscores.
pub open spec fn ungrouped(s: Seq<char>) -> Seq<char> {
    s.filter(|c: char| c != '_')
}

/// Grouping loses no digit: without the separators the number stands as it was.
pub proof fn law_grouping_keeps_digits(digits: Seq<char>)
    requires
        forall|i: int| 0 <= i < digits.len() ==> #[trigger] digits[i] != '_',
    ensures
        ungrouped(grouped(digits)) == digits,
    decreases digits.len(),
{
    let keep = |c: char| c != '_';
    if digits.len() <= 3 {
        lemma_filter_all(digits, keep);
    } else {
        let front = digits.take(digits.len() - 3);
        let back = digits.skip(digits.len() - 3);
        law_grouping_keeps_digits(front);
        lemma_filter_all(back, keep);
        reveal_strlit("_");
        assert("_"@ =~= seq!['_']);
        Seq::filter_distributes_over_add(grouped(front) + "_"@, back, keep);
        Seq::filter_distributes_over_add(grouped(front), "_"@, keep);
        assert("_"@.filter(keep) =~= Seq::<char>::empty()) by {
            reveal_with_fuel(Seq::filter, 2);
        }
        assert(front + Seq::<char>::empty() + back =~= digits);
    }
}

proof fn lemma_filter_all(s: Seq<char>, keep: spec_fn(char) -> bool)
    requires
        forall|i: int| 0 <= i < s.len() ==> keep(#[trigger] s[i]),
    ensures
        s.filter(keep) == s,
    decreases s.len(),
{
    reveal(Seq::filter);
    if s.len() > 0 {
        lemma_filter_all(s.drop_last(), keep);
        assert(keep(s[s.len() - 1]));
        assert(s.drop_last().push(s.last()) =~= s);
    }
}

// ---------- rendering ----------

pub open spec fn fragments_shown(s: DatasetStat) -> Seq<char> {
    match (s.fragment_min_rows, s.fragment_max_rows, s.fragment_median_rows) {
        (Some(min), Some(max), Some(median)) => grouped(dec(s.num_fragments as nat)) + "  (min "@
            + grouped(dec(min as nat)) + " rows, max "@ + grouped(dec(max as nat))
            + " rows, median "@ + grouped(dec(median as nat)) + ")"@,
        _ => grouped(dec(s.num_fragments as nat)),
    }
}

fn fragments_display(s: &DatasetStat) -> (r: String)
    ensures
        r@ == fragments_shown(*s),
{
    match (s.fragment_min_rows, s.fragment_max_rows, s.fragment_median_rows) {
        (Some(min), Some(max), Some(median)) => {
            let mut t = group_digits(s.num_fragments);
            t.append("  (min ");
            t.append(group_digits(min).as_str());
            t.append(" rows, max ");
            t.append(group_digits(max).as_str());
            t.append(" rows, median ");
            t.append(group_digits(median).as_str());
            t.append(")");
            t
        },
        _ => group_digits(s.num_fragments),
    }
}

pub open spec fn versions_shown(s: DatasetStat) -> Seq<char> {
    match s.latest_version_timestamp {
        Some(t) => grouped(dec(s.num_versions as nat)) + "  (latest "@ + rfc3339_seconds_text(t)
            + ")"@,
        None => grouped(dec(s.num_versions as nat)),
    }
}

fn versions_display(s: &DatasetStat) -> (r: String)
    requires
        s.latest_version_timestamp matches Some(t) ==> t.wf(),
    ensures
        r@ == versions_shown(*s),
{
    match s.latest_version_timestamp {
        Some(ts) => {
            let mut t = group_digits(s.num_versions);
            t.append("  (latest ");
            t.append(format_rfc3339_seconds(ts).as_str());
            t.append(")");
            t
        },
        None => group_digits(s.num_versions),
    }
}

/// Each index as its name and its type.
pub open spec fn index_labels(pairs: Seq<(Seq<char>, Seq<char>)>) -> Seq<Seq<char>> {
    pairs.map_values(|p: (Seq<char>, Seq<char>)| p.0 + " "@ + p.1)
}

pub open spec fn indices_shown(s: DatasetStat) -> Seq<char> {
    if s.indices@.len() == 0 {
        grouped(dec(0))
    } else {
        grouped(dec(s.indices@.len())) + "  ("@ + join(index_labels(pairs_of(s.indices@)), ", "@)
            + ")"@
    }
}

fn indices_display(s: &DatasetStat) -> (r: String)
    ensures
        r@ == indices_shown(*s),
{
    if s.indices.len() == 0 {
        return group_digits(0);
    }
    let ghost all = index_labels(pairs_of(s.indices@));
    let mut list: Vec<String> = Vec::new();
    let mut i: usize = 0;
    proof {
        assert(texts(list@) =~= all.take(0));
    }
    while i < s.indices.len()
        invariant
            all == index_labels(pairs_of(s.indices@)),
            i <= s.indices@.len(),
            texts(list@) == all.take(i as int),
        decreases s.indices@.len() - i,
    {
        let ghost before = list@;
        let mut t = s.indices[i].0.clone();
        t.append(" ");
        t.append(s.indices[i].1.as_str());
        proof {
            assert(t@ == all[i as int]);
            assert(all.take(i + 1) =~= all.take(i as int).push(all[i as int]));
        }
        list.push(t);
        proof {
            assert(texts(list@) =~= texts(before).push(all[i as int]));
        }
        i += 1;
    }
    proof {
        assert(all.take(all.len() as int) =~= all);
    }
    let mut t = group_digits(s.indices.len() as u64);
    t.append("  (");
    t.append(join_texts(list.as_slice(), ", ").as_str());
    t.append(")");
    t
}

/// The metrics and their values, in order, as a table shows them.
pub open spec fn metrics(s: DatasetStat) -> Seq<(Seq<char>, Seq<char>)> {
    seq![
        ("path"@, s.path@),
        ("format"@, "lance (manifest version "@ + dec(s.manifest_version as nat) + ")"@),
        ("rows"@, grouped(dec(s.rows as nat))),
        (
            "deleted rows"@,
            grouped(dec(s.deleted_rows as nat)) + "  ("@ + percent_of(
                s.deleted_rows as nat,
                s.physical_rows as nat,
            ) + ")"@,
        ),
        ("columns"@, grouped(dec(s.columns as nat))),
        ("fragments"@, fragments_shown(s)),
        (
            "data size"@,
            match s.data_size_bytes {
                Some(n) => human(n as nat),
                None => "n/a (--no-size)"@,
            },
        ),
        ("versions"@, versions_shown(s)),
        ("branches"@, grouped(dec(s.num_branches as nat))),
        ("tags"@, grouped(dec(s.num_tags as nat))),
        ("indices"@, indices_shown(s)),
    ]
}

fn metric(out: &mut Vec<(String, String)>, name: &str, value: String)
    ensures
        pairs_of(final(out)@) == pairs_of(old(out)@).push((name@, value@)),
{
    let ghost before = out@;
    out.push((name.to_owned(), value));
    proof {
        assert(pairs_of(out@) =~= pairs_of(before).push((name@, value@)));
    }
}

/// The metrics and their values, in order, as a table shows them.
pub fn table_rows(s: &DatasetStat) -> (r: Vec<(String, String)>)
    requires
        s.latest_version_timestamp matches Some(t) ==> t.wf(),
    ensures
        pairs_of(r@) == metrics(*s),
{
    let mut format = "lance (manifest version ".to_owned();
    format.append(dec_u64(s.manifest_version).as_str());
    format.append(")");
    let mut deleted = group_digits(s.deleted_rows);
    deleted.append("  (");
    deleted.append(percent(s.deleted_rows, s.physical_rows).as_str());
    deleted.append(")");
    let size = match s.data_size_bytes {
        Some(n) => human_bytes(n),
        None => "n/a (--no-size)".to_owned(),
    };
    let mut out: Vec<(String, String)> = Vec::new();
    metric(&mut out, "path", s.path.clone());
    metric(&mut out, "format", format);
    metric(&mut out, "rows", group_digits(s.rows));
    metric(&mut out, "deleted rows", deleted);
    metric(&mut out, "columns", group_digits(s.columns));
    metric(&mut out, "fragments", fragments_display(s));
    metric(&mut out, "data size", size);
    metric(&mut out, "versions", versions_display(s));
    metric(&mut out, "branches", group_digits(s.num_branches));
    metric(&mut out, "tags", group_digits(s.num_tags));
    metric(&mut out, "indices", indices_display(s));
    proof {
        assert(pairs_of(out@) =~= metrics(*s));
    }
    out
}

/// True of the columns of the `stat` table.
pub open spec fn is_stat_schema(fields: Seq<Field>) -> bool {
    &&& fields.len() == 2
    &&& is_field(fields[0], "metric"@, Kind::Utf8, false)
    &&& is_field(fields[1], "value"@, Kind::Utf8, false)
}

/// The summary as a table of two columns.
pub fn stat_table(s: &DatasetStat) -> (r: Listing)
    requires
        s.latest_version_timestamp matches Some(t) ==> t.wf(),
    ensures
        is_stat_schema(r.schema.fields@),
        typed_as(r.batch, r.schema.fields@),
        r.batch.wf(),
        r.batch.rows == metrics(*s).len(),
        forall|i: int|
            0 <= i < metrics(*s).len() ==> {
                let row = #[trigger] batch_row(r.batch, i);
                row.len() == 2 && is_text(row[0], Some(metrics(*s)[i].0)) && is_text(
                    row[1],
                    Some(metrics(*s)[i].1),
                )
            },
{
    let pairs = table_rows(s);
    let ghost all = metrics(*s);
    let mut rows: Vec<Vec<Cell>> = Vec::new();
    let mut i: usize = 0;
    proof {
        assert(pairs_of(pairs@).len() == pairs@.len());
    }
    while i < pairs.len()
        invariant
            all == pairs_of(pairs@),
            i <= pairs@.len(),
            rows@.len() == i,
            rows_ok(rows@, 2),
            forall|j: int|
                0 <= j < i ==> (#[trigger] rows@[j])@.len() == 2 && is_text(
                    rows@[j]@[0],
                    Some(all[j].0),
                ) && is_text(rows@[j]@[1], Some(all[j].1)),
        decreases pairs@.len() - i,
    {
        let mut row: Vec<Cell> = Vec::new();
        row.push(Cell::Text(pairs[i].0.clone()));
        row.push(Cell::Text(pairs[i].1.clone()));
        proof {
            assert(all[i as int] == (pairs@[i as int].0@, pairs@[i as int].1@));
            assert(row_ok(row, 2));
        }
        rows.push(row);
        i += 1;
    }
    let mut fields: Vec<Field> = Vec::new();
    fields.push(Field::new("metric", DataType::utf8(), false));
    fields.push(Field::new("value", DataType::utf8(), false));
    let schema = Schema::new(fields);
    let batch = batch_of_rows(&schema.fields, rows);
    Listing { schema, batch }
}

// ---------- JSON ----------

/// An optional number as JSON.
pub open spec fn opt_number(n: Option<u64>) -> Seq<char> {
    match n {
        Some(x) => dec(x as nat),
        None => "null"@,
    }
}

fn opt_number_text(n: Option<u64>) -> (r: String)
    ensures
        r@ == opt_number(n),
{
    match n {
        Some(x) => dec_u64(x),
        None => "null".to_owned(),
    }
}

/// An optional instant as JSON.
pub open spec fn opt_time(t: Option<Instant>) -> Seq<char> {
    match t {
        Some(x) => quoted(rfc3339_seconds_text(x)),
        None => "null"@,
    }
}

/// The summary as JSON members, with the deleted ratio given as JSON text.
pub open spec fn stat_members(s: DatasetStat, ratio: Seq<char>) -> Seq<(Seq<char>, Seq<char>)> {
    seq![
        ("path"@, quoted(s.path@)),
        ("format"@, quoted("lance"@)),
        ("manifest_version"@, dec(s.manifest_version as nat)),
        ("rows"@, dec(s.rows as nat)),
        ("physical_rows"@, dec(s.physical_rows as nat)),
        ("deleted_rows"@, dec(s.deleted_rows as nat)),
        ("deleted_ratio"@, ratio),
        ("columns"@, dec(s.columns as nat)),
        ("fragments"@, dec(s.num_fragments as nat)),
        ("fragment_min_rows"@, opt_number(s.fragment_min_rows)),
        ("fragment_max_rows"@, opt_number(s.fragment_max_rows)),
        ("fragment_median_rows"@, opt_number(s.fragment_median_rows)),
        ("data_size_bytes"@, opt_number(s.data_size_bytes)),
        ("versions"@, dec(s.num_versions as nat)),
        ("latest_version_timestamp"@, opt_time(s.latest_version_timestamp)),
        ("branches"@, dec(s.num_branches as nat)),
        ("tags"@, dec(s.num_tags as nat)),
        ("num_indices"@, dec(s.indices@.len())),
        (
            "indices"@,
            array(
                pairs_of(s.indices@).map_values(
                    |p: (Seq<char>, Seq<char>)| pair_object("name"@, "type"@, p),
                ),
            ),
        ),
        ("compaction_hint"@, opt_quoted(s.hint())),
    ]
}

/// The summary as one JSON object of raw numbers. `ratio` is the JSON text of the
/// deleted rows divided by the stored ones, zero where there are none.
#[verifier::rlimit(40)]
pub fn stat_json(s: &DatasetStat, ratio: &str) -> (r: String)
    requires
        s.latest_version_timestamp matches Some(t) ==> t.wf(),
    ensures
        r@ == object(stat_members(*s, ratio@)),
{
    let latest = match s.latest_version_timestamp {
        Some(t) => quote(format_rfc3339_seconds(t).as_str()),
        None => "null".to_owned(),
    };
    let hint = compaction_hint(s);
    let mut m = Members::new();
    m.add_new("path", quote(s.path.as_str()));
    m.add_new("format", quote("lance"));
    m.add_new("manifest_version", dec_u64(s.manifest_version));
    m.add_new("rows", dec_u64(s.rows));
    m.add_new("physical_rows", dec_u64(s.physical_rows));
    m.add_new("deleted_rows", dec_u64(s.deleted_rows));
    m.add_new("deleted_ratio", ratio.to_owned());
    m.add_new("columns", dec_u64(s.columns));
    m.add_new("fragments", dec_u64(s.num_fragments));
    m.add_new("fragment_min_rows", opt_number_text(s.fragment_min_rows));
    m.add_new("fragment_max_rows", opt_number_text(s.fragment_max_rows));
    m.add_new("fragment_median_rows", opt_number_text(s.fragment_median_rows));
    m.add_new("data_size_bytes", opt_number_text(s.data_size_bytes));
    m.add_new("versions", dec_u64(s.num_versions));
    m.add_new("latest_version_timestamp", latest);
    m.add_new("branches", dec_u64(s.num_branches));
    m.add_new("tags", dec_u64(s.num_tags));
    m.add_new("num_indices", dec_u64(s.indices.len() as u64));
    m.add_new("indices", pair_array(&s.indices, "name", "type"));
    m.add_new("compaction_hint", opt_quote(&hint));
    proof {
        assert(m@ =~= stat_members(*s, ratio@));
    }
    m.text()
}

/// The line below a table: the hint, where there is one.
pub fn trailer(s: &DatasetStat, format: Format) -> (r: Option<String>)
    ensures
        match s.hint() {
            Some(h) => if format == Format::Table {
                r matches Some(line) && line@ == "note: "@ + h
            } else {
                r is None
            },
            None => r is None,
        },
{
    if format != Format::Table {
        return None;
    }
    match compaction_hint(s) {
        Some(h) => {
            let mut line = "note: ".to_owned();
            line.append(h.as_str());
            Some(line)
        },
        None => None,
    }
}

/// A dataset without deleted rows never gets the deleted-row hint.
pub proof fn law_no_deletions_no_ratio_hint(s: DatasetStat)
    requires
        s.deleted_rows == 0,
    ensures
        !s.many_deleted(),
{
}

// ---------- laws of the summary ----------

/// A value taken out of the middle leaves the rest of the sum.
proof fn lemma_total_remove(
    fragments: Seq<FragmentInfo>,
    f: spec_fn(FragmentInfo) -> nat,
    k: int,
)
    requires
        0 <= k < fragments.len(),
    ensures
        total(fragments, f) == total(fragments.remove(k), f) + f(fragments[k]),
    decreases fragments.len(),
{
    if k < fragments.len() - 1 {
        let init = fragments.drop_last();
        lemma_total_remove(init, f, k);
        assert(fragments.remove(k).drop_last() =~= init.remove(k));
        assert(fragments.remove(k).last() == fragments.last());
    } else {
        assert(fragments.remove(k) =~= fragments.drop_last());
    }
}

/// Fragments in another order have the same sums and the same row counts.
proof fn lemma_same_fragments(
    a: Seq<FragmentInfo>,
    b: Seq<FragmentInfo>,
    f: spec_fn(FragmentInfo) -> nat,
)
    requires
        a.to_multiset() == b.to_multiset(),
    ensures
        a.len() == b.len(),
        total(a, f) == total(b, f),
        stored(a).to_multiset() == stored(b).to_multiset(),
    decreases a.len(),
{
    broadcast use vstd::seq_lib::group_to_multiset_ensures;

    assert(a.to_multiset().len() == a.len());
    assert(b.to_multiset().len() == b.len());
    if a.len() == 0 {
        assert(a =~= b);
    } else {
        let last = a.len() - 1;
        let x = a[last];
        assert(a.contains(x));
        assert(a.to_multiset().count(x) > 0);
        assert(b.contains(x));
        let k = choose|k: int| 0 <= k < b.len() && b[k] == x;
        assert(a.remove(last).to_multiset() =~= b.remove(k).to_multiset());
        lemma_same_fragments(a.remove(last), b.remove(k), f);
        lemma_total_remove(a, f, last);
        lemma_total_remove(b, f, k);
        assert(stored(a).remove(last) =~= stored(a.remove(last)));
        assert(stored(b).remove(k) =~= stored(b.remove(k)));
        assert(stored(a)[last] == stored(b)[k]);
        assert(stored(a).to_multiset() =~= stored(a).remove(last).to_multiset().insert(
            stored(a)[last],
        )) by {
            lemma_put_back(stored(a), last);
        }
        assert(stored(b).to_multiset() =~= stored(b).remove(k).to_multiset().insert(
            stored(b)[k],
        )) by {
            lemma_put_back(stored(b), k);
        }
    }
}

proof fn lemma_put_back(s: Seq<u64>, k: int)
    requires
        0 <= k < s.len(),
    ensures
        s.to_multiset() == s.remove(k).to_multiset().insert(s[k]),
{
    broadcast use vstd::seq_lib::group_to_multiset_ensures;

    assert(s.contains(s[k]));
    assert(s.to_multiset().count(s[k]) > 0);
    assert(s.remove(k).to_multiset() =~= s.to_multiset().remove(s[k]));
    assert(s.to_multiset() =~= s.to_multiset().remove(s[k]).insert(s[k]));
}

/// True where no two versions have the same number.
pub open spec fn distinct_versions(versions: Seq<VersionInfo>) -> bool {
    forall|i: int, j: int|
        0 <= i < j < versions.len() ==> (#[trigger] versions[i]).version != (
        #[trigger] versions[j]).version
}

/// The latest version is one of those listed, and none has a higher number.
pub proof fn law_latest_has_the_highest_number(versions: Seq<VersionInfo>)
    ensures
        latest(versions) is None <==> versions.len() == 0,
        latest(versions) matches Some(v) ==> versions.contains(v) && forall|i: int|
            0 <= i < versions.len() ==> (#[trigger] versions[i]).version <= v.version,
    decreases versions.len(),
{
    if versions.len() > 0 {
        let init = versions.drop_last();
        law_latest_has_the_highest_number(init);
        assert(versions[versions.len() - 1] == versions.last());
        if let Some(best) = latest(init) {
            let k = choose|k: int| 0 <= k < init.len() && init[k] == best;
            assert(versions[k] == best);
            assert forall|i: int| 0 <= i < versions.len() implies (#[trigger] versions[i]).version
                <= latest(versions)->Some_0.version by {
                if i < init.len() {
                    assert(init[i].version <= best.version);
                }
            }
        }
    }
}

proof fn lemma_same_latest(a: Seq<VersionInfo>, b: Seq<VersionInfo>)
    requires
        a.to_multiset() == b.to_multiset(),
        distinct_versions(a),
    ensures
        a.len() == b.len(),
        latest(a) == latest(b),
{
    broadcast use vstd::seq_lib::group_to_multiset_ensures;

    assert(a.to_multiset().len() == a.len());
    assert(b.to_multiset().len() == b.len());
    law_latest_has_the_highest_number(a);
    law_latest_has_the_highest_number(b);
    if a.len() > 0 {
        let v = latest(a)->Some_0;
        let w = latest(b)->Some_0;
        assert(a.to_multiset().count(v) > 0);
        assert(b.contains(v));
        assert(b.to_multiset().count(w) > 0);
        assert(a.contains(w));
        let i = choose|i: int| 0 <= i < a.len() && a[i] == v;
        let j = choose|j: int| 0 <= j < a.len() && a[j] == w;
        let k = choose|k: int| 0 <= k < b.len() && b[k] == v;
        assert(a[j].version <= v.version);
        assert(b[k].version <= w.version);
        if i < j {
            assert(a[i].version != a[j].version);
        } else if j < i {
            assert(a[j].version != a[i].version);
        }
    }
}

/// The order in which fragments and versions are listed does not matter.
pub proof fn law_listing_order_does_not_matter(
    s: DatasetStat,
    t: DatasetStat,
    of: Listings,
    other: Listings,
)
    requires
        s.aggregates(of),
        t.aggregates(other),
        other == (Listings { fragments: other.fragments, versions: other.versions, ..of }),
        of.fragments.to_multiset() == other.fragments.to_multiset(),
        of.versions.to_multiset() == other.versions.to_multiset(),
        distinct_versions(of.versions),
    ensures
        s.path@ == t.path@,
        pairs_of(s.indices@) == pairs_of(t.indices@),
        s == (DatasetStat { path: s.path, indices: s.indices, ..t }),
{
    lemma_same_fragments(of.fragments, other.fragments, physical());
    lemma_same_fragments(of.fragments, other.fragments, deleted());
    lemma_same_fragments(of.fragments, other.fragments, bytes());
    lemma_same_latest(of.versions, other.versions);
    NumberOrder.lemma_total();
    let a = stored(of.fragments);
    let b = stored(other.fragments);
    a.lemma_sort_by_ensures(number_order());
    b.lemma_sort_by_ensures(number_order());
    vstd::seq_lib::lemma_sorted_unique(
        a.sort_by(number_order()),
        b.sort_by(number_order()),
        number_order(),
    );
}

/// The smallest fragment, the middle and the largest stand in that order, and all of
/// them are there exactly where there are fragments; the size is there exactly where
/// it was asked for.
pub proof fn law_spread_is_ordered(s: DatasetStat, of: Listings)
    requires
        s.aggregates(of),
    ensures
        of.fragments.len() == 0 <==> s.fragment_min_rows is None,
        of.fragments.len() == 0 <==> s.fragment_median_rows is None,
        of.fragments.len() == 0 <==> s.fragment_max_rows is None,
        of.fragments.len() > 0 ==> s.fragment_min_rows->Some_0 <= s.fragment_median_rows->Some_0
            <= s.fragment_max_rows->Some_0,
        s.data_size_bytes is Some <==> of.with_size,
{
    let rows = sorted_rows(of.fragments);
    lemma_sorted_len(stored(of.fragments));
    NumberOrder.lemma_total();
    stored(of.fragments).lemma_sort_by_ensures(number_order());
    let n = rows.len() as int;
    if n > 0 {
        let le = number_order();
        assert forall|i: int| 0 <= i < n implies rows[0] <= #[trigger] rows[i] <= rows[n - 1] by {
            if i > 0 {
                assert(le(rows[0], rows[i]));
            }
            if i < n - 1 {
                assert(le(rows[i], rows[n - 1]));
            }
        }
        let lower = rows[if n % 2 == 0 {
            n / 2 - 1
        } else {
            n / 2
        }];
        let upper = rows[n / 2];
        assert(rows[0] <= lower <= rows[n - 1]);
        assert(rows[0] <= upper <= rows[n - 1]);
        if n % 2 == 0 && lower < upper {
            assert(le(lower, upper));
        }
    }
}

} // verus!
