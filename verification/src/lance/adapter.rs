//! Messages, indices and fragments as the adapter reports them.
use vstd::prelude::*;
use vstd::slice::slice_subrange;

use crate::dataset::{FragmentInfo, IndexStats, Instant};
use crate::indices::is_number;
use crate::json::opt_view;
use crate::output::temporal::in_calendar;
use crate::text::{
    chars_of, copy_texts, dec_i64, dec_int, is_digit, lemma_trim_end_prefix, same_text, split,
    split_chars, text_of, texts, trim, trim_chars, trim_end, trim_end_chars, views,
};

verus! {

// ---------- messages ----------

/// True where `part` occurs in `s`.
pub open spec fn contains_text(s: Seq<char>, part: Seq<char>) -> bool {
    exists|i: int| 0 <= i && i + part.len() <= s.len() && #[trigger] s.subrange(i, i + part.len())
        == part
}

/// True of a place in a source file: `…/scanner.rs:422:33`.
pub open spec fn is_source_location(s: Seq<char>) -> bool {
    let segments = split(s, ':');
    contains_text(s, ".rs:"@) && segments.len() >= 2 && is_number(segments.last()) && is_number(
        segments[segments.len() - 2],
    )
}

fn all_digits(s: &Vec<char>) -> (r: bool)
    ensures
        r == is_number(s@),
{
    if s.len() == 0 {
        return false;
    }
    let mut i: usize = 0;
    while i < s.len()
        invariant
            i <= s@.len(),
            forall|j: int| 0 <= j < i ==> is_digit(#[trigger] s@[j]),
        decreases s@.len() - i,
    {
        if !('0' <= s[i] && s[i] <= '9') {
            proof {
                assert(!is_digit(s@[i as int]));
            }
            return false;
        }
        i += 1;
    }
    true
}

fn has_source_suffix(s: &[char]) -> (r: bool)
    ensures
        r == contains_text(s@, ".rs:"@),
{
    proof {
        reveal_strlit(".rs:");
    }
    let mut i: usize = 0;
    while i < s.len() && s.len() - i > 3
        invariant
            i <= s@.len(),
            ".rs:"@ =~= seq!['.', 'r', 's', ':'],
            forall|j: int|
                0 <= j < i && j + 4 <= s@.len() ==> #[trigger] s@.subrange(j, j + 4) != ".rs:"@,
        decreases s@.len() - i,
    {
        proof {
            let part = s@.subrange(i as int, i + 4);
            assert(part[0] == s@[i as int] && part[1] == s@[i + 1] && part[2] == s@[i + 2]
                && part[3] == s@[i + 3]);
        }
        if s[i] == '.' && s[i + 1] == 'r' && s[i + 2] == 's' && s[i + 3] == ':' {
            proof {
                assert(s@.subrange(i as int, i + 4) =~= ".rs:"@);
            }
            return true;
        }
        i += 1;
    }
    false
}

/// True of a place in a source file: `…/scanner.rs:422:33`.
fn looks_like_source_location(tail: &[char]) -> (r: bool)
    ensures
        r == is_source_location(tail@),
{
    let segments = split_chars(tail, ':');
    let ghost all = split(tail@, ':');
    proof {
        assert(views(segments@).len() == segments@.len());
        assert(forall|i: int|
            0 <= i < segments@.len() ==> views(segments@)[i] == (#[trigger] segments@[i])@);
    }
    has_source_suffix(tail) && segments.len() >= 2 && all_digits(&segments[segments.len() - 1])
        && all_digits(&segments[segments.len() - 2])
}

/// Position of the last `, ` that starts before `n`; none where there is none.
pub open spec fn last_separator(s: Seq<char>, n: nat) -> Option<nat>
    decreases n,
{
    if n == 0 {
        None
    } else if n < s.len() && s[n - 1] == ',' && s[n as int] == ' ' {
        Some((n - 1) as nat)
    } else {
        last_separator(s, (n - 1) as nat)
    }
}

proof fn lemma_last_separator(s: Seq<char>, n: nat)
    ensures
        last_separator(s, n) matches Some(i) ==> i < n && i + 2 <= s.len(),
    decreases n,
{
    if n > 0 {
        lemma_last_separator(s, (n - 1) as nat);
    }
}

/// A trimmed message without the source locations at its end.
pub open spec fn without_locations(s: Seq<char>) -> Seq<char>
    decreases s.len(),
{
    match last_separator(s, s.len()) {
        None => s,
        Some(i) => if i < s.len() && is_source_location(trim(s.skip(i as int + 2))) {
            proof {
                lemma_trim_end_prefix(s.take(i as int));
            }
            without_locations(trim_end(s.take(i as int)))
        } else {
            s
        },
    }
}

fn find_last_separator(s: &[char]) -> (r: Option<usize>)
    ensures
        match last_separator(s@, s@.len()) {
            Some(i) => r matches Some(k) && k == i && k + 2 <= s@.len(),
            None => r is None,
        },
{
    let mut n: usize = s.len();
    proof {
        lemma_last_separator(s@, s@.len());
    }
    while n > 0
        invariant
            n <= s@.len(),
            last_separator(s@, s@.len()) == last_separator(s@, n as nat),
            last_separator(s@, s@.len()) matches Some(i) ==> i + 2 <= s@.len(),
        decreases n,
    {
        if n < s.len() && s[n - 1] == ',' && s[n] == ' ' {
            return Some(n - 1);
        }
        n -= 1;
    }
    None
}

/// A message without the source locations that errors of the query engine end with
/// (`, /home/…/scanner.rs:422:33`), so that only what is wrong with the predicate is
/// shown.
pub fn strip_source_locations(msg: &str) -> (r: String)
    ensures
        r@ == without_locations(trim_end(msg@)),
{
    let chars = chars_of(msg);
    let ghost wanted = without_locations(trim_end(msg@));
    let mut s: &[char] = trim_end_chars(chars.as_slice());
    loop
        invariant
            without_locations(s@) == wanted,
            wanted == without_locations(trim_end(msg@)),
        decreases s@.len(),
    {
        match find_last_separator(s) {
            None => return text_of(s),
            Some(i) => {
                let end: usize = s.len();
                let tail = slice_subrange(s, i + 2, end);
                proof {
                    assert(tail@ =~= s@.skip(i as int + 2));
                }
                if !looks_like_source_location(trim_chars(tail)) {
                    return text_of(s);
                }
                let head = slice_subrange(s, 0, i);
                proof {
                    assert(head@ =~= s@.take(i as int));
                    lemma_trim_end_prefix(s@.take(i as int));
                }
                s = trim_end_chars(head);
            },
        }
    }
}

// ---------- indices ----------

/// A field that an index covers: its id, and its name where the schema has one.
#[derive(Debug)]
pub struct IndexField {
    pub id: i32,
    pub name: Option<String>,
}

/// The name that is shown for a field.
pub open spec fn shown_name(f: IndexField) -> Seq<char> {
    match f.name {
        Some(name) => name@,
        None => "<field_id="@ + dec_int(f.id as int) + ">"@,
    }
}

/// The columns that an index covers. A field that the schema does not have is shown
/// by its id.
pub fn index_columns(fields: &Vec<IndexField>) -> (r: Vec<String>)
    ensures
        texts(r@) == fields@.map_values(|f: IndexField| shown_name(f)),
{
    let mut out: Vec<String> = Vec::new();
    let mut i: usize = 0;
    while i < fields.len()
        invariant
            i <= fields@.len(),
            out@.len() == i,
            forall|j: int| 0 <= j < i ==> (#[trigger] out@[j])@ == shown_name(fields@[j]),
        decreases fields@.len() - i,
    {
        match &fields[i].name {
            Some(name) => out.push(name.clone()),
            None => {
                let mut s = "<field_id=".to_owned();
                s.append(dec_i64(fields[i].id as i64).as_str());
                s.append(">");
                out.push(s);
            },
        }
        i += 1;
    }
    proof {
        assert(texts(out@) =~= fields@.map_values(|f: IndexField| shown_name(f)));
    }
    out
}

/// True where one of the fields has the name.
pub open spec fn covers(fields: Seq<IndexField>, column: Seq<char>) -> bool {
    exists|j: int|
        0 <= j < fields.len() && ((#[trigger] fields[j]).name matches Some(name) && name@ == column)
}

fn index_covers(fields: &Vec<IndexField>, column: &str) -> (r: bool)
    ensures
        r == covers(fields@, column@),
{
    let mut j: usize = 0;
    while j < fields.len()
        invariant
            j <= fields@.len(),
            forall|k: int|
                0 <= k < j ==> !((#[trigger] fields@[k]).name matches Some(name) && name@
                    == column@),
        decreases fields@.len() - j,
    {
        if let Some(name) = &fields[j].name {
            if same_text(name.as_str(), column) {
                return true;
            }
        }
        j += 1;
    }
    false
}

/// True where some index covers the column. A vector column has no other indices than
/// those for nearest neighbours, so this tells whether a search is exhaustive.
pub fn column_has_ann_index(indices: &Vec<Vec<IndexField>>, column: &str) -> (r: bool)
    ensures
        r == exists|i: int| 0 <= i < indices@.len() && covers((#[trigger] indices@[i])@, column@),
{
    let mut i: usize = 0;
    while i < indices.len()
        invariant
            i <= indices@.len(),
            forall|k: int| 0 <= k < i ==> !covers((#[trigger] indices@[k])@, column@),
        decreases indices@.len() - i,
    {
        if index_covers(&indices[i], column) {
            proof {
                assert(covers(indices@[i as int]@, column@));
            }
            return true;
        }
        i += 1;
    }
    false
}

// ---------- fragments ----------

/// Sum of sizes.
pub open spec fn total(sizes: Seq<u64>) -> nat
    decreases sizes.len(),
{
    if sizes.len() == 0 {
        0
    } else {
        total(sizes.drop_last()) + sizes.last() as nat
    }
}

proof fn lemma_total_prefix(sizes: Seq<u64>, k: int)
    requires
        0 <= k <= sizes.len(),
    ensures
        total(sizes.take(k)) <= total(sizes),
    decreases sizes.len() - k,
{
    if k < sizes.len() {
        assert(sizes.take(k + 1).drop_last() =~= sizes.take(k));
        lemma_total_prefix(sizes, k + 1);
    } else {
        assert(sizes.take(k) =~= sizes);
    }
}

fn sum(sizes: &Vec<u64>) -> (r: u64)
    requires
        total(sizes@) <= u64::MAX,
    ensures
        r == total(sizes@),
{
    let mut out: u64 = 0;
    let mut i: usize = 0;
    proof {
        assert(sizes@.take(0) =~= Seq::<u64>::empty());
    }
    while i < sizes.len()
        invariant
            i <= sizes@.len(),
            out == total(sizes@.take(i as int)),
            total(sizes@) <= u64::MAX,
        decreases sizes@.len() - i,
    {
        proof {
            assert(sizes@.take(i + 1).drop_last() =~= sizes@.take(i as int));
            lemma_total_prefix(sizes@, i + 1);
        }
        out += sizes[i];
        i += 1;
    }
    proof {
        assert(sizes@.take(sizes@.len() as int) =~= sizes@);
    }
    out
}

/// A fragment as it is listed. `sizes` holds the sizes of its files where they are
/// asked for.
pub fn fragment_info(
    id: u64,
    physical_rows: u64,
    deleted_rows: u64,
    files: Vec<String>,
    sizes: Option<Vec<u64>>,
) -> (r: FragmentInfo)
    requires
        sizes matches Some(all) ==> total(all@) <= u64::MAX,
    ensures
        r.id == id,
        r.physical_rows == physical_rows,
        r.deleted_rows == deleted_rows,
        r.num_files == files@.len(),
        r.files == files,
        match sizes {
            Some(all) => r.size matches Some(n) && n == total(all@),
            None => r.size is None,
        },
{
    let size = match sizes {
        Some(all) => Some(sum(&all)),
        None => None,
    };
    FragmentInfo { id, physical_rows, deleted_rows, num_files: files.len() as u64, files, size }
}

/// What the manifest, and for the sizes the store, says of a fragment.
#[derive(Debug)]
pub struct FragmentFiles {
    pub id: u64,
    pub physical_rows: u64,
    pub deleted_rows: u64,
    /// Relative paths of the data files.
    pub files: Vec<String>,
    /// Sizes of the data files, where they were looked up.
    pub sizes: Vec<u64>,
}

/// True where the row is that of the fragment, with its size where it is asked for.
pub open spec fn is_fragment_of(row: FragmentInfo, f: FragmentFiles, with_size: bool) -> bool {
    &&& row.id == f.id
    &&& row.physical_rows == f.physical_rows
    &&& row.deleted_rows == f.deleted_rows
    &&& row.num_files == f.files@.len()
    &&& row.files@ == f.files@
    &&& if with_size {
        row.size matches Some(n) && n == total(f.sizes@)
    } else {
        row.size is None
    }
}

/// True where the rows are those of the fragments, in order.
pub open spec fn lists_fragments(
    rows: Seq<FragmentInfo>,
    fragments: Seq<FragmentFiles>,
    with_size: bool,
) -> bool {
    rows.len() == fragments.len() && forall|i: int|
        0 <= i < rows.len() ==> is_fragment_of(#[trigger] rows[i], fragments[i], with_size)
}

/// The listing of the fragments. Only where sizes are asked for are they looked at.
pub fn fragment_rows(fragments: &Vec<FragmentFiles>, with_size: bool) -> (r: Vec<FragmentInfo>)
    requires
        with_size ==> forall|i: int|
            0 <= i < fragments@.len() ==> total((#[trigger] fragments@[i]).sizes@) <= u64::MAX,
    ensures
        lists_fragments(r@, fragments@, with_size),
{
    let mut out: Vec<FragmentInfo> = Vec::new();
    let mut i: usize = 0;
    while i < fragments.len()
        invariant
            i <= fragments@.len(),
            with_size ==> forall|k: int|
                0 <= k < fragments@.len() ==> total((#[trigger] fragments@[k]).sizes@) <= u64::MAX,
            out@.len() == i,
            forall|k: int|
                0 <= k < i ==> is_fragment_of(#[trigger] out@[k], fragments@[k], with_size),
        decreases fragments@.len() - i,
    {
        let f = &fragments[i];
        let sizes = if with_size {
            let sizes = f.sizes.clone();
            proof {
                assert(sizes@ =~= f.sizes@);
            }
            Some(sizes)
        } else {
            None
        };
        let files = copy_texts(f.files.as_slice());
        out.push(fragment_info(f.id, f.physical_rows, f.deleted_rows, files, sizes));
        i += 1;
    }
    out
}

/// Asking for sizes adds the sizes and changes nothing else: the two listings of the
/// same fragments agree row by row.
pub proof fn law_sizes_are_all_that_is_added(
    without: Seq<FragmentInfo>,
    with: Seq<FragmentInfo>,
    plain: Seq<FragmentFiles>,
    sized: Seq<FragmentFiles>,
    i: int,
)
    requires
        lists_fragments(without, plain, false),
        lists_fragments(with, sized, true),
        plain.len() == sized.len(),
        0 <= i < plain.len(),
        sized[i] == (FragmentFiles { sizes: sized[i].sizes, ..plain[i] }),
    ensures
        without.len() == with.len(),
        without[i].size is None,
        with[i].size matches Some(n) && n == total(sized[i].sizes@),
        with[i].id == without[i].id,
        with[i].physical_rows == without[i].physical_rows,
        with[i].deleted_rows == without[i].deleted_rows,
        with[i].num_files == without[i].num_files,
        with[i].files@ == without[i].files@,
        with[i].num_files == with[i].files@.len(),
{
}

// ---------- index statistics ----------

/// What serde_json reads under a key of a JSON text: the string there, nothing where
/// there is none, or why the text is no JSON.
pub uninterp spec fn string_member(text: Seq<char>, key: Seq<char>) -> Result<
    Option<Seq<char>>,
    Seq<char>,
>;

/// The whole number that serde_json reads under a key of a JSON text, if there is one
/// and it fits in 64 bits.
pub uninterp spec fn count_member(text: Seq<char>, key: Seq<char>) -> Option<u64>;

/// The texts of a result.
pub open spec fn result_view(r: Result<Option<String>, String>) -> Result<
    Option<Seq<char>>,
    Seq<char>,
> {
    match r {
        Ok(o) => Ok(opt_view(o)),
        Err(e) => Err(e@),
    }
}

/// `serde_json::from_str` into a `Value`, then `Value::get` and `as_str`: the string
/// under the key, if there is one. The message of a text that is no JSON is that of
/// the parser.
#[verifier::external_body]
fn read_string(text: &str, key: &str) -> (r: Result<Option<String>, String>)
    ensures
        result_view(r) == string_member(text@, key@),
{
    match serde_json::from_str::<serde_json::Value>(text) {
        Ok(value) => Ok(value.get(key).and_then(|m| m.as_str()).map(|s| s.to_owned())),
        Err(e) => Err(e.to_string()),
    }
}

/// `serde_json::from_str` into a `Value`, then `Value::get` and `as_u64`: the whole
/// number under the key, if there is one.
#[verifier::external_body]
fn read_count(text: &str, key: &str) -> (r: Option<u64>)
    ensures
        r == count_member(text@, key@),
{
    serde_json::from_str::<serde_json::Value>(text).ok().and_then(|v| v.get(key)?.as_u64())
}

/// True where the row holds these statistics. A type that is missing is empty, and a
/// missing count is zero.
pub open spec fn is_index_stats_of(
    row: IndexStats,
    name: Seq<char>,
    index_type: Option<Seq<char>>,
    indexed: Option<u64>,
    unindexed: Option<u64>,
    detail: Seq<char>,
) -> bool {
    &&& row.name@ == name
    &&& row.index_type@ == match index_type {
        Some(t) => t,
        None => Seq::empty(),
    }
    &&& row.indexed_rows == match indexed {
        Some(n) => n,
        None => 0,
    }
    &&& row.unindexed_rows == match unindexed {
        Some(n) => n,
        None => 0,
    }
    &&& row.detail@ == detail
}

/// The row of an index with these statistics.
pub fn index_stats_row(
    name: String,
    index_type: Option<String>,
    indexed: Option<u64>,
    unindexed: Option<u64>,
    detail: String,
) -> (r: IndexStats)
    ensures
        is_index_stats_of(r, name@, opt_view(index_type), indexed, unindexed, detail@),
{
    let index_type = match index_type {
        Some(t) => t,
        None => String::new(),
    };
    let indexed_rows: u64 = match indexed {
        Some(n) => n,
        None => 0,
    };
    let unindexed_rows: u64 = match unindexed {
        Some(n) => n,
        None => 0,
    };
    IndexStats { name, index_type, indexed_rows, unindexed_rows, detail }
}

/// The row of an index, from the statistics that it reports in JSON; the parser's
/// message where they are no JSON.
pub fn read_index_stats(name: String, detail: String) -> (r: Result<IndexStats, String>)
    ensures
        match string_member(detail@, "index_type"@) {
            Ok(index_type) => r matches Ok(row) && is_index_stats_of(
                row,
                name@,
                index_type,
                count_member(detail@, "num_indexed_rows"@),
                count_member(detail@, "num_unindexed_rows"@),
                detail@,
            ),
            Err(why) => r matches Err(e) && e@ == why,
        },
{
    match read_string(detail.as_str(), "index_type") {
        Err(e) => Err(e),
        Ok(index_type) => {
            let indexed = read_count(detail.as_str(), "num_indexed_rows");
            let unindexed = read_count(detail.as_str(), "num_unindexed_rows");
            Ok(index_stats_row(name, index_type, indexed, unindexed, detail))
        },
    }
}

// ---------- instants ----------

/// `chrono::DateTime::from_timestamp`: whether the calendar has an instant that many
/// seconds after the epoch.
#[verifier::external_body]
fn calendar_has(secs: i64) -> (r: bool)
    ensures
        r == in_calendar(secs as int),
{
    chrono::DateTime::<chrono::Utc>::from_timestamp(secs, 0).is_some()
}

/// The instant that many seconds after the epoch, where the calendar has it.
pub open spec fn instant_at(seconds: u64) -> Option<Instant> {
    if in_calendar(seconds as int) {
        Some(Instant { secs: seconds as i64, nanos: 0 })
    } else {
        None
    }
}

/// The instant that many seconds after the epoch, where the calendar has it.
pub fn unix_seconds_to_utc(seconds: u64) -> (r: Option<Instant>)
    ensures
        r == instant_at(seconds),
        r matches Some(t) ==> t.wf(),
{
    if seconds <= i64::MAX as u64 && calendar_has(seconds as i64) {
        Some(Instant { secs: seconds as i64, nanos: 0 })
    } else {
        None
    }
}

// ---------- laws ----------

/// Stripping a stripped message changes nothing.
pub proof fn law_stripping_is_idempotent(s: Seq<char>)
    ensures
        without_locations(without_locations(s)) == without_locations(s),
    decreases s.len(),
{
    if let Some(i) = last_separator(s, s.len()) {
        lemma_last_separator(s, s.len());
        if is_source_location(trim(s.skip(i as int + 2))) {
            lemma_trim_end_prefix(s.take(i as int));
            law_stripping_is_idempotent(trim_end(s.take(i as int)));
        }
    }
}

/// What is stripped is only ever cut off at the end.
pub proof fn law_stripping_keeps_a_prefix(s: Seq<char>)
    ensures
        without_locations(s).len() <= s.len(),
        s.take(without_locations(s).len() as int) == without_locations(s),
    decreases s.len(),
{
    let stripped = without_locations(s);
    assert(s.take(s.len() as int) =~= s);
    if let Some(i) = last_separator(s, s.len()) {
        lemma_last_separator(s, s.len());
        if is_source_location(trim(s.skip(i as int + 2))) {
            let head = s.take(i as int);
            lemma_trim_end_prefix(head);
            law_stripping_keeps_a_prefix(trim_end(head));
            assert(s.take(stripped.len() as int) =~= trim_end(head).take(stripped.len() as int));
        }
    }
}

} // verus!
