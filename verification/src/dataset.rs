//! Datasets: what a scan asks for, what a listing reports, and which adapter reads
//! an input.
use vstd::prelude::*;

use crate::cell::Float;
use crate::error::Error;
use crate::row_id::RowIds;
use crate::text::chars_of;

verus! {

/// The name of the implicit default branch.
pub const MAIN_BRANCH: &'static str = "main";

/// What a scan yields.
#[derive(Debug, Clone, Copy)]
pub struct ScanOptions<'a> {
    /// Columns, in the given order. `None` means all of them.
    pub projection: Option<&'a [String]>,
    /// SQL-style predicate, applied before any positional selection. `None` means
    /// every row.
    pub filter: Option<&'a str>,
    /// Row identity columns to append.
    pub row_ids: RowIds,
}

impl<'a> Default for ScanOptions<'a> {
    fn default() -> (r: Self)
        ensures
            r.projection is None,
            r.filter is None,
            !r.row_ids.with_row_id && !r.row_ids.with_row_addr,
    {
        ScanOptions {
            projection: None,
            filter: None,
            row_ids: RowIds { with_row_id: false, with_row_addr: false },
        }
    }
}

/// An instant in universal time: seconds since the epoch, and nanoseconds within
/// the second.
#[derive(Debug, Clone, Copy, PartialEq, Eq, Structural)]
pub struct Instant {
    pub secs: i64,
    pub nanos: u32,
}

impl Instant {
    /// An instant of the calendar's range, on a whole second or after it.
    pub open spec fn wf(&self) -> bool {
        -8_334_601_228_800 <= self.secs <= 8_210_266_876_799 && self.nanos < 1_000_000_000
    }

    /// Microseconds since the epoch, rounded down.
    pub open spec fn micros_of(&self) -> int {
        self.secs * 1_000_000 + self.nanos as int / 1000
    }

    /// Microseconds since the epoch, rounded down.
    pub fn micros(&self) -> (r: i64)
        requires
            self.wf(),
        ensures
            r == self.micros_of(),
    {
        self.secs * 1_000_000 + (self.nanos / 1000) as i64
    }
}

/// The branch and version that an opened dataset reads.
#[derive(Debug, PartialEq, Eq)]
pub struct CheckoutState {
    pub branch: String,
    pub version: u64,
}

impl Clone for CheckoutState {
    fn clone(&self) -> (r: Self)
        ensures
            r == *self,
    {
        CheckoutState { branch: self.branch.clone(), version: self.version }
    }
}

/// One row of `versions`.
#[derive(Debug)]
pub struct VersionInfo {
    pub version: u64,
    pub timestamp: Instant,
    pub tag: Option<String>,
    pub message: Option<String>,
}

impl Clone for VersionInfo {
    fn clone(&self) -> (r: Self)
        ensures
            r == *self,
    {
        VersionInfo {
            version: self.version,
            timestamp: self.timestamp,
            tag: self.tag.clone(),
            message: self.message.clone(),
        }
    }
}

/// One row of `branches`.
#[derive(Debug)]
pub struct BranchInfo {
    pub name: String,
    pub parent_branch: Option<String>,
    pub parent_version: Option<u64>,
    pub created_at: Option<Instant>,
}

/// One row of `indices`.
#[derive(Debug)]
pub struct IndexInfo {
    pub name: String,
    /// Index type (`BTree`, `IVF_PQ`, `INVERTED`).
    pub index_type: String,
    pub uuid: String,
    pub columns: Vec<String>,
    pub dataset_version: u64,
    pub created_at: Option<Instant>,
}

/// One row of `stats`: summary statistics of one column. What does not apply to the
/// column's type is `None`. `count + nulls` is the number of rows considered.
#[derive(Debug)]
pub struct ColumnStats {
    pub column: String,
    pub data_type: String,
    /// Number of non-null values.
    pub count: u64,
    pub nulls: u64,
    /// Minimum, as text.
    pub min: Option<String>,
    /// Maximum, as text.
    pub max: Option<String>,
    /// Arithmetic mean. Numeric columns only.
    pub mean: Option<Float>,
    /// Sample standard deviation. Numeric columns of at least two values only.
    pub stddev: Option<Float>,
    /// Number of distinct values, exact or a marker that it exceeds the cap.
    pub distinct: Option<String>,
}

/// One row of `index-stats`.
#[derive(Debug)]
pub struct IndexStats {
    pub name: String,
    pub index_type: String,
    /// Rows that the index covers.
    pub indexed_rows: u64,
    /// Rows appended after the index was built.
    pub unindexed_rows: u64,
    /// The statistics in JSON, as the index reports them.
    pub detail: String,
}

/// One row of `tags`.
#[derive(Debug)]
pub struct TagInfo {
    pub name: String,
    pub branch: String,
    pub version: u64,
}

/// One row of `fragments`.
#[derive(Debug)]
pub struct FragmentInfo {
    /// Fragment id, unique and stable within the dataset.
    pub id: u64,
    /// Rows stored in the fragment, deleted ones included.
    pub physical_rows: u64,
    /// Rows that the fragment's deletion file marks as deleted.
    pub deleted_rows: u64,
    /// Number of data files.
    pub num_files: u64,
    /// Relative paths of the data files.
    pub files: Vec<String>,
    /// Summed size of the data files in bytes, where it was computed.
    pub size: Option<u64>,
}

// ---------- which adapter ----------

/// The formats that an adapter reads.
#[derive(Debug, Clone, Copy, PartialEq, Eq, Structural)]
pub enum Format {
    Lance,
}

/// True of ASCII letters.
pub open spec fn is_letter(c: char) -> bool {
    'a' <= c <= 'z' || 'A' <= c <= 'Z'
}

/// True of the characters of a URI scheme.
pub open spec fn is_scheme_char(c: char) -> bool {
    is_letter(c) || '0' <= c <= '9' || c == '+' || c == '-' || c == '.'
}

/// True where the first `n` characters are a URI scheme and `://` follows.
pub open spec fn scheme_at(s: Seq<char>, n: int) -> bool {
    &&& 0 < n && n + 3 <= s.len()
    &&& is_letter(s[0])
    &&& forall|i: int| 0 <= i < n ==> is_scheme_char(#[trigger] s[i])
    &&& s[n] == ':' && s[n + 1] == '/' && s[n + 2] == '/'
}

/// True where the input starts with a URI scheme.
pub open spec fn scheme_qualified(s: Seq<char>) -> bool {
    exists|n: int| scheme_at(s, n)
}

fn letter(c: char) -> (r: bool)
    ensures
        r == is_letter(c),
{
    'a' <= c && c <= 'z' || 'A' <= c && c <= 'Z'
}

fn scheme_char(c: char) -> (r: bool)
    ensures
        r == is_scheme_char(c),
{
    letter(c) || '0' <= c && c <= '9' || c == '+' || c == '-' || c == '.'
}

/// True when `input` starts with a URI scheme followed by `://` (`s3://bucket/…`,
/// `file:///data/…`). A bare drive letter (`C:\data`) is none.
pub fn has_scheme(input: &str) -> (r: bool)
    ensures
        r == scheme_qualified(input@),
{
    let chars = chars_of(input);
    let ghost s = input@;
    if chars.len() == 0 || !letter(chars[0]) {
        return false;
    }
    let mut n: usize = 0;
    while n < chars.len() && scheme_char(chars[n])
        invariant
            chars@ == s,
            n <= s.len(),
            forall|i: int| 0 <= i < n ==> is_scheme_char(#[trigger] s[i]),
        decreases s.len() - n,
    {
        n += 1;
    }
    let r = chars.len() - n > 2 && chars[n] == ':' && chars[n + 1] == '/' && chars[n + 2] == '/';
    proof {
        if r {
            assert(scheme_at(s, n as int));
        } else if scheme_qualified(s) {
            let m = choose|m: int| scheme_at(s, m);
            if m < n {
                assert(is_scheme_char(s[m]));
            } else if m > n {
                assert(is_scheme_char(s[n as int]));
            }
        }
    }
    r
}

/// Which adapter reads `input`. An input with a scheme is left to the adapter's own
/// resolution; any other is a local path, of which `is_lance_dataset` says whether
/// it is a directory with a `_versions` directory inside.
pub fn detect_format(input: &str, is_lance_dataset: bool) -> (r: Result<Format, Error>)
    ensures
        scheme_qualified(input@) || is_lance_dataset ==> r == Ok::<Format, Error>(Format::Lance),
        !scheme_qualified(input@) && !is_lance_dataset ==> (r matches Err(
            Error::UnknownFormat { path },
        ) && path@ == input@),
{
    if has_scheme(input) || is_lance_dataset {
        Ok(Format::Lance)
    } else {
        Err(Error::UnknownFormat { path: input.to_owned() })
    }
}

} // verus!
