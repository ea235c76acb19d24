//! `--as-of`: the version of a moment.
use vstd::prelude::*;

use crate::dataset::{Instant, VersionInfo};
use crate::error::Error;
use crate::output::temporal::{format_rfc3339, rfc3339_text};

verus! {

/// A moment without an offset.
pub const NAIVE_PATTERN: &'static str = "%Y-%m-%dT%H:%M:%S%.f";

/// A day.
pub const DAY_PATTERN: &'static str = "%Y-%m-%d";

// ---------- reading a moment ----------

/// The seconds since the epoch, and the nanoseconds after them, that chrono reads in
/// a text of RFC 3339.
pub uninterp spec fn zoned_reading(s: Seq<char>) -> Option<(int, int)>;

/// The seconds since the epoch, and the nanoseconds after them, that chrono reads in
/// a text without an offset under a pattern, taken in UTC.
pub uninterp spec fn naive_reading(s: Seq<char>, pattern: Seq<char>) -> Option<(int, int)>;

/// The day since the epoch that chrono reads in a text under a pattern.
pub uninterp spec fn day_reading(s: Seq<char>, pattern: Seq<char>) -> Option<int>;

/// A pair of numbers as integers.
pub open spec fn pair(o: Option<(i64, u32)>) -> Option<(int, int)> {
    match o {
        Some((secs, nanos)) => Some((secs as int, nanos as int)),
        None => None,
    }
}

/// A number as an integer.
pub open spec fn number(o: Option<i32>) -> Option<int> {
    match o {
        Some(n) => Some(n as int),
        None => None,
    }
}

/// `chrono::DateTime::parse_from_rfc3339`, then `timestamp` and
/// `timestamp_subsec_nanos`: nothing where the text is not of that form.
#[verifier::external_body]
fn parse_rfc3339(s: &str) -> (r: Option<(i64, u32)>)
    ensures
        pair(r) == zoned_reading(s@),
{
    chrono::DateTime::parse_from_rfc3339(s).ok().map(
        |t| (t.timestamp(), t.timestamp_subsec_nanos()),
    )
}

/// `chrono::NaiveDateTime::parse_from_str`, then `and_utc`, `timestamp` and
/// `timestamp_subsec_nanos`: nothing where the text does not match the pattern.
#[verifier::external_body]
fn parse_naive(s: &str, pattern: &str) -> (r: Option<(i64, u32)>)
    requires
        pattern@ == NAIVE_PATTERN@,
    ensures
        pair(r) == naive_reading(s@, pattern@),
{
    chrono::NaiveDateTime::parse_from_str(s, pattern).ok().map(
        |t| (t.and_utc().timestamp(), t.and_utc().timestamp_subsec_nanos()),
    )
}

/// `chrono::NaiveDate::parse_from_str`, then `to_epoch_days`: nothing where the text
/// does not match the pattern.
#[verifier::external_body]
fn parse_day(s: &str, pattern: &str) -> (r: Option<i32>)
    requires
        pattern@ == DAY_PATTERN@,
    ensures
        number(r) == day_reading(s@, pattern@),
{
    chrono::NaiveDate::parse_from_str(s, pattern).ok().map(|d| d.to_epoch_days())
}

/// The moment that a text stands for: one with an offset, else one without taken in
/// UTC, else a day taken at its midnight in UTC.
pub open spec fn reading(
    zoned: Option<(int, int)>,
    naive: Option<(int, int)>,
    day: Option<int>,
) -> Option<(int, int)> {
    match (zoned, naive, day) {
        (Some(t), _, _) => Some(t),
        (None, Some(t), _) => Some(t),
        (None, None, Some(d)) => Some((d * 86_400, 0)),
        (None, None, None) => None,
    }
}

/// The moment that the readings of a text stand for.
pub fn first_reading(
    zoned: Option<(i64, u32)>,
    naive: Option<(i64, u32)>,
    day: Option<i32>,
) -> (r: Option<Instant>)
    ensures
        match reading(pair(zoned), pair(naive), number(day)) {
            Some((secs, nanos)) => r matches Some(t) && t.secs == secs && t.nanos == nanos,
            None => r is None,
        },
{
    match (zoned, naive, day) {
        (Some((secs, nanos)), _, _) => Some(Instant { secs, nanos }),
        (None, Some((secs, nanos)), _) => Some(Instant { secs, nanos }),
        (None, None, Some(d)) => Some(Instant { secs: d as i64 * 86_400, nanos: 0 }),
        (None, None, None) => None,
    }
}

/// The moment that an `--as-of` value stands for.
pub fn parse_as_of(raw: &str) -> (r: Result<Instant, Error>)
    ensures
        match reading(
            zoned_reading(raw@),
            naive_reading(raw@, NAIVE_PATTERN@),
            day_reading(raw@, DAY_PATTERN@),
        ) {
            Some((secs, nanos)) => r matches Ok(t) && t.secs == secs && t.nanos == nanos,
            None => r matches Err(Error::InvalidAsOf(s)) && s@ == raw@,
        },
{
    let moment = first_reading(
        parse_rfc3339(raw),
        parse_naive(raw, NAIVE_PATTERN),
        parse_day(raw, DAY_PATTERN),
    );
    match moment {
        Some(t) => Ok(t),
        None => Err(Error::InvalidAsOf(raw.to_owned())),
    }
}

// ---------- the version of a moment ----------

/// True where `a` is no later than `b`.
pub open spec fn no_later(a: Instant, b: Instant) -> bool {
    a.secs < b.secs || a.secs == b.secs && a.nanos <= b.nanos
}

fn is_no_later(a: Instant, b: Instant) -> (r: bool)
    ensures
        r == no_later(a, b),
{
    a.secs < b.secs || a.secs == b.secs && a.nanos <= b.nanos
}

/// The greatest version that was committed no later than `t`.
pub open spec fn latest(versions: Seq<VersionInfo>, t: Instant) -> Option<u64>
    decreases versions.len(),
{
    if versions.len() == 0 {
        None
    } else {
        let v = versions.last();
        match latest(versions.drop_last(), t) {
            None => if no_later(v.timestamp, t) {
                Some(v.version)
            } else {
                None
            },
            Some(best) => if no_later(v.timestamp, t) && v.version > best {
                Some(v.version)
            } else {
                Some(best)
            },
        }
    }
}

/// The time of the first commit.
pub open spec fn first_commit(versions: Seq<VersionInfo>) -> Instant
    recommends
        versions.len() > 0,
    decreases versions.len(),
{
    if versions.len() <= 1 {
        versions[0].timestamp
    } else {
        let before = first_commit(versions.drop_last());
        let t = versions.last().timestamp;
        if no_later(before, t) {
            before
        } else {
            t
        }
    }
}

/// The greatest version that was committed no later than `t`, which `raw` wrote.
pub fn version_as_of(raw: &str, t: Instant, versions: &Vec<VersionInfo>) -> (r: Result<
    u64,
    Error,
>)
    requires
        versions@.len() > 0,
        forall|i: int| 0 <= i < versions@.len() ==> (#[trigger] versions@[i]).timestamp.wf(),
    ensures
        match latest(versions@, t) {
            Some(v) => r == Ok::<u64, Error>(v),
            None => r matches Err(Error::AsOfBeforeFirstVersion { requested, earliest })
                && requested@ == raw@ && earliest@ == rfc3339_text(first_commit(versions@)),
        },
{
    let mut best: Option<u64> = None;
    let mut first: Instant = versions[0].timestamp;
    let mut i: usize = 0;
    while i < versions.len()
        invariant
            i <= versions@.len(),
            versions@.len() > 0,
            forall|j: int| 0 <= j < versions@.len() ==> (#[trigger] versions@[j]).timestamp.wf(),
            best == latest(versions@.take(i as int), t),
            i == 0 ==> first == versions@[0].timestamp,
            i > 0 ==> first == first_commit(versions@.take(i as int)),
            first.wf(),
        decreases versions@.len() - i,
    {
        let v = &versions[i];
        proof {
            assert(versions@.take(i + 1).drop_last() =~= versions@.take(i as int));
            assert(versions@.take(i + 1).last() == versions@[i as int]);
        }
        if is_no_later(v.timestamp, t) {
            match best {
                None => best = Some(v.version),
                Some(b) => if v.version > b {
                    best = Some(v.version);
                },
            }
        }
        if !is_no_later(first, v.timestamp) {
            first = v.timestamp;
        }
        i += 1;
    }
    proof {
        assert(versions@.take(versions@.len() as int) =~= versions@);
    }
    match best {
        Some(v) => Ok(v),
        None => Err(
            Error::AsOfBeforeFirstVersion {
                requested: raw.to_owned(),
                earliest: format_rfc3339(first),
            },
        ),
    }
}

// ---------- laws ----------

/// The version of a moment was committed no later than it, and every other version of
/// which that holds comes before it. Only a moment before every commit has none.
pub proof fn law_version_is_the_latest(versions: Seq<VersionInfo>, t: Instant)
    ensures
        latest(versions, t) matches Some(best) ==> exists|i: int|
            0 <= i < versions.len() && (#[trigger] versions[i]).version == best && no_later(
                versions[i].timestamp,
                t,
            ),
        forall|i: int|
            0 <= i < versions.len() && no_later((#[trigger] versions[i]).timestamp, t) ==> (latest(
                versions,
                t,
            ) matches Some(best) && versions[i].version <= best),
    decreases versions.len(),
{
    if versions.len() > 0 {
        let init = versions.drop_last();
        law_version_is_the_latest(init, t);
        let last = versions.len() - 1;
        if let Some(best) = latest(versions, t) {
            if latest(init, t) == Some(best) {
                let i = choose|i: int|
                    0 <= i < init.len() && (#[trigger] init[i]).version == best && no_later(
                        init[i].timestamp,
                        t,
                    );
                assert(versions[i] == init[i]);
            } else {
                assert(versions[last].version == best);
            }
        }
        assert forall|i: int|
            0 <= i < versions.len() && no_later(
                (#[trigger] versions[i]).timestamp,
                t,
            ) implies latest(versions, t) matches Some(best) && versions[i].version <= best by {
            if i < last {
                assert(init[i] == versions[i]);
            }
        }
    }
}

/// A later moment never has an earlier version.
pub proof fn law_later_moments_have_later_versions(
    versions: Seq<VersionInfo>,
    a: Instant,
    b: Instant,
)
    requires
        no_later(a, b),
    ensures
        latest(versions, a) matches Some(x) ==> (latest(versions, b) matches Some(y) && x <= y),
    decreases versions.len(),
{
    if versions.len() > 0 {
        law_later_moments_have_later_versions(versions.drop_last(), a, b);
    }
}

} // verus!
