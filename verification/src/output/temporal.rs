//! Dates, times, timestamps, durations and intervals as text.
use vstd::prelude::*;
use vstd::slice::slice_subrange;

use crate::indices::{int_of, parse_int};
use crate::dataset::Instant;
use crate::json::opt_view;
use crate::schema::TimeUnit;
use crate::text::{
    chars_of, dec, dec_i64, dec_int, dec_padded, dec_padded_u64, dec_u64, find, find_char, is_digit,
    same_text, text_of,
};

verus! {

// ---------- calendar, through chrono ----------

/// The patterns that this module formats instants with.
pub open spec fn is_pattern(p: Seq<char>) -> bool {
    ||| p == "%Y-%m-%d"@
    ||| p == "%Y-%m-%dT%H:%M:%S"@
    ||| p == "%Y-%m-%dT%H:%M:%S%.3f"@
    ||| p == "%Y-%m-%dT%H:%M:%S%.6f"@
    ||| p == "%Y-%m-%dT%H:%M:%S%.9f"@
    ||| p == "%Y-%m-%dT%H:%M:%SZ"@
}

/// The patterns that this module formats instants at an offset with.
pub open spec fn is_offset_pattern(p: Seq<char>) -> bool {
    ||| p == "%Y-%m-%dT%H:%M:%S%:z"@
    ||| p == "%Y-%m-%dT%H:%M:%S%.3f%:z"@
    ||| p == "%Y-%m-%dT%H:%M:%S%.6f%:z"@
    ||| p == "%Y-%m-%dT%H:%M:%S%.9f%:z"@
}

/// True of the seconds after the epoch that the calendar reaches: from the first
/// second of the year -262143 to the last second of the year 262142.
pub open spec fn in_calendar(secs: int) -> bool {
    -8_334_601_228_800 <= secs <= 8_210_266_876_799
}

/// What chrono prints in UTC for the instant `secs` seconds and `nanos` nanoseconds
/// after the epoch under a pattern; nothing where the instant is out of its range.
pub uninterp spec fn utc_form(secs: int, nanos: int, pattern: Seq<char>) -> Option<Seq<char>>;

/// What chrono prints for an instant at `east` seconds east of UTC under a pattern;
/// nothing where the instant is out of its range.
pub uninterp spec fn offset_form(secs: int, nanos: int, east: int, pattern: Seq<char>) -> Option<
    Seq<char>,
>;

/// `chrono::DateTime::from_timestamp`, then `naive_utc` and `format`: nothing where
/// the instant is out of range, and otherwise the text that the calendar gives for
/// it under the pattern.
#[verifier::external_body]
fn format_utc(secs: i64, nanos: u32, pattern: &str) -> (r: Option<String>)
    requires
        nanos < 1_000_000_000,
        is_pattern(pattern@),
    ensures
        opt_view(r) == utc_form(secs as int, nanos as int, pattern@),
        r is Some <==> in_calendar(secs as int),
{
    chrono::DateTime::<chrono::Utc>::from_timestamp(secs, nanos).map(
        |t| t.naive_utc().format(pattern).to_string(),
    )
}

/// `chrono::FixedOffset::east_opt`, then `DateTime::with_timezone` and `format`:
/// nothing where the instant is out of range, and otherwise the text of the local
/// time at the offset under the pattern.
#[verifier::external_body]
fn format_at_offset(secs: i64, nanos: u32, east: i32, pattern: &str) -> (r: Option<String>)
    requires
        nanos < 1_000_000_000,
        -86_400 < east < 86_400,
        is_offset_pattern(pattern@),
    ensures
        opt_view(r) == offset_form(secs as int, nanos as int, east as int, pattern@),
        r is Some <==> in_calendar(secs as int),
{
    let offset = chrono::FixedOffset::east_opt(east)?;
    chrono::DateTime::<chrono::Utc>::from_timestamp(secs, nanos).map(
        |t| t.with_timezone(&offset).format(pattern).to_string(),
    )
}

/// A text, or the bare number where there is none.
pub open spec fn or_number(text: Option<Seq<char>>, n: int) -> Seq<char> {
    match text {
        Some(s) => s,
        None => dec_int(n),
    }
}

/// A text, or the bare number where there is none.
pub fn text_or_number(text: Option<String>, n: i64) -> (r: String)
    ensures
        r@ == or_number(opt_view(text), n as int),
{
    match text {
        Some(s) => s,
        None => dec_i64(n),
    }
}

// ---------- dates ----------

/// Text of a day counted from the epoch; the bare number where it is no date.
pub open spec fn date32_text(days: i32) -> Seq<char> {
    or_number(utc_form(days * 86_400, 0, "%Y-%m-%d"@), days as int)
}

pub fn format_date32(days: i32) -> (r: String)
    ensures
        r@ == date32_text(days),
        !in_calendar(days * 86_400) ==> r@ == dec_int(days as int),
{
    text_or_number(format_utc(days as i64 * 86_400, 0, "%Y-%m-%d"), days as i64)
}

/// Text of the day of a millisecond counted from the epoch; the bare number where
/// it is no date.
pub open spec fn date64_text(ms: i64) -> Seq<char> {
    or_number(
        utc_form(ms as int / 1_000, (ms as int % 1_000) * 1_000_000, "%Y-%m-%d"@),
        ms as int,
    )
}

/// Quotient rounded down and the remainder, which is never negative.
fn div_floor(v: i64, by: i64) -> (r: (i64, i64))
    requires
        by > 1,
    ensures
        r.0 == v as int / by as int,
        r.1 == v as int % by as int,
        0 <= r.1 < by,
{
    let r: i64 = rem_floor(v, by);
    let q: i128 = (v as i128 - r as i128) / (by as i128);
    proof {
        let d = by as int;
        let x = v as int;
        vstd::arithmetic::div_mod::lemma_fundamental_div_mod(x, d);
        let y = x / d;
        assert(x - r == d * y);
        assert((d * y) / d == y) by (nonlinear_arith)
            requires
                d > 0,
        ;
        assert(i64::MIN <= y <= i64::MAX) by (nonlinear_arith)
            requires
                y == x / d,
                d > 1,
                i64::MIN <= x <= i64::MAX,
        ;
        if x - r < 0 {
            assert(d * y == y * d) by (nonlinear_arith);
            vstd::arithmetic::div_mod::lemma_fundamental_div_mod_converse(x - r, d, y, 0);
            lemma_truncated_exact(x - r, d);
        }
    }
    (q as i64, r)
}

/// Dividing a multiple gives the same quotient whichever way it is rounded.
proof fn lemma_truncated_exact(a: int, d: int)
    requires
        d > 0,
        a < 0,
        a % d == 0,
    ensures
        -((-a) / d) == a / d,
{
    vstd::arithmetic::div_mod::lemma_fundamental_div_mod(a, d);
    let y = a / d;
    assert(-a == d * (-y)) by (nonlinear_arith)
        requires
            a == d * y,
    ;
    assert((d * (-y)) / d == -y) by (nonlinear_arith)
        requires
            d > 0,
    ;
}

fn rem_floor(v: i64, by: i64) -> (r: i64)
    requires
        by > 1,
    ensures
        r == v as int % by as int,
        0 <= r < by,
{
    if v >= 0 {
        v % by
    } else {
        let m: i64 = ((-(v as i128)) % (by as i128)) as i64;
        proof {
            let d = by as int;
            let x = v as int;
            vstd::arithmetic::div_mod::lemma_fundamental_div_mod(-x, d);
            let y = (-x) / d;
            if m == 0 {
                assert(x == d * (-y)) by (nonlinear_arith)
                    requires
                        -x == d * y,
                ;
                vstd::arithmetic::div_mod::lemma_fundamental_div_mod_converse(x, d, -y, 0);
            } else {
                assert(x == d * (-y - 1) + (d - m)) by (nonlinear_arith)
                    requires
                        -x == d * y + m,
                ;
                vstd::arithmetic::div_mod::lemma_fundamental_div_mod_converse(
                    x,
                    d,
                    -y - 1,
                    d - m,
                );
            }
        }
        if m == 0 {
            0
        } else {
            by - m
        }
    }
}

pub fn format_date64(ms: i64) -> (r: String)
    ensures
        r@ == date64_text(ms),
        !in_calendar(ms as int / 1_000) ==> r@ == dec_int(ms as int),
{
    let (secs, rest) = div_floor(ms, 1_000);
    text_or_number(format_utc(secs, (rest * 1_000_000) as u32, "%Y-%m-%d"), ms)
}

// ---------- times of day ----------

/// Two digits.
pub open spec fn two_digits(n: nat) -> Seq<char> {
    dec_padded(n, 2)
}

/// The fraction of a second with `digits` digits.
pub open spec fn fraction(nanos: nat, digits: nat) -> Seq<char> {
    if digits == 3 {
        "."@ + dec_padded(nanos / 1_000_000, 3)
    } else if digits == 6 {
        "."@ + dec_padded(nanos / 1_000, 6)
    } else if digits == 9 {
        "."@ + dec_padded(nanos, 9)
    } else {
        Seq::empty()
    }
}

/// A time of day with `digits` fractional digits.
pub open spec fn clock(h: nat, m: nat, s: nat, nanos: nat, digits: nat) -> Seq<char> {
    two_digits(h) + ":"@ + two_digits(m) + ":"@ + two_digits(s) + fraction(nanos, digits)
}

/// Fractional digits shown for a unit.
pub open spec fn unit_digits(unit: TimeUnit) -> nat {
    match unit {
        TimeUnit::Second => 0,
        TimeUnit::Millisecond => 3,
        TimeUnit::Microsecond => 6,
        TimeUnit::Nanosecond => 9,
    }
}

/// The fractional digits that a clock pattern asks for.
pub open spec fn pattern_digits(pattern: Seq<char>) -> nat {
    if pattern == "%H:%M:%S%.3f"@ {
        3
    } else if pattern == "%H:%M:%S%.6f"@ {
        6
    } else if pattern == "%H:%M:%S%.9f"@ {
        9
    } else {
        0
    }
}

/// `chrono::NaiveTime::from_hms_nano_opt`, then `format`: hour, minute and second
/// with two digits each, and the leading digits of the fraction that the pattern
/// asks for.
#[verifier::external_body]
fn format_clock(h: u32, m: u32, s: u32, nanos: u32, pattern: &str) -> (r: String)
    requires
        h < 24,
        m < 60,
        s < 60,
        nanos < 1_000_000_000,
        pattern@ == "%H:%M:%S"@ || pattern_digits(pattern@) > 0,
    ensures
        r@ == clock(h as nat, m as nat, s as nat, nanos as nat, pattern_digits(pattern@)),
{
    chrono::NaiveTime::from_hms_nano_opt(h, m, s, nanos).unwrap_or_default().format(
        pattern,
    ).to_string()
}

fn unit_clock_pattern(unit: TimeUnit) -> (r: &'static str)
    ensures
        pattern_digits(r@) == unit_digits(unit),
        r@ == "%H:%M:%S"@ || pattern_digits(r@) > 0,
{
    proof {
        reveal_strlit("%H:%M:%S");
        reveal_strlit("%H:%M:%S%.3f");
        reveal_strlit("%H:%M:%S%.6f");
        reveal_strlit("%H:%M:%S%.9f");
        assert("%H:%M:%S"@.len() == 8);
        assert("%H:%M:%S%.3f"@.len() == 12);
        assert("%H:%M:%S%.6f"@.len() == 12);
        assert("%H:%M:%S%.9f"@.len() == 12);
        assert("%H:%M:%S%.3f"@[10] == '3');
        assert("%H:%M:%S%.6f"@[10] == '6');
        assert("%H:%M:%S%.9f"@[10] == '9');
    }
    match unit {
        TimeUnit::Second => "%H:%M:%S",
        TimeUnit::Millisecond => "%H:%M:%S%.3f",
        TimeUnit::Microsecond => "%H:%M:%S%.6f",
        TimeUnit::Nanosecond => "%H:%M:%S%.9f",
    }
}

/// A number of seconds, taken within its day, and a fraction as a time of day.
pub open spec fn time_of_day(secs: int, nanos: nat, unit: TimeUnit) -> Seq<char> {
    let total = secs % 86_400;
    clock(
        (total / 3600) as nat,
        ((total / 60) % 60) as nat,
        (total % 60) as nat,
        nanos,
        unit_digits(unit),
    )
}

/// Parts per second of a unit.
pub open spec fn per_second(unit: TimeUnit) -> int {
    match unit {
        TimeUnit::Second => 1,
        TimeUnit::Millisecond => 1_000,
        TimeUnit::Microsecond => 1_000_000,
        TimeUnit::Nanosecond => 1_000_000_000,
    }
}

/// Nanoseconds of one unit.
pub open spec fn nanos_each(unit: TimeUnit) -> int {
    match unit {
        TimeUnit::Second => 1_000_000_000,
        TimeUnit::Millisecond => 1_000_000,
        TimeUnit::Microsecond => 1_000,
        TimeUnit::Nanosecond => 1,
    }
}

/// Text of a time of day counted in `unit` from midnight. A negative count is taken
/// within its day by its whole seconds.
pub open spec fn time_text(v: int, unit: TimeUnit) -> Seq<char> {
    let per = per_second(unit);
    if v >= 0 {
        time_of_day(v / per, ((v % per) * nanos_each(unit)) as nat, unit)
    } else {
        time_of_day(-((-v) / per), 0, unit)
    }
}

fn format_time_parts(secs: i64, nanos: u32, unit: TimeUnit) -> (r: String)
    requires
        nanos < 1_000_000_000,
    ensures
        r@ == time_of_day(secs as int, nanos as nat, unit),
{
    let (_, total64) = div_floor(secs, 86_400);
    let total: u32 = total64 as u32;
    let pattern = unit_clock_pattern(unit);
    format_clock(total / 3600, (total / 60) % 60, total % 60, nanos, pattern)
}

fn parts_of(v: i64, unit: TimeUnit) -> (r: (i64, u32))
    ensures
        v >= 0 ==> r.0 == v as int / per_second(unit) && r.1 == (v as int % per_second(unit))
            * nanos_each(unit),
        v < 0 ==> r.0 == -((-(v as int)) / per_second(unit)) && r.1 == 0,
        r.1 < 1_000_000_000,
{
    let per: i64 = match unit {
        TimeUnit::Second => 1,
        TimeUnit::Millisecond => 1_000,
        TimeUnit::Microsecond => 1_000_000,
        TimeUnit::Nanosecond => 1_000_000_000,
    };
    if v >= 0 {
        let rest: i64 = v % per;
        let nanos: i64 = match unit {
            TimeUnit::Second => 0,
            TimeUnit::Millisecond => rest * 1_000_000,
            TimeUnit::Microsecond => rest * 1_000,
            TimeUnit::Nanosecond => rest,
        };
        (v / per, nanos as u32)
    } else {
        let q: i128 = (-(v as i128)) / (per as i128);
        proof {
            assert(0 <= q <= 0x8000_0000_0000_0000) by (nonlinear_arith)
                requires
                    q == (-(v as int)) / per as int,
                    per >= 1,
                    -0x8000_0000_0000_0000 <= v < 0,
            ;
        }
        ((-q) as i64, 0)
    }
}

/// Text of a 32-bit time of day, counted in seconds or milliseconds.
pub fn format_time32(v: i32, unit: TimeUnit) -> (r: String)
    requires
        unit == TimeUnit::Second || unit == TimeUnit::Millisecond,
    ensures
        r@ == time_text(v as int, unit),
{
    let (secs, nanos) = parts_of(v as i64, unit);
    format_time_parts(secs, nanos, unit)
}

/// Text of a 64-bit time of day, counted in microseconds or nanoseconds.
pub fn format_time64(v: i64, unit: TimeUnit) -> (r: String)
    requires
        unit == TimeUnit::Microsecond || unit == TimeUnit::Nanosecond,
    ensures
        r@ == time_text(v as int, unit),
{
    let (secs, nanos) = parts_of(v, unit);
    format_time_parts(secs, nanos, unit)
}

// ---------- timestamps ----------

/// Whole seconds of a timestamp, rounded down.
pub open spec fn whole_seconds(v: int, unit: TimeUnit) -> int {
    v / per_second(unit)
}

/// Nanoseconds of a timestamp beyond its whole seconds.
pub open spec fn sub_nanos(v: int, unit: TimeUnit) -> int {
    (v % per_second(unit)) * nanos_each(unit)
}

pub fn decompose_timestamp(v: i64, unit: TimeUnit) -> (r: (i64, u32))
    ensures
        r.0 == whole_seconds(v as int, unit),
        r.1 == sub_nanos(v as int, unit),
        r.1 < 1_000_000_000,
{
    match unit {
        TimeUnit::Second => (v, 0),
        TimeUnit::Millisecond => {
            let (q, m) = div_floor(v, 1_000);
            (q, (m * 1_000_000) as u32)
        },
        TimeUnit::Microsecond => {
            let (q, m) = div_floor(v, 1_000_000);
            (q, (m * 1_000) as u32)
        },
        TimeUnit::Nanosecond => {
            let (q, m) = div_floor(v, 1_000_000_000);
            (q, m as u32)
        },
    }
}

/// The pattern of a timestamp without zone.
pub open spec fn naive_pattern(unit: TimeUnit) -> Seq<char> {
    match unit {
        TimeUnit::Second => "%Y-%m-%dT%H:%M:%S"@,
        TimeUnit::Millisecond => "%Y-%m-%dT%H:%M:%S%.3f"@,
        TimeUnit::Microsecond => "%Y-%m-%dT%H:%M:%S%.6f"@,
        TimeUnit::Nanosecond => "%Y-%m-%dT%H:%M:%S%.9f"@,
    }
}

/// The pattern of a timestamp at an offset.
pub open spec fn zoned_pattern(unit: TimeUnit) -> Seq<char> {
    match unit {
        TimeUnit::Second => "%Y-%m-%dT%H:%M:%S%:z"@,
        TimeUnit::Millisecond => "%Y-%m-%dT%H:%M:%S%.3f%:z"@,
        TimeUnit::Microsecond => "%Y-%m-%dT%H:%M:%S%.6f%:z"@,
        TimeUnit::Nanosecond => "%Y-%m-%dT%H:%M:%S%.9f%:z"@,
    }
}

/// Seconds and nanoseconds as a bare number, for instants that are no date.
pub open spec fn raw_seconds(secs: int, nanos: nat) -> Seq<char> {
    dec_int(secs) + "."@ + dec_padded(nanos, 9)
}

/// A text, or the bare seconds where there is none.
pub open spec fn or_raw(text: Option<Seq<char>>, secs: int, nanos: nat) -> Seq<char> {
    match text {
        Some(s) => s,
        None => raw_seconds(secs, nanos),
    }
}

/// Text of an instant without zone.
pub open spec fn naive_text(secs: int, nanos: int, unit: TimeUnit) -> Seq<char> {
    or_raw(utc_form(secs, nanos, naive_pattern(unit)), secs, nanos as nat)
}

fn raw_seconds_text(secs: i64, nanos: u32) -> (r: String)
    ensures
        r@ == raw_seconds(secs as int, nanos as nat),
{
    let mut s = dec_i64(secs);
    s.append(".");
    s.append(dec_padded_u64(nanos as u64, 9).as_str());
    s
}

/// A text, or the bare seconds where there is none.
pub fn text_or_raw(text: Option<String>, secs: i64, nanos: u32) -> (r: String)
    ensures
        r@ == or_raw(opt_view(text), secs as int, nanos as nat),
{
    match text {
        Some(s) => s,
        None => raw_seconds_text(secs, nanos),
    }
}

pub fn naive_ts_iso(secs: i64, nanos: u32, unit: TimeUnit) -> (r: String)
    requires
        nanos < 1_000_000_000,
    ensures
        r@ == naive_text(secs as int, nanos as int, unit),
        !in_calendar(secs as int) ==> r@ == raw_seconds(secs as int, nanos as nat),
{
    let pattern: &'static str = match unit {
        TimeUnit::Second => "%Y-%m-%dT%H:%M:%S",
        TimeUnit::Millisecond => "%Y-%m-%dT%H:%M:%S%.3f",
        TimeUnit::Microsecond => "%Y-%m-%dT%H:%M:%S%.6f",
        TimeUnit::Nanosecond => "%Y-%m-%dT%H:%M:%S%.9f",
    };
    text_or_raw(format_utc(secs, nanos, pattern), secs, nanos)
}

/// The number that `s` writes with an optional sign, where it fits in 32 bits.
pub open spec fn small_int(s: Seq<char>) -> Option<int> {
    let t = if s.len() > 1 && s[0] == '+' && is_digit(s[1]) {
        s.drop_first()
    } else {
        s
    };
    match int_of(t) {
        Some(i) => if i32::MIN <= i <= i32::MAX {
            Some(i as int)
        } else {
            None
        },
        None => None,
    }
}

fn parse_small(s: &[char]) -> (r: Option<i64>)
    ensures
        match r {
            Some(i) => small_int(s@) == Some(i as int) && i32::MIN <= i <= i32::MAX,
            None => small_int(s@) is None,
        },
{
    let plus: bool = s.len() > 1 && s[0] == '+' && '0' <= s[1] && s[1] <= '9';
    let from: usize = if plus {
        1
    } else {
        0
    };
    let t = slice_subrange(s, from, s.len());
    proof {
        if plus {
            assert(t@ =~= s@.drop_first());
        } else {
            assert(t@ =~= s@);
        }
    }
    match parse_int(t) {
        Ok(i) => if -0x8000_0000 <= i && i <= 0x7fff_ffff {
            Some(i)
        } else {
            None
        },
        Err(_) => None,
    }
}

/// Seconds east of UTC of a zone written as `+HH:MM`, `-HH:MM`, `+HHMM`, `-HHMM`,
/// `Z` or `UTC`; nothing for any other zone, or beyond a day.
pub open spec fn offset_of(tz: Seq<char>) -> Option<int> {
    if tz == "Z"@ || tz == "UTC"@ || tz == "+00:00"@ || tz == "-00:00"@ {
        Some(0)
    } else if tz.len() < 3 || (tz[0] != '+' && tz[0] != '-') {
        None
    } else {
        let rest = tz.drop_first();
        let colon = find(rest, ':') as int;
        let parts = if colon < rest.len() {
            Some((rest.take(colon), rest.skip(colon + 1)))
        } else if rest.len() == 4 {
            Some((rest.take(2), rest.skip(2)))
        } else {
            None
        };
        match parts {
            None => None,
            Some((hh, mm)) => match (small_int(hh), small_int(mm)) {
                (Some(h), Some(m)) => {
                    let east = if tz[0] == '+' {
                        h * 3600 + m * 60
                    } else {
                        -(h * 3600 + m * 60)
                    };
                    if -86_400 < east < 86_400 {
                        Some(east)
                    } else {
                        None
                    }
                },
                _ => None,
            },
        }
    }
}

pub fn parse_fixed_offset(tz: &str) -> (r: Option<i32>)
    ensures
        match r {
            Some(e) => offset_of(tz@) == Some(e as int) && -86_400 < e < 86_400,
            None => offset_of(tz@) is None,
        },
{
    if same_text(tz, "Z") || same_text(tz, "UTC") || same_text(tz, "+00:00") || same_text(
        tz,
        "-00:00",
    ) {
        return Some(0);
    }
    let chars = chars_of(tz);
    if chars.len() < 3 {
        return None;
    }
    let first: char = chars[0];
    if first != '+' && first != '-' {
        return None;
    }
    let rest = slice_subrange(chars.as_slice(), 1, chars.len());
    proof {
        assert(rest@ =~= tz@.drop_first());
    }
    let colon = find_char(rest, ':');
    let (hh, mm) = if colon < rest.len() {
        let a = slice_subrange(rest, 0, colon);
        let b = slice_subrange(rest, colon + 1, rest.len());
        proof {
            assert(a@ =~= rest@.take(colon as int));
            assert(b@ =~= rest@.skip(colon + 1));
        }
        (a, b)
    } else if rest.len() == 4 {
        let a = slice_subrange(rest, 0, 2);
        let b = slice_subrange(rest, 2, 4);
        proof {
            assert(a@ =~= rest@.take(2));
            assert(b@ =~= rest@.skip(2));
        }
        (a, b)
    } else {
        return None;
    };
    let h: i64 = match parse_small(hh) {
        Some(v) => v,
        None => return None,
    };
    let m: i64 = match parse_small(mm) {
        Some(v) => v,
        None => return None,
    };
    let magnitude: i64 = h * 3600 + m * 60;
    let east: i64 = if first == '+' {
        magnitude
    } else {
        -magnitude
    };
    if -86_400 < east && east < 86_400 {
        Some(east as i32)
    } else {
        None
    }
}

/// What is shown of an instant in the zone `tz`: `local`, its text at the offset,
/// where the zone is one, and otherwise `utc` with the zone's name behind it; the
/// bare seconds and the zone where the text is missing.
pub open spec fn shown_in_zone(
    utc: Option<Seq<char>>,
    local: Option<Seq<char>>,
    secs: int,
    nanos: nat,
    tz: Seq<char>,
) -> Seq<char> {
    match (offset_of(tz), utc, local) {
        (Some(_), _, Some(s)) => s,
        (None, Some(s), _) => s + "Z["@ + tz + "]"@,
        _ => raw_seconds(secs, nanos) + tz,
    }
}

/// What is shown of an instant in the zone `tz`, given its text in UTC and at the
/// offset.
pub fn show_in_zone(
    utc: Option<String>,
    local: Option<String>,
    secs: i64,
    nanos: u32,
    tz: &str,
) -> (r: String)
    ensures
        r@ == shown_in_zone(opt_view(utc), opt_view(local), secs as int, nanos as nat, tz@),
{
    match (parse_fixed_offset(tz), utc, local) {
        (Some(_), _, Some(s)) => s,
        (None, Some(base), _) => {
            let mut s = base;
            s.append("Z[");
            s.append(tz);
            s.append("]");
            s
        },
        _ => {
            let mut s = raw_seconds_text(secs, nanos);
            s.append(tz);
            s
        },
    }
}

/// Text of an instant in the zone `tz`: local time and offset where the zone is an
/// offset, and otherwise the instant in UTC with the zone's name behind it.
pub open spec fn zoned_text(secs: int, nanos: int, unit: TimeUnit, tz: Seq<char>) -> Seq<char> {
    let local = match offset_of(tz) {
        Some(east) => offset_form(secs, nanos, east, zoned_pattern(unit)),
        None => None,
    };
    shown_in_zone(utc_form(secs, nanos, naive_pattern(unit)), local, secs, nanos as nat, tz)
}

pub fn zoned_ts_iso(secs: i64, nanos: u32, unit: TimeUnit, tz: &str) -> (r: String)
    requires
        nanos < 1_000_000_000,
    ensures
        r@ == zoned_text(secs as int, nanos as int, unit, tz@),
        !in_calendar(secs as int) ==> r@ == raw_seconds(secs as int, nanos as nat) + tz@,
{
    let (naive, zoned): (&'static str, &'static str) = match unit {
        TimeUnit::Second => ("%Y-%m-%dT%H:%M:%S", "%Y-%m-%dT%H:%M:%S%:z"),
        TimeUnit::Millisecond => ("%Y-%m-%dT%H:%M:%S%.3f", "%Y-%m-%dT%H:%M:%S%.3f%:z"),
        TimeUnit::Microsecond => ("%Y-%m-%dT%H:%M:%S%.6f", "%Y-%m-%dT%H:%M:%S%.6f%:z"),
        TimeUnit::Nanosecond => ("%Y-%m-%dT%H:%M:%S%.9f", "%Y-%m-%dT%H:%M:%S%.9f%:z"),
    };
    let local = match parse_fixed_offset(tz) {
        Some(east) => format_at_offset(secs, nanos, east, zoned),
        None => None,
    };
    show_in_zone(format_utc(secs, nanos, naive), local, secs, nanos, tz)
}

/// Text of a timestamp counted in `unit` from the epoch.
pub open spec fn timestamp_text(v: i64, unit: TimeUnit, tz: Option<Seq<char>>) -> Seq<char> {
    let secs = whole_seconds(v as int, unit);
    let nanos = sub_nanos(v as int, unit);
    match tz {
        None => naive_text(secs, nanos, unit),
        Some(z) => zoned_text(secs, nanos, unit, z),
    }
}

pub fn format_timestamp(v: i64, unit: TimeUnit, tz: &Option<String>) -> (r: String)
    ensures
        r@ == timestamp_text(v, unit, opt_view(*tz)),
{
    let (secs, nanos) = decompose_timestamp(v, unit);
    match tz {
        None => naive_ts_iso(secs, nanos, unit),
        Some(z) => zoned_ts_iso(secs, nanos, unit, z.as_str()),
    }
}

// ---------- durations ----------

/// A count with its unit letter; nothing for zero.
pub open spec fn component(n: nat, letter: Seq<char>) -> Seq<char> {
    if n > 0 {
        dec(n) + letter
    } else {
        Seq::empty()
    }
}

fn push_component(out: &mut String, n: u64, letter: &str)
    ensures
        final(out)@ == old(out)@ + component(n as nat, letter@),
{
    if n > 0 {
        out.append(dec_u64(n).as_str());
        out.append(letter);
    }
    proof {
        assert(out@ =~= old(out)@ + component(n as nat, letter@));
    }
}

/// `s` without the zeros at its end.
pub open spec fn strip_zeros(s: Seq<char>) -> Seq<char>
    decreases s.len(),
{
    if s.len() > 0 && s.last() == '0' {
        strip_zeros(s.drop_last())
    } else {
        s
    }
}

fn strip_zeros_text(s: &str) -> (r: String)
    ensures
        r@ == strip_zeros(s@),
{
    let chars = chars_of(s);
    let mut end: usize = chars.len();
    proof {
        assert(chars@.take(chars@.len() as int) =~= chars@);
    }
    while end > 0 && chars[end - 1] == '0'
        invariant
            end <= chars@.len(),
            strip_zeros(chars@.take(end as int)) == strip_zeros(chars@),
        decreases end,
    {
        proof {
            assert(chars@.take(end as int).drop_last() =~= chars@.take(end - 1));
        }
        end -= 1;
    }
    proof {
        assert(chars@.subrange(0, end as int) =~= chars@.take(end as int));
    }
    text_of(slice_subrange(chars.as_slice(), 0, end))
}

/// Seconds with the significant digits of their fraction.
pub open spec fn seconds_text(secs: nat, nanos: nat) -> Seq<char> {
    if nanos == 0 {
        dec(secs) + "S"@
    } else {
        dec(secs) + "."@ + strip_zeros(dec_padded(nanos, 9)) + "S"@
    }
}

fn seconds_string(secs: u64, nanos: u64) -> (r: String)
    ensures
        r@ == seconds_text(secs as nat, nanos as nat),
{
    let mut s = dec_u64(secs);
    if nanos > 0 {
        s.append(".");
        s.append(strip_zeros_text(dec_padded_u64(nanos, 9).as_str()).as_str());
    }
    s.append("S");
    s
}

/// Text of a duration as an ISO 8601 period of hours, minutes and seconds. The sign
/// and the fraction are those of the duration's whole seconds, rounded down, and of
/// what lies beyond them.
pub open spec fn duration_text(v: i64, unit: TimeUnit) -> Seq<char> {
    let secs = whole_seconds(v as int, unit);
    let nanos = sub_nanos(v as int, unit) as nat;
    let size: nat = if secs < 0 {
        (-secs) as nat
    } else {
        secs as nat
    };
    let hours = size / 3600;
    let minutes = (size % 3600) / 60;
    let seconds = size % 60;
    let sign = if secs < 0 {
        "-PT"@
    } else {
        "PT"@
    };
    sign + component(hours, "H"@) + component(minutes, "M"@) + (if nanos > 0 || seconds > 0 || (hours
        == 0 && minutes == 0) {
        seconds_text(seconds, nanos)
    } else {
        Seq::empty()
    })
}

pub fn format_duration(v: i64, unit: TimeUnit) -> (r: String)
    ensures
        r@ == duration_text(v, unit),
{
    let (secs, nanos) = decompose_timestamp(v, unit);
    let size: u64 = if secs < 0 {
        (-(secs as i128)) as u64
    } else {
        secs as u64
    };
    let hours: u64 = size / 3600;
    let minutes: u64 = (size % 3600) / 60;
    let seconds: u64 = size % 60;
    let mut buf = if secs < 0 {
        "-PT".to_owned()
    } else {
        "PT".to_owned()
    };
    push_component(&mut buf, hours, "H");
    push_component(&mut buf, minutes, "M");
    let ghost before = buf@;
    if nanos > 0 || seconds > 0 || (hours == 0 && minutes == 0) {
        buf.append(seconds_string(seconds, nanos as u64).as_str());
    } else {
        proof {
            assert(before + Seq::<char>::empty() =~= before);
        }
    }
    buf
}

// ---------- intervals ----------

/// The magnitude of an integer.
pub open spec fn size(i: int) -> nat {
    if i < 0 {
        (-i) as nat
    } else {
        i as nat
    }
}

/// `P` with its sign.
pub open spec fn period_start(negative: bool) -> Seq<char> {
    if negative {
        "-P"@
    } else {
        "P"@
    }
}

/// Text of a calendar interval of months.
pub open spec fn year_month_text(months: i32) -> Seq<char> {
    let years = size(months as int) / 12;
    let rest = size(months as int) % 12;
    period_start(months < 0) + component(years, "Y"@) + (if rest > 0 || years == 0 {
        dec(rest) + "M"@
    } else {
        Seq::empty()
    })
}

fn size_i64(v: i64) -> (r: u64)
    ensures
        r == size(v as int),
{
    if v < 0 {
        (-(v as i128)) as u64
    } else {
        v as u64
    }
}

fn period_start_text(negative: bool) -> (r: String)
    ensures
        r@ == period_start(negative),
{
    if negative {
        "-P".to_owned()
    } else {
        "P".to_owned()
    }
}

pub fn format_interval_year_month(months: i32) -> (r: String)
    ensures
        r@ == year_month_text(months),
{
    let a: u64 = size_i64(months as i64);
    let years: u64 = a / 12;
    let rest: u64 = a % 12;
    let mut s = period_start_text(months < 0);
    push_component(&mut s, years, "Y");
    let ghost before = s@;
    if rest > 0 || years == 0 {
        let mut m = dec_u64(rest);
        m.append("M");
        s.append(m.as_str());
    } else {
        proof {
            assert(before + Seq::<char>::empty() =~= before);
        }
    }
    s
}

/// The part of a period behind `T`; `T0S` where the period would otherwise be empty.
pub open spec fn time_part(present: bool, text: Seq<char>, empty: bool) -> Seq<char> {
    if present {
        "T"@ + text
    } else if empty {
        "T0S"@
    } else {
        Seq::empty()
    }
}

/// Seconds with three fractional digits where there is a fraction.
pub open spec fn millis_text(ms: nat) -> Seq<char> {
    if ms % 1000 == 0 {
        dec(ms / 1000) + "S"@
    } else {
        dec(ms / 1000) + "."@ + dec_padded(ms % 1000, 3) + "S"@
    }
}

/// Text of a calendar interval of days and milliseconds.
pub open spec fn day_time_text(days: i32, ms: i32) -> Seq<char> {
    let d = size(days as int);
    let m = size(ms as int);
    period_start(days < 0 || ms < 0) + component(d, "D"@) + time_part(m > 0, millis_text(m), d == 0)
}

pub fn format_interval_day_time(days: i32, ms: i32) -> (r: String)
    ensures
        r@ == day_time_text(days, ms),
{
    let d: u64 = size_i64(days as i64);
    let m: u64 = size_i64(ms as i64);
    let mut out = period_start_text(days < 0 || ms < 0);
    push_component(&mut out, d, "D");
    let ghost before = out@;
    if m > 0 {
        let mut t = "T".to_owned();
        let mut text = dec_u64(m / 1000);
        if m % 1000 != 0 {
            text.append(".");
            text.append(dec_padded_u64(m % 1000, 3).as_str());
        }
        text.append("S");
        t.append(text.as_str());
        out.append(t.as_str());
    } else if d == 0 {
        out.append("T0S");
    } else {
        proof {
            assert(before + Seq::<char>::empty() =~= before);
        }
    }
    out
}

/// Text of a calendar interval of months, days and nanoseconds.
pub open spec fn month_day_nano_text(months: i32, days: i32, nanos: i64) -> Seq<char> {
    let mo = size(months as int);
    let d = size(days as int);
    let n = size(nanos as int);
    period_start(months < 0 || days < 0 || nanos < 0) + component(mo, "M"@) + component(d, "D"@)
        + time_part(n > 0, seconds_text(n / 1_000_000_000, n % 1_000_000_000), mo == 0 && d == 0)
}

pub fn format_interval_month_day_nano(months: i32, days: i32, nanos: i64) -> (r: String)
    ensures
        r@ == month_day_nano_text(months, days, nanos),
{
    let mo: u64 = size_i64(months as i64);
    let d: u64 = size_i64(days as i64);
    let n: u64 = size_i64(nanos);
    let mut out = period_start_text(months < 0 || days < 0 || nanos < 0);
    push_component(&mut out, mo, "M");
    push_component(&mut out, d, "D");
    let ghost before = out@;
    if n > 0 {
        let mut t = "T".to_owned();
        t.append(seconds_string(n / 1_000_000_000, n % 1_000_000_000).as_str());
        out.append(t.as_str());
    } else if mo == 0 && d == 0 {
        out.append("T0S");
    } else {
        proof {
            assert(before + Seq::<char>::empty() =~= before);
        }
    }
    out
}

// ---------- instants ----------

/// What chrono prints for an instant in RFC 3339 form, with as many digits of the
/// second as needed; nothing where the instant is out of its range.
pub uninterp spec fn rfc3339_form(secs: int, nanos: int) -> Option<Seq<char>>;

/// What chrono prints for an instant in RFC 3339 form in whole seconds, with the
/// suffix `Z`; nothing where the instant is out of its range.
pub uninterp spec fn rfc3339_seconds_form(secs: int, nanos: int) -> Option<Seq<char>>;

/// `chrono::DateTime::from_timestamp`, then `to_rfc3339`: nothing where the instant
/// is out of range, and otherwise its RFC 3339 text in UTC.
#[verifier::external_body]
fn to_rfc3339(secs: i64, nanos: u32) -> (r: Option<String>)
    requires
        nanos < 1_000_000_000,
    ensures
        opt_view(r) == rfc3339_form(secs as int, nanos as int),
        r is Some <==> in_calendar(secs as int),
{
    chrono::DateTime::<chrono::Utc>::from_timestamp(secs, nanos).map(|t| t.to_rfc3339())
}

/// `chrono::DateTime::from_timestamp`, then `to_rfc3339_opts` with whole seconds and
/// `Z`: nothing where the instant is out of range, and otherwise its RFC 3339 text
/// in UTC.
#[verifier::external_body]
fn to_rfc3339_seconds(secs: i64, nanos: u32) -> (r: Option<String>)
    requires
        nanos < 1_000_000_000,
    ensures
        opt_view(r) == rfc3339_seconds_form(secs as int, nanos as int),
        r is Some <==> in_calendar(secs as int),
{
    chrono::DateTime::<chrono::Utc>::from_timestamp(secs, nanos).map(
        |t| t.to_rfc3339_opts(chrono::SecondsFormat::Secs, true),
    )
}

/// An instant in RFC 3339 form.
pub open spec fn rfc3339_text(t: Instant) -> Seq<char> {
    or_number(rfc3339_form(t.secs as int, t.nanos as int), t.secs as int)
}

/// An instant in RFC 3339 form, in whole seconds.
pub open spec fn rfc3339_seconds_text(t: Instant) -> Seq<char> {
    or_number(rfc3339_seconds_form(t.secs as int, t.nanos as int), t.secs as int)
}

/// An instant as the version log shows it.
pub open spec fn log_time_text(t: Instant) -> Seq<char> {
    or_number(utc_form(t.secs as int, t.nanos as int, "%Y-%m-%dT%H:%M:%SZ"@), t.secs as int)
}

/// An instant in RFC 3339 form.
pub fn format_rfc3339(t: Instant) -> (r: String)
    requires
        t.wf(),
    ensures
        r@ == rfc3339_text(t),
        !in_calendar(t.secs as int) ==> r@ == dec_int(t.secs as int),
{
    text_or_number(to_rfc3339(t.secs, t.nanos), t.secs)
}

/// An instant in RFC 3339 form, in whole seconds.
pub fn format_rfc3339_seconds(t: Instant) -> (r: String)
    requires
        t.wf(),
    ensures
        r@ == rfc3339_seconds_text(t),
        !in_calendar(t.secs as int) ==> r@ == dec_int(t.secs as int),
{
    text_or_number(to_rfc3339_seconds(t.secs, t.nanos), t.secs)
}

/// An instant as the version log shows it.
pub fn format_log_time(t: Instant) -> (r: String)
    requires
        t.wf(),
    ensures
        r@ == log_time_text(t),
        !in_calendar(t.secs as int) ==> r@ == dec_int(t.secs as int),
{
    text_or_number(format_utc(t.secs, t.nanos, "%Y-%m-%dT%H:%M:%SZ"), t.secs)
}

} // verus!
