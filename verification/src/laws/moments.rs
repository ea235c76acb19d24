//! Instants, times of day, durations and intervals as text.
use vstd::prelude::*;

use crate::dataset::Instant;
use crate::output::temporal::{
    date32_text, date64_text, day_time_text, duration_text, log_time_text, month_day_nano_text,
    nanos_each, offset_form, offset_of, per_second, rfc3339_form, rfc3339_seconds_form,
    rfc3339_seconds_text, rfc3339_text, strip_zeros, sub_nanos, time_text, timestamp_text, utc_form,
    whole_seconds, year_month_text,
};
use crate::schema::TimeUnit;
use crate::text::{dec, dec_int, dec_padded, zeros};

verus! {

/// Nanoseconds in one unit.
pub open spec fn unit_nanos(unit: TimeUnit) -> int {
    match unit {
        TimeUnit::Second => 1_000_000_000,
        TimeUnit::Millisecond => 1_000_000,
        TimeUnit::Microsecond => 1_000,
        TimeUnit::Nanosecond => 1,
    }
}

/// True where `secs` seconds and `nanos` nanoseconds, of which there is less than a
/// second, are together `v` units.
pub open spec fn amounts_to(secs: int, nanos: int, v: int, unit: TimeUnit) -> bool {
    secs * 1_000_000_000 + nanos == v * unit_nanos(unit) && 0 <= nanos < 1_000_000_000
}

proof fn lemma_amount(secs: int, nanos: int, v: int, unit: TimeUnit)
    ensures
        unit == TimeUnit::Second ==> (amounts_to(secs, nanos, v, unit) <==> secs == v && nanos == 0),
        unit == TimeUnit::Millisecond ==> (amounts_to(secs, nanos, v, unit) <==> secs == v / 1_000
            && nanos == v % 1_000 * 1_000_000),
        unit == TimeUnit::Microsecond ==> (amounts_to(secs, nanos, v, unit) <==> secs == v
            / 1_000_000 && nanos == v % 1_000_000 * 1_000),
        unit == TimeUnit::Nanosecond ==> (amounts_to(secs, nanos, v, unit) <==> secs == v
            / 1_000_000_000 && nanos == v % 1_000_000_000),
{
    match unit {
        TimeUnit::Second => {
            assert(v * unit_nanos(unit) == v * 1_000_000_000);
        },
        TimeUnit::Millisecond => {
            assert(v * unit_nanos(unit) == v * 1_000_000);
        },
        TimeUnit::Microsecond => {
            assert(v * unit_nanos(unit) == v * 1_000);
        },
        TimeUnit::Nanosecond => {
            assert(v * unit_nanos(unit) == v);
        },
    }
}

/// The seconds and nanoseconds that a count is taken apart into add up to the
/// instant that it counts, in every unit, and no other seconds and nanoseconds do.
pub proof fn law_parts_add_up(v: int, unit: TimeUnit)
    ensures
        amounts_to(whole_seconds(v, unit), sub_nanos(v, unit), v, unit),
        forall|secs: int, nanos: int| #[trigger]
            amounts_to(secs, nanos, v, unit) ==> secs == whole_seconds(v, unit) && nanos == sub_nanos(
                v,
                unit,
            ),
{
    let per = per_second(unit);
    let each = nanos_each(unit);
    assert(per == 1 ==> v / per == v && v % per * each == 0) by (nonlinear_arith);
    assert(per == 1_000 && each == 1_000_000 ==> v / per == v / 1_000 && v % per * each == v % 1_000
        * 1_000_000) by (nonlinear_arith);
    assert(per == 1_000_000 && each == 1_000 ==> v / per == v / 1_000_000 && v % per * each == v
        % 1_000_000 * 1_000) by (nonlinear_arith);
    assert(per == 1_000_000_000 && each == 1 ==> v / per == v / 1_000_000_000 && v % per * each == v
        % 1_000_000_000) by (nonlinear_arith);
    lemma_amount(whole_seconds(v, unit), sub_nanos(v, unit), v, unit);
    assert forall|secs: int, nanos: int| #[trigger] amounts_to(secs, nanos, v, unit) implies secs
        == whole_seconds(v, unit) && nanos == sub_nanos(v, unit) by {
        lemma_amount(secs, nanos, v, unit);
    }
}

/// One instant counted in two units has the same seconds and nanoseconds.
pub proof fn law_units_agree(v: int, unit: TimeUnit, w: int, other: TimeUnit)
    requires
        v * unit_nanos(unit) == w * unit_nanos(other),
    ensures
        whole_seconds(v, unit) == whole_seconds(w, other),
        sub_nanos(v, unit) == sub_nanos(w, other),
{
    law_parts_add_up(v, unit);
    law_parts_add_up(w, other);
}

/// Later counts have later parts.
pub proof fn law_parts_keep_the_order(v: int, w: int, unit: TimeUnit)
    requires
        v < w,
    ensures
        whole_seconds(v, unit) < whole_seconds(w, unit) || (whole_seconds(v, unit) == whole_seconds(
            w,
            unit,
        ) && sub_nanos(v, unit) < sub_nanos(w, unit)),
{
    law_parts_add_up(v, unit);
    law_parts_add_up(w, unit);
}

/// The digits of a second's fraction that a unit counts.
pub open spec fn fraction_digits(unit: TimeUnit) -> nat {
    match unit {
        TimeUnit::Second => 0,
        TimeUnit::Millisecond => 3,
        TimeUnit::Microsecond => 6,
        TimeUnit::Nanosecond => 9,
    }
}

/// The calendar pattern for a date and a time with so many digits of a second.
pub open spec fn to_the(unit: TimeUnit) -> Seq<char> {
    match unit {
        TimeUnit::Second => "%Y-%m-%dT%H:%M:%S"@,
        TimeUnit::Millisecond => "%Y-%m-%dT%H:%M:%S%.3f"@,
        TimeUnit::Microsecond => "%Y-%m-%dT%H:%M:%S%.6f"@,
        TimeUnit::Nanosecond => "%Y-%m-%dT%H:%M:%S%.9f"@,
    }
}

/// A timestamp without a zone is shown as the calendar shows the instant that it
/// counts, to the unit; past the calendar, as the seconds with nine digits behind
/// the point.
pub proof fn law_timestamp_shows_its_instant(v: i64, unit: TimeUnit, secs: int, nanos: int)
    requires
        amounts_to(secs, nanos, v as int, unit),
    ensures
        utc_form(secs, nanos, to_the(unit)) matches Some(t) ==> timestamp_text(v, unit, None) == t,
        utc_form(secs, nanos, to_the(unit)) is None ==> timestamp_text(v, unit, None) == dec_int(secs)
            + "."@ + dec_padded(nanos as nat, 9),
{
    law_parts_add_up(v as int, unit);
}

/// The calendar pattern of a unit, followed by the offset.
pub open spec fn to_the_offset(unit: TimeUnit) -> Seq<char> {
    match unit {
        TimeUnit::Second => "%Y-%m-%dT%H:%M:%S%:z"@,
        TimeUnit::Millisecond => "%Y-%m-%dT%H:%M:%S%.3f%:z"@,
        TimeUnit::Microsecond => "%Y-%m-%dT%H:%M:%S%.6f%:z"@,
        TimeUnit::Nanosecond => "%Y-%m-%dT%H:%M:%S%.9f%:z"@,
    }
}

/// A timestamp in a zone with a fixed offset is shown at that offset. In any other
/// zone it is shown in UTC, with the zone's name behind it in brackets.
pub proof fn law_timestamp_shows_its_zone(
    v: i64,
    unit: TimeUnit,
    zone: Seq<char>,
    secs: int,
    nanos: int,
)
    requires
        amounts_to(secs, nanos, v as int, unit),
    ensures
        offset_of(zone) matches Some(east) ==> (offset_form(
            secs,
            nanos,
            east,
            to_the_offset(unit),
        ) matches Some(t) ==> timestamp_text(v, unit, Some(zone)) == t),
        offset_of(zone) is None ==> (utc_form(secs, nanos, to_the(unit)) matches Some(t)
            ==> timestamp_text(v, unit, Some(zone)) == t + "Z["@ + zone + "]"@),
        offset_of(zone) is None && utc_form(secs, nanos, to_the(unit)) is None ==> timestamp_text(
            v,
            unit,
            Some(zone),
        ) == dec_int(secs) + "."@ + dec_padded(nanos as nat, 9) + zone,
{
    law_parts_add_up(v as int, unit);
}

/// A date counted in days is that day's: the same text as a date counted in the
/// milliseconds of its first instant, wherever the calendar reaches.
pub proof fn law_both_dates_show_the_day(days: i32)
    ensures
        date32_text(days) == match utc_form(days * 86_400, 0, "%Y-%m-%d"@) {
            Some(t) => t,
            None => dec_int(days as int),
        },
        utc_form(days * 86_400, 0, "%Y-%m-%d"@) is Some ==> date64_text(
            (days * 86_400_000) as i64,
        ) == date32_text(days),
{
    let ms = days * 86_400_000;
    assert(ms / 1_000 == days * 86_400);
    assert(ms % 1_000 == 0);
}

/// A date counted in milliseconds is shown as the calendar shows that millisecond's
/// day; past the calendar, as the number.
pub proof fn law_date64_shows_its_instant(ms: i64, secs: int, rest: int)
    requires
        secs * 1_000 + rest == ms,
        0 <= rest < 1_000,
    ensures
        date64_text(ms) == match utc_form(secs, rest * 1_000_000, "%Y-%m-%d"@) {
            Some(t) => t,
            None => dec_int(ms as int),
        },
{
}

/// A time of day reads as its hours, minutes, seconds and the digits that its unit
/// counts: two digits each, with colons between and the fraction behind a point.
pub proof fn law_clock_reads_back(h: int, m: int, s: int, parts: int, unit: TimeUnit)
    requires
        0 <= h < 24,
        0 <= m < 60,
        0 <= s < 60,
        0 <= parts * unit_nanos(unit) < 1_000_000_000,
    ensures
        unit == TimeUnit::Second ==> time_text((h * 60 + m) * 60 + s, unit) == dec_padded(h as nat, 2)
            + ":"@ + dec_padded(m as nat, 2) + ":"@ + dec_padded(s as nat, 2),
        unit == TimeUnit::Millisecond ==> time_text(((h * 60 + m) * 60 + s) * 1_000 + parts, unit)
            == dec_padded(h as nat, 2) + ":"@ + dec_padded(m as nat, 2) + ":"@ + dec_padded(
            s as nat,
            2,
        ) + "."@ + dec_padded(parts as nat, 3),
        unit == TimeUnit::Microsecond ==> time_text(
            ((h * 60 + m) * 60 + s) * 1_000_000 + parts,
            unit,
        ) == dec_padded(h as nat, 2) + ":"@ + dec_padded(m as nat, 2) + ":"@ + dec_padded(
            s as nat,
            2,
        ) + "."@ + dec_padded(parts as nat, 6),
        unit == TimeUnit::Nanosecond ==> time_text(
            ((h * 60 + m) * 60 + s) * 1_000_000_000 + parts,
            unit,
        ) == dec_padded(h as nat, 2) + ":"@ + dec_padded(m as nat, 2) + ":"@ + dec_padded(
            s as nat,
            2,
        ) + "."@ + dec_padded(parts as nat, 9),
{
    let day = (h * 60 + m) * 60 + s;
    assert(day % 86_400 == day);
    assert(day / 3600 == h);
    assert((day / 60) % 60 == m);
    assert(day % 60 == s);
    let head = dec_padded(h as nat, 2) + ":"@ + dec_padded(m as nat, 2) + ":"@ + dec_padded(
        s as nat,
        2,
    );
    match unit {
        TimeUnit::Second => {
            assert(day / 1 == day && day % 1 == 0);
            assert(head + Seq::<char>::empty() =~= head);
        },
        TimeUnit::Millisecond => {
            let v = day * 1_000 + parts;
            assert(v / 1_000 == day && v % 1_000 == parts);
            assert((parts * 1_000_000) / 1_000_000 == parts);
            assert(head + ("."@ + dec_padded(parts as nat, 3)) =~= head + "."@ + dec_padded(
                parts as nat,
                3,
            ));
        },
        TimeUnit::Microsecond => {
            let v = day * 1_000_000 + parts;
            assert(v / 1_000_000 == day && v % 1_000_000 == parts);
            assert((parts * 1_000) / 1_000 == parts);
            assert(head + ("."@ + dec_padded(parts as nat, 6)) =~= head + "."@ + dec_padded(
                parts as nat,
                6,
            ));
        },
        TimeUnit::Nanosecond => {
            let v = day * 1_000_000_000 + parts;
            assert(v / 1_000_000_000 == day && v % 1_000_000_000 == parts);
            assert(parts * 1 == parts);
            assert(head + ("."@ + dec_padded(parts as nat, 9)) =~= head + "."@ + dec_padded(
                parts as nat,
                9,
            ));
        },
    }
}

/// A part of a duration, which is left out where there is none of it.
pub open spec fn some_of(n: int, letter: Seq<char>) -> Seq<char> {
    if n > 0 {
        dec(n as nat) + letter
    } else {
        Seq::empty()
    }
}

/// The fraction of a second in as few digits as write it: nine digits less the
/// zeros that end them.
pub proof fn law_fraction_drops_only_zeros(nanos: nat)
    ensures
        strip_zeros(dec_padded(nanos, 9)).len() > 0 ==> strip_zeros(dec_padded(nanos, 9)).last()
            != '0',
        strip_zeros(dec_padded(nanos, 9)).len() <= dec_padded(nanos, 9).len(),
        dec_padded(nanos, 9) == strip_zeros(dec_padded(nanos, 9)) + zeros(
            (dec_padded(nanos, 9).len() - strip_zeros(dec_padded(nanos, 9)).len()) as nat,
        ),
{
    lemma_strip(dec_padded(nanos, 9));
}

proof fn lemma_strip(s: Seq<char>)
    ensures
        strip_zeros(s).len() > 0 ==> strip_zeros(s).last() != '0',
        strip_zeros(s).len() <= s.len(),
        s == strip_zeros(s) + zeros((s.len() - strip_zeros(s).len()) as nat),
    decreases s.len(),
{
    if s.len() > 0 && s.last() == '0' {
        lemma_strip(s.drop_last());
        let t = strip_zeros(s);
        assert(s =~= t + zeros((s.len() - t.len()) as nat)) by {
            assert(s =~= s.drop_last().push('0'));
            assert(s.drop_last() =~= t + zeros((s.len() - 1 - t.len()) as nat));
        }
    } else {
        assert(s =~= s + zeros(0));
    }
}

/// A duration of no less than nothing reads as its hours, minutes and seconds: each
/// is left out where there is none of it, except where nothing else is there.
pub proof fn law_duration_reads_back(v: i64, unit: TimeUnit, h: int, m: int, s: int, nanos: int)
    requires
        0 <= h,
        0 <= m < 60,
        0 <= s < 60,
        amounts_to((h * 60 + m) * 60 + s, nanos, v as int, unit),
    ensures
        nanos == 0 ==> duration_text(v, unit) == "PT"@ + some_of(h, "H"@) + some_of(m, "M"@) + if s > 0
            || (h == 0 && m == 0) {
            dec(s as nat) + "S"@
        } else {
            Seq::empty()
        },
        nanos > 0 ==> duration_text(v, unit) == "PT"@ + some_of(h, "H"@) + some_of(m, "M"@) + (dec(
            s as nat,
        ) + "."@ + strip_zeros(dec_padded(nanos as nat, 9)) + "S"@),
{
    law_parts_add_up(v as int, unit);
    let all = (h * 60 + m) * 60 + s;
    assert(all / 3600 == h);
    assert((all % 3600) / 60 == m);
    assert(all % 60 == s);
}

/// Whole durations of one size, before and after nothing, differ by the sign.
pub proof fn law_negative_duration_has_a_sign(v: i64, unit: TimeUnit)
    requires
        v < 0,
        v > i64::MIN,
        sub_nanos(v as int, unit) == 0,
    ensures
        duration_text(v, unit) == seq!['-'] + duration_text((-v) as i64, unit),
{
    law_parts_add_up(v as int, unit);
    law_parts_add_up(-v, unit);
    let secs = whole_seconds(v as int, unit);
    assert((-v) * unit_nanos(unit) == -(v * unit_nanos(unit))) by (nonlinear_arith);
    assert(amounts_to(-secs, 0, -v, unit));
    reveal_strlit("-PT");
    reveal_strlit("PT");
    assert("-PT"@ =~= seq!['-'] + "PT"@);
    let t = duration_text(v, unit);
    let u = duration_text((-v) as i64, unit);
    assert(t =~= seq!['-'] + u);
}

/// An interval of years and months reads as its years and the months over them.
pub proof fn law_months_read_back(years: int, months: int, v: i32)
    requires
        0 <= years,
        0 <= months < 12,
        v == years * 12 + months,
    ensures
        year_month_text(v) == "P"@ + some_of(years, "Y"@) + if months > 0 || years == 0 {
            dec(months as nat) + "M"@
        } else {
            Seq::empty()
        },
        v > 0 ==> year_month_text((-v) as i32) == "-P"@ + some_of(years, "Y"@) + if months > 0
            || years == 0 {
            dec(months as nat) + "M"@
        } else {
            Seq::empty()
        },
{
}

/// An interval of days and milliseconds reads as its days, then its seconds with
/// three digits of fraction where there is one.
pub proof fn law_days_read_back(days: i32, ms: i32, s: int, rest: int)
    requires
        0 <= days,
        0 <= s,
        0 <= rest < 1_000,
        ms == s * 1_000 + rest,
    ensures
        days > 0 && ms == 0 ==> day_time_text(days, ms) == "P"@ + (dec(days as nat) + "D"@),
        ms > 0 && rest == 0 ==> day_time_text(days, ms) == "P"@ + some_of(days as int, "D"@) + ("T"@ + (
        dec(s as nat) + "S"@)),
        rest > 0 ==> day_time_text(days, ms) == "P"@ + some_of(days as int, "D"@) + ("T"@ + (dec(
            s as nat,
        ) + "."@ + dec_padded(rest as nat, 3) + "S"@)),
        days == 0 && ms == 0 ==> day_time_text(days, ms) == "P"@ + "T0S"@,
        (days > 0 || ms > 0) ==> day_time_text((-days) as i32, (-ms) as i32) == seq!['-']
            + day_time_text(days, ms),
{
    assert(ms as int / 1_000 == s && ms as int % 1_000 == rest);
    let t = day_time_text(days, ms);
    if days > 0 && ms == 0 {
        assert(t =~= "P"@ + (dec(days as nat) + "D"@));
    }
    if days == 0 && ms == 0 {
        assert(t =~= "P"@ + "T0S"@);
    }
    if days > 0 || ms > 0 {
        reveal_strlit("-P");
        reveal_strlit("P");
        assert("-P"@ =~= seq!['-'] + "P"@);
        assert(day_time_text((-days) as i32, (-ms) as i32) =~= seq!['-'] + t);
    }
}

/// An interval of months, days and nanoseconds reads as its months, its days, then
/// its seconds with the fraction in as few digits as write it.
pub proof fn law_mixed_interval_reads_back(months: i32, days: i32, nanos: i64, s: int, rest: int)
    requires
        0 <= months,
        0 <= days,
        0 <= s,
        0 <= rest < 1_000_000_000,
        nanos == s * 1_000_000_000 + rest,
    ensures
        nanos == 0 && (months > 0 || days > 0) ==> month_day_nano_text(months, days, nanos) == "P"@
            + some_of(months as int, "M"@) + some_of(days as int, "D"@),
        nanos > 0 && rest == 0 ==> month_day_nano_text(months, days, nanos) == "P"@ + some_of(
            months as int,
            "M"@,
        ) + some_of(days as int, "D"@) + ("T"@ + (dec(s as nat) + "S"@)),
        rest > 0 ==> month_day_nano_text(months, days, nanos) == "P"@ + some_of(months as int, "M"@)
            + some_of(days as int, "D"@) + ("T"@ + (dec(s as nat) + "."@ + strip_zeros(
            dec_padded(rest as nat, 9),
        ) + "S"@)),
        months == 0 && days == 0 && nanos == 0 ==> month_day_nano_text(months, days, nanos) == "P"@
            + "T0S"@,
        (months > 0 || days > 0 || nanos > 0) ==> month_day_nano_text(
            (-months) as i32,
            (-days) as i32,
            (-nanos) as i64,
        ) == seq!['-'] + month_day_nano_text(months, days, nanos),
{
    assert(nanos as int / 1_000_000_000 == s && nanos as int % 1_000_000_000 == rest);
    let t = month_day_nano_text(months, days, nanos);
    if nanos == 0 && (months > 0 || days > 0) {
        assert(t =~= "P"@ + some_of(months as int, "M"@) + some_of(days as int, "D"@));
    }
    if months == 0 && days == 0 && nanos == 0 {
        assert(t =~= "P"@ + "T0S"@);
    }
    if months > 0 || days > 0 || nanos > 0 {
        reveal_strlit("-P");
        reveal_strlit("P");
        assert("-P"@ =~= seq!['-'] + "P"@);
        assert(month_day_nano_text((-months) as i32, (-days) as i32, (-nanos) as i64) =~= seq!['-']
            + t);
    }
}

/// An instant's microseconds are those that have passed by then.
pub proof fn law_microseconds_round_down(t: Instant)
    ensures
        t.micros_of() * 1_000 <= t.secs * 1_000_000_000 + t.nanos < (t.micros_of() + 1) * 1_000,
{
}

/// An instant reads as the calendar shows it, whole and to the second; past the
/// calendar, as its seconds.
pub proof fn law_instants_show_the_calendar(t: Instant)
    ensures
        rfc3339_text(t) == match rfc3339_form(t.secs as int, t.nanos as int) {
            Some(s) => s,
            None => dec_int(t.secs as int),
        },
        rfc3339_seconds_text(t) == match rfc3339_seconds_form(t.secs as int, t.nanos as int) {
            Some(s) => s,
            None => dec_int(t.secs as int),
        },
        log_time_text(t) == match utc_form(t.secs as int, t.nanos as int, "%Y-%m-%dT%H:%M:%SZ"@) {
            Some(s) => s,
            None => dec_int(t.secs as int),
        },
{
}

} // verus!
