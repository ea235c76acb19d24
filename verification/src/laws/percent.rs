//! Parts of a whole, in percent.
use vstd::prelude::*;

use crate::binary64::{
    at_least, law_nearest_is_within_half_a_unit, lemma_round_error, lemma_two_add,
    lemma_two_positive, nearest, of_count, one_decimal, percent_tenths, quotient, tenths, times,
    two, within_half_unit,
};
use crate::commands::common::{human, in_unit, unit_name};
use crate::commands::freq::percent_of;
use crate::commands::lance::stat::DatasetStat;
use crate::laws::numbers::{law_digits_read_back, reading};
use crate::text::{dec, digit};

verus! {

/// What a rounded quotient is worth, both sides scaled by `2^k`.
proof fn lemma_scaled(n: nat, d: nat, m: nat, e: int, k: nat)
    requires
        within_half_unit(n, d, m, e),
        k + e >= 0,
    ensures
        -(two((k + e) as nat) * d) <= 2 * (n * two(k) - m * (two((k + e) as nat) * d)) <= two(
            (k + e) as nat,
        ) * d,
{
    let t = two(k) as int;
    let nn = n as int;
    let dd = d as int;
    let mm = m as int;
    if e >= 0 {
        let x = two(e as nat) as int;
        lemma_two_add(k, e as nat);
        lemma_two_positive(k);
        let p = two((k + e) as nat) as int;
        assert(p == t * x);
        assert(-(p * dd) <= 2 * (nn * t - mm * (p * dd)) && 2 * (nn * t - mm * (p * dd)) <= p * dd)
            by (nonlinear_arith)
            requires
                p == t * x,
                t >= 1,
                -(x * dd) <= 2 * (nn - mm * (x * dd)),
                2 * (nn - mm * (x * dd)) <= x * dd,
        ;
    } else {
        let y = two((-e) as nat) as int;
        let p = two((k + e) as nat) as int;
        lemma_two_add((k + e) as nat, (-e) as nat);
        lemma_two_positive((k + e) as nat);
        assert(t == p * y);
        assert(-(p * dd) <= 2 * (nn * t - mm * (p * dd)) && 2 * (nn * t - mm * (p * dd)) <= p * dd)
            by (nonlinear_arith)
            requires
                t == p * y,
                p >= 1,
                -dd <= 2 * (nn * y - mm * dd),
                2 * (nn * y - mm * dd) <= dd,
        ;
    }
}

/// True where `x` is within a part in `2^53` of `y`, of which there are `y`.
pub open spec fn near(x: int, y: int) -> bool {
    0x1f_ffff_ffff_ffff * y <= 0x20_0000_0000_0000 * x <= 0x20_0000_0000_0001 * y
}

proof fn lemma_near(x: int, m: int, p: int)
    requires
        m >= 0x10_0000_0000_0000,
        p >= 0,
        -p <= 2 * (x - m * p) <= p,
    ensures
        near(x, m * p),
{
    assert(0x10_0000_0000_0000 * p <= m * p) by (nonlinear_arith)
        requires
            m >= 0x10_0000_0000_0000,
            p >= 0,
    ;
}

/// The scale at which the steps of a ratio are whole numbers.
spec fn scale(part: nat, whole: nat) -> nat {
    let a = of_count(part);
    let b = of_count(whole);
    let q = nearest(a.0, b.0);
    let r = nearest(q.0 * 100, 1);
    (abs(a.1) + abs(b.1) + abs(q.1) + abs(r.1)) as nat
}

spec fn abs(x: int) -> int {
    if x < 0 {
        -x
    } else {
        x
    }
}

proof fn lemma_ratio(part: nat, whole: nat) -> (r: (int, int, int))
    requires
        part > 0,
        whole > 0,
    ensures
        ({
            let (x, y, q) = r;
            let k = scale(part, whole);
            let v = quotient(of_count(part), of_count(whole));
            &&& x > 0 && y > 0 && q > 0
            &&& near(part * two(k) as int, x)
            &&& near(whole * two(k) as int, y)
            &&& near(x * two(k), q * y)
            &&& k + v.1 >= 0
            &&& q == v.0 * two((k + v.1) as nat)
            &&& 0x10_0000_0000_0000 <= v.0 < 0x20_0000_0000_0000
        }),
{
    let a = of_count(part);
    let b = of_count(whole);
    let c = nearest(a.0, b.0);
    let v = quotient(a, b);
    let k = scale(part, whole);
    let t = two(k) as int;
    law_nearest_is_within_half_a_unit(part, 1);
    law_nearest_is_within_half_a_unit(whole, 1);
    law_nearest_is_within_half_a_unit(a.0, b.0);
    let pa = two((k + a.1) as nat) as int;
    let pb = two((k + b.1) as nat) as int;
    let pc = two((k + c.1) as nat) as int;
    let pv = two((k + v.1) as nat) as int;
    lemma_two_positive((k + a.1) as nat);
    lemma_two_positive((k + b.1) as nat);
    lemma_two_positive((k + c.1) as nat);
    lemma_two_positive((k + v.1) as nat);
    lemma_two_positive(k);
    lemma_scaled(part, 1, a.0, a.1, k);
    lemma_scaled(whole, 1, b.0, b.1, k);
    lemma_scaled(a.0, b.0, c.0, c.1, k);
    let am = a.0 as int;
    let bm = b.0 as int;
    let cm = c.0 as int;
    assert(pa * 1 == pa && pb * 1 == pb);
    lemma_near(part * t, am, pa);
    lemma_near(whole * t, bm, pb);
    let x = am * pa;
    let y = bm * pb;
    let q = cm * pv;
    // The exponents of both products are the same.
    lemma_two_add((k + v.1) as nat, (k + b.1) as nat);
    lemma_two_add((k + c.1) as nat, (k + a.1) as nat);
    assert((k + v.1) as nat + (k + b.1) as nat == (k + c.1) as nat + (k + a.1) as nat);
    assert(pv * pb == pc * pa);
    let unit = (pc * bm) * pa;
    assert(q * y == cm * unit) by (nonlinear_arith)
        requires
            q == cm * pv,
            y == bm * pb,
            pv * pb == pc * pa,
            unit == (pc * bm) * pa,
    ;
    assert(x * t == am * t * pa) by (nonlinear_arith)
        requires
            x == am * pa,
    ;
    assert(-unit <= 2 * (x * t - cm * unit) && 2 * (x * t - cm * unit) <= unit) by (nonlinear_arith)
        requires
            unit == (pc * bm) * pa,
            x * t == am * t * pa,
            pa >= 1,
            -(pc * bm) <= 2 * (am * t - cm * (pc * bm)),
            2 * (am * t - cm * (pc * bm)) <= pc * bm,
    ;
    assert(unit >= 0) by (nonlinear_arith)
        requires
            unit == (pc * bm) * pa,
            pc >= 1,
            pa >= 1,
            bm >= 0,
    ;
    lemma_near(x * t, cm, unit);
    assert(x > 0 && y > 0 && q > 0) by (nonlinear_arith)
        requires
            x == am * pa,
            y == bm * pb,
            q == cm * pv,
            am >= 1,
            bm >= 1,
            cm >= 1,
            pa >= 1,
            pb >= 1,
            pv >= 1,
    ;
    (x, y, q)
}

/// From the steps of a ratio to the ratio: `q / t` is `part / whole` but for a part
/// in `2^51`.
proof fn lemma_ratio_is_near(p: int, w: int, t: int, x: int, y: int, q: int)
    requires
        p > 0,
        w > 0,
        t > 0,
        x > 0,
        y > 0,
        q > 0,
        near(p * t, x),
        near(w * t, y),
        near(x * t, q * y),
    ensures
        0x8_0000_0000_0000 * (q * w) <= 0x8_0000_0000_0001 * (p * t),
        0x7_ffff_ffff_ffff * (p * t) <= 0x8_0000_0000_0000 * (q * w),
{
    let n: int = 0x20_0000_0000_0000;
    // Everything times `t`, so that the steps can be put together.
    let pt = p * t;
    let wt = w * t;
    let qy = q * y;
    let xt = x * t;
    assert(n * (q * wt) <= (n + 1) * qy && (n - 1) * qy <= n * (q * wt)) by (nonlinear_arith)
        requires
            (n - 1) * y <= n * wt,
            n * wt <= (n + 1) * y,
            q > 0,
            qy == q * y,
    ;
    assert((n - 1) * xt <= n * (pt * t) && n * (pt * t) <= (n + 1) * xt) by (nonlinear_arith)
        requires
            (n - 1) * x <= n * pt,
            n * pt <= (n + 1) * x,
            t > 0,
            xt == x * t,
    ;
    let a = q * wt;
    let b = pt * t;
    // a <= (n+1)/n qy, qy <= n/(n-1) xt, xt <= n/(n-1) b, and the same from below.
    assert((n - 1) * (n - 1) * a <= (n + 1) * n * b) by (nonlinear_arith)
        requires
            n == 0x20_0000_0000_0000,
            n * a <= (n + 1) * qy,
            (n - 1) * qy <= n * xt,
            (n - 1) * xt <= n * b,
    ;
    assert((n - 1) * n * b <= (n + 1) * (n + 1) * a) by (nonlinear_arith)
        requires
            n == 0x20_0000_0000_0000,
            (n - 1) * qy <= n * a,
            n * xt <= (n + 1) * qy,
            n * b <= (n + 1) * xt,
    ;
    assert(a == (q * w) * t) by (nonlinear_arith)
        requires
            a == q * wt,
            wt == w * t,
    ;
    let c = q * w;
    assert((n - 1) * (n - 1) * c <= (n + 1) * n * pt && (n - 1) * n * pt <= (n + 1) * (n + 1) * c)
        by (nonlinear_arith)
        requires
            a == c * t,
            b == pt * t,
            t > 0,
            (n - 1) * (n - 1) * a <= (n + 1) * n * b,
            (n - 1) * n * b <= (n + 1) * (n + 1) * a,
    ;
    assert(pt > 0 && c > 0) by (nonlinear_arith)
        requires
            pt == p * t,
            c == q * w,
            p > 0,
            t > 0,
            q > 0,
            w > 0,
    ;
}

/// A percentage of one decimal place is that of the part: no more than rounding to
/// the place, and a fiftieth of that, away from it. So nothing is `0.0` percent, and
/// the whole is `100.0`.
#[verifier::rlimit(40)]
pub proof fn law_percent_is_of_the_part(part: nat, whole: nat)
    requires
        part <= whole,
        whole > 0,
    ensures
        -(51 * whole) <= 100 * (percent_tenths(part, whole) * whole - 1000 * part) <= 51 * whole,
        part == 0 ==> percent_tenths(part, whole) == 0,
        part == whole ==> percent_tenths(part, whole) == 1000,
{
    if part == 0 {
        lemma_none(whole);
        assert(0 * whole == 0);
    } else {
        let (x, y, q) = lemma_ratio(part, whole);
        let k = scale(part, whole);
        let t = two(k) as int;
        let p = part as int;
        let w = whole as int;
        lemma_two_positive(k);
        lemma_ratio_is_near(p, w, t, x, y, q);
        let v = quotient(of_count(part), of_count(whole));
        let c = nearest(v.0 * 100, 1);
        let r = times(v, 100);
        law_nearest_is_within_half_a_unit(v.0 * 100, 1);
        lemma_scaled(v.0 * 100, 1, c.0, c.1, k);
        let pc = two((k + c.1) as nat) as int;
        let pv = two((k + v.1) as nat) as int;
        let cm = c.0 as int;
        let vm = v.0 as int;
        lemma_two_positive((k + c.1) as nat);
        lemma_two_positive((k + v.1) as nat);
        assert(pc * 1 == pc);
        // In hundreds: rr is what the product is worth.
        let unit = pc * pv;
        let rr = cm * unit;
        assert(-unit <= 2 * (100 * q * t - rr) && 2 * (100 * q * t - rr) <= unit) by (nonlinear_arith)
            requires
                unit == pc * pv,
                rr == cm * unit,
                q == vm * pv,
                pv >= 1,
                -pc <= 2 * ((vm * 100) * t - cm * pc),
                2 * ((vm * 100) * t - cm * pc) <= pc,
        ;
        assert(unit >= 0) by (nonlinear_arith)
            requires
                unit == pc * pv,
                pc >= 1,
                pv >= 1,
        ;
        lemma_near(100 * q * t, cm, unit);
        // In tenths.
        lemma_two_add((k + c.1) as nat, (k + v.1) as nat);
        assert((k + c.1) as nat + (k + v.1) as nat == (2 * k + r.1) as nat);
        lemma_tenths(r, 2 * k);
        lemma_two_add(k, k);
        let ts = tenths(r) as int;
        let tt = t * t;
        assert(-tt <= 2 * (10 * rr - ts * tt) && 2 * (10 * rr - ts * tt) <= tt);
        assert(tt > 0) by (nonlinear_arith)
            requires
                tt == t * t,
                t > 0,
        ;
        lemma_put_together(p, w, t, q, rr, ts);
        if part == whole {
            assert(ts == 1000) by (nonlinear_arith)
                requires
                    -(51 * w) <= 100 * (ts * w - 1000 * w),
                    100 * (ts * w - 1000 * w) <= 51 * w,
                    w > 0,
            ;
        }
    }
}

proof fn lemma_none(whole: nat)
    ensures
        percent_tenths(0, whole) == 0,
{
    let zero = (0nat, 0int);
    assert(of_count(0) == zero);
    assert(quotient(zero, of_count(whole)) == zero);
    assert(times(zero, 100) == zero);
    assert(tenths(zero) == 0) by {
        assert(two(0) == 1);
    }
}

/// Rounding a value to tenths moves it by half a tenth at most.
proof fn lemma_tenths(r: (nat, int), j: nat)
    requires
        j + r.1 >= 0,
    ensures
        -(two(j) as int) <= 2 * (10 * (r.0 * two((j + r.1) as nat)) - tenths(r) * two(j)) <= two(j),
{
    let rm = r.0 as int;
    let u = two((j + r.1) as nat) as int;
    let rr = rm * u;
    let ts = tenths(r) as int;
    let tt = two(j) as int;
    lemma_two_positive(j);
    if r.1 >= 0 {
        let z = two(r.1 as nat) as int;
        lemma_two_add(j, r.1 as nat);
        assert(u == tt * z);
        assert(10 * rr == ts * tt) by (nonlinear_arith)
            requires
                rr == rm * u,
                u == tt * z,
                ts == rm * 10 * z,
        ;
    } else {
        let d = two((-r.1) as nat) as int;
        lemma_two_add((j + r.1) as nat, (-r.1) as nat);
        assert(tt == u * d);
        lemma_two_positive((-r.1) as nat);
        lemma_two_positive((j + r.1) as nat);
        lemma_round_error(r.0 * 10, d as nat);
        assert(-tt <= 2 * (10 * rr - ts * tt) && 2 * (10 * rr - ts * tt) <= tt) by (nonlinear_arith)
            requires
                tt == u * d,
                rr == rm * u,
                u >= 1,
                -d <= 2 * (rm * 10 - ts * d),
                2 * (rm * 10 - ts * d) <= d,
        ;
    }
}

proof fn lemma_put_together(p: int, w: int, t: int, q: int, rr: int, ts: int)
    requires
        0 < p <= w,
        t > 0,
        q > 0,
        near(100 * q * t, rr),
        0x8_0000_0000_0000 * (q * w) <= 0x8_0000_0000_0001 * (p * t),
        0x7_ffff_ffff_ffff * (p * t) <= 0x8_0000_0000_0000 * (q * w),
        -(t * t) <= 2 * (10 * rr - ts * (t * t)) <= t * t,
    ensures
        -(51 * w) <= 100 * (ts * w - 1000 * p) <= 51 * w,
{
    let n: int = 0x20_0000_0000_0000;
    let h: int = 0x8_0000_0000_0000;
    let tt = t * t;
    let ptt = (p * t) * t;
    let wtt = w * tt;
    let qt = q * t;
    let qwt = (q * w) * t;
    assert(h * qwt <= (h + 1) * ptt && (h - 1) * ptt <= h * qwt) by (nonlinear_arith)
        requires
            h * (q * w) <= (h + 1) * (p * t),
            (h - 1) * (p * t) <= h * (q * w),
            t > 0,
            qwt == (q * w) * t,
            ptt == (p * t) * t,
    ;
    let rw = rr * w;
    assert((n - 1) * rw <= n * 100 * qwt && n * 100 * qwt <= (n + 1) * rw) by (nonlinear_arith)
        requires
            (n - 1) * rr <= n * (100 * q * t),
            n * (100 * q * t) <= (n + 1) * rr,
            w > 0,
            rw == rr * w,
            qwt == (q * w) * t,
    ;
    let s = ts * w * tt;
    assert(-wtt <= 2 * (10 * rw - s) && 2 * (10 * rw - s) <= wtt) by (nonlinear_arith)
        requires
            -tt <= 2 * (10 * rr - ts * tt),
            2 * (10 * rr - ts * tt) <= tt,
            w > 0,
            rw == rr * w,
            s == ts * w * tt,
            wtt == w * tt,
    ;
    assert(0 < ptt <= wtt) by (nonlinear_arith)
        requires
            0 < p <= w,
            t > 0,
            ptt == (p * t) * t,
            wtt == w * tt,
            tt == t * t,
    ;
    // Linear from here.
    assert(1000 * rw <= 100_001 * ptt);
    assert(99_999 * ptt <= 1000 * rw);
    assert(100 * s <= 100_000 * ptt + 51 * wtt);
    assert(100_000 * ptt - 51 * wtt <= 100 * s);
    let g = ts * w;
    assert(tt > 0 && ptt == p * tt) by (nonlinear_arith)
        requires
            t > 0,
            tt == t * t,
            ptt == (p * t) * t,
    ;
    assert(100 * g <= 100_000 * p + 51 * w && 100_000 * p - 51 * w <= 100 * g) by (nonlinear_arith)
        requires
            tt > 0,
            s == g * tt,
            ptt == p * tt,
            wtt == w * tt,
            100 * s <= 100_000 * ptt + 51 * wtt,
            100_000 * ptt - 51 * wtt <= 100 * s,
    ;
}

/// A number of tenths reads as its whole part, a point and one digit.
pub proof fn law_tenths_read_back(v: nat)
    ensures
        ({
            let t = one_decimal(v);
            let n = t.len();
            &&& n >= 3
            &&& t[n - 2] == '.'
            &&& '0' <= t[n - 1] <= '9'
            &&& reading(t.take(n - 2)) * 10 + (t[n - 1] as int - '0' as int) == v
        }),
{
    law_digits_read_back(v / 10);
    reveal_strlit(".");
    let t = one_decimal(v);
    let d = dec(v / 10);
    assert(t =~= d + seq!['.', digit(v % 10)]);
    assert(t.take(t.len() - 2) =~= d);
}

/// Bytes in one unit of size.
pub open spec fn unit_bytes(unit: nat) -> nat {
    if unit == 0 {
        1
    } else if unit == 1 {
        1_024
    } else if unit == 2 {
        1_048_576
    } else if unit == 3 {
        1_073_741_824
    } else if unit == 4 {
        1_099_511_627_776
    } else {
        1_125_899_906_842_624
    }
}

/// The names of the units of size.
pub open spec fn unit_names() -> Seq<Seq<char>> {
    seq!["B"@, "KiB"@, "MiB"@, "GiB"@, "TiB"@, "PiB"@]
}

proof fn lemma_unit_bytes(unit: nat)
    requires
        unit <= 5,
    ensures
        two(10 * unit) == unit_bytes(unit),
{
    assert(two(0) == 1 && two(10) == 0x400) by {
        reveal_with_fuel(two, 11);
    }
    lemma_two_add(10, 10);
    lemma_two_add(20, 10);
    lemma_two_add(30, 10);
    lemma_two_add(40, 10);
}

/// The unit leaves the digits, and the one before it was too small.
proof fn lemma_in_unit(v: (nat, int), unit: nat)
    requires
        v.0 > 0,
        unit <= 5,
    ensures
        ({
            let (r, u) = in_unit(v, unit);
            &&& unit <= u <= 5
            &&& r == (v.0, v.1 - 10 * (u - unit))
            &&& u > unit ==> at_least((r.0, r.1 + 10), (9006759450089882, -43))
            &&& u < 5 ==> !at_least(r, (9006759450089882, -43))
        }),
    decreases 5 - unit,
{
    if unit < 5 && at_least(v, (9006759450089882, -43)) {
        lemma_in_unit((v.0, v.1 - 10), unit + 1);
    }
}

/// A size of a kilobyte or more is shown in tenths of a unit: within half a tenth,
/// and a fiftieth of that, of the size. There is at least one whole unit, and fewer
/// than 1024 where a larger unit is to be had. A smaller size is shown in bytes.
#[verifier::rlimit(40)]
pub proof fn law_sizes_are_shown_in_their_unit(bytes: nat) -> (r: (nat, nat))
    requires
        bytes <= u64::MAX,
    ensures
        bytes < 1024 ==> human(bytes) == dec(bytes) + " B"@,
        bytes >= 1024 ==> ({
            let (t, unit) = r;
            &&& 1 <= unit <= 5
            &&& human(bytes) == one_decimal(t) + " "@ + unit_names()[unit as int]
            &&& -(51 * unit_bytes(unit)) <= 100 * (t * unit_bytes(unit) - 10 * bytes) <= 51
                * unit_bytes(unit)
            &&& t >= 10
            &&& unit < 5 ==> t < 10_240
        }),
{
    if bytes < 1024 {
        (0, 0)
    } else {
        let c = of_count(bytes);
        law_nearest_is_within_half_a_unit(bytes, 1);
        lemma_in_unit(c, 0);
        let (v, unit) = in_unit(c, 0);
        let t = tenths(v) as int;
        let k: nat = (abs(c.1) + 100) as nat;
        let m = c.0 as int;
        let s = two(k) as int;
        let pm = two((k + c.1) as nat) as int;
        let w = unit_bytes(unit) as int;
        lemma_scaled(bytes, 1, c.0, c.1, k);
        lemma_two_positive(k);
        lemma_two_positive((k + c.1) as nat);
        assert(pm * 1 == pm);
        let b = bytes as int;
        lemma_near(b * s, m, pm);
        let worth = m * pm;
        // In tenths of the unit.
        let j: nat = k + 10 * unit;
        lemma_unit_bytes(unit);
        lemma_two_add(k, 10 * unit);
        assert(two(j) == s * w);
        assert((j + v.1) as nat == (k + c.1) as nat);
        lemma_tenths(v, j);
        let sw = s * w;
        assert(-sw <= 2 * (10 * worth - t * sw) && 2 * (10 * worth - t * sw) <= sw);
        // What the limits are worth.
        lemma_forty_three();
        lemma_two_add((k - 43) as nat, 43);
        let s43 = two((k - 43) as nat) as int;
        assert(s == s43 * 0x800_0000_0000);
        if unit == 0 {
            lemma_order(v, (9006759450089882, -43), k);
            assert(worth <= 9006759450089882 * s43);
            assert(1024 * s <= b * s) by (nonlinear_arith)
                requires
                    b >= 1024,
                    s >= 1,
            ;
            assert(false);
        }
        let prev = (v.0, v.1 + 10);
        let jp: nat = (j - 10) as nat;
        lemma_order((9006759450089882, -43), prev, jp);
        assert((jp + prev.1) as nat == (k + c.1) as nat);
        lemma_two_add((jp - 43) as nat, 43);
        lemma_two_add(jp, 10);
        assert(two(10) == 1024) by {
            reveal_with_fuel(two, 11);
        }
        let s43p = two((jp - 43) as nat) as int;
        assert(sw == s43p * 0x800_0000_0000 * 1024) by {
            assert(two(jp) == s43p * 0x800_0000_0000);
            assert(two(j) == two(jp) * 1024);
        }
        assert(worth >= 9006759450089882 * s43p);
        assert(sw > 0) by (nonlinear_arith)
            requires
                sw == s * w,
                s >= 1,
                w >= 1,
        ;
        assert(t >= 10) by (nonlinear_arith)
            requires
                2 * (10 * worth - t * sw) <= sw,
                worth >= 9006759450089882 * s43p,
                sw == s43p * 0x800_0000_0000 * 1024,
                sw > 0,
        ;
        if unit < 5 {
            crate::binary64::lemma_below_limit(v);
            assert(10 * worth <= 10_241 * sw) by (nonlinear_arith)
                requires
                    2 * (10 * worth - t * sw) <= sw,
                    t < 10_240,
                    sw > 0,
            ;
        } else {
            assert(b * s <= 0x1_0000_0000_0000_0000 * s) by (nonlinear_arith)
                requires
                    b <= 0x1_0000_0000_0000_0000,
                    s >= 1,
            ;
            assert(sw == s * 1_125_899_906_842_624);
        }
        let g = t * w;
        let bs = b * s;
        let gs = g * s;
        assert(gs == t * sw) by (nonlinear_arith)
            requires
                gs == (t * w) * s,
                sw == s * w,
        ;
        // Linear from here.
        assert(100 * (gs - 10 * bs) <= 51 * sw);
        assert(-51 * sw <= 100 * (gs - 10 * bs));
        assert(100 * (g - 10 * b) <= 51 * w && -51 * w <= 100 * (g - 10 * b)) by (nonlinear_arith)
            requires
                gs == g * s,
                bs == b * s,
                sw == s * w,
                s >= 1,
                100 * (gs - 10 * bs) <= 51 * sw,
                -51 * sw <= 100 * (gs - 10 * bs),
        ;
        assert(unit_name(unit) == unit_names()[unit as int]);
        (t as nat, unit)
    }
}

proof fn lemma_forty_three()
    ensures
        two(43) == 0x800_0000_0000,
{
    reveal_with_fuel(two, 44);
}

/// A percentage reads as its whole percents, a point and one digit, with a percent
/// sign; of nothing at all it is zero.
pub proof fn law_percent_reads_as_tenths(part: nat, whole: nat)
    ensures
        whole == 0 ==> percent_of(part, whole) == "0.0%"@,
        whole > 0 ==> ({
            let t = percent_of(part, whole);
            let n = t.len();
            &&& n >= 4
            &&& t[n - 1] == '%'
            &&& t[n - 3] == '.'
            &&& '0' <= t[n - 2] <= '9'
            &&& reading(t.take(n - 3)) * 10 + (t[n - 2] as int - '0' as int) == percent_tenths(
                part,
                whole,
            )
        }),
{
    if whole > 0 {
        let v = percent_tenths(part, whole);
        law_digits_read_back(v / 10);
        reveal_strlit(".");
        reveal_strlit("%");
        let t = percent_of(part, whole);
        let d = dec(v / 10);
        assert(t =~= d + seq!['.', digit(v % 10), '%']);
        assert(t.take(t.len() - 3) =~= d);
    }
}

/// The hint on deleted rows comes where clearly more than a tenth of the stored rows
/// are deleted, and never where clearly fewer are.
#[verifier::rlimit(40)]
pub proof fn law_many_deleted_is_a_tenth(s: DatasetStat)
    requires
        s.deleted_rows <= s.physical_rows,
    ensures
        s.physical_rows > 0 && 1_000 * s.deleted_rows >= 101 * s.physical_rows ==> s.many_deleted(),
        1_000 * s.deleted_rows <= 99 * s.physical_rows ==> !s.many_deleted(),
{
    let part = s.deleted_rows as nat;
    let whole = s.physical_rows as nat;
    if part > 0 {
        let (x, y, q) = lemma_ratio(part, whole);
        let k0 = scale(part, whole);
        let t0 = two(k0) as int;
        let p = part as int;
        let w = whole as int;
        lemma_two_positive(k0);
        lemma_ratio_is_near(p, w, t0, x, y, q);
        let v = quotient(of_count(part), of_count(whole));
        // A common scale for the ratio and the bound.
        let k: nat = k0 + 56;
        let pv = two((k0 + v.1) as nat) as int;
        let pl = two((k - 56) as nat) as int;
        let f = two(56) as int;
        lemma_two_add(k0, 56);
        lemma_fifty_six();
        let bound = 7205759403792794 * t0;
        let here = q * f;
        // `here` is the ratio and `bound` the tenth, both times `2^k`.
        assert(at_least(v, (7205759403792794, -56)) ==> here >= bound) by {
            if at_least(v, (7205759403792794, -56)) {
                lemma_order((7205759403792794, -56), v, k);
                lemma_two_add((k0 + v.1) as nat, 56);
                assert((k0 + v.1) as nat + 56 == (k + v.1) as nat);
                assert(v.0 * (pv * f) == (v.0 * pv) * f) by (nonlinear_arith);
            }
        }
        assert(!at_least(v, (7205759403792794, -56)) ==> here <= bound) by {
            if !at_least(v, (7205759403792794, -56)) {
                lemma_order(v, (7205759403792794, -56), k);
                lemma_two_add((k0 + v.1) as nat, 56);
                assert((k0 + v.1) as nat + 56 == (k + v.1) as nat);
                assert(v.0 * (pv * f) == (v.0 * pv) * f) by (nonlinear_arith);
            }
        }
        let qw = q * w;
        let pt = p * t0;
        let wt = w * t0;
        if 1_000 * p >= 101 * w {
            assert(1_000 * pt >= 101 * wt) by (nonlinear_arith)
                requires
                    1_000 * p >= 101 * w,
                    t0 >= 1,
                    pt == p * t0,
                    wt == w * t0,
            ;
            if here <= bound {
                assert(qw * f <= 7205759403792794 * wt) by (nonlinear_arith)
                    requires
                        q * f <= 7205759403792794 * t0,
                        w >= 1,
                        qw == q * w,
                        wt == w * t0,
                ;
                assert(wt > 0) by (nonlinear_arith)
                    requires
                        w >= 1,
                        t0 >= 1,
                        wt == w * t0,
                ;
                assert(false);
            }
        }
        if 1_000 * p <= 99 * w {
            assert(1_000 * pt <= 99 * wt) by (nonlinear_arith)
                requires
                    1_000 * p <= 99 * w,
                    t0 >= 1,
                    pt == p * t0,
                    wt == w * t0,
            ;
            if here >= bound {
                assert(qw * f >= 7205759403792794 * wt) by (nonlinear_arith)
                    requires
                        q * f >= 7205759403792794 * t0,
                        w >= 1,
                        qw == q * w,
                        wt == w * t0,
                ;
                assert(wt > 0) by (nonlinear_arith)
                    requires
                        w >= 1,
                        t0 >= 1,
                        wt == w * t0,
                ;
                assert(false);
            }
        }
    } else {
        let zero = (0nat, 0int);
        assert(of_count(0) == zero);
        assert(quotient(zero, of_count(whole)) == zero);
    }
}

proof fn lemma_fifty_six()
    ensures
        two(56) == 0x100_0000_0000_0000,
{
    reveal_with_fuel(two, 57);
}

/// The order of normal values is that of what they are worth.
proof fn lemma_order(a: (nat, int), b: (nat, int), k: nat)
    requires
        at_least(b, a),
        k + a.1 >= 0,
        k + b.1 >= 0,
        a.0 < 0x20_0000_0000_0000,
        b.0 >= 0x10_0000_0000_0000,
    ensures
        a.0 * two((k + a.1) as nat) <= b.0 * two((k + b.1) as nat),
{
    let x = two((k + a.1) as nat) as int;
    let y = two((k + b.1) as nat) as int;
    let am = a.0 as int;
    let bm = b.0 as int;
    lemma_two_positive((k + a.1) as nat);
    if b.1 == a.1 {
        assert(am * x <= bm * x) by (nonlinear_arith)
            requires
                am <= bm,
                x >= 1,
        ;
    } else {
        let z = two((b.1 - a.1 - 1) as nat) as int;
        lemma_two_positive((b.1 - a.1 - 1) as nat);
        lemma_two_add((k + a.1 + 1) as nat, (b.1 - a.1 - 1) as nat);
        assert((k + a.1 + 1) as nat + (b.1 - a.1 - 1) as nat == (k + b.1) as nat);
        assert(two((k + a.1 + 1) as nat) == 2 * x);
        assert(am * x <= bm * y) by (nonlinear_arith)
            requires
                y == (2 * x) * z,
                z >= 1,
                x >= 1,
                am < 0x20_0000_0000_0000,
                bm >= 0x10_0000_0000_0000,
        ;
    }
}

} // verus!
