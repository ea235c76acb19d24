//! Ratios of counts, computed with the rounding of binary floating point and
//! carried out on integers.
//!
//! A value is a mantissa of 53 bits times a power of two. Every operation rounds
//! to the nearest such value, ties to the even mantissa, so the shown decimals are
//! those of the usual double-precision evaluation.
use vstd::prelude::*;

use crate::text::{dec, dec_u128, digit, digit_char};

verus! {

/// The value `m * 2^e`: zero, or with `2^52 <= m < 2^53`.
#[derive(Debug, Clone, Copy, PartialEq, Eq, Structural)]
pub struct Binary64 {
    pub m: u64,
    pub e: i32,
}

/// `2^k`.
pub open spec fn two(k: nat) -> nat
    decreases k,
{
    if k == 0 {
        1
    } else {
        2 * two((k - 1) as nat)
    }
}

/// The integer nearest to `n / d`, the even one where two are equally near.
pub open spec fn round_half_even(n: nat, d: nat) -> nat {
    let q = n / d;
    let r = n % d;
    if 2 * r < d {
        q
    } else if 2 * r > d {
        q + 1
    } else if q % 2 == 0 {
        q
    } else {
        q + 1
    }
}

/// A rounded mantissa with its exponent, carried over where rounding reached
/// `2^53`.
pub open spec fn carried(m: nat, e: int) -> (nat, int) {
    if m >= 0x20_0000_0000_0000 {
        (0x10_0000_0000_0000, e + 1)
    } else {
        (m, e)
    }
}

/// Mantissa and exponent nearest to `n / d * 2^e`, for `n / d` below `2^53`.
pub open spec fn scaled_up(n: nat, d: nat, e: int) -> (nat, int)
    decreases
            (if n < 0x10_0000_0000_0000 * d {
                0x10_0000_0000_0000 * d - n
            } else {
                0
            }),
{
    if 0 < n && n < 0x10_0000_0000_0000 * d {
        scaled_up(2 * n, d, e - 1)
    } else {
        carried(round_half_even(n, d), e)
    }
}

/// Mantissa and exponent nearest to `n / d * 2^e`, for `n / d` from `2^52` on.
pub open spec fn scaled_down(n: nat, d: nat, e: int) -> (nat, int)
    decreases n - d,
{
    if d > 0 && n >= 0x20_0000_0000_0000 * d {
        scaled_down(n, 2 * d, e + 1)
    } else {
        carried(round_half_even(n, d), e)
    }
}

/// Mantissa and exponent of the value nearest to `n / d`.
pub open spec fn nearest(n: nat, d: nat) -> (nat, int) {
    if n == 0 || d == 0 {
        (0, 0)
    } else if n >= 0x20_0000_0000_0000 * d {
        scaled_down(n, d, 0)
    } else {
        scaled_up(n, d, 0)
    }
}

/// The value of a count.
pub open spec fn of_count(n: nat) -> (nat, int) {
    nearest(n, 1)
}

/// The quotient of two values.
pub open spec fn quotient(a: (nat, int), b: (nat, int)) -> (nat, int) {
    let q = nearest(a.0, b.0);
    (q.0, if q.0 == 0 {
        0
    } else {
        q.1 + a.1 - b.1
    })
}

/// A value times a small whole number.
pub open spec fn times(a: (nat, int), k: nat) -> (nat, int) {
    let p = nearest(a.0 * k, 1);
    (p.0, if p.0 == 0 {
        0
    } else {
        p.1 + a.1
    })
}

/// A value in tenths, rounded to a whole number of them.
pub open spec fn tenths(a: (nat, int)) -> nat {
    if a.1 >= 0 {
        a.0 * 10 * two(a.1 as nat)
    } else {
        round_half_even(a.0 * 10, two((-a.1) as nat))
    }
}

/// A number of tenths with one decimal place.
pub open spec fn one_decimal(t: nat) -> Seq<char> {
    (dec(t / 10) + "."@).push(digit(t % 10))
}

/// `part / whole` in percent, in tenths of a percent.
pub open spec fn percent_tenths(part: nat, whole: nat) -> nat {
    tenths(times(quotient(of_count(part), of_count(whole)), 100))
}

/// True when `a` is not below `b`, both nonzero.
pub open spec fn at_least(a: (nat, int), b: (nat, int)) -> bool {
    a.1 > b.1 || (a.1 == b.1 && a.0 >= b.0)
}

impl Binary64 {
    pub open spec fn model(self) -> (nat, int) {
        (self.m as nat, self.e as int)
    }

    /// Zero, or with a mantissa of exactly 53 bits.
    pub open spec fn wf(self) -> bool {
        (self.m == 0 && self.e == 0) || 0x10_0000_0000_0000 <= self.m < 0x20_0000_0000_0000
    }
}

// ---------- powers of two ----------

pub proof fn lemma_two_positive(k: nat)
    ensures
        two(k) >= 1,
    decreases k,
{
    if k > 0 {
        lemma_two_positive((k - 1) as nat);
    }
}

proof fn lemma_two_monotone(a: nat, b: nat)
    requires
        a <= b,
    ensures
        two(a) <= two(b),
    decreases b - a,
{
    if a < b {
        lemma_two_monotone(a, (b - 1) as nat);
        lemma_two_positive((b - 1) as nat);
    }
}

pub proof fn lemma_two_add(a: nat, b: nat)
    ensures
        two(a + b) == two(a) * two(b),
    decreases b,
{
    let x = two(a) as int;
    if b > 0 {
        lemma_two_add(a, (b - 1) as nat);
        let y = two((b - 1) as nat) as int;
        assert(2 * (x * y) == x * (2 * y)) by (nonlinear_arith);
        assert((a + b - 1) as nat == a + (b - 1) as nat);
    } else {
        assert(x * 1 == x) by (nonlinear_arith);
    }
}

/// The value of `2^(a + b)` from those of its factors.
proof fn lemma_two_product(a: nat, b: nat, x: int, y: int)
    requires
        two(a) == x,
        two(b) == y,
    ensures
        two(a + b) == x * y,
{
    lemma_two_add(a, b);
}

proof fn lemma_two_values()
    ensures
        two(0) == 1,
        two(11) == 0x800,
        two(50) == 0x4_0000_0000_0000,
        two(52) == 0x10_0000_0000_0000,
        two(60) == 0x1000_0000_0000_0000,
        two(117) == 0x20_0000_0000_0000_0000_0000_0000_0000,
{
    assert(two(0) == 1 && two(2) == 4 && two(7) == 0x80 && two(10) == 0x400 && two(11) == 0x800) by {
        reveal_with_fuel(two, 12);
    }
    lemma_two_product(10, 10, 0x400, 0x400);
    lemma_two_product(20, 20, 0x10_0000, 0x10_0000);
    lemma_two_product(40, 10, 0x100_0000_0000, 0x400);
    lemma_two_product(50, 2, 0x4_0000_0000_0000, 4);
    lemma_two_product(50, 10, 0x4_0000_0000_0000, 0x400);
    lemma_two_product(50, 60, 0x4_0000_0000_0000, 0x1000_0000_0000_0000);
    lemma_two_product(110, 7, 0x4000_0000_0000_0000_0000_0000_0000, 0x80);
}

// ---------- operations ----------

fn round_u128(n: u128, d: u128) -> (r: u128)
    requires
        0 < d,
        d <= 0x7fff_ffff_ffff_ffff_ffff_ffff_ffff_ffff,
        n <= 0x7fff_ffff_ffff_ffff_ffff_ffff_ffff_ffff,
    ensures
        r == round_half_even(n as nat, d as nat),
{
    let q: u128 = n / d;
    let r: u128 = n % d;
    if 2 * r < d {
        q
    } else if 2 * r > d {
        proof {
            assert(q <= n) by (nonlinear_arith)
                requires
                    q == n / d,
                    d > 0,
            ;
        }
        q + 1
    } else if q % 2 == 0 {
        q
    } else {
        proof {
            assert(q <= n) by (nonlinear_arith)
                requires
                    q == n / d,
                    d > 0,
            ;
        }
        q + 1
    }
}

proof fn lemma_rounded_mantissa(n: nat, d: nat)
    requires
        d > 0,
        0x10_0000_0000_0000 * d <= n < 0x20_0000_0000_0000 * d,
    ensures
        0x10_0000_0000_0000 <= round_half_even(n, d) <= 0x20_0000_0000_0000,
{
    assert(0x10_0000_0000_0000 <= n / d < 0x20_0000_0000_0000) by (nonlinear_arith)
        requires
            d > 0,
            0x10_0000_0000_0000 * d <= n < 0x20_0000_0000_0000 * d,
    ;
}

/// The value nearest to `n / d`.
pub fn nearest_value(n: u64, d: u64) -> (r: Binary64)
    requires
        d > 0,
    ensures
        r.model() == nearest(n as nat, d as nat),
        r.wf(),
        -118 <= r.e <= 12,
        n > 0 ==> r.m > 0,
        d == 1 ==> -52 <= r.e,
        n < 4 * d ==> r.e <= 0 && (n > 0 ==> r.e <= -50),
{
    if n == 0 {
        return Binary64 { m: 0, e: 0 };
    }
    let mut a: u128 = n as u128;
    let mut c: u128 = d as u128;
    let mut e: i32 = 0;
    let ghost goal = nearest(n as nat, d as nat);
    proof {
        lemma_two_values();
    }
    if a >= 0x20_0000_0000_0000u128 * c {
        while a >= 0x20_0000_0000_0000u128 * c
            invariant
                a == n,
                n > 0,
                0 < c,
                c <= 0x1000,
                0 <= e <= 11,
                c >= two(e as nat),
                a >= 0x10_0000_0000_0000 * c,
                goal == scaled_down(a as nat, c as nat, e as int),
            decreases a - c,
        {
            proof {
                lemma_two_values();
                assert(c < 0x800);
                if e >= 11 {
                    lemma_two_monotone(11, e as nat);
                }
                assert(two((e + 1) as nat) == 2 * two(e as nat));
            }
            c = c * 2;
            e = e + 1;
        }
    } else {
        let ghost width: nat = c as nat;
        while a < 0x10_0000_0000_0000u128 * c
            invariant
                0 < a,
                c == d,
                d > 0,
                -118 <= e <= 0,
                a >= two((-e) as nat),
                a < 0x20_0000_0000_0000 * c,
                width == c * two((-e) as nat),
                n < 4 * d ==> a < 4 * width,
                d == 1 ==> -52 <= e,
                goal == scaled_up(a as nat, c as nat, e as int),
            decreases
                    (if a < 0x10_0000_0000_0000 * c {
                        0x10_0000_0000_0000 * c - a
                    } else {
                        0
                    }),
        {
            proof {
                lemma_two_values();
                if e <= -117 {
                    lemma_two_monotone(117, (-e) as nat);
                }
                if e <= -52 {
                    lemma_two_monotone(52, (-e) as nat);
                }
                let x = two((-e) as nat) as int;
                assert(two((-e + 1) as nat) == 2 * x);
                assert(c * (2 * x) == 2 * (c * x)) by (nonlinear_arith);
                width = (2 * width) as nat;
            }
            a = a * 2;
            e = e - 1;
        }
        proof {
            if n < 4 * d && e > -51 {
                lemma_two_values();
                lemma_two_monotone((-e) as nat, 50);
                let x = two((-e) as nat) as int;
                assert(c * x <= c * 0x4_0000_0000_0000) by (nonlinear_arith)
                    requires
                        0 <= x <= 0x4_0000_0000_0000,
                        c >= 0,
                ;
                assert(false);
            }
        }
    }
    proof {
        lemma_rounded_mantissa(a as nat, c as nat);
    }
    let m: u128 = round_u128(a, c);
    if m >= 0x20_0000_0000_0000u128 {
        Binary64 { m: 0x10_0000_0000_0000, e: e + 1 }
    } else {
        Binary64 { m: m as u64, e }
    }
}

impl Binary64 {
    /// The value of a count.
    pub fn of(n: u64) -> (r: Self)
        ensures
            r.model() == of_count(n as nat),
            r.wf(),
            -52 <= r.e <= 12,
            n > 0 ==> r.m > 0,
    {
        nearest_value(n, 1)
    }

    /// The quotient of two values.
    pub fn over(self, other: Self) -> (r: Self)
        requires
            self.wf(),
            other.wf(),
            other.m > 0,
            -1000 <= self.e <= 1000,
            -1000 <= other.e <= 1000,
        ensures
            r.model() == quotient(self.model(), other.model()),
            r.wf(),
            r.m > 0 ==> -118 + self.e - other.e <= r.e <= -50 + self.e - other.e,
    {
        let q = nearest_value(self.m, other.m);
        if q.m == 0 {
            Binary64 { m: 0, e: 0 }
        } else {
            Binary64 { m: q.m, e: q.e + self.e - other.e }
        }
    }

    /// The value times a small whole number.
    pub fn scaled(self, k: u64) -> (r: Self)
        requires
            self.wf(),
            k <= 1000,
            -3000 <= self.e <= 3000,
        ensures
            r.model() == times(self.model(), k as nat),
            r.wf(),
            r.m > 0 ==> -52 + self.e <= r.e <= 12 + self.e,
    {
        proof {
            assert(0 <= self.m * k <= 0x20_0000_0000_0000 * 1000) by (nonlinear_arith)
                requires
                    self.m < 0x20_0000_0000_0000,
                    k <= 1000,
            ;
        }
        let p = nearest_value(self.m * k, 1);
        if p.m == 0 {
            Binary64 { m: 0, e: 0 }
        } else {
            Binary64 { m: p.m, e: p.e + self.e }
        }
    }

    /// The value in tenths, rounded to a whole number of them.
    pub fn to_tenths(self) -> (r: u128)
        requires
            self.wf(),
            -10000 <= self.e <= 60,
        ensures
            r == tenths(self.model()),
    {
        let n: u128 = self.m as u128 * 10;
        if self.e >= 0 {
            let p: u128 = power_of_two(self.e as u32);
            proof {
                lemma_two_values();
                lemma_two_monotone(self.e as nat, 60);
                assert(n * p <= 0x20_0000_0000_0000 * 10 * 0x1000_0000_0000_0000)
                    by (nonlinear_arith)
                    requires
                        0 <= n <= 0x20_0000_0000_0000 * 10,
                        0 <= p <= 0x1000_0000_0000_0000,
                ;
            }
            n * p
        } else if self.e < -60 {
            proof {
                lemma_two_values();
                lemma_two_monotone(60, (-self.e) as nat);
                let d = two((-self.e) as nat) as int;
                assert(n as int / d == 0 && n as int % d == n) by (nonlinear_arith)
                    requires
                        0 <= n < d,
                ;
            }
            0
        } else {
            let d: u128 = power_of_two((-self.e) as u32);
            proof {
                lemma_two_values();
                lemma_two_monotone((-self.e) as nat, 60);
            }
            round_u128(n, d)
        }
    }

    /// True when the value is not below `other`.
    pub fn reaches(self, other: Self) -> (r: bool)
        requires
            other.m > 0,
        ensures
            r == (self.m > 0 && at_least(self.model(), other.model())),
    {
        self.m > 0 && (self.e > other.e || (self.e == other.e && self.m >= other.m))
    }
}

fn power_of_two(k: u32) -> (r: u128)
    requires
        k <= 60,
    ensures
        r == two(k as nat),
        r >= 1,
{
    let mut r: u128 = 1;
    let mut i: u32 = 0;
    while i < k
        invariant
            i <= k <= 60,
            r == two(i as nat),
            1 <= r <= 0x1000_0000_0000_0000,
        decreases k - i,
    {
        proof {
            lemma_two_values();
            lemma_two_monotone((i + 1) as nat, 60);
        }
        r = r * 2;
        i += 1;
    }
    r
}

/// A number of tenths with one decimal place.
pub fn one_decimal_text(t: u128) -> (s: String)
    ensures
        s@ == one_decimal(t as nat),
{
    let mut s = dec_u128(t / 10);
    s.append(".");
    s.push(digit_char((t % 10) as u8));
    s
}

/// `part / whole` in percent with one decimal place.
pub fn percent_text(part: u64, whole: u64) -> (s: String)
    requires
        whole > 0,
    ensures
        s@ == one_decimal(percent_tenths(part as nat, whole as nat)),
{
    let q = Binary64::of(part).over(Binary64::of(whole));
    let r = q.scaled(100);
    one_decimal_text(r.to_tenths())
}

// ---------- laws ----------

/// True when `m * 2^e` lies within half a unit of its last place of `n / d`.
pub open spec fn within_half_unit(n: nat, d: nat, m: nat, e: int) -> bool {
    if e >= 0 {
        -(two(e as nat) * d) <= 2 * (n - m * (two(e as nat) * d)) <= two(e as nat) * d
    } else {
        -(d as int) <= 2 * (n * two((-e) as nat) - m * d) <= d
    }
}

pub proof fn lemma_round_error(n: nat, d: nat)
    requires
        d > 0,
    ensures
        -(d as int) <= 2 * (n - round_half_even(n, d) * d) <= d,
{
    let q = (n / d) as int;
    let r = (n % d) as int;
    let x = d as int;
    assert(n == q * x + r && 0 <= r < x) by {
        vstd::arithmetic::div_mod::lemma_fundamental_div_mod(n as int, d as int);
        assert(x * q == q * x) by (nonlinear_arith);
    }
    assert((q + 1) * x == q * x + x) by (nonlinear_arith);
}

proof fn lemma_up(n: nat, d: nat, a: nat, e: int)
    requires
        n > 0,
        d > 0,
        e <= 0,
        a == n * two((-e) as nat),
        0 < a < 0x20_0000_0000_0000 * d,
    ensures
        within_half_unit(n, d, scaled_up(a, d, e).0, scaled_up(a, d, e).1),
        0x10_0000_0000_0000 <= scaled_up(a, d, e).0 < 0x20_0000_0000_0000,
    decreases
            (if a < 0x10_0000_0000_0000 * d {
                0x10_0000_0000_0000 * d - a
            } else {
                0
            }),
{
    let t = two((-e) as nat) as int;
    let x = n as int;
    if a < 0x10_0000_0000_0000 * d {
        assert(two((-(e - 1)) as nat) == 2 * t);
        assert(2 * (x * t) == x * (2 * t)) by (nonlinear_arith);
        lemma_up(n, d, 2 * a, e - 1);
    } else {
        lemma_rounded_mantissa(a, d);
        lemma_round_error(a, d);
        let m = round_half_even(a, d);
        if m >= 0x20_0000_0000_0000 {
            if e == 0 {
                assert(two(0) == 1 && two(1) == 2) by {
                    reveal_with_fuel(two, 2);
                }
                assert(x * 1 == x) by (nonlinear_arith);
                assert(two(1) * d == 2 * d) by (nonlinear_arith)
                    requires
                        two(1) == 2,
                ;
            } else {
                let h = two((-(e + 1)) as nat) as int;
                assert(t == 2 * h);
                assert(x * (2 * h) == 2 * (x * h)) by (nonlinear_arith);
            }
        } else if e == 0 {
            assert(two(0) == 1);
            assert(x * 1 == x) by (nonlinear_arith);
            assert(two(0) * d == d) by (nonlinear_arith)
                requires
                    two(0) == 1,
            ;
        }
    }
}

proof fn lemma_down(n: nat, d: nat, c: nat, e: int)
    requires
        n > 0,
        d > 0,
        e >= 0,
        c == two(e as nat) * d,
        c > 0,
        n >= 0x10_0000_0000_0000 * c,
    ensures
        within_half_unit(n, d, scaled_down(n, c, e).0, scaled_down(n, c, e).1),
        0x10_0000_0000_0000 <= scaled_down(n, c, e).0 < 0x20_0000_0000_0000,
    decreases n - c,
{
    let t = two(e as nat) as int;
    let x = d as int;
    assert(two((e + 1) as nat) == 2 * t);
    assert((2 * t) * x == 2 * (t * x)) by (nonlinear_arith);
    if n >= 0x20_0000_0000_0000 * c {
        lemma_down(n, d, 2 * c, e + 1);
    } else {
        lemma_rounded_mantissa(n, c);
        lemma_round_error(n, c);
    }
}

/// The value nearest to a ratio has a mantissa of 53 bits and lies within half a
/// unit of its last place of the ratio.
pub proof fn law_nearest_is_within_half_a_unit(n: nat, d: nat)
    requires
        n > 0,
        d > 0,
    ensures
        within_half_unit(n, d, nearest(n, d).0, nearest(n, d).1),
        0x10_0000_0000_0000 <= nearest(n, d).0 < 0x20_0000_0000_0000,
{
    assert(two(0) == 1);
    let x = n as int;
    let y = d as int;
    assert(x * 1 == x && 1 * y == y) by (nonlinear_arith);
    if n >= 0x20_0000_0000_0000 * d {
        lemma_down(n, d, d, 0);
    } else {
        lemma_up(n, d, n, 0);
    }
}

/// A value below the double nearest to 1023.95 is shown as 1023.9 at most.
pub proof fn lemma_below_limit(v: (nat, int))
    requires
        v.0 < 0x20_0000_0000_0000,
        !at_least(v, (9006759450089882, -43)),
    ensures
        tenths(v) < 10_240,
{
    assert(two(3) == 8 && two(10) == 0x400) by {
        reveal_with_fuel(two, 11);
    }
    lemma_two_product(10, 10, 0x400, 0x400);
    lemma_two_product(20, 20, 0x10_0000, 0x10_0000);
    lemma_two_product(3, 40, 8, 0x100_0000_0000);
    let n = v.0 * 10;
    let d = two((-v.1) as nat);
    lemma_two_monotone(43, (-v.1) as nat);
    if v.1 == -43 {
        assert(d == 8_796_093_022_208);
        assert(n <= 90_067_594_500_898_810);
    } else {
        lemma_two_monotone(44, (-v.1) as nat);
        assert(two(44) == 2 * two(43));
        assert(n / d < 10_239) by (nonlinear_arith)
            requires
                n < 0x20_0000_0000_0000 * 10,
                d >= 17_592_186_044_416,
        ;
    }
}

} // verus!
