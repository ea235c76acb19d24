//! Numbers as text, and back.
use vstd::prelude::*;

use crate::json::{all_digits, is_integer, is_plain_number};
use crate::text::{dec, dec_int, dec_padded, is_digit, zeros};

verus! {

/// The number that a text of decimal digits writes.
pub open spec fn reading(s: Seq<char>) -> int
    decreases s.len(),
{
    if s.len() == 0 {
        0
    } else {
        reading(s.drop_last()) * 10 + (s.last() as int - '0' as int)
    }
}

/// Ten to the power `k`.
pub open spec fn ten(k: nat) -> nat
    decreases k,
{
    if k == 0 {
        1
    } else {
        10 * ten((k - 1) as nat)
    }
}

/// True of a text of decimal digits only.
pub open spec fn digits_only(s: Seq<char>) -> bool {
    forall|i: int| 0 <= i < s.len() ==> '0' <= #[trigger] s[i] && s[i] <= '9'
}

proof fn lemma_digits(n: nat)
    ensures
        dec(n).len() >= 1,
        digits_only(dec(n)),
        reading(dec(n)) == n,
        n > 0 ==> dec(n)[0] != '0',
        n < 10 ==> dec(n).len() == 1,
    decreases n,
{
    if n >= 10 {
        lemma_digits(n / 10);
        assert(dec(n).drop_last() =~= dec(n / 10));
    } else {
        reveal_with_fuel(reading, 2);
        assert(dec(n).drop_last() =~= Seq::<char>::empty());
    }
}

proof fn lemma_width(n: nat, k: nat)
    requires
        k > 0,
        n < ten(k),
    ensures
        dec(n).len() <= k,
    decreases k,
{
    reveal_with_fuel(ten, 2);
    if n >= 10 {
        assert(k > 1);
        assert(n / 10 < ten((k - 1) as nat));
        lemma_width(n / 10, (k - 1) as nat);
    }
}

proof fn lemma_leading_zeros(k: nat, s: Seq<char>)
    ensures
        reading(zeros(k) + s) == reading(s),
        digits_only(s) ==> digits_only(zeros(k) + s),
    decreases s.len(), k,
{
    let t = zeros(k) + s;
    if s.len() > 0 {
        lemma_leading_zeros(k, s.drop_last());
        assert(t.drop_last() =~= zeros(k) + s.drop_last());
    } else if k > 0 {
        lemma_leading_zeros((k - 1) as nat, s);
        assert(t.drop_last() =~= zeros((k - 1) as nat) + s);
    } else {
        assert(t =~= s);
    }
}

/// A number is written in decimal digits that read back as the number, without
/// leading zeros; so different numbers have different texts.
pub proof fn law_digits_read_back(n: nat)
    ensures
        dec(n).len() >= 1,
        digits_only(dec(n)),
        reading(dec(n)) == n,
        dec(n)[0] == '0' ==> dec(n).len() == 1,
        forall|m: nat| #[trigger] dec(m) == dec(n) ==> m == n,
{
    lemma_digits(n);
    assert forall|m: nat| #[trigger] dec(m) == dec(n) implies m == n by {
        lemma_digits(m);
    }
}

/// A number below zero is written as a minus sign and the digits of what it is
/// below zero; any other number without a sign.
pub proof fn law_sign_is_written(n: int)
    ensures
        n < 0 ==> dec_int(n)[0] == '-' && reading(dec_int(n).drop_first()) == -n && digits_only(
            dec_int(n).drop_first(),
        ),
        n >= 0 ==> reading(dec_int(n)) == n && digits_only(dec_int(n)),
        forall|m: int| #[trigger] dec_int(m) == dec_int(n) ==> m == n,
{
    lemma_signed(n);
    assert forall|m: int| #[trigger] dec_int(m) == dec_int(n) implies m == n by {
        lemma_signed(m);
    }
}

proof fn lemma_signed(n: int)
    ensures
        dec_int(n).len() >= 1,
        n < 0 ==> dec_int(n)[0] == '-' && reading(dec_int(n).drop_first()) == -n && digits_only(
            dec_int(n).drop_first(),
        ),
        n >= 0 ==> reading(dec_int(n)) == n && digits_only(dec_int(n)) && dec_int(n)[0] != '-',
{
    if n < 0 {
        lemma_digits((-n) as nat);
        assert(dec_int(n).drop_first() =~= dec((-n) as nat));
    } else {
        lemma_digits(n as nat);
    }
}

/// A padded number is at least as wide as asked, reads back as the number, and is
/// exactly as wide as asked where the number has no more digits than that.
pub proof fn law_padding_keeps_the_number(n: nat, width: nat)
    ensures
        dec_padded(n, width).len() >= width,
        digits_only(dec_padded(n, width)),
        reading(dec_padded(n, width)) == n,
        0 < width && n < ten(width) ==> dec_padded(n, width).len() == width,
{
    lemma_digits(n);
    if dec(n).len() < width {
        lemma_leading_zeros((width - dec(n).len()) as nat, dec(n));
    }
    if 0 < width && n < ten(width) {
        lemma_width(n, width);
    }
}

/// A number that JSON takes as it stands is digits, with a minus sign before them and
/// a point among them at most; and every integer is one.
pub proof fn law_plain_numbers_are_digits(s: Seq<char>, n: int, i: int)
    ensures
        is_plain_number(dec_int(n)),
        is_plain_number(s) && 0 <= i < s.len() ==> '0' <= s[i] <= '9' || s[i] == '.' || (s[i] == '-'
            && i == 0),
        is_plain_number(s) ==> s.len() > 0,
{
    crate::json::lemma_dec_is_integer(n);
    if is_plain_number(s) {
        if is_integer(s) {
            lemma_integer_digits(s, i);
        } else {
            let k = choose|k: int|
                0 <= k < s.len() && #[trigger] s[k] == '.' && is_integer(s.take(k)) && all_digits(
                    s.skip(k + 1),
                );
            if 0 <= i < k {
                lemma_integer_digits(s.take(k), i);
                assert(s.take(k)[i] == s[i]);
            } else if k < i < s.len() {
                assert(s.skip(k + 1)[i - k - 1] == s[i]);
                assert(is_digit(s.skip(k + 1)[i - k - 1]));
            }
        }
    }
}

proof fn lemma_integer_digits(s: Seq<char>, i: int)
    requires
        is_integer(s),
    ensures
        s.len() > 0,
        0 <= i < s.len() ==> '0' <= s[i] <= '9' || (s[i] == '-' && i == 0),
{
    if 0 <= i < s.len() {
        if all_digits(s) {
            assert(is_digit(s[i]));
        } else if i > 0 {
            assert(is_digit(s.drop_first()[i - 1]));
        }
    }
}

} // verus!
