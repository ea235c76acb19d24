//! Which rows are meant: positions and ranges as they are written, the first rows
//! and the last.
use vstd::prelude::*;

use crate::commands::cat::{expansion, Failure, Probe};
use crate::commands::head::lesser;
use crate::commands::tail::{last_rows, rows_of, sliced_rows, Kept, Slice};
use crate::indices::{digits_value, expr_of, exprs_of, int_of, is_number, parsed, row_of, Expr};
use crate::laws::numbers::{
    digits_only, law_digits_read_back, law_padding_keeps_the_number, reading, ten,
};
use crate::laws::quoting::law_joined_texts_stand_in_order;
use crate::output::temporal::{offset_of, small_int};
use crate::sort::{text_order, Order};
use crate::text::{
    dec, dec_int, dec_padded, is_white_space, join, lemma_find, lemma_find_unique, split, text_le,
    texts, trim, trim_end, trim_start,
};
use crate::wildcard::glob;

verus! {

// ---------- integers ----------

proof fn lemma_value_is_reading(s: Seq<char>)
    requires
        digits_only(s),
    ensures
        digits_value(s) == reading(s),
        reading(s) >= 0,
        s.len() > 0 ==> is_number(s),
    decreases s.len(),
{
    if s.len() > 0 {
        assert(digits_only(s.drop_last())) by {
            assert forall|i: int| 0 <= i < s.drop_last().len() implies '0' <= #[trigger] s.drop_last()[i]
                && s.drop_last()[i] <= '9' by {
                assert('0' <= s[i] && s[i] <= '9');
            }
        }
        lemma_value_is_reading(s.drop_last());
        assert('0' <= s[s.len() - 1] && s[s.len() - 1] <= '9');
        assert forall|i: int| 0 <= i < s.len() implies crate::text::is_digit(#[trigger] s[i]) by {
            assert('0' <= s[i] && s[i] <= '9');
        }
    }
}

/// An integer that is written in decimal is read as itself.
pub proof fn law_written_integers_are_read(i: i64)
    ensures
        int_of(dec_int(i as int)) == Some(i),
{
    let s = dec_int(i as int);
    if i < 0 {
        let d = dec((-i) as nat);
        law_digits_read_back((-i) as nat);
        lemma_value_is_reading(d);
        assert(s.drop_first() =~= d);
    } else {
        let d = dec(i as nat);
        law_digits_read_back(i as nat);
        lemma_value_is_reading(d);
        assert('0' <= d[0] && d[0] <= '9');
    }
}

/// A text that is read as an integer is digits, with a minus sign before them where
/// the integer is negative or zero was written so; anything else is no integer.
pub proof fn law_only_digits_are_read(s: Seq<char>)
    ensures
        int_of(s) matches Some(i) ==> {
            let negative = s.len() > 0 && s[0] == '-';
            let d = if negative {
                s.drop_first()
            } else {
                s
            };
            &&& d.len() > 0
            &&& digits_only(d)
            &&& i == if negative {
                -reading(d)
            } else {
                reading(d)
            }
        },
{
    if let Some(i) = int_of(s) {
        let negative = s.len() > 0 && s[0] == '-';
        let d = if negative {
            s.drop_first()
        } else {
            s
        };
        assert forall|k: int| 0 <= k < d.len() implies '0' <= #[trigger] d[k] && d[k] <= '9' by {
            assert(crate::text::is_digit(d[k]));
        }
        lemma_value_is_reading(d);
    }
}

// ---------- expressions ----------

proof fn lemma_trim(s: Seq<char>)
    requires
        s.len() > 0,
        !is_white_space(s[0]),
        !is_white_space(s.last()),
    ensures
        trim(s) == s,
{
    assert(trim_start(s) == s);
    assert(trim_end(s) == s);
}

proof fn lemma_integer_text(i: int)
    ensures
        dec_int(i).len() > 0,
        forall|k: int|
            0 <= k < dec_int(i).len() ==> (#[trigger] dec_int(i)[k] == '-' || '0' <= dec_int(i)[k]
                <= '9'),
{
    let n = (if i < 0 {
        -i
    } else {
        i
    }) as nat;
    law_digits_read_back(n);
    let d = dec(n);
    let s = dec_int(i);
    assert forall|k: int| 0 <= k < s.len() implies (#[trigger] s[k] == '-' || '0' <= s[k] <= '9') by {
        if i < 0 && k > 0 {
            assert(s[k] == d[k - 1]);
        } else if i >= 0 {
            assert(s[k] == d[k]);
        }
    }
}

/// One integer alone means that row; two with a colon between mean the rows from the
/// one to the other; and either end may be left out.
pub proof fn law_expressions_mean_what_they_say(a: i64, b: i64)
    ensures
        expr_of(dec_int(a as int)) == Ok::<Expr, Seq<char>>(Expr::Single(a)),
        expr_of(dec_int(a as int) + seq![':'] + dec_int(b as int)) == Ok::<Expr, Seq<char>>(
            Expr::Range(Some(a), Some(b)),
        ),
        expr_of(dec_int(a as int) + seq![':']) == Ok::<Expr, Seq<char>>(Expr::Range(Some(a), None)),
        expr_of(seq![':'] + dec_int(b as int)) == Ok::<Expr, Seq<char>>(Expr::Range(None, Some(b))),
        expr_of(seq![':']) == Ok::<Expr, Seq<char>>(Expr::Range(None, None)),
{
    let x = dec_int(a as int);
    let y = dec_int(b as int);
    let c = seq![':'];
    lemma_integer_text(a as int);
    lemma_integer_text(b as int);
    law_written_integers_are_read(a);
    law_written_integers_are_read(b);
    // One integer.
    lemma_trim(x);
    lemma_find_unique(x, ':', x.len() as int);
    // Both ends.
    let both = x + c + y;
    assert(both[0] == x[0] && both.last() == y[y.len() - 1]);
    lemma_trim(both);
    lemma_find_unique(both, ':', x.len() as int);
    assert(both.take(x.len() as int) =~= x);
    assert(both.skip(x.len() as int + 1) =~= y);
    // The first.
    let start = x + c;
    assert(start[0] == x[0] && start.last() == ':');
    lemma_trim(start);
    lemma_find_unique(start, ':', x.len() as int);
    assert(start.take(x.len() as int) =~= x);
    assert(start.skip(x.len() as int + 1) =~= Seq::empty());
    // The second.
    let end = c + y;
    assert(end[0] == ':' && end.last() == y[y.len() - 1]);
    lemma_trim(end);
    lemma_find_unique(end, ':', 0);
    assert(end.take(0) =~= Seq::empty());
    assert(end.skip(1) =~= y);
    // Neither.
    lemma_trim(c);
    lemma_find_unique(c, ':', 0);
    assert(c.take(0) =~= Seq::empty());
    assert(c.skip(1) =~= Seq::empty());
}

/// Blanks around an expression do not count, and nothing else is taken off it.
pub proof fn law_blanks_do_not_count(s: Seq<char>)
    ensures
        expr_of(s) == expr_of(trim(s)),
        trim(s).len() > 0 ==> !is_white_space(trim(s)[0]) && !is_white_space(trim(s).last()),
        exists|i: int, j: int|
            {
                &&& 0 <= i <= j <= s.len()
                &&& trim(s) == #[trigger] s.subrange(i, j)
                &&& forall|k: int| 0 <= k < i || j <= k < s.len() ==> is_white_space(#[trigger] s[k])
            },
{
    lemma_trimmed_start(s);
    let t = trim_start(s);
    lemma_trimmed_end(t);
    let u = trim(s);
    let i = s.len() - t.len();
    let j = i + u.len();
    assert(s.subrange(i, j) =~= u) by {
        assert forall|k: int| 0 <= k < u.len() implies u[k] == s[i + k] by {
            assert(u[k] == t[k]);
            assert(t[k] == s[i + k]);
        }
    }
    assert forall|k: int| 0 <= k < i || j <= k < s.len() implies is_white_space(#[trigger] s[k]) by {
        if j <= k {
            assert(s[k] == t[k - i]);
            assert(is_white_space(t[k - i]));
        }
    }
    if u.len() > 0 {
        assert(u[0] == t[0]);
        lemma_trim(u);
    } else {
        assert(trim_start(u) == u);
        assert(trim(u) == u);
    }
}

proof fn lemma_trimmed_start(s: Seq<char>)
    ensures
        trim_start(s).len() <= s.len(),
        trim_start(s) == s.skip(s.len() - trim_start(s).len()),
        forall|k: int| 0 <= k < s.len() - trim_start(s).len() ==> is_white_space(#[trigger] s[k]),
        trim_start(s).len() > 0 ==> !is_white_space(trim_start(s)[0]),
    decreases s.len(),
{
    if s.len() > 0 && is_white_space(s[0]) {
        let rest = s.drop_first();
        lemma_trimmed_start(rest);
        let n = s.len() - trim_start(s).len();
        assert(rest.skip(n - 1) =~= s.skip(n));
        assert forall|k: int| 0 <= k < n implies is_white_space(#[trigger] s[k]) by {
            if k > 0 {
                assert(is_white_space(rest[k - 1]));
            }
        }
    } else {
        assert(s.skip(0) =~= s);
    }
}

proof fn lemma_trimmed_end(s: Seq<char>)
    ensures
        trim_end(s).len() <= s.len(),
        trim_end(s) == s.take(trim_end(s).len() as int),
        forall|k: int| trim_end(s).len() <= k < s.len() ==> is_white_space(#[trigger] s[k]),
        trim_end(s).len() > 0 ==> !is_white_space(trim_end(s).last()),
    decreases s.len(),
{
    if s.len() > 0 && is_white_space(s.last()) {
        let init = s.drop_last();
        lemma_trimmed_end(init);
        let n = trim_end(s).len() as int;
        assert(init.take(n) =~= s.take(n));
        assert forall|k: int| n <= k < s.len() implies is_white_space(#[trigger] s[k]) by {
            if k < init.len() {
                assert(is_white_space(init[k]));
            }
        }
    } else {
        assert(s.take(s.len() as int) =~= s);
    }
}

/// Spaces, tabs and line breaks are blanks; letters, digits, signs and colons are not.
pub proof fn law_blanks_are_white_space(c: char)
    ensures
        is_white_space(' '),
        is_white_space('\t'),
        is_white_space('\n'),
        is_white_space('\r'),
        0x21 <= c as int <= 0x7e ==> !is_white_space(c),
{
}

/// A token that is neither an integer nor a range of integers is refused with what is
/// wrong in it; an empty one as such.
pub proof fn law_other_expressions_are_refused(s: Seq<char>)
    ensures
        trim(s).len() == 0 ==> expr_of(s) == Err::<Expr, Seq<char>>("empty index expression"@),
        trim(s).len() > 0 && !trim(s).contains(':') && int_of(trim(s)) is None ==> expr_of(s) == Err::<
            Expr,
            Seq<char>,
        >("invalid integer '"@ + trim(s) + "'"@),
{
    lemma_find(trim(s), ':');
}

/// Texts without the separator that are joined by it are taken apart again.
pub proof fn law_splitting_undoes_joining(parts: Seq<Seq<char>>, c: char)
    requires
        parts.len() > 0,
        forall|i: int| 0 <= i < parts.len() ==> !(#[trigger] parts[i]).contains(c),
    ensures
        split(join(parts, seq![c]), c) == parts,
    decreases parts.len(),
{
    let all = join(parts, seq![c]);
    law_joined_texts_stand_in_order(parts, seq![c]);
    let first = parts[0];
    assert forall|i: int| 0 <= i < first.len() implies #[trigger] first[i] != c by {
        if first[i] == c {
            assert(parts[0].contains(c));
        }
    }
    if parts.len() == 1 {
        lemma_find_unique(all, c, first.len() as int);
        assert(split(all, c) =~= parts);
    } else {
        let rest = parts.drop_first();
        assert forall|i: int| 0 <= i < rest.len() implies !(#[trigger] rest[i]).contains(c) by {
            assert(!parts[i + 1].contains(c));
        }
        law_splitting_undoes_joining(rest, c);
        let n = first.len() as int;
        assert forall|i: int| 0 <= i < n implies #[trigger] all[i] != c by {
            assert(all[i] == first[i]);
        }
        assert(all[n] == c);
        lemma_find_unique(all, c, n);
        assert(all.take(n) =~= first);
        assert(all.skip(n + 1) =~= join(rest, seq![c]));
        assert(split(all, c) =~= seq![first] + split(all.skip(n + 1), c));
        assert(seq![first] + rest =~= parts);
    }
}

/// Expressions with commas between mean one after another what each means alone; a
/// blank text means nothing and is refused.
pub proof fn law_lists_mean_their_expressions(tokens: Seq<Seq<char>>)
    requires
        tokens.len() > 0,
        forall|i: int| 0 <= i < tokens.len() ==> !(#[trigger] tokens[i]).contains(','),
    ensures
        trim(join(tokens, seq![','])).len() > 0 ==> parsed(join(tokens, seq![','])) == exprs_of(
            tokens,
        ),
        parsed(Seq::empty()) == Err::<Seq<Expr>, Seq<char>>("--indices must not be empty"@),
        exprs_of(tokens) matches Ok(xs) ==> xs.len() == tokens.len() && forall|i: int|
            0 <= i < tokens.len() ==> expr_of(#[trigger] tokens[i]) == Ok::<Expr, Seq<char>>(xs[i]),
{
    law_splitting_undoes_joining(tokens, ',');
    lemma_exprs(tokens);
}

proof fn lemma_exprs(tokens: Seq<Seq<char>>)
    ensures
        exprs_of(tokens) matches Ok(xs) ==> xs.len() == tokens.len() && forall|i: int|
            0 <= i < tokens.len() ==> expr_of(#[trigger] tokens[i]) == Ok::<Expr, Seq<char>>(xs[i]),
        exprs_of(tokens) is Ok <==> forall|i: int|
            0 <= i < tokens.len() ==> expr_of(#[trigger] tokens[i]) is Ok,
    decreases tokens.len(),
{
    if tokens.len() > 0 {
        let init = tokens.drop_last();
        lemma_exprs(init);
        assert forall|i: int| 0 <= i < init.len() implies #[trigger] init[i] == tokens[i] by {}
        if forall|i: int| 0 <= i < tokens.len() ==> expr_of(#[trigger] tokens[i]) is Ok {
            assert forall|i: int| 0 <= i < init.len() implies expr_of(#[trigger] init[i]) is Ok by {
                assert(expr_of(tokens[i]) is Ok);
            }
            assert(expr_of(tokens[tokens.len() - 1]) is Ok);
        }
        if exprs_of(tokens) is Ok {
            let xs = exprs_of(tokens)->Ok_0;
            let before = exprs_of(init)->Ok_0;
            assert forall|i: int| 0 <= i < tokens.len() implies expr_of(#[trigger] tokens[i]) == Ok::<
                Expr,
                Seq<char>,
            >(xs[i]) by {
                if i < init.len() {
                    assert(expr_of(init[i]) == Ok::<Expr, Seq<char>>(before[i]));
                }
            }
        }
    }
}

/// A row is addressed from the start by its position and from the end by how far it
/// is before it; any other position is out of range.
pub proof fn law_rows_are_addressed_from_both_ends(i: i64, rowcount: u64)
    requires
        rowcount <= i64::MAX,
    ensures
        0 <= i < rowcount ==> row_of(i, rowcount) == Ok::<u64, crate::error::Error>(i as u64),
        -rowcount <= i < 0 ==> (row_of(i, rowcount) matches Ok(r) && r + (-i) == rowcount),
        i >= rowcount || i < -rowcount ==> row_of(i, rowcount) == Err::<u64, crate::error::Error>(
            crate::error::Error::IndexOutOfRange { index: i, rowcount },
        ),
{
}

// ---------- offsets ----------

proof fn lemma_two_digits(n: nat)
    requires
        n < 100,
    ensures
        dec_padded(n, 2).len() == 2,
        digits_only(dec_padded(n, 2)),
        small_int(dec_padded(n, 2)) == Some(n as int),
{
    law_padding_keeps_the_number(n, 2);
    reveal_with_fuel(ten, 3);
    let s = dec_padded(n, 2);
    lemma_value_is_reading(s);
    assert('0' <= s[0] && s[0] <= '9');
}

/// A zone that is written as a sign, two digits of hours and two of minutes is that
/// far from UTC, east for a plus and west for a minus, with a colon between or not.
pub proof fn law_written_offsets_are_read(h: int, m: int)
    requires
        0 <= h < 24,
        0 <= m < 60,
    ensures
        offset_of(seq!['+'] + dec_padded(h as nat, 2) + seq![':'] + dec_padded(m as nat, 2)) == Some(
            h * 3600 + m * 60,
        ),
        offset_of(seq!['-'] + dec_padded(h as nat, 2) + seq![':'] + dec_padded(m as nat, 2)) == Some(
            -(h * 3600 + m * 60),
        ),
        offset_of(seq!['+'] + dec_padded(h as nat, 2) + dec_padded(m as nat, 2)) == Some(h * 3600 + m * 60),
        offset_of(seq!['-'] + dec_padded(h as nat, 2) + dec_padded(m as nat, 2)) == Some(-(h * 3600 + m * 60)),
{
    lemma_offset('+', h, m);
    lemma_offset('-', h, m);
}

proof fn lemma_offset(sign: char, h: int, m: int)
    requires
        0 <= h < 24,
        0 <= m < 60,
        sign == '+' || sign == '-',
    ensures
        ({
            let east = if sign == '+' {
                h * 3600 + m * 60
            } else {
                -(h * 3600 + m * 60)
            };
            &&& offset_of(seq![sign] + dec_padded(h as nat, 2) + seq![':'] + dec_padded(m as nat, 2)) == Some(east)
            &&& offset_of(seq![sign] + dec_padded(h as nat, 2) + dec_padded(m as nat, 2)) == Some(east)
        }),
{
    lemma_two_digits(h as nat);
    lemma_two_digits(m as nat);
    reveal_strlit("Z");
    reveal_strlit("UTC");
    reveal_strlit("+00:00");
    reveal_strlit("-00:00");
    let hh = dec_padded(h as nat, 2);
    let mm = dec_padded(m as nat, 2);
    let z = seq![sign] + hh + seq![':'] + mm;
    assert(z.len() == 6);
    assert(z[1] == hh[0] && z[2] == hh[1] && z[3] == ':' && z[4] == mm[0] && z[5] == mm[1]);
    let rest = z.drop_first();
    assert(rest[0] == hh[0] && rest[1] == hh[1] && rest[2] == ':');
    assert('0' <= hh[0] && hh[0] <= '9' && '0' <= hh[1] && hh[1] <= '9');
    assert('0' <= mm[0] && mm[0] <= '9' && '0' <= mm[1] && mm[1] <= '9');
    lemma_find_unique(rest, ':', 2);
    assert(rest.take(2) =~= hh);
    assert(rest.skip(3) =~= mm);
    if z == "+00:00"@ || z == "-00:00"@ {
        assert(hh =~= seq!['0', '0']);
        assert(mm =~= seq!['0', '0']);
        lemma_no_hours(hh);
        law_padding_keeps_the_number(h as nat, 2);
        law_padding_keeps_the_number(m as nat, 2);
        assert(h == 0 && m == 0);
    }
    let y = seq![sign] + hh + mm;
    assert(y.len() == 5);
    let tail = y.drop_first();
    assert(tail[0] == hh[0] && tail[1] == hh[1] && tail[2] == mm[0] && tail[3] == mm[1]);
    lemma_find_unique(tail, ':', 4);
    assert(tail.take(2) =~= hh);
    assert(tail.skip(2) =~= mm);
}

proof fn lemma_no_hours(s: Seq<char>)
    requires
        s == seq!['0', '0'],
    ensures
        reading(s) == 0,
{
    reveal_with_fuel(reading, 3);
    assert(s.drop_last() =~= seq!['0']);
    assert(s.drop_last().drop_last() =~= Seq::empty());
}

/// UTC has its own names, and a zone that begins with no sign has no fixed offset.
pub proof fn law_named_zones_have_no_offset(zone: Seq<char>)
    ensures
        offset_of("Z"@) == Some(0int),
        offset_of("UTC"@) == Some(0int),
        zone != "Z"@ && zone != "UTC"@ && (zone.len() == 0 || (zone[0] != '+' && zone[0] != '-'))
            ==> offset_of(zone) is None,
        offset_of(zone) matches Some(east) ==> -86_400 < east < 86_400,
{
    reveal_strlit("+00:00");
    reveal_strlit("-00:00");
}

// ---------- the first and the last rows ----------

/// A bounded number is the bound or the number, whichever is smaller.
pub proof fn law_the_lesser_is_one_of_both(a: nat, b: nat)
    ensures
        lesser(a, b) <= a,
        lesser(a, b) <= b,
        lesser(a, b) == a || lesser(a, b) == b,
{
}

/// The last rows are the rows without those before them: as many as wanted, or all.
pub proof fn law_last_rows_end_the_rows<T>(rows: Seq<(T, nat)>, limit: nat, i: int)
    ensures
        last_rows(rows, limit).len() == if rows.len() < limit {
            rows.len()
        } else {
            limit
        },
        0 <= i < last_rows(rows, limit).len() ==> last_rows(rows, limit)[i] == rows[rows.len()
            - last_rows(rows, limit).len() + i],
{
}

/// The rows of batches are those of each batch from its first to its last, one batch
/// after another.
pub proof fn law_rows_follow_their_batches<T>(batches: Seq<Kept<T>>, k: Kept<T>, i: int)
    ensures
        rows_of(batches.push(k)).len() == rows_of(batches).len() + k.rows,
        rows_of(Seq::<Kept<T>>::empty()).len() == 0,
        0 <= i < rows_of(batches).len() ==> rows_of(batches.push(k))[i] == rows_of(batches)[i],
        0 <= i < k.rows ==> rows_of(batches.push(k))[rows_of(batches).len() + i] == (k.batch, i as nat),
{
    assert(batches.push(k).drop_last() =~= batches);
}

/// The rows of slices are those of each slice from its offset on, one slice after
/// another.
pub proof fn law_rows_follow_their_slices<T>(slices: Seq<Slice<T>>, s: Slice<T>, i: int)
    ensures
        sliced_rows(slices.push(s)).len() == sliced_rows(slices).len() + s.rows,
        sliced_rows(Seq::<Slice<T>>::empty()).len() == 0,
        0 <= i < sliced_rows(slices).len() ==> sliced_rows(slices.push(s))[i] == sliced_rows(slices)[i],
        0 <= i < s.rows ==> sliced_rows(slices.push(s))[sliced_rows(slices).len() + i] == (
            s.batch,
            (s.offset + i) as nat,
        ),
{
    assert(slices.push(s).drop_last() =~= slices);
}

// ---------- patterns ----------

/// A question mark stands for any one character, and any other character than that
/// and a star for itself.
pub proof fn law_question_mark_takes_one(pattern: Seq<char>, text: Seq<char>)
    requires
        pattern.len() > 0,
        pattern[0] != '*',
    ensures
        pattern[0] == '?' ==> (glob(pattern, text) <==> text.len() > 0 && glob(
            pattern.drop_first(),
            text.drop_first(),
        )),
        pattern[0] != '?' ==> (glob(pattern, text) <==> text.len() > 0 && text[0] == pattern[0]
            && glob(pattern.drop_first(), text.drop_first())),
        glob(Seq::empty(), text) <==> text.len() == 0,
{
}

/// A range runs from the row of its first end to the row of its last, both included.
/// It is refused where an end is out of range, and where it runs backwards.
pub proof fn law_ranges_run_between_their_ends(a: Option<i64>, b: Option<i64>, rowcount: u64)
    requires
        0 < rowcount <= i64::MAX,
    ensures
        ({
            let first = match a {
                Some(i) => i,
                None => 0i64,
            };
            let last = match b {
                Some(i) => i,
                None => -1i64,
            };
            let r = crate::indices::rows_of(Expr::Range(a, b), rowcount);
            match (row_of(first, rowcount), row_of(last, rowcount)) {
                (Ok(s), Ok(e)) => if s <= e {
                    r == Ok::<Seq<u64>, crate::error::Error>(
                        Seq::new((e - s + 1) as nat, |k: int| (s + k) as u64),
                    )
                } else {
                    r is Err && !(r->Err_0 is IndexOutOfRange)
                },
                (Err(e), _) => r == Err::<Seq<u64>, crate::error::Error>(e),
                (_, Err(e)) => r == Err::<Seq<u64>, crate::error::Error>(e),
            }
        }),
{
}

/// A row alone is that row.
pub proof fn law_single_rows_stand_alone(i: i64, rowcount: u64)
    ensures
        row_of(i, rowcount) matches Ok(r) ==> crate::indices::rows_of(Expr::Single(i), rowcount) == Ok::<
            Seq<u64>,
            crate::error::Error,
        >(seq![r]),
        row_of(i, rowcount) matches Err(e) ==> crate::indices::rows_of(Expr::Single(i), rowcount) == Err::<
            Seq<u64>,
            crate::error::Error,
        >(e),
{
}

// ---------- inputs ----------

/// An input stands for itself where it exists as it is written, has a scheme, or holds
/// no star, question mark or bracket. Any other stands for what it matches, in
/// ascending order, and is refused where that is nothing.
pub proof fn law_patterns_stand_for_their_matches(input: Seq<char>, probe: Probe, path: Seq<char>)
    ensures
        ({
            let plain = probe.exists || crate::dataset::scheme_qualified(input) || !(input.contains('*')
                || input.contains('?') || input.contains('['));
            &&& plain ==> expansion(input, probe) == Ok::<Seq<Seq<char>>, Failure>(seq![input])
            &&& !plain ==> (probe.matches matches Err(why) ==> expansion(input, probe) == Err::<
                Seq<Seq<char>>,
                Failure,
            >(Failure::Invalid(input, why@)))
            &&& !plain ==> (probe.matches matches Ok(found) ==> {
                &&& found@.len() == 0 ==> expansion(input, probe) == Err::<Seq<Seq<char>>, Failure>(
                    Failure::NoMatch(input),
                )
                &&& found@.len() > 0 ==> (expansion(input, probe) matches Ok(paths) && (paths.contains(
                    path,
                ) <==> texts(found@).contains(path)) && paths.len() == found@.len() && forall|
                    i: int,
                    j: int,
                |
                    0 <= i < j < paths.len() ==> text_le(#[trigger] paths[i], #[trigger] paths[j]))
            })
        }),
{
    if let Ok(found) = probe.matches {
        broadcast use vstd::seq_lib::group_to_multiset_ensures;

        let plain = texts(found@);
        crate::sort::TextOrder.lemma_total();
        plain.lemma_sort_by_ensures(text_order());
        let s = plain.sort_by(text_order());
        assert(s.contains(path) <==> s.to_multiset().count(path) > 0);
        assert(plain.contains(path) <==> plain.to_multiset().count(path) > 0);
        assert(s.len() == s.to_multiset().len() && plain.len() == plain.to_multiset().len());
        let le = text_order();
        assert forall|i: int, j: int| 0 <= i < j < s.len() implies text_le(
            #[trigger] s[i],
            #[trigger] s[j],
        ) by {
            assert(le(s[i], s[j]));
        }
    }
}

} // verus!
