//! Parser and resolver for the `--indices` flag.
//!
//! Grammar:
//! ```text
//! indices := expr ("," expr)*
//! expr    := int | range
//! range   := int? ":" int?
//! int     := "-"? [0-9]+
//! ```
//! White space around an `expr` is ignored.
//!
//! Resolution against a dataset with `rowcount` rows:
//! - Negative `i` means `rowcount + i` (an error if that is still negative).
//! - `a:b` is inclusive on both ends.
//! - `a:` means `a..=rowcount-1`.
//! - `:b` means `0..=b`.
//! - `:` means the entire dataset.
//! - Order is preserved and duplicates are not removed.
use vstd::prelude::*;
use vstd::slice::slice_subrange;

use crate::error::Error;
use crate::text::{
    chars_of, digit_value, find, find_char, is_digit, split, split_chars, text_of, trim, trim_chars,
    views,
};

verus! {

/// One element of an `--indices` list.
#[derive(Debug, Clone, Copy, PartialEq, Eq, Structural)]
pub enum Expr {
    Single(i64),
    Range(Option<i64>, Option<i64>),
}

// ---------- grammar ----------

/// The number that a run of digits stands for.
pub open spec fn digits_value(s: Seq<char>) -> nat
    decreases s.len(),
{
    if s.len() == 0 {
        0
    } else {
        digits_value(s.drop_last()) * 10 + digit_value(s.last())
    }
}

/// True of one or more decimal digits.
pub open spec fn is_number(s: Seq<char>) -> bool {
    s.len() > 0 && forall|i: int| 0 <= i < s.len() ==> is_digit(#[trigger] s[i])
}

/// The integer that `s` writes, where it writes one that fits in 64 bits.
pub open spec fn int_of(s: Seq<char>) -> Option<i64> {
    let negative = s.len() > 0 && s[0] == '-';
    let body = if negative {
        s.drop_first()
    } else {
        s
    };
    let value: int = if negative {
        -(digits_value(body) as int)
    } else {
        digits_value(body) as int
    };
    if is_number(body) && i64::MIN <= value <= i64::MAX {
        Some(value as i64)
    } else {
        None
    }
}

/// The message for a token that writes no integer.
pub open spec fn invalid_int(s: Seq<char>) -> Seq<char> {
    "invalid integer '"@ + s + "'"@
}

/// One end of a range: absent where nothing is written.
pub open spec fn end_of(s: Seq<char>) -> Result<Option<i64>, Seq<char>> {
    if s.len() == 0 {
        Ok(None)
    } else {
        match int_of(s) {
            Some(i) => Ok(Some(i)),
            None => Err(invalid_int(s)),
        }
    }
}

/// The expression that one token writes, or the message of its error.
pub open spec fn expr_of(token: Seq<char>) -> Result<Expr, Seq<char>> {
    let t = trim(token);
    let colon = find(t, ':');
    if t.len() == 0 {
        Err("empty index expression"@)
    } else if colon < t.len() {
        match (end_of(t.take(colon as int)), end_of(t.skip(colon as int + 1))) {
            (Err(e), _) => Err(e),
            (_, Err(e)) => Err(e),
            (Ok(a), Ok(b)) => Ok(Expr::Range(a, b)),
        }
    } else {
        match int_of(t) {
            Some(i) => Ok(Expr::Single(i)),
            None => Err(invalid_int(t)),
        }
    }
}

/// The expressions of a list of tokens, or the message of the first error.
pub open spec fn exprs_of(tokens: Seq<Seq<char>>) -> Result<Seq<Expr>, Seq<char>>
    decreases tokens.len(),
{
    if tokens.len() == 0 {
        Ok(Seq::empty())
    } else {
        match (exprs_of(tokens.drop_last()), expr_of(tokens.last())) {
            (Err(e), _) => Err(e),
            (_, Err(e)) => Err(e),
            (Ok(es), Ok(x)) => Ok(es.push(x)),
        }
    }
}

/// The expressions of an `--indices` value, or the message of the first error.
pub open spec fn parsed(raw: Seq<char>) -> Result<Seq<Expr>, Seq<char>> {
    if trim(raw).len() == 0 {
        Err("--indices must not be empty"@)
    } else {
        exprs_of(split(raw, ','))
    }
}

// ---------- resolution ----------

/// The row that index `i` addresses among `rowcount` rows.
pub open spec fn row_of(i: i64, rowcount: u64) -> Result<u64, Error> {
    let row: int = if i < 0 {
        rowcount + i
    } else {
        i as int
    };
    if rowcount <= i64::MAX && 0 <= row < rowcount {
        Ok(row as u64)
    } else {
        Err(Error::IndexOutOfRange { index: i, rowcount })
    }
}

/// The rows from `s` to `e`, both included.
pub open spec fn span(s: u64, e: u64) -> Seq<u64> {
    Seq::new((e - s + 1) as nat, |k: int| (s + k) as u64)
}

/// The rows that one expression addresses, in order.
pub open spec fn rows_of(x: Expr, rowcount: u64) -> Result<Seq<u64>, Error> {
    match x {
        Expr::Single(i) => match row_of(i, rowcount) {
            Ok(r) => Ok(seq![r]),
            Err(e) => Err(e),
        },
        Expr::Range(start, end) => {
            let a: i64 = match start {
                Some(i) => i,
                None => 0,
            };
            let b: i64 = match end {
                Some(i) => i,
                None => (rowcount - 1) as i64,
            };
            if rowcount == 0 {
                Err(
                    Error::IndexOutOfRange {
                        index: match start {
                            Some(i) => i,
                            None => match end {
                                Some(i) => i,
                                None => 0,
                            },
                        },
                        rowcount,
                    },
                )
            } else {
                match (row_of(a, rowcount), row_of(b, rowcount)) {
                    (Err(e), _) => Err(e),
                    (_, Err(e)) => Err(e),
                    (Ok(s), Ok(e)) => if s > e {
                        Err(Error::EmptyRange { start: a, end: b })
                    } else {
                        Ok(span(s, e))
                    },
                }
            }
        },
    }
}

/// The rows that a list of expressions addresses, one expression after another,
/// or the error of the first that addresses none.
pub open spec fn all_rows(xs: Seq<Expr>, rowcount: u64) -> Result<Seq<u64>, Error>
    decreases xs.len(),
{
    if xs.len() == 0 {
        Ok(Seq::empty())
    } else {
        match (all_rows(xs.drop_last(), rowcount), rows_of(xs.last(), rowcount)) {
            (Err(e), _) => Err(e),
            (_, Err(e)) => Err(e),
            (Ok(v), Ok(w)) => Ok(v + w),
        }
    }
}

// ---------- parsing ----------

proof fn lemma_digits_grow(s: Seq<char>, k: int)
    requires
        is_number(s),
        0 <= k <= s.len(),
    ensures
        digits_value(s.take(k)) <= digits_value(s),
    decreases s.len() - k,
{
    if k < s.len() {
        lemma_digits_grow(s, k + 1);
        assert(s.take(k + 1).drop_last() =~= s.take(k));
        assert(is_digit(s[k]));
    } else {
        assert(s.take(k) =~= s);
    }
}

/// The message for a token that writes no integer.
fn invalid_int_text(s: &[char]) -> (r: String)
    ensures
        r@ == invalid_int(s@),
{
    let mut out = "invalid integer '".to_owned();
    out.append(text_of(s).as_str());
    out.append("'");
    out
}

pub fn parse_int(s: &[char]) -> (r: Result<i64, String>)
    ensures
        match r {
            Ok(i) => int_of(s@) == Some(i),
            Err(m) => int_of(s@) is None && m@ == invalid_int(s@),
        },
{
    let negative: bool = s.len() > 0 && s[0] == '-';
    let from: usize = if negative {
        1
    } else {
        0
    };
    let body = slice_subrange(s, from, s.len());
    proof {
        assert(s@.skip(0) =~= s@);
        if negative {
            assert(body@ =~= s@.drop_first());
        } else {
            assert(body@ =~= s@);
        }
    }
    if body.len() == 0 {
        return Err(invalid_int_text(s));
    }
    let mut value: i128 = 0;
    let mut i: usize = 0;
    while i < body.len()
        invariant
            i <= body@.len(),
            value == digits_value(body@.take(i as int)),
            value <= 0x8000_0000_0000_0000,
            negative == (s@.len() > 0 && s@[0] == '-'),
            body@ == (if negative {
                s@.drop_first()
            } else {
                s@
            }),
            forall|j: int| 0 <= j < i ==> is_digit(#[trigger] body@[j]),
        decreases body@.len() - i,
    {
        let c: char = body[i];
        if !('0' <= c && c <= '9') {
            proof {
                assert(!is_digit(body@[i as int]));
            }
            return Err(invalid_int_text(s));
        }
        let d: u32 = c as u32 - 48;
        proof {
            assert(body@.take(i + 1).drop_last() =~= body@.take(i as int));
        }
        value = value * 10 + d as i128;
        i += 1;
        if value > 0x8000_0000_0000_0000 {
            proof {
                if is_number(body@) {
                    lemma_digits_grow(body@, i as int);
                }
            }
            return Err(invalid_int_text(s));
        }
    }
    proof {
        assert(body@.take(i as int) =~= body@);
    }
    let signed: i128 = if negative {
        -value
    } else {
        value
    };
    if signed > 0x7fff_ffff_ffff_ffff {
        return Err(invalid_int_text(s));
    }
    Ok(signed as i64)
}

fn parse_end(s: &[char]) -> (r: Result<Option<i64>, String>)
    ensures
        match r {
            Ok(v) => end_of(s@) == Ok::<Option<i64>, Seq<char>>(v),
            Err(m) => end_of(s@) == Err::<Option<i64>, Seq<char>>(m@),
        },
{
    if s.len() == 0 {
        Ok(None)
    } else {
        match parse_int(s) {
            Ok(i) => Ok(Some(i)),
            Err(m) => Err(m),
        }
    }
}

pub fn parse_expr(tok: &[char]) -> (r: Result<Expr, String>)
    ensures
        match r {
            Ok(x) => expr_of(tok@) == Ok::<Expr, Seq<char>>(x),
            Err(m) => expr_of(tok@) == Err::<Expr, Seq<char>>(m@),
        },
{
    let t = trim_chars(tok);
    if t.len() == 0 {
        return Err("empty index expression".to_owned());
    }
    let colon = find_char(t, ':');
    if colon < t.len() {
        let lhs = slice_subrange(t, 0, colon);
        let rhs = slice_subrange(t, colon + 1, t.len());
        proof {
            assert(lhs@ =~= t@.take(colon as int));
            assert(rhs@ =~= t@.skip(colon + 1));
        }
        match parse_end(lhs) {
            Err(m) => Err(m),
            Ok(start) => match parse_end(rhs) {
                Err(m) => Err(m),
                Ok(end) => Ok(Expr::Range(start, end)),
            },
        }
    } else {
        match parse_int(t) {
            Err(m) => Err(m),
            Ok(i) => Ok(Expr::Single(i)),
        }
    }
}

proof fn lemma_first_parse_error(tokens: Seq<Seq<char>>, k: int)
    requires
        0 <= k <= tokens.len(),
        exprs_of(tokens.take(k)) is Err,
    ensures
        exprs_of(tokens) == exprs_of(tokens.take(k)),
    decreases tokens.len(),
{
    if k < tokens.len() {
        assert(tokens.drop_last().take(k) =~= tokens.take(k));
        lemma_first_parse_error(tokens.drop_last(), k);
    } else {
        assert(tokens.take(k) =~= tokens);
    }
}

pub fn parse(raw: &str) -> (r: Result<Vec<Expr>, String>)
    ensures
        match r {
            Ok(xs) => parsed(raw@) == Ok::<Seq<Expr>, Seq<char>>(xs@),
            Err(m) => parsed(raw@) == Err::<Seq<Expr>, Seq<char>>(m@),
        },
{
    let chars = chars_of(raw);
    if trim_chars(chars.as_slice()).len() == 0 {
        return Err("--indices must not be empty".to_owned());
    }
    let tokens = split_chars(chars.as_slice(), ',');
    let mut out: Vec<Expr> = Vec::new();
    let mut i: usize = 0;
    let ghost all = views(tokens@);
    while i < tokens.len()
        invariant
            i <= tokens@.len(),
            all == views(tokens@),
            exprs_of(all.take(i as int)) == Ok::<Seq<Expr>, Seq<char>>(out@),
            parsed(raw@) == exprs_of(all),
        decreases tokens@.len() - i,
    {
        proof {
            assert(all.take(i + 1).drop_last() =~= all.take(i as int));
            assert(all.take(i + 1).last() == tokens@[i as int]@);
        }
        match parse_expr(tokens[i].as_slice()) {
            Ok(x) => out.push(x),
            Err(m) => {
                proof {
                    lemma_first_parse_error(all, i + 1);
                }
                return Err(m);
            },
        }
        i += 1;
    }
    proof {
        assert(all.take(tokens@.len() as int) =~= all);
    }
    Ok(out)
}

// ---------- resolving ----------

pub fn resolve_single(i: i64, rowcount: u64) -> (r: Result<u64, Error>)
    ensures
        r == row_of(i, rowcount),
{
    if rowcount > i64::MAX as u64 {
        return Err(Error::IndexOutOfRange { index: i, rowcount });
    }
    let rc: i64 = rowcount as i64;
    let resolved: i64 = if i < 0 {
        rc + i
    } else {
        i
    };
    if resolved < 0 || resolved >= rc {
        return Err(Error::IndexOutOfRange { index: i, rowcount });
    }
    Ok(resolved as u64)
}

/// Resolve one row index, counting from the end where it is negative.
pub fn resolve_index(index: i64, rowcount: u64) -> (r: Result<u64, Error>)
    ensures
        r == row_of(index, rowcount),
{
    resolve_single(index, rowcount)
}

fn resolve_expr(x: Expr, rowcount: u64) -> (r: Result<Vec<u64>, Error>)
    requires
        rowcount <= i64::MAX,
    ensures
        match r {
            Ok(v) => rows_of(x, rowcount) == Ok::<Seq<u64>, Error>(v@),
            Err(e) => rows_of(x, rowcount) == Err::<Seq<u64>, Error>(e),
        },
{
    match x {
        Expr::Single(i) => {
            match resolve_single(i, rowcount) {
                Ok(row) => {
                    let mut v: Vec<u64> = Vec::new();
                    v.push(row);
                    proof {
                        assert(v@ =~= seq![row]);
                    }
                    Ok(v)
                },
                Err(e) => Err(e),
            }
        },
        Expr::Range(start, end) => {
            if rowcount == 0 {
                let index: i64 = match start {
                    Some(i) => i,
                    None => match end {
                        Some(i) => i,
                        None => 0,
                    },
                };
                return Err(Error::IndexOutOfRange { index, rowcount });
            }
            let a: i64 = match start {
                Some(i) => i,
                None => 0,
            };
            let b: i64 = match end {
                Some(i) => i,
                None => rowcount as i64 - 1,
            };
            let s: u64 = match resolve_single(a, rowcount) {
                Ok(row) => row,
                Err(e) => return Err(e),
            };
            let e: u64 = match resolve_single(b, rowcount) {
                Ok(row) => row,
                Err(e) => return Err(e),
            };
            if s > e {
                return Err(Error::EmptyRange { start: a, end: b });
            }
            let mut v: Vec<u64> = Vec::new();
            let mut row: u64 = s;
            while row <= e
                invariant
                    s <= row <= e + 1,
                    e < rowcount,
                    rowcount <= i64::MAX,
                    v@ =~= Seq::new((row - s) as nat, |k: int| (s + k) as u64),
                decreases e + 1 - row,
            {
                v.push(row);
                row += 1;
            }
            proof {
                assert(v@ =~= span(s, e));
            }
            Ok(v)
        },
    }
}

proof fn lemma_first_error(xs: Seq<Expr>, rowcount: u64, k: int)
    requires
        0 <= k <= xs.len(),
        all_rows(xs.take(k), rowcount) is Err,
    ensures
        all_rows(xs, rowcount) == all_rows(xs.take(k), rowcount),
    decreases xs.len(),
{
    if k < xs.len() {
        assert(xs.drop_last().take(k) =~= xs.take(k));
        lemma_first_error(xs.drop_last(), rowcount, k);
    } else {
        assert(xs.take(k) =~= xs);
    }
}

/// Parse `--indices` and expand it against the number of rows of the dataset.
pub fn resolve(raw: &str, rowcount: u64) -> (r: Result<Vec<u64>, Error>)
    ensures
        match parsed(raw@) {
            Err(m) => r matches Err(Error::IndexParse(s)) && s@ == m,
            Ok(xs) => if rowcount > i64::MAX {
                r == Err::<Vec<u64>, Error>(Error::IndexOutOfRange { index: 0, rowcount })
            } else {
                match all_rows(xs, rowcount) {
                    Ok(v) => r matches Ok(rows) && rows@ == v,
                    Err(e) => r == Err::<Vec<u64>, Error>(e),
                }
            },
        },
{
    let exprs = match parse(raw) {
        Ok(xs) => xs,
        Err(m) => return Err(Error::IndexParse(m)),
    };
    if rowcount > i64::MAX as u64 {
        return Err(Error::IndexOutOfRange { index: 0, rowcount });
    }
    let mut out: Vec<u64> = Vec::new();
    let mut i: usize = 0;
    while i < exprs.len()
        invariant
            i <= exprs@.len(),
            rowcount <= i64::MAX,
            parsed(raw@) == Ok::<Seq<Expr>, Seq<char>>(exprs@),
            all_rows(exprs@.take(i as int), rowcount) == Ok::<Seq<u64>, Error>(out@),
        decreases exprs@.len() - i,
    {
        proof {
            assert(exprs@.take(i + 1).drop_last() =~= exprs@.take(i as int));
            assert(exprs@.take(i + 1).last() == exprs@[i as int]);
        }
        match resolve_expr(exprs[i], rowcount) {
            Ok(mut rows) => {
                out.append(&mut rows);
            },
            Err(e) => {
                proof {
                    lemma_first_error(exprs@, rowcount, i + 1);
                }
                return Err(e);
            },
        }
        i += 1;
    }
    proof {
        assert(exprs@.take(exprs@.len() as int) =~= exprs@);
    }
    Ok(out)
}

// ---------- laws ----------

/// Every row that a list of expressions addresses lies in the dataset.
pub proof fn law_rows_in_range(xs: Seq<Expr>, rowcount: u64)
    ensures
        all_rows(xs, rowcount) matches Ok(v) ==> forall|k: int|
            0 <= k < v.len() ==> #[trigger] v[k] < rowcount,
    decreases xs.len(),
{
    if xs.len() > 0 {
        law_rows_in_range(xs.drop_last(), rowcount);
        match (all_rows(xs.drop_last(), rowcount), rows_of(xs.last(), rowcount)) {
            (Ok(v), Ok(w)) => {
                assert forall|k: int| 0 <= k < (v + w).len() implies #[trigger] (v + w)[k]
                    < rowcount by {
                    if k >= v.len() {
                        assert((v + w)[k] == w[k - v.len()]);
                    }
                }
            },
            _ => {},
        }
    }
}

/// Order is preserved and duplicates are kept: the rows of two lists written one
/// after another are the rows of the first followed by those of the second.
pub proof fn law_order_preserved(xs: Seq<Expr>, ys: Seq<Expr>, rowcount: u64)
    ensures
        match (all_rows(xs, rowcount), all_rows(ys, rowcount)) {
            (Ok(v), Ok(w)) => all_rows(xs + ys, rowcount) == Ok::<Seq<u64>, Error>(v + w),
            (Err(e), _) => all_rows(xs + ys, rowcount) == Err::<Seq<u64>, Error>(e),
            (_, Err(e)) => all_rows(xs + ys, rowcount) == Err::<Seq<u64>, Error>(e),
        },
    decreases ys.len(),
{
    if ys.len() == 0 {
        assert(xs + ys =~= xs);
        match all_rows(xs, rowcount) {
            Ok(v) => {
                assert(v + Seq::<u64>::empty() =~= v);
            },
            _ => {},
        }
    } else {
        law_order_preserved(xs, ys.drop_last(), rowcount);
        assert((xs + ys).drop_last() =~= xs + ys.drop_last());
        match (all_rows(xs, rowcount), all_rows(ys.drop_last(), rowcount), rows_of(
            ys.last(),
            rowcount,
        )) {
            (Ok(u), Ok(v), Ok(w)) => {
                assert(u + v + w =~= u + (v + w));
            },
            _ => {},
        }
    }
}

/// A negative index addresses the same row as the index counted from the start.
pub proof fn law_negative_counts_from_end(i: i64, rowcount: u64)
    requires
        i < 0,
        -rowcount <= i,
        rowcount <= i64::MAX,
    ensures
        row_of(i, rowcount) == row_of((rowcount + i) as i64, rowcount),
        row_of(i, rowcount) is Ok,
{
}

/// `:` addresses the entire dataset, every row once and in order.
pub proof fn law_open_range_is_everything(rowcount: u64)
    requires
        0 < rowcount <= i64::MAX,
    ensures
        rows_of(Expr::Range(None, None), rowcount) == Ok::<Seq<u64>, Error>(
            Seq::new(rowcount as nat, |k: int| k as u64),
        ),
{
    assert(span(0, (rowcount - 1) as u64) =~= Seq::new(rowcount as nat, |k: int| k as u64));
}

/// `a:b` addresses the rows from `a` to `b`, both of them among the rows.
pub proof fn law_range_includes_both_ends(a: i64, b: i64, rowcount: u64)
    requires
        0 <= a <= b < rowcount <= i64::MAX,
    ensures
        rows_of(Expr::Range(Some(a), Some(b)), rowcount) == Ok::<Seq<u64>, Error>(
            Seq::new((b - a + 1) as nat, |k: int| (a + k) as u64),
        ),
{
    assert(span(a as u64, b as u64) =~= Seq::new((b - a + 1) as nat, |k: int| (a + k) as u64));
}

} // verus!
