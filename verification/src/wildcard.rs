//! Shell-style matching of column names.
use vstd::prelude::*;

use crate::text::chars_of;

verus! {

/// True when `text` matches `pattern`, in which `*` stands for any run of
/// characters (including none) and `?` for exactly one.
pub open spec fn glob(pattern: Seq<char>, text: Seq<char>) -> bool
    decreases pattern.len() + text.len(),
{
    if pattern.len() == 0 {
        text.len() == 0
    } else if pattern[0] == '*' {
        glob(pattern.drop_first(), text) || (text.len() > 0 && glob(pattern, text.drop_first()))
    } else {
        text.len() > 0 && (pattern[0] == '?' || pattern[0] == text[0]) && glob(
            pattern.drop_first(),
            text.drop_first(),
        )
    }
}

/// A pattern without wildcards matches exactly itself.
pub proof fn law_literal_matches_itself(pattern: Seq<char>, text: Seq<char>)
    requires
        !pattern.contains('*'),
        !pattern.contains('?'),
    ensures
        glob(pattern, text) <==> pattern == text,
    decreases pattern.len(),
{
    if pattern.len() == 0 {
        assert(glob(pattern, text) == (text =~= pattern));
    } else {
        let rest = pattern.drop_first();
        assert(pattern.contains(pattern[0]));
        assert forall|c: char| rest.contains(c) implies pattern.contains(c) by {
            let i = choose|i: int| 0 <= i < rest.len() && rest[i] == c;
            assert(pattern[i + 1] == c);
        }
        if text.len() > 0 {
            law_literal_matches_itself(rest, text.drop_first());
            assert(pattern =~= seq![pattern[0]] + rest);
            assert(text =~= seq![text[0]] + text.drop_first());
        }
    }
}

/// A leading star takes any prefix of the text.
pub proof fn law_star_takes_any_prefix(pattern: Seq<char>, text: Seq<char>)
    requires
        pattern.len() > 0,
        pattern[0] == '*',
    ensures
        glob(pattern, text) <==> exists|k: int|
            0 <= k <= text.len() && glob(pattern.drop_first(), #[trigger] text.skip(k)),
    decreases text.len(),
{
    let rest = pattern.drop_first();
    if glob(rest, text) {
        assert(text.skip(0) =~= text);
        assert(glob(rest, text.skip(0)));
    }
    if text.len() > 0 {
        law_star_takes_any_prefix(pattern, text.drop_first());
        if glob(pattern, text.drop_first()) {
            let k = choose|k: int|
                0 <= k <= text.len() - 1 && glob(rest, #[trigger] text.drop_first().skip(k));
            assert(text.drop_first().skip(k) =~= text.skip(k + 1));
            assert(glob(rest, text.skip(k + 1)));
        }
    }
    if exists|k: int| 0 <= k <= text.len() && glob(rest, #[trigger] text.skip(k)) {
        let k = choose|k: int| 0 <= k <= text.len() && glob(rest, #[trigger] text.skip(k));
        if k == 0 {
            assert(text.skip(0) =~= text);
        } else {
            assert(text.drop_first().skip(k - 1) =~= text.skip(k));
            assert(glob(rest, text.drop_first().skip(k - 1)));
        }
    }
}

/// A leading star that matches a tail of the text matches every longer tail.
proof fn lemma_star_absorbs(pattern: Seq<char>, text: Seq<char>, a: int, b: int)
    requires
        pattern.len() > 0,
        pattern[0] == '*',
        0 <= a <= b <= text.len(),
        glob(pattern, text.skip(b)),
    ensures
        glob(pattern, text.skip(a)),
    decreases b - a,
{
    if a < b {
        lemma_star_absorbs(pattern, text, a + 1, b);
        assert(text.skip(a).drop_first() =~= text.skip(a + 1));
    }
}

/// The first `n` characters of a pattern, where none is a star, take `n`
/// characters of the text.
proof fn lemma_segment(pattern: Seq<char>, text: Seq<char>, n: int)
    requires
        0 <= n <= pattern.len(),
        forall|i: int| 0 <= i < n ==> #[trigger] pattern[i] != '*',
        glob(pattern, text),
    ensures
        n <= text.len(),
        glob(pattern.skip(n), text.skip(n)),
    decreases n,
{
    if n == 0 {
        assert(pattern.skip(0) =~= pattern);
        assert(text.skip(0) =~= text);
    } else {
        assert(pattern[0] != '*');
        assert forall|i: int| 0 <= i < n - 1 implies #[trigger] pattern.drop_first()[i] != '*' by {
            assert(pattern[i + 1] != '*');
        }
        lemma_segment(pattern.drop_first(), text.drop_first(), n - 1);
        assert(pattern.drop_first().skip(n - 1) =~= pattern.skip(n));
        assert(text.drop_first().skip(n - 1) =~= text.skip(n));
    }
}

/// With a star at `s` and a starless segment behind it up to `pi`, a match of the
/// star from `mark + 1` on puts the segment's end behind `mark + (pi - s - 1)`.
proof fn lemma_later_start(p: Seq<char>, t: Seq<char>, s: int, pi: int, mark: int)
    requires
        0 <= s < pi <= p.len(),
        p[s] == '*',
        forall|i: int| s < i < pi ==> #[trigger] p[i] != '*',
        0 <= mark < t.len(),
        glob(p.skip(s), t.skip(mark + 1)),
    ensures
        exists|j: int|
            mark + 1 + (pi - s - 1) <= j <= t.len() && glob(p.skip(pi), #[trigger] t.skip(j)),
{
    let q = p.skip(s);
    let u = t.skip(mark + 1);
    law_star_takes_any_prefix(q, u);
    let k = choose|k: int| 0 <= k <= u.len() && glob(q.drop_first(), #[trigger] u.skip(k));
    let n = pi - s - 1;
    assert(q.drop_first() =~= p.skip(s + 1));
    assert forall|i: int| 0 <= i < n implies #[trigger] p.skip(s + 1)[i] != '*' by {
        assert(p[s + 1 + i] != '*');
    }
    lemma_segment(p.skip(s + 1), u.skip(k), n);
    assert(p.skip(s + 1).skip(n) =~= p.skip(pi));
    assert(u.skip(k).skip(n) =~= t.skip(mark + 1 + k + n));
    assert(glob(p.skip(pi), t.skip(mark + 1 + k + n)));
}

/// Match `text` against a shell-style glob `pattern` supporting `*` (any run of
/// characters, including none) and `?` (exactly one character).
///
/// Two pointers walk the pattern and the text; a mismatch goes back to the last
/// `*`, which then takes one character more.
pub fn wildcard_match(pattern: &str, text: &str) -> (r: bool)
    ensures
        r == glob(pattern@, text@),
{
    let p = chars_of(pattern);
    let t = chars_of(text);
    let mut pi: usize = 0;
    let mut ti: usize = 0;
    let mut star: Option<usize> = None;
    let mut mark: usize = 0;
    proof {
        assert(p@.skip(0) =~= p@);
        assert(t@.skip(0) =~= t@);
    }
    while ti < t.len()
        invariant
            p@ == pattern@,
            t@ == text@,
            pi <= p@.len(),
            ti <= t@.len(),
            mark <= ti,
            star matches Some(s) ==> s < pi && p@[s as int] == '*' && pi - s - 1 == ti - mark
                && forall|i: int| s < i < pi ==> #[trigger] p@[i] != '*',
            glob(p@, t@) <==> (glob(p@.skip(pi as int), t@.skip(ti as int)) || (star is Some && mark
                < t@.len() && glob(p@.skip(star->Some_0 as int), t@.skip(mark + 1)))),
        decreases t@.len() - mark, (p@.len() - pi) + (t@.len() - ti),
    {
        let ghost rest_p = p@.skip(pi as int);
        let ghost rest_t = t@.skip(ti as int);
        proof {
            assert(rest_t[0] == t@[ti as int]);
            assert(rest_t.drop_first() =~= t@.skip(ti + 1));
            if pi < p@.len() {
                assert(rest_p[0] == p@[pi as int]);
                assert(rest_p.drop_first() =~= p@.skip(pi + 1));
            }
        }
        if pi < p.len() && p[pi] == '*' {
            proof {
                if star is Some && mark < t@.len() && glob(
                    p@.skip(star->Some_0 as int),
                    t@.skip(mark + 1),
                ) {
                    let s = star->Some_0 as int;
                    lemma_later_start(p@, t@, s, pi as int, mark as int);
                    let j = choose|j: int|
                        mark + 1 + (pi - s - 1) <= j <= t@.len() && glob(
                            p@.skip(pi as int),
                            #[trigger] t@.skip(j),
                        );
                    lemma_star_absorbs(rest_p, t@, ti as int, j);
                }
            }
            star = Some(pi);
            mark = ti;
            pi += 1;
        } else if pi < p.len() && (p[pi] == '?' || p[pi] == t[ti]) {
            pi += 1;
            ti += 1;
        } else {
            proof {
                assert(!glob(rest_p, rest_t));
            }
            match star {
                Some(s) => {
                    proof {
                        let q = p@.skip(s as int);
                        let u = t@.skip(mark + 1);
                        assert(q[0] == '*');
                        assert(q.drop_first() =~= p@.skip(s + 1));
                        if mark + 1 < t@.len() {
                            assert(u.drop_first() =~= t@.skip(mark + 2));
                        }
                    }
                    pi = s + 1;
                    mark += 1;
                    ti = mark;
                },
                None => {
                    return false;
                },
            }
        }
    }
    proof {
        if star is Some && mark < t@.len() && glob(
            p@.skip(star->Some_0 as int),
            t@.skip(mark + 1),
        ) {
            lemma_later_start(p@, t@, star->Some_0 as int, pi as int, mark as int);
            assert(false);
        }
    }
    while pi < p.len() && p[pi] == '*'
        invariant
            p@ == pattern@,
            t@ == text@,
            pi <= p@.len(),
            ti == t@.len(),
            glob(p@, t@) <==> glob(p@.skip(pi as int), t@.skip(ti as int)),
        decreases p@.len() - pi,
    {
        proof {
            assert(p@.skip(pi as int).drop_first() =~= p@.skip(pi + 1));
        }
        pi += 1;
    }
    pi == p.len()
}

} // verus!
