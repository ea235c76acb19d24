//! Quoted texts, read back.
use vstd::prelude::*;

use crate::json::{array, escaped, escapes, hex, object, quoted};
use crate::laws::cells::hex_value;
use crate::output::csv::{doubled, field_text, line, needs_quotes, record, special};
use crate::text::join;

verus! {

// ---------- JSON ----------

/// The character that the escape at the start of a text writes, and the length of
/// the escape; of any other character, itself.
pub open spec fn first_written(s: Seq<char>) -> (int, int) {
    if s[0] != '\\' {
        (s[0] as int, 1)
    } else if s[1] == 'b' {
        (8, 2)
    } else if s[1] == 't' {
        (9, 2)
    } else if s[1] == 'n' {
        (10, 2)
    } else if s[1] == 'f' {
        (12, 2)
    } else if s[1] == 'r' {
        (13, 2)
    } else if s[1] == 'u' {
        (
            ((hex_value(s[2]) * 16 + hex_value(s[3])) * 16 + hex_value(s[4])) * 16 + hex_value(s[5]),
            6,
        )
    } else {
        (s[1] as int, 2)
    }
}

/// True where reading a text as the inside of a JSON string gives `out`.
pub open spec fn reads_as(s: Seq<char>, out: Seq<char>) -> bool
    decreases out.len(),
{
    if out.len() == 0 {
        s.len() == 0
    } else {
        let (code, n) = first_written(s);
        &&& 0 < n <= s.len()
        &&& code == out[0] as int
        &&& reads_as(s.skip(n), out.drop_first())
    }
}

proof fn lemma_escapes_first(s: Seq<char>)
    requires
        s.len() > 0,
    ensures
        escapes(s) == escaped(s[0]) + escapes(s.drop_first()),
    decreases s.len(),
{
    if s.len() > 1 {
        lemma_escapes_first(s.drop_last());
        assert(s.drop_last().drop_first() =~= s.drop_first().drop_last());
        assert(escapes(s) =~= escaped(s[0]) + escapes(s.drop_first()));
    } else {
        reveal_with_fuel(escapes, 2);
        assert(s.drop_last() =~= Seq::empty());
        assert(s.drop_first() =~= Seq::empty());
        assert(escapes(s) =~= escaped(s[0]) + escapes(s.drop_first()));
    }
}

proof fn lemma_hex_digit(d: int)
    requires
        0 <= d < 16,
    ensures
        hex_value(hex(d)) == d,
{
    if d < 10 {
        assert((48 + d) as char as int == 48 + d);
    } else {
        assert((87 + d) as char as int == 87 + d);
    }
}

proof fn lemma_first_escape(c: char, rest: Seq<char>)
    ensures
        first_written(escaped(c) + rest) == (c as int, escaped(c).len() as int),
{
    let e = escaped(c);
    let all = e + rest;
    let n = c as int;
    assert(all[0] == e[0]);
    if e.len() > 1 {
        assert(all[1] == e[1]);
    }
    if e.len() == 6 {
        assert(0 <= n < 0x20);
        assert(all[2] == '0' && all[3] == '0');
        assert(all[4] == hex(n / 16) && all[5] == hex(n % 16));
        lemma_hex_digit(n / 16);
        lemma_hex_digit(n % 16);
    }
}

proof fn lemma_escape_is_printable(c: char, i: int)
    requires
        0 <= i < escaped(c).len(),
    ensures
        escaped(c)[i] as int >= 0x20,
{
    let n = c as int;
    if escaped(c).len() == 6 {
        assert(0 <= n < 0x20);
        lemma_hex_digit(n / 16);
        lemma_hex_digit(n % 16);
    }
}

/// A quoted text reads back as the text: between the quotes, every escape stands for
/// the character that it was written for. Nothing inside is a control character, and
/// a quote or a backslash stands there only as part of an escape.
pub proof fn law_quoted_text_reads_back(s: Seq<char>)
    ensures
        quoted(s).len() >= 2,
        quoted(s)[0] == '"',
        quoted(s).last() == '"',
        quoted(s).subrange(1, quoted(s).len() - 1) == escapes(s),
        reads_as(escapes(s), s),
        forall|i: int| 0 <= i < escapes(s).len() ==> (#[trigger] escapes(s)[i]) as int >= 0x20,
    decreases s.len(),
{
    assert(quoted(s).subrange(1, quoted(s).len() - 1) =~= escapes(s));
    if s.len() > 0 {
        lemma_escapes_first(s);
        let rest = s.drop_first();
        law_quoted_text_reads_back(rest);
        let e = escaped(s[0]);
        let all = escapes(s);
        assert(all.skip(e.len() as int) =~= escapes(rest));
        lemma_first_escape(s[0], escapes(rest));
        assert forall|i: int| 0 <= i < all.len() implies (#[trigger] all[i]) as int >= 0x20 by {
            if i < e.len() {
                assert(all[i] == e[i]);
                lemma_escape_is_printable(s[0], i);
            } else {
                assert(all[i] == escapes(rest)[i - e.len()]);
            }
        }
    }
}

/// Different texts are quoted differently.
pub proof fn law_quoting_is_lossless(a: Seq<char>, b: Seq<char>)
    requires
        quoted(a) == quoted(b),
    ensures
        a == b,
{
    law_quoted_text_reads_back(a);
    law_quoted_text_reads_back(b);
    assert(escapes(a) == escapes(b));
    lemma_one_reading(escapes(a), a, b);
}

proof fn lemma_one_reading(s: Seq<char>, a: Seq<char>, b: Seq<char>)
    requires
        reads_as(s, a),
        reads_as(s, b),
    ensures
        a == b,
    decreases a.len(),
{
    if a.len() == 0 {
        if b.len() > 0 {
            assert(s.len() == 0);
        }
        assert(a =~= b);
    } else {
        if b.len() == 0 {
            assert(s.len() == 0);
        }
        let n = first_written(s).1;
        lemma_one_reading(s.skip(n), a.drop_first(), b.drop_first());
        assert(a[0] == b[0]);
        assert(a =~= seq![a[0]] + a.drop_first());
        assert(b =~= seq![b[0]] + b.drop_first());
    }
}

/// A list is written in brackets and an object in braces, with commas between the
/// items; and a member is its quoted key, a colon and its value.
pub proof fn law_arrays_and_objects_are_bracketed(
    items: Seq<Seq<char>>,
    members: Seq<(Seq<char>, Seq<char>)>,
)
    ensures
        array(items) == seq!['['] + join(items, seq![',']) + seq![']'],
        object(members) == seq!['{'] + join(
            Seq::new(members.len(), |i: int| quoted(members[i].0) + seq![':'] + members[i].1),
            seq![','],
        ) + seq!['}'],
{
    reveal_strlit("[");
    reveal_strlit("]");
    reveal_strlit("{");
    reveal_strlit("}");
    reveal_strlit(",");
    reveal_strlit(":");
    assert(","@ =~= seq![',']);
    assert(":"@ =~= seq![':']);
    assert("["@ =~= seq!['[']);
    assert("]"@ =~= seq![']']);
    assert("{"@ =~= seq!['{']);
    assert("}"@ =~= seq!['}']);
    let texts = Seq::new(members.len(), |i: int| quoted(members[i].0) + seq![':'] + members[i].1);
    assert(members.map_values(
        |m: (Seq<char>, Seq<char>)| crate::json::member(m.0, m.1),
    ) =~= texts);
}

// ---------- joined texts ----------

/// Joined texts are the first, the separator and the rest joined.
pub proof fn law_joined_texts_stand_in_order(parts: Seq<Seq<char>>, sep: Seq<char>)
    ensures
        parts.len() == 0 ==> join(parts, sep) == Seq::<char>::empty(),
        parts.len() == 1 ==> join(parts, sep) == parts[0],
        parts.len() > 1 ==> join(parts, sep) == parts[0] + sep + join(parts.drop_first(), sep),
    decreases parts.len(),
{
    if parts.len() == 2 {
        reveal_with_fuel(join, 2);
        assert(parts.drop_last()[0] == parts[0]);
        assert(parts.drop_first()[0] == parts[1]);
    } else if parts.len() > 2 {
        let init = parts.drop_last();
        law_joined_texts_stand_in_order(init, sep);
        assert(init.drop_first() =~= parts.drop_first().drop_last());
        assert(join(parts, sep) =~= parts[0] + sep + join(parts.drop_first(), sep));
    }
}

// ---------- CSV ----------

/// What the inside of a quoted field reads as, and what stands behind its quote.
pub open spec fn read_quoted(s: Seq<char>) -> (Seq<char>, Seq<char>)
    decreases s.len(),
{
    if s.len() == 0 {
        (Seq::empty(), Seq::empty())
    } else if s[0] != '"' {
        let (value, rest) = read_quoted(s.skip(1));
        (seq![s[0]] + value, rest)
    } else if s.len() > 1 && s[1] == '"' {
        let (value, rest) = read_quoted(s.skip(2));
        (seq!['"'] + value, rest)
    } else {
        (Seq::empty(), s.skip(1))
    }
}

/// What an unquoted field reads as, up to a comma, and what stands there.
pub open spec fn read_bare(s: Seq<char>) -> (Seq<char>, Seq<char>)
    decreases s.len(),
{
    if s.len() == 0 || s[0] == ',' {
        (Seq::empty(), s)
    } else {
        let (value, rest) = read_bare(s.skip(1));
        (seq![s[0]] + value, rest)
    }
}

/// What the first field of a line reads as, and what stands behind it.
pub open spec fn read_field(s: Seq<char>) -> (Seq<char>, Seq<char>) {
    if s.len() > 0 && s[0] == '"' {
        read_quoted(s.skip(1))
    } else {
        read_bare(s)
    }
}

/// True where a line reads as these fields.
pub open spec fn line_reads_as(s: Seq<char>, fields: Seq<Seq<char>>) -> bool
    decreases fields.len(),
{
    if fields.len() == 0 {
        false
    } else {
        let (value, rest) = read_field(s);
        &&& value == fields[0]
        &&& if fields.len() == 1 {
            rest.len() == 0
        } else {
            rest.len() > 0 && rest[0] == ',' && line_reads_as(rest.skip(1), fields.drop_first())
        }
    }
}

proof fn lemma_doubled_first(s: Seq<char>)
    requires
        s.len() > 0,
    ensures
        s[0] == '"' ==> doubled(s) == seq!['"', '"'] + doubled(s.drop_first()),
        s[0] != '"' ==> doubled(s) == seq![s[0]] + doubled(s.drop_first()),
    decreases s.len(),
{
    if s.len() > 1 {
        lemma_doubled_first(s.drop_last());
        assert(s.drop_last().drop_first() =~= s.drop_first().drop_last());
        if s[0] == '"' {
            assert(doubled(s) =~= seq!['"', '"'] + doubled(s.drop_first()));
        } else {
            assert(doubled(s) =~= seq![s[0]] + doubled(s.drop_first()));
        }
    } else {
        reveal_with_fuel(doubled, 2);
        assert(s.drop_last() =~= Seq::empty());
        assert(s.drop_first() =~= Seq::empty());
        if s[0] == '"' {
            assert(doubled(s) =~= seq!['"', '"'] + doubled(s.drop_first()));
        } else {
            assert(doubled(s) =~= seq![s[0]] + doubled(s.drop_first()));
        }
    }
}

proof fn lemma_quoted_reads(s: Seq<char>, rest: Seq<char>)
    requires
        rest.len() == 0 || rest[0] != '"',
    ensures
        read_quoted(doubled(s) + seq!['"'] + rest) == (s, rest),
    decreases s.len(),
{
    let all = doubled(s) + seq!['"'] + rest;
    if s.len() == 0 {
        assert(all.skip(1) =~= rest);
        assert(all[0] == '"');
        assert(all.len() > 1 ==> all[1] == rest[0]);
        assert(s =~= Seq::empty());
    } else {
        lemma_doubled_first(s);
        let tail = s.drop_first();
        lemma_quoted_reads(tail, rest);
        let inner = doubled(tail) + seq!['"'] + rest;
        if s[0] == '"' {
            assert(all.skip(2) =~= inner);
            assert(all[0] == '"' && all[1] == '"');
            assert(seq!['"'] + tail =~= s);
        } else {
            assert(all.skip(1) =~= inner);
            assert(all[0] == s[0]);
            assert(seq![s[0]] + tail =~= s);
        }
    }
}

proof fn lemma_bare_reads(s: Seq<char>, rest: Seq<char>)
    requires
        forall|i: int| 0 <= i < s.len() ==> #[trigger] s[i] != ',',
        rest.len() == 0 || rest[0] == ',',
    ensures
        read_bare(s + rest) == (s, rest),
    decreases s.len(),
{
    let all = s + rest;
    if s.len() == 0 {
        assert(all =~= rest);
        assert(s =~= Seq::empty());
    } else {
        let tail = s.drop_first();
        assert forall|i: int| 0 <= i < tail.len() implies #[trigger] tail[i] != ',' by {
            assert(s[i + 1] != ',');
        }
        lemma_bare_reads(tail, rest);
        assert(all.skip(1) =~= tail + rest);
        assert(all[0] == s[0] && s[0] != ',');
        assert(seq![s[0]] + tail =~= s);
    }
}

proof fn lemma_field_reads(s: Seq<char>, rest: Seq<char>)
    requires
        rest.len() == 0 || rest[0] == ',',
    ensures
        read_field(field_text(s) + rest) == (s, rest),
{
    let all = field_text(s) + rest;
    if needs_quotes(s) {
        assert(all.skip(1) =~= doubled(s) + seq!['"'] + rest);
        lemma_quoted_reads(s, rest);
    } else {
        assert forall|i: int| 0 <= i < s.len() implies #[trigger] s[i] != ',' by {
            assert(!special(s[i]));
        }
        if s.len() > 0 {
            assert(!special(s[0]));
            assert(all[0] == s[0]);
        } else {
            assert(all =~= rest);
        }
        lemma_bare_reads(s, rest);
    }
}

/// A line reads back as its fields, whatever they hold: commas, quotes and line
/// breaks included.
pub proof fn law_csv_line_reads_back(fields: Seq<Seq<char>>)
    requires
        fields.len() > 0,
    ensures
        line_reads_as(line(fields), fields),
    decreases fields.len(),
{
    let shown = fields.map_values(|f: Seq<char>| field_text(f));
    law_joined_texts_stand_in_order(shown, ","@);
    reveal_strlit(",");
    if fields.len() == 1 {
        assert(field_text(fields[0]) + Seq::<char>::empty() =~= field_text(fields[0]));
        lemma_field_reads(fields[0], Seq::empty());
    } else {
        let tail = fields.drop_first();
        law_csv_line_reads_back(tail);
        assert(shown.drop_first() =~= tail.map_values(|f: Seq<char>| field_text(f)));
        let rest = ","@ + line(tail);
        assert(line(fields) =~= field_text(fields[0]) + rest);
        lemma_field_reads(fields[0], rest);
        assert(rest.skip(1) =~= line(tail));
    }
}

/// A record is its line and a line feed. One empty field alone is written as a pair
/// of quotes, so that no record is an empty line.
pub proof fn law_csv_records_end_their_line(fields: Seq<Seq<char>>)
    ensures
        record(fields).len() > 1,
        record(fields).last() == '\n',
        line(fields).len() > 0 ==> record(fields).drop_last() == line(fields),
        line(fields).len() == 0 ==> record(fields).drop_last() == seq!['"', '"'],
        fields.len() == 1 && fields[0].len() == 0 ==> line_reads_as(
            record(fields).drop_last(),
            fields,
        ),
{
    reveal_strlit("\n");
    reveal_strlit("\"\"\n");
    if line(fields).len() > 0 {
        assert(record(fields).drop_last() =~= line(fields));
    } else {
        assert(record(fields).drop_last() =~= seq!['"', '"']);
    }
    if fields.len() == 1 && fields[0].len() == 0 {
        let shown = fields.map_values(|f: Seq<char>| field_text(f));
        law_joined_texts_stand_in_order(shown, ","@);
        assert(!needs_quotes(fields[0]));
        assert(line(fields).len() == 0);
        let s = record(fields).drop_last();
        assert(s.skip(1) =~= seq!['"']);
        assert(s.skip(1).skip(1) =~= Seq::empty());
        assert(fields[0] =~= Seq::empty());
    }
}

/// A field without commas, quotes or line breaks stands as it is.
pub proof fn law_plain_fields_stand_as_they_are(s: Seq<char>)
    requires
        !s.contains(','),
        !s.contains('"'),
        !s.contains('\r'),
        !s.contains('\n'),
    ensures
        field_text(s) == s,
{
    if needs_quotes(s) {
        let i = choose|i: int| 0 <= i < s.len() && special(#[trigger] s[i]);
        assert(s.contains(s[i]));
    }
}

/// No line break of a field stands outside quotes.
pub proof fn law_breaks_are_quoted(s: Seq<char>)
    requires
        s.contains('\n') || s.contains('\r') || s.contains(',') || s.contains('"'),
    ensures
        field_text(s).len() >= 2,
        field_text(s)[0] == '"',
        field_text(s).last() == '"',
{
    assert(needs_quotes(s)) by {
        if s.contains('\n') {
            let i = choose|i: int| 0 <= i < s.len() && s[i] == '\n';
            assert(special(s[i]));
        } else if s.contains('\r') {
            let i = choose|i: int| 0 <= i < s.len() && s[i] == '\r';
            assert(special(s[i]));
        } else if s.contains(',') {
            let i = choose|i: int| 0 <= i < s.len() && s[i] == ',';
            assert(special(s[i]));
        } else {
            let i = choose|i: int| 0 <= i < s.len() && s[i] == '"';
            assert(special(s[i]));
        }
    }
}

} // verus!
