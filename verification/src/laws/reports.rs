//! Reports of comparisons: what they say of what was compared.
use vstd::prelude::*;

use crate::commands::diff::{section, signed, DatasetDiffReport};
use crate::commands::diff_common::{
    change_lines, delta_json, delta_lines, pair_lines, triples_of, Delta,
};
use crate::commands::lance::deltas::{FragmentDelta, IndexDelta, RowDelta};
use crate::commands::lance::diff::{
    fragment_object, fragment_section, id_line, id_list, index_object, index_section, name_lines,
    row_object, version_lines, version_object, version_section, DiffReport,
};
use crate::dataset::VersionInfo;
use crate::json::{array, object, opt_view, pairs_of, quoted};
use crate::laws::numbers::{law_sign_is_written, reading};
use crate::laws::rows::run_together;
use crate::output::temporal::{log_time_text, rfc3339_text};
use crate::text::{dec, dec_int, join, texts};

verus! {

/// True where a text says something somewhere.
pub open spec fn says(text: Seq<char>, part: Seq<char>) -> bool {
    exists|a: Seq<char>, b: Seq<char>| text == #[trigger] (a + part + b)
}

/// True of an object with such a member.
pub open spec fn has_member(text: Seq<char>, key: Seq<char>, value: Seq<char>) -> bool {
    exists|members: Seq<(Seq<char>, Seq<char>)>|
        text == object(members) && #[trigger] members.contains((key, value))
}

/// True of an object with these keys, in this order.
pub open spec fn keys_are(text: Seq<char>, keys: Seq<Seq<char>>) -> bool {
    exists|members: Seq<(Seq<char>, Seq<char>)>|
        {
            &&& text == #[trigger] object(members)
            &&& members.len() == keys.len()
            &&& forall|i: int| 0 <= i < members.len() ==> (#[trigger] members[i]).0 == keys[i]
        }
}

proof fn lemma_keys(members: Seq<(Seq<char>, Seq<char>)>, keys: Seq<Seq<char>>)
    requires
        members.len() == keys.len(),
        forall|i: int| 0 <= i < members.len() ==> (#[trigger] members[i]).0 == keys[i],
    ensures
        keys_are(object(members), keys),
{
}

proof fn lemma_says(text: Seq<char>, a: Seq<char>, part: Seq<char>, b: Seq<char>)
    requires
        text =~= a + part + b,
    ensures
        says(text, part),
{
}

proof fn lemma_member(members: Seq<(Seq<char>, Seq<char>)>, i: int)
    requires
        0 <= i < members.len(),
    ensures
        has_member(object(members), members[i].0, members[i].1),
{
    assert(members.contains((members[i].0, members[i].1)));
}

/// A difference is shown with its sign: a plus where it is not below zero.
pub proof fn law_differences_have_a_sign(n: int)
    ensures
        n >= 0 ==> signed(n)[0] == '+',
        n < 0 ==> signed(n)[0] == '-',
        reading(signed(n).drop_first()) == if n < 0 {
            -n
        } else {
            n
        },
{
    law_sign_is_written(n);
    reveal_strlit("+");
    if n >= 0 {
        assert(signed(n).drop_first() =~= dec(n as nat));
    }
}

// ---------- lines of changes ----------

proof fn lemma_pair_line(mark: Seq<char>, pairs: Seq<(Seq<char>, Seq<char>)>, i: int)
    requires
        0 <= i < pairs.len(),
    ensures
        says(pair_lines(mark, pairs), mark + pairs[i].0 + ": "@ + pairs[i].1 + "\n"@),
    decreases pairs.len(),
{
    let part = mark + pairs[i].0 + ": "@ + pairs[i].1 + "\n"@;
    let init = pairs.drop_last();
    if i == pairs.len() - 1 {
        lemma_says(pair_lines(mark, pairs), pair_lines(mark, init), part, Seq::empty());
    } else {
        lemma_pair_line(mark, init, i);
        let (a, b) = choose|a: Seq<char>, b: Seq<char>| pair_lines(mark, init) == #[trigger] (a + part
            + b);
        let last = mark + pairs.last().0 + ": "@ + pairs.last().1 + "\n"@;
        assert(pair_lines(mark, pairs) =~= pair_lines(mark, init) + last);
        lemma_says(pair_lines(mark, pairs), a, part, b + last);
    }
}

proof fn lemma_change_line(triples: Seq<(Seq<char>, Seq<char>, Seq<char>)>, i: int)
    requires
        0 <= i < triples.len(),
    ensures
        says(
            change_lines(triples),
            "  ~ "@ + triples[i].0 + ": "@ + triples[i].1 + " -> "@ + triples[i].2 + "\n"@,
        ),
    decreases triples.len(),
{
    let part = "  ~ "@ + triples[i].0 + ": "@ + triples[i].1 + " -> "@ + triples[i].2 + "\n"@;
    let init = triples.drop_last();
    if i == triples.len() - 1 {
        lemma_says(change_lines(triples), change_lines(init), part, Seq::empty());
    } else {
        lemma_change_line(init, i);
        let (a, b) = choose|a: Seq<char>, b: Seq<char>| change_lines(init) == #[trigger] (a + part
            + b);
        let t = triples.last();
        let last = "  ~ "@ + t.0 + ": "@ + t.1 + " -> "@ + t.2 + "\n"@;
        assert(change_lines(triples) =~= change_lines(init) + last);
        lemma_says(change_lines(triples), a, part, b + last);
    }
}

/// Every change has its line: a plus for what is added, a minus for what is removed,
/// and a tilde with both values for what is changed.
pub proof fn law_every_change_has_its_line(d: Delta, i: int)
    ensures
        0 <= i < d.added@.len() ==> says(
            delta_lines(d),
            "  + "@ + d.added@[i].0@ + ": "@ + d.added@[i].1@ + "\n"@,
        ),
        0 <= i < d.removed@.len() ==> says(
            delta_lines(d),
            "  - "@ + d.removed@[i].0@ + ": "@ + d.removed@[i].1@ + "\n"@,
        ),
        0 <= i < d.changed@.len() ==> says(
            delta_lines(d),
            "  ~ "@ + d.changed@[i].0@ + ": "@ + d.changed@[i].1@ + " -> "@ + d.changed@[i].2@
                + "\n"@,
        ),
{
    let p = pair_lines("  + "@, pairs_of(d.added@));
    let q = pair_lines("  - "@, pairs_of(d.removed@));
    let c = change_lines(triples_of(d.changed@));
    if 0 <= i < d.added@.len() {
        lemma_pair_line("  + "@, pairs_of(d.added@), i);
        let part = "  + "@ + d.added@[i].0@ + ": "@ + d.added@[i].1@ + "\n"@;
        let (a, b) = choose|a: Seq<char>, b: Seq<char>| p == #[trigger] (a + part + b);
        lemma_says(delta_lines(d), a, part, b + q + c);
    }
    if 0 <= i < d.removed@.len() {
        lemma_pair_line("  - "@, pairs_of(d.removed@), i);
        let part = "  - "@ + d.removed@[i].0@ + ": "@ + d.removed@[i].1@ + "\n"@;
        let (a, b) = choose|a: Seq<char>, b: Seq<char>| q == #[trigger] (a + part + b);
        lemma_says(delta_lines(d), p + a, part, b + c);
    }
    if 0 <= i < d.changed@.len() {
        lemma_change_line(triples_of(d.changed@), i);
        let part = "  ~ "@ + d.changed@[i].0@ + ": "@ + d.changed@[i].1@ + " -> "@
            + d.changed@[i].2@ + "\n"@;
        let (a, b) = choose|a: Seq<char>, b: Seq<char>| c == #[trigger] (a + part + b);
        lemma_says(delta_lines(d), p + q + a, part, b);
    }
}

/// A line of a change: its mark, its key and what it says of it.
pub open spec fn line_of(mark: Seq<char>, key: Seq<char>, what: Seq<char>) -> Seq<char> {
    mark + key + ": "@ + what + "\n"@
}

/// The changes stand in order, each on its line: first what is added, then what is
/// removed, then what is changed.
pub proof fn law_changes_stand_in_order(d: Delta)
    ensures
        delta_lines(d) == run_together(
            d.added@.len(),
            |i: int| line_of("  + "@, d.added@[i].0@, d.added@[i].1@),
        ) + run_together(
            d.removed@.len(),
            |i: int| line_of("  - "@, d.removed@[i].0@, d.removed@[i].1@),
        ) + run_together(
            d.changed@.len(),
            |i: int|
                line_of("  ~ "@, d.changed@[i].0@, d.changed@[i].1@ + " -> "@ + d.changed@[i].2@),
        ),
{
    lemma_pair_run("  + "@, pairs_of(d.added@), d.added@, d.added@.len());
    lemma_pair_run("  - "@, pairs_of(d.removed@), d.removed@, d.removed@.len());
    lemma_change_run(triples_of(d.changed@), d.changed@, d.changed@.len());
    assert(pairs_of(d.added@).take(d.added@.len() as int) =~= pairs_of(d.added@));
    assert(pairs_of(d.removed@).take(d.removed@.len() as int) =~= pairs_of(d.removed@));
    assert(triples_of(d.changed@).take(d.changed@.len() as int) =~= triples_of(d.changed@));
}

proof fn lemma_pair_run(
    mark: Seq<char>,
    pairs: Seq<(Seq<char>, Seq<char>)>,
    v: Seq<(String, String)>,
    n: nat,
)
    requires
        pairs == pairs_of(v),
        n <= v.len(),
    ensures
        pair_lines(mark, pairs.take(n as int)) == run_together(
            n,
            |i: int| line_of(mark, v[i].0@, v[i].1@),
        ),
    decreases n,
{
    if n > 0 {
        lemma_pair_run(mark, pairs, v, (n - 1) as nat);
        let t = pairs.take(n as int);
        assert(t.drop_last() =~= pairs.take(n - 1));
        let b = pair_lines(mark, t.drop_last());
        let p = t.last();
        lemma_grow(b, mark, p.0);
        lemma_grow(b, mark + p.0, ": "@);
        lemma_grow(b, mark + p.0 + ": "@, p.1);
        lemma_grow(b, mark + p.0 + ": "@ + p.1, "\n"@);
    }
}

proof fn lemma_change_run(
    triples: Seq<(Seq<char>, Seq<char>, Seq<char>)>,
    v: Seq<(String, String, String)>,
    n: nat,
)
    requires
        triples == triples_of(v),
        n <= v.len(),
    ensures
        change_lines(triples.take(n as int)) == run_together(
            n,
            |i: int| line_of("  ~ "@, v[i].0@, v[i].1@ + " -> "@ + v[i].2@),
        ),
    decreases n,
{
    if n > 0 {
        lemma_change_run(triples, v, (n - 1) as nat);
        let t = triples.take(n as int);
        assert(t.drop_last() =~= triples.take(n - 1));
        let b = change_lines(t.drop_last());
        let p = t.last();
        let k = "  ~ "@ + p.0 + ": "@;
        assert(change_lines(t) =~= b + (k + (p.1 + " -> "@ + p.2) + "\n"@));
    }
}

/// A section names its subject; where nothing changed it says so, and otherwise it
/// lists the changes.
pub proof fn law_sections_list_the_changes(title: Seq<char>, d: Delta)
    ensures
        d.nothing() ==> section(title, d) == title + ": none\n"@,
        !d.nothing() ==> section(title, d) == title + ":\n"@ + delta_lines(d),
{
}

/// The object of a comparison lists what was added, removed and changed, each with
/// its key and its values.
pub proof fn law_delta_object_lists_the_changes(
    d: Delta,
    key: Seq<char>,
    value: Seq<char>,
    label: Seq<char>,
)
    ensures
        keys_are(delta_json(d, key, value, label), seq!["added"@, "removed"@, label]),
        has_member(
            delta_json(d, key, value, label),
            "added"@,
            array(
                Seq::new(
                    d.added@.len(),
                    |i: int|
                        object(
                            seq![(key, quoted(d.added@[i].0@)), (value, quoted(d.added@[i].1@))],
                        ),
                ),
            ),
        ),
        has_member(
            delta_json(d, key, value, label),
            "removed"@,
            array(
                Seq::new(
                    d.removed@.len(),
                    |i: int|
                        object(
                            seq![
                                (key, quoted(d.removed@[i].0@)),
                                (value, quoted(d.removed@[i].1@)),
                            ],
                        ),
                ),
            ),
        ),
        has_member(
            delta_json(d, key, value, label),
            label,
            array(
                Seq::new(
                    d.changed@.len(),
                    |i: int|
                        object(
                            seq![
                                (key, quoted(d.changed@[i].0@)),
                                ("from"@, quoted(d.changed@[i].1@)),
                                ("to"@, quoted(d.changed@[i].2@)),
                            ],
                        ),
                ),
            ),
        ),
{
    let added = pairs_of(d.added@).map_values(
        |p: (Seq<char>, Seq<char>)| crate::commands::diff_common::pair_object(key, value, p),
    );
    let removed = pairs_of(d.removed@).map_values(
        |p: (Seq<char>, Seq<char>)| crate::commands::diff_common::pair_object(key, value, p),
    );
    let changed = triples_of(d.changed@).map_values(
        |t: (Seq<char>, Seq<char>, Seq<char>)|
            crate::commands::diff_common::change_object(key, t),
    );
    assert(added =~= Seq::new(
        d.added@.len(),
        |i: int| object(seq![(key, quoted(d.added@[i].0@)), (value, quoted(d.added@[i].1@))]),
    ));
    assert(removed =~= Seq::new(
        d.removed@.len(),
        |i: int| object(seq![(key, quoted(d.removed@[i].0@)), (value, quoted(d.removed@[i].1@))]),
    ));
    assert(changed =~= Seq::new(
        d.changed@.len(),
        |i: int|
            object(
                seq![
                    (key, quoted(d.changed@[i].0@)),
                    ("from"@, quoted(d.changed@[i].1@)),
                    ("to"@, quoted(d.changed@[i].2@)),
                ],
            ),
    ));
    let m = seq![("added"@, array(added)), ("removed"@, array(removed)), (label, array(changed))];
    assert(delta_json(d, key, value, label) == object(m));
    lemma_keys(m, seq!["added"@, "removed"@, label]);
    lemma_member(m, 0);
    lemma_member(m, 1);
    lemma_member(m, 2);
}

// ---------- two datasets ----------

proof fn lemma_grow(h: Seq<char>, x: Seq<char>, y: Seq<char>)
    ensures
        (h + x) + y == h + (x + y),
{
    assert((h + x) + y =~= h + (x + y));
}

/// The line on the rows of a summary.
pub open spec fn rows_line(from: nat, to: nat) -> Seq<char> {
    "Rows: "@ + dec(from) + " -> "@ + dec(to) + "  (net "@ + signed(to - from)
}

proof fn lemma_rows_line(h: Seq<char>, from: nat, to: nat)
    ensures
        h + "Rows: "@ + dec(from) + " -> "@ + dec(to) + "  (net "@ + signed(to - from) == h
            + rows_line(from, to),
{
    let a = "Rows: "@;
    lemma_grow(h, a, dec(from));
    lemma_grow(h, a + dec(from), " -> "@);
    lemma_grow(h, a + dec(from) + " -> "@, dec(to));
    lemma_grow(h, a + dec(from) + " -> "@ + dec(to), "  (net "@);
    lemma_grow(h, a + dec(from) + " -> "@ + dec(to) + "  (net "@, signed(to - from));
}

/// The summary of two datasets names both. Where they are identical it says that
/// there is no difference; otherwise it gives both row counts with their difference,
/// and the changes of the schema and of the metadata.
#[verifier::rlimit(40)]
pub proof fn law_dataset_summary_says_what_differs(r: DatasetDiffReport)
    ensures
        says(r.human(), "diff "@ + r.left@ + " "@ + r.right@ + "\n\n"@),
        r.identical() <==> says_no_difference(r.human(), r.left@, r.right@),
        !r.identical() ==> r.human() == "diff "@ + r.left@ + " "@ + r.right@ + "\n\n"@ + (rows_line(
            r.left_rows as nat,
            r.right_rows as nat,
        ) + ")\n\n"@) + section("Schema changes"@, r.schema) + "\n"@ + section(
            "Metadata changes"@,
            r.metadata,
        ),
        !r.identical() ==> says(
            r.human(),
            rows_line(r.left_rows as nat, r.right_rows as nat) + ")\n\n"@,
        ),
        !r.identical() ==> says(r.human(), section("Schema changes"@, r.schema)),
        !r.identical() ==> says(r.human(), section("Metadata changes"@, r.metadata)),
{
    let head = "diff "@ + r.left@ + " "@ + r.right@ + "\n\n"@;
    let none = "No differences.\n"@;
    let t = r.human();
    if r.identical() {
        lemma_says(t, Seq::empty(), head, none);
    } else {
        let from = r.left_rows as nat;
        let to = r.right_rows as nat;
        let rows = rows_line(from, to) + ")\n\n"@;
        lemma_rows_line(head, from, to);
        lemma_grow(head, rows_line(from, to), ")\n\n"@);
        let schema = section("Schema changes"@, r.schema);
        let metadata = section("Metadata changes"@, r.metadata);
        assert(t == head + rows + schema + "\n"@ + metadata);
        lemma_dataset_parts(t, head, rows, schema, metadata);
        assert(t != head + none) by {
            reveal_strlit("Rows: ");
            reveal_strlit("No differences.\n");
            let k = head.len() as int;
            lemma_rows_start(from, to);
            assert(t[k] == rows[0]);
            assert(rows[0] == rows_line(from, to)[0]);
            assert((head + none)[k] == none[0]);
            assert(none[0] == 'N');
        }
    }
}

proof fn lemma_rows_start(from: nat, to: nat)
    ensures
        rows_line(from, to).len() > 0,
        rows_line(from, to)[0] == 'R',
{
    reveal_strlit("Rows: ");
    let a = "Rows: "@;
    assert((a + dec(from))[0] == 'R');
    assert((a + dec(from) + " -> "@)[0] == 'R');
    assert((a + dec(from) + " -> "@ + dec(to))[0] == 'R');
    assert((a + dec(from) + " -> "@ + dec(to) + "  (net "@)[0] == 'R');
}

proof fn lemma_dataset_parts(
    t: Seq<char>,
    head: Seq<char>,
    rows: Seq<char>,
    s: Seq<char>,
    m: Seq<char>,
)
    requires
        t == head + rows + s + "\n"@ + m,
    ensures
        says(t, head),
        says(t, rows),
        says(t, s),
        says(t, m),
{
    let n = "\n"@;
    lemma_says(t, Seq::empty(), head, rows + s + n + m);
    lemma_says(t, head, rows, s + n + m);
    lemma_says(t, head + rows, s, n + m);
    lemma_says(t, head + rows + s + n, m, Seq::empty());
}

/// True of the summary of two datasets that says only that nothing differs.
pub open spec fn says_no_difference(text: Seq<char>, left: Seq<char>, right: Seq<char>) -> bool {
    text == "diff "@ + left + " "@ + right + "\n\n"@ + "No differences.\n"@
}

/// The object of two datasets holds what was compared, whether they are identical,
/// both row counts with their difference, and what changed.
pub proof fn law_dataset_object_holds_what_differs(r: DatasetDiffReport)
    ensures
        keys_are(r.json(), seq!["left"@, "right"@, "identical"@, "rows"@, "schema"@, "metadata"@]),
        has_member(r.json(), "left"@, quoted(r.left@)),
        has_member(r.json(), "right"@, quoted(r.right@)),
        r.identical() ==> has_member(r.json(), "identical"@, "true"@),
        !r.identical() ==> has_member(r.json(), "identical"@, "false"@),
        has_member(
            r.json(),
            "rows"@,
            object(
                seq![
                    ("left"@, dec(r.left_rows as nat)),
                    ("right"@, dec(r.right_rows as nat)),
                    ("net"@, dec_int(r.right_rows - r.left_rows)),
                ],
            ),
        ),
        has_member(r.json(), "schema"@, delta_json(r.schema, "name"@, "type"@, "retyped"@)),
        has_member(r.json(), "metadata"@, delta_json(r.metadata, "key"@, "value"@, "changed"@)),
{
    let m = seq![
        ("left"@, quoted(r.left@)),
        ("right"@, quoted(r.right@)),
        (
            "identical"@,
            if r.identical() {
                "true"@
            } else {
                "false"@
            },
        ),
        (
            "rows"@,
            object(
                seq![
                    ("left"@, dec(r.left_rows as nat)),
                    ("right"@, dec(r.right_rows as nat)),
                    ("net"@, dec_int(r.right_rows - r.left_rows)),
                ],
            ),
        ),
        ("schema"@, delta_json(r.schema, "name"@, "type"@, "retyped"@)),
        ("metadata"@, delta_json(r.metadata, "key"@, "value"@, "changed"@)),
    ];
    assert(r.json() == object(m));
    lemma_keys(m, seq!["left"@, "right"@, "identical"@, "rows"@, "schema"@, "metadata"@]);
    lemma_member(m, 0);
    lemma_member(m, 1);
    lemma_member(m, 2);
    lemma_member(m, 3);
    lemma_member(m, 4);
    lemma_member(m, 5);
}

// ---------- two versions ----------

/// Two versions are reported identical exactly where no column, fragment, index or
/// row differs.
pub proof fn law_identical_versions_differ_in_nothing(r: DiffReport)
    ensures
        r.identical() <==> r.schema.added@.len() == 0 && r.schema.removed@.len() == 0
            && r.schema.changed@.len() == 0 && r.fragments.added@.len() == 0
            && r.fragments.removed@.len() == 0 && r.fragments.rewritten@.len() == 0
            && r.indices.created@.len() == 0 && r.indices.dropped@.len() == 0 && r.rows.added == 0
            && r.rows.deleted == 0 && r.rows.from_rows == r.rows.to_rows,
{
}

/// The summary of two versions names the dataset and both versions. Where they are
/// identical it says that there is no difference; otherwise it gives the rows, and
/// the changes of the schema, the fragments and the indices, and the versions.
#[verifier::rlimit(40)]
pub proof fn law_version_summary_says_what_differs(r: DiffReport, input: Seq<char>)
    ensures
        says(
            r.human(input),
            "diff "@ + input + "\n  from  "@ + r.from_branch@ + " v"@ + dec(r.from_version as nat)
                + "\n  to    "@ + r.to_branch@ + " v"@ + dec(r.to_version as nat) + "\n\n"@,
        ),
        r.identical() ==> says(r.human(input), "No differences.\n"@),
        !r.identical() ==> says(
            r.human(input),
            rows_line(r.rows.from_rows as nat, r.rows.to_rows as nat) + "; +"@ + dec(
                r.rows.added as nat,
            ) + " added, -"@ + dec(r.rows.deleted as nat) + " deleted)\n\n"@,
        ),
        !r.identical() ==> says(r.human(input), section("Schema changes"@, r.schema)),
        !r.identical() ==> says(r.human(input), fragment_section(r.fragments)),
        !r.identical() ==> says(r.human(input), index_section(r.indices)),
        !r.identical() ==> says(
            r.human(input),
            version_section(r.from_version, r.to_version, r.versions@),
        ),
{
    let head = "diff "@ + input + "\n  from  "@ + r.from_branch@ + " v"@ + dec(
        r.from_version as nat,
    ) + "\n  to    "@ + r.to_branch@ + " v"@ + dec(r.to_version as nat) + "\n\n"@;
    let none = "No differences.\n"@;
    let t = r.human(input);
    if r.identical() {
        lemma_says(t, Seq::empty(), head, none);
        lemma_says(t, head, none, Seq::empty());
    } else {
        let from = r.rows.from_rows as nat;
        let to = r.rows.to_rows as nat;
        let line = rows_line(from, to);
        let added = dec(r.rows.added as nat);
        let gone = dec(r.rows.deleted as nat);
        lemma_rows_line(head, from, to);
        lemma_grow(head, line, "; +"@);
        lemma_grow(head, line + "; +"@, added);
        lemma_grow(head, line + "; +"@ + added, " added, -"@);
        lemma_grow(head, line + "; +"@ + added + " added, -"@, gone);
        lemma_grow(head, line + "; +"@ + added + " added, -"@ + gone, " deleted)\n\n"@);
        let rows = line + "; +"@ + added + " added, -"@ + gone + " deleted)\n\n"@;
        lemma_version_parts(
            t,
            head,
            rows,
            section("Schema changes"@, r.schema),
            fragment_section(r.fragments),
            index_section(r.indices),
            version_section(r.from_version, r.to_version, r.versions@),
        );
    }
}

proof fn lemma_version_parts(
    t: Seq<char>,
    head: Seq<char>,
    rows: Seq<char>,
    s: Seq<char>,
    f: Seq<char>,
    x: Seq<char>,
    v: Seq<char>,
)
    requires
        t == head + rows + s + "\n"@ + f + "\n"@ + x + "\n"@ + v,
    ensures
        says(t, head),
        says(t, rows),
        says(t, s),
        says(t, f),
        says(t, x),
        says(t, v),
{
    let n = "\n"@;
    lemma_says(t, Seq::empty(), head, rows + s + n + f + n + x + n + v);
    lemma_says(t, head, rows, s + n + f + n + x + n + v);
    lemma_says(t, head + rows, s, n + f + n + x + n + v);
    lemma_says(t, head + rows + s + n, f, n + x + n + v);
    lemma_says(t, head + rows + s + n + f + n, x, n + v);
    lemma_says(t, head + rows + s + n + f + n + x + n, v, Seq::empty());
}

/// The section on fragments counts those that were added, removed and rewritten, and
/// lists the numbers of each where there are any.
pub proof fn law_fragment_section_lists_the_fragments(d: FragmentDelta)
    ensures
        says(
            fragment_section(d),
            "Fragments: +"@ + dec(d.added@.len()) + " added, -"@ + dec(d.removed@.len())
                + " removed, "@ + dec(d.rewritten@.len()) + " rewritten\n"@,
        ),
        d.added@.len() > 0 ==> says(
            fragment_section(d),
            "  added:     "@ + list_of(d.added@) + "\n"@,
        ),
        d.removed@.len() > 0 ==> says(
            fragment_section(d),
            "  removed:   "@ + list_of(d.removed@) + "\n"@,
        ),
        d.rewritten@.len() > 0 ==> says(
            fragment_section(d),
            "  rewritten: "@ + list_of(d.rewritten@) + "\n"@,
        ),
{
    let head = "Fragments: +"@ + dec(d.added@.len()) + " added, -"@ + dec(d.removed@.len())
        + " removed, "@ + dec(d.rewritten@.len()) + " rewritten\n"@;
    let a = id_line("  added:     "@, d.added@);
    let b = id_line("  removed:   "@, d.removed@);
    let c = id_line("  rewritten: "@, d.rewritten@);
    let t = fragment_section(d);
    lemma_list_of(d.added@);
    lemma_list_of(d.removed@);
    lemma_list_of(d.rewritten@);
    lemma_says(t, Seq::empty(), head, a + b + c);
    lemma_says(t, head, a, b + c);
    lemma_says(t, head + a, b, c);
    lemma_says(t, head + a + b, c, Seq::empty());
}

/// Numbers in brackets, with commas between.
pub open spec fn list_of(ids: Seq<u64>) -> Seq<char> {
    "["@ + join(Seq::new(ids.len(), |i: int| dec(ids[i] as nat)), ", "@) + "]"@
}

proof fn lemma_list_of(ids: Seq<u64>)
    ensures
        id_list(ids) == list_of(ids),
{
    assert(crate::commands::lance::diff::number_texts(ids) =~= Seq::new(
        ids.len(),
        |i: int| dec(ids[i] as nat),
    ));
}

proof fn lemma_name_line(mark: Seq<char>, names: Seq<Seq<char>>, i: int)
    requires
        0 <= i < names.len(),
    ensures
        says(name_lines(mark, names), mark + names[i] + "\n"@),
    decreases names.len(),
{
    let part = mark + names[i] + "\n"@;
    let init = names.drop_last();
    if i == names.len() - 1 {
        lemma_says(name_lines(mark, names), name_lines(mark, init), part, Seq::empty());
    } else {
        lemma_name_line(mark, init, i);
        let (a, b) = choose|a: Seq<char>, b: Seq<char>| name_lines(mark, init) == #[trigger] (a + part
            + b);
        let last = mark + names.last() + "\n"@;
        assert(name_lines(mark, names) =~= name_lines(mark, init) + last);
        lemma_says(name_lines(mark, names), a, part, b + last);
    }
}

/// The section on indices has a line for each that was created or dropped, and says
/// so where there is none.
pub proof fn law_index_section_lists_the_indices(d: IndexDelta, i: int)
    ensures
        d.created@.len() == 0 && d.dropped@.len() == 0 ==> index_section(d)
            == "Index changes: none\n"@,
        d.created@.len() > 0 || d.dropped@.len() > 0 ==> "Index changes:\n"@.is_prefix_of(
            index_section(d),
        ),
        0 <= i < d.created@.len() ==> says(
            index_section(d),
            "  + created "@ + d.created@[i]@ + "\n"@,
        ),
        0 <= i < d.dropped@.len() ==> says(
            index_section(d),
            "  - dropped "@ + d.dropped@[i]@ + "\n"@,
        ),
{
    let h = "Index changes:\n"@;
    let p = name_lines("  + created "@, texts(d.created@));
    let q = name_lines("  - dropped "@, texts(d.dropped@));
    if d.created@.len() > 0 || d.dropped@.len() > 0 {
        assert(index_section(d).take(h.len() as int) =~= h);
    }
    if 0 <= i < d.created@.len() {
        lemma_name_line("  + created "@, texts(d.created@), i);
        let part = "  + created "@ + d.created@[i]@ + "\n"@;
        let (a, b) = choose|a: Seq<char>, b: Seq<char>| p == #[trigger] (a + part + b);
        lemma_says(index_section(d), h + a, part, b + q);
    }
    if 0 <= i < d.dropped@.len() {
        lemma_name_line("  - dropped "@, texts(d.dropped@), i);
        let part = "  - dropped "@ + d.dropped@[i]@ + "\n"@;
        let (a, b) = choose|a: Seq<char>, b: Seq<char>| q == #[trigger] (a + part + b);
        lemma_says(index_section(d), h + p + a, part, b);
    }
}

/// What a version said when it was committed; nothing where it said nothing.
pub open spec fn said(v: VersionInfo) -> Seq<char> {
    match v.message {
        Some(m) => m@,
        None => Seq::empty(),
    }
}

/// The section on versions gives the range that it covers, the lower version first,
/// and a line for each version with its time and message.
pub proof fn law_version_section_lists_the_versions(
    from: u64,
    to: u64,
    versions: Seq<VersionInfo>,
    i: int,
)
    ensures
        from <= to ==> says(
            version_section(from, to, versions),
            "Versions in range (v"@ + dec(from as nat) + ", v"@ + dec(to as nat) + "]:\n"@,
        ),
        version_section(from, to, versions) == version_section(to, from, versions),
        versions.len() == 0 ==> says(version_section(from, to, versions), "  (none)\n"@),
        0 <= i < versions.len() ==> says(
            version_section(from, to, versions),
            "  v"@ + dec(versions[i].version as nat) + "  "@ + log_time_text(versions[i].timestamp)
                + "  "@ + said(versions[i]) + "\n"@,
        ),
{
    let low = if from <= to {
        from
    } else {
        to
    };
    let high = if from <= to {
        to
    } else {
        from
    };
    let head = "Versions in range (v"@ + dec(low as nat) + ", v"@ + dec(high as nat) + "]:\n"@;
    let t = version_section(from, to, versions);
    if versions.len() == 0 {
        lemma_says(t, Seq::empty(), head, "  (none)\n"@);
        lemma_says(t, head, "  (none)\n"@, Seq::empty());
    } else {
        lemma_says(t, Seq::empty(), head, version_lines(versions));
    }
    if 0 <= i < versions.len() {
        lemma_version_line(versions, i);
        let v = versions[i];
        let part = "  v"@ + dec(v.version as nat) + "  "@ + log_time_text(v.timestamp) + "  "@ + said(
            v,
        ) + "\n"@;
        let (a, b) = choose|a: Seq<char>, b: Seq<char>| version_lines(versions) == #[trigger] (a
            + part + b);
        lemma_says(t, head + a, part, b);
    }
}

proof fn lemma_version_line(versions: Seq<VersionInfo>, i: int)
    requires
        0 <= i < versions.len(),
    ensures
        says(
            version_lines(versions),
            "  v"@ + dec(versions[i].version as nat) + "  "@ + log_time_text(versions[i].timestamp)
                + "  "@ + said(versions[i]) + "\n"@,
        ),
    decreases versions.len(),
{
    let v = versions[i];
    let part = "  v"@ + dec(v.version as nat) + "  "@ + log_time_text(v.timestamp) + "  "@ + said(v)
        + "\n"@;
    let init = versions.drop_last();
    if i == versions.len() - 1 {
        lemma_says(version_lines(versions), version_lines(init), part, Seq::empty());
    } else {
        lemma_version_line(init, i);
        let (a, b) = choose|a: Seq<char>, b: Seq<char>| version_lines(init) == #[trigger] (a + part
            + b);
        let w = versions.last();
        let last = "  v"@ + dec(w.version as nat) + "  "@ + log_time_text(w.timestamp) + "  "@ + said(
            w,
        ) + "\n"@;
        assert(version_lines(versions) =~= version_lines(init) + last);
        lemma_says(version_lines(versions), a, part, b + last);
    }
}

/// The object of two versions holds both of them, whether they are identical, and
/// what changed.
#[verifier::rlimit(40)]
pub proof fn law_version_object_holds_what_differs(r: DiffReport)
    ensures
        keys_are(r.json(), seq!["from"@, "to"@, "identical"@, "rows"@, "schema"@, "fragments"@, "indices"@, "versions"@]),
        has_member(
            r.json(),
            "from"@,
            object(
                seq![
                    ("branch"@, quoted(r.from_branch@)),
                    ("version"@, dec(r.from_version as nat)),
                ],
            ),
        ),
        has_member(
            r.json(),
            "to"@,
            object(
                seq![("branch"@, quoted(r.to_branch@)), ("version"@, dec(r.to_version as nat))],
            ),
        ),
        r.identical() ==> has_member(r.json(), "identical"@, "true"@),
        !r.identical() ==> has_member(r.json(), "identical"@, "false"@),
        has_member(r.json(), "rows"@, row_object(r.rows)),
        has_member(r.json(), "schema"@, delta_json(r.schema, "name"@, "type"@, "retyped"@)),
        has_member(r.json(), "fragments"@, fragment_object(r.fragments)),
        has_member(r.json(), "indices"@, index_object(r.indices)),
        has_member(
            r.json(),
            "versions"@,
            array(Seq::new(r.versions@.len(), |i: int| version_object(r.versions@[i]))),
        ),
{
    let versions = Seq::new(r.versions@.len(), |i: int| version_object(r.versions@[i]));
    assert(r.versions@.map_values(|v: VersionInfo| version_object(v)) =~= versions);
    let m = seq![
        (
            "from"@,
            object(
                seq![
                    ("branch"@, quoted(r.from_branch@)),
                    ("version"@, dec(r.from_version as nat)),
                ],
            ),
        ),
        (
            "to"@,
            object(
                seq![("branch"@, quoted(r.to_branch@)), ("version"@, dec(r.to_version as nat))],
            ),
        ),
        (
            "identical"@,
            if r.identical() {
                "true"@
            } else {
                "false"@
            },
        ),
        ("rows"@, row_object(r.rows)),
        ("schema"@, delta_json(r.schema, "name"@, "type"@, "retyped"@)),
        ("fragments"@, fragment_object(r.fragments)),
        ("indices"@, index_object(r.indices)),
        ("versions"@, array(versions)),
    ];
    assert(r.json() == object(m));
    lemma_keys(m, seq!["from"@, "to"@, "identical"@, "rows"@, "schema"@, "fragments"@, "indices"@, "versions"@]);
    lemma_member(m, 0);
    lemma_member(m, 1);
    lemma_member(m, 2);
    lemma_member(m, 3);
    lemma_member(m, 4);
    lemma_member(m, 5);
    lemma_member(m, 6);
    lemma_member(m, 7);
}

/// The objects of the parts hold the numbers and names of the parts.
#[verifier::rlimit(40)]
pub proof fn law_part_objects_hold_the_parts(
    rows: RowDelta,
    fragments: FragmentDelta,
    indices: IndexDelta,
    v: VersionInfo,
)
    ensures
        keys_are(version_object(v), seq!["version"@, "timestamp"@, "message"@]),
        keys_are(index_object(indices), seq!["created"@, "dropped"@]),
        keys_are(fragment_object(fragments), seq!["added"@, "removed"@, "rewritten"@]),
        keys_are(row_object(rows), seq!["from"@, "to"@, "net"@, "added"@, "deleted"@]),
        has_member(row_object(rows), "from"@, dec(rows.from_rows as nat)),
        has_member(row_object(rows), "to"@, dec(rows.to_rows as nat)),
        has_member(row_object(rows), "net"@, dec_int(rows.to_rows - rows.from_rows)),
        has_member(row_object(rows), "added"@, dec(rows.added as nat)),
        has_member(row_object(rows), "deleted"@, dec(rows.deleted as nat)),
        has_member(fragment_object(fragments), "added"@, array_of(fragments.added@)),
        has_member(fragment_object(fragments), "removed"@, array_of(fragments.removed@)),
        has_member(fragment_object(fragments), "rewritten"@, array_of(fragments.rewritten@)),
        has_member(
            index_object(indices),
            "created"@,
            array(Seq::new(indices.created@.len(), |i: int| quoted(indices.created@[i]@))),
        ),
        has_member(
            index_object(indices),
            "dropped"@,
            array(Seq::new(indices.dropped@.len(), |i: int| quoted(indices.dropped@[i]@))),
        ),
        has_member(version_object(v), "version"@, dec(v.version as nat)),
        has_member(version_object(v), "timestamp"@, quoted(rfc3339_text(v.timestamp))),
        has_member(
            version_object(v),
            "message"@,
            match v.message {
                Some(m) => quoted(m@),
                None => "null"@,
            },
        ),
{
    let m = seq![
        ("from"@, dec(rows.from_rows as nat)),
        ("to"@, dec(rows.to_rows as nat)),
        ("net"@, dec_int(rows.to_rows - rows.from_rows)),
        ("added"@, dec(rows.added as nat)),
        ("deleted"@, dec(rows.deleted as nat)),
    ];
    assert(row_object(rows) == object(m));
    lemma_keys(m, seq!["from"@, "to"@, "net"@, "added"@, "deleted"@]);
    lemma_member(m, 0);
    lemma_member(m, 1);
    lemma_member(m, 2);
    lemma_member(m, 3);
    lemma_member(m, 4);
    lemma_array_of(fragments.added@);
    lemma_array_of(fragments.removed@);
    lemma_array_of(fragments.rewritten@);
    let f = seq![
        ("added"@, array_of(fragments.added@)),
        ("removed"@, array_of(fragments.removed@)),
        ("rewritten"@, array_of(fragments.rewritten@)),
    ];
    assert(fragment_object(fragments) == object(f));
    lemma_keys(f, seq!["added"@, "removed"@, "rewritten"@]);
    lemma_member(f, 0);
    lemma_member(f, 1);
    lemma_member(f, 2);
    let created = Seq::new(indices.created@.len(), |i: int| quoted(indices.created@[i]@));
    let dropped = Seq::new(indices.dropped@.len(), |i: int| quoted(indices.dropped@[i]@));
    assert(crate::commands::lance::diff::quoted_all(texts(indices.created@)) =~= created);
    assert(crate::commands::lance::diff::quoted_all(texts(indices.dropped@)) =~= dropped);
    let x = seq![("created"@, array(created)), ("dropped"@, array(dropped))];
    assert(index_object(indices) == object(x));
    lemma_keys(x, seq!["created"@, "dropped"@]);
    lemma_member(x, 0);
    lemma_member(x, 1);
    let w = seq![
        ("version"@, dec(v.version as nat)),
        ("timestamp"@, quoted(rfc3339_text(v.timestamp))),
        (
            "message"@,
            match v.message {
                Some(m) => quoted(m@),
                None => "null"@,
            },
        ),
    ];
    let u = seq![
        ("version"@, dec(v.version as nat)),
        ("timestamp"@, quoted(rfc3339_text(v.timestamp))),
        ("message"@, crate::commands::lance::diff::opt_quoted(opt_view(v.message))),
    ];
    assert(u =~= w);
    assert(version_object(v) == object(u));
    lemma_keys(w, seq!["version"@, "timestamp"@, "message"@]);
    lemma_member(w, 0);
    lemma_member(w, 1);
    lemma_member(w, 2);
}

/// Numbers as an array.
pub open spec fn array_of(ids: Seq<u64>) -> Seq<char> {
    array(Seq::new(ids.len(), |i: int| dec(ids[i] as nat)))
}

proof fn lemma_array_of(ids: Seq<u64>)
    ensures
        array(crate::commands::lance::diff::number_texts(ids)) == array_of(ids),
{
    assert(crate::commands::lance::diff::number_texts(ids) =~= Seq::new(
        ids.len(),
        |i: int| dec(ids[i] as nat),
    ));
}

} // verus!
