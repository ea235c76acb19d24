//! Comparisons, held against the two sides that they compare.
use vstd::prelude::*;

use crate::commands::diff::DatasetDiffReport;
use crate::commands::diff_common::{
    changed, distinct_keys, has_key, keyed, labelled, lemma_changed, lemma_has_key,
    lemma_keyed_distinct, lemma_keyed_keeps, lemma_put_all_distinct, only_in, pair_order,
    triples_of, type_label_of, value_of, Delta,
};
use crate::commands::lance::diff::{DiffReport, Endpoint};
use crate::json::{key_position, pairs_of, put, put_all};
use crate::schema::Field;
use crate::text::text_le;

verus! {

// ---------- labels ----------

/// The label of a column is its type in full, with a question mark behind it where
/// the column may hold nulls; so columns that are equally nullable have one label
/// exactly where they have one type.
pub proof fn law_label_tells_the_type(f: Field, g: Field)
    ensures
        f.data_type.display@.is_prefix_of(type_label_of(f)),
        type_label_of(f).len() == f.data_type.display@.len() + if f.nullable {
            1int
        } else {
            0
        },
        f.nullable ==> type_label_of(f).last() == '?',
        f.nullable == g.nullable ==> (type_label_of(f) == type_label_of(g) <==> f.data_type.display@
            == g.data_type.display@),
        f.data_type.display@ == g.data_type.display@ ==> (type_label_of(f) == type_label_of(g)
            <==> f.nullable == g.nullable),
{
    reveal_strlit("?");
    lemma_label(f);
    lemma_label(g);
}

proof fn lemma_label(f: Field)
    ensures
        f.nullable ==> type_label_of(f) == f.data_type.display@.push('?'),
        !f.nullable ==> type_label_of(f) == f.data_type.display@,
        type_label_of(f).len() == f.data_type.display@.len() + if f.nullable {
            1int
        } else {
            0
        },
        type_label_of(f).take(f.data_type.display@.len() as int) == f.data_type.display@,
{
    reveal_strlit("?");
    let d = f.data_type.display@;
    if f.nullable {
        assert(type_label_of(f) =~= d.push('?'));
    } else {
        assert(type_label_of(f) =~= d);
    }
    assert(type_label_of(f).take(d.len() as int) =~= d);
}

// ---------- deltas ----------

/// The value that a list gives a key: that of the last pair with the key.
pub open spec fn last_value(pairs: Seq<(Seq<char>, Seq<char>)>, key: Seq<char>) -> Option<Seq<char>>
    decreases pairs.len(),
{
    if pairs.len() == 0 {
        None
    } else if pairs.last().0 == key {
        Some(pairs.last().1)
    } else {
        last_value(pairs.drop_last(), key)
    }
}

proof fn lemma_put_gives(
    members: Seq<(Seq<char>, Seq<char>)>,
    key: Seq<char>,
    value: Seq<char>,
    p: (Seq<char>, Seq<char>),
)
    requires
        distinct_keys(members),
    ensures
        put(members, key, value).contains(p) <==> if p.0 == key {
            p.1 == value
        } else {
            members.contains(p)
        },
{
    lemma_has_key(members, key);
    let at = key_position(members, key) as int;
    let after = put(members, key, value);
    if after.contains(p) {
        let i = choose|i: int| 0 <= i < after.len() && after[i] == p;
        if i != at {
            assert(members[i] == p);
            assert(members.contains(p));
            if p.0 == key {
                assert(has_key(members, key));
                assert(members[at].0 == key);
                if i < at {
                    assert(members[i].0 != members[at].0);
                } else {
                    assert(members[at].0 != members[i].0);
                }
            }
        }
    }
    if p.0 == key && p.1 == value {
        assert(after[at] == p);
    }
    if p.0 != key && members.contains(p) {
        let i = choose|i: int| 0 <= i < members.len() && members[i] == p;
        assert(after[i] == p);
    }
}

proof fn lemma_last_value(pairs: Seq<(Seq<char>, Seq<char>)>, p: (Seq<char>, Seq<char>))
    ensures
        put_all(pairs).contains(p) <==> last_value(pairs, p.0) == Some(p.1),
    decreases pairs.len(),
{
    if pairs.len() > 0 {
        lemma_last_value(pairs.drop_last(), p);
        lemma_put_all_distinct(pairs.drop_last());
        lemma_put_gives(put_all(pairs.drop_last()), pairs.last().0, pairs.last().1, p);
    }
}

/// What a sorted list gives a key is what the list gives it.
proof fn lemma_keyed_gives(pairs: Seq<(Seq<char>, Seq<char>)>, key: Seq<char>)
    ensures
        has_key(keyed(pairs), key) <==> last_value(pairs, key) is Some,
        last_value(pairs, key) matches Some(v) ==> value_of(keyed(pairs), key) == v,
        forall|v: Seq<char>|
            #![trigger keyed(pairs).contains((key, v))]
            keyed(pairs).contains((key, v)) <==> last_value(pairs, key) == Some(v),
{
    let k = keyed(pairs);
    lemma_has_key(k, key);
    assert forall|v: Seq<char>|
        #![trigger k.contains((key, v))]
        k.contains((key, v)) <==> last_value(pairs, key) == Some(v) by {
        lemma_keyed_keeps(pairs, (key, v));
        lemma_last_value(pairs, (key, v));
    }
    if has_key(k, key) {
        let at = key_position(k, key) as int;
        assert(k[at] == (key, k[at].1));
        assert(k.contains((key, k[at].1)));
    }
    if let Some(v) = last_value(pairs, key) {
        assert(k.contains((key, v)));
        let i = choose|i: int| 0 <= i < k.len() && k[i] == (key, v);
        assert(k[i].0 == key);
    }
}

proof fn lemma_only_in(
    a: Seq<(Seq<char>, Seq<char>)>,
    b: Seq<(Seq<char>, Seq<char>)>,
    p: (Seq<char>, Seq<char>),
)
    ensures
        only_in(a, b).contains(p) <==> a.contains(p) && !has_key(b, p.0),
    decreases a.len(),
{
    if a.len() > 0 {
        let init = a.drop_last();
        lemma_only_in(init, b, p);
        let before = only_in(init, b);
        let after = only_in(a, b);
        if before.contains(p) {
            let i = choose|i: int| 0 <= i < before.len() && before[i] == p;
            assert(after[i] == p);
        }
        if after.contains(p) && !before.contains(p) {
            let i = choose|i: int| 0 <= i < after.len() && after[i] == p;
            if i < before.len() {
                assert(before[i] == p);
            }
            assert(a[a.len() - 1] == p);
        }
        if init.contains(p) {
            let i = choose|i: int| 0 <= i < init.len() && init[i] == p;
            assert(a[i] == p);
        }
        if a.contains(p) && !init.contains(p) {
            let i = choose|i: int| 0 <= i < a.len() && a[i] == p;
            if i < init.len() {
                assert(init[i] == p);
            }
            assert(a.last() == p);
            if !has_key(b, p.0) {
                assert(after[after.len() - 1] == p);
            }
        }
    }
}

/// A comparison tells exactly what differs: what is added is what the second list
/// gives a key that the first has not, what is removed the reverse, and what is
/// changed is a key that both have, with its two values, where these differ.
pub proof fn law_delta_tells_exactly_what_differs(
    d: Delta,
    from: Seq<(Seq<char>, Seq<char>)>,
    to: Seq<(Seq<char>, Seq<char>)>,
    key: Seq<char>,
    a: Seq<char>,
    b: Seq<char>,
)
    requires
        d.compares(from, to),
    ensures
        pairs_of(d.added@).contains((key, b)) <==> last_value(from, key) is None && last_value(to, key)
            == Some(b),
        pairs_of(d.removed@).contains((key, a)) <==> last_value(to, key) is None && last_value(
            from,
            key,
        ) == Some(a),
        triples_of(d.changed@).contains((key, a, b)) <==> last_value(from, key) == Some(a)
            && last_value(to, key) == Some(b) && a != b,
{
    lemma_keyed_gives(from, key);
    lemma_keyed_gives(to, key);
    lemma_keyed_distinct(to);
    lemma_only_in(keyed(to), keyed(from), (key, b));
    lemma_only_in(keyed(from), keyed(to), (key, a));
    lemma_changed(keyed(from), keyed(to), key, a, b);
}

/// A comparison tells nothing exactly where both lists give every key the same.
pub proof fn law_nothing_is_told_of_equal_lists(
    d: Delta,
    from: Seq<(Seq<char>, Seq<char>)>,
    to: Seq<(Seq<char>, Seq<char>)>,
)
    requires
        d.compares(from, to),
    ensures
        d.nothing() <==> forall|key: Seq<char>| #[trigger]
            last_value(from, key) == last_value(to, key),
{
    if d.nothing() {
        assert forall|key: Seq<char>| #[trigger] last_value(from, key) == last_value(to, key) by {
            let a = last_value(from, key);
            let b = last_value(to, key);
            law_delta_tells_exactly_what_differs(d, from, to, key, a->Some_0, b->Some_0);
        }
    } else {
        if d.added@.len() > 0 {
            let p = pairs_of(d.added@)[0];
            assert(pairs_of(d.added@).contains(p));
            law_delta_tells_exactly_what_differs(d, from, to, p.0, p.1, p.1);
        } else if d.removed@.len() > 0 {
            let p = pairs_of(d.removed@)[0];
            assert(pairs_of(d.removed@).contains(p));
            law_delta_tells_exactly_what_differs(d, from, to, p.0, p.1, p.1);
        } else {
            let t = triples_of(d.changed@)[0];
            assert(triples_of(d.changed@).contains(t));
            law_delta_tells_exactly_what_differs(d, from, to, t.0, t.1, t.2);
        }
    }
}

proof fn lemma_only_in_sorted(
    a: Seq<(Seq<char>, Seq<char>)>,
    b: Seq<(Seq<char>, Seq<char>)>,
    i: int,
    j: int,
)
    requires
        distinct_keys(a),
        vstd::relations::sorted_by(a, pair_order()),
        0 <= i < j < only_in(a, b).len(),
    ensures
        only_in(a, b)[i].0 != only_in(a, b)[j].0,
        text_le(only_in(a, b)[i].0, only_in(a, b)[j].0),
    decreases a.len(),
{
    let init = a.drop_last();
    let before = only_in(init, b);
    assert(distinct_keys(init)) by {
        assert forall|k: int, l: int| 0 <= k < l < init.len() implies (#[trigger] init[k]).0 != (
        #[trigger] init[l]).0 by {
            assert(a[k].0 != a[l].0);
        }
    }
    assert(vstd::relations::sorted_by(init, pair_order())) by {
        let le = pair_order();
        assert forall|k: int, l: int| 0 <= k < l < init.len() implies #[trigger] le(init[k], init[l]) by {
            assert(le(a[k], a[l]));
        }
    }
    if j < before.len() {
        lemma_only_in_sorted(init, b, i, j);
    } else {
        assert(before.contains(before[i]));
        lemma_only_in(init, b, before[i]);
        let k = choose|k: int| 0 <= k < init.len() && init[k] == before[i];
        let le = pair_order();
        assert(le(a[k], a[a.len() - 1]));
        assert(a[k].0 != a[a.len() - 1].0);
    }
}

/// What is added and what is removed stands in ascending order of the keys, each
/// key once.
pub proof fn law_delta_is_in_order(
    d: Delta,
    from: Seq<(Seq<char>, Seq<char>)>,
    to: Seq<(Seq<char>, Seq<char>)>,
    i: int,
    j: int,
)
    requires
        d.compares(from, to),
        0 <= i < j,
    ensures
        j < d.added@.len() ==> d.added@[i].0@ != d.added@[j].0@ && text_le(
            d.added@[i].0@,
            d.added@[j].0@,
        ),
        j < d.removed@.len() ==> d.removed@[i].0@ != d.removed@[j].0@ && text_le(
            d.removed@[i].0@,
            d.removed@[j].0@,
        ),
{
    let any = (Seq::<char>::empty(), Seq::<char>::empty());
    lemma_keyed_keeps(from, any);
    lemma_keyed_keeps(to, any);
    lemma_keyed_distinct(from);
    lemma_keyed_distinct(to);
    let added = pairs_of(d.added@);
    let removed = pairs_of(d.removed@);
    if j < added.len() {
        lemma_only_in_sorted(keyed(to), keyed(from), i, j);
        assert(added[i].0 == d.added@[i].0@ && added[j].0 == d.added@[j].0@);
    }
    if j < removed.len() {
        lemma_only_in_sorted(keyed(from), keyed(to), i, j);
        assert(removed[i].0 == d.removed@[i].0@ && removed[j].0 == d.removed@[j].0@);
    }
}

/// The place of the last column with a name; below zero where there is none.
pub open spec fn last_named(fields: Seq<Field>, name: Seq<char>) -> int
    decreases fields.len(),
{
    if fields.len() == 0 {
        -1
    } else if fields.last().name@ == name {
        fields.len() - 1
    } else {
        last_named(fields.drop_last(), name)
    }
}

proof fn lemma_labelled(fields: Seq<Field>, name: Seq<char>)
    ensures
        -1 <= last_named(fields, name) < fields.len(),
        last_named(fields, name) >= 0 ==> fields[last_named(fields, name)].name@ == name,
        last_value(labelled(fields), name) == if last_named(fields, name) >= 0 {
            Some(type_label_of(fields[last_named(fields, name)]))
        } else {
            None
        },
        last_named(fields, name) < 0 ==> forall|i: int|
            0 <= i < fields.len() ==> (#[trigger] fields[i]).name@ != name,
    decreases fields.len(),
{
    if fields.len() > 0 {
        lemma_labelled(fields.drop_last(), name);
        assert(labelled(fields).drop_last() =~= labelled(fields.drop_last()));
        let init = fields.drop_last();
        if last_named(fields, name) < 0 {
            assert forall|i: int| 0 <= i < fields.len() implies (#[trigger] fields[i]).name@
                != name by {
                if i < init.len() {
                    assert(init[i].name@ != name);
                }
            }
        }
    }
}

/// A column that both sides have with different types, equally nullable, is always
/// among the changed ones, with both types.
pub proof fn law_retyped_column_is_told(d: Delta, from: Seq<Field>, to: Seq<Field>, name: Seq<char>)
    requires
        d.compares(labelled(from), labelled(to)),
        last_named(from, name) >= 0,
        last_named(to, name) >= 0,
        ({
            let f = from[last_named(from, name)];
            let g = to[last_named(to, name)];
            ||| f.nullable == g.nullable && f.data_type.display@ != g.data_type.display@
            ||| f.nullable != g.nullable && f.data_type.display@ == g.data_type.display@
        }),
    ensures
        !d.nothing(),
        exists|t: (Seq<char>, Seq<char>, Seq<char>)|
            {
                &&& #[trigger] triples_of(d.changed@).contains(t)
                &&& t.0 == name
                &&& from[last_named(from, name)].data_type.display@.is_prefix_of(t.1)
                &&& to[last_named(to, name)].data_type.display@.is_prefix_of(t.2)
            },
{
    lemma_labelled(from, name);
    lemma_labelled(to, name);
    let f = from[last_named(from, name)];
    let g = to[last_named(to, name)];
    law_label_tells_the_type(f, g);
    law_label_tells_the_type(g, f);
    let t = (name, type_label_of(f), type_label_of(g));
    law_delta_tells_exactly_what_differs(d, labelled(from), labelled(to), t.0, t.1, t.2);
    assert(triples_of(d.changed@).contains(t));
}

/// True where both sides have a column of this name with the same type and
/// nullability, or neither has one.
pub open spec fn same_column(from: Seq<Field>, to: Seq<Field>, name: Seq<char>) -> bool {
    let i = last_named(from, name);
    let j = last_named(to, name);
    (i < 0 && j < 0) || (i >= 0 && j >= 0 && (from[i].nullable == to[j].nullable
        ==> from[i].data_type.display@ == to[j].data_type.display@) && (from[i].data_type.display@
        == to[j].data_type.display@ ==> from[i].nullable == to[j].nullable))
}

proof fn lemma_same_columns(d: Delta, from: Seq<Field>, to: Seq<Field>, name: Seq<char>)
    requires
        d.compares(labelled(from), labelled(to)),
        d.nothing(),
    ensures
        same_column(from, to, name),
{
    law_nothing_is_told_of_equal_lists(d, labelled(from), labelled(to));
    lemma_labelled(from, name);
    lemma_labelled(to, name);
    assert(last_value(labelled(from), name) == last_value(labelled(to), name));
    if last_named(from, name) >= 0 {
        law_label_tells_the_type(from[last_named(from, name)], to[last_named(to, name)]);
    }
}

/// Two datasets that are reported identical have the same rows in number, the same
/// columns by name, each of the same type, and the same metadata.
pub proof fn law_identical_datasets_have_equal_columns(
    r: DatasetDiffReport,
    left: (Seq<Field>, Seq<(Seq<char>, Seq<char>)>),
    right: (Seq<Field>, Seq<(Seq<char>, Seq<char>)>),
    name: Seq<char>,
)
    requires
        r.schema.compares(labelled(left.0), labelled(right.0)),
        r.metadata.compares(left.1, right.1),
        r.identical(),
    ensures
        same_column(left.0, right.0, name),
        last_value(left.1, name) == last_value(right.1, name),
        r.left_rows == r.right_rows,
{
    lemma_same_columns(r.schema, left.0, right.0, name);
    law_nothing_is_told_of_equal_lists(r.metadata, left.1, right.1);
}

/// Two datasets with the same number of rows, whose columns and metadata give every
/// name the same, are reported identical.
pub proof fn law_equal_datasets_are_identical(
    r: DatasetDiffReport,
    left: (Seq<Field>, Seq<(Seq<char>, Seq<char>)>),
    right: (Seq<Field>, Seq<(Seq<char>, Seq<char>)>),
)
    requires
        r.schema.compares(labelled(left.0), labelled(right.0)),
        r.metadata.compares(left.1, right.1),
        r.left_rows == r.right_rows,
        forall|name: Seq<char>| #[trigger]
            last_value(labelled(left.0), name) == last_value(labelled(right.0), name),
        forall|name: Seq<char>| #[trigger] last_value(left.1, name) == last_value(right.1, name),
    ensures
        r.identical(),
{
    law_nothing_is_told_of_equal_lists(r.schema, labelled(left.0), labelled(right.0));
    law_nothing_is_told_of_equal_lists(r.metadata, left.1, right.1);
}

/// Two versions that are reported identical have the same columns by name, each of
/// the same type.
pub proof fn law_identical_versions_have_equal_columns(
    r: DiffReport,
    from: Endpoint,
    to: Endpoint,
    name: Seq<char>,
)
    requires
        r.compares(from, to),
        r.identical(),
    ensures
        same_column(from.schema.fields@, to.schema.fields@, name),
{
    lemma_same_columns(r.schema, from.schema.fields@, to.schema.fields@, name);
}

} // verus!
