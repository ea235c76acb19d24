//! Columns: which ones are meant, and what is shown of them.
use vstd::prelude::*;

use crate::commands::blob::is_binary;
use crate::commands::cat::{agree, difference, first_mismatch};
use crate::commands::common::{are_projected, first_difference, resolution};
use crate::commands::lance::search::{searched, vector_width};
use crate::projection::{
    any_match, bad_path, drops, dropped, entry_names, exclude_refusal, included, is_projected,
    leaf_field, leaves, leaves_of, listed, listed_explicitly, path_nullable, path_refusal,
    positions, pruned, remaining, remains, token_kind, touched, touches, under, Entry, Refusal,
};
use crate::row_id::{first_requested, is_system_field, requested, system_columns, RowIds};
use crate::schema::{available, names, position, same_type, DataType, Field, Kind, Schema};
use crate::stats::named_fields;
use crate::text::{dec, find, join, lemma_find, lemma_find_unique, split};
use crate::wildcard::glob;

verus! {

/// A column is found by its name, the first of that name.
pub proof fn law_columns_are_found_by_name(fields: Seq<Field>, name: Seq<char>)
    ensures
        position(fields, name) <= fields.len(),
        position(fields, name) < fields.len() ==> fields[position(fields, name) as int].name@ == name,
        forall|i: int| 0 <= i < position(fields, name) ==> (#[trigger] fields[i]).name@ != name,
    decreases fields.len(),
{
    if fields.len() > 0 && fields[0].name@ != name {
        let rest = fields.drop_first();
        law_columns_are_found_by_name(rest, name);
        assert forall|i: int| 0 <= i < position(fields, name) implies (#[trigger] fields[i]).name@
            != name by {
            if i > 0 {
                assert(rest[i - 1].name@ != name);
            }
        }
    }
}

/// True of a token that is the name of a column.
pub open spec fn is_column(fields: Seq<Field>, token: Seq<char>) -> bool {
    exists|i: int| 0 <= i < fields.len() && (#[trigger] fields[i]).name@ == token
}

proof fn lemma_is_column(fields: Seq<Field>, token: Seq<char>)
    ensures
        names(fields).contains(token) <==> is_column(fields, token),
{
    let all = names(fields);
    if all.contains(token) {
        let i = choose|i: int| 0 <= i < all.len() && all[i] == token;
        assert(fields[i].name@ == token);
    }
    if is_column(fields, token) {
        let i = choose|i: int| 0 <= i < fields.len() && (#[trigger] fields[i]).name@ == token;
        assert(all[i] == token);
    }
}

/// A token that names a column means it, whatever characters it holds. Any other with
/// a star or a question mark is a pattern, one with a dot is a path, and the rest is
/// unknown.
pub proof fn law_tokens_are_told_by_their_characters(fields: Seq<Field>, token: Seq<char>)
    ensures
        is_column(fields, token) <==> token_kind(token, names(fields)) is TopLevel,
        !is_column(fields, token) ==> (token_kind(token, names(fields)) is Glob <==> token.contains('*')
            || token.contains('?')),
        !is_column(fields, token) ==> (token_kind(token, names(fields)) is Path <==> token.contains('.')
            && !token.contains('*') && !token.contains('?')),
        !is_column(fields, token) && !token.contains('*') && !token.contains('?') && !token.contains(
            '.',
        ) ==> token_kind(token, names(fields)) is Unknown,
{
    lemma_is_column(fields, token);
}

/// Columns that are named, each once, are shown in the order in which they are named.
pub proof fn law_named_columns_come_as_named(fields: Seq<Field>, tokens: Seq<Seq<char>>)
    requires
        forall|i: int| 0 <= i < tokens.len() ==> is_column(fields, #[trigger] tokens[i]),
        forall|i: int, j: int|
            0 <= i < j < tokens.len() ==> #[trigger] tokens[i] != #[trigger] tokens[j],
    ensures
        included(fields, tokens) == Ok::<Seq<Entry>, Refusal>(
            Seq::new(tokens.len(), |i: int| Entry { name: tokens[i], from_glob: false }),
        ),
    decreases tokens.len(),
{
    let all = Seq::new(tokens.len(), |i: int| Entry { name: tokens[i], from_glob: false });
    if tokens.len() > 0 {
        let init = tokens.drop_last();
        assert forall|i: int| 0 <= i < init.len() implies is_column(fields, #[trigger] init[i]) by {
            assert(is_column(fields, tokens[i]));
        }
        assert forall|i: int, j: int| 0 <= i < j < init.len() implies #[trigger] init[i]
            != #[trigger] init[j] by {
            assert(tokens[i] != tokens[j]);
        }
        law_named_columns_come_as_named(fields, init);
        let n = tokens.len() - 1;
        lemma_is_column(fields, tokens[n]);
        assert(is_column(fields, tokens[n]));
        let before = Seq::new(init.len(), |i: int| Entry { name: init[i], from_glob: false });
        assert(!listed(before, tokens[n])) by {
            if listed(before, tokens[n]) {
                let i = choose|i: int| 0 <= i < before.len() && (#[trigger] before[i]).name
                    == tokens[n];
                assert(tokens[i] != tokens[n]);
            }
        }
        assert(!listed_explicitly(before, tokens[n])) by {
            if listed_explicitly(before, tokens[n]) {
                let i = choose|i: int|
                    0 <= i < before.len() && (#[trigger] before[i]).name == tokens[n]
                        && !before[i].from_glob;
                assert(listed(before, tokens[n]));
            }
        }
        assert(all =~= before.push(Entry { name: tokens[n], from_glob: false }));
    } else {
        assert(all =~= Seq::empty());
    }
}

/// A name that no column has is refused, and so is a pattern that no column matches;
/// each by itself.
pub proof fn law_unknown_columns_are_refused(fields: Seq<Field>, token: Seq<char>)
    requires
        !is_column(fields, token),
    ensures
        !token.contains('*') && !token.contains('?') && !token.contains('.') ==> included(
            fields,
            seq![token],
        ) == Err::<Seq<Entry>, Refusal>(Refusal::Unknown(token)) && exclude_refusal(
            fields,
            seq![token],
        ) == Some(Refusal::Unknown(token)),
        (token.contains('*') || token.contains('?')) && (forall|i: int|
            0 <= i < fields.len() ==> !glob(token, (#[trigger] fields[i]).name@)) ==> included(
            fields,
            seq![token],
        ) == Err::<Seq<Entry>, Refusal>(Refusal::NoMatch(token)) && exclude_refusal(
            fields,
            seq![token],
        ) == Some(Refusal::NoMatch(token)),
{
    lemma_is_column(fields, token);
    let one = seq![token];
    assert(one.drop_last() =~= Seq::empty());
    reveal_with_fuel(included, 2);
    reveal_with_fuel(exclude_refusal, 2);
    assert(!Seq::<Seq<char>>::empty().contains(token));
    if any_match(token, names(fields)) {
        let i = choose|i: int| 0 <= i < names(fields).len() && glob(token, #[trigger] names(fields)[i]);
        assert(glob(token, fields[i].name@));
    }
}

/// Excluding columns leaves the others, in the order of the schema.
pub proof fn law_excluding_columns_leaves_the_others(
    all: Seq<Field>,
    fields: Seq<Field>,
    tokens: Seq<Seq<char>>,
)
    requires
        forall|i: int| 0 <= i < tokens.len() ==> is_column(all, #[trigger] tokens[i]),
    ensures
        remaining(tokens, names(all), fields) == names(fields).filter(
            |n: Seq<char>| !tokens.contains(n),
        ),
    decreases fields.len(),
{
    reveal(Seq::filter);
    let keep = |n: Seq<char>| !tokens.contains(n);
    if fields.len() > 0 {
        let init = fields.drop_last();
        law_excluding_columns_leaves_the_others(all, init, tokens);
        let name = fields.last().name@;
        assert(names(fields).drop_last() =~= names(init));
        assert(names(fields).last() == name);
        assert forall|i: int| 0 <= i < tokens.len() implies token_kind(
            #[trigger] tokens[i],
            names(all),
        ) is TopLevel by {
            lemma_is_column(all, tokens[i]);
            assert(is_column(all, tokens[i]));
        }
        assert(dropped(tokens, names(all), name) <==> tokens.contains(name)) by {
            if dropped(tokens, names(all), name) {
                let i = choose|i: int|
                    0 <= i < tokens.len() && drops(#[trigger] tokens[i], names(all), name);
                assert(tokens[i] == name);
            }
            if tokens.contains(name) {
                let i = choose|i: int| 0 <= i < tokens.len() && tokens[i] == name;
                assert(drops(tokens[i], names(all), name));
            }
        }
        assert(!touched(tokens, names(all), name)) by {
            if touched(tokens, names(all), name) {
                let i = choose|i: int|
                    0 <= i < tokens.len() && crate::projection::touches(
                        #[trigger] tokens[i],
                        names(all),
                        name,
                    );
                assert(token_kind(tokens[i], names(all)) is TopLevel);
            }
        }
        let before = remaining(tokens, names(all), init);
        if tokens.contains(name) {
            assert(before + Seq::<Seq<char>>::empty() =~= before);
        } else {
            assert(before + seq![name] =~= before.push(name));
        }
    } else {
        assert(names(fields) =~= Seq::empty());
    }
}

/// Without flags every column is shown; columns to exclude count before columns to
/// include.
pub proof fn law_excluding_counts_before_including(
    fields: Seq<Field>,
    columns: Option<Seq<Seq<char>>>,
    exclude: Seq<Seq<char>>,
)
    ensures
        resolution(fields, None, None) == Ok::<Option<Seq<Seq<char>>>, Refusal>(None),
        resolution(fields, columns, Some(exclude)) == resolution(fields, None, Some(exclude)),
        exclude_refusal(fields, exclude) is None ==> resolution(fields, columns, Some(exclude)) == Ok::<
            Option<Seq<Seq<char>>>,
            Refusal,
        >(Some(remaining(exclude, names(fields), fields))),
        columns matches Some(c) ==> (included(fields, c) matches Ok(e) ==> resolution(
            fields,
            columns,
            None,
        ) == Ok::<Option<Seq<Seq<char>>>, Refusal>(Some(Seq::new(e.len(), |i: int| e[i].name)))),
{
    if let Some(c) = columns {
        if let Ok(e) = included(fields, c) {
            assert(entry_names(e) =~= Seq::new(e.len(), |i: int| e[i].name));
        }
    }
}

/// A path of two names leads to the field of the second name inside the column of
/// the first. It may be null where either may.
pub proof fn law_path_leads_inside(
    field: Field,
    fields: Seq<Field>,
    children: Seq<Field>,
    outer: int,
    inner: int,
    entry: Seq<char>,
)
    requires
        0 <= outer < fields.len(),
        0 <= inner < children.len(),
        position(fields, fields[outer].name@) == outer,
        position(children, children[inner].name@) == inner,
        fields[outer].data_type.kind matches Kind::Struct(c) && c@ == children,
        !names(fields).contains(entry),
        split(entry, '.') == seq![fields[outer].name@, children[inner].name@],
        is_projected(field, fields, entry),
    ensures
        field.name@ == entry,
        field.data_type == children[inner].data_type,
        field.nullable <==> fields[outer].nullable || children[inner].nullable,
        field.metadata@.len() == 0,
        positions(fields, split(entry, '.'))[0] == outer,
        positions(fields, split(entry, '.'))[1] == inner,
{
    let segs = split(entry, '.');
    let rest = segs.drop_first();
    assert(rest =~= seq![children[inner].name@]);
    reveal_with_fuel(leaf_field, 2);
    reveal_with_fuel(path_nullable, 2);
    reveal_with_fuel(positions, 2);
    assert(leaf_field(children, rest) == children[inner]);
    assert(path_nullable(children, rest) == children[inner].nullable);
    assert(positions(children, rest)[0] == inner);
}

/// The row identity columns that are asked for come in a fixed order, and no others.
pub proof fn law_identity_columns_come_as_asked(flags: RowIds, name: Seq<char>)
    ensures
        requested(flags, name) <==> (flags.with_row_id && name == "_rowid"@) || (flags.with_row_addr
            && name == "_rowaddr"@),
        system_columns(flags).len() == (if flags.with_row_id {
            1int
        } else {
            0
        }) + (if flags.with_row_addr {
            1int
        } else {
            0
        }),
        flags.with_row_id ==> system_columns(flags)[0] == "_rowid"@,
        flags.with_row_addr ==> system_columns(flags).last() == "_rowaddr"@,
{
}

/// A search yields the columns that are asked for, or all, and the distance behind
/// them where it is not among them.
pub proof fn law_search_adds_the_distance(fields: Seq<Field>, projection: Option<Seq<Seq<char>>>)
    ensures
        ({
            let wanted = match projection {
                Some(cols) => cols,
                None => Seq::new(fields.len(), |i: int| fields[i].name@),
            };
            &&& wanted.is_prefix_of(searched(fields, projection))
            &&& wanted.contains("_distance"@) ==> searched(fields, projection) == wanted
            &&& !wanted.contains("_distance"@) ==> searched(fields, projection) == wanted.push(
                "_distance"@,
            )
        }),
{
    assert(names(fields) =~= Seq::new(fields.len(), |i: int| fields[i].name@));
}

/// A vector column is a fixed-size list of floats, as wide as the list; no other
/// column is one.
pub proof fn law_vectors_are_lists_of_floats(f: Field)
    ensures
        vector_width(f) matches Some(n) ==> (f.data_type.kind matches Kind::FixedSizeList(item, m) && m
            == n && (item.data_type.kind is Float16 || item.data_type.kind is Float32
            || item.data_type.kind is Float64)),
        f.data_type.kind matches Kind::FixedSizeList(item, m) ==> (item.data_type.kind is Float16
            || item.data_type.kind is Float32 || item.data_type.kind is Float64 ==> vector_width(f)
            == Some(m)),
{
}

/// A blob can be taken from a column of bytes of any layout, and from no other.
pub proof fn law_bytes_are_binary(k: Kind)
    ensures
        is_binary(k) <==> k is Binary || k is LargeBinary || k is BinaryView || k is FixedSizeBinary,
{
}

/// True where two columns have one name, type and nullability.
pub open spec fn same_column(a: Field, b: Field) -> bool {
    a.name@ == b.name@ && same_type(a.data_type, b.data_type) && a.nullable == b.nullable
}

/// The first difference of two schemas is the first column in which they differ.
pub proof fn law_schemas_differ_at_the_first_difference(a: Seq<Field>, b: Seq<Field>)
    requires
        a.len() == b.len(),
    ensures
        first_difference(a, b) <= a.len(),
        forall|i: int| 0 <= i < first_difference(a, b) ==> same_column(#[trigger] a[i], b[i]),
        first_difference(a, b) < a.len() ==> !same_column(
            a[first_difference(a, b) as int],
            b[first_difference(a, b) as int],
        ),
    decreases a.len(),
{
    if a.len() > 0 && same_column(a[0], b[0]) {
        let x = a.drop_first();
        let y = b.drop_first();
        law_schemas_differ_at_the_first_difference(x, y);
        assert forall|i: int| 0 <= i < first_difference(a, b) implies same_column(
            #[trigger] a[i],
            b[i],
        ) by {
            if i > 0 {
                assert(same_column(x[i - 1], y[i - 1]));
            }
        }
    }
}

/// True of a type that holds no other type.
pub open spec fn is_flat(k: Kind) -> bool {
    !(k is List || k is ListView || k is FixedSizeList || k is LargeList || k is LargeListView
        || k is Struct || k is Union || k is Dictionary || k is Mapping || k is RunEndEncoded)
}

/// Flat types are the same exactly where they are equal, timestamps by unit and zone;
/// and types of different kinds are never the same.
pub proof fn law_flat_types_are_compared_in_full(a: DataType, b: DataType)
    ensures
        is_flat(a.kind) && !(a.kind is Timestamp) ==> (same_type(a, b) <==> a.kind == b.kind),
        a.kind matches Kind::Timestamp(u, x) ==> (same_type(a, b) <==> (b.kind matches Kind::Timestamp(
            v,
            y,
        ) && u == v && (match (x, y) {
            (Some(s), Some(t)) => s@ == t@,
            (None, None) => true,
            _ => false,
        }))),
        same_type(a, b) ==> is_flat(a.kind) == is_flat(b.kind),
        same_type(a, b) ==> (a.kind is Struct <==> b.kind is Struct) && (a.kind is List
            <==> b.kind is List) && (a.kind is FixedSizeList <==> b.kind is FixedSizeList) && (
        a.kind is Dictionary <==> b.kind is Dictionary) && (a.kind is Mapping <==> b.kind is Mapping),
        a.kind matches Kind::FixedSizeList(x, m) ==> (b.kind matches Kind::FixedSizeList(y, n) ==> (
        same_type(a, b) ==> m == n && x.name@ == y.name@ && x.nullable == y.nullable && same_type(
            x.data_type,
            y.data_type,
        ))),
        a.kind matches Kind::List(x) ==> (b.kind matches Kind::List(y) ==> (same_type(a, b)
            ==> x.name@ == y.name@ && x.nullable == y.nullable && same_type(
            x.data_type,
            y.data_type,
        ))),
        a.kind matches Kind::Struct(x) ==> (b.kind matches Kind::Struct(y) ==> (same_type(a, b)
            ==> x@.len() == y@.len() && forall|i: int|
            0 <= i < x@.len() ==> (#[trigger] x@[i]).name@ == y@[i].name@ && x@[i].nullable
                == y@[i].nullable && same_type(x@[i].data_type, y@[i].data_type))),
{
    reveal_with_fuel(same_type, 3);
    reveal_with_fuel(crate::schema::same_field, 3);
    if let (Kind::Struct(x), Kind::Struct(y)) = (a.kind, b.kind) {
        if same_type(a, b) {
            assert forall|i: int| 0 <= i < x@.len() implies (#[trigger] x@[i]).name@ == y@[i].name@
                && x@[i].nullable == y@[i].nullable && same_type(x@[i].data_type, y@[i].data_type) by {
                assert(crate::schema::same_field(x@[i], y@[i]));
            }
        }
    }
}

/// What is projected are the columns that are asked for, in that order and under
/// those names; a whole column is taken as it is.
pub proof fn law_projection_keeps_names_and_order(
    out: Seq<Field>,
    fields: Seq<Field>,
    entries: Seq<Seq<char>>,
    i: int,
)
    requires
        are_projected(out, fields, entries),
        0 <= i < out.len(),
    ensures
        out.len() == entries.len(),
        out[i].name@ == entries[i],
        is_column(fields, entries[i]) ==> out[i] == fields[position(fields, entries[i]) as int],
{
    lemma_is_column(fields, entries[i]);
    assert(is_projected(out[i], fields, entries[i]));
    if is_column(fields, entries[i]) {
        law_columns_are_found_by_name(fields, entries[i]);
        let k = choose|k: int| 0 <= k < fields.len() && (#[trigger] fields[k]).name@ == entries[i];
        assert(position(fields, entries[i]) <= k);
    }
}

/// Fields that are asked for by name come in that order, each the first of its name;
/// the first name that no column has stops it.
pub proof fn law_named_fields_come_as_named(schema: Seq<Field>, wanted: Seq<Seq<char>>)
    ensures
        named_fields(schema, wanted) is Ok <==> forall|i: int|
            0 <= i < wanted.len() ==> is_column(schema, #[trigger] wanted[i]),
        named_fields(schema, wanted) matches Ok(out) ==> out.len() == wanted.len() && forall|i: int|
            0 <= i < out.len() ==> (#[trigger] out[i]).name@ == wanted[i] && out[i] == schema[position(
                schema,
                wanted[i],
            ) as int],
        named_fields(schema, wanted) matches Err(n) ==> n < wanted.len() && !is_column(
            schema,
            wanted[n as int],
        ) && forall|i: int| 0 <= i < n ==> is_column(schema, #[trigger] wanted[i]),
    decreases wanted.len(),
{
    if wanted.len() > 0 {
        let init = wanted.drop_last();
        let last = wanted.len() - 1;
        law_named_fields_come_as_named(schema, init);
        law_columns_are_found_by_name(schema, wanted[last]);
        assert forall|i: int| 0 <= i < init.len() implies #[trigger] init[i] == wanted[i] by {}
        assert(is_column(schema, wanted[last]) <==> position(schema, wanted[last]) < schema.len()) by {
            if is_column(schema, wanted[last]) {
                let k = choose|k: int|
                    0 <= k < schema.len() && (#[trigger] schema[k]).name@ == wanted[last];
                assert(position(schema, wanted[last]) <= k);
            } else if position(schema, wanted[last]) < schema.len() {
                assert(schema[position(schema, wanted[last]) as int].name@ == wanted[last]);
            }
        }
        match named_fields(schema, init) {
            Err(n) => {
                assert(init[n as int] == wanted[n as int]);
                assert forall|i: int| 0 <= i < n implies is_column(schema, #[trigger] wanted[i]) by {
                    assert(is_column(schema, init[i]));
                }
            },
            Ok(before) => {
                assert forall|i: int| 0 <= i < init.len() implies is_column(
                    schema,
                    #[trigger] wanted[i],
                ) by {
                    assert(is_column(schema, init[i]));
                }
                if is_column(schema, wanted[last]) {
                    let out = named_fields(schema, wanted)->Ok_0;
                    assert forall|i: int| 0 <= i < out.len() implies (#[trigger] out[i]).name@
                        == wanted[i] && out[i] == schema[position(schema, wanted[i]) as int] by {
                        if i < before.len() {
                            assert(out[i] == before[i]);
                            assert(before[i].name@ == init[i]);
                        }
                    }
                }
            },
        }
    }
}

/// An identity column that is excluded is refused where its flag asks for it, the
/// first of them.
pub proof fn law_first_requested_is_the_first(cols: Seq<Seq<char>>, flags: RowIds)
    ensures
        first_requested(cols, flags) <= cols.len(),
        first_requested(cols, flags) < cols.len() ==> requested(
            flags,
            cols[first_requested(cols, flags) as int],
        ),
        forall|i: int|
            0 <= i < first_requested(cols, flags) ==> !requested(flags, #[trigger] cols[i]),
    decreases cols.len(),
{
    if cols.len() > 0 && !requested(flags, cols[0]) {
        let rest = cols.drop_first();
        law_first_requested_is_the_first(rest, flags);
        assert forall|i: int| 0 <= i < first_requested(cols, flags) implies !requested(
            flags,
            #[trigger] cols[i],
        ) by {
            if i > 0 {
                assert(!requested(flags, rest[i - 1]));
            }
        }
    }
}

/// An identity column holds a number, and may be null.
pub proof fn law_identity_columns_hold_numbers(f: Field, name: Seq<char>)
    requires
        is_system_field(f, name),
    ensures
        f.name@ == name,
        f.data_type.kind is UInt64,
        f.data_type.display@ == "UInt64"@,
        f.data_type.debug@ == "UInt64"@,
        f.nullable,
{
}

/// The names that a message lists are those of the columns, in their order.
pub proof fn law_available_columns_are_listed(fields: Seq<Field>)
    ensures
        available(fields) == join(Seq::new(fields.len(), |i: int| fields[i].name@), ", "@),
{
    assert(names(fields) =~= Seq::new(fields.len(), |i: int| fields[i].name@));
}

/// A path of two names is refused where no column has the first, where that column is
/// no struct, or where nothing in it has the second; and only there.
pub proof fn law_paths_are_refused_where_they_lead_nowhere(
    fields: Seq<Field>,
    outer: Seq<char>,
    inner: Seq<char>,
    path: Seq<char>,
)
    requires
        split(path, '.') == seq![outer, inner],
        outer.len() > 0,
    ensures
        ({
            let at = position(fields, outer);
            let kind = fields[at as int].data_type.kind;
            &&& at >= fields.len() ==> bad_path(fields, path) == Some(
                Refusal::UnknownNested { path, parent: "<schema>"@, field: outer, fields },
            )
            &&& at < fields.len() && !(kind is Struct) ==> bad_path(fields, path) == Some(
                Refusal::NonStruct {
                    path,
                    segment: outer,
                    data_type: fields[at as int].data_type.debug@,
                },
            )
            &&& at < fields.len() ==> (kind matches Kind::Struct(c) ==> {
                &&& position(c@, inner) < c@.len() ==> bad_path(fields, path) is None
                &&& position(c@, inner) >= c@.len() ==> bad_path(fields, path) == Some(
                    Refusal::UnknownNested { path, parent: outer, field: inner, fields: c@ },
                )
            })
        }),
{
    let segs = split(path, '.');
    assert(segs.drop_first() =~= seq![inner]);
    reveal_with_fuel(path_refusal, 2);
}

/// True of a struct of fields that hold no others.
pub open spec fn is_plain_struct(f: Field, children: Seq<Field>) -> bool {
    &&& f.data_type.kind matches Kind::Struct(c) && c@ == children
    &&& forall|i: int| 0 <= i < children.len() ==> !((#[trigger] children[i]).data_type.kind is Struct)
}

/// The innermost fields of a struct of plain fields are these, each under the name of
/// the struct; of any other column it is the column itself.
pub proof fn law_leaves_stand_under_their_struct(prefix: Seq<char>, f: Field, children: Seq<Field>)
    ensures
        !(f.data_type.kind is Struct) ==> leaves(prefix, f) == seq![prefix],
        is_plain_struct(f, children) ==> leaves(prefix, f) == Seq::new(
            children.len(),
            |i: int| prefix + "."@ + children[i].name@,
        ),
{
    if is_plain_struct(f, children) {
        lemma_leaves(prefix, children, children.len());
        let all = Seq::new(children.len(), |i: int| prefix + "."@ + children[i].name@);
        assert(all.take(children.len() as int) =~= all);
    }
}

proof fn lemma_leaves(prefix: Seq<char>, children: Seq<Field>, n: nat)
    requires
        n <= children.len(),
        forall|i: int| 0 <= i < children.len() ==> !((#[trigger] children[i]).data_type.kind is Struct),
    ensures
        leaves_of(prefix, children, n) == Seq::new(
            children.len(),
            |i: int| prefix + "."@ + children[i].name@,
        ).take(n as int),
    decreases n,
{
    let all = Seq::new(children.len(), |i: int| prefix + "."@ + children[i].name@);
    if n > 0 {
        lemma_leaves(prefix, children, (n - 1) as nat);
        let c = children[n - 1];
        assert(!(c.data_type.kind is Struct));
        assert(leaves(prefix + "."@ + c.name@, c) == seq![prefix + "."@ + c.name@]);
        assert(all.take(n as int) =~= all.take(n - 1) + seq![prefix + "."@ + c.name@]);
    } else {
        assert(all.take(0) =~= Seq::empty());
    }
}

/// Excluding fields inside a column leaves its other innermost fields; excluding
/// nothing of a column leaves it whole.
pub proof fn law_excluding_inside_leaves_the_rest(
    tokens: Seq<Seq<char>>,
    cols: Seq<Seq<char>>,
    f: Field,
    leaf: Seq<char>,
)
    requires
        !dropped(tokens, cols, f.name@),
    ensures
        !touched(tokens, cols, f.name@) ==> remains(tokens, cols, f) == seq![f.name@],
        touched(tokens, cols, f.name@) ==> (remains(tokens, cols, f).contains(leaf) <==> leaves(
            f.name@,
            f,
        ).contains(leaf) && forall|i: int|
            0 <= i < tokens.len() && touches(#[trigger] tokens[i], cols, f.name@) ==> leaf != tokens[i]
                && !(tokens[i] + seq!['.']).is_prefix_of(leaf)),
{
    if touched(tokens, cols, f.name@) {
        let keep = |l: Seq<char>| !pruned(tokens, cols, f.name@, l);
        let all = leaves(f.name@, f);
        lemma_filtered(all, keep, leaf);
        assert(pruned(tokens, cols, f.name@, leaf) <==> exists|i: int|
            0 <= i < tokens.len() && touches(#[trigger] tokens[i], cols, f.name@) && (leaf
                == tokens[i] || (tokens[i] + seq!['.']).is_prefix_of(leaf))) by {
            assert forall|i: int| 0 <= i < tokens.len() implies (under(#[trigger] tokens[i], leaf) <==> (
            tokens[i] + seq!['.']).is_prefix_of(leaf)) by {
                lemma_under(tokens[i], leaf);
            }
            if pruned(tokens, cols, f.name@, leaf) {
                let i = choose|i: int|
                    0 <= i < tokens.len() && touches(#[trigger] tokens[i], cols, f.name@) && (leaf
                        == tokens[i] || under(tokens[i], leaf));
                assert(touches(tokens[i], cols, f.name@));
            }
        }
    }
}

proof fn lemma_filtered(
    all: Seq<Seq<char>>,
    keep: spec_fn(Seq<char>) -> bool,
    x: Seq<char>,
)
    ensures
        all.filter(keep).contains(x) <==> all.contains(x) && keep(x),
    decreases all.len(),
{
    reveal(Seq::filter);
    if all.len() > 0 {
        let init = all.drop_last();
        lemma_filtered(init, keep, x);
        let before = init.filter(keep);
        let after = all.filter(keep);
        if before.contains(x) {
            let i = choose|i: int| 0 <= i < before.len() && before[i] == x;
            assert(after[i] == x);
        }
        if init.contains(x) {
            let i = choose|i: int| 0 <= i < init.len() && init[i] == x;
            assert(all[i] == x);
        }
        if after.contains(x) && !before.contains(x) {
            let i = choose|i: int| 0 <= i < after.len() && after[i] == x;
            if i < before.len() {
                assert(before[i] == x);
            }
            assert(all[all.len() - 1] == x);
        }
        if all.contains(x) && !init.contains(x) {
            let i = choose|i: int| 0 <= i < all.len() && all[i] == x;
            if i < init.len() {
                assert(init[i] == x);
            }
            if keep(x) {
                assert(after[after.len() - 1] == x);
            }
        }
    }
}

proof fn lemma_under(prefix: Seq<char>, path: Seq<char>)
    ensures
        under(prefix, path) <==> (prefix + seq!['.']).is_prefix_of(path),
{
    let p = prefix + seq!['.'];
    if under(prefix, path) {
        assert(path.take(p.len() as int) =~= p) by {
            assert forall|i: int| 0 <= i < prefix.len() implies path[i] == prefix[i] by {
                assert(path.take(prefix.len() as int)[i] == prefix[i]);
            }
        }
    }
    if p.is_prefix_of(path) {
        assert(p[prefix.len() as int] == '.');
        assert(path.take(prefix.len() as int) =~= prefix) by {
            assert forall|i: int| 0 <= i < prefix.len() implies path[i] == prefix[i] by {
                assert(p[i] == prefix[i]);
                assert(path[i] == p[i]);
            }
        }
    }
}

/// The first input whose schema differs from that of the first input is the one that
/// is refused, by the first column that differs or by the number of columns.
pub proof fn law_first_other_schema_is_told(schemas: Seq<Schema>, from: nat)
    requires
        from <= schemas.len(),
    ensures
        from <= first_mismatch(schemas, from) <= schemas.len(),
        forall|i: int|
            from <= i < first_mismatch(schemas, from) ==> agree(
                schemas[0].fields@,
                (#[trigger] schemas[i]).fields@,
            ),
        first_mismatch(schemas, from) < schemas.len() ==> !agree(
            schemas[0].fields@,
            schemas[first_mismatch(schemas, from) as int].fields@,
        ),
    decreases schemas.len() - from,
{
    if from < schemas.len() && agree(schemas[0].fields@, schemas[from as int].fields@) {
        law_first_other_schema_is_told(schemas, from + 1);
    }
}

/// Schemas agree exactly where they have as many columns and every column agrees; a
/// difference is told by the numbers of columns where these differ, and else by the
/// name of the first column that does.
pub proof fn law_schemas_agree_in_every_column(a: Seq<Field>, b: Seq<Field>)
    ensures
        agree(a, b) <==> a.len() == b.len() && forall|i: int|
            0 <= i < a.len() ==> same_column(#[trigger] a[i], b[i]),
        a.len() != b.len() ==> difference(a, b) == "column count differs ("@ + dec(a.len()) + " vs "@
            + dec(b.len()) + ")"@,
        a.len() == b.len() && !agree(a, b) ==> exists|i: int|
            0 <= i < a.len() && !same_column(#[trigger] a[i], b[i]) && difference(a, b) == a[i].name@
                && forall|j: int| 0 <= j < i ==> same_column(#[trigger] a[j], b[j]),
{
    if a.len() == b.len() {
        law_schemas_differ_at_the_first_difference(a, b);
        let n = first_difference(a, b) as int;
        if n < a.len() {
            assert(!same_column(a[n], b[n]));
        }
    }
}

/// Excluding the same thing twice is refused.
pub proof fn law_excluding_twice_is_refused(fields: Seq<Field>, tokens: Seq<Seq<char>>, token: Seq<char>)
    requires
        exclude_refusal(fields, tokens) is None,
        tokens.contains(token),
    ensures
        exclude_refusal(fields, tokens.push(token)) == Some(Refusal::Duplicate(token)),
{
    assert(tokens.push(token).drop_last() =~= tokens);
}

/// Excluding a pattern leaves the columns that it does not match, in the order of the
/// schema.
pub proof fn law_excluding_a_pattern_leaves_the_others(
    all: Seq<Field>,
    fields: Seq<Field>,
    pattern: Seq<char>,
)
    requires
        !is_column(all, pattern),
        pattern.contains('*') || pattern.contains('?'),
    ensures
        remaining(seq![pattern], names(all), fields) == names(fields).filter(
            |n: Seq<char>| !glob(pattern, n),
        ),
    decreases fields.len(),
{
    reveal(Seq::filter);
    let tokens = seq![pattern];
    lemma_is_column(all, pattern);
    if fields.len() > 0 {
        let init = fields.drop_last();
        law_excluding_a_pattern_leaves_the_others(all, init, pattern);
        let name = fields.last().name@;
        assert(names(fields).drop_last() =~= names(init));
        assert(names(fields).last() == name);
        assert(tokens[0] == pattern);
        assert(dropped(tokens, names(all), name) <==> glob(pattern, name)) by {
            if glob(pattern, name) {
                assert(drops(tokens[0], names(all), name));
            }
        }
        assert(!touched(tokens, names(all), name)) by {
            if touched(tokens, names(all), name) {
                let i = choose|i: int|
                    0 <= i < tokens.len() && touches(#[trigger] tokens[i], names(all), name);
                assert(tokens[i] == pattern);
            }
        }
        let before = remaining(tokens, names(all), init);
        if glob(pattern, name) {
            assert(before + Seq::<Seq<char>>::empty() =~= before);
        } else {
            assert(before + seq![name] =~= before.push(name));
        }
    } else {
        assert(names(fields) =~= Seq::empty());
    }
}

/// A path goes into the column that its first name names: what stands before its
/// first dot.
pub proof fn law_paths_go_into_their_column(fields: Seq<Field>, token: Seq<char>, name: Seq<char>)
    requires
        !name.contains('.'),
    ensures
        touches(token, names(fields), name) <==> !is_column(fields, token) && !token.contains('*')
            && !token.contains('?') && (name + seq!['.']).is_prefix_of(token),
{
    lemma_is_column(fields, token);
    lemma_find(token, '.');
    let n = find(token, '.') as int;
    let p = name + seq!['.'];
    if touches(token, names(fields), name) {
        assert(token.take(n) == name);
        assert(n == name.len());
        assert(token.take(p.len() as int) =~= p) by {
            assert forall|i: int| 0 <= i < n implies token[i] == name[i] by {
                assert(token.take(n)[i] == name[i]);
            }
        }
    }
    if p.is_prefix_of(token) {
        assert forall|i: int| 0 <= i < name.len() implies #[trigger] token[i] != '.' by {
            assert(token[i] == p[i]);
            assert(p[i] == name[i]);
            if name[i] == '.' {
                assert(name.contains('.'));
            }
        }
        assert(p[name.len() as int] == '.');
        lemma_find_unique(token, '.', name.len() as int);
        assert(token.contains('.'));
        assert(token.take(name.len() as int) =~= name) by {
            assert forall|i: int| 0 <= i < name.len() implies token[i] == name[i] by {
                assert(token[i] == p[i]);
            }
        }
    }
}

/// A path that leads to a field is shown as it is written.
pub proof fn law_valid_paths_are_included(fields: Seq<Field>, path: Seq<char>)
    requires
        !is_column(fields, path),
        path.contains('.'),
        !path.contains('*'),
        !path.contains('?'),
    ensures
        bad_path(fields, path) is None ==> included(fields, seq![path]) == Ok::<Seq<Entry>, Refusal>(
            seq![Entry { name: path, from_glob: false }],
        ),
        bad_path(fields, path) matches Some(why) ==> included(fields, seq![path]) == Err::<
            Seq<Entry>,
            Refusal,
        >(why) && exclude_refusal(fields, seq![path]) == Some(why),
{
    lemma_is_column(fields, path);
    let one = seq![path];
    assert(one.drop_last() =~= Seq::empty());
    reveal_with_fuel(included, 2);
    reveal_with_fuel(exclude_refusal, 2);
    assert(!Seq::<Seq<char>>::empty().contains(path));
    assert(Seq::<Entry>::empty().push(Entry { name: path, from_glob: false }) =~= seq![
        Entry { name: path, from_glob: false },
    ]);
}

} // verus!
