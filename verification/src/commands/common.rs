//! What several commands share: projected schemas, schema comparison, byte counts.
use vstd::prelude::*;

use crate::binary64::{
    at_least, law_nearest_is_within_half_a_unit, lemma_below_limit, of_count, one_decimal,
    one_decimal_text, tenths, Binary64,
};
use crate::error::Error;
use crate::projection::{
    exclude_refusal, included, is_projected, law_included_entries_are_valid, listed,
    projected_field, remaining, resolve, valid_entry, Refusal, entry_names, reports,
};
use crate::row_id::{first_requested, requested, strip_columns, validate_exclude, RowIds, ROW_ID};
use crate::schema::{names, same_type, type_eq, Field, Schema};
use crate::text::{dec, dec_u64, dec_usize, same_text, texts};

verus! {

// ---------- projections ----------

/// True where the fields are the output fields of the entries.
pub open spec fn are_projected(out: Seq<Field>, fields: Seq<Field>, entries: Seq<Seq<char>>) -> bool {
    out.len() == entries.len() && forall|i: int|
        0 <= i < out.len() ==> is_projected(#[trigger] out[i], fields, entries[i])
}

/// The schema of the projected output: one field per entry, a nested path becoming a
/// single field named by the path. Without a projection, the schema itself.
pub fn project_arrow_schema(schema: &Schema, projection: Option<&[String]>) -> (r: Schema)
    requires
        projection matches Some(cols) ==> forall|i: int|
            0 <= i < cols@.len() ==> valid_entry(schema.fields@, (#[trigger] cols@[i])@),
    ensures
        match projection {
            None => r == *schema,
            Some(cols) => are_projected(r.fields@, schema.fields@, texts(cols@))
                && r.metadata@.len() == 0,
        },
{
    match projection {
        None => schema.clone(),
        Some(cols) => {
            let mut fields: Vec<Field> = Vec::new();
            let mut i: usize = 0;
            while i < cols.len()
                invariant
                    i <= cols@.len(),
                    fields@.len() == i,
                    forall|j: int|
                        0 <= j < cols@.len() ==> valid_entry(
                            schema.fields@,
                            (#[trigger] cols@[j])@,
                        ),
                    forall|j: int|
                        0 <= j < i ==> is_projected(
                            #[trigger] fields@[j],
                            schema.fields@,
                            texts(cols@)[j],
                        ),
                decreases cols@.len() - i,
            {
                proof {
                    assert(texts(cols@)[i as int] == cols@[i as int]@);
                }
                fields.push(projected_field(schema, cols[i].as_str()));
                i += 1;
            }
            Schema::new(fields)
        },
    }
}

/// What `--columns` and `--exclude-columns` come to: the entries to read (`None` for
/// all columns), or why a name is refused.
pub open spec fn resolution(
    fields: Seq<Field>,
    columns: Option<Seq<Seq<char>>>,
    exclude: Option<Seq<Seq<char>>>,
) -> Result<Option<Seq<Seq<char>>>, Refusal> {
    match (exclude, columns) {
        (None, None) => Ok(None),
        (Some(excl), _) => match exclude_refusal(fields, excl) {
            None => Ok(Some(remaining(excl, names(fields), fields))),
            Some(why) => Err(why),
        },
        (None, Some(incl)) => match included(fields, incl) {
            Ok(entries) => Ok(Some(entry_names(entries))),
            Err(why) => Err(why),
        },
    }
}

/// The texts of an optional list.
pub open spec fn opt_texts(o: Option<&[String]>) -> Option<Seq<Seq<char>>> {
    match o {
        Some(v) => Some(texts(v@)),
        None => None,
    }
}

/// True where every entry that excluding columns leaves leads to a field. Only a
/// schema with nested fields of equal or dotted names can fail this.
pub open spec fn leaves_fields(fields: Seq<Field>, exclude: Option<Seq<Seq<char>>>) -> bool {
    exclude matches Some(excl) ==> exclude_refusal(fields, excl) is None ==> forall|i: int|
        0 <= i < remaining(excl, names(fields), fields).len() ==> valid_entry(
            fields,
            #[trigger] remaining(excl, names(fields), fields)[i],
        )
}

/// A resolved projection with the schema that it yields.
#[derive(Debug)]
pub struct Projected {
    pub entries: Option<Vec<String>>,
    pub schema: Schema,
}

/// Resolve the requested columns and project the schema to them.
pub fn project(schema: &Schema, columns: Option<&[String]>, exclude: Option<&[String]>) -> (r:
    Result<Projected, Error>)
    requires
        leaves_fields(schema.fields@, opt_texts(exclude)),
    ensures
        match resolution(schema.fields@, opt_texts(columns), opt_texts(exclude)) {
            Ok(None) => r matches Ok(p) && p.entries is None && p.schema == *schema,
            Ok(Some(entries)) => r matches Ok(p) && (p.entries matches Some(e) && texts(e@)
                == entries) && are_projected(p.schema.fields@, schema.fields@, entries)
                && p.schema.metadata@.len() == 0,
            Err(why) => r matches Err(e) && reports(e, why, schema.fields@),
        },
{
    match resolve(schema, columns, exclude) {
        Err(e) => Err(e),
        Ok(None) => Ok(Projected { entries: None, schema: schema.clone() }),
        Ok(Some(entries)) => {
            proof {
                assert forall|i: int| 0 <= i < entries@.len() implies valid_entry(
                    schema.fields@,
                    (#[trigger] entries@[i])@,
                ) by {
                    assert(texts(entries@)[i] == entries@[i]@);
                    if let Some(incl) = columns {
                        if exclude is None {
                            law_included_entries_are_valid(
                                schema.fields@,
                                texts(incl@),
                                entries@[i]@,
                            );
                            let all = included(schema.fields@, texts(incl@))->Ok_0;
                            assert(texts(entries@).len() == entries@.len());
                            assert(entry_names(all).len() == all.len());
                            assert(entry_names(all)[i] == entries@[i]@);
                            assert(all[i].name == entries@[i]@);
                            assert(listed(all, entries@[i]@));
                        }
                    }
                }
            }
            let projected = project_arrow_schema(schema, Some(entries.as_slice()));
            Ok(Projected { entries: Some(entries), schema: projected })
        },
    }
}

/// What the row-identity flags ask of a projection: nothing where no flag is set; a
/// dataset that has row identity; no exclusion of what a flag asks for; and the
/// named columns without those that a flag emits anyway.
pub fn prepare_row_id_columns(
    path: &str,
    has_row_ids: bool,
    columns: Option<&[String]>,
    exclude: Option<&[String]>,
    flags: RowIds,
) -> (r: Result<Option<Vec<String>>, Error>)
    ensures
        if (flags.with_row_id || flags.with_row_addr) && !has_row_ids {
            r matches Err(Error::RowIdUnsupported { path: p }) && p@ == path@
        } else if exclude matches Some(excl) && first_requested(texts(excl@), flags)
            < excl@.len() {
            let name = exclude->Some_0@[first_requested(
                texts(exclude->Some_0@),
                flags,
            ) as int]@;
            r matches Err(Error::RowIdExcluded { column, flag }) && column@ == name && flag@ == (
            if name == ROW_ID@ {
                "--with-row-id"@
            } else {
                "--with-row-addr"@
            })
        } else {
            match columns {
                None => r matches Ok(None),
                Some(cols) => r matches Ok(Some(out)) && texts(out@) == texts(cols@).filter(
                    |c: Seq<char>| !requested(flags, c),
                ),
            }
        },
{
    match require_row_ids(path, has_row_ids, flags) {
        Ok(()) => {},
        Err(e) => return Err(e),
    }
    match validate_exclude(exclude, flags) {
        Ok(()) => {},
        Err(e) => return Err(e),
    }
    Ok(strip_columns(columns, flags))
}

// ---------- comparing schemas ----------

/// True where two columns agree in name, type and nullability.
pub open spec fn columns_agree(a: Field, b: Field) -> bool {
    a.name@ == b.name@ && same_type(a.data_type, b.data_type) && a.nullable == b.nullable
}

/// Position of the first pair of columns that disagree, or the number of columns.
pub open spec fn first_difference(a: Seq<Field>, b: Seq<Field>) -> nat
    decreases a.len(),
{
    if a.len() == 0 || b.len() == 0 || !columns_agree(a[0], b[0]) {
        0
    } else {
        1 + first_difference(a.drop_first(), b.drop_first())
    }
}

proof fn lemma_first_difference(a: Seq<Field>, b: Seq<Field>, n: int)
    requires
        a.len() == b.len(),
        0 <= n <= a.len(),
        n < a.len() ==> !columns_agree(a[n], b[n]),
        forall|i: int| 0 <= i < n ==> columns_agree(#[trigger] a[i], b[i]),
    ensures
        first_difference(a, b) == n,
    decreases n,
{
    if n > 0 {
        assert(columns_agree(a[0], b[0]));
        lemma_first_difference(a.drop_first(), b.drop_first(), n - 1);
    }
}

/// Success when two schemas have the same columns (name, type, nullability) in the
/// same order. Otherwise the name of the first column that differs, or how the
/// numbers of columns differ.
pub fn schemas_match(a: &Schema, b: &Schema) -> (r: Result<(), String>)
    ensures
        ({
            let (x, y) = (a.fields@, b.fields@);
            if x.len() != y.len() {
                r matches Err(s) && s@ == "column count differs ("@ + dec(x.len()) + " vs "@ + dec(
                    y.len(),
                ) + ")"@
            } else if first_difference(x, y) < x.len() {
                r matches Err(s) && s@ == x[first_difference(x, y) as int].name@
            } else {
                r is Ok
            }
        }),
{
    if a.fields.len() != b.fields.len() {
        let mut s = "column count differs (".to_owned();
        s.append(dec_usize(a.fields.len()).as_str());
        s.append(" vs ");
        s.append(dec_usize(b.fields.len()).as_str());
        s.append(")");
        return Err(s);
    }
    let mut i: usize = 0;
    while i < a.fields.len()
        invariant
            i <= a.fields@.len(),
            a.fields@.len() == b.fields@.len(),
            forall|j: int|
                0 <= j < i ==> columns_agree(#[trigger] a.fields@[j], b.fields@[j]),
        decreases a.fields@.len() - i,
    {
        let fa = &a.fields[i];
        let fb = &b.fields[i];
        if !same_text(fa.name.as_str(), fb.name.as_str()) || !type_eq(&fa.data_type, &fb.data_type)
            || fa.nullable != fb.nullable {
            proof {
                lemma_first_difference(a.fields@, b.fields@, i as int);
            }
            return Err(fa.name.clone());
        }
        i += 1;
    }
    proof {
        lemma_first_difference(a.fields@, b.fields@, i as int);
    }
    Ok(())
}

// ---------- byte counts ----------

/// The unit names, from bytes up.
pub open spec fn unit_name(unit: nat) -> Seq<char> {
    if unit == 0 {
        "B"@
    } else if unit == 1 {
        "KiB"@
    } else if unit == 2 {
        "MiB"@
    } else if unit == 3 {
        "GiB"@
    } else if unit == 4 {
        "TiB"@
    } else {
        "PiB"@
    }
}

/// A value and the unit that it is shown in. The next unit is taken from 1023.95 on,
/// which would be shown as 1024.0.
pub open spec fn in_unit(v: (nat, int), unit: nat) -> ((nat, int), nat)
    decreases 5 - unit,
{
    if unit < 5 && v.0 > 0 && at_least(v, (9006759450089882, -43)) {
        in_unit((v.0, v.1 - 10), unit + 1)
    } else {
        (v, unit)
    }
}

/// A number of bytes as it is shown.
pub open spec fn human(bytes: nat) -> Seq<char> {
    if bytes < 1024 {
        dec(bytes) + " B"@
    } else {
        let (v, unit) = in_unit(of_count(bytes), 0);
        one_decimal(tenths(v)) + " "@ + unit_name(unit)
    }
}

/// Format a number of bytes with binary units.
pub fn human_bytes(bytes: u64) -> (r: String)
    ensures
        r@ == human(bytes as nat),
{
    if bytes < 1024 {
        let mut s = dec_u64(bytes);
        s.append(" B");
        return s;
    }
    let limit = Binary64 { m: 9006759450089882, e: -43 };
    let mut value = Binary64::of(bytes);
    let mut unit: u8 = 0;
    while unit < 5 && value.reaches(limit)
        invariant
            unit <= 5,
            limit.m == 9006759450089882,
            limit.e == -43,
            value.wf(),
            -200 - 10 * unit <= value.e <= 60,
            in_unit(of_count(bytes as nat), 0) == in_unit(value.model(), unit as nat),
        decreases 5 - unit,
    {
        value = Binary64 { m: value.m, e: value.e - 10 };
        unit += 1;
    }
    let mut s = one_decimal_text(value.to_tenths());
    s.append(" ");
    let name = match unit {
        0 => "B",
        1 => "KiB",
        2 => "MiB",
        3 => "GiB",
        4 => "TiB",
        _ => "PiB",
    };
    s.append(name);
    s
}

/// A command of its own format needs a dataset of that format.
pub fn require_lance(command: &'static str, path: &str, is_lance: bool) -> (r: Result<(), Error>)
    ensures
        is_lance ==> r is Ok,
        !is_lance ==> (r matches Err(Error::NotLance { command: c, path: p }) && c@ == command@
            && p@ == path@),
{
    if is_lance {
        Ok(())
    } else {
        Err(Error::NotLance { command, path: path.to_owned() })
    }
}

/// Row identity needs a dataset that has it.
pub fn require_row_ids(path: &str, has_row_ids: bool, flags: RowIds) -> (r: Result<(), Error>)
    ensures
        (flags.with_row_id || flags.with_row_addr) && !has_row_ids ==> (r matches Err(
            Error::RowIdUnsupported { path: p },
        ) && p@ == path@),
        !(flags.with_row_id || flags.with_row_addr) || has_row_ids ==> r is Ok,
{
    if flags.any() && !has_row_ids {
        Err(Error::RowIdUnsupported { path: path.to_owned() })
    } else {
        Ok(())
    }
}

/// No unit but the last is shown with 1024 or more of it.
pub proof fn law_no_unit_shows_1024(bytes: nat)
    requires
        bytes > 0,
    ensures
        ({
            let (v, unit) = in_unit(of_count(bytes), 0);
            unit < 5 ==> tenths(v) < 10_240
        }),
{
    law_nearest_is_within_half_a_unit(bytes, 1);
    lemma_in_unit(of_count(bytes), 0);
    let (v, unit) = in_unit(of_count(bytes), 0);
    if unit < 5 {
        lemma_below_limit(v);
    }
}

/// The mantissa is the same in every unit, and the unit is the last or the value is
/// below the limit.
proof fn lemma_in_unit(v: (nat, int), unit: nat)
    requires
        v.0 > 0,
    ensures
        in_unit(v, unit).0.0 == v.0,
        in_unit(v, unit).1 < 5 ==> !at_least(in_unit(v, unit).0, (9006759450089882, -43)),
    decreases 5 - unit,
{
    if unit < 5 && at_least(v, (9006759450089882, -43)) {
        lemma_in_unit((v.0, v.1 - 10), unit + 1);
    }
}

} // verus!
