//! The `--with-row-id` / `--with-row-addr` pseudo-columns.
//!
//! Lance tracks a stable per-row identity (`_rowid`) and a physical address
//! (`_rowaddr`). Neither is a schema column: they are *system* columns computed
//! at read time, appended to the output after the projected columns, `_rowid`
//! first, then `_rowaddr`. This module owns that convention.
use vstd::prelude::*;

use crate::error::Error;
use crate::schema::{plain_label, DataType, Field, Kind, Schema};
use crate::text::{same_text, texts};

verus! {

/// Column name of the stable row id.
pub const ROW_ID: &'static str = "_rowid";

/// Column name of the physical row address.
pub const ROW_ADDR: &'static str = "_rowaddr";

/// Which system pseudo-columns to emit.
#[derive(Debug, Clone, Copy, PartialEq, Eq, Structural)]
pub struct RowIds {
    pub with_row_id: bool,
    pub with_row_addr: bool,
}

impl Default for RowIds {
    fn default() -> (r: Self)
        ensures
            r == (RowIds { with_row_id: false, with_row_addr: false }),
    {
        RowIds { with_row_id: false, with_row_addr: false }
    }
}

/// The requested system columns in output order.
pub open spec fn system_columns(flags: RowIds) -> Seq<Seq<char>> {
    match (flags.with_row_id, flags.with_row_addr) {
        (true, true) => seq![ROW_ID@, ROW_ADDR@],
        (true, false) => seq![ROW_ID@],
        (false, true) => seq![ROW_ADDR@],
        (false, false) => Seq::empty(),
    }
}

/// True when `name` is one of the requested system columns.
pub open spec fn requested(flags: RowIds, name: Seq<char>) -> bool {
    (flags.with_row_id && name == ROW_ID@) || (flags.with_row_addr && name == ROW_ADDR@)
}

/// `requested` is membership among the system columns.
pub proof fn law_requested_is_membership(flags: RowIds, name: Seq<char>)
    ensures
        requested(flags, name) <==> system_columns(flags).contains(name),
{
    let cols = system_columns(flags);
    if requested(flags, name) {
        if flags.with_row_id && name == ROW_ID@ {
            assert(cols[0] == name);
        } else {
            assert(cols[cols.len() - 1] == name);
        }
    }
}

/// The views of a list of static names.
pub open spec fn name_views(v: Seq<&'static str>) -> Seq<Seq<char>> {
    v.map_values(|s: &'static str| s@)
}

impl RowIds {
    /// True when either pseudo-column was requested.
    pub fn any(&self) -> (r: bool)
        ensures
            r == (system_columns(*self).len() > 0),
            r == (self.with_row_id || self.with_row_addr),
    {
        self.with_row_id || self.with_row_addr
    }

    /// The requested system column names in output order (`_rowid` before
    /// `_rowaddr`). Empty when neither flag is set.
    pub fn columns(&self) -> (out: Vec<&'static str>)
        ensures
            name_views(out@) == system_columns(*self),
    {
        let mut out: Vec<&'static str> = Vec::new();
        if self.with_row_id {
            out.push(ROW_ID);
        }
        if self.with_row_addr {
            out.push(ROW_ADDR);
        }
        proof {
            assert(name_views(out@) =~= system_columns(*self));
        }
        out
    }

    /// True when `name` is one of the *requested* system columns.
    pub fn requests(&self, name: &str) -> (r: bool)
        ensures
            r == requested(*self, name@),
    {
        (self.with_row_id && same_text(name, ROW_ID)) || (self.with_row_addr && same_text(
            name,
            ROW_ADDR,
        ))
    }
}

/// Drop any requested system column named in `--columns`. The flags, not the
/// projection, govern whether the pseudo-columns are emitted, so naming one
/// beside its flag is redundant rather than an error. A system column named
/// without its flag is left in place, so the resolver reports it as unknown.
pub fn strip_columns(columns: Option<&[String]>, flags: RowIds) -> (r: Option<Vec<String>>)
    ensures
        match columns {
            None => r is None,
            Some(cols) => r matches Some(out) && texts(out@) == texts(cols@).filter(
                |c: Seq<char>| !requested(flags, c),
            ),
        },
{
    match columns {
        None => None,
        Some(cols) => {
            let ghost keep = |c: Seq<char>| !requested(flags, c);
            let mut out: Vec<String> = Vec::new();
            let mut i: usize = 0;
            while i < cols.len()
                invariant
                    i <= cols@.len(),
                    keep == (|c: Seq<char>| !requested(flags, c)),
                    texts(out@) == texts(cols@).take(i as int).filter(keep),
                decreases cols@.len() - i,
            {
                let ghost before = out@;
                proof {
                    reveal_with_fuel(Seq::filter, 2);
                    let next = texts(cols@).take(i + 1);
                    assert(next.drop_last() =~= texts(cols@).take(i as int));
                    assert(next.last() == cols@[i as int]@);
                }
                if !flags.requests(cols[i].as_str()) {
                    out.push(cols[i].clone());
                    proof {
                        assert(texts(out@) =~= texts(before).push(cols@[i as int]@));
                    }
                }
                i += 1;
            }
            proof {
                assert(texts(cols@).take(cols@.len() as int) =~= texts(cols@));
            }
            Some(out)
        },
    }
}

/// Position of the first requested system column in a list, or its length.
pub open spec fn first_requested(cols: Seq<Seq<char>>, flags: RowIds) -> nat
    decreases cols.len(),
{
    if cols.len() == 0 || requested(flags, cols[0]) {
        0
    } else {
        1 + first_requested(cols.drop_first(), flags)
    }
}

proof fn lemma_first_requested(cols: Seq<Seq<char>>, flags: RowIds, n: int)
    requires
        0 <= n <= cols.len(),
        n < cols.len() ==> requested(flags, cols[n]),
        forall|j: int| 0 <= j < n ==> !requested(flags, #[trigger] cols[j]),
    ensures
        first_requested(cols, flags) == n,
    decreases n,
{
    if n > 0 {
        assert(!requested(flags, cols[0]));
        lemma_first_requested(cols.drop_first(), flags, n - 1);
    }
}

/// Reject explicitly excluding a requested pseudo-column: it is always emitted
/// when its flag is set, so the request is contradictory. Excluding a system
/// column *without* its flag is left to the resolver.
pub fn validate_exclude(exclude: Option<&[String]>, flags: RowIds) -> (r: Result<(), Error>)
    ensures
        match exclude {
            None => r is Ok,
            Some(excl) => {
                let n = first_requested(texts(excl@), flags);
                if n >= excl@.len() {
                    r is Ok
                } else {
                    r matches Err(Error::RowIdExcluded { column, flag }) && column@
                        == excl@[n as int]@ && flag@ == (if column@ == ROW_ID@ {
                        "--with-row-id"@
                    } else {
                        "--with-row-addr"@
                    })
                }
            },
        },
{
    match exclude {
        None => Ok(()),
        Some(excl) => {
            let mut i: usize = 0;
            while i < excl.len()
                invariant
                    i <= excl@.len(),
                    exclude == Some(excl),
                    forall|j: int| 0 <= j < i ==> !requested(flags, #[trigger] texts(excl@)[j]),
                decreases excl@.len() - i,
            {
                if flags.requests(excl[i].as_str()) {
                    proof {
                        assert(texts(excl@)[i as int] == excl@[i as int]@);
                        lemma_first_requested(texts(excl@), flags, i as int);
                    }
                    let flag: &'static str = if same_text(excl[i].as_str(), ROW_ID) {
                        "--with-row-id"
                    } else {
                        "--with-row-addr"
                    };
                    return Err(Error::RowIdExcluded { column: excl[i].clone(), flag });
                }
                i += 1;
            }
            proof {
                lemma_first_requested(texts(excl@), flags, i as int);
            }
            Ok(())
        },
    }
}

/// True of the field that stands for a system column in a schema.
pub open spec fn is_system_field(f: Field, name: Seq<char>) -> bool {
    &&& f.name@ == name
    &&& f.data_type.kind == Kind::UInt64
    &&& f.data_type.debug@ == plain_label(Kind::UInt64)
    &&& f.data_type.display@ == plain_label(Kind::UInt64)
    &&& f.nullable
    &&& f.metadata@.len() == 0
}

/// Append the requested system fields to `schema`: projected columns first, then
/// `_rowid`, then `_rowaddr`, both `UInt64` and nullable. The schema's metadata is
/// kept only where nothing is appended.
pub fn extend_schema(schema: &Schema, flags: RowIds) -> (r: Schema)
    ensures
        system_columns(flags).len() == 0 ==> r == *schema,
        system_columns(flags).len() > 0 ==> r.metadata@.len() == 0,
        r.fields@.len() == schema.fields@.len() + system_columns(flags).len(),
        r.fields@.take(schema.fields@.len() as int) == schema.fields@,
        forall|k: int|
            0 <= k < system_columns(flags).len() ==> is_system_field(
                #[trigger] r.fields@[schema.fields@.len() + k],
                system_columns(flags)[k],
            ),
{
    if !flags.any() {
        proof {
            assert(schema.fields@.take(schema.fields@.len() as int) =~= schema.fields@);
        }
        return schema.clone();
    }
    let mut fields: Vec<Field> = copy_fields(schema.fields.as_slice());
    let names = flags.columns();
    let mut i: usize = 0;
    while i < names.len()
        invariant
            i <= names@.len(),
            name_views(names@) == system_columns(flags),
            fields@.len() == schema.fields@.len() + i,
            fields@.take(schema.fields@.len() as int) == schema.fields@,
            forall|k: int|
                0 <= k < i ==> is_system_field(
                    #[trigger] fields@[schema.fields@.len() + k],
                    system_columns(flags)[k],
                ),
        decreases names@.len() - i,
    {
        let ghost before = fields@;
        proof {
            assert(name_views(names@)[i as int] == names@[i as int]@);
        }
        fields.push(Field::new(names[i], DataType::uint64(), true));
        proof {
            assert(fields@.take(schema.fields@.len() as int) =~= before.take(
                schema.fields@.len() as int,
            ));
        }
        i += 1;
    }
    Schema::new(fields)
}

/// A copy of a list of fields.
pub fn copy_fields(v: &[Field]) -> (out: Vec<Field>)
    ensures
        out@ == v@,
        out@.take(v@.len() as int) == v@,
{
    let mut out: Vec<Field> = Vec::new();
    let mut i: usize = 0;
    while i < v.len()
        invariant
            i <= v@.len(),
            out@ == v@.take(i as int),
        decreases v@.len() - i,
    {
        proof {
            assert(v@.take(i + 1) =~= v@.take(i as int).push(v@[i as int]));
        }
        out.push(v[i].clone());
        i += 1;
    }
    proof {
        assert(v@.take(v@.len() as int) =~= v@);
    }
    out
}

} // verus!
