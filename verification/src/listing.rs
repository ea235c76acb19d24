//! Tables of metadata: one row per item, in columns of plain types.
use vstd::prelude::*;

use crate::cell::{cell_ok, Batch, Cell};
use crate::dataset::Instant;
use crate::json::opt_view;
use crate::schema::{is_utc_micros, plain_label, Field, Kind, Schema, TimeUnit};
use crate::text::texts;

verus! {

/// A table with its columns' names and types.
#[derive(Debug)]
pub struct Listing {
    pub schema: Schema,
    pub batch: Batch,
}

/// True of a plain field of this name and kind.
pub open spec fn is_field(f: Field, name: Seq<char>, kind: Kind, nullable: bool) -> bool {
    &&& f.name@ == name
    &&& f.data_type.kind == kind
    &&& f.data_type.debug@ == plain_label(kind)
    &&& f.data_type.display@ == plain_label(kind)
    &&& f.nullable == nullable
    &&& f.metadata@.len() == 0
}

/// True of a cell that holds an optional text.
pub open spec fn is_text(c: Cell, t: Option<Seq<char>>) -> bool {
    match t {
        Some(s) => c matches Cell::Text(x) && x@ == s,
        None => c is Null,
    }
}

/// A cell of an optional text.
pub fn text_cell(t: &Option<String>) -> (c: Cell)
    ensures
        is_text(c, opt_view(*t)),
        cell_ok(c),
{
    match t {
        Some(s) => Cell::Text(s.clone()),
        None => Cell::Null,
    }
}

/// True of a cell that holds an optional number.
pub open spec fn is_number(c: Cell, n: Option<u64>) -> bool {
    match n {
        Some(x) => c == Cell::UInt(x),
        None => c is Null,
    }
}

/// A cell of an optional number.
pub fn number_cell(n: Option<u64>) -> (c: Cell)
    ensures
        is_number(c, n),
        cell_ok(c),
{
    match n {
        Some(x) => Cell::UInt(x),
        None => Cell::Null,
    }
}

/// True of a field of this name and of microseconds in universal time.
pub open spec fn is_time_field(f: Field, name: Seq<char>, nullable: bool) -> bool {
    &&& f.name@ == name
    &&& is_utc_micros(f.data_type)
    &&& f.nullable == nullable
    &&& f.metadata@.len() == 0
}

/// True of a cell that holds an optional instant.
pub open spec fn is_time(c: Cell, t: Option<Instant>) -> bool {
    match t {
        Some(x) => c matches Cell::Timestamp(v, u, tz) && v == x.micros_of() && u
            == TimeUnit::Microsecond && (tz matches Some(z) && z@ == "UTC"@),
        None => c is Null,
    }
}

/// A cell of an optional instant.
pub fn time_cell(t: Option<Instant>) -> (c: Cell)
    requires
        t matches Some(x) ==> x.wf(),
    ensures
        is_time(c, t),
        cell_ok(c),
{
    match t {
        Some(x) => Cell::Timestamp(x.micros(), TimeUnit::Microsecond, Some("UTC".to_owned())),
        None => Cell::Null,
    }
}

/// True of a cell that holds a list of texts.
pub open spec fn is_text_list_cell(c: Cell, items: Seq<Seq<char>>) -> bool {
    c matches Cell::List(v) && v@.len() == items.len() && forall|i: int|
        0 <= i < v@.len() ==> is_text(#[trigger] v@[i], Some(items[i]))
}

/// A cell of a list of texts.
pub fn text_list_cell(items: &Vec<String>) -> (c: Cell)
    ensures
        is_text_list_cell(c, texts(items@)),
        cell_ok(c),
{
    let mut v: Vec<Cell> = Vec::new();
    let mut i: usize = 0;
    while i < items.len()
        invariant
            i <= items@.len(),
            v@.len() == i,
            forall|j: int|
                0 <= j < i ==> is_text(#[trigger] v@[j], Some(texts(items@)[j])) && cell_ok(v@[j]),
        decreases items@.len() - i,
    {
        proof {
            assert(texts(items@)[i as int] == items@[i as int]@);
        }
        v.push(Cell::Text(items[i].clone()));
        i += 1;
    }
    Cell::List(v)
}

} // verus!
