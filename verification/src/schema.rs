//! The logical schema of a dataset, held as plain values: columns with their name,
//! type, nullability and metadata.
use std::sync::Arc;
use vstd::prelude::*;

use crate::text::{join, join_texts, same_text, texts};

verus! {

/// Resolution of a time-like value.
#[derive(Debug, Clone, Copy, PartialEq, Eq, Structural)]
pub enum TimeUnit {
    Second,
    Millisecond,
    Microsecond,
    Nanosecond,
}

/// Layout of a calendar interval.
#[derive(Debug, Clone, Copy, PartialEq, Eq, Structural)]
pub enum IntervalUnit {
    YearMonth,
    DayTime,
    MonthDayNano,
}

/// The shape of an Arrow type. Nested types hold their children behind `Arc`, so
/// that a copy shares them.
#[derive(Debug)]
pub enum Kind {
    Null,
    Boolean,
    Int8,
    Int16,
    Int32,
    Int64,
    UInt8,
    UInt16,
    UInt32,
    UInt64,
    Float16,
    Float32,
    Float64,
    Timestamp(TimeUnit, Option<String>),
    Date32,
    Date64,
    Time32(TimeUnit),
    Time64(TimeUnit),
    Duration(TimeUnit),
    Interval(IntervalUnit),
    Binary,
    FixedSizeBinary(i32),
    LargeBinary,
    BinaryView,
    Utf8,
    LargeUtf8,
    Utf8View,
    List(Arc<Field>),
    ListView(Arc<Field>),
    FixedSizeList(Arc<Field>, i32),
    LargeList(Arc<Field>),
    LargeListView(Arc<Field>),
    Struct(Arc<Vec<Field>>),
    /// The members, each with its type id, and whether the layout is dense.
    Union(Arc<Vec<(i8, Field)>>, bool),
    Dictionary(Arc<DataType>, Arc<DataType>),
    Decimal32(u8, i8),
    Decimal64(u8, i8),
    Decimal128(u8, i8),
    Decimal256(u8, i8),
    Mapping(Arc<Field>, bool),
    RunEndEncoded(Arc<Field>, Arc<Field>),
}

/// An Arrow type: its shape, and the two texts that the Arrow implementation
/// prints for it (`{:?}` and `{}`), which reports and errors show.
#[derive(Debug)]
pub struct DataType {
    pub kind: Kind,
    pub debug: String,
    pub display: String,
}

/// One column, or one child of a nested type. `metadata` is kept in ascending
/// order of its keys.
#[derive(Debug)]
pub struct Field {
    pub name: String,
    pub data_type: DataType,
    pub nullable: bool,
    pub metadata: Arc<Vec<(String, String)>>,
}

/// The columns of a dataset, in order, and the metadata of the whole schema, kept
/// in ascending order of its keys.
#[derive(Debug)]
pub struct Schema {
    pub fields: Arc<Vec<Field>>,
    pub metadata: Arc<Vec<(String, String)>>,
}

impl Clone for Kind {
    fn clone(&self) -> (r: Self)
        ensures
            r == *self,
    {
        match self {
            Kind::Null => Kind::Null,
            Kind::Boolean => Kind::Boolean,
            Kind::Int8 => Kind::Int8,
            Kind::Int16 => Kind::Int16,
            Kind::Int32 => Kind::Int32,
            Kind::Int64 => Kind::Int64,
            Kind::UInt8 => Kind::UInt8,
            Kind::UInt16 => Kind::UInt16,
            Kind::UInt32 => Kind::UInt32,
            Kind::UInt64 => Kind::UInt64,
            Kind::Float16 => Kind::Float16,
            Kind::Float32 => Kind::Float32,
            Kind::Float64 => Kind::Float64,
            Kind::Timestamp(u, tz) => Kind::Timestamp(*u, tz.clone()),
            Kind::Date32 => Kind::Date32,
            Kind::Date64 => Kind::Date64,
            Kind::Time32(u) => Kind::Time32(*u),
            Kind::Time64(u) => Kind::Time64(*u),
            Kind::Duration(u) => Kind::Duration(*u),
            Kind::Interval(u) => Kind::Interval(*u),
            Kind::Binary => Kind::Binary,
            Kind::FixedSizeBinary(n) => Kind::FixedSizeBinary(*n),
            Kind::LargeBinary => Kind::LargeBinary,
            Kind::BinaryView => Kind::BinaryView,
            Kind::Utf8 => Kind::Utf8,
            Kind::LargeUtf8 => Kind::LargeUtf8,
            Kind::Utf8View => Kind::Utf8View,
            Kind::List(f) => Kind::List(f.clone()),
            Kind::ListView(f) => Kind::ListView(f.clone()),
            Kind::FixedSizeList(f, n) => Kind::FixedSizeList(f.clone(), *n),
            Kind::LargeList(f) => Kind::LargeList(f.clone()),
            Kind::LargeListView(f) => Kind::LargeListView(f.clone()),
            Kind::Struct(fs) => Kind::Struct(fs.clone()),
            Kind::Union(fs, d) => Kind::Union(fs.clone(), *d),
            Kind::Dictionary(k, v) => Kind::Dictionary(k.clone(), v.clone()),
            Kind::Decimal32(p, s) => Kind::Decimal32(*p, *s),
            Kind::Decimal64(p, s) => Kind::Decimal64(*p, *s),
            Kind::Decimal128(p, s) => Kind::Decimal128(*p, *s),
            Kind::Decimal256(p, s) => Kind::Decimal256(*p, *s),
            Kind::Mapping(f, s) => Kind::Mapping(f.clone(), *s),
            Kind::RunEndEncoded(r, v) => Kind::RunEndEncoded(r.clone(), v.clone()),
        }
    }
}

impl Clone for DataType {
    fn clone(&self) -> (r: Self)
        ensures
            r == *self,
    {
        DataType {
            kind: self.kind.clone(),
            debug: self.debug.clone(),
            display: self.display.clone(),
        }
    }
}

impl Clone for Field {
    fn clone(&self) -> (r: Self)
        ensures
            r == *self,
    {
        Field {
            name: self.name.clone(),
            data_type: self.data_type.clone(),
            nullable: self.nullable,
            metadata: self.metadata.clone(),
        }
    }
}

impl Clone for Schema {
    fn clone(&self) -> (r: Self)
        ensures
            r == *self,
    {
        Schema { fields: self.fields.clone(), metadata: self.metadata.clone() }
    }
}

/// The text that the Arrow implementation prints for an unnested type without
/// parameters, in either of its two forms.
pub open spec fn plain_label(kind: Kind) -> Seq<char> {
    match kind {
        Kind::Utf8 => "Utf8"@,
        Kind::UInt64 => "UInt64"@,
        Kind::Float64 => "Float64"@,
        _ => Seq::empty(),
    }
}

/// True of microseconds in universal time, with its texts.
pub open spec fn is_utc_micros(t: DataType) -> bool {
    &&& t.kind matches Kind::Timestamp(u, tz) && u == TimeUnit::Microsecond && (tz matches Some(
        z,
    ) && z@ == "UTC"@)
    &&& t.debug@ == "Timestamp(Microsecond, Some(\"UTC\"))"@
    &&& t.display@ == "Timestamp(\u{b5}s, \"UTC\")"@
}

/// True of a list of texts, with its texts.
pub open spec fn is_text_list(t: DataType) -> bool {
    &&& t.kind matches Kind::List(item) && item.name@ == "item"@ && item.data_type.kind
        == Kind::Utf8 && item.nullable && item.metadata@.len() == 0
    &&& t.debug@ == "List(Field { data_type: Utf8, nullable: true })"@
    &&& t.display@ == "List(Utf8)"@
}

impl DataType {
    /// `Utf8`, with its texts.
    pub fn utf8() -> (r: Self)
        ensures
            r.kind == Kind::Utf8,
            r.debug@ == plain_label(Kind::Utf8),
            r.display@ == plain_label(Kind::Utf8),
    {
        DataType { kind: Kind::Utf8, debug: "Utf8".to_owned(), display: "Utf8".to_owned() }
    }

    /// `UInt64`, with its texts.
    pub fn uint64() -> (r: Self)
        ensures
            r.kind == Kind::UInt64,
            r.debug@ == plain_label(Kind::UInt64),
            r.display@ == plain_label(Kind::UInt64),
    {
        DataType { kind: Kind::UInt64, debug: "UInt64".to_owned(), display: "UInt64".to_owned() }
    }

    /// Microseconds in universal time, with its texts.
    pub fn utc_micros() -> (r: Self)
        ensures
            is_utc_micros(r),
    {
        DataType {
            kind: Kind::Timestamp(TimeUnit::Microsecond, Some("UTC".to_owned())),
            debug: "Timestamp(Microsecond, Some(\"UTC\"))".to_owned(),
            display: "Timestamp(\u{b5}s, \"UTC\")".to_owned(),
        }
    }

    /// A list of texts, with its texts.
    pub fn text_list() -> (r: Self)
        ensures
            is_text_list(r),
    {
        let item = Field::new("item", DataType::utf8(), true);
        DataType {
            kind: Kind::List(Arc::new(item)),
            debug: "List(Field { data_type: Utf8, nullable: true })".to_owned(),
            display: "List(Utf8)".to_owned(),
        }
    }

    /// `Float64`, with its texts.
    pub fn float64() -> (r: Self)
        ensures
            r.kind == Kind::Float64,
            r.debug@ == plain_label(Kind::Float64),
            r.display@ == plain_label(Kind::Float64),
    {
        DataType { kind: Kind::Float64, debug: "Float64".to_owned(), display: "Float64".to_owned() }
    }
}

impl Field {
    /// A column without metadata.
    pub fn new(name: &str, data_type: DataType, nullable: bool) -> (r: Self)
        ensures
            r.name@ == name@,
            r.data_type == data_type,
            r.nullable == nullable,
            r.metadata@.len() == 0,
    {
        Field { name: name.to_owned(), data_type, nullable, metadata: Arc::new(Vec::new()) }
    }
}

impl Schema {
    /// A schema of `fields`, without metadata.
    pub fn new(fields: Vec<Field>) -> (r: Self)
        ensures
            r.fields@ == fields@,
            r.metadata@.len() == 0,
    {
        Schema { fields: Arc::new(fields), metadata: Arc::new(Vec::new()) }
    }
}

// ---------- names ----------

/// The names of a list of columns.
pub open spec fn names(fields: Seq<Field>) -> Seq<Seq<char>> {
    fields.map_values(|f: Field| f.name@)
}

/// The names of a list of columns as errors list them.
pub open spec fn available(fields: Seq<Field>) -> Seq<char> {
    join(names(fields), ", "@)
}

/// Position of the first column named `name`, or the number of columns where there
/// is none.
pub open spec fn position(fields: Seq<Field>, name: Seq<char>) -> nat
    decreases fields.len(),
{
    if fields.len() == 0 || fields[0].name@ == name {
        0
    } else {
        1 + position(fields.drop_first(), name)
    }
}

pub proof fn lemma_position(fields: Seq<Field>, name: Seq<char>)
    ensures
        position(fields, name) <= fields.len(),
        position(fields, name) < fields.len() ==> fields[position(fields, name) as int].name@
            == name,
        forall|i: int| 0 <= i < position(fields, name) ==> (#[trigger] fields[i]).name@ != name,
        names(fields).contains(name) <==> position(fields, name) < fields.len(),
    decreases fields.len(),
{
    if fields.len() == 0 || fields[0].name@ == name {
        if fields.len() > 0 {
            assert(names(fields)[0] == name);
        }
    } else {
        let rest = fields.drop_first();
        lemma_position(rest, name);
        assert forall|i: int| 0 <= i < position(fields, name) implies (
        #[trigger] fields[i]).name@ != name by {
            if i > 0 {
                assert(rest[i - 1] == fields[i]);
            }
        }
        assert(names(rest) =~= names(fields).drop_first());
        if names(fields).contains(name) {
            let i = choose|i: int| 0 <= i < fields.len() && names(fields)[i] == name;
            assert(i > 0);
            assert(names(rest)[i - 1] == name);
        }
        if names(rest).contains(name) {
            let i = choose|i: int| 0 <= i < rest.len() && names(rest)[i] == name;
            assert(names(fields)[i + 1] == name);
        }
    }
}

/// A position with the name, before which no column has it, is the first.
pub proof fn lemma_position_unique(fields: Seq<Field>, name: Seq<char>, n: int)
    requires
        0 <= n <= fields.len(),
        n < fields.len() ==> fields[n].name@ == name,
        forall|i: int| 0 <= i < n ==> (#[trigger] fields[i]).name@ != name,
    ensures
        position(fields, name) == n,
{
    lemma_position(fields, name);
    let p = position(fields, name) as int;
    if p < n {
        assert(fields[p].name@ != name);
    } else if p > n {
        assert(fields[n].name@ != name);
    }
}

/// The first column named `name`.
pub fn find_field(fields: &[Field], name: &str) -> (r: Option<usize>)
    ensures
        match r {
            Some(i) => i == position(fields@, name@) && i < fields@.len() && fields@[i as int].name@
                == name@,
            None => position(fields@, name@) == fields@.len(),
        },
        r is Some <==> names(fields@).contains(name@),
{
    let mut i: usize = 0;
    while i < fields.len()
        invariant
            i <= fields@.len(),
            forall|j: int| 0 <= j < i ==> (#[trigger] fields@[j]).name@ != name@,
        decreases fields@.len() - i,
    {
        if same_text(fields[i].name.as_str(), name) {
            proof {
                lemma_position_unique(fields@, name@, i as int);
                lemma_position(fields@, name@);
            }
            return Some(i);
        }
        i += 1;
    }
    proof {
        lemma_position_unique(fields@, name@, i as int);
        lemma_position(fields@, name@);
    }
    None
}

/// The names of `fields`, in order.
pub fn field_names(fields: &[Field]) -> (r: Vec<String>)
    ensures
        texts(r@) == names(fields@),
{
    let mut out: Vec<String> = Vec::new();
    let mut i: usize = 0;
    while i < fields.len()
        invariant
            i <= fields@.len(),
            texts(out@) == names(fields@).take(i as int),
        decreases fields@.len() - i,
    {
        let ghost before = out@;
        out.push(fields[i].name.clone());
        proof {
            assert(texts(out@) =~= texts(before).push(fields@[i as int].name@));
            assert(names(fields@).take(i + 1) =~= names(fields@).take(i as int).push(
                fields@[i as int].name@,
            ));
        }
        i += 1;
    }
    proof {
        assert(names(fields@).take(fields@.len() as int) =~= names(fields@));
    }
    out
}

/// The names of `fields` as errors list them.
pub fn available_names(fields: &[Field]) -> (r: String)
    ensures
        r@ == available(fields@),
{
    let all = field_names(fields);
    join_texts(all.as_slice(), ", ")
}

// ---------- structural equality ----------

/// The texts of a list of pairs.
pub open spec fn pairs(v: Seq<(String, String)>) -> Seq<(Seq<char>, Seq<char>)> {
    v.map_values(|p: (String, String)| (p.0@, p.1@))
}

/// The text of an optional string.
pub open spec fn opt_text(o: Option<String>) -> Option<Seq<char>> {
    match o {
        Some(s) => Some(s@),
        None => None,
    }
}

/// True when two types have the same structure: the same shape, units, sizes and
/// time zone, and the same children with their names, nullability and metadata.
pub open spec fn same_type(a: DataType, b: DataType) -> bool
    decreases a,
{
    match (a.kind, b.kind) {
        (Kind::Timestamp(u, x), Kind::Timestamp(v, y)) => u == v && opt_text(x) == opt_text(y),
        (Kind::List(x), Kind::List(y)) => same_field(*x, *y),
        (Kind::ListView(x), Kind::ListView(y)) => same_field(*x, *y),
        (Kind::FixedSizeList(x, m), Kind::FixedSizeList(y, n)) => m == n && same_field(*x, *y),
        (Kind::LargeList(x), Kind::LargeList(y)) => same_field(*x, *y),
        (Kind::LargeListView(x), Kind::LargeListView(y)) => same_field(*x, *y),
        (Kind::Struct(x), Kind::Struct(y)) => x@.len() == y@.len() && forall|i: int|
            0 <= i < x@.len() ==> same_field(#[trigger] x@[i], y@[i]),
        (Kind::Union(x, m), Kind::Union(y, n)) => m == n && x@.len() == y@.len() && forall|i: int|
            0 <= i < x@.len() ==> (#[trigger] x@[i]).0 == y@[i].0 && same_field(x@[i].1, y@[i].1),
        (Kind::Dictionary(k, x), Kind::Dictionary(l, y)) => same_type(*k, *l) && same_type(*x, *y),
        (Kind::Mapping(x, m), Kind::Mapping(y, n)) => m == n && same_field(*x, *y),
        (Kind::RunEndEncoded(r, x), Kind::RunEndEncoded(s, y)) => same_field(*r, *s) && same_field(
            *x,
            *y,
        ),
        (x, y) => x == y && !is_nested(x) && !(x is Timestamp),
    }
}

/// True when two columns agree in name, type, nullability and metadata.
pub open spec fn same_field(a: Field, b: Field) -> bool
    decreases a,
{
    &&& a.name@ == b.name@
    &&& a.nullable == b.nullable
    &&& pairs(a.metadata@) == pairs(b.metadata@)
    &&& same_type(a.data_type, b.data_type)
}

/// True of the types that hold other types.
pub open spec fn is_nested(k: Kind) -> bool {
    k is List || k is ListView || k is FixedSizeList || k is LargeList || k is LargeListView
        || k is Struct || k is Union || k is Dictionary || k is Mapping || k is RunEndEncoded
}

fn pairs_eq(a: &[(String, String)], b: &[(String, String)]) -> (r: bool)
    ensures
        r == (pairs(a@) == pairs(b@)),
{
    if a.len() != b.len() {
        proof {
            assert(pairs(a@).len() != pairs(b@).len());
        }
        return false;
    }
    let mut i: usize = 0;
    while i < a.len()
        invariant
            i <= a@.len(),
            a@.len() == b@.len(),
            forall|j: int| 0 <= j < i ==> #[trigger] pairs(a@)[j] == pairs(b@)[j],
        decreases a@.len() - i,
    {
        if !same_text(a[i].0.as_str(), b[i].0.as_str()) || !same_text(
            a[i].1.as_str(),
            b[i].1.as_str(),
        ) {
            proof {
                assert(pairs(a@)[i as int] != pairs(b@)[i as int]);
            }
            return false;
        }
        i += 1;
    }
    proof {
        assert(pairs(a@) =~= pairs(b@));
    }
    true
}

fn opt_text_eq(a: &Option<String>, b: &Option<String>) -> (r: bool)
    ensures
        r == (opt_text(*a) == opt_text(*b)),
{
    match (a, b) {
        (Some(x), Some(y)) => same_text(x.as_str(), y.as_str()),
        (None, None) => true,
        _ => false,
    }
}

pub fn type_eq(a: &DataType, b: &DataType) -> (r: bool)
    ensures
        r == same_type(*a, *b),
    decreases *a,
{
    match (&a.kind, &b.kind) {
        (Kind::Null, Kind::Null) => true,
        (Kind::Boolean, Kind::Boolean) => true,
        (Kind::Int8, Kind::Int8) => true,
        (Kind::Int16, Kind::Int16) => true,
        (Kind::Int32, Kind::Int32) => true,
        (Kind::Int64, Kind::Int64) => true,
        (Kind::UInt8, Kind::UInt8) => true,
        (Kind::UInt16, Kind::UInt16) => true,
        (Kind::UInt32, Kind::UInt32) => true,
        (Kind::UInt64, Kind::UInt64) => true,
        (Kind::Float16, Kind::Float16) => true,
        (Kind::Float32, Kind::Float32) => true,
        (Kind::Float64, Kind::Float64) => true,
        (Kind::Timestamp(u, x), Kind::Timestamp(v, y)) => *u == *v && opt_text_eq(x, y),
        (Kind::Date32, Kind::Date32) => true,
        (Kind::Date64, Kind::Date64) => true,
        (Kind::Time32(u), Kind::Time32(v)) => *u == *v,
        (Kind::Time64(u), Kind::Time64(v)) => *u == *v,
        (Kind::Duration(u), Kind::Duration(v)) => *u == *v,
        (Kind::Interval(u), Kind::Interval(v)) => *u == *v,
        (Kind::Binary, Kind::Binary) => true,
        (Kind::FixedSizeBinary(m), Kind::FixedSizeBinary(n)) => *m == *n,
        (Kind::LargeBinary, Kind::LargeBinary) => true,
        (Kind::BinaryView, Kind::BinaryView) => true,
        (Kind::Utf8, Kind::Utf8) => true,
        (Kind::LargeUtf8, Kind::LargeUtf8) => true,
        (Kind::Utf8View, Kind::Utf8View) => true,
        (Kind::List(x), Kind::List(y)) => field_eq(x, y),
        (Kind::ListView(x), Kind::ListView(y)) => field_eq(x, y),
        (Kind::FixedSizeList(x, m), Kind::FixedSizeList(y, n)) => *m == *n && field_eq(x, y),
        (Kind::LargeList(x), Kind::LargeList(y)) => field_eq(x, y),
        (Kind::LargeListView(x), Kind::LargeListView(y)) => field_eq(x, y),
        (Kind::Struct(x), Kind::Struct(y)) => {
            if x.len() != y.len() {
                return false;
            }
            let mut i: usize = 0;
            while i < x.len()
                invariant
                    i <= x@.len(),
                    x@.len() == y@.len(),
                    a.kind == Kind::Struct(*x),
                    b.kind == Kind::Struct(*y),
                    forall|j: int| 0 <= j < i ==> same_field(#[trigger] x@[j], y@[j]),
                decreases x@.len() - i,
            {
                proof {
                    assert(decreases_to!(*a => a.kind));
                    assert(decreases_to!(a.kind => a.kind->Struct_0));
                    assert(decreases_to!(a.kind->Struct_0 => x@));
                    assert(decreases_to!(x@ => x@[i as int]));
                }
                if !field_eq(&x[i], &y[i]) {
                    proof {
                        assert(!same_field(x@[i as int], y@[i as int]));
                    }
                    return false;
                }
                i += 1;
            }
            true
        },
        (Kind::Union(x, m), Kind::Union(y, n)) => {
            if *m != *n || x.len() != y.len() {
                return false;
            }
            let mut i: usize = 0;
            while i < x.len()
                invariant
                    i <= x@.len(),
                    x@.len() == y@.len(),
                    *m == *n,
                    a.kind == Kind::Union(*x, *m),
                    b.kind == Kind::Union(*y, *n),
                    forall|j: int|
                        0 <= j < i ==> (#[trigger] x@[j]).0 == y@[j].0 && same_field(
                            x@[j].1,
                            y@[j].1,
                        ),
                decreases x@.len() - i,
            {
                proof {
                    assert(decreases_to!(*a => a.kind));
                    assert(decreases_to!(a.kind => a.kind->Union_0));
                    assert(decreases_to!(a.kind->Union_0 => x@));
                    assert(decreases_to!(x@ => x@[i as int]));
                    assert(decreases_to!(x@[i as int] => x@[i as int].1));
                }
                if x[i].0 != y[i].0 || !field_eq(&x[i].1, &y[i].1) {
                    proof {
                        assert(!(x@[i as int].0 == y@[i as int].0 && same_field(
                            x@[i as int].1,
                            y@[i as int].1,
                        )));
                    }
                    return false;
                }
                i += 1;
            }
            true
        },
        (Kind::Dictionary(k, x), Kind::Dictionary(l, y)) => type_eq(k, l) && type_eq(x, y),
        (Kind::Decimal32(p, s), Kind::Decimal32(q, t)) => *p == *q && *s == *t,
        (Kind::Decimal64(p, s), Kind::Decimal64(q, t)) => *p == *q && *s == *t,
        (Kind::Decimal128(p, s), Kind::Decimal128(q, t)) => *p == *q && *s == *t,
        (Kind::Decimal256(p, s), Kind::Decimal256(q, t)) => *p == *q && *s == *t,
        (Kind::Mapping(x, m), Kind::Mapping(y, n)) => *m == *n && field_eq(x, y),
        (Kind::RunEndEncoded(r, x), Kind::RunEndEncoded(s, y)) => field_eq(r, s) && field_eq(x, y),
        _ => false,
    }
}

pub fn field_eq(a: &Field, b: &Field) -> (r: bool)
    ensures
        r == same_field(*a, *b),
    decreases *a,
{
    same_text(a.name.as_str(), b.name.as_str()) && a.nullable == b.nullable && pairs_eq(
        a.metadata.as_slice(),
        b.metadata.as_slice(),
    ) && type_eq(&a.data_type, &b.data_type)
}

} // verus!
