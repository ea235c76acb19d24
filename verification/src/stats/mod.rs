//! Per-column summary statistics (the `stats` command).
//!
//! A scan's batches are folded into one [`ColumnStats`] per column. Each column keeps
//! a handful of scalars and a capped set of distinct values.
//!
//! - Numeric columns: count, nulls, min, max, mean, standard deviation, distinct.
//! - Temporal, string and boolean columns: count, nulls, min, max, distinct.
//! - Everything else: count and nulls only.
//!
//! NaN is left out of min and max.
pub mod distinct;

use vstd::prelude::*;

use crate::cell::{batch_of_rows, batch_row, cell_ok, row_ok, rows_ok, typed_as, Batch, Cell, Float};
use crate::cli::BinaryFormat;
use crate::dataset::ColumnStats;
use crate::error::Error;
use crate::json::opt_view;
use crate::listing::{is_field, is_text, text_cell, Listing};
use crate::output::value::{bool_string, bool_text, table_cell, table_of};
use crate::output::{only_binary, RenderOptions};
use crate::row_id::copy_fields;
use crate::schema::{
    available, available_names, find_field, position, DataType, Field, Kind, Schema, TimeUnit,
};
use crate::stats::distinct::{distinct_text, Distinct, DistinctKey, KeyModel};
use crate::text::{
    dec, dec_i64, dec_int, dec_u64, le, lemma_text_le_antisymmetric, lemma_text_le_total,
    lemma_text_le_transitive, text_le, texts,
};

verus! {

// ---------- what the values are ----------

/// The values that `f` finds in the cells, in order.
pub open spec fn collect<T>(cells: Seq<Cell>, f: spec_fn(Cell) -> Option<T>) -> Seq<T>
    decreases cells.len(),
{
    if cells.len() == 0 {
        Seq::empty()
    } else {
        match f(cells.last()) {
            Some(v) => collect(cells.drop_last(), f).push(v),
            None => collect(cells.drop_last(), f),
        }
    }
}

/// What is kept of a value kept so far and another: the other only where there is none
/// yet, or where it comes before.
pub open spec fn kept<T>(so_far: Option<T>, v: T, before: spec_fn(T, T) -> bool) -> Option<T> {
    match so_far {
        None => Some(v),
        Some(m) => if before(v, m) {
            Some(v)
        } else {
            Some(m)
        },
    }
}

/// The first value that comes before all others, in the sense of `before`.
pub open spec fn pick<T>(values: Seq<T>, before: spec_fn(T, T) -> bool) -> Option<T>
    decreases values.len(),
{
    if values.len() == 0 {
        None
    } else {
        kept(pick(values.drop_last(), before), values.last(), before)
    }
}

/// The distinct keys that `f` finds in the cells.
pub open spec fn keys<T>(cells: Seq<Cell>, f: spec_fn(Cell) -> Option<T>) -> Set<T>
    decreases cells.len(),
{
    if cells.len() == 0 {
        Set::empty()
    } else {
        match f(cells.last()) {
            Some(v) => keys(cells.drop_last(), f).insert(v),
            None => keys(cells.drop_last(), f),
        }
    }
}

/// The number of null cells.
pub open spec fn null_count(cells: Seq<Cell>) -> nat
    decreases cells.len(),
{
    if cells.len() == 0 {
        0
    } else {
        null_count(cells.drop_last()) + if cells.last() is Null {
            1nat
        } else {
            0nat
        }
    }
}

pub open spec fn signed() -> spec_fn(Cell) -> Option<i64> {
    |c: Cell|
        match c {
            Cell::Int(v) => Some(v),
            _ => None,
        }
}

pub open spec fn unsigned() -> spec_fn(Cell) -> Option<u64> {
    |c: Cell|
        match c {
            Cell::UInt(v) => Some(v),
            _ => None,
        }
}

/// Floats other than NaN.
pub open spec fn ordered_float() -> spec_fn(Cell) -> Option<Float> {
    |c: Cell|
        match c {
            Cell::Float(f) => if f.is_nan() {
                None
            } else {
                Some(f)
            },
            _ => None,
        }
}

pub open spec fn string() -> spec_fn(Cell) -> Option<Seq<char>> {
    |c: Cell|
        match c {
            Cell::Text(s) => Some(s@),
            Cell::TextView(s) => Some(s@),
            _ => None,
        }
}

pub open spec fn boolean() -> spec_fn(Cell) -> Option<bool> {
    |c: Cell|
        match c {
            Cell::Boolean(b) => Some(b),
            _ => None,
        }
}

/// The raw number of a temporal value.
pub open spec fn temporal_number(c: Cell) -> Option<i64> {
    match c {
        Cell::Date32(v) => Some(v as i64),
        Cell::Date64(v) => Some(v),
        Cell::Time32(v, _) => Some(v as i64),
        Cell::Time64(v, _) => Some(v),
        Cell::Timestamp(v, _, _) => Some(v),
        Cell::Duration(v, _) => Some(v),
        _ => None,
    }
}

pub open spec fn temporal() -> spec_fn(Cell) -> Option<i64> {
    |c: Cell| temporal_number(c)
}

// ---------- their order ----------

/// Values with a smallest and a largest among them.
pub trait Ranked: View + Sized {
    /// True where `a` is smaller than `b`.
    spec fn before(a: Self::V, b: Self::V) -> bool;

    fn less(&self, other: &Self) -> (r: bool)
        ensures
            r == Self::before(self@, other@),
    ;

    fn copy(&self) -> (r: Self)
        ensures
            r@ == self@,
    ;
}

pub open spec fn smaller<T: Ranked>() -> spec_fn(T::V, T::V) -> bool {
    |a: T::V, b: T::V| T::before(a, b)
}

pub open spec fn larger<T: Ranked>() -> spec_fn(T::V, T::V) -> bool {
    |a: T::V, b: T::V| T::before(b, a)
}

impl Ranked for i64 {
    open spec fn before(a: i64, b: i64) -> bool {
        a < b
    }

    fn less(&self, other: &i64) -> (r: bool) {
        *self < *other
    }

    fn copy(&self) -> (r: i64) {
        *self
    }
}

impl Ranked for u64 {
    open spec fn before(a: u64, b: u64) -> bool {
        a < b
    }

    fn less(&self, other: &u64) -> (r: bool) {
        *self < *other
    }

    fn copy(&self) -> (r: u64) {
        *self
    }
}

impl Ranked for bool {
    open spec fn before(a: bool, b: bool) -> bool {
        !a && b
    }

    fn less(&self, other: &bool) -> (r: bool) {
        !*self && *other
    }

    fn copy(&self) -> (r: bool) {
        *self
    }
}

impl Ranked for String {
    /// The lexicographic order of texts.
    open spec fn before(a: Seq<char>, b: Seq<char>) -> bool {
        !text_le(b, a)
    }

    fn less(&self, other: &String) -> (r: bool) {
        !le(other.as_str(), self.as_str())
    }

    fn copy(&self) -> (r: String) {
        self.clone()
    }
}

/// A number that orders floats other than NaN as their values are ordered: both
/// zeros have the same.
pub open spec fn float_rank(f: Float) -> int {
    if f.is_negative() {
        -(f.magnitude() as int)
    } else {
        f.magnitude() as int
    }
}

fn rank(f: &Float) -> (r: i128)
    ensures
        r == float_rank(*f),
{
    let magnitude: i128 = (f.bits % 0x8000_0000_0000_0000) as i128;
    if f.negative() {
        -magnitude
    } else {
        magnitude
    }
}

impl Ranked for Float {
    open spec fn before(a: Float, b: Float) -> bool {
        float_rank(a) < float_rank(b)
    }

    fn less(&self, other: &Float) -> (r: bool) {
        rank(self) < rank(other)
    }

    fn copy(&self) -> (r: Float) {
        self.clone()
    }
}

// ---------- their keys ----------

/// Float bits in which all NaNs are one and both zeros are one, so that distinct
/// counts follow equality of values.
pub open spec fn canonical_bits(f: Float) -> u64 {
    if f.is_nan() {
        0x7ff8_0000_0000_0000
    } else if f.magnitude() == 0 {
        0
    } else {
        f.bits
    }
}

pub open spec fn signed_key() -> spec_fn(Cell) -> Option<KeyModel> {
    |c: Cell|
        match c {
            Cell::Int(v) => Some(KeyModel::Int(v)),
            _ => None,
        }
}

pub open spec fn unsigned_key() -> spec_fn(Cell) -> Option<KeyModel> {
    |c: Cell|
        match c {
            Cell::UInt(v) => Some(KeyModel::UInt(v)),
            _ => None,
        }
}

pub open spec fn float_key() -> spec_fn(Cell) -> Option<KeyModel> {
    |c: Cell|
        match c {
            Cell::Float(f) => Some(KeyModel::Float(canonical_bits(f))),
            _ => None,
        }
}

pub open spec fn string_key() -> spec_fn(Cell) -> Option<KeyModel> {
    |c: Cell|
        match c {
            Cell::Text(s) => Some(KeyModel::Str(s@)),
            Cell::TextView(s) => Some(KeyModel::Str(s@)),
            _ => None,
        }
}

pub open spec fn boolean_key() -> spec_fn(Cell) -> Option<KeyModel> {
    |c: Cell|
        match c {
            Cell::Boolean(b) => Some(KeyModel::Bool(b)),
            _ => None,
        }
}

pub open spec fn temporal_key() -> spec_fn(Cell) -> Option<KeyModel> {
    |c: Cell|
        match temporal_number(c) {
            Some(v) => Some(KeyModel::Int(v)),
            None => None,
        }
}

/// The key under which a float counts as distinct.
pub fn canonical_float_bits(f: &Float) -> (r: u64)
    ensures
        r == canonical_bits(*f),
{
    if f.nan() {
        0x7ff8_0000_0000_0000
    } else if f.bits % 0x8000_0000_0000_0000 == 0 {
        0
    } else {
        f.bits
    }
}

// ---------- running state ----------

/// The smallest and the largest value so far, and the distinct ones.
pub struct Range<T: Ranked> {
    pub min: Option<T>,
    pub max: Option<T>,
    pub distinct: Distinct,
}

/// The view of an optional value.
pub open spec fn opt_of<T: View>(o: Option<T>) -> Option<T::V> {
    match o {
        Some(v) => Some(v@),
        None => None,
    }
}

impl<T: Ranked> Range<T> {
    /// True where the range is that of `values`, and the distinct keys are `seen`.
    pub open spec fn spans(&self, values: Seq<T::V>, seen: Set<KeyModel>) -> bool {
        &&& opt_of(self.min) == pick(values, smaller::<T>())
        &&& opt_of(self.max) == pick(values, larger::<T>())
        &&& self.distinct.wf()
        &&& self.distinct@ == seen
    }

    fn new() -> (r: Self)
        ensures
            r.spans(Seq::empty(), Set::empty()),
    {
        Range { min: None, max: None, distinct: Distinct::default() }
    }
}

/// Update a running minimum and maximum with a value.
pub fn update_ord<T: Ranked>(min: &mut Option<T>, max: &mut Option<T>, v: &T)
    ensures
        opt_of(*final(min)) == kept(opt_of(*old(min)), v@, smaller::<T>()),
        opt_of(*final(max)) == kept(opt_of(*old(max)), v@, larger::<T>()),
{
    let lower = match min {
        None => true,
        Some(m) => v.less(m),
    };
    let higher = match max {
        None => true,
        Some(m) => m.less(v),
    };
    if lower {
        *min = Some(v.copy());
    }
    if higher {
        *max = Some(v.copy());
    }
}

proof fn lemma_pick_push<T: Ranked>(values: Seq<T::V>, v: T::V)
    ensures
        pick(values.push(v), smaller::<T>()) == kept(
            pick(values, smaller::<T>()),
            v,
            smaller::<T>(),
        ),
        pick(values.push(v), larger::<T>()) == kept(pick(values, larger::<T>()), v, larger::<T>()),
{
    assert(values.push(v).drop_last() =~= values);
}

/// Type-specific running state.
pub enum Stat {
    Signed(Range<i64>),
    Unsigned(Range<u64>),
    Float(Range<Float>),
    Str(Range<String>),
    Bool(Range<bool>),
    /// Tracked as the raw number.
    Temporal(Range<i64>),
    /// Count and nulls only.
    Other,
}

/// Which statistics a column of a type has.
pub enum StatKind {
    Signed,
    Unsigned,
    Float,
    Str,
    Bool,
    Temporal,
    Other,
}

pub open spec fn stat_kind(k: Kind) -> StatKind {
    match k {
        Kind::Int8 | Kind::Int16 | Kind::Int32 | Kind::Int64 => StatKind::Signed,
        Kind::UInt8 | Kind::UInt16 | Kind::UInt32 | Kind::UInt64 => StatKind::Unsigned,
        Kind::Float16 | Kind::Float32 | Kind::Float64 => StatKind::Float,
        Kind::Utf8 | Kind::LargeUtf8 | Kind::Utf8View => StatKind::Str,
        Kind::Boolean => StatKind::Bool,
        Kind::Date32 | Kind::Date64 | Kind::Time32(_) | Kind::Time64(_) => StatKind::Temporal,
        Kind::Timestamp(_, _) | Kind::Duration(_) => StatKind::Temporal,
        _ => StatKind::Other,
    }
}

impl Stat {
    /// True where the state is that of a column of kind `k` after the cells.
    pub open spec fn follows(&self, k: Kind, cells: Seq<Cell>) -> bool {
        match (stat_kind(k), self) {
            (StatKind::Signed, Stat::Signed(r)) => r.spans(
                collect(cells, signed()),
                keys(cells, signed_key()),
            ),
            (StatKind::Unsigned, Stat::Unsigned(r)) => r.spans(
                collect(cells, unsigned()),
                keys(cells, unsigned_key()),
            ),
            (StatKind::Float, Stat::Float(r)) => r.spans(
                collect(cells, ordered_float()),
                keys(cells, float_key()),
            ),
            (StatKind::Str, Stat::Str(r)) => r.spans(
                collect(cells, string()),
                keys(cells, string_key()),
            ),
            (StatKind::Bool, Stat::Bool(r)) => r.spans(
                collect(cells, boolean()),
                keys(cells, boolean_key()),
            ),
            (StatKind::Temporal, Stat::Temporal(r)) => r.spans(
                collect(cells, temporal()),
                keys(cells, temporal_key()),
            ),
            (StatKind::Other, Stat::Other) => true,
            _ => false,
        }
    }

    fn for_type(dt: &DataType) -> (r: Self)
        ensures
            r.follows(dt.kind, Seq::empty()),
    {
        match &dt.kind {
            Kind::Int8 | Kind::Int16 | Kind::Int32 | Kind::Int64 => Stat::Signed(Range::new()),
            Kind::UInt8 | Kind::UInt16 | Kind::UInt32 | Kind::UInt64 => Stat::Unsigned(
                Range::new(),
            ),
            Kind::Float16 | Kind::Float32 | Kind::Float64 => Stat::Float(Range::new()),
            Kind::Utf8 | Kind::LargeUtf8 | Kind::Utf8View => Stat::Str(Range::new()),
            Kind::Boolean => Stat::Bool(Range::new()),
            Kind::Date32
            | Kind::Date64
            | Kind::Time32(_)
            | Kind::Time64(_)
            | Kind::Timestamp(_, _)
            | Kind::Duration(_) => Stat::Temporal(Range::new()),
            _ => Stat::Other,
        }
    }

    /// Take in one more cell.
    fn update(&mut self, cell: &Cell, Ghost(k): Ghost<Kind>, Ghost(cells): Ghost<Seq<Cell>>)
        requires
            old(self).follows(k, cells),
        ensures
            final(self).follows(k, cells.push(*cell)),
    {
        proof {
            assert(cells.push(*cell).drop_last() =~= cells);
        }
        match self {
            Stat::Signed(range) => {
                if let Cell::Int(v) = cell {
                    proof {
                        lemma_pick_push::<i64>(collect(cells, signed()), *v);
                    }
                    update_ord(&mut range.min, &mut range.max, v);
                    range.distinct.add(DistinctKey::Int(*v));
                }
            },
            Stat::Unsigned(range) => {
                if let Cell::UInt(v) = cell {
                    proof {
                        lemma_pick_push::<u64>(collect(cells, unsigned()), *v);
                    }
                    update_ord(&mut range.min, &mut range.max, v);
                    range.distinct.add(DistinctKey::UInt(*v));
                }
            },
            Stat::Float(range) => {
                if let Cell::Float(v) = cell {
                    if !v.nan() {
                        proof {
                            lemma_pick_push::<Float>(collect(cells, ordered_float()), *v);
                        }
                        update_ord(&mut range.min, &mut range.max, v);
                    }
                    range.distinct.add(DistinctKey::Float(canonical_float_bits(v)));
                }
            },
            Stat::Str(range) => {
                let text = match cell {
                    Cell::Text(s) => Some(s),
                    Cell::TextView(s) => Some(s),
                    _ => None,
                };
                if let Some(s) = text {
                    proof {
                        lemma_pick_push::<String>(collect(cells, string()), s@);
                    }
                    update_ord(&mut range.min, &mut range.max, s);
                    range.distinct.add(DistinctKey::Str(s.clone()));
                }
            },
            Stat::Bool(range) => {
                if let Cell::Boolean(v) = cell {
                    proof {
                        lemma_pick_push::<bool>(collect(cells, boolean()), *v);
                    }
                    update_ord(&mut range.min, &mut range.max, v);
                    range.distinct.add(DistinctKey::Bool(*v));
                }
            },
            Stat::Temporal(range) => {
                if let Some(v) = temporal_value(cell) {
                    proof {
                        lemma_pick_push::<i64>(collect(cells, temporal()), v);
                    }
                    update_ord(&mut range.min, &mut range.max, &v);
                    range.distinct.add(DistinctKey::Int(v));
                }
            },
            Stat::Other => {},
        }
    }
}

fn temporal_value(cell: &Cell) -> (r: Option<i64>)
    ensures
        r == temporal_number(*cell),
{
    match cell {
        Cell::Date32(v) => Some(*v as i64),
        Cell::Date64(v) => Some(*v),
        Cell::Time32(v, _) => Some(*v as i64),
        Cell::Time64(v, _) => Some(*v),
        Cell::Timestamp(v, _, _) => Some(*v),
        Cell::Duration(v, _) => Some(*v),
        _ => None,
    }
}

// ---------- texts of the results ----------

/// A minimum or maximum of floats as text.
pub open spec fn float_bound(f: Float) -> Seq<char> {
    if f.is_infinite() {
        if f.is_negative() {
            "-inf"@
        } else {
            "inf"@
        }
    } else {
        f.wide@
    }
}

fn format_float(f: &Float) -> (r: String)
    ensures
        r@ == float_bound(*f),
{
    if f.infinite() {
        if f.negative() {
            "-inf".to_owned()
        } else {
            "inf".to_owned()
        }
    } else {
        f.wide.clone()
    }
}

/// The value of a temporal column that a raw number stands for.
pub open spec fn temporal_cell(k: Kind, v: i64) -> Option<Cell> {
    match k {
        Kind::Date32 => Some(Cell::Date32(v as i32)),
        Kind::Date64 => Some(Cell::Date64(v)),
        Kind::Time32(u) => if u == TimeUnit::Second || u == TimeUnit::Millisecond {
            Some(Cell::Time32(v as i32, u))
        } else {
            None
        },
        Kind::Time64(u) => if u == TimeUnit::Microsecond || u == TimeUnit::Nanosecond {
            Some(Cell::Time64(v, u))
        } else {
            None
        },
        Kind::Timestamp(u, tz) => Some(Cell::Timestamp(v, u, tz)),
        Kind::Duration(u) => Some(Cell::Duration(v, u)),
        _ => None,
    }
}

/// A minimum or maximum of a temporal column as text: as the value appears in rows.
pub open spec fn temporal_text(k: Kind, v: i64) -> Option<Seq<char>> {
    match temporal_cell(k, v) {
        None => None,
        Some(c) => match table_of(c, only_binary(BinaryFormat::Placeholder)) {
            Ok(t) => Some(t),
            Err(_) => None,
        },
    }
}

fn format_temporal(dt: &DataType, v: i64) -> (r: Option<String>)
    ensures
        opt_view(r) == temporal_text(dt.kind, v),
{
    let cell = match &dt.kind {
        Kind::Date32 => Cell::Date32(#[verifier::truncate] (v as i32)),
        Kind::Date64 => Cell::Date64(v),
        Kind::Time32(u) => {
            if *u == TimeUnit::Second || *u == TimeUnit::Millisecond {
                Cell::Time32(#[verifier::truncate] (v as i32), *u)
            } else {
                return None;
            }
        },
        Kind::Time64(u) => {
            if *u == TimeUnit::Microsecond || *u == TimeUnit::Nanosecond {
                Cell::Time64(v, *u)
            } else {
                return None;
            }
        },
        Kind::Timestamp(u, tz) => Cell::Timestamp(v, *u, tz.clone()),
        Kind::Duration(u) => Cell::Duration(v, *u),
        _ => return None,
    };
    match table_cell(&cell, RenderOptions::default()) {
        Ok(s) => Some(s),
        Err(_) => None,
    }
}

/// The text of a bound of a column of kind `k`; `low` for the minimum.
pub open spec fn bound_text(k: Kind, cells: Seq<Cell>, low: bool) -> Option<Seq<char>> {
    match stat_kind(k) {
        StatKind::Signed => match extreme::<i64>(collect(cells, signed()), low) {
            Some(v) => Some(dec_int(v as int)),
            None => None,
        },
        StatKind::Unsigned => match extreme::<u64>(collect(cells, unsigned()), low) {
            Some(v) => Some(dec(v as nat)),
            None => None,
        },
        StatKind::Float => match extreme::<Float>(collect(cells, ordered_float()), low) {
            Some(f) => Some(float_bound(f)),
            None => None,
        },
        StatKind::Str => extreme::<String>(collect(cells, string()), low),
        StatKind::Bool => match extreme::<bool>(collect(cells, boolean()), low) {
            Some(b) => Some(bool_text(b)),
            None => None,
        },
        StatKind::Temporal => match extreme::<i64>(collect(cells, temporal()), low) {
            Some(v) => temporal_text(k, v),
            None => None,
        },
        StatKind::Other => None,
    }
}

/// The smallest or the largest of the values.
pub open spec fn extreme<T: Ranked>(values: Seq<T::V>, low: bool) -> Option<T::V> {
    if low {
        pick(values, smaller::<T>())
    } else {
        pick(values, larger::<T>())
    }
}

/// The text of the number of distinct values of a column of kind `k`.
pub open spec fn distinct_of(k: Kind, cells: Seq<Cell>) -> Option<Seq<char>> {
    match stat_kind(k) {
        StatKind::Signed => Some(distinct_text(keys(cells, signed_key()).len())),
        StatKind::Unsigned => Some(distinct_text(keys(cells, unsigned_key()).len())),
        StatKind::Float => Some(distinct_text(keys(cells, float_key()).len())),
        StatKind::Str => Some(distinct_text(keys(cells, string_key()).len())),
        StatKind::Bool => Some(distinct_text(keys(cells, boolean_key()).len())),
        StatKind::Temporal => Some(distinct_text(keys(cells, temporal_key()).len())),
        StatKind::Other => None,
    }
}

/// True of the kinds that have a mean and a standard deviation.
pub open spec fn is_numeric(k: Kind) -> bool {
    stat_kind(k) is Signed || stat_kind(k) is Unsigned || stat_kind(k) is Float
}

/// True where `s` are the statistics of a column with these cells. The mean and the
/// standard deviation are given; they apply to a numeric column with at least one,
/// respectively two, values.
pub open spec fn summarizes(
    s: ColumnStats,
    name: Seq<char>,
    dt: DataType,
    cells: Seq<Cell>,
    mean: Float,
    stddev: Float,
) -> bool {
    let nulls = null_count(cells);
    let count = cells.len() - nulls;
    &&& s.column@ == name
    &&& s.data_type@ == dt.debug@
    &&& s.count == count
    &&& s.nulls == nulls
    &&& opt_view(s.min) == bound_text(dt.kind, cells, true)
    &&& opt_view(s.max) == bound_text(dt.kind, cells, false)
    &&& s.mean == if is_numeric(dt.kind) && count >= 1 {
        Some(mean)
    } else {
        None
    }
    &&& s.stddev == if is_numeric(dt.kind) && count >= 2 {
        Some(stddev)
    } else {
        None
    }
    &&& opt_view(s.distinct) == distinct_of(dt.kind, cells)
}

// ---------- one column ----------

/// The running statistics of one column.
pub struct Accumulator {
    name: String,
    data_type: DataType,
    non_null: u64,
    nulls: u64,
    stat: Stat,
    seen: Ghost<Seq<Cell>>,
}

impl View for Accumulator {
    type V = Seq<Cell>;

    /// The cells taken in so far.
    closed spec fn view(&self) -> Seq<Cell> {
        self.seen@
    }
}

impl Accumulator {
    pub closed spec fn column(&self) -> Seq<char> {
        self.name@
    }

    pub closed spec fn column_type(&self) -> DataType {
        self.data_type
    }

    /// The state is that of the cells taken in.
    pub closed spec fn wf(&self) -> bool {
        &&& self.nulls == null_count(self.seen@)
        &&& self.non_null + self.nulls == self.seen@.len()
        &&& self.stat.follows(self.data_type.kind, self.seen@)
    }

    pub fn new(name: String, data_type: DataType) -> (r: Self)
        ensures
            r.wf(),
            r@ == Seq::<Cell>::empty(),
            r.column() == name@,
            r.column_type() == data_type,
    {
        let stat = Stat::for_type(&data_type);
        Accumulator { name, data_type, non_null: 0, nulls: 0, stat, seen: Ghost(Seq::empty()) }
    }

    /// Take in the cells of one batch.
    pub fn update(&mut self, cells: &Vec<Cell>)
        requires
            old(self).wf(),
            old(self)@.len() + cells@.len() <= u64::MAX,
        ensures
            final(self).wf(),
            final(self)@ == old(self)@ + cells@,
            final(self).column() == old(self).column(),
            final(self).column_type() == old(self).column_type(),
    {
        let ghost start = self.seen@;
        let mut i: usize = 0;
        proof {
            assert(start + cells@.take(0) =~= start);
        }
        while i < cells.len()
            invariant
                i <= cells@.len(),
                self.wf(),
                start == old(self)@,
                start.len() + cells@.len() <= u64::MAX,
                self.seen@ == start + cells@.take(i as int),
                self.name == old(self).name,
                self.data_type == old(self).data_type,
            decreases cells@.len() - i,
        {
            let cell = &cells[i];
            let ghost before = self.seen@;
            proof {
                assert(before.push(*cell).drop_last() =~= before);
                assert(start + cells@.take(i + 1) =~= before.push(*cell));
            }
            match cell {
                Cell::Null => {
                    self.nulls = self.nulls + 1;
                },
                _ => {
                    self.non_null = self.non_null + 1;
                },
            }
            self.stat.update(cell, Ghost(self.data_type.kind), Ghost(before));
            self.seen = Ghost(before.push(*cell));
            i += 1;
        }
        proof {
            assert(cells@.take(cells@.len() as int) =~= cells@);
        }
    }

    /// The statistics of the cells taken in. `mean` and `stddev` are those of its
    /// values, where it is numeric and has enough of them.
    pub fn finish(self, mean: Float, stddev: Float) -> (r: ColumnStats)
        requires
            self.wf(),
        ensures
            summarizes(r, self.column(), self.column_type(), self@, mean, stddev),
    {
        let count: u64 = self.non_null;
        let dt = self.data_type;
        let mut numeric = false;
        let (min, max, distinct) = match self.stat {
            Stat::Signed(range) => {
                numeric = true;
                (
                    match range.min {
                        Some(v) => Some(dec_i64(v)),
                        None => None,
                    },
                    match range.max {
                        Some(v) => Some(dec_i64(v)),
                        None => None,
                    },
                    Some(range.distinct.finish()),
                )
            },
            Stat::Unsigned(range) => {
                numeric = true;
                (
                    match range.min {
                        Some(v) => Some(dec_u64(v)),
                        None => None,
                    },
                    match range.max {
                        Some(v) => Some(dec_u64(v)),
                        None => None,
                    },
                    Some(range.distinct.finish()),
                )
            },
            Stat::Float(range) => {
                numeric = true;
                (
                    match &range.min {
                        Some(v) => Some(format_float(v)),
                        None => None,
                    },
                    match &range.max {
                        Some(v) => Some(format_float(v)),
                        None => None,
                    },
                    Some(range.distinct.finish()),
                )
            },
            Stat::Str(range) => {
                let distinct = range.distinct.finish();
                (range.min, range.max, Some(distinct))
            },
            Stat::Bool(range) => (
                match range.min {
                    Some(v) => Some(bool_string(v)),
                    None => None,
                },
                match range.max {
                    Some(v) => Some(bool_string(v)),
                    None => None,
                },
                Some(range.distinct.finish()),
            ),
            Stat::Temporal(range) => (
                match range.min {
                    Some(v) => format_temporal(&dt, v),
                    None => None,
                },
                match range.max {
                    Some(v) => format_temporal(&dt, v),
                    None => None,
                },
                Some(range.distinct.finish()),
            ),
            Stat::Other => (None, None, None),
        };
        ColumnStats {
            column: self.name,
            data_type: dt.debug,
            count,
            nulls: self.nulls,
            min,
            max,
            mean: if numeric && count >= 1 {
                Some(mean)
            } else {
                None
            },
            stddev: if numeric && count >= 2 {
                Some(stddev)
            } else {
                None
            },
            distinct,
        }
    }
}

// ---------- all columns ----------

/// The fields of the named columns, or the position of the first name that no
/// column has.
pub open spec fn named_fields(schema: Seq<Field>, names: Seq<Seq<char>>) -> Result<Seq<Field>, nat>
    decreases names.len(),
{
    if names.len() == 0 {
        Ok(Seq::empty())
    } else {
        match named_fields(schema, names.drop_last()) {
            Err(n) => Err(n),
            Ok(fields) => {
                let at = position(schema, names.last());
                if at < schema.len() {
                    Ok(fields.push(schema[at as int]))
                } else {
                    Err((names.len() - 1) as nat)
                }
            },
        }
    }
}

proof fn lemma_first_missing(schema: Seq<Field>, names: Seq<Seq<char>>, k: int)
    requires
        0 <= k <= names.len(),
        named_fields(schema, names.take(k)) is Err,
    ensures
        named_fields(schema, names) == named_fields(schema, names.take(k)),
    decreases names.len() - k,
{
    if k < names.len() {
        assert(names.take(k + 1).drop_last() =~= names.take(k));
        lemma_first_missing(schema, names, k + 1);
    } else {
        assert(names.take(k) =~= names);
    }
}

/// The fields of the named columns; all of them where none are named.
pub fn projected_fields(schema: &Schema, columns: Option<&[String]>) -> (r: Result<
    Vec<Field>,
    Error,
>)
    ensures
        match columns {
            None => r matches Ok(fields) && fields@ == schema.fields@,
            Some(cols) => match named_fields(schema.fields@, texts(cols@)) {
                Ok(expected) => r matches Ok(fields) && fields@ == expected,
                Err(n) => n < cols@.len() && (r matches Err(
                    Error::UnknownColumn { name, available: listed },
                ) && name@ == cols@[n as int]@ && listed@ == available(schema.fields@)),
            },
        },
{
    match columns {
        None => Ok(copy_fields(schema.fields.as_slice())),
        Some(cols) => {
            let ghost all = texts(cols@);
            let mut fields: Vec<Field> = Vec::new();
            let mut i: usize = 0;
            proof {
                assert(all.take(0) =~= Seq::<Seq<char>>::empty());
            }
            while i < cols.len()
                invariant
                    columns == Some(cols),
                    all == texts(cols@),
                    i <= cols@.len(),
                    named_fields(schema.fields@, all.take(i as int)) == Ok::<Seq<Field>, nat>(
                        fields@,
                    ),
                decreases cols@.len() - i,
            {
                let name = &cols[i];
                proof {
                    assert(all[i as int] == name@);
                    assert(all.take(i + 1).drop_last() =~= all.take(i as int));
                    assert(all.take(i + 1).last() == name@);
                }
                match find_field(schema.fields.as_slice(), name.as_str()) {
                    Some(at) => {
                        fields.push(schema.fields[at].clone());
                    },
                    None => {
                        proof {
                            lemma_first_missing(schema.fields@, all, i + 1);
                        }
                        return Err(
                            Error::UnknownColumn {
                                name: name.clone(),
                                available: available_names(schema.fields.as_slice()),
                            },
                        );
                    },
                }
                i += 1;
            }
            proof {
                assert(all.take(all.len() as int) =~= all);
            }
            Ok(fields)
        },
    }
}

/// True where the accumulators are those of the fields, none having taken in
/// anything but what `seen` says.
pub open spec fn tracks(accs: Seq<Accumulator>, fields: Seq<Field>, seen: Seq<Seq<Cell>>) -> bool {
    &&& accs.len() == fields.len()
    &&& seen.len() == fields.len()
    &&& forall|i: int| #![trigger accs[i]]
        0 <= i < accs.len() ==> accs[i].wf() && accs[i].column() == fields[i].name@
            && accs[i].column_type() == fields[i].data_type && accs[i]@ == seen[i]
}

/// One accumulator per field, so that a dataset without rows still yields a row per
/// column.
pub fn accumulators(fields: &Vec<Field>) -> (accs: Vec<Accumulator>)
    ensures
        tracks(accs@, fields@, Seq::new(fields@.len(), |i: int| Seq::<Cell>::empty())),
{
    let mut accs: Vec<Accumulator> = Vec::new();
    let mut i: usize = 0;
    while i < fields.len()
        invariant
            i <= fields@.len(),
            accs@.len() == i,
            forall|j: int| #![trigger accs@[j]]
                0 <= j < i ==> accs@[j].wf() && accs@[j].column() == fields@[j].name@
                    && accs@[j].column_type() == fields@[j].data_type && accs@[j]@ == Seq::<
                    Cell,
                >::empty(),
        decreases fields@.len() - i,
    {
        accs.push(Accumulator::new(fields[i].name.clone(), fields[i].data_type.clone()));
        i += 1;
    }
    accs
}

/// Take in a batch, whose columns stand in the order of the accumulators.
pub fn fold_batch(accs: &mut Vec<Accumulator>, batch: &Batch)
    requires
        batch.wf(),
        batch.columns@.len() == old(accs)@.len(),
        forall|i: int| #![trigger old(accs)@[i]]
            0 <= i < old(accs)@.len() ==> old(accs)@[i].wf() && old(accs)@[i]@.len() + batch.rows
                <= u64::MAX,
    ensures
        final(accs)@.len() == old(accs)@.len(),
        forall|i: int| #![trigger final(accs)@[i]]
            0 <= i < final(accs)@.len() ==> final(accs)@[i].wf() && final(accs)@[i].column()
                == old(accs)@[i].column() && final(accs)@[i].column_type()
                == old(accs)@[i].column_type() && final(accs)@[i]@ == old(accs)@[i]@
                + batch.columns@[i].cells@,
{
    let ghost given = accs@;
    let mut i: usize = 0;
    while i < accs.len()
        invariant
            batch.wf(),
            given == old(accs)@,
            batch.columns@.len() == given.len(),
            accs@.len() == given.len(),
            i <= given.len(),
            forall|j: int| #![trigger given[j]]
                0 <= j < given.len() ==> given[j].wf() && given[j]@.len() + batch.rows <= u64::MAX,
            forall|j: int| #![trigger accs@[j]]
                0 <= j < i ==> accs@[j].wf() && accs@[j].column() == given[j].column()
                    && accs@[j].column_type() == given[j].column_type() && accs@[j]@ == given[j]@
                    + batch.columns@[j].cells@,
            forall|j: int| i <= j < given.len() ==> accs@[j] == #[trigger] given[j],
        decreases given.len() - i,
    {
        proof {
            assert(given[i as int].wf());
            assert(crate::cell::column_ok(batch.columns@[i as int], batch.rows as nat));
        }
        accs[i].update(&batch.columns[i].cells);
        i += 1;
    }
}

// ---------- the table ----------

/// The columns of the `stats` table.
pub fn output_schema() -> (r: Schema)
    ensures
        is_output_schema(r.fields@),
{
    let mut fields: Vec<Field> = Vec::new();
    fields.push(Field::new("column", DataType::utf8(), false));
    fields.push(Field::new("type", DataType::utf8(), false));
    fields.push(Field::new("count", DataType::uint64(), false));
    fields.push(Field::new("nulls", DataType::uint64(), false));
    fields.push(Field::new("min", DataType::utf8(), true));
    fields.push(Field::new("max", DataType::utf8(), true));
    fields.push(Field::new("mean", DataType::float64(), true));
    fields.push(Field::new("stddev", DataType::float64(), true));
    fields.push(Field::new("distinct", DataType::utf8(), true));
    Schema::new(fields)
}

pub open spec fn is_output_schema(fields: Seq<Field>) -> bool {
    &&& fields.len() == 9
    &&& is_field(fields[0], "column"@, Kind::Utf8, false)
    &&& is_field(fields[1], "type"@, Kind::Utf8, false)
    &&& is_field(fields[2], "count"@, Kind::UInt64, false)
    &&& is_field(fields[3], "nulls"@, Kind::UInt64, false)
    &&& is_field(fields[4], "min"@, Kind::Utf8, true)
    &&& is_field(fields[5], "max"@, Kind::Utf8, true)
    &&& is_field(fields[6], "mean"@, Kind::Float64, true)
    &&& is_field(fields[7], "stddev"@, Kind::Float64, true)
    &&& is_field(fields[8], "distinct"@, Kind::Utf8, true)
}

/// True of a cell that holds an optional float.
pub open spec fn is_float(c: Cell, f: Option<Float>) -> bool {
    match f {
        Some(x) => c == Cell::Float(x),
        None => c is Null,
    }
}

/// True where `row` is the row of the `stats` table for `s`.
pub open spec fn is_stats_row(row: Seq<Cell>, s: ColumnStats) -> bool {
    &&& row.len() == 9
    &&& is_text(row[0], Some(s.column@))
    &&& is_text(row[1], Some(s.data_type@))
    &&& row[2] == Cell::UInt(s.count)
    &&& row[3] == Cell::UInt(s.nulls)
    &&& is_text(row[4], opt_view(s.min))
    &&& is_text(row[5], opt_view(s.max))
    &&& is_float(row[6], s.mean)
    &&& is_float(row[7], s.stddev)
    &&& is_text(row[8], opt_view(s.distinct))
}

fn float_cell(f: &Option<Float>) -> (c: Cell)
    ensures
        is_float(c, *f),
        cell_ok(c),
{
    match f {
        Some(x) => Cell::Float(x.clone()),
        None => Cell::Null,
    }
}

fn stats_row(s: &ColumnStats) -> (row: Vec<Cell>)
    ensures
        is_stats_row(row@, *s),
        row_ok(row, 9),
{
    let mut row: Vec<Cell> = Vec::new();
    row.push(Cell::Text(s.column.clone()));
    row.push(Cell::Text(s.data_type.clone()));
    row.push(Cell::UInt(s.count));
    row.push(Cell::UInt(s.nulls));
    row.push(text_cell(&s.min));
    row.push(text_cell(&s.max));
    row.push(float_cell(&s.mean));
    row.push(float_cell(&s.stddev));
    row.push(text_cell(&s.distinct));
    row
}

/// The statistics as a table of one row per column.
pub fn to_record_batch(stats: &Vec<ColumnStats>) -> (r: Listing)
    ensures
        is_output_schema(r.schema.fields@),
        typed_as(r.batch, r.schema.fields@),
        r.batch.wf(),
        r.batch.rows == stats@.len(),
        forall|i: int|
            0 <= i < stats@.len() ==> is_stats_row(#[trigger] batch_row(r.batch, i), stats@[i]),
{
    let schema = output_schema();
    let mut rows: Vec<Vec<Cell>> = Vec::new();
    let mut i: usize = 0;
    while i < stats.len()
        invariant
            i <= stats@.len(),
            rows@.len() == i,
            rows_ok(rows@, 9),
            forall|j: int| 0 <= j < i ==> is_stats_row((#[trigger] rows@[j])@, stats@[j]),
        decreases stats@.len() - i,
    {
        rows.push(stats_row(&stats[i]));
        i += 1;
    }
    let batch = batch_of_rows(&schema.fields, rows);
    Listing { schema, batch }
}

// ---------- laws ----------

/// True where `before` is a strict order in which values may tie.
pub open spec fn weakly_ordered<T>(before: spec_fn(T, T) -> bool) -> bool {
    &&& forall|a: T, b: T, c: T|
        !(#[trigger] before(a, b)) && !(#[trigger] before(b, c)) ==> !before(a, c)
    &&& forall|a: T, b: T| #[trigger] before(a, b) ==> !before(b, a)
}

/// True where `before` is a strict order in which only equal values tie.
pub open spec fn totally_ordered<T>(before: spec_fn(T, T) -> bool) -> bool {
    &&& weakly_ordered(before)
    &&& forall|a: T, b: T| !(#[trigger] before(a, b)) && !before(b, a) ==> a == b
}

/// True where `m` is one of the values and none comes before it.
pub open spec fn is_first<T>(m: T, values: Seq<T>, before: spec_fn(T, T) -> bool) -> bool {
    values.contains(m) && forall|i: int|
        0 <= i < values.len() ==> !before(#[trigger] values[i], m)
}

/// The reported minimum and maximum are values of the column, and no value lies
/// outside them.
pub proof fn law_pick_is_extreme<T>(values: Seq<T>, before: spec_fn(T, T) -> bool)
    requires
        weakly_ordered(before),
    ensures
        pick(values, before) is None <==> values.len() == 0,
        pick(values, before) matches Some(m) ==> is_first(m, values, before),
    decreases values.len(),
{
    if values.len() > 0 {
        let init = values.drop_last();
        law_pick_is_extreme(init, before);
        let m = pick(values, before)->Some_0;
        if let Some(old_m) = pick(init, before) {
            let k = choose|k: int| 0 <= k < init.len() && init[k] == old_m;
            assert(values[k] == old_m);
            assert forall|i: int| 0 <= i < values.len() implies !before(#[trigger] values[i], m) by {
                if i < init.len() {
                    assert(!before(init[i], old_m));
                    if before(values.last(), old_m) {
                        assert(!before(old_m, values.last()));
                    }
                } else if before(values.last(), m) {
                    assert(!before(m, values.last()));
                }
            }
        } else {
            assert(init.len() == 0);
            assert(values[values.len() - 1] == m);
            assert forall|i: int| 0 <= i < values.len() implies !before(#[trigger] values[i], m) by {
                if before(values[i], m) {
                    assert(!before(m, values[i]));
                }
            }
        }
    }
}

/// Non-null values and nulls add up to the rows considered.
pub proof fn law_counts_add_up(
    s: ColumnStats,
    name: Seq<char>,
    dt: DataType,
    cells: Seq<Cell>,
    mean: Float,
    stddev: Float,
)
    requires
        summarizes(s, name, dt, cells, mean, stddev),
    ensures
        s.count + s.nulls == cells.len(),
{
}

/// A cell is a distinct key of its column exactly where some cell has that key, so
/// repeated values count once.
pub proof fn law_keys_are_those_of_the_cells<T>(
    cells: Seq<Cell>,
    f: spec_fn(Cell) -> Option<T>,
    key: T,
)
    ensures
        keys(cells, f).contains(key) <==> exists|i: int|
            0 <= i < cells.len() && f(#[trigger] cells[i]) == Some(key),
        keys(cells, f).finite(),
        keys(cells, f).len() <= cells.len(),
    decreases cells.len(),
{
    if cells.len() > 0 {
        let init = cells.drop_last();
        law_keys_are_those_of_the_cells(init, f, key);
        if keys(init, f).contains(key) {
            let i = choose|i: int| 0 <= i < init.len() && f(#[trigger] init[i]) == Some(key);
            assert(f(cells[i]) == Some(key));
        }
        if f(cells.last()) == Some(key) {
            assert(f(cells[cells.len() - 1]) == Some(key));
        }
        if exists|i: int| 0 <= i < cells.len() && f(#[trigger] cells[i]) == Some(key) {
            let i = choose|i: int| 0 <= i < cells.len() && f(#[trigger] cells[i]) == Some(key);
            if i < init.len() {
                assert(f(init[i]) == Some(key));
            }
        }
    }
}

/// NaN takes no part in the minimum and maximum of a float column.
pub proof fn law_nan_is_left_out_of_bounds(cells: Seq<Cell>, f: Float)
    requires
        f.is_nan(),
    ensures
        collect(cells.push(Cell::Float(f)), ordered_float()) == collect(cells, ordered_float()),
{
    assert(cells.push(Cell::Float(f)).drop_last() =~= cells);
}

/// Two floats count as one value where both are not a number, both are zero, or they
/// are the same; and only there.
pub proof fn law_equal_floats_share_a_key(f: Float, g: Float)
    ensures
        canonical_bits(f) == canonical_bits(g) <==> (f.is_nan() && g.is_nan()) || (f.magnitude()
            == 0 && g.magnitude() == 0) || f.bits == g.bits,
{
}

/// One update per value, starting from none, ends with the least value as the minimum
/// and the greatest as the maximum.
pub proof fn law_updates_keep_the_extremes<T: Ranked>(
    values: Seq<T::V>,
    mins: Seq<Option<T::V>>,
    maxs: Seq<Option<T::V>>,
)
    requires
        weakly_ordered(smaller::<T>()),
        values.len() > 0,
        mins.len() == values.len() + 1,
        maxs.len() == values.len() + 1,
        mins[0] is None,
        maxs[0] is None,
        forall|i: int|
            0 <= i < values.len() ==> #[trigger] mins[i + 1] == kept(
                mins[i],
                values[i],
                smaller::<T>(),
            ),
        forall|i: int|
            0 <= i < values.len() ==> #[trigger] maxs[i + 1] == kept(
                maxs[i],
                values[i],
                larger::<T>(),
            ),
    ensures
        mins.last() matches Some(m) && is_first(m, values, smaller::<T>()),
        maxs.last() matches Some(m) && is_first(m, values, larger::<T>()),
{
    let n = values.len() as int;
    lemma_updates_pick(values, mins, smaller::<T>(), n);
    lemma_updates_pick(values, maxs, larger::<T>(), n);
    assert(values.take(n) =~= values);
    lemma_larger_is_ordered::<T>();
    law_pick_is_extreme(values, smaller::<T>());
    law_pick_is_extreme(values, larger::<T>());
}

proof fn lemma_updates_pick<T>(
    values: Seq<T>,
    states: Seq<Option<T>>,
    before: spec_fn(T, T) -> bool,
    n: int,
)
    requires
        0 <= n <= values.len(),
        states.len() == values.len() + 1,
        states[0] is None,
        forall|i: int|
            0 <= i < values.len() ==> #[trigger] states[i + 1] == kept(
                states[i],
                values[i],
                before,
            ),
    ensures
        states[n] == pick(values.take(n), before),
    decreases n,
{
    if n > 0 {
        lemma_updates_pick(values, states, before, n - 1);
        assert(values.take(n).drop_last() =~= values.take(n - 1));
        assert(states[(n - 1) + 1] == kept(states[n - 1], values[n - 1], before));
    }
}

proof fn lemma_larger_is_ordered<T: Ranked>()
    requires
        weakly_ordered(smaller::<T>()),
    ensures
        weakly_ordered(larger::<T>()),
{
    let less = smaller::<T>();
    let more = larger::<T>();
    assert forall|a: T::V, b: T::V, c: T::V|
        !(#[trigger] more(a, b)) && !(#[trigger] more(b, c)) implies !more(a, c) by {
        assert(!less(c, b) && !less(b, a));
        assert(!less(c, a));
    }
    assert forall|a: T::V, b: T::V| #[trigger] more(a, b) implies !more(b, a) by {
        assert(less(b, a));
    }
}

/// The order of the updates does not matter: of the same values the same is kept.
pub proof fn law_update_order_does_not_matter<T>(
    values: Seq<T>,
    others: Seq<T>,
    before: spec_fn(T, T) -> bool,
)
    requires
        totally_ordered(before),
        values.to_multiset() == others.to_multiset(),
    ensures
        pick(values, before) == pick(others, before),
{
    broadcast use vstd::seq_lib::group_to_multiset_ensures;

    law_pick_is_extreme(values, before);
    law_pick_is_extreme(others, before);
    assert(values.to_multiset().len() == values.len());
    assert(others.to_multiset().len() == others.len());
    if values.len() > 0 {
        let m = pick(values, before)->Some_0;
        let w = pick(others, before)->Some_0;
        assert(values.to_multiset().count(m) > 0);
        assert(others.contains(m));
        assert(others.to_multiset().count(w) > 0);
        assert(values.contains(w));
        let i = choose|i: int| 0 <= i < others.len() && others[i] == m;
        assert(!before(others[i], w));
        let j = choose|j: int| 0 <= j < values.len() && values[j] == w;
        assert(!before(values[j], m));
    }
}

/// The values with a minimum and a maximum are totally ordered; floats other than NaN
/// are but for their two zeros, which tie.
pub proof fn law_values_are_ordered()
    ensures
        totally_ordered(smaller::<i64>()),
        totally_ordered(smaller::<u64>()),
        totally_ordered(smaller::<bool>()),
        totally_ordered(smaller::<String>()),
        weakly_ordered(smaller::<Float>()),
{
    let less = smaller::<String>();
    assert forall|a: Seq<char>, b: Seq<char>, c: Seq<char>|
        !(#[trigger] less(a, b)) && !(#[trigger] less(b, c)) implies !less(a, c) by {
        lemma_text_le_transitive(c, b, a);
    }
    assert forall|a: Seq<char>, b: Seq<char>| #[trigger] less(a, b) implies !less(b, a) by {
        lemma_text_le_total(a, b);
    }
    assert forall|a: Seq<char>, b: Seq<char>| !(#[trigger] less(a, b)) && !less(b, a) implies a
        == b by {
        lemma_text_le_antisymmetric(a, b);
    }
}

} // verus!
