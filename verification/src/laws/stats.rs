//! Column statistics, held against the cells that they summarize.
use vstd::prelude::*;

use crate::cell::{Cell, Float};
use crate::dataset::ColumnStats;
use crate::json::opt_view;
use crate::output::value::table_of;
use crate::output::RenderOptions;
use crate::schema::{DataType, Kind, TimeUnit};
use crate::stats::distinct::KeyModel;
use crate::stats::{
    boolean, boolean_key, bound_text, collect, distinct_of, extreme, float_key, keys, larger,
    law_keys_are_those_of_the_cells, law_pick_is_extreme, law_values_are_ordered, null_count,
    ordered_float, pick, signed, signed_key, smaller, string, string_key, summarizes, temporal,
    temporal_key, temporal_number, temporal_text, unsigned, unsigned_key, weakly_ordered, Ranked,
};
use crate::text::{dec, dec_int, text_le};

verus! {

/// True of a cell that a column of a kind with statistics may hold, other than null.
pub open spec fn of_kind(c: Cell, k: Kind) -> bool {
    match (k, c) {
        (Kind::Int8, Cell::Int(_)) => true,
        (Kind::Int16, Cell::Int(_)) => true,
        (Kind::Int32, Cell::Int(_)) => true,
        (Kind::Int64, Cell::Int(_)) => true,
        (Kind::UInt8, Cell::UInt(_)) => true,
        (Kind::UInt16, Cell::UInt(_)) => true,
        (Kind::UInt32, Cell::UInt(_)) => true,
        (Kind::UInt64, Cell::UInt(_)) => true,
        (Kind::Float16, Cell::Float(_)) => true,
        (Kind::Float32, Cell::Float(_)) => true,
        (Kind::Float64, Cell::Float(_)) => true,
        (Kind::Utf8, Cell::Text(_)) => true,
        (Kind::LargeUtf8, Cell::Text(_)) => true,
        (Kind::Utf8View, Cell::TextView(_)) => true,
        (Kind::Boolean, Cell::Boolean(_)) => true,
        (Kind::Date32, Cell::Date32(_)) => true,
        (Kind::Date64, Cell::Date64(_)) => true,
        (Kind::Time32(u), Cell::Time32(_, w)) => u == w && (u == TimeUnit::Second || u
            == TimeUnit::Millisecond),
        (Kind::Time64(u), Cell::Time64(_, w)) => u == w && (u == TimeUnit::Microsecond || u
            == TimeUnit::Nanosecond),
        (Kind::Timestamp(u, z), Cell::Timestamp(_, w, y)) => u == w && opt_view(z) == opt_view(y),
        (Kind::Duration(u), Cell::Duration(_, w)) => u == w,
        _ => false,
    }
}

/// True of a date, a time, a timestamp or a duration.
pub open spec fn is_temporal(c: Cell) -> bool {
    c is Date32 || c is Date64 || c is Time32 || c is Time64 || c is Timestamp || c is Duration
}

/// A bound of a temporal column is shown as the rows show it: the text of the number
/// that is kept of a cell is the text of the cell itself, whatever the options.
pub proof fn law_temporal_bound_is_a_row_text(c: Cell, k: Kind, o: RenderOptions)
    requires
        of_kind(c, k),
        is_temporal(c),
    ensures
        temporal_number(c) matches Some(v) && temporal_text(k, v) matches Some(t) && table_of(c, o)
            == Ok::<Seq<char>, Seq<char>>(t),
{
    match c {
        Cell::Date32(v) => {
            assert((v as i64) as i32 == v);
        },
        Cell::Time32(v, u) => {
            assert((v as i64) as i32 == v);
        },
        _ => {},
    }
}

/// Two cells of one column whose numbers are the same are shown the same.
pub proof fn law_same_number_same_text(a: Cell, b: Cell, k: Kind, o: RenderOptions)
    requires
        of_kind(a, k),
        of_kind(b, k),
        is_temporal(a),
        temporal_number(a) == temporal_number(b),
    ensures
        table_of(a, o) == table_of(b, o),
{
    law_temporal_bound_is_a_row_text(a, k, o);
    law_temporal_bound_is_a_row_text(b, k, o);
}

/// True where the number that `f` writes is no more than the number that `g` does,
/// neither being NaN.
pub open spec fn float_no_more(f: Float, g: Float) -> bool {
    if f.is_negative() && g.is_negative() {
        f.magnitude() >= g.magnitude()
    } else if f.is_negative() {
        true
    } else if g.is_negative() {
        f.magnitude() == 0 && g.magnitude() == 0
    } else {
        f.magnitude() <= g.magnitude()
    }
}

/// True where the value of `a` is no more than the value of `b`, in a column that
/// may hold both.
pub open spec fn no_more(a: Cell, b: Cell) -> bool {
    match (a, b) {
        (Cell::Int(x), Cell::Int(y)) => x <= y,
        (Cell::UInt(x), Cell::UInt(y)) => x <= y,
        (Cell::Float(f), Cell::Float(g)) => float_no_more(f, g),
        (Cell::Boolean(x), Cell::Boolean(y)) => x ==> y,
        (Cell::Text(x), Cell::Text(y)) => text_le(x@, y@),
        (Cell::TextView(x), Cell::TextView(y)) => text_le(x@, y@),
        (Cell::Date32(x), Cell::Date32(y)) => x <= y,
        (Cell::Date64(x), Cell::Date64(y)) => x <= y,
        (Cell::Time32(x, _), Cell::Time32(y, _)) => x <= y,
        (Cell::Time64(x, _), Cell::Time64(y, _)) => x <= y,
        (Cell::Timestamp(x, _, _), Cell::Timestamp(y, _, _)) => x <= y,
        (Cell::Duration(x, _), Cell::Duration(y, _)) => x <= y,
        _ => false,
    }
}

/// True where `t` is how a bound at the cell `c` is shown.
pub open spec fn bound_shows(t: Seq<char>, c: Cell) -> bool {
    match c {
        Cell::Int(i) => t == dec_int(i as int),
        Cell::UInt(u) => t == dec(u as nat),
        Cell::Boolean(b) => b && t == "true"@ || !b && t == "false"@,
        Cell::Text(s) => t == s@,
        Cell::TextView(s) => t == s@,
        Cell::Float(f) => if !f.is_infinite() {
            t == f.wide@
        } else if f.is_negative() {
            t == "-inf"@
        } else {
            t == "inf"@
        },
        _ => forall|o: RenderOptions| #[trigger] table_of(c, o) == Ok::<Seq<char>, Seq<char>>(t),
    }
}

/// True of a cell that a bound takes into account: neither null nor NaN.
pub open spec fn bounded(c: Cell) -> bool {
    !(c is Null) && (c matches Cell::Float(f) ==> !f.is_nan())
}

/// True of the cells of a column of a kind with statistics.
pub open spec fn cells_of_kind(cells: Seq<Cell>, k: Kind) -> bool {
    forall|i: int| 0 <= i < cells.len() ==> (#[trigger] cells[i]) is Null || of_kind(cells[i], k)
}

proof fn lemma_collected<T>(cells: Seq<Cell>, f: spec_fn(Cell) -> Option<T>, v: T)
    ensures
        collect(cells, f).contains(v) <==> exists|i: int|
            0 <= i < cells.len() && f(#[trigger] cells[i]) == Some(v),
        collect(cells, f).len() == 0 <==> forall|i: int|
            0 <= i < cells.len() ==> f(#[trigger] cells[i]) is None,
    decreases cells.len(),
{
    if cells.len() > 0 {
        let rest = cells.drop_last();
        lemma_collected(rest, f, v);
        assert forall|i: int| 0 <= i < rest.len() implies #[trigger] cells[i] == rest[i] by {}
        let last = cells.len() - 1;
        assert(cells[last] == cells.last());
        let all = collect(cells, f);
        let before = collect(rest, f);
        match f(cells.last()) {
            Some(w) => {
                assert(all == before.push(w));
                assert(all[before.len() as int] == w);
                if all.contains(v) {
                    let j = choose|j: int| 0 <= j < all.len() && all[j] == v;
                    if j < before.len() {
                        assert(before[j] == v);
                        assert(before.contains(v));
                        let i = choose|i: int|
                            0 <= i < rest.len() && f(#[trigger] rest[i]) == Some(v);
                        assert(f(cells[i]) == Some(v));
                    } else {
                        assert(f(cells[last]) == Some(v));
                    }
                }
                if exists|i: int| 0 <= i < cells.len() && f(#[trigger] cells[i]) == Some(v) {
                    let i = choose|i: int| 0 <= i < cells.len() && f(#[trigger] cells[i]) == Some(v);
                    if i < rest.len() {
                        assert(f(rest[i]) == Some(v));
                        assert(before.contains(v));
                        let j = choose|j: int| 0 <= j < before.len() && before[j] == v;
                        assert(all[j] == v);
                    }
                    assert(all.contains(v));
                }
                assert(!(f(cells[last]) is None));
            },
            None => {
                assert(all == before);
                if exists|i: int| 0 <= i < cells.len() && f(#[trigger] cells[i]) == Some(v) {
                    let i = choose|i: int| 0 <= i < cells.len() && f(#[trigger] cells[i]) == Some(v);
                    assert(f(rest[i]) == Some(v));
                }
                if exists|i: int| 0 <= i < rest.len() && f(#[trigger] rest[i]) == Some(v) {
                    let i = choose|i: int| 0 <= i < rest.len() && f(#[trigger] rest[i]) == Some(v);
                    assert(f(cells[i]) == Some(v));
                }
                if all.len() == 0 {
                    assert forall|i: int| 0 <= i < cells.len() implies f(#[trigger] cells[i]) is None by {
                        if i < rest.len() {
                            assert(f(rest[i]) is None);
                        }
                    }
                } else {
                    let i = choose|i: int| 0 <= i < rest.len() && !(f(#[trigger] rest[i]) is None);
                    assert(!(f(cells[i]) is None));
                }
            },
        }
    }
}

/// The place of the cell that an extreme is taken from.
proof fn lemma_extreme<T: Ranked>(
    cells: Seq<Cell>,
    f: spec_fn(Cell) -> Option<T::V>,
    low: bool,
) -> (at: int)
    requires
        weakly_ordered(smaller::<T>()),
    ensures
        extreme::<T>(collect(cells, f), low) is None <==> forall|i: int|
            0 <= i < cells.len() ==> f(#[trigger] cells[i]) is None,
        extreme::<T>(collect(cells, f), low) matches Some(m) ==> 0 <= at < cells.len() && f(
            cells[at],
        ) == Some(m) && forall|j: int|
            0 <= j < cells.len() ==> (f(#[trigger] cells[j]) matches Some(w) ==> if low {
                !T::before(w, m)
            } else {
                !T::before(m, w)
            }),
{
    let values = collect(cells, f);
    let before = if low {
        smaller::<T>()
    } else {
        larger::<T>()
    };
    assert(weakly_ordered(larger::<T>())) by {
        let s = smaller::<T>();
        let l = larger::<T>();
        assert forall|a: T::V, b: T::V| #[trigger] l(a, b) == s(b, a) by {}
        assert forall|a: T::V, b: T::V, c: T::V|
            !(#[trigger] l(a, b)) && !(#[trigger] l(b, c)) implies !l(a, c) by {
            assert(!s(b, a) && !s(c, b));
        }
        assert forall|a: T::V, b: T::V| #[trigger] l(a, b) implies !l(b, a) by {
            assert(s(b, a));
        }
    }
    law_pick_is_extreme(values, before);
    match pick(values, before) {
        None => {
            if exists|i: int| 0 <= i < cells.len() && f(#[trigger] cells[i]) is Some {
                let i = choose|i: int| 0 <= i < cells.len() && f(#[trigger] cells[i]) is Some;
                lemma_collected(cells, f, f(cells[i])->Some_0);
            }
            0
        },
        Some(m) => {
            lemma_collected(cells, f, m);
            let at = choose|i: int| 0 <= i < cells.len() && f(#[trigger] cells[i]) == Some(m);
            assert forall|j: int| 0 <= j < cells.len() && f(#[trigger] cells[j]) is Some implies if low {
                !T::before(f(cells[j])->Some_0, m)
            } else {
                !T::before(m, f(cells[j])->Some_0)
            } by {
                let w = f(cells[j])->Some_0;
                lemma_collected(cells, f, w);
                let p = choose|p: int| 0 <= p < values.len() && values[p] == w;
                assert(!before(values[p], m));
            }
            at
        },
    }
}

/// The bounds of a column are those of its cells: a bound is missing exactly where
/// no cell is taken into account, and otherwise it shows one of the cells, than
/// which no cell is smaller (the minimum) or larger (the maximum).
#[verifier::rlimit(40)]
pub proof fn law_bounds_are_extremes_of_the_column(k: Kind, cells: Seq<Cell>, low: bool)
    requires
        cells_of_kind(cells, k),
    ensures
        bound_text(k, cells, low) is None <==> forall|i: int|
            0 <= i < cells.len() ==> !bounded(#[trigger] cells[i]),
        bound_text(k, cells, low) matches Some(t) ==> exists|i: int|
            0 <= i < cells.len() && bounded(#[trigger] cells[i]) && bound_shows(t, cells[i])
                && forall|j: int|
                0 <= j < cells.len() && bounded(#[trigger] cells[j]) ==> if low {
                    no_more(cells[i], cells[j])
                } else {
                    no_more(cells[j], cells[i])
                },
{
    law_values_are_ordered();
    assert forall|i: int| 0 <= i < cells.len() implies (#[trigger] cells[i]) is Null || of_kind(
        cells[i],
        k,
    ) by {}
    match k {
        Kind::Int8 | Kind::Int16 | Kind::Int32 | Kind::Int64 => {
            let at = lemma_extreme::<i64>(cells, signed(), low);
            lemma_witness(k, cells, low, at, signed());
        },
        Kind::UInt8 | Kind::UInt16 | Kind::UInt32 | Kind::UInt64 => {
            let at = lemma_extreme::<u64>(cells, unsigned(), low);
            lemma_witness(k, cells, low, at, unsigned());
        },
        Kind::Float16 | Kind::Float32 | Kind::Float64 => {
            let at = lemma_extreme::<Float>(cells, ordered_float(), low);
            lemma_witness(k, cells, low, at, ordered_float());
        },
        Kind::Utf8 | Kind::LargeUtf8 | Kind::Utf8View => {
            let at = lemma_extreme::<String>(cells, string(), low);
            lemma_witness(k, cells, low, at, string());
        },
        Kind::Boolean => {
            let at = lemma_extreme::<bool>(cells, boolean(), low);
            lemma_witness(k, cells, low, at, boolean());
        },
        Kind::Date32
        | Kind::Date64
        | Kind::Time32(_)
        | Kind::Time64(_)
        | Kind::Timestamp(_, _)
        | Kind::Duration(_) => {
            let at = lemma_extreme::<i64>(cells, temporal(), low);
            assert forall|i: int| 0 <= i < cells.len() && bounded(#[trigger] cells[i]) implies {
                let v = temporal_number(cells[i]);
                v is Some && temporal_text(k, v->Some_0) is Some && bound_shows(
                    temporal_text(k, v->Some_0)->Some_0,
                    cells[i],
                )
            } by {
                let o0 = crate::output::only_binary(crate::cli::BinaryFormat::Placeholder);
                law_temporal_bound_is_a_row_text(cells[i], k, o0);
                let t = temporal_text(k, temporal_number(cells[i])->Some_0)->Some_0;
                assert forall|o: RenderOptions| #[trigger] table_of(cells[i], o) == Ok::<
                    Seq<char>,
                    Seq<char>,
                >(t) by {
                    law_temporal_bound_is_a_row_text(cells[i], k, o);
                }
            }
            lemma_witness(k, cells, low, at, temporal());
        },
        _ => {
            assert forall|i: int| 0 <= i < cells.len() implies !bounded(#[trigger] cells[i]) by {}
        },
    }
}

/// What is picked at a place is shown there, and bounds the rest.
proof fn lemma_witness<T>(
    k: Kind,
    cells: Seq<Cell>,
    low: bool,
    at: int,
    f: spec_fn(Cell) -> Option<T>,
)
    requires
        forall|i: int| 0 <= i < cells.len() ==> (f(#[trigger] cells[i]) is Some <==> bounded(cells[i])),
        bound_text(k, cells, low) is None <==> forall|i: int|
            0 <= i < cells.len() ==> f(#[trigger] cells[i]) is None,
        bound_text(k, cells, low) matches Some(t) ==> 0 <= at < cells.len() && bounded(cells[at])
            && bound_shows(t, cells[at]) && forall|j: int|
            0 <= j < cells.len() && bounded(#[trigger] cells[j]) ==> if low {
                no_more(cells[at], cells[j])
            } else {
                no_more(cells[j], cells[at])
            },
    ensures
        bound_text(k, cells, low) is None <==> forall|i: int|
            0 <= i < cells.len() ==> !bounded(#[trigger] cells[i]),
        bound_text(k, cells, low) matches Some(t) ==> exists|i: int|
            0 <= i < cells.len() && bounded(#[trigger] cells[i]) && bound_shows(t, cells[i])
                && forall|j: int|
                0 <= j < cells.len() && bounded(#[trigger] cells[j]) ==> if low {
                    no_more(cells[i], cells[j])
                } else {
                    no_more(cells[j], cells[i])
                },
{
    if forall|i: int| 0 <= i < cells.len() ==> f(#[trigger] cells[i]) is None {
        assert forall|i: int| 0 <= i < cells.len() implies !bounded(#[trigger] cells[i]) by {
            assert(f(cells[i]) is None);
        }
    } else {
        let i = choose|i: int| 0 <= i < cells.len() && !(f(#[trigger] cells[i]) is None);
        assert(bounded(cells[i]));
        assert(bounded(cells[at]));
    }
}

/// The nulls that are counted are the null cells; the count is that of the others.
pub proof fn law_nulls_are_the_null_cells(
    s: ColumnStats,
    name: Seq<char>,
    dt: DataType,
    cells: Seq<Cell>,
    mean: Float,
    stddev: Float,
)
    requires
        summarizes(s, name, dt, cells, mean, stddev),
    ensures
        s.column@ == name,
        s.data_type@ == dt.debug@,
        s.nulls == cells.filter(|c: Cell| c is Null).len(),
        s.count == cells.filter(|c: Cell| !(c is Null)).len(),
        opt_view(s.min) == bound_text(dt.kind, cells, true),
        opt_view(s.max) == bound_text(dt.kind, cells, false),
        opt_view(s.distinct) == distinct_of(dt.kind, cells),
{
    lemma_nulls(cells);
}

proof fn lemma_nulls(cells: Seq<Cell>)
    ensures
        null_count(cells) == cells.filter(|c: Cell| c is Null).len(),
        cells.len() - null_count(cells) == cells.filter(|c: Cell| !(c is Null)).len(),
    decreases cells.len(),
{
    reveal(Seq::filter);
    if cells.len() > 0 {
        lemma_nulls(cells.drop_last());
    }
}

/// True of the kinds whose columns have a mean.
pub open spec fn is_number_kind(k: Kind) -> bool {
    match k {
        Kind::Int8 | Kind::Int16 | Kind::Int32 | Kind::Int64 => true,
        Kind::UInt8 | Kind::UInt16 | Kind::UInt32 | Kind::UInt64 => true,
        Kind::Float16 | Kind::Float32 | Kind::Float64 => true,
        _ => false,
    }
}

/// A column has a mean exactly where it is numeric and has a value, and a standard
/// deviation exactly where it is numeric and has two.
pub proof fn law_numbers_have_a_mean(
    s: ColumnStats,
    name: Seq<char>,
    dt: DataType,
    cells: Seq<Cell>,
    mean: Float,
    stddev: Float,
)
    requires
        summarizes(s, name, dt, cells, mean, stddev),
    ensures
        is_number_kind(dt.kind) && s.count >= 1 <==> s.mean is Some,
        is_number_kind(dt.kind) && s.count >= 2 <==> s.stddev is Some,
        s.mean is Some ==> s.mean == Some(mean),
        s.stddev is Some ==> s.stddev == Some(stddev),
{
}

/// True where two cells of a column hold one value. All NaNs are one value, and so
/// are both zeros.
pub open spec fn same_value(a: Cell, b: Cell) -> bool {
    match (a, b) {
        (Cell::Int(x), Cell::Int(y)) => x == y,
        (Cell::UInt(x), Cell::UInt(y)) => x == y,
        (Cell::Float(f), Cell::Float(g)) => f.bits == g.bits || (f.is_nan() && g.is_nan()) || (
        f.magnitude() == 0 && g.magnitude() == 0),
        (Cell::Boolean(x), Cell::Boolean(y)) => x == y,
        (Cell::Text(x), Cell::Text(y)) => x@ == y@,
        (Cell::TextView(x), Cell::TextView(y)) => x@ == y@,
        (Cell::Date32(x), Cell::Date32(y)) => x == y,
        (Cell::Date64(x), Cell::Date64(y)) => x == y,
        (Cell::Time32(x, _), Cell::Time32(y, _)) => x == y,
        (Cell::Time64(x, _), Cell::Time64(y, _)) => x == y,
        (Cell::Timestamp(x, _, _), Cell::Timestamp(y, _, _)) => x == y,
        (Cell::Duration(x, _), Cell::Duration(y, _)) => x == y,
        _ => false,
    }
}

/// True where `places` are places of cells that hold each value of the column once.
#[verifier::opaque]
pub open spec fn each_value_once(places: Seq<int>, cells: Seq<Cell>) -> bool {
    &&& forall|p: int|
        0 <= p < places.len() ==> 0 <= #[trigger] places[p] < cells.len() && !(
        cells[places[p]] is Null)
    &&& forall|p: int, q: int|
        0 <= p < q < places.len() ==> !same_value(
            cells[#[trigger] places[p]],
            cells[#[trigger] places[q]],
        )
    &&& forall|i: int|
        0 <= i < cells.len() && !((#[trigger] cells[i]) is Null) ==> exists|p: int|
            0 <= p < places.len() && same_value(cells[i], cells[#[trigger] places[p]])
}

proof fn lemma_distinct(
    cells: Seq<Cell>,
    f: spec_fn(Cell) -> Option<KeyModel>,
    places: Seq<int>,
)
    requires
        each_value_once(places, cells),
        forall|i: int|
            0 <= i < cells.len() ==> (f(#[trigger] cells[i]) is None <==> cells[i] is Null),
        forall|i: int, j: int|
            0 <= i < cells.len() && 0 <= j < cells.len() && !(cells[i] is Null) && !(
            cells[j] is Null) ==> (f(#[trigger] cells[i]) == f(#[trigger] cells[j]) <==> same_value(
                cells[i],
                cells[j],
            )),
    ensures
        keys(cells, f).len() == places.len(),
{
    reveal(each_value_once);
    let ks = Seq::new(places.len(), |p: int| f(cells[places[p]])->Some_0);
    assert(ks.no_duplicates()) by {
        assert forall|p: int, q: int| 0 <= p < q < ks.len() implies ks[p] != ks[q] by {
            assert(!same_value(cells[places[p]], cells[places[q]]));
            assert(f(cells[places[p]]) != f(cells[places[q]]));
        }
        assert forall|p: int, q: int| 0 <= p < ks.len() && 0 <= q < ks.len() && p != q implies ks[p]
            != ks[q] by {
            if p < q {
            } else {
                assert(ks[q] != ks[p]);
            }
        }
    }
    ks.unique_seq_to_set();
    assert forall|key: KeyModel| keys(cells, f).contains(key) <==> ks.to_set().contains(key) by {
        law_keys_are_those_of_the_cells(cells, f, key);
        if keys(cells, f).contains(key) {
            let i = choose|i: int| 0 <= i < cells.len() && f(#[trigger] cells[i]) == Some(key);
            assert(!(cells[i] is Null));
            let p = choose|p: int|
                0 <= p < places.len() && same_value(cells[i], cells[#[trigger] places[p]]);
            assert(f(cells[i]) == f(cells[places[p]]));
            assert(ks[p] == key);
            assert(ks.contains(key));
        }
        if ks.contains(key) {
            let p = choose|p: int| 0 <= p < ks.len() && ks[p] == key;
            assert(f(cells[places[p]]) == Some(key));
        }
    }
    assert(keys(cells, f) =~= ks.to_set());
}

proof fn lemma_distinct_floats(cells: Seq<Cell>, k: Kind, places: Seq<int>)
    requires
        cells_of_kind(cells, k),
        k is Float16 || k is Float32 || k is Float64,
        each_value_once(places, cells),
    ensures
        keys(cells, float_key()).len() == places.len(),
{
    let f = float_key();
    assert forall|i: int| 0 <= i < cells.len() implies (f(#[trigger] cells[i]) is None
        <==> cells[i] is Null) by {
        assert(cells[i] is Null || of_kind(cells[i], k));
    }
    assert forall|i: int, j: int|
        0 <= i < cells.len() && 0 <= j < cells.len() && !(cells[i] is Null) && !(
        cells[j] is Null) implies (f(#[trigger] cells[i]) == f(#[trigger] cells[j]) <==> same_value(
        cells[i],
        cells[j],
    )) by {
        assert(of_kind(cells[i], k) && of_kind(cells[j], k));
        crate::stats::law_equal_floats_share_a_key(cells[i]->Float_0, cells[j]->Float_0);
    }
    lemma_distinct(cells, f, places);
}

/// True of the kinds whose columns have bounds and a number of distinct values.
pub open spec fn has_statistics(k: Kind) -> bool {
    match k {
        Kind::Utf8 | Kind::LargeUtf8 | Kind::Utf8View | Kind::Boolean => true,
        Kind::Date32 | Kind::Date64 | Kind::Time32(_) | Kind::Time64(_) => true,
        Kind::Timestamp(_, _) | Kind::Duration(_) => true,
        _ => is_number_kind(k),
    }
}

/// The distinct values that are counted are the different values of the cells, nulls
/// left out: as many as it takes to hold each of them once; past ten thousand, only
/// that they are more.
#[verifier::rlimit(40)]
pub proof fn law_distinct_counts_the_values(k: Kind, cells: Seq<Cell>, places: Seq<int>)
    requires
        cells_of_kind(cells, k),
        has_statistics(k),
        each_value_once(places, cells),
    ensures
        places.len() <= 10_000 ==> distinct_of(k, cells) == Some(dec(places.len())),
        places.len() > 10_000 ==> distinct_of(k, cells) == Some(">"@ + dec(10_000)),
{
    assert forall|i: int| 0 <= i < cells.len() implies (#[trigger] cells[i]) is Null || of_kind(
        cells[i],
        k,
    ) by {}
    match k {
        Kind::Int8 | Kind::Int16 | Kind::Int32 | Kind::Int64 => {
            lemma_distinct(cells, signed_key(), places);
        },
        Kind::UInt8 | Kind::UInt16 | Kind::UInt32 | Kind::UInt64 => {
            lemma_distinct(cells, unsigned_key(), places);
        },
        Kind::Float16 | Kind::Float32 | Kind::Float64 => {
            lemma_distinct_floats(cells, k, places);
        },
        Kind::Utf8 | Kind::LargeUtf8 | Kind::Utf8View => {
            lemma_distinct(cells, string_key(), places);
        },
        Kind::Boolean => {
            lemma_distinct(cells, boolean_key(), places);
        },
        Kind::Date32
        | Kind::Date64
        | Kind::Time32(_)
        | Kind::Time64(_)
        | Kind::Timestamp(_, _)
        | Kind::Duration(_) => {
            lemma_distinct(cells, temporal_key(), places);
        },
        _ => {},
    }
}

} // verus!
