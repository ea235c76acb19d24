//! `freq`: value counts for a single column.
//!
//! Each value is keyed by its CSV text, so that what is shown is what is counted.
//! Nulls are counted apart and shown as an explicit `NULL` row. Where a limit cuts
//! the list, the counts of the values left out are added up in a last `<other>` row.
use vstd::hash_map::StringHashMap;
use vstd::prelude::*;
use vstd::seq_lib::group_to_multiset_ensures;

use crate::binary64::{one_decimal, percent_tenths, percent_text};
use crate::cell::{batch_of_rows, batch_row, cell_ok, row_ok, rows_ok, typed_as, Cell, Column};
use crate::cli::FreqSort;
use crate::error::Error;
use crate::listing::{is_field, is_text, Listing};
use crate::output::value::{csv_cell, csv_of, refused_label, CsvModel};
use crate::output::RenderOptions;
use crate::schema::{
    available, available_names, find_field, position, DataType, Field, Kind, Schema,
};
use crate::sort::{sort, views_of, Order};
use crate::text::{
    le, lemma_text_le_antisymmetric, lemma_text_le_reflexive, lemma_text_le_total,
    lemma_text_le_transitive, text_le, texts,
};

verus! {

/// Ceiling on distinct values.
pub const MAX_DISTINCT: usize = 1_000_000;

// ---------- which columns ----------

/// True of the types whose values can be counted: what CSV renders, without the
/// binary family.
pub open spec fn countable(t: DataType) -> bool
    decreases t,
{
    match t.kind {
        Kind::Null | Kind::Boolean => true,
        Kind::Int8 | Kind::Int16 | Kind::Int32 | Kind::Int64 => true,
        Kind::UInt8 | Kind::UInt16 | Kind::UInt32 | Kind::UInt64 => true,
        Kind::Float16 | Kind::Float32 | Kind::Float64 => true,
        Kind::Utf8 | Kind::LargeUtf8 => true,
        Kind::Date32 | Kind::Date64 | Kind::Time32(_) | Kind::Time64(_) | Kind::Timestamp(_, _) => true,
        Kind::Decimal32(_, _) | Kind::Decimal64(_, _) => true,
        Kind::Decimal128(_, _) | Kind::Decimal256(_, _) => true,
        Kind::Dictionary(_, v) => countable(*v),
        _ => false,
    }
}

/// Accept only columns whose values CSV renders losslessly.
pub fn validate_freq_type(col: &str, ty: &DataType) -> (r: Result<(), Error>)
    ensures
        countable(*ty) ==> r is Ok,
        !countable(*ty) ==> (r matches Err(Error::UnsupportedFreqType { column, data_type })
            && column@ == col@ && data_type@ == refused_label(*ty)),
    decreases *ty,
{
    match &ty.kind {
        Kind::Null
        | Kind::Boolean
        | Kind::Int8
        | Kind::Int16
        | Kind::Int32
        | Kind::Int64
        | Kind::UInt8
        | Kind::UInt16
        | Kind::UInt32
        | Kind::UInt64
        | Kind::Float16
        | Kind::Float32
        | Kind::Float64
        | Kind::Utf8
        | Kind::LargeUtf8
        | Kind::Date32
        | Kind::Date64
        | Kind::Time32(_)
        | Kind::Time64(_)
        | Kind::Timestamp(_, _)
        | Kind::Decimal32(_, _)
        | Kind::Decimal64(_, _)
        | Kind::Decimal128(_, _)
        | Kind::Decimal256(_, _) => Ok(()),
        Kind::Dictionary(_, v) => validate_freq_type(col, v),
        _ => Err(
            Error::UnsupportedFreqType { column: col.to_owned(), data_type: ty.debug.clone() },
        ),
    }
}

/// Find the column to count, and make sure that it can be counted.
pub fn validate_column(schema: &Schema, column: &str) -> (r: Result<usize, Error>)
    ensures
        ({
            let at = position(schema.fields@, column@);
            if at >= schema.fields@.len() {
                r matches Err(Error::UnknownColumn { name, available: listed }) && name@ == column@
                    && listed@ == available(schema.fields@)
            } else if countable(schema.fields@[at as int].data_type) {
                r matches Ok(i) && i == at
            } else {
                r matches Err(Error::UnsupportedFreqType { column: col, data_type }) && col@
                    == column@ && data_type@ == refused_label(
                    schema.fields@[at as int].data_type,
                )
            }
        }),
{
    match find_field(schema.fields.as_slice(), column) {
        None => Err(
            Error::UnknownColumn {
                name: column.to_owned(),
                available: available_names(schema.fields.as_slice()),
            },
        ),
        Some(i) => match validate_freq_type(column, &schema.fields[i].data_type) {
            Ok(()) => Ok(i),
            Err(e) => Err(e),
        },
    }
}

// ---------- counting ----------

/// How often `v` occurs.
pub open spec fn occurrences(seen: Seq<Option<Seq<char>>>, v: Option<Seq<char>>) -> nat
    decreases seen.len(),
{
    if seen.len() == 0 {
        0
    } else {
        occurrences(seen.drop_last(), v) + if seen.last() == v {
            1nat
        } else {
            0nat
        }
    }
}

/// The distinct texts, in the order of their first occurrence.
pub open spec fn firsts(seen: Seq<Option<Seq<char>>>) -> Seq<Seq<char>>
    decreases seen.len(),
{
    if seen.len() == 0 {
        Seq::empty()
    } else {
        let before = firsts(seen.drop_last());
        match seen.last() {
            None => before,
            Some(t) => if before.contains(t) {
                before
            } else {
                before.push(t)
            },
        }
    }
}

/// Why counting stops.
pub enum Stop {
    /// A value has no CSV text; its type has.
    Type(Seq<char>),
    /// One more distinct value would exceed the ceiling.
    Cardinality,
}

/// Counting one more cell after what was seen.
pub open spec fn count_cell(
    seen: Seq<Option<Seq<char>>>,
    c: Cell,
    label: Seq<char>,
    o: RenderOptions,
) -> Result<Seq<Option<Seq<char>>>, Stop> {
    match csv_of(c, o) {
        CsvModel::Empty => Ok(seen.push(None)),
        CsvModel::Text(t) => if !firsts(seen).contains(t) && firsts(seen).len() >= MAX_DISTINCT {
            Err(Stop::Cardinality)
        } else {
            Ok(seen.push(Some(t)))
        },
        CsvModel::Refused => Err(Stop::Type(label)),
    }
}

/// Counting the first `n` cells after what was seen.
pub open spec fn count_cells(
    seen: Seq<Option<Seq<char>>>,
    cells: Seq<Cell>,
    n: nat,
    label: Seq<char>,
    o: RenderOptions,
) -> Result<Seq<Option<Seq<char>>>, Stop>
    decreases n,
{
    if n == 0 {
        Ok(seen)
    } else {
        match count_cells(seen, cells, (n - 1) as nat, label, o) {
            Err(stop) => Err(stop),
            Ok(before) => count_cell(before, cells[n - 1], label, o),
        }
    }
}

proof fn lemma_first_stop(
    seen: Seq<Option<Seq<char>>>,
    cells: Seq<Cell>,
    k: nat,
    n: nat,
    label: Seq<char>,
    o: RenderOptions,
)
    requires
        k <= n,
        count_cells(seen, cells, k, label, o) is Err,
    ensures
        count_cells(seen, cells, n, label, o) == count_cells(seen, cells, k, label, o),
    decreases n - k,
{
    if k < n {
        lemma_first_stop(seen, cells, k, (n - 1) as nat, label, o);
    }
}

proof fn lemma_counted_len(
    seen: Seq<Option<Seq<char>>>,
    cells: Seq<Cell>,
    n: nat,
    label: Seq<char>,
    o: RenderOptions,
)
    ensures
        count_cells(seen, cells, n, label, o) matches Ok(after) ==> after.len() == seen.len() + n,
    decreases n,
{
    if n > 0 {
        lemma_counted_len(seen, cells, (n - 1) as nat, label, o);
    }
}

/// A text occurs exactly where it is among the distinct ones, which hold none twice.
proof fn lemma_firsts(seen: Seq<Option<Seq<char>>>)
    ensures
        firsts(seen).no_duplicates(),
        forall|t: Seq<char>| #[trigger] firsts(seen).contains(t) <==> occurrences(seen, Some(t)) > 0,
        firsts(seen).len() <= seen.len(),
    decreases seen.len(),
{
    if seen.len() > 0 {
        let init = seen.drop_last();
        lemma_firsts(init);
        let before = firsts(init);
        if let Some(last) = seen.last() {
            if !before.contains(last) {
                let after = before.push(last);
                assert(after.no_duplicates());
                assert(after[before.len() as int] == last);
                assert forall|t: Seq<char>| #[trigger] after.contains(t) <==> occurrences(
                    seen,
                    Some(t),
                ) > 0 by {
                    if before.contains(t) {
                        let i = choose|i: int| 0 <= i < before.len() && before[i] == t;
                        assert(after[i] == t);
                    }
                    if after.contains(t) && t != last {
                        let i = choose|i: int| 0 <= i < after.len() && after[i] == t;
                        assert(before[i] == t);
                    }
                }
            }
        }
    }
}

proof fn lemma_occurrences_bounded(seen: Seq<Option<Seq<char>>>, v: Option<Seq<char>>)
    ensures
        occurrences(seen, v) <= seen.len(),
    decreases seen.len(),
{
    if seen.len() > 0 {
        lemma_occurrences_bounded(seen.drop_last(), v);
    }
}

/// One distinct value with its count.
pub struct Tally {
    pub text: String,
    pub count: u64,
}

/// The value counts of one column.
pub struct Counts {
    index: StringHashMap<usize>,
    present: Vec<Tally>,
    null: u64,
    total: u64,
    seen: Ghost<Seq<Option<Seq<char>>>>,
}

impl View for Counts {
    type V = Seq<Option<Seq<char>>>;

    /// The texts counted so far; `None` for null.
    closed spec fn view(&self) -> Seq<Option<Seq<char>>> {
        self.seen@
    }
}

impl Counts {
    /// The counts are those of what was seen.
    pub closed spec fn wf(&self) -> bool {
        let seen = self.seen@;
        &&& self.total == seen.len()
        &&& self.null == occurrences(seen, None)
        &&& self.present@.len() == firsts(seen).len()
        &&& self.present@.len() <= MAX_DISTINCT
        &&& forall|i: int| #![trigger self.present@[i]]
            0 <= i < self.present@.len() ==> self.present@[i].text@ == firsts(seen)[i]
                && self.present@[i].count == occurrences(seen, Some(firsts(seen)[i]))
                && self.index@.contains_key(firsts(seen)[i]) && self.index@[firsts(seen)[i]] == i
        &&& forall|t: Seq<char>| #[trigger]
            self.index@.contains_key(t) ==> firsts(seen).contains(t)
    }

    pub fn new() -> (r: Self)
        ensures
            r.wf(),
            r@ == Seq::<Option<Seq<char>>>::empty(),
    {
        Counts {
            index: StringHashMap::new(),
            present: Vec::new(),
            null: 0,
            total: 0,
            seen: Ghost(Seq::empty()),
        }
    }

    fn count_null(&mut self)
        requires
            old(self).wf(),
            old(self)@.len() < u64::MAX,
        ensures
            final(self).wf(),
            final(self)@ == old(self)@.push(None),
    {
        let ghost before = self.seen@;
        let ghost after = before.push(None);
        proof {
            assert(after.drop_last() =~= before);
            lemma_occurrences_bounded(before, None);
            assert(firsts(after) == firsts(before));
            assert forall|t: Seq<char>| occurrences(after, Some(t)) == occurrences(
                before,
                Some(t),
            ) by {}
        }
        self.total = self.total + 1;
        self.null = self.null + 1;
        self.seen = Ghost(after);
    }

    /// Count a text; false, and nothing counted, where it would exceed the ceiling.
    fn count_text(&mut self, t: String) -> (r: bool)
        requires
            old(self).wf(),
            old(self)@.len() < u64::MAX,
        ensures
            final(self).wf(),
            r == (firsts(old(self)@).contains(t@) || firsts(old(self)@).len() < MAX_DISTINCT),
            r ==> final(self)@ == old(self)@.push(Some(t@)),
            !r ==> final(self)@ == old(self)@,
    {
        let ghost before = self.seen@;
        let ghost after = before.push(Some(t@));
        proof {
            assert(after.drop_last() =~= before);
            lemma_firsts(before);
            lemma_firsts(after);
            lemma_occurrences_bounded(before, Some(t@));
            assert(occurrences(after, None) == occurrences(before, None));
        }
        match self.index.get(t.as_str()) {
            Some(at) => {
                let at: usize = *at;
                proof {
                    assert(firsts(before).contains(t@));
                    let i = choose|i: int| 0 <= i < firsts(before).len() && firsts(before)[i] == t@;
                    assert(self.present@[i].text@ == t@);
                    assert(i == at);
                    assert(self.present@[at as int].count == occurrences(before, Some(t@)));
                }
                let count: u64 = self.present[at].count;
                self.present[at].count = count + 1;
                self.total = self.total + 1;
                self.seen = Ghost(after);
                proof {
                    assert(firsts(after) == firsts(before));
                    assert forall|i: int| #![trigger self.present@[i]]
                        0 <= i < self.present@.len() implies self.present@[i].text@ == firsts(
                        after,
                    )[i] && self.present@[i].count == occurrences(after, Some(firsts(after)[i]))
                        && self.index@.contains_key(firsts(after)[i])
                        && self.index@[firsts(after)[i]] == i by {
                        assert(old(self).present@[i].text@ == firsts(before)[i]);
                        if i != at {
                            assert(firsts(before)[i] != firsts(before)[at as int]);
                        }
                    }
                }
                true
            },
            None => {
                proof {
                    if firsts(before).contains(t@) {
                        let i = choose|i: int|
                            0 <= i < firsts(before).len() && firsts(before)[i] == t@;
                        assert(self.present@[i].text@ == t@);
                        assert(self.index@.contains_key(t@));
                    }
                    assert(!firsts(before).contains(t@));
                }
                if self.present.len() >= MAX_DISTINCT {
                    return false;
                }
                let at: usize = self.present.len();
                self.index.insert(t.clone(), at);
                self.present.push(Tally { text: t, count: 1 });
                self.total = self.total + 1;
                self.seen = Ghost(after);
                proof {
                    assert(firsts(after) == firsts(before).push(t@));
                    assert(occurrences(before, Some(t@)) == 0);
                    assert(firsts(after)[at as int] == t@);
                    assert(firsts(after).contains(t@));
                    assert forall|i: int| #![trigger self.present@[i]]
                        0 <= i < self.present@.len() implies self.present@[i].text@ == firsts(
                        after,
                    )[i] && self.present@[i].count == occurrences(after, Some(firsts(after)[i]))
                        && self.index@.contains_key(firsts(after)[i])
                        && self.index@[firsts(after)[i]] == i by {
                        if i < at {
                            assert(old(self).present@[i].text@ == firsts(before)[i]);
                            assert(firsts(before).contains(firsts(before)[i]));
                        }
                    }
                    assert forall|k: Seq<char>| #[trigger] self.index@.contains_key(k) implies firsts(
                        after,
                    ).contains(k) by {
                        if k != t@ {
                            assert(old(self).index@.contains_key(k));
                            let i = choose|i: int|
                                0 <= i < firsts(before).len() && firsts(before)[i] == k;
                            assert(firsts(after)[i] == k);
                        }
                    }
                }
                true
            },
        }
    }

    /// Count the cells of one batch of the column `column`.
    pub fn update(&mut self, column: &str, values: &Column, render: RenderOptions) -> (r: Result<
        (),
        Error,
    >)
        requires
            old(self).wf(),
            forall|i: int| 0 <= i < values.cells@.len() ==> cell_ok(#[trigger] values.cells@[i]),
            old(self)@.len() + values.cells@.len() <= u64::MAX,
        ensures
            final(self).wf(),
            match count_cells(
                old(self)@,
                values.cells@,
                values.cells@.len(),
                refused_label(values.data_type),
                render,
            ) {
                Ok(after) => r is Ok && final(self)@ == after,
                Err(Stop::Type(label)) => r matches Err(
                    Error::UnsupportedCsvType { column: col, data_type },
                ) && col@.len() == 0 && data_type@ == label,
                Err(Stop::Cardinality) => r matches Err(
                    Error::CardinalityExceeded { column: col, limit },
                ) && col@ == column@ && limit == MAX_DISTINCT,
            },
    {
        let ghost label = refused_label(values.data_type);
        let ghost start = self@;
        let mut row: usize = 0;
        while row < values.cells.len()
            invariant
                self.wf(),
                start == old(self)@,
                label == refused_label(values.data_type),
                start.len() + values.cells@.len() <= u64::MAX,
                row <= values.cells@.len(),
                forall|i: int|
                    0 <= i < values.cells@.len() ==> cell_ok(#[trigger] values.cells@[i]),
                count_cells(start, values.cells@, row as nat, label, render) == Ok::<
                    Seq<Option<Seq<char>>>,
                    Stop,
                >(self@),
            decreases values.cells@.len() - row,
        {
            proof {
                lemma_counted_len(start, values.cells@, row as nat, label, render);
            }
            let ghost before = self@;
            match csv_cell(&values.data_type, &values.cells[row], render) {
                Err(e) => {
                    proof {
                        assert(count_cells(start, values.cells@, (row + 1) as nat, label, render)
                            == Err::<Seq<Option<Seq<char>>>, Stop>(Stop::Type(label)));
                        lemma_first_stop(
                            start,
                            values.cells@,
                            (row + 1) as nat,
                            values.cells@.len(),
                            label,
                            render,
                        );
                    }
                    return Err(e);
                },
                Ok(None) => {
                    self.count_null();
                },
                Ok(Some(t)) => {
                    if !self.count_text(t) {
                        proof {
                            assert(count_cells(
                                start,
                                values.cells@,
                                (row + 1) as nat,
                                label,
                                render,
                            ) == Err::<Seq<Option<Seq<char>>>, Stop>(Stop::Cardinality));
                            lemma_first_stop(
                                start,
                                values.cells@,
                                (row + 1) as nat,
                                values.cells@.len(),
                                label,
                                render,
                            );
                        }
                        return Err(
                            Error::CardinalityExceeded {
                                column: column.to_owned(),
                                limit: MAX_DISTINCT,
                            },
                        );
                    }
                },
            }
            row += 1;
        }
        Ok(())
    }
}

// ---------- ordering ----------

/// One row before rendering: a text, or null, and its count.
pub struct Entry {
    pub value: Option<String>,
    pub count: u64,
}

/// The model of a row: a text, or null, and its count.
pub type EntryModel = (Option<Seq<char>>, u64);

impl View for Entry {
    type V = EntryModel;

    open spec fn view(&self) -> EntryModel {
        (crate::json::opt_view(self.value), self.count)
    }
}

/// Texts ascending, null last.
pub open spec fn value_le(a: Option<Seq<char>>, b: Option<Seq<char>>) -> bool {
    match (a, b) {
        (Some(x), Some(y)) => text_le(x, y),
        (Some(_), None) => true,
        (None, Some(_)) => false,
        (None, None) => true,
    }
}

/// By count descending, ties broken by value; or by value alone.
pub open spec fn entry_le(a: EntryModel, b: EntryModel, sort: FreqSort) -> bool {
    match sort {
        FreqSort::Count => a.1 > b.1 || (a.1 == b.1 && value_le(a.0, b.0)),
        FreqSort::Value => if a.0 == b.0 {
            a.1 >= b.1
        } else {
            value_le(a.0, b.0)
        },
    }
}

/// The order of rows that a `--sort` asks for.
pub struct EntryOrder {
    pub sort: FreqSort,
}

/// The order of rows, as a relation.
pub open spec fn row_order(sort: FreqSort) -> spec_fn(EntryModel, EntryModel) -> bool {
    |a: EntryModel, b: EntryModel| entry_le(a, b, sort)
}

proof fn lemma_value_le_total_order(
    a: Option<Seq<char>>,
    b: Option<Seq<char>>,
    c: Option<Seq<char>>,
)
    ensures
        value_le(a, a),
        value_le(a, b) || value_le(b, a),
        value_le(a, b) && value_le(b, a) ==> a == b,
        value_le(a, b) && value_le(b, c) ==> value_le(a, c),
{
    if let Some(x) = a {
        lemma_text_le_reflexive(x);
        if let Some(y) = b {
            lemma_text_le_total(x, y);
            if text_le(x, y) && text_le(y, x) {
                lemma_text_le_antisymmetric(x, y);
            }
            if let Some(z) = c {
                if text_le(x, y) && text_le(y, z) {
                    lemma_text_le_transitive(x, y, z);
                }
            }
        }
    }
}

impl Order<Entry> for EntryOrder {
    open spec fn relation(&self) -> spec_fn(EntryModel, EntryModel) -> bool {
        row_order(self.sort)
    }

    proof fn lemma_total(&self) {
        let r = self.relation();
        let sort = self.sort;
        assert forall|x: EntryModel| #[trigger] r(x, x) by {
            lemma_value_le_total_order(x.0, x.0, x.0);
        }
        assert forall|x: EntryModel, y: EntryModel| #[trigger] r(x, y) && #[trigger] r(
            y,
            x,
        ) implies x == y by {
            lemma_value_le_total_order(x.0, y.0, x.0);
        }
        assert forall|x: EntryModel, y: EntryModel, z: EntryModel| #[trigger]
            r(x, y) && #[trigger] r(y, z) implies r(x, z) by {
            lemma_value_le_total_order(x.0, y.0, z.0);
            lemma_value_le_total_order(x.0, z.0, x.0);
            lemma_value_le_total_order(y.0, z.0, y.0);
        }
        assert forall|x: EntryModel, y: EntryModel| #[trigger] r(x, y) || #[trigger] r(y, x) by {
            lemma_value_le_total_order(x.0, y.0, x.0);
        }
    }

    fn at_most(&self, a: &Entry, b: &Entry) -> (r: bool) {
        match self.sort {
            FreqSort::Count => a.count > b.count || (a.count == b.count && value_at_most(a, b)),
            FreqSort::Value => {
                proof {
                    lemma_value_le_total_order(a@.0, b@.0, a@.0);
                }
                if value_at_most(a, b) {
                    !value_at_most(b, a) || a.count >= b.count
                } else {
                    false
                }
            },
        }
    }
}

fn value_at_most(a: &Entry, b: &Entry) -> (r: bool)
    ensures
        r == value_le(a@.0, b@.0),
{
    match (&a.value, &b.value) {
        (Some(x), Some(y)) => le(x.as_str(), y.as_str()),
        (Some(_), None) => true,
        (None, Some(_)) => false,
        (None, None) => true,
    }
}

// ---------- the table ----------

/// The rows of what was seen, each distinct value with its count, before sorting.
pub open spec fn entries(seen: Seq<Option<Seq<char>>>) -> Seq<EntryModel> {
    let texts = Seq::new(
        firsts(seen).len(),
        |i: int| (Some(firsts(seen)[i]), occurrences(seen, Some(firsts(seen)[i])) as u64),
    );
    if occurrences(seen, None) > 0 {
        texts.push((None, occurrences(seen, None) as u64))
    } else {
        texts
    }
}

/// The counts added up.
pub open spec fn mass(rows: Seq<EntryModel>) -> nat
    decreases rows.len(),
{
    if rows.len() == 0 {
        0
    } else {
        mass(rows.drop_last()) + rows.last().1 as nat
    }
}

/// How many of `len` rows are shown.
pub open spec fn kept(len: nat, limit: Option<u64>) -> nat {
    match limit {
        Some(n) => if n < len {
            n as nat
        } else {
            len
        },
        None => len,
    }
}

/// A share of all rows in percent, with one decimal place.
pub open spec fn percent_of(count: nat, total: nat) -> Seq<char> {
    if total == 0 {
        "0.0%"@
    } else {
        one_decimal(percent_tenths(count, total)) + "%"@
    }
}

/// What stands in the `value` column.
pub open spec fn value_label(v: Option<Seq<char>>) -> Seq<char> {
    match v {
        Some(t) => t,
        None => "NULL"@,
    }
}

/// True where `row` shows this value and count, of `total` rows.
pub open spec fn is_freq_row(row: Seq<Cell>, label: Seq<char>, count: nat, total: nat) -> bool {
    &&& row.len() == 3
    &&& is_text(row[0], Some(label))
    &&& row[1] matches Cell::UInt(n) && n == count
    &&& is_text(row[2], Some(percent_of(count, total)))
}

/// True of the columns of the `freq` table.
pub open spec fn is_freq_schema(fields: Seq<Field>) -> bool {
    &&& fields.len() == 3
    &&& is_field(fields[0], "value"@, Kind::Utf8, false)
    &&& is_field(fields[1], "count"@, Kind::UInt64, false)
    &&& is_field(fields[2], "percent"@, Kind::Utf8, false)
}

/// Format a percentage of `total` with one decimal place (`45.6%`).
pub fn percent(count: u64, total: u64) -> (r: String)
    ensures
        r@ == percent_of(count as nat, total as nat),
{
    if total == 0 {
        return "0.0%".to_owned();
    }
    let mut s = percent_text(count, total);
    s.append("%");
    s
}

fn freq_schema() -> (r: Schema)
    ensures
        is_freq_schema(r.fields@),
{
    let mut fields: Vec<Field> = Vec::new();
    fields.push(Field::new("value", DataType::utf8(), false));
    fields.push(Field::new("count", DataType::uint64(), false));
    fields.push(Field::new("percent", DataType::utf8(), false));
    Schema::new(fields)
}

fn freq_row(label: String, count: u64, total: u64) -> (row: Vec<Cell>)
    ensures
        is_freq_row(row@, label@, count as nat, total as nat),
        row_ok(row, 3),
{
    let mut row: Vec<Cell> = Vec::new();
    row.push(Cell::Text(label));
    row.push(Cell::UInt(count));
    row.push(Cell::Text(percent(count, total)));
    row
}

// ---------- sums ----------

proof fn lemma_mass_add(a: Seq<EntryModel>, b: Seq<EntryModel>)
    ensures
        mass(a + b) == mass(a) + mass(b),
    decreases b.len(),
{
    if b.len() == 0 {
        assert(a + b =~= a);
    } else {
        assert((a + b).drop_last() =~= a + b.drop_last());
        lemma_mass_add(a, b.drop_last());
    }
}

proof fn lemma_mass_remove(a: Seq<EntryModel>, i: int)
    requires
        0 <= i < a.len(),
    ensures
        mass(a) == mass(a.remove(i)) + a[i].1 as nat,
{
    let front = a.take(i);
    let back = a.skip(i + 1);
    assert(a =~= front.push(a[i]) + back);
    assert(a.remove(i) =~= front + back);
    lemma_mass_add(front.push(a[i]), back);
    lemma_mass_add(front, back);
    assert(front.push(a[i]).drop_last() =~= front);
}

proof fn lemma_mass_permutation(a: Seq<EntryModel>, b: Seq<EntryModel>)
    requires
        a.to_multiset() == b.to_multiset(),
    ensures
        mass(a) == mass(b),
        a.len() == b.len(),
    decreases a.len(),
{
    broadcast use group_to_multiset_ensures;

    assert(a.to_multiset().len() == a.len());
    assert(b.to_multiset().len() == b.len());
    if a.len() > 0 {
        let x = a.last();
        assert(a[a.len() - 1] == x);
        assert(a.to_multiset().count(x) > 0);
        assert(b.contains(x));
        let i = choose|i: int| 0 <= i < b.len() && b[i] == x;
        lemma_mass_remove(b, i);
        let rest = b.remove(i);
        assert(a =~= a.drop_last().push(x));
        assert(a.drop_last().to_multiset() =~= a.to_multiset().remove(x));
        assert(rest.to_multiset() =~= b.to_multiset().remove(x));
        lemma_mass_permutation(a.drop_last(), rest);
    }
}

/// The counts of the entries whose texts are the first `n` distinct ones.
spec fn part(seen: Seq<Option<Seq<char>>>, ts: Seq<Seq<char>>) -> nat
    decreases ts.len(),
{
    if ts.len() == 0 {
        0
    } else {
        part(seen, ts.drop_last()) + occurrences(seen, Some(ts.last()))
    }
}

/// One more occurrence of `t` adds one to the counts of distinct texts that hold it.
proof fn lemma_part_grows(seen: Seq<Option<Seq<char>>>, v: Option<Seq<char>>, ts: Seq<Seq<char>>)
    requires
        ts.no_duplicates(),
    ensures
        part(seen.push(v), ts) == part(seen, ts) + if v is Some && ts.contains(v->Some_0) {
            1nat
        } else {
            0nat
        },
    decreases ts.len(),
{
    assert(seen.push(v).drop_last() =~= seen);
    if ts.len() > 0 {
        let init = ts.drop_last();
        assert(init.no_duplicates());
        lemma_part_grows(seen, v, init);
        if let Some(t) = v {
            if init.contains(t) {
                let i = choose|i: int| 0 <= i < init.len() && init[i] == t;
                assert(ts[i] == t);
                assert(ts[i] != ts[ts.len() - 1]);
            }
            if ts.contains(t) && !init.contains(t) {
                let i = choose|i: int| 0 <= i < ts.len() && ts[i] == t;
                if i < init.len() {
                    assert(init[i] == t);
                }
            }
            if ts.last() == t {
                assert(ts[ts.len() - 1] == t);
            }
        }
    }
}

proof fn lemma_counts_sum(seen: Seq<Option<Seq<char>>>)
    ensures
        part(seen, firsts(seen)) + occurrences(seen, None) == seen.len(),
    decreases seen.len(),
{
    if seen.len() > 0 {
        let init = seen.drop_last();
        lemma_counts_sum(init);
        lemma_firsts(init);
        lemma_firsts(seen);
        assert(init.push(seen.last()) =~= seen);
        let before = firsts(init);
        lemma_part_grows(init, seen.last(), before);
        if let Some(t) = seen.last() {
            if !before.contains(t) {
                assert(firsts(seen).drop_last() =~= before);
            }
        }
    } else {
        assert(part(seen, firsts(seen)) == 0);
    }
}

proof fn lemma_part_is_mass(seen: Seq<Option<Seq<char>>>, ts: Seq<Seq<char>>)
    requires
        seen.len() <= u64::MAX,
    ensures
        mass(Seq::new(ts.len(), |i: int| (Some(ts[i]), occurrences(seen, Some(ts[i])) as u64)))
            == part(seen, ts),
    decreases ts.len(),
{
    let rows = Seq::new(
        ts.len(),
        |i: int| (Some(ts[i]), occurrences(seen, Some(ts[i])) as u64),
    );
    if ts.len() > 0 {
        let init = ts.drop_last();
        lemma_part_is_mass(seen, init);
        assert(rows.drop_last() =~= Seq::new(
            init.len(),
            |i: int| (Some(init[i]), occurrences(seen, Some(init[i])) as u64),
        ));
        lemma_occurrences_bounded(seen, Some(ts.last()));
    }
}

/// The counts of all rows, null included, add up to the number of rows counted.
pub proof fn law_counts_sum_to_total(seen: Seq<Option<Seq<char>>>)
    requires
        seen.len() <= u64::MAX,
    ensures
        mass(entries(seen)) == seen.len(),
{
    lemma_counts_sum(seen);
    lemma_part_is_mass(seen, firsts(seen));
    lemma_occurrences_bounded(seen, None);
    let texts = Seq::new(
        firsts(seen).len(),
        |i: int| (Some(firsts(seen)[i]), occurrences(seen, Some(firsts(seen)[i])) as u64),
    );
    if occurrences(seen, None) > 0 {
        assert(entries(seen).drop_last() =~= texts);
    }
}

/// The rows in their order.
pub open spec fn ordered(seen: Seq<Option<Seq<char>>>, sort: FreqSort) -> Seq<EntryModel> {
    entries(seen).sort_by(row_order(sort))
}

/// Sorting changes no counts, and cutting the list loses none: what is shown and
/// what is folded into the last row add up to the number of rows counted.
pub proof fn law_folding_keeps_the_mass(
    seen: Seq<Option<Seq<char>>>,
    sort: FreqSort,
    limit: Option<u64>,
)
    requires
        seen.len() <= u64::MAX,
    ensures
        ordered(seen, sort).len() == entries(seen).len(),
        mass(ordered(seen, sort).take(kept(entries(seen).len(), limit) as int)) + mass(
            ordered(seen, sort).skip(kept(entries(seen).len(), limit) as int),
        ) == seen.len(),
{
    law_counts_sum_to_total(seen);
    let order = EntryOrder { sort };
    order.lemma_total();
    entries(seen).lemma_sort_by_ensures(row_order(sort));
    lemma_mass_permutation(entries(seen), ordered(seen, sort));
    let all = ordered(seen, sort);
    let n = kept(entries(seen).len(), limit) as int;
    assert(all =~= all.take(n) + all.skip(n));
    lemma_mass_add(all.take(n), all.skip(n));
}

/// The order of the rows does not depend on the order in which values were met: two
/// tallies with the same entries are shown alike.
pub proof fn law_order_is_deterministic(
    a: Seq<Option<Seq<char>>>,
    b: Seq<Option<Seq<char>>>,
    sort: FreqSort,
)
    requires
        entries(a).to_multiset() == entries(b).to_multiset(),
    ensures
        ordered(a, sort) == ordered(b, sort),
{
    let order = EntryOrder { sort };
    order.lemma_total();
    entries(a).lemma_sort_by_ensures(row_order(sort));
    entries(b).lemma_sort_by_ensures(row_order(sort));
    vstd::seq_lib::lemma_sorted_unique(ordered(a, sort), ordered(b, sort), row_order(sort));
}

/// Turn the counts into the table, sorted as asked and cut to `limit` rows, with
/// the rest folded into a last `<other>` row.
pub fn build_batch(counts: Counts, order: FreqSort, limit: Option<u64>) -> (r: Listing)
    requires
        counts.wf(),
    ensures
        is_freq_schema(r.schema.fields@),
        typed_as(r.batch, r.schema.fields@),
        r.batch.wf(),
        ({
            let all = ordered(counts@, order);
            let n = kept(all.len(), limit);
            let other = mass(all.skip(n as int));
            let total = counts@.len();
            &&& r.batch.rows == n + if other > 0 {
                1int
            } else {
                0
            }
            &&& forall|i: int|
                0 <= i < n ==> is_freq_row(
                    #[trigger] batch_row(r.batch, i),
                    value_label(all[i].0),
                    all[i].1 as nat,
                    total,
                )
            &&& other > 0 ==> is_freq_row(batch_row(r.batch, n as int), "<other>"@, other, total)
        }),
{
    let ghost seen = counts.seen@;
    let total: u64 = counts.total;
    let null: u64 = counts.null;
    let mut list: Vec<Entry> = Vec::new();
    let mut present = counts.present;
    let ghost given = present@;
    let ghost texts_part = Seq::new(
        firsts(seen).len(),
        |i: int| (Some(firsts(seen)[i]), occurrences(seen, Some(firsts(seen)[i])) as u64),
    );
    let mut i: usize = 0;
    while i < present.len()
        invariant
            i <= present@.len(),
            present@ == given,
            given.len() == firsts(seen).len(),
            texts_part.len() == given.len(),
            forall|j: int| #![trigger given[j]]
                0 <= j < given.len() ==> (Some(given[j].text@), given[j].count) == texts_part[j],
            views_of(list@) == texts_part.take(i as int),
        decreases present@.len() - i,
    {
        let ghost before = list@;
        let entry = Entry { value: Some(present[i].text.clone()), count: present[i].count };
        list.push(entry);
        proof {
            assert(given[i as int].text@ == entry@.0->Some_0);
            assert(entry@ == texts_part[i as int]);
            assert(views_of(list@) =~= views_of(before).push(entry@));
            assert(texts_part.take(i + 1) =~= texts_part.take(i as int).push(texts_part[i as int]));
        }
        i += 1;
    }
    proof {
        assert(texts_part.take(texts_part.len() as int) =~= texts_part);
    }
    if null > 0 {
        let ghost before = list@;
        list.push(Entry { value: None, count: null });
        proof {
            assert(views_of(list@) =~= views_of(before).push((None, null)));
        }
    }
    proof {
        assert(views_of(list@) =~= entries(seen));
    }
    let list = sort(list, &EntryOrder { sort: order });
    let ghost all = ordered(seen, order);
    proof {
        assert(views_of(list@) == all);
        assert(list@.len() == all.len());
        law_folding_keeps_the_mass(seen, order, limit);
    }
    let shown: usize = match limit {
        Some(n) => if n < list.len() as u64 {
            n as usize
        } else {
            list.len()
        },
        None => list.len(),
    };
    let mut other: u64 = 0;
    let mut i: usize = shown;
    proof {
        assert(all.subrange(shown as int, shown as int) =~= Seq::<EntryModel>::empty());
    }
    while i < list.len()
        invariant
            shown <= i <= list@.len(),
            views_of(list@) == all,
            list@.len() == all.len(),
            mass(all.skip(shown as int)) <= u64::MAX,
            other == mass(all.subrange(shown as int, i as int)),
        decreases list@.len() - i,
    {
        proof {
            let so_far = all.subrange(shown as int, i as int);
            let next = all.subrange(shown as int, i + 1);
            assert(next.drop_last() =~= so_far);
            assert(all[i as int] == list@[i as int]@);
            assert(all.skip(shown as int) =~= next + all.skip(i + 1));
            lemma_mass_add(next, all.skip(i + 1));
        }
        other = other + list[i].count;
        i += 1;
    }
    proof {
        assert(all.subrange(shown as int, all.len() as int) =~= all.skip(shown as int));
    }
    let mut rows: Vec<Vec<Cell>> = Vec::new();
    let mut i: usize = 0;
    while i < shown
        invariant
            i <= shown <= list@.len(),
            total == seen.len(),
            views_of(list@) == all,
            list@.len() == all.len(),
            rows@.len() == i,
            rows_ok(rows@, 3),
            forall|j: int|
                0 <= j < i ==> is_freq_row(
                    (#[trigger] rows@[j])@,
                    value_label(all[j].0),
                    all[j].1 as nat,
                    seen.len(),
                ),
        decreases shown - i,
    {
        let label = match &list[i].value {
            Some(t) => t.clone(),
            None => "NULL".to_owned(),
        };
        proof {
            assert(all[i as int] == list@[i as int]@);
        }
        rows.push(freq_row(label, list[i].count, total));
        i += 1;
    }
    if other > 0 {
        rows.push(freq_row("<other>".to_owned(), other, total));
    }
    let schema = freq_schema();
    let batch = batch_of_rows(&schema.fields, rows);
    Listing { schema, batch }
}

} // verus!
