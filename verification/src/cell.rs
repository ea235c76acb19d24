//! Values of a dataset, held as plain values: one cell, one column, one batch of
//! rows.
use vstd::prelude::*;

use crate::schema::{DataType, Field, TimeUnit};

verus! {

/// A floating-point value: the bits of its double-precision form, and the texts
/// that the number formatter gives for it where it is finite.
#[derive(Debug)]
pub struct Float {
    /// IEEE 754 binary64 bits; narrower values are widened exactly.
    pub bits: u64,
    /// Shortest decimal text that reads back as the same value of its own width.
    pub shortest: String,
    /// Shortest decimal text of the double-precision form.
    pub wide: String,
    /// Text of the value as a JSON number.
    pub json: String,
    /// Text with the requested number of fractional digits, where one is requested.
    pub fixed: String,
}

impl Float {
    /// The bits without the sign.
    pub open spec fn magnitude(self) -> u64 {
        (self.bits % 0x8000_0000_0000_0000) as u64
    }

    /// True of every not-a-number pattern.
    pub open spec fn is_nan(self) -> bool {
        self.magnitude() > 0x7ff0_0000_0000_0000
    }

    pub open spec fn is_infinite(self) -> bool {
        self.magnitude() == 0x7ff0_0000_0000_0000
    }

    pub open spec fn is_negative(self) -> bool {
        self.bits >= 0x8000_0000_0000_0000
    }

    pub fn nan(&self) -> (r: bool)
        ensures
            r == self.is_nan(),
    {
        self.bits % 0x8000_0000_0000_0000 > 0x7ff0_0000_0000_0000
    }

    pub fn infinite(&self) -> (r: bool)
        ensures
            r == self.is_infinite(),
    {
        self.bits % 0x8000_0000_0000_0000 == 0x7ff0_0000_0000_0000
    }

    pub fn negative(&self) -> (r: bool)
        ensures
            r == self.is_negative(),
    {
        self.bits >= 0x8000_0000_0000_0000
    }
}

impl View for Float {
    type V = Float;

    open spec fn view(&self) -> Float {
        *self
    }
}

impl Clone for Float {
    fn clone(&self) -> (r: Self)
        ensures
            r == *self,
    {
        Float {
            bits: self.bits,
            shortest: self.shortest.clone(),
            wide: self.wide.clone(),
            json: self.json.clone(),
            fixed: self.fixed.clone(),
        }
    }
}

/// One value of a column.
#[derive(Debug)]
pub enum Cell {
    /// A null slot.
    Null,
    /// A slot of a column of the null type.
    Nothing,
    Boolean(bool),
    Int(i64),
    UInt(u64),
    Float(Float),
    /// `Utf8` and `LargeUtf8`.
    Text(String),
    /// `Utf8View`.
    TextView(String),
    /// All four binary types.
    Binary(Vec<u8>),
    Date32(i32),
    Date64(i64),
    Time32(i32, TimeUnit),
    Time64(i64, TimeUnit),
    Timestamp(i64, TimeUnit, Option<String>),
    Duration(i64, TimeUnit),
    YearMonth(i32),
    /// Days and milliseconds.
    DayTime(i32, i32),
    /// Months, days and nanoseconds.
    MonthDayNano(i32, i32, i64),
    /// Unscaled value and scale, up to 128 bits.
    Decimal(i128, i8),
    /// Unscaled value in decimal digits, and scale, for 256 bits.
    BigDecimal(String, i8),
    /// `List`, `LargeList` and `FixedSizeList`.
    List(Vec<Cell>),
    Struct(Vec<(String, Cell)>),
    Mapping(Vec<(Cell, Cell)>),
    /// A dictionary-encoded value, decoded.
    Dictionary(Box<Cell>),
    /// A value of a type that no text format represents, with the type's text.
    Unsupported(String),
}

/// True of the times of day that can exist: 32-bit ones count seconds or
/// milliseconds, 64-bit ones microseconds or nanoseconds.
pub open spec fn cell_ok(c: Cell) -> bool
    decreases c,
{
    match c {
        Cell::Time32(_, u) => u == TimeUnit::Second || u == TimeUnit::Millisecond,
        Cell::Time64(_, u) => u == TimeUnit::Microsecond || u == TimeUnit::Nanosecond,
        Cell::List(v) => forall|i: int| 0 <= i < v@.len() ==> cell_ok(#[trigger] v@[i]),
        Cell::Struct(v) => forall|i: int| 0 <= i < v@.len() ==> cell_ok((#[trigger] v@[i]).1),
        Cell::Mapping(v) => forall|i: int|
            0 <= i < v@.len() ==> cell_ok((#[trigger] v@[i]).0) && cell_ok(v@[i].1),
        Cell::Dictionary(d) => cell_ok(*d),
        _ => true,
    }
}

/// One column of a batch.
#[derive(Debug)]
pub struct Column {
    pub data_type: DataType,
    pub cells: Vec<Cell>,
}

/// Rows, column by column.
#[derive(Debug)]
pub struct Batch {
    pub columns: Vec<Column>,
    pub rows: usize,
}

impl Batch {
    /// Every column has as many cells as there are rows, all of them possible.
    pub open spec fn wf(&self) -> bool {
        forall|c: int|
            0 <= c < self.columns@.len() ==> column_ok(#[trigger] self.columns@[c], self.rows as nat)
    }
}

/// True when a column has `rows` possible cells.
pub open spec fn column_ok(c: Column, rows: nat) -> bool {
    c.cells@.len() == rows && forall|r: int| 0 <= r < rows ==> cell_ok(#[trigger] c.cells@[r])
}

// ---------- building batches row by row ----------

/// True where every row has `width` possible cells.
pub open spec fn rows_ok(rows: Seq<Vec<Cell>>, width: nat) -> bool {
    forall|r: int| 0 <= r < rows.len() ==> row_ok(#[trigger] rows[r], width)
}

/// True where a row has `width` possible cells.
pub open spec fn row_ok(row: Vec<Cell>, width: nat) -> bool {
    row@.len() == width && forall|c: int| 0 <= c < width ==> cell_ok(#[trigger] row@[c])
}

/// The cells of row `r`.
pub open spec fn batch_row(b: Batch, r: int) -> Seq<Cell> {
    Seq::new(b.columns@.len(), |c: int| b.columns@[c].cells@[r])
}

/// True where the columns have the types of the fields.
pub open spec fn typed_as(b: Batch, fields: Seq<Field>) -> bool {
    b.columns@.len() == fields.len() && forall|c: int|
        0 <= c < fields.len() ==> (#[trigger] b.columns@[c]).data_type == fields[c].data_type
}

/// A batch of the given rows.
pub fn batch_of_rows(fields: &Vec<Field>, rows: Vec<Vec<Cell>>) -> (batch: Batch)
    requires
        rows_ok(rows@, fields@.len()),
    ensures
        batch.wf(),
        batch.rows == rows@.len(),
        typed_as(batch, fields@),
        forall|r: int|
            0 <= r < rows@.len() ==> #[trigger] batch_row(batch, r) == rows@[r]@,
{
    let count: usize = rows.len();
    let ghost given = rows@;
    let mut columns: Vec<Column> = Vec::new();
    let mut c: usize = 0;
    while c < fields.len()
        invariant
            c <= fields@.len(),
            columns@.len() == c,
            forall|i: int|
                0 <= i < c ==> (#[trigger] columns@[i]).data_type == fields@[i].data_type
                    && columns@[i].cells@.len() == 0,
        decreases fields@.len() - c,
    {
        columns.push(Column { data_type: fields[c].data_type.clone(), cells: Vec::new() });
        c += 1;
    }
    let mut rows = rows;
    let mut r: usize = 0;
    while r < count
        invariant
            count == given.len(),
            rows@.len() == count,
            r <= count,
            rows_ok(given, fields@.len()),
            forall|k: int| r <= k < count ==> rows@[k] == #[trigger] given[k],
            columns@.len() == fields@.len(),
            forall|i: int| #![trigger columns@[i]]
                0 <= i < fields@.len() ==> columns@[i].data_type == fields@[i].data_type
                    && columns@[i].cells@.len() == r && forall|k: int|
                    #![trigger columns@[i].cells@[k]]
                    0 <= k < r ==> columns@[i].cells@[k] == given[k]@[i],
        decreases count - r,
    {
        let mut row: Vec<Cell> = Vec::new();
        std::mem::swap(&mut row, &mut rows[r]);
        let ghost full = given[r as int]@;
        proof {
            assert(row_ok(given[r as int], fields@.len()));
        }
        let mut n: usize = row.len();
        while n > 0
            invariant
                r < count,
                count == given.len(),
                n <= fields@.len(),
                full.len() == fields@.len(),
                full == given[r as int]@,
                row@ == full.take(n as int),
                columns@.len() == fields@.len(),
                forall|i: int| #![trigger columns@[i]]
                    0 <= i < fields@.len() ==> columns@[i].data_type == fields@[i].data_type
                        && columns@[i].cells@.len() == (if i < n {
                        r as int
                    } else {
                        r + 1
                    }) && forall|k: int| #![trigger columns@[i].cells@[k]]
                        0 <= k < columns@[i].cells@.len() ==> columns@[i].cells@[k]
                            == given[k]@[i],
            decreases n,
        {
            n -= 1;
            if let Some(cell) = row.pop() {
                proof {
                    assert(cell == full[n as int]);
                    assert(row@ =~= full.take(n as int));
                }
                columns[n].cells.push(cell);
            }
        }
        r += 1;
    }
    let batch = Batch { columns, rows: count };
    proof {
        assert forall|k: int| 0 <= k < given.len() implies #[trigger] batch_row(batch, k)
            == given[k]@ by {
            assert(row_ok(given[k], fields@.len()));
            assert(batch_row(batch, k) =~= given[k]@);
        }
        assert forall|i: int| 0 <= i < batch.columns@.len() implies column_ok(
            #[trigger] batch.columns@[i],
            batch.rows as nat,
        ) by {
            assert forall|k: int| 0 <= k < batch.rows implies cell_ok(
                #[trigger] batch.columns@[i].cells@[k],
            ) by {
                assert(row_ok(given[k], fields@.len()));
                assert(batch.columns@[i].cells@[k] == given[k]@[i]);
            }
        }
    }
    batch
}

} // verus!
