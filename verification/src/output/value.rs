//! Text of single values, for CSV, tables and JSON.
//!
//! CSV rules:
//! - Null: empty cell.
//! - Nested types, durations and intervals: an error.
//! - Timestamps, dates, times: ISO-8601 strings.
//! - Floats: `NaN`, `inf`, `-inf`.
//! - Decimals: standard decimal-point string.
//!
//! JSON rules:
//! - Null: `null`.
//! - Binary: a string, encoded as requested.
//! - Timestamps: ISO-8601 (with a zone suffix if zoned).
//! - Floats: `"NaN"`, `"Infinity"`, `"-Infinity"` as *strings*, numbers otherwise.
//! - Decimals: the raw unscaled integer.
//! - Lists, structs, maps: arrays and objects.
//! - Dictionaries: decoded to their value type.
use vstd::prelude::*;
use vstd::slice::slice_subrange;

use crate::cell::{cell_ok, Cell, Float};
use crate::cli::BinaryFormat;
use crate::error::Error;
use crate::json::{
    array, array_text, is_integer, is_plain_number, json_number_from_str, key_text,
    lemma_dec_is_integer, number_or_text, object,
    put, value_text, JsonModel, JsonValue, Members,
};
use crate::output::temporal::{
    date32_text, date64_text, day_time_text, duration_text, format_date32, format_date64,
    format_duration, format_interval_day_time, format_interval_month_day_nano,
    format_interval_year_month, format_time32, format_time64, format_timestamp, month_day_nano_text,
    time_text, timestamp_text, year_month_text,
};
use crate::output::RenderOptions;
use crate::schema::{DataType, Field, Kind, Schema};
use crate::text::{
    chars_of, dec, dec_i128, dec_i64, dec_int, dec_u64, dec_usize, push_zeros, text_of, texts,
    zeros,
};

verus! {

// ---------- schema validation ----------

/// True of the types that CSV represents.
pub open spec fn csv_type(t: DataType) -> bool
    decreases t,
{
    match t.kind {
        Kind::Dictionary(_, v) => csv_type(*v),
        Kind::Utf8View => false,
        Kind::List(_) | Kind::LargeList(_) | Kind::FixedSizeList(_, _) => false,
        Kind::ListView(_) | Kind::LargeListView(_) | Kind::Struct(_) => false,
        Kind::Mapping(_, _) | Kind::Union(_, _) | Kind::RunEndEncoded(_, _) => false,
        Kind::Duration(_) | Kind::Interval(_) => false,
        _ => true,
    }
}

/// The text of the type that a column is refused for: its own, or that of its
/// dictionary values.
pub open spec fn refused_label(t: DataType) -> Seq<char>
    decreases t,
{
    match t.kind {
        Kind::Dictionary(_, v) => refused_label(*v),
        _ => t.debug@,
    }
}

fn validate_csv_type(col: &str, ty: &DataType) -> (r: Result<(), Error>)
    ensures
        csv_type(*ty) ==> r is Ok,
        !csv_type(*ty) ==> (r matches Err(Error::UnsupportedCsvType { column, data_type })
            && column@ == col@ && data_type@ == refused_label(*ty)),
    decreases *ty,
{
    match &ty.kind {
        Kind::Dictionary(_, v) => validate_csv_type(col, v),
        Kind::Utf8View
        | Kind::List(_)
        | Kind::LargeList(_)
        | Kind::FixedSizeList(_, _)
        | Kind::ListView(_)
        | Kind::LargeListView(_)
        | Kind::Struct(_)
        | Kind::Mapping(_, _)
        | Kind::Union(_, _)
        | Kind::RunEndEncoded(_, _)
        | Kind::Duration(_)
        | Kind::Interval(_) => Err(
            Error::UnsupportedCsvType { column: col.to_owned(), data_type: ty.debug.clone() },
        ),
        _ => Ok(()),
    }
}

/// Position of the first column that CSV cannot represent, or their number.
pub open spec fn first_refused(fields: Seq<Field>) -> nat
    decreases fields.len(),
{
    if fields.len() == 0 || !csv_type(fields[0].data_type) {
        0
    } else {
        1 + first_refused(fields.drop_first())
    }
}

proof fn lemma_first_refused(fields: Seq<Field>, n: int)
    requires
        0 <= n <= fields.len(),
        n < fields.len() ==> !csv_type(fields[n].data_type),
        forall|i: int| 0 <= i < n ==> csv_type((#[trigger] fields[i]).data_type),
    ensures
        first_refused(fields) == n,
    decreases n,
{
    if n > 0 {
        assert(csv_type(fields[0].data_type));
        lemma_first_refused(fields.drop_first(), n - 1);
    }
}

/// Reject types that cannot be represented losslessly in CSV. All four binary
/// flavors are accepted: the value is rendered as hex, base64 or a placeholder.
pub fn validate_csv_schema(schema: &Schema) -> (r: Result<(), Error>)
    ensures
        ({
            let n = first_refused(schema.fields@);
            if n >= schema.fields@.len() {
                r is Ok
            } else {
                r matches Err(Error::UnsupportedCsvType { column, data_type }) && column@
                    == schema.fields@[n as int].name@ && data_type@ == refused_label(
                    schema.fields@[n as int].data_type,
                )
            }
        }),
{
    let mut i: usize = 0;
    while i < schema.fields.len()
        invariant
            i <= schema.fields@.len(),
            forall|j: int| 0 <= j < i ==> csv_type((#[trigger] schema.fields@[j]).data_type),
        decreases schema.fields@.len() - i,
    {
        let field = &schema.fields[i];
        match validate_csv_type(field.name.as_str(), &field.data_type) {
            Ok(()) => {},
            Err(e) => {
                proof {
                    lemma_first_refused(schema.fields@, i as int);
                }
                return Err(e);
            },
        }
        i += 1;
    }
    proof {
        lemma_first_refused(schema.fields@, i as int);
    }
    Ok(())
}

// ---------- binary ----------

/// Literal placeholder shown for binary values that are not to be rendered.
pub const BINARY_PLACEHOLDER: &'static str = "BINARY_DATA";

/// `\xHH` for each byte.
pub open spec fn hex_text(bytes: Seq<u8>) -> Seq<char>
    decreases bytes.len(),
{
    if bytes.len() == 0 {
        Seq::empty()
    } else {
        hex_text(bytes.drop_last()) + seq![
            '\\',
            'x',
            crate::json::hex(bytes.last() as int / 16),
            crate::json::hex(bytes.last() as int % 16),
        ]
    }
}

fn hex_digit(n: u8) -> (c: char)
    requires
        n < 16,
    ensures
        c == crate::json::hex(n as int),
{
    if n < 10 {
        (48u8 + n) as char
    } else {
        (87u8 + n) as char
    }
}

pub fn hex_escape(bytes: &[u8]) -> (r: String)
    ensures
        r@ == hex_text(bytes@),
{
    let mut s = String::new();
    let mut i: usize = 0;
    while i < bytes.len()
        invariant
            i <= bytes@.len(),
            s@ == hex_text(bytes@.take(i as int)),
        decreases bytes@.len() - i,
    {
        let b: u8 = bytes[i];
        let ghost before = s@;
        s.push('\\');
        s.push('x');
        s.push(hex_digit(b / 16));
        s.push(hex_digit(b % 16));
        proof {
            assert(bytes@.take(i + 1).drop_last() =~= bytes@.take(i as int));
            assert(bytes@.take(i + 1).last() == b);
            assert(s@ =~= before + seq![
                '\\',
                'x',
                crate::json::hex(b as int / 16),
                crate::json::hex(b as int % 16),
            ]);
        }
        i += 1;
    }
    proof {
        assert(bytes@.take(bytes@.len() as int) =~= bytes@);
    }
    s
}

/// The character for six bits in the standard base64 alphabet.
pub open spec fn base64_char(n: int) -> char {
    if n < 26 {
        (65 + n) as char
    } else if n < 52 {
        (97 + n - 26) as char
    } else if n < 62 {
        (48 + n - 52) as char
    } else if n == 62 {
        '+'
    } else {
        '/'
    }
}

/// Base64 with the standard alphabet: four characters for every three bytes, the
/// last group padded with `=`.
pub open spec fn base64_text(b: Seq<u8>) -> Seq<char>
    decreases b.len(),
{
    if b.len() == 0 {
        Seq::empty()
    } else if b.len() == 1 {
        seq![base64_char(b[0] as int / 4), base64_char(b[0] as int % 4 * 16), '=', '=']
    } else if b.len() == 2 {
        seq![
            base64_char(b[0] as int / 4),
            base64_char(b[0] as int % 4 * 16 + b[1] as int / 16),
            base64_char(b[1] as int % 16 * 4),
            '=',
        ]
    } else {
        seq![
            base64_char(b[0] as int / 4),
            base64_char(b[0] as int % 4 * 16 + b[1] as int / 16),
            base64_char(b[1] as int % 16 * 4 + b[2] as int / 64),
            base64_char(b[2] as int % 64),
        ] + base64_text(b.skip(3))
    }
}

/// `Engine::encode` of base64's `STANDARD` engine: the standard alphabet, with
/// padding.
#[verifier::external_body]
fn base64_encode(bytes: &[u8]) -> (r: String)
    ensures
        r@ == base64_text(bytes@),
{
    base64::Engine::encode(&base64::engine::general_purpose::STANDARD, bytes)
}

/// Text of a binary value.
pub open spec fn binary_text(bytes: Seq<u8>, f: BinaryFormat) -> Seq<char> {
    match f {
        BinaryFormat::Placeholder => BINARY_PLACEHOLDER@,
        BinaryFormat::Hex => hex_text(bytes),
        BinaryFormat::Base64 => base64_text(bytes),
    }
}

pub fn encode_binary(bytes: &[u8], binary_format: BinaryFormat) -> (r: String)
    ensures
        r@ == binary_text(bytes@, binary_format),
{
    match binary_format {
        BinaryFormat::Placeholder => BINARY_PLACEHOLDER.to_owned(),
        BinaryFormat::Hex => hex_escape(bytes),
        BinaryFormat::Base64 => base64_encode(bytes),
    }
}

// ---------- numbers ----------

/// Text of a finite float.
pub open spec fn finite_text(f: Float, o: RenderOptions) -> Seq<char> {
    if o.float_precision is Some {
        f.fixed@
    } else {
        f.shortest@
    }
}

/// Text of a float in CSV and tables.
pub open spec fn float_text(f: Float, o: RenderOptions) -> Seq<char> {
    if f.is_nan() {
        "NaN"@
    } else if f.is_infinite() {
        if f.is_negative() {
            "-inf"@
        } else {
            "inf"@
        }
    } else {
        finite_text(f, o)
    }
}

/// A float in JSON.
pub open spec fn float_value(f: Float, o: RenderOptions) -> JsonModel {
    if f.is_nan() {
        JsonModel::Text("NaN"@)
    } else if f.is_infinite() {
        if f.is_negative() {
            JsonModel::Text("-Infinity"@)
        } else {
            JsonModel::Text("Infinity"@)
        }
    } else if o.float_precision is Some {
        number_or_text(f.fixed@)
    } else {
        JsonModel::Raw(f.json@)
    }
}

pub fn format_float_csv(v: &Float, render: RenderOptions) -> (r: String)
    ensures
        r@ == float_text(*v, render),
{
    if v.nan() {
        "NaN".to_owned()
    } else if v.infinite() {
        if v.negative() {
            "-inf".to_owned()
        } else {
            "inf".to_owned()
        }
    } else if render.float_precision.is_some() {
        v.fixed.clone()
    } else {
        v.shortest.clone()
    }
}

pub fn float_json(v: &Float, render: RenderOptions) -> (r: JsonValue)
    ensures
        r@ == float_value(*v, render),
{
    if v.nan() {
        JsonValue::Text("NaN".to_owned())
    } else if v.infinite() {
        if v.negative() {
            JsonValue::Text("-Infinity".to_owned())
        } else {
            JsonValue::Text("Infinity".to_owned())
        }
    } else if render.float_precision.is_some() {
        json_number_from_str(v.fixed.as_str())
    } else {
        JsonValue::Raw(v.json.clone())
    }
}

/// The digits of an unscaled decimal with the point put in: `scale` digits behind
/// it, or as many zeros appended where the scale is negative.
pub open spec fn scaled_text(raw: Seq<char>, scale: int) -> Seq<char> {
    if scale <= 0 {
        raw + zeros((-scale) as nat)
    } else {
        let negative = raw.len() > 0 && raw[0] == '-';
        let digits = if negative {
            raw.drop_first()
        } else {
            raw
        };
        let sign = if negative {
            "-"@
        } else {
            Seq::empty()
        };
        if digits.len() <= scale {
            sign + "0."@ + zeros((scale - digits.len()) as nat) + digits
        } else {
            sign + digits.take(digits.len() - scale) + "."@ + digits.skip(digits.len() - scale)
        }
    }
}

pub fn insert_decimal_point(raw: &str, scale: i8) -> (r: String)
    ensures
        r@ == scaled_text(raw@, scale as int),
{
    if scale <= 0 {
        let mut s = raw.to_owned();
        push_zeros(&mut s, (-(scale as i64)) as usize);
        return s;
    }
    let n: usize = scale as usize;
    let chars = chars_of(raw);
    let negative: bool = chars.len() > 0 && chars[0] == '-';
    let from: usize = if negative {
        1
    } else {
        0
    };
    let digits = slice_subrange(chars.as_slice(), from, chars.len());
    let mut s = if negative {
        "-".to_owned()
    } else {
        String::new()
    };
    proof {
        if negative {
            assert(digits@ =~= raw@.drop_first());
        } else {
            assert(digits@ =~= raw@);
        }
    }
    if digits.len() <= n {
        s.append("0.");
        push_zeros(&mut s, n - digits.len());
        s.append(text_of(digits).as_str());
    } else {
        let split: usize = digits.len() - n;
        let a = slice_subrange(digits, 0, split);
        let b = slice_subrange(digits, split, digits.len());
        proof {
            assert(a@ =~= digits@.take(split as int));
            assert(b@ =~= digits@.skip(split as int));
        }
        s.append(text_of(a).as_str());
        s.append(".");
        s.append(text_of(b).as_str());
    }
    s
}

pub fn format_decimal128_csv(v: i128, scale: i8) -> (r: String)
    ensures
        r@ == scaled_text(dec_int(v as int), scale as int),
{
    insert_decimal_point(dec_i128(v).as_str(), scale)
}

pub fn format_decimal256_csv(raw: &str, scale: i8) -> (r: String)
    ensures
        r@ == scaled_text(raw@, scale as int),
{
    insert_decimal_point(raw, scale)
}

/// Text of a boolean.
pub open spec fn bool_text(b: bool) -> Seq<char> {
    if b {
        "true"@
    } else {
        "false"@
    }
}

pub fn bool_string(b: bool) -> (r: String)
    ensures
        r@ == bool_text(b),
{
    if b {
        "true".to_owned()
    } else {
        "false".to_owned()
    }
}

// ---------- CSV and table cells ----------

/// A value in CSV: nothing for null, its text, or no representation.
pub enum CsvModel {
    Empty,
    Text(Seq<char>),
    Refused,
}

/// What stands for a value in CSV.
pub open spec fn csv_of(c: Cell, o: RenderOptions) -> CsvModel
    decreases c,
{
    match c {
        Cell::Null => CsvModel::Empty,
        Cell::Nothing => CsvModel::Text(Seq::empty()),
        Cell::Boolean(b) => CsvModel::Text(bool_text(b)),
        Cell::Int(i) => CsvModel::Text(dec_int(i as int)),
        Cell::UInt(u) => CsvModel::Text(dec(u as nat)),
        Cell::Float(f) => CsvModel::Text(float_text(f, o)),
        Cell::Text(s) => CsvModel::Text(s@),
        Cell::Binary(b) => CsvModel::Text(binary_text(b@, o.binary_format)),
        Cell::Date32(d) => CsvModel::Text(date32_text(d)),
        Cell::Date64(ms) => CsvModel::Text(date64_text(ms)),
        Cell::Time32(v, u) => CsvModel::Text(time_text(v as int, u)),
        Cell::Time64(v, u) => CsvModel::Text(time_text(v as int, u)),
        Cell::Timestamp(v, u, tz) => CsvModel::Text(
            timestamp_text(v, u, crate::json::opt_view(tz)),
        ),
        Cell::Decimal(v, s) => CsvModel::Text(scaled_text(dec_int(v as int), s as int)),
        Cell::BigDecimal(raw, s) => CsvModel::Text(scaled_text(raw@, s as int)),
        Cell::Dictionary(d) => csv_of(*d, o),
        _ => CsvModel::Refused,
    }
}

fn csv_text(cell: &Cell, render: RenderOptions) -> (r: Option<Option<String>>)
    requires
        cell_ok(*cell),
    ensures
        match csv_of(*cell, render) {
            CsvModel::Empty => r matches Some(None),
            CsvModel::Text(t) => r matches Some(Some(s)) && s@ == t,
            CsvModel::Refused => r is None,
        },
    decreases *cell,
{
    let text = match cell {
        Cell::Null => return Some(None),
        Cell::Nothing => String::new(),
        Cell::Boolean(b) => bool_string(*b),
        Cell::Int(i) => dec_i64(*i),
        Cell::UInt(u) => dec_u64(*u),
        Cell::Float(f) => format_float_csv(f, render),
        Cell::Text(s) => s.clone(),
        Cell::Binary(b) => encode_binary(b.as_slice(), render.binary_format),
        Cell::Date32(d) => format_date32(*d),
        Cell::Date64(ms) => format_date64(*ms),
        Cell::Time32(v, u) => format_time32(*v, *u),
        Cell::Time64(v, u) => format_time64(*v, *u),
        Cell::Timestamp(v, u, tz) => format_timestamp(*v, *u, tz),
        Cell::Decimal(v, s) => format_decimal128_csv(*v, *s),
        Cell::BigDecimal(raw, s) => format_decimal256_csv(raw.as_str(), *s),
        Cell::Dictionary(d) => return csv_text(d, render),
        _ => return None,
    };
    Some(Some(text))
}

/// Text of a single cell for CSV; `None` for null (an empty field). `ty` is the
/// type of the cell's column.
pub fn csv_cell(ty: &DataType, cell: &Cell, render: RenderOptions) -> (r: Result<
    Option<String>,
    Error,
>)
    requires
        cell_ok(*cell),
    ensures
        match csv_of(*cell, render) {
            CsvModel::Empty => r matches Ok(None),
            CsvModel::Text(t) => r matches Ok(Some(s)) && s@ == t,
            CsvModel::Refused => r matches Err(Error::UnsupportedCsvType { column, data_type })
                && column@.len() == 0 && data_type@ == refused_label(*ty),
        },
{
    match csv_text(cell, render) {
        Some(t) => Ok(t),
        None => Err(
            Error::UnsupportedCsvType { column: String::new(), data_type: type_label(ty) },
        ),
    }
}

fn type_label(ty: &DataType) -> (r: String)
    ensures
        r@ == refused_label(*ty),
    decreases *ty,
{
    match &ty.kind {
        Kind::Dictionary(_, v) => type_label(v),
        _ => ty.debug.clone(),
    }
}

// ---------- JSON values ----------

/// The marker that stands for `k` list elements that are not rendered.
pub open spec fn more_marker(k: nat) -> Seq<char> {
    "\u{2026} ("@ + dec(k) + " more)"@
}

/// How many of `len` list elements are rendered.
pub open spec fn shown(len: nat, o: RenderOptions) -> nat {
    match o.max_list_items {
        Some(k) => if k < len {
            k as nat
        } else {
            len
        },
        None => len,
    }
}

/// What stands for a value in JSON, or why nothing does.
pub open spec fn json_of(c: Cell, o: RenderOptions) -> Result<JsonModel, Seq<char>>
    decreases c, 0nat,
{
    match c {
        Cell::Null => Ok(JsonModel::Raw("null"@)),
        Cell::Nothing => Ok(JsonModel::Raw("null"@)),
        Cell::Boolean(b) => Ok(JsonModel::Raw(bool_text(b))),
        Cell::Int(i) => Ok(JsonModel::Raw(dec_int(i as int))),
        Cell::UInt(u) => Ok(JsonModel::Raw(dec(u as nat))),
        Cell::Float(f) => Ok(float_value(f, o)),
        Cell::Text(s) => Ok(JsonModel::Text(s@)),
        Cell::TextView(s) => Ok(JsonModel::Text(s@)),
        Cell::Binary(b) => Ok(JsonModel::Text(binary_text(b@, o.binary_format))),
        Cell::Date32(d) => Ok(JsonModel::Text(date32_text(d))),
        Cell::Date64(ms) => Ok(JsonModel::Text(date64_text(ms))),
        Cell::Time32(v, u) => Ok(JsonModel::Text(time_text(v as int, u))),
        Cell::Time64(v, u) => Ok(JsonModel::Text(time_text(v as int, u))),
        Cell::Timestamp(v, u, tz) => Ok(
            JsonModel::Text(timestamp_text(v, u, crate::json::opt_view(tz))),
        ),
        Cell::Duration(v, u) => Ok(JsonModel::Text(duration_text(v, u))),
        Cell::YearMonth(m) => Ok(JsonModel::Text(year_month_text(m))),
        Cell::DayTime(d, ms) => Ok(JsonModel::Text(day_time_text(d, ms))),
        Cell::MonthDayNano(m, d, n) => Ok(JsonModel::Text(month_day_nano_text(m, d, n))),
        Cell::Decimal(v, _) => Ok(JsonModel::Raw(dec_int(v as int))),
        Cell::BigDecimal(raw, _) => Ok(number_or_text(raw@)),
        Cell::List(v) => match items_of(v@, shown(v@.len(), o), o) {
            Err(why) => Err(why),
            Ok(items) => Ok(
                JsonModel::Raw(
                    array(
                        if shown(v@.len(), o) < v@.len() {
                            items.push(
                                value_text(
                                    JsonModel::Text(
                                        more_marker((v@.len() - shown(v@.len(), o)) as nat),
                                    ),
                                ),
                            )
                        } else {
                            items
                        },
                    ),
                ),
            ),
        },
        Cell::Struct(v) => match members_of(v@, v@.len(), o) {
            Err(why) => Err(why),
            Ok(members) => Ok(JsonModel::Raw(object(members))),
        },
        Cell::Mapping(v) => match entries_of(v@, v@.len(), o) {
            Err(why) => Err(why),
            Ok(members) => Ok(JsonModel::Raw(object(members))),
        },
        Cell::Dictionary(d) => json_of(*d, o),
        Cell::Unsupported(label) => Err(
            "unsupported arrow type in JSONL output: "@ + label@,
        ),
    }
}

/// The texts of the first `n` elements of a list.
pub open spec fn items_of(v: Seq<Cell>, n: nat, o: RenderOptions) -> Result<
    Seq<Seq<char>>,
    Seq<char>,
>
    decreases v, n,
{
    if n == 0 || n > v.len() {
        Ok(Seq::empty())
    } else {
        match items_of(v, (n - 1) as nat, o) {
            Err(why) => Err(why),
            Ok(items) => match json_of(v[n - 1], o) {
                Err(why) => Err(why),
                Ok(value) => Ok(items.push(value_text(value))),
            },
        }
    }
}

/// The members that the first `n` fields of a struct give.
pub open spec fn members_of(v: Seq<(String, Cell)>, n: nat, o: RenderOptions) -> Result<
    Seq<(Seq<char>, Seq<char>)>,
    Seq<char>,
>
    decreases v, n,
{
    if n == 0 || n > v.len() {
        Ok(Seq::empty())
    } else {
        match members_of(v, (n - 1) as nat, o) {
            Err(why) => Err(why),
            Ok(members) => match json_of(v[n - 1].1, o) {
                Err(why) => Err(why),
                Ok(value) => Ok(put(members, v[n - 1].0@, value_text(value))),
            },
        }
    }
}

/// The members that the first `n` entries of a map give.
pub open spec fn entries_of(v: Seq<(Cell, Cell)>, n: nat, o: RenderOptions) -> Result<
    Seq<(Seq<char>, Seq<char>)>,
    Seq<char>,
>
    decreases v, n,
{
    if n == 0 || n > v.len() {
        Ok(Seq::empty())
    } else {
        match entries_of(v, (n - 1) as nat, o) {
            Err(why) => Err(why),
            Ok(members) => match json_of(v[n - 1].0, o) {
                Err(why) => Err(why),
                Ok(key) => match json_of(v[n - 1].1, o) {
                    Err(why) => Err(why),
                    Ok(value) => Ok(put(members, key_text(key), value_text(value))),
                },
            },
        }
    }
}

proof fn lemma_first_item_error(v: Seq<Cell>, k: nat, n: nat, o: RenderOptions)
    requires
        k <= n <= v.len(),
        items_of(v, k, o) is Err,
    ensures
        items_of(v, n, o) == items_of(v, k, o),
    decreases n - k,
{
    if k < n {
        lemma_first_item_error(v, k, (n - 1) as nat, o);
    }
}

proof fn lemma_first_member_error(v: Seq<(String, Cell)>, k: nat, n: nat, o: RenderOptions)
    requires
        k <= n <= v.len(),
        members_of(v, k, o) is Err,
    ensures
        members_of(v, n, o) == members_of(v, k, o),
    decreases n - k,
{
    if k < n {
        lemma_first_member_error(v, k, (n - 1) as nat, o);
    }
}

proof fn lemma_first_entry_error(v: Seq<(Cell, Cell)>, k: nat, n: nat, o: RenderOptions)
    requires
        k <= n <= v.len(),
        entries_of(v, k, o) is Err,
    ensures
        entries_of(v, n, o) == entries_of(v, k, o),
    decreases n - k,
{
    if k < n {
        lemma_first_entry_error(v, k, (n - 1) as nat, o);
    }
}

/// The outcome of rendering a value, told against its model.
pub open spec fn renders(r: Result<JsonValue, String>, m: Result<JsonModel, Seq<char>>) -> bool {
    match m {
        Ok(value) => r matches Ok(v) && v@ == value,
        Err(why) => r matches Err(e) && e@ == why,
    }
}

fn more_marker_text(k: usize) -> (r: String)
    ensures
        r@ == more_marker(k as nat),
{
    let mut s = "\u{2026} (".to_owned();
    s.append(dec_usize(k).as_str());
    s.append(" more)");
    s
}

fn render_list(v: &Vec<Cell>, render: RenderOptions) -> (r: Result<JsonValue, String>)
    requires
        forall|i: int| 0 <= i < v@.len() ==> cell_ok(#[trigger] v@[i]),
    ensures
        match items_of(v@, shown(v@.len(), render), render) {
            Err(why) => r matches Err(e) && e@ == why,
            Ok(items) => r matches Ok(j) && j@ == JsonModel::Raw(
                array(
                    if shown(v@.len(), render) < v@.len() {
                        items.push(
                            value_text(
                                JsonModel::Text(
                                    more_marker((v@.len() - shown(v@.len(), render)) as nat),
                                ),
                            ),
                        )
                    } else {
                        items
                    },
                ),
            ),
        },
    decreases v@, 1nat,
{
    let count: usize = match render.max_list_items {
        Some(k) => if k < v.len() {
            k
        } else {
            v.len()
        },
        None => v.len(),
    };
    let mut out: Vec<String> = Vec::new();
    let mut i: usize = 0;
    proof {
        assert(texts(out@) =~= Seq::<Seq<char>>::empty());
    }
    while i < count
        invariant
            i <= count <= v@.len(),
            count == shown(v@.len(), render),
            forall|j: int| 0 <= j < v@.len() ==> cell_ok(#[trigger] v@[j]),
            items_of(v@, i as nat, render) == Ok::<Seq<Seq<char>>, Seq<char>>(texts(out@)),
        decreases count - i,
    {
        proof {
            assert(decreases_to!(v@ => v@[i as int]));
        }
        match render_json(&v[i], render) {
            Err(why) => {
                proof {
                    assert(items_of(v@, (i + 1) as nat, render) is Err);
                    lemma_first_item_error(v@, (i + 1) as nat, count as nat, render);
                }
                return Err(why);
            },
            Ok(value) => {
                let ghost before = out@;
                out.push(value.text());
                proof {
                    assert(texts(out@) =~= texts(before).push(value_text(value@)));
                }
            },
        }
        i += 1;
    }
    if count < v.len() {
        let ghost before = out@;
        let marker = JsonValue::Text(more_marker_text(v.len() - count));
        out.push(marker.text());
        proof {
            assert(texts(out@) =~= texts(before).push(value_text(marker@)));
        }
    }
    Ok(JsonValue::Raw(array_text(out.as_slice())))
}

fn render_struct(v: &Vec<(String, Cell)>, render: RenderOptions) -> (r: Result<JsonValue, String>)
    requires
        forall|i: int| 0 <= i < v@.len() ==> cell_ok((#[trigger] v@[i]).1),
    ensures
        match members_of(v@, v@.len(), render) {
            Err(why) => r matches Err(e) && e@ == why,
            Ok(members) => r matches Ok(j) && j@ == JsonModel::Raw(object(members)),
        },
    decreases v@, 1nat,
{
    let mut out = Members::new();
    let mut i: usize = 0;
    while i < v.len()
        invariant
            i <= v@.len(),
            out.wf(),
            forall|j: int| 0 <= j < v@.len() ==> cell_ok((#[trigger] v@[j]).1),
            members_of(v@, i as nat, render) == Ok::<Seq<(Seq<char>, Seq<char>)>, Seq<char>>(out@),
        decreases v@.len() - i,
    {
        proof {
            assert(decreases_to!(v@ => v@[i as int]));
            assert(decreases_to!(v@[i as int] => v@[i as int].1));
        }
        match render_json(&v[i].1, render) {
            Err(why) => {
                proof {
                    assert(members_of(v@, (i + 1) as nat, render) is Err);
                    lemma_first_member_error(v@, (i + 1) as nat, v@.len(), render);
                }
                return Err(why);
            },
            Ok(value) => {
                out.set(v[i].0.as_str(), value.text());
            },
        }
        i += 1;
    }
    Ok(JsonValue::Raw(out.text()))
}

fn render_map(v: &Vec<(Cell, Cell)>, render: RenderOptions) -> (r: Result<JsonValue, String>)
    requires
        forall|i: int| 0 <= i < v@.len() ==> cell_ok((#[trigger] v@[i]).0) && cell_ok(v@[i].1),
    ensures
        match entries_of(v@, v@.len(), render) {
            Err(why) => r matches Err(e) && e@ == why,
            Ok(members) => r matches Ok(j) && j@ == JsonModel::Raw(object(members)),
        },
    decreases v@, 1nat,
{
    let mut out = Members::new();
    let mut i: usize = 0;
    while i < v.len()
        invariant
            i <= v@.len(),
            out.wf(),
            forall|j: int|
                0 <= j < v@.len() ==> cell_ok((#[trigger] v@[j]).0) && cell_ok(v@[j].1),
            entries_of(v@, i as nat, render) == Ok::<Seq<(Seq<char>, Seq<char>)>, Seq<char>>(out@),
        decreases v@.len() - i,
    {
        proof {
            assert(decreases_to!(v@ => v@[i as int]));
            assert(decreases_to!(v@[i as int] => v@[i as int].0));
            assert(decreases_to!(v@[i as int] => v@[i as int].1));
        }
        let key = match render_json(&v[i].0, render) {
            Ok(value) => value.into_key(),
            Err(why) => {
                proof {
                    assert(entries_of(v@, (i + 1) as nat, render) is Err);
                    lemma_first_entry_error(v@, (i + 1) as nat, v@.len(), render);
                }
                return Err(why);
            },
        };
        match render_json(&v[i].1, render) {
            Err(why) => {
                proof {
                    assert(entries_of(v@, (i + 1) as nat, render) is Err);
                    lemma_first_entry_error(v@, (i + 1) as nat, v@.len(), render);
                }
                return Err(why);
            },
            Ok(value) => {
                out.set(key.as_str(), value.text());
            },
        }
        i += 1;
    }
    Ok(JsonValue::Raw(out.text()))
}

fn render_json(cell: &Cell, render: RenderOptions) -> (r: Result<JsonValue, String>)
    requires
        cell_ok(*cell),
    ensures
        renders(r, json_of(*cell, render)),
    decreases *cell, 0nat,
{
    let value = match cell {
        Cell::Null => JsonValue::Raw("null".to_owned()),
        Cell::Nothing => JsonValue::Raw("null".to_owned()),
        Cell::Boolean(b) => JsonValue::Raw(bool_string(*b)),
        Cell::Int(i) => JsonValue::Raw(dec_i64(*i)),
        Cell::UInt(u) => JsonValue::Raw(dec_u64(*u)),
        Cell::Float(f) => float_json(f, render),
        Cell::Text(s) => JsonValue::Text(s.clone()),
        Cell::TextView(s) => JsonValue::Text(s.clone()),
        Cell::Binary(b) => JsonValue::Text(encode_binary(b.as_slice(), render.binary_format)),
        Cell::Date32(d) => JsonValue::Text(format_date32(*d)),
        Cell::Date64(ms) => JsonValue::Text(format_date64(*ms)),
        Cell::Time32(v, u) => JsonValue::Text(format_time32(*v, *u)),
        Cell::Time64(v, u) => JsonValue::Text(format_time64(*v, *u)),
        Cell::Timestamp(v, u, tz) => JsonValue::Text(format_timestamp(*v, *u, tz)),
        Cell::Duration(v, u) => JsonValue::Text(format_duration(*v, *u)),
        Cell::YearMonth(m) => JsonValue::Text(format_interval_year_month(*m)),
        Cell::DayTime(d, ms) => JsonValue::Text(format_interval_day_time(*d, *ms)),
        Cell::MonthDayNano(m, d, n) => JsonValue::Text(format_interval_month_day_nano(*m, *d, *n)),
        Cell::Decimal(v, _) => {
            proof {
                lemma_dec_is_integer(*v as int);
            }
            json_number_from_str(dec_i128(*v).as_str())
        },
        Cell::BigDecimal(raw, _) => json_number_from_str(raw.as_str()),
        Cell::List(v) => return render_list(v, render),
        Cell::Struct(v) => return render_struct(v, render),
        Cell::Mapping(v) => return render_map(v, render),
        Cell::Dictionary(d) => return render_json(d, render),
        Cell::Unsupported(label) => {
            let mut why = "unsupported arrow type in JSONL output: ".to_owned();
            why.append(label.as_str());
            return Err(why);
        },
    };
    Ok(value)
}

/// The JSON value of a single cell.
pub fn json_value(cell: &Cell, render: RenderOptions) -> (r: Result<JsonValue, Error>)
    requires
        cell_ok(*cell),
    ensures
        match json_of(*cell, render) {
            Ok(value) => r matches Ok(v) && v@ == value,
            Err(why) => r matches Err(Error::UnsupportedCsvType { column, data_type })
                && column@.len() == 0 && data_type@ == why,
        },
{
    match render_json(cell, render) {
        Ok(v) => Ok(v),
        Err(data_type) => Err(Error::UnsupportedCsvType { column: String::new(), data_type }),
    }
}

/// What a table shows for a value: the CSV text, or compact JSON where CSV has none.
pub open spec fn table_of(c: Cell, o: RenderOptions) -> Result<Seq<char>, Seq<char>> {
    match csv_of(c, o) {
        CsvModel::Empty => Ok(Seq::empty()),
        CsvModel::Text(t) => Ok(t),
        CsvModel::Refused => match json_of(c, o) {
            Ok(value) => Ok(value_text(value)),
            Err(why) => Err(why),
        },
    }
}

/// Text of a single cell for tables. Strictly more permissive than CSV: primitives
/// render the same way, nested types as compact JSON. Null becomes an empty string.
pub fn table_cell(cell: &Cell, render: RenderOptions) -> (r: Result<String, Error>)
    requires
        cell_ok(*cell),
    ensures
        match table_of(*cell, render) {
            Ok(t) => r matches Ok(s) && s@ == t,
            Err(why) => r matches Err(Error::UnsupportedCsvType { column, data_type })
                && column@.len() == 0 && data_type@ == why,
        },
{
    match csv_text(cell, render) {
        Some(None) => Ok(String::new()),
        Some(Some(s)) => Ok(s),
        None => match json_value(cell, render) {
            Ok(v) => Ok(v.text()),
            Err(e) => Err(e),
        },
    }
}

// ---------- laws ----------

/// Tables are strictly more permissive than CSV: what CSV renders, a table renders
/// the same way.
pub proof fn law_table_extends_csv(c: Cell, o: RenderOptions)
    ensures
        csv_of(c, o) matches CsvModel::Text(t) ==> table_of(c, o) == Ok::<Seq<char>, Seq<char>>(t),
        csv_of(c, o) is Empty ==> table_of(c, o) == Ok::<Seq<char>, Seq<char>>(Seq::empty()),
{
}

/// Four characters stand for each byte, so the hexadecimal form loses nothing.
pub proof fn law_hex_is_lossless(a: Seq<u8>, b: Seq<u8>)
    requires
        hex_text(a) == hex_text(b),
    ensures
        a == b,
    decreases a.len(),
{
    lemma_hex_len(a);
    lemma_hex_len(b);
    if a.len() > 0 {
        let x = hex_text(a);
        let y = hex_text(b);
        let n = x.len() as int;
        assert(x.take(n - 4) =~= hex_text(a.drop_last()));
        assert(y.take(n - 4) =~= hex_text(b.drop_last()));
        law_hex_is_lossless(a.drop_last(), b.drop_last());
        let p = a.last() as int;
        let q = b.last() as int;
        assert(x[n - 2] == crate::json::hex(p / 16) && y[n - 2] == crate::json::hex(q / 16));
        assert(x[n - 1] == crate::json::hex(p % 16) && y[n - 1] == crate::json::hex(q % 16));
        assert(p / 16 == q / 16 && p % 16 == q % 16);
        assert(a.last() == b.last());
        assert(a =~= a.drop_last().push(a.last()));
        assert(b =~= b.drop_last().push(b.last()));
    } else {
        assert(a =~= b);
    }
}

proof fn lemma_hex_len(a: Seq<u8>)
    ensures
        hex_text(a).len() == 4 * a.len(),
    decreases a.len(),
{
    if a.len() > 0 {
        lemma_hex_len(a.drop_last());
    }
}

/// With no limits set, a list renders every element and no marker.
pub proof fn law_defaults_render_full_lists(v: Vec<Cell>, o: RenderOptions)
    requires
        o.max_list_items is None,
    ensures
        json_of(Cell::List(v), o) matches Ok(value) ==> items_of(v@, v@.len(), o) matches Ok(items)
            && value == JsonModel::Raw(array(items)),
{
}

/// A list of more elements than the limit renders that many of them and one marker
/// that counts the rest.
pub proof fn law_limit_truncates_lists(v: Vec<Cell>, o: RenderOptions, k: usize)
    requires
        o.max_list_items == Some(k),
        k < v@.len(),
    ensures
        json_of(Cell::List(v), o) matches Ok(value) ==> items_of(v@, k as nat, o) matches Ok(items)
            && items.len() == k && value == JsonModel::Raw(
            array(items.push(value_text(JsonModel::Text(more_marker((v@.len() - k) as nat))))),
        ),
{
    lemma_item_count(v@, k as nat, o);
}

proof fn lemma_item_count(v: Seq<Cell>, n: nat, o: RenderOptions)
    requires
        n <= v.len(),
    ensures
        items_of(v, n, o) matches Ok(items) ==> items.len() == n,
    decreases n,
{
    if n > 0 {
        lemma_item_count(v, (n - 1) as nat, o);
    }
}

/// With a precision a finite float stays a number in JSON, with exactly the digits
/// that the formatter gave.
pub proof fn law_fixed_floats_stay_numbers(f: Float, o: RenderOptions)
    requires
        !f.is_nan(),
        !f.is_infinite(),
        o.float_precision is Some,
        is_plain_number(f.fixed@),
    ensures
        json_of(Cell::Float(f), o) == Ok::<JsonModel, Seq<char>>(JsonModel::Raw(f.fixed@)),
{
}

/// A decimal is the unscaled integer in JSON, however many digits it has.
pub proof fn law_decimals_are_unscaled_in_json(raw: String, v: i128, scale: i8, o: RenderOptions)
    requires
        is_integer(raw@),
    ensures
        json_of(Cell::BigDecimal(raw, scale), o) == Ok::<JsonModel, Seq<char>>(
            JsonModel::Raw(raw@),
        ),
        json_of(Cell::Decimal(v, scale), o) == Ok::<JsonModel, Seq<char>>(
            JsonModel::Raw(dec_int(v as int)),
        ),
{
}

} // verus!
