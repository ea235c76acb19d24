//! Cells as text: what each value is shown as, in every format.
use vstd::prelude::*;

use crate::cell::{Cell, Float};
use crate::cli::BinaryFormat;
use crate::commands::freq::countable;
use crate::json::{array, key_position, key_text, object, opt_view, put, value_text, JsonModel};
use crate::laws::numbers::{digits_only, law_sign_is_written, reading, ten};
use crate::output::temporal::{
    date32_text, date64_text, day_time_text, duration_text, month_day_nano_text, time_text,
    timestamp_text, year_month_text,
};
use crate::output::value::{
    base64_char, base64_text, csv_of, csv_type, entries_of, hex_text, items_of, json_of, members_of,
    refused_label, scaled_text, table_of, CsvModel,
};
use crate::output::RenderOptions;
use crate::schema::{DataType, Kind};
use crate::text::{dec, dec_int, zeros};

verus! {

/// A boolean is shown as `true` or `false`, by its value, in every format; so
/// different booleans have different texts.
pub proof fn law_booleans_are_told(o: RenderOptions)
    ensures
        csv_of(Cell::Boolean(true), o) == CsvModel::Text("true"@),
        csv_of(Cell::Boolean(false), o) == CsvModel::Text("false"@),
        json_of(Cell::Boolean(true), o) == Ok::<JsonModel, Seq<char>>(JsonModel::Raw("true"@)),
        json_of(Cell::Boolean(false), o) == Ok::<JsonModel, Seq<char>>(JsonModel::Raw("false"@)),
        table_of(Cell::Boolean(true), o) == Ok::<Seq<char>, Seq<char>>("true"@),
        table_of(Cell::Boolean(false), o) == Ok::<Seq<char>, Seq<char>>("false"@),
        csv_of(Cell::Boolean(true), o) != csv_of(Cell::Boolean(false), o),
        table_of(Cell::Boolean(true), o) != table_of(Cell::Boolean(false), o),
{
    reveal_strlit("true");
    reveal_strlit("false");
    assert("true"@.len() != "false"@.len());
}

/// True of a value that has one text in CSV, in a table and inside JSON.
pub open spec fn is_plain(c: Cell) -> bool {
    c is Boolean || c is Int || c is UInt || c is Text || c is Binary || c is Date32 || c is Date64
        || c is Time32 || c is Time64 || c is Timestamp
}

/// True of a value that JSON writes without quotes.
pub open spec fn is_bare(c: Cell) -> bool {
    c is Boolean || c is Int || c is UInt
}

/// A plain value has one text, which CSV, tables and JSON share. JSON quotes it,
/// unless it is a number or a boolean.
pub proof fn law_formats_agree(c: Cell, o: RenderOptions)
    requires
        is_plain(c),
    ensures
        csv_of(c, o) matches CsvModel::Text(t) && table_of(c, o) == Ok::<Seq<char>, Seq<char>>(t)
            && json_of(c, o) == Ok::<JsonModel, Seq<char>>(
            if is_bare(c) {
                JsonModel::Raw(t)
            } else {
                JsonModel::Text(t)
            },
        ),
{
}

/// An integer is shown in decimal, with a sign where it is below zero; so different
/// integers have different texts.
pub proof fn law_integers_are_told(i: i64, j: i64, u: u64, o: RenderOptions)
    ensures
        csv_of(Cell::Int(i), o) == CsvModel::Text(dec_int(i as int)),
        csv_of(Cell::UInt(u), o) == CsvModel::Text(dec_int(u as int)),
        i >= 0 && i == u ==> csv_of(Cell::Int(i), o) == csv_of(Cell::UInt(u), o),
        csv_of(Cell::Int(i), o) == csv_of(Cell::Int(j), o) <==> i == j,
{
    law_sign_is_written(i as int);
    if csv_of(Cell::Int(i), o) == csv_of(Cell::Int(j), o) {
        assert(dec_int(i as int) == dec_int(j as int));
    }
}

/// A text is shown as it stands, in CSV and in a table; JSON quotes it. A view of a
/// text has no CSV form, and JSON shows it as the text that it views.
pub proof fn law_texts_are_kept(s: String, o: RenderOptions)
    ensures
        csv_of(Cell::Text(s), o) == CsvModel::Text(s@),
        table_of(Cell::Text(s), o) == Ok::<Seq<char>, Seq<char>>(s@),
        json_of(Cell::Text(s), o) == Ok::<JsonModel, Seq<char>>(JsonModel::Text(s@)),
        json_of(Cell::TextView(s), o) == json_of(Cell::Text(s), o),
        csv_of(Cell::TextView(s), o) is Refused,
{
}

/// A null is an empty field in CSV, an empty cell in a table and `null` in JSON; and
/// a slot of the null type is told apart from an empty text only in JSON.
pub proof fn law_nulls_are_empty(o: RenderOptions)
    ensures
        csv_of(Cell::Null, o) is Empty,
        table_of(Cell::Null, o) == Ok::<Seq<char>, Seq<char>>(Seq::empty()),
        json_of(Cell::Null, o) == Ok::<JsonModel, Seq<char>>(JsonModel::Raw("null"@)),
        csv_of(Cell::Nothing, o) == CsvModel::Text(Seq::empty()),
        table_of(Cell::Nothing, o) == Ok::<Seq<char>, Seq<char>>(Seq::empty()),
        json_of(Cell::Nothing, o) == json_of(Cell::Null, o),
{
}

/// A dictionary-encoded value is shown as the value that it stands for.
pub proof fn law_dictionaries_show_their_value(c: Box<Cell>, o: RenderOptions)
    ensures
        csv_of(Cell::Dictionary(c), o) == csv_of(*c, o),
        json_of(Cell::Dictionary(c), o) == json_of(*c, o),
        table_of(Cell::Dictionary(c), o) == table_of(*c, o),
{
}

/// Dates, times and timestamps are shown as the moment that they count.
pub proof fn law_moments_are_shown(c: Cell, o: RenderOptions)
    ensures
        c matches Cell::Date32(d) ==> csv_of(c, o) == CsvModel::Text(date32_text(d)),
        c matches Cell::Date64(ms) ==> csv_of(c, o) == CsvModel::Text(date64_text(ms)),
        c matches Cell::Time32(v, u) ==> csv_of(c, o) == CsvModel::Text(time_text(v as int, u)),
        c matches Cell::Time64(v, u) ==> csv_of(c, o) == CsvModel::Text(time_text(v as int, u)),
        c matches Cell::Timestamp(v, u, z) ==> csv_of(c, o) == CsvModel::Text(
            timestamp_text(v, u, opt_view(z)),
        ),
{
}

/// Durations and intervals have no CSV form. JSON shows them as texts, and a table
/// shows what JSON does.
pub proof fn law_spans_are_json_texts(c: Cell, o: RenderOptions)
    ensures
        c matches Cell::Duration(v, u) ==> json_of(c, o) == Ok::<JsonModel, Seq<char>>(
            JsonModel::Text(duration_text(v, u)),
        ),
        c matches Cell::YearMonth(m) ==> json_of(c, o) == Ok::<JsonModel, Seq<char>>(
            JsonModel::Text(year_month_text(m)),
        ),
        c matches Cell::DayTime(d, ms) ==> json_of(c, o) == Ok::<JsonModel, Seq<char>>(
            JsonModel::Text(day_time_text(d, ms)),
        ),
        c matches Cell::MonthDayNano(m, d, n) ==> json_of(c, o) == Ok::<JsonModel, Seq<char>>(
            JsonModel::Text(month_day_nano_text(m, d, n)),
        ),
        csv_of(c, o) is Refused ==> table_of(c, o) == match json_of(c, o) {
            Ok(v) => Ok::<Seq<char>, Seq<char>>(value_text(v)),
            Err(why) => Err(why),
        },
{
}

/// True of a value that CSV cannot write.
pub open spec fn no_csv_form(c: Cell) -> bool
    decreases c,
{
    match c {
        Cell::Dictionary(d) => no_csv_form(*d),
        Cell::TextView(_) => true,
        Cell::Duration(_, _) => true,
        Cell::YearMonth(_) => true,
        Cell::DayTime(_, _) => true,
        Cell::MonthDayNano(_, _, _) => true,
        Cell::List(_) => true,
        Cell::Struct(_) => true,
        Cell::Mapping(_) => true,
        Cell::Unsupported(_) => true,
        _ => false,
    }
}

/// CSV refuses exactly the values that it cannot write, and leaves a field empty
/// exactly for a null.
pub proof fn law_csv_refuses_what_it_cannot_write(c: Cell, o: RenderOptions)
    ensures
        csv_of(c, o) is Refused <==> no_csv_form(c),
        csv_of(c, o) is Empty <==> c is Null || (c matches Cell::Dictionary(d) && csv_of(*d, o) is Empty),
    decreases c,
{
    match c {
        Cell::Dictionary(d) => {
            law_csv_refuses_what_it_cannot_write(*d, o);
        },
        _ => {},
    }
}

/// The kinds of the values that a dictionary-encoded column stands for.
pub open spec fn decoded(t: DataType) -> DataType
    decreases t,
{
    match t.kind {
        Kind::Dictionary(_, v) => decoded(*v),
        _ => t,
    }
}

/// CSV takes the columns whose values it can write, and a refusal names the type of
/// the values. `freq` counts those columns, except the binary ones.
pub proof fn law_column_types_follow_their_values(t: &DataType)
    ensures
        csv_type(*t) == csv_type(decoded(*t)),
        countable(*t) == countable(decoded(*t)),
        refused_label(*t) == decoded(*t).debug@,
        ({
            let k = decoded(*t).kind;
            csv_type(*t) <==> !(k is Utf8View || k is List || k is LargeList || k is FixedSizeList
                || k is ListView || k is LargeListView || k is Struct || k is Mapping || k is Union
                || k is RunEndEncoded || k is Duration || k is Interval)
        }),
        ({
            let k = decoded(*t).kind;
            countable(*t) <==> csv_type(*t) && !(k is Binary || k is LargeBinary || k is BinaryView
                || k is FixedSizeBinary)
        }),
    decreases t,
{
    match &t.kind {
        Kind::Dictionary(_, v) => {
            law_column_types_follow_their_values(&*v);
        },
        _ => {},
    }
}

/// A number is shown with the digits that were asked for: the shortest where none
/// were, and the fixed ones where some were. NaN and the infinities are named,
/// whatever was asked for.
pub proof fn law_floats_show_the_asked_digits(f: Float, o: RenderOptions)
    ensures
        f.is_nan() ==> csv_of(Cell::Float(f), o) == CsvModel::Text("NaN"@) && json_of(
            Cell::Float(f),
            o,
        ) == Ok::<JsonModel, Seq<char>>(JsonModel::Text("NaN"@)),
        f.is_infinite() && f.is_negative() ==> csv_of(Cell::Float(f), o) == CsvModel::Text("-inf"@)
            && json_of(Cell::Float(f), o) == Ok::<JsonModel, Seq<char>>(
            JsonModel::Text("-Infinity"@),
        ),
        f.is_infinite() && !f.is_negative() ==> csv_of(Cell::Float(f), o) == CsvModel::Text("inf"@)
            && json_of(Cell::Float(f), o) == Ok::<JsonModel, Seq<char>>(
            JsonModel::Text("Infinity"@),
        ),
        !f.is_nan() && !f.is_infinite() && o.float_precision is None ==> csv_of(Cell::Float(f), o)
            == CsvModel::Text(f.shortest@) && json_of(Cell::Float(f), o) == Ok::<
            JsonModel,
            Seq<char>,
        >(JsonModel::Raw(f.json@)),
        !f.is_nan() && !f.is_infinite() && o.float_precision is Some ==> csv_of(Cell::Float(f), o)
            == CsvModel::Text(f.fixed@),
        table_of(Cell::Float(f), o) == Ok::<Seq<char>, Seq<char>>(csv_of(Cell::Float(f), o)->Text_0),
{
}

proof fn lemma_reading_sum(a: Seq<char>, b: Seq<char>)
    ensures
        reading(a + b) == reading(a) * ten(b.len()) + reading(b),
    decreases b.len(),
{
    if b.len() == 0 {
        assert(a + b =~= a);
        assert(reading(a) * 1 == reading(a));
        assert(ten(0) == 1);
    } else {
        lemma_reading_sum(a, b.drop_last());
        assert((a + b).drop_last() =~= a + b.drop_last());
        let x = reading(a);
        let k = ten((b.len() - 1) as nat);
        let y = reading(b.drop_last());
        assert((x * k + y) * 10 == x * (10 * k) + y * 10) by (nonlinear_arith);
        assert(ten(b.len()) == 10 * k);
        assert((a + b).last() == b.last());
    }
}

proof fn lemma_reading_zeros(k: nat)
    ensures
        reading(zeros(k)) == 0,
        digits_only(zeros(k)),
    decreases k,
{
    if k > 0 {
        lemma_reading_zeros((k - 1) as nat);
        assert(zeros(k).drop_last() =~= zeros((k - 1) as nat));
    }
}

/// A decimal's text behind its sign.
pub open spec fn unsigned_part(v: int, t: Seq<char>) -> Seq<char> {
    if v < 0 {
        t.drop_first()
    } else {
        t
    }
}

/// A decimal with digits behind the point writes its value: as many digits behind
/// the point as its scale, at least one before it, and all of them together read as
/// the unscaled value. The sign stands first.
pub proof fn law_decimals_write_their_value(v: i128, scale: i8)
    requires
        scale > 0,
    ensures
        ({
            let t = scaled_text(dec_int(v as int), scale as int);
            let u = unsigned_part(v as int, t);
            let p = u.len() - scale - 1;
            &&& v < 0 ==> t[0] == '-'
            &&& p >= 1
            &&& u[p] == '.'
            &&& digits_only(u.take(p))
            &&& digits_only(u.skip(p + 1))
            &&& reading(u.take(p)) * ten(scale as nat) + reading(u.skip(p + 1)) == if v < 0 {
                -v
            } else {
                v as int
            }
        }),
        csv_of(Cell::Decimal(v, scale), (RenderOptions {
            binary_format: BinaryFormat::Placeholder,
            max_list_items: None,
            max_cell_width: None,
            float_precision: None,
        })) == CsvModel::Text(scaled_text(dec_int(v as int), scale as int)),
{
    law_sign_is_written(v as int);
    let raw = dec_int(v as int);
    let t = scaled_text(raw, scale as int);
    let digits = unsigned_part(v as int, raw);
    if v >= 0 {
        crate::laws::numbers::law_digits_read_back(v as nat);
        assert(raw[0] != '-');
    }
    reveal_strlit("-");
    reveal_strlit("0.");
    reveal_strlit(".");
    let u = unsigned_part(v as int, t);
    let p = u.len() - scale - 1;
    if digits.len() <= scale {
        let pad = zeros((scale - digits.len()) as nat);
        lemma_reading_zeros((scale - digits.len()) as nat);
        assert(u =~= seq!['0', '.'] + pad + digits);
        assert(u.take(p) =~= seq!['0']);
        assert(u.skip(p + 1) =~= pad + digits);
        lemma_reading_sum(pad, digits);
        reveal_with_fuel(reading, 2);
        assert(seq!['0'].drop_last() =~= Seq::<char>::empty());
        assert(reading(seq!['0']) == 0);
        assert(0 * ten(scale as nat) == 0);
        assert(0 * ten(digits.len()) == 0);
    } else {
        let a = digits.take(digits.len() - scale);
        let b = digits.skip(digits.len() - scale);
        assert(u =~= a + seq!['.'] + b);
        assert(u.take(p) =~= a);
        assert(u.skip(p + 1) =~= b);
        assert(a + b =~= digits);
        lemma_reading_sum(a, b);
    }
}

/// A decimal without digits behind the point is written in full: its unscaled value,
/// with a zero behind it for each place that its scale is below zero.
pub proof fn law_large_decimals_are_written_in_full(v: i128, scale: i8)
    requires
        scale <= 0,
    ensures
        ({
            let t = scaled_text(dec_int(v as int), scale as int);
            let u = unsigned_part(v as int, t);
            &&& v < 0 ==> t[0] == '-'
            &&& digits_only(u)
            &&& reading(u) == (if v < 0 {
                -v
            } else {
                v as int
            }) * ten((-scale) as nat)
        }),
{
    law_sign_is_written(v as int);
    let raw = dec_int(v as int);
    let k = (-scale) as nat;
    lemma_reading_zeros(k);
    let d = unsigned_part(v as int, raw);
    lemma_reading_sum(d, zeros(k));
    assert(unsigned_part(v as int, scaled_text(raw, scale as int)) =~= d + zeros(k));
    assert(zeros(k).len() == k);
}

/// A decimal of any width is shown with its point, in CSV and in a table; a wide one
/// as a narrow one of the same digits.
pub proof fn law_decimals_are_shown_alike(v: i128, raw: String, scale: i8, o: RenderOptions)
    requires
        raw@ == dec_int(v as int),
    ensures
        csv_of(Cell::Decimal(v, scale), o) == CsvModel::Text(
            scaled_text(dec_int(v as int), scale as int),
        ),
        csv_of(Cell::BigDecimal(raw, scale), o) == csv_of(Cell::Decimal(v, scale), o),
        table_of(Cell::BigDecimal(raw, scale), o) == table_of(Cell::Decimal(v, scale), o),
        json_of(Cell::Decimal(v, scale), o) == Ok::<JsonModel, Seq<char>>(JsonModel::Raw(raw@)),
{
}

/// The value of a lowercase hexadecimal digit; none of any other character.
pub open spec fn hex_value(c: char) -> int {
    if '0' <= c <= '9' {
        c as int - '0' as int
    } else if 'a' <= c <= 'f' {
        c as int - 'a' as int + 10
    } else {
        -1
    }
}

/// In hexadecimal every byte is `\x` and two lowercase digits that read back as it.
pub proof fn law_hex_reads_back(b: Seq<u8>, i: int)
    requires
        0 <= i < b.len(),
    ensures
        hex_text(b).len() == 4 * b.len(),
        hex_text(b)[4 * i] == '\\',
        hex_text(b)[4 * i + 1] == 'x',
        0 <= hex_value(hex_text(b)[4 * i + 2]) < 16,
        0 <= hex_value(hex_text(b)[4 * i + 3]) < 16,
        hex_value(hex_text(b)[4 * i + 2]) * 16 + hex_value(hex_text(b)[4 * i + 3]) == b[i],
    decreases b.len(),
{
    lemma_hex_len(b.drop_last());
    lemma_hex_len(b);
    if i < b.len() - 1 {
        law_hex_reads_back(b.drop_last(), i);
    }
}

proof fn lemma_hex_len(b: Seq<u8>)
    ensures
        hex_text(b).len() == 4 * b.len(),
    decreases b.len(),
{
    if b.len() > 0 {
        lemma_hex_len(b.drop_last());
    }
}

/// The value of a character of the base64 alphabet; none of any other character.
pub open spec fn sextet(c: char) -> int {
    if 'A' <= c <= 'Z' {
        c as int - 'A' as int
    } else if 'a' <= c <= 'z' {
        c as int - 'a' as int + 26
    } else if '0' <= c <= '9' {
        c as int - '0' as int + 52
    } else if c == '+' {
        62
    } else if c == '/' {
        63
    } else {
        -1
    }
}

proof fn lemma_sextet(n: int)
    requires
        0 <= n < 64,
    ensures
        sextet(base64_char(n)) == n,
        base64_char(n) != '=',
{
}

/// In base64 every three bytes are four characters whose values read back as them.
/// The last one or two bytes are padded to four characters.
pub proof fn law_base64_reads_back(b: Seq<u8>, g: int)
    requires
        0 <= 3 * g < b.len(),
    ensures
        base64_text(b).len() == (b.len() + 2) / 3 * 4,
        ({
            let t = base64_text(b);
            let s = |k: int| sextet(t[4 * g + k]);
            &&& s(0) >= 0 && s(1) >= 0
            &&& 3 * g + 2 < b.len() ==> s(2) >= 0 && s(3) >= 0 && ((s(0) * 64 + s(1)) * 64 + s(2)) * 64
                + s(3) == (b[3 * g] * 256 + b[3 * g + 1]) * 256 + b[3 * g + 2]
            &&& 3 * g + 2 == b.len() ==> s(2) >= 0 && t[4 * g + 3] == '=' && (s(0) * 64 + s(1)) * 64
                + s(2) == (b[3 * g] * 256 + b[3 * g + 1]) * 4
            &&& 3 * g + 1 == b.len() ==> t[4 * g + 2] == '=' && t[4 * g + 3] == '=' && s(0) * 64 + s(1)
                == b[3 * g] * 16
        }),
    decreases b.len(),
{
    lemma_base64_len(b);
    let t = base64_text(b);
    if g == 0 {
        let x = b[0] as int;
        lemma_sextet(x / 4);
        if b.len() == 1 {
            lemma_sextet(x % 4 * 16);
        } else {
            let y = b[1] as int;
            lemma_sextet(x % 4 * 16 + y / 16);
            if b.len() == 2 {
                lemma_sextet(y % 16 * 4);
            } else {
                let z = b[2] as int;
                lemma_sextet(y % 16 * 4 + z / 64);
                lemma_sextet(z % 64);
            }
        }
    } else {
        let rest = b.skip(3);
        law_base64_reads_back(rest, g - 1);
        lemma_base64_len(rest);
        assert(rest[3 * (g - 1)] == b[3 * g]);
        assert(forall|k: int| 0 <= k < 4 ==> t[4 * g + k] == #[trigger] base64_text(rest)[4 * (g - 1) + k]);
        assert(t[4 * g + 0] == base64_text(rest)[4 * (g - 1) + 0]);
        assert(t[4 * g + 1] == base64_text(rest)[4 * (g - 1) + 1]);
        assert(t[4 * g + 2] == base64_text(rest)[4 * (g - 1) + 2]);
        assert(t[4 * g + 3] == base64_text(rest)[4 * (g - 1) + 3]);
    }
}

proof fn lemma_base64_len(b: Seq<u8>)
    ensures
        base64_text(b).len() == (b.len() + 2) / 3 * 4,
    decreases b.len(),
{
    if b.len() > 2 {
        lemma_base64_len(b.skip(3));
    }
}

/// Bytes are shown in the form that was asked for: by default, a mark in their place.
pub proof fn law_bytes_are_shown_as_asked(b: Vec<u8>, o: RenderOptions)
    ensures
        o.binary_format == BinaryFormat::Placeholder ==> csv_of(Cell::Binary(b), o) == CsvModel::Text(
            "BINARY_DATA"@,
        ),
        o.binary_format == BinaryFormat::Hex ==> csv_of(Cell::Binary(b), o) == CsvModel::Text(
            hex_text(b@),
        ),
        o.binary_format == BinaryFormat::Base64 ==> csv_of(Cell::Binary(b), o) == CsvModel::Text(
            base64_text(b@),
        ),
{
}

/// The items of a list that are shown are shown in their order, each as on its own.
pub proof fn law_items_keep_their_places(v: Seq<Cell>, n: nat, o: RenderOptions)
    requires
        n <= v.len(),
    ensures
        items_of(v, n, o) is Ok <==> forall|i: int| 0 <= i < n ==> json_of(#[trigger] v[i], o) is Ok,
        items_of(v, n, o) matches Ok(items) ==> items.len() == n && forall|i: int|
            0 <= i < n ==> #[trigger] items[i] == value_text(json_of(v[i], o)->Ok_0),
    decreases n,
{
    if n > 0 {
        law_items_keep_their_places(v, (n - 1) as nat, o);
    }
}

/// A list is shown whole where it is no longer than the limit. Otherwise the items
/// up to the limit are shown, and a last one says how many more there are.
pub proof fn law_lists_show_what_the_limit_allows(v: Vec<Cell>, o: RenderOptions)
    requires
        forall|i: int| 0 <= i < v@.len() ==> json_of(#[trigger] v@[i], o) is Ok,
    ensures
        ({
            let all = Seq::new(v@.len(), |i: int| value_text(json_of(v@[i], o)->Ok_0));
            &&& (o.max_list_items matches Some(k) ==> v@.len() <= k) ==> json_of(Cell::List(v), o)
                == Ok::<JsonModel, Seq<char>>(JsonModel::Raw(array(all)))
            &&& o.max_list_items matches Some(k) ==> (k < v@.len() ==> json_of(Cell::List(v), o)
                == Ok::<JsonModel, Seq<char>>(
                JsonModel::Raw(
                    array(
                        all.take(k as int).push(
                            value_text(
                                JsonModel::Text(
                                    "\u{2026} ("@ + dec((v@.len() - k) as nat) + " more)"@,
                                ),
                            ),
                        ),
                    ),
                ),
            ))
        }),
{
    let all = Seq::new(v@.len(), |i: int| value_text(json_of(v@[i], o)->Ok_0));
    law_items_keep_their_places(v@, v@.len(), o);
    assert(items_of(v@, v@.len(), o)->Ok_0 =~= all);
    if let Some(k) = o.max_list_items {
        if k < v@.len() {
            law_items_keep_their_places(v@, k as nat, o);
            assert(items_of(v@, k as nat, o)->Ok_0 =~= all.take(k as int));
        }
    }
}

pub proof fn lemma_new_key(members: Seq<(Seq<char>, Seq<char>)>, key: Seq<char>)
    requires
        forall|i: int| 0 <= i < members.len() ==> (#[trigger] members[i]).0 != key,
    ensures
        key_position(members, key) == members.len(),
    decreases members.len(),
{
    if members.len() > 0 {
        lemma_new_key(members.drop_first(), key);
    }
}

/// The members of an object of such names and values.
pub open spec fn shown_members(v: Seq<(String, Cell)>, o: RenderOptions) -> Seq<
    (Seq<char>, Seq<char>),
> {
    Seq::new(v.len(), |i: int| (v[i].0@, value_text(json_of(v[i].1, o)->Ok_0)))
}

proof fn lemma_members(v: Seq<(String, Cell)>, n: nat, o: RenderOptions)
    requires
        n <= v.len(),
        forall|i: int| 0 <= i < v.len() ==> json_of((#[trigger] v[i]).1, o) is Ok,
        forall|i: int, j: int|
            0 <= i < j < v.len() ==> (#[trigger] v[i]).0@ != (#[trigger] v[j]).0@,
    ensures
        members_of(v, n, o) == Ok::<Seq<(Seq<char>, Seq<char>)>, Seq<char>>(
            shown_members(v, o).take(n as int),
        ),
    decreases n,
{
    let all = shown_members(v, o);
    if n > 0 {
        lemma_members(v, (n - 1) as nat, o);
        let before = all.take(n - 1);
        assert forall|i: int| 0 <= i < before.len() implies (#[trigger] before[i]).0 != v[n - 1].0@ by {
            assert(v[i].0@ != v[n - 1].0@);
        }
        lemma_new_key(before, v[n - 1].0@);
        assert(all.take(n as int) =~= before.push(all[n - 1]));
    } else {
        assert(all.take(0) =~= Seq::empty());
    }
}

/// A struct is shown as an object of its fields in their order, each under its name
/// and shown as on its own.
pub proof fn law_structs_show_their_fields(v: Vec<(String, Cell)>, o: RenderOptions)
    requires
        forall|i: int| 0 <= i < v@.len() ==> json_of((#[trigger] v@[i]).1, o) is Ok,
        forall|i: int, j: int|
            0 <= i < j < v@.len() ==> (#[trigger] v@[i]).0@ != (#[trigger] v@[j]).0@,
    ensures
        json_of(Cell::Struct(v), o) == Ok::<JsonModel, Seq<char>>(
            JsonModel::Raw(object(shown_members(v@, o))),
        ),
{
    lemma_members(v@, v@.len(), o);
    assert(shown_members(v@, o).take(v@.len() as int) =~= shown_members(v@, o));
}

/// The members of an object of such keys and values.
pub open spec fn shown_entries(v: Seq<(Cell, Cell)>, o: RenderOptions) -> Seq<
    (Seq<char>, Seq<char>),
> {
    Seq::new(
        v.len(),
        |i: int| (key_text(json_of(v[i].0, o)->Ok_0), value_text(json_of(v[i].1, o)->Ok_0)),
    )
}

proof fn lemma_entries(v: Seq<(Cell, Cell)>, n: nat, o: RenderOptions)
    requires
        n <= v.len(),
        forall|i: int|
            0 <= i < v.len() ==> json_of((#[trigger] v[i]).0, o) is Ok && json_of(v[i].1, o) is Ok,
        forall|i: int, j: int|
            0 <= i < j < v.len() ==> (#[trigger] shown_entries(v, o)[i]).0 != (
            #[trigger] shown_entries(v, o)[j]).0,
    ensures
        entries_of(v, n, o) == Ok::<Seq<(Seq<char>, Seq<char>)>, Seq<char>>(
            shown_entries(v, o).take(n as int),
        ),
    decreases n,
{
    let all = shown_entries(v, o);
    if n > 0 {
        lemma_entries(v, (n - 1) as nat, o);
        let before = all.take(n - 1);
        assert(json_of(v[n - 1].0, o) is Ok);
        assert forall|i: int| 0 <= i < before.len() implies (#[trigger] before[i]).0 != all[n
            - 1].0 by {
            assert(all[i].0 != all[n - 1].0);
        }
        lemma_new_key(before, all[n - 1].0);
        assert(all.take(n as int) =~= before.push(all[n - 1]));
    } else {
        assert(all.take(0) =~= Seq::empty());
    }
}

/// A map is shown as an object of its entries in their order, each under the text of
/// its key.
pub proof fn law_maps_show_their_entries(v: Vec<(Cell, Cell)>, o: RenderOptions)
    requires
        forall|i: int|
            0 <= i < v@.len() ==> json_of((#[trigger] v@[i]).0, o) is Ok && json_of(v@[i].1, o) is Ok,
        forall|i: int, j: int|
            0 <= i < j < v@.len() ==> (#[trigger] shown_entries(v@, o)[i]).0 != (
            #[trigger] shown_entries(v@, o)[j]).0,
    ensures
        json_of(Cell::Mapping(v), o) == Ok::<JsonModel, Seq<char>>(
            JsonModel::Raw(object(shown_entries(v@, o))),
        ),
{
    lemma_entries(v@, v@.len(), o);
    assert(shown_entries(v@, o).take(v@.len() as int) =~= shown_entries(v@, o));
}

/// Where a key is given twice, the later value takes the place of the earlier one.
pub proof fn law_later_values_take_the_place(
    members: Seq<(Seq<char>, Seq<char>)>,
    key: Seq<char>,
    value: Seq<char>,
    other: Seq<char>,
)
    ensures
        put(put(members, key, value), key, other) == put(members, key, other),
        put(members, key, value).contains((key, value)),
        put(members, key, value).len() <= members.len() + 1,
        forall|m: (Seq<char>, Seq<char>)|
            members.contains(m) && m.0 != key ==> #[trigger] put(members, key, value).contains(m),
{
    lemma_first_key(members, key);
    let at = key_position(members, key) as int;
    let one = put(members, key, value);
    if at < members.len() {
        assert(one[at] == (key, value));
        lemma_key_at(one, key, at);
        assert(put(one, key, other) =~= put(members, key, other));
    } else {
        assert(one[at] == (key, value));
        lemma_key_at(one, key, at);
        assert(put(one, key, other) =~= put(members, key, other));
    }
    assert forall|m: (Seq<char>, Seq<char>)|
        members.contains(m) && m.0 != key implies #[trigger] one.contains(m) by {
        let i = choose|i: int| 0 <= i < members.len() && members[i] == m;
        assert(one[i] == m);
    }
}

proof fn lemma_first_key(members: Seq<(Seq<char>, Seq<char>)>, key: Seq<char>)
    ensures
        key_position(members, key) <= members.len(),
        key_position(members, key) < members.len() ==> members[key_position(members, key) as int].0
            == key,
        forall|i: int| 0 <= i < key_position(members, key) ==> (#[trigger] members[i]).0 != key,
    decreases members.len(),
{
    if members.len() > 0 && members[0].0 != key {
        let rest = members.drop_first();
        lemma_first_key(rest, key);
        assert forall|i: int| 0 <= i < key_position(members, key) implies (#[trigger] members[i]).0
            != key by {
            if i > 0 {
                assert(rest[i - 1].0 != key);
            }
        }
    }
}

proof fn lemma_key_at(members: Seq<(Seq<char>, Seq<char>)>, key: Seq<char>, n: int)
    requires
        0 <= n < members.len(),
        members[n].0 == key,
        forall|i: int| 0 <= i < n ==> (#[trigger] members[i]).0 != key,
    ensures
        key_position(members, key) == n,
{
    lemma_first_key(members, key);
    let p = key_position(members, key) as int;
    if p < n {
        assert(members[p].0 != key);
    } else if n < p {
        assert(members[n].0 != key);
    }
}

/// A value that no text format represents is refused with its type.
pub proof fn law_unsupported_values_are_named(label: String, o: RenderOptions)
    ensures
        json_of(Cell::Unsupported(label), o) == Err::<JsonModel, Seq<char>>(
            "unsupported arrow type in JSONL output: "@ + label@,
        ),
        table_of(Cell::Unsupported(label), o) == Err::<Seq<char>, Seq<char>>(
            "unsupported arrow type in JSONL output: "@ + label@,
        ),
{
}

} // verus!
