//! Single values as text.
use std::sync::Arc;

use arrs::cell::{Cell, Float};
use arrs::cli::BinaryFormat;
use arrs::dataset::Instant;
use arrs::json::{json_number_from_str, json_number_or, quote, JsonValue};
use arrs::output::temporal::{
    format_date32, format_date64, format_duration, format_interval_day_time,
    format_interval_month_day_nano, format_interval_year_month, format_log_time, format_rfc3339,
    format_time32, format_time64, format_timestamp, parse_fixed_offset, show_in_zone,
    text_or_number, text_or_raw,
};
use arrs::output::value::{
    csv_cell, encode_binary, format_decimal128_csv, format_decimal256_csv, hex_escape,
    insert_decimal_point, json_value, table_cell,
};
use arrs::output::RenderOptions;
use arrs::schema::{DataType, Field, Kind, TimeUnit};
use base64::Engine as _;

fn ty(kind: Kind, label: &str) -> DataType {
    DataType { kind, debug: label.to_string(), display: label.to_string() }
}

fn hex() -> RenderOptions {
    RenderOptions::new(BinaryFormat::Hex)
}

fn csv(kind: Kind, cell: Cell) -> Option<String> {
    csv_cell(&ty(kind, "t"), &cell, hex()).unwrap()
}

fn json(cell: Cell) -> String {
    json_value(&cell, hex()).unwrap().text()
}

// ---------- dates and times ----------

#[test]
fn dates_are_iso() {
    assert_eq!(format_date32(0), "1970-01-01");
    assert_eq!(format_date32(-1), "1969-12-31");
    assert_eq!(format_date64(86_400_000 * 365), "1971-01-01");
    assert_eq!(format_date64(-1), "1969-12-31");
    // Out of the calendar: the bare number.
    assert_eq!(format_date32(i32::MAX), i32::MAX.to_string());
}

#[test]
fn times_show_the_digits_of_their_unit() {
    assert_eq!(format_time32(3_661, TimeUnit::Second), "01:01:01");
    assert_eq!(format_time32(3_661_007, TimeUnit::Millisecond), "01:01:01.007");
    assert_eq!(format_time64(1_000_001, TimeUnit::Microsecond), "00:00:01.000001");
    assert_eq!(format_time64(1, TimeUnit::Nanosecond), "00:00:00.000000001");
}

#[test]
fn timestamps_follow_their_zone() {
    let t = 1_700_000_000;
    assert_eq!(format_timestamp(t, TimeUnit::Second, &None), "2023-11-14T22:13:20");
    assert_eq!(
        format_timestamp(t, TimeUnit::Second, &Some("+02:00".to_string())),
        "2023-11-15T00:13:20+02:00"
    );
    assert_eq!(
        format_timestamp(t * 1000 + 5, TimeUnit::Millisecond, &Some("-0530".to_string())),
        "2023-11-14T16:43:20.005-05:30"
    );
    assert_eq!(
        format_timestamp(-1, TimeUnit::Microsecond, &None),
        "1969-12-31T23:59:59.999999"
    );
}

#[test]
fn offsets_are_read() {
    assert_eq!(parse_fixed_offset("+02:00"), Some(7200));
    assert_eq!(parse_fixed_offset("-05:30"), Some(-19_800));
    assert_eq!(parse_fixed_offset("Europe/Berlin"), None);
}

#[test]
fn durations_and_intervals_are_iso() {
    assert_eq!(format_duration(0, TimeUnit::Second), "PT0S");
    assert_eq!(format_duration(3_661, TimeUnit::Second), "PT1H1M1S");
    assert_eq!(format_duration(1_500, TimeUnit::Millisecond), "PT1.5S");
    assert_eq!(format_duration(-7_200, TimeUnit::Second), "-PT2H");
    // Whole seconds are rounded down and the fraction counts up from there.
    assert_eq!(format_duration(-1_500, TimeUnit::Millisecond), "-PT2.5S");
    assert_eq!(format_interval_year_month(14), "P1Y2M");
    assert_eq!(format_interval_day_time(1, 1_500), "P1DT1.500S");
    assert_eq!(format_interval_month_day_nano(13, 2, 1_000_000_000), "P13M2DT1S");
}

#[test]
fn instants_are_rfc_3339() {
    let t = Instant { secs: 1_700_000_000, nanos: 500_000_000 };
    assert_eq!(format_rfc3339(t), "2023-11-14T22:13:20.500+00:00");
    assert_eq!(format_log_time(t), "2023-11-14T22:13:20Z");
}

// ---------- decimals ----------

#[test]
fn decimals_place_their_point() {
    assert_eq!(format_decimal128_csv(12_345, 2), "123.45");
    assert_eq!(format_decimal128_csv(-5, 3), "-0.005");
    assert_eq!(format_decimal128_csv(7, 0), "7");
    assert_eq!(format_decimal128_csv(7, -2), "700");
    assert_eq!(format_decimal256_csv("-123456789012345678901234567890123456789012", 4),
        "-12345678901234567890123456789012345678.9012");
    assert_eq!(insert_decimal_point("100", 1), "10.0");
}

// ---------- bytes ----------

#[test]
fn bytes_are_encoded() {
    assert_eq!(hex_escape(&[0, 10, 255]), "\\x00\\x0a\\xff");
    assert_eq!(encode_binary(b"hi", BinaryFormat::Base64), "aGk=");
    assert_eq!(encode_binary(b"hi", BinaryFormat::Placeholder), "BINARY_DATA");
    assert_eq!(encode_binary(&[], BinaryFormat::Hex), "");
    let bytes: Vec<u8> = (0..=255).collect();
    assert_eq!(
        encode_binary(&bytes, BinaryFormat::Base64),
        base64::engine::general_purpose::STANDARD.encode(&bytes)
    );
}

// ---------- cells ----------

#[test]
fn csv_cells_are_plain_text() {
    assert_eq!(csv(Kind::Boolean, Cell::Boolean(true)).as_deref(), Some("true"));
    assert_eq!(csv(Kind::Int8, Cell::Int(-8)).as_deref(), Some("-8"));
    assert_eq!(csv(Kind::UInt64, Cell::UInt(u64::MAX)).as_deref(), Some("18446744073709551615"));
    assert_eq!(csv(Kind::Utf8, Cell::Text("a\"b".to_string())).as_deref(), Some("a\"b"));
    assert_eq!(csv(Kind::Utf8, Cell::Null), None);
    assert_eq!(csv(Kind::Date32, Cell::Date32(1)).as_deref(), Some("1970-01-02"));
    let list = ty(Kind::List(Arc::new(Field::new("i", ty(Kind::Int8, "Int8"), true))), "List(Int8)");
    assert!(csv_cell(&list, &Cell::List(vec![]), hex()).is_err());
}

#[test]
fn json_strings_are_those_of_a_json_writer() {
    for s in ["", "plain", "q\"q", "back\\slash", "\u{0}\u{1f}\u{7f}", "日本\n\t\r", "/"] {
        assert_eq!(quote(s), serde_json::to_string(s).unwrap());
    }
}

#[test]
fn json_cells_nest() {
    let row = Cell::Struct(vec![
        ("a".to_string(), Cell::List(vec![Cell::Int(1), Cell::Null])),
        ("b".to_string(), Cell::Boolean(false)),
        ("a".to_string(), Cell::Text("later".to_string())),
    ]);
    // A repeated member keeps its first place and its last value.
    assert_eq!(json(row), "{\"a\":\"later\",\"b\":false}");
    assert_eq!(json(Cell::Dictionary(Box::new(Cell::Text("x".to_string())))), "\"x\"");
    // The raw unscaled integer.
    assert_eq!(json(Cell::Decimal(1_230, 2)), "1230");
    assert_eq!(json(Cell::Binary(vec![1])), "\"\\\\x01\"");
}

#[test]
fn numbers_keep_their_digits() {
    assert_eq!(json_number_from_str("0.1230").text(), "0.1230");
    assert_eq!(json_number_from_str("123456789012345678901234567890").text(),
        "123456789012345678901234567890");
    assert!(matches!(json_number_from_str("abc"), JsonValue::Text(_)));
}

#[test]
fn tables_show_json_for_nested_cells_only() {
    assert_eq!(table_cell(&Cell::Text("t".to_string()), hex()).unwrap(), "t");
    assert_eq!(table_cell(&Cell::Null, hex()).unwrap(), "");
    assert_eq!(table_cell(&Cell::List(vec![Cell::Text("t".to_string())]), hex()).unwrap(), "[\"t\"]");
}

#[test]
fn floats_that_are_no_numbers_are_named() {
    let f = |v: f64| {
        Cell::Float(Float {
            bits: v.to_bits(),
            shortest: String::new(),
            wide: String::new(),
            json: String::new(),
            fixed: String::new(),
        })
    };
    assert_eq!(csv(Kind::Float64, f(f64::NAN)).as_deref(), Some("NaN"));
    assert_eq!(csv(Kind::Float64, f(f64::NEG_INFINITY)).as_deref(), Some("-inf"));
    assert_eq!(json(f(f64::NEG_INFINITY)), "\"-Infinity\"");
    assert_eq!(json(f(f64::NAN)), "\"NaN\"");
}

// ---------- type labels ----------

#[test]
fn labels_of_listing_types_are_those_of_arrow() {
    let text = arrow_schema::DataType::Utf8;
    let micros = arrow_schema::DataType::Timestamp(
        arrow_schema::TimeUnit::Microsecond,
        Some("UTC".into()),
    );
    let list = arrow_schema::DataType::List(Arc::new(arrow_schema::Field::new("item", arrow_schema::DataType::Utf8, true)));
    let same = |ours: DataType, theirs: arrow_schema::DataType| {
        assert_eq!(ours.debug, format!("{theirs:?}"));
        assert_eq!(ours.display, theirs.to_string());
    };
    same(DataType::utf8(), text);
    same(DataType::uint64(), arrow_schema::DataType::UInt64);
    same(DataType::float64(), arrow_schema::DataType::Float64);
    same(DataType::utc_micros(), micros);
    same(DataType::text_list(), list);
}

#[test]
fn dates_beyond_the_calendar_are_bare_numbers() {
    assert_eq!(format_date32(95_026_236), "+262142-12-31");
    assert_eq!(format_date32(95_026_237), "95026237");
    assert_eq!(format_date32(-96_465_292), "-262143-01-01");
    assert_eq!(format_date32(-96_465_293), "-96465293");
    assert_eq!(format_date64(8_210_266_876_799_999), "+262142-12-31");
    assert_eq!(format_date64(8_210_266_876_800_000), "8210266876800000");
}

#[test]
fn timestamps_beyond_the_calendar_are_bare_seconds() {
    let unit = TimeUnit::Second;
    assert_eq!(format_timestamp(8_210_266_876_799, unit, &None), "+262142-12-31T23:59:59");
    assert_eq!(format_timestamp(8_210_266_876_800, unit, &None), "8210266876800.000000000");
    assert_eq!(format_timestamp(-8_334_601_228_800, unit, &None), "-262143-01-01T00:00:00");
    assert_eq!(format_timestamp(-8_334_601_228_801, unit, &None), "-8334601228801.000000000");
    let east = Some("+01:00".to_string());
    assert!(format_timestamp(8_210_266_876_799, unit, &east).ends_with("+01:00"));
    assert_eq!(format_timestamp(8_210_266_876_800, unit, &east), "8210266876800.000000000+01:00");
    let west = Some("-01:00".to_string());
    assert!(format_timestamp(-8_334_601_228_800, unit, &west).ends_with("-01:00"));
    assert_eq!(
        format_timestamp(-8_334_601_228_801, unit, &west),
        "-8334601228801.000000000-01:00"
    );
}

#[test]
fn missing_texts_give_way_to_numbers() {
    assert_eq!(text_or_number(Some("2024-01-02".to_string()), 7), "2024-01-02");
    assert_eq!(text_or_number(None, -7), "-7");
    assert_eq!(text_or_raw(Some("t".to_string()), 5, 6), "t");
    assert_eq!(text_or_raw(None, 5, 6), "5.000000006");
}

#[test]
fn zones_pick_the_text_that_is_shown() {
    let utc = || Some("2024-01-02T03:04:05".to_string());
    let local = || Some("2024-01-02T05:04:05+02:00".to_string());
    assert_eq!(show_in_zone(utc(), local(), 1, 2, "+02:00"), "2024-01-02T05:04:05+02:00");
    assert_eq!(
        show_in_zone(utc(), None, 1, 2, "Europe/Berlin"),
        "2024-01-02T03:04:05Z[Europe/Berlin]"
    );
    assert_eq!(show_in_zone(None, None, 1, 2, "+02:00"), "1.000000002+02:00");
    assert_eq!(show_in_zone(None, None, 1, 2, "Europe/Berlin"), "1.000000002Europe/Berlin");
}

#[test]
fn unread_numbers_stay_text() {
    assert_eq!(json_number_or(Some("1e5".to_string()), "1E5").text(), "1e5");
    assert_eq!(json_number_or(None, "x").text(), "\"x\"");
}

#[test]
fn numbers_without_an_exponent_keep_their_digits() {
    for s in [
        "0",
        "-0",
        "-0.00",
        "0.1230",
        "-12.50",
        "123456789012345678901234567890123456789012",
        "123456789012345678901234567890.50",
    ] {
        match json_number_from_str(s) {
            JsonValue::Raw(n) => assert_eq!(n, s),
            JsonValue::Text(t) => panic!("{t}"),
        }
    }
    for s in ["", "-", "01", "1.", ".5", "+1", "1.5.2", "1 "] {
        match json_number_from_str(s) {
            JsonValue::Text(t) => assert_eq!(t, s),
            JsonValue::Raw(n) => panic!("{s}: {n}"),
        }
    }
}
