//! Value counts.
use std::sync::Arc;

use arrs::cell::{Cell, Column};
use arrs::cli::{BinaryFormat, Format, FreqSort};
use arrs::commands::freq::{build_batch, percent, validate_column, validate_freq_type, Counts};
use arrs::error::Error;
use arrs::listing::Listing;
use arrs::output::table::TableStyle;
use arrs::output::{make_writer, RenderOptions, RowWriter};
use arrs::schema::{DataType, Field, Kind, Schema};

fn ty(kind: Kind, label: &str) -> DataType {
    DataType { kind, debug: label.to_string(), display: label.to_string() }
}

fn plain() -> RenderOptions {
    RenderOptions::new(BinaryFormat::Placeholder)
}

fn labels(values: &[Option<&str>]) -> Column {
    Column {
        data_type: ty(Kind::Utf8, "Utf8"),
        cells: values
            .iter()
            .map(|v| match v {
                Some(s) => Cell::Text(s.to_string()),
                None => Cell::Null,
            })
            .collect(),
    }
}

fn count(fragments: &[&[Option<&str>]], sort: FreqSort, limit: Option<u64>) -> Listing {
    let mut counts = Counts::new();
    for f in fragments {
        counts.update("label", &labels(f), plain()).unwrap();
    }
    build_batch(counts, sort, limit)
}

fn rows(l: &Listing) -> Vec<(String, u64, String)> {
    (0..l.batch.rows)
        .map(|i| {
            match (&l.batch.columns[0].cells[i], &l.batch.columns[1].cells[i], &l.batch.columns[2].cells[i]) {
                (Cell::Text(v), Cell::UInt(n), Cell::Text(p)) => (v.clone(), *n, p.clone()),
                other => panic!("{other:?}"),
            }
        })
        .collect()
}

fn row(v: &str, n: u64, p: &str) -> (String, u64, String) {
    (v.to_string(), n, p.to_string())
}

fn values(l: &Listing) -> Vec<String> {
    rows(l).into_iter().map(|(v, _, _)| v).collect()
}

fn render(l: &Listing, format: Format) -> String {
    let mut out = String::new();
    let mut w = make_writer(format, plain(), TableStyle::Plain).unwrap();
    w.start(&l.schema, &mut out).unwrap();
    w.write_batch(&l.batch, &mut out).unwrap();
    w.finish(&mut out).unwrap();
    out
}

// spam x4, ham x3, NULL x2, eggs x1 (total 10)
const FRAGMENTS: &[&[Option<&str>]] = &[
    &[Some("spam"), Some("ham"), None, Some("spam")],
    &[Some("ham"), Some("spam"), None],
    &[Some("eggs"), Some("spam"), Some("ham")],
];

#[test]
fn known_distribution_sorted_by_count_with_null_row() {
    assert_eq!(
        rows(&count(FRAGMENTS, FreqSort::Count, None)),
        vec![
            row("spam", 4, "40.0%"),
            row("ham", 3, "30.0%"),
            row("NULL", 2, "20.0%"),
            row("eggs", 1, "10.0%"),
        ]
    );
}

#[test]
fn sort_by_value_orders_ascending_null_last() {
    let l = count(FRAGMENTS, FreqSort::Value, None);
    assert_eq!(values(&l), vec!["eggs", "ham", "spam", "NULL"]);
}

#[test]
fn tie_break_is_deterministic_by_value() {
    // bravo x2, alpha x2 -> alpha before bravo on the count tie-break.
    let l = count(
        &[&[Some("bravo"), Some("alpha")], &[Some("alpha"), Some("bravo")]],
        FreqSort::Count,
        None,
    );
    assert_eq!(values(&l), vec!["alpha", "bravo"]);
}

#[test]
fn limit_folds_remainder_into_other_row() {
    // Top 2 by count are spam(4) and ham(3); remaining NULL(2)+eggs(1)=3.
    assert_eq!(
        rows(&count(FRAGMENTS, FreqSort::Count, Some(2))),
        vec![row("spam", 4, "40.0%"), row("ham", 3, "30.0%"), row("<other>", 3, "30.0%")]
    );
}

#[test]
fn limit_at_or_above_cardinality_has_no_other_row() {
    // 4 distinct rows (incl. NULL); a limit of 4 shows all, none folded.
    let l = count(FRAGMENTS, FreqSort::Count, Some(4));
    assert_eq!(values(&l), vec!["spam", "ham", "NULL", "eggs"]);
    assert!(!values(&l).contains(&"<other>".to_string()));
}

#[test]
fn where_filter_composes_over_subset() {
    // Only the 4 "spam" rows survive the filter.
    let l = count(&[&[Some("spam"); 4]], FreqSort::Count, None);
    assert_eq!(rows(&l), vec![row("spam", 4, "100.0%")]);
}

#[test]
fn empty_dataset_yields_header_only() {
    let l = count(&[], FreqSort::Count, None);
    assert_eq!(l.batch.rows, 0);
    assert_eq!(render(&l, Format::Csv), "value,count,percent\n");
    assert_eq!(render(&l, Format::Jsonl), "");
}

#[test]
fn renders_in_all_three_formats() {
    let l = count(FRAGMENTS, FreqSort::Count, None);
    let csv = render(&l, Format::Csv);
    assert_eq!(csv.lines().next().unwrap(), "value,count,percent");
    assert!(csv.contains("spam,4,40.0%"));
    assert!(csv.contains("NULL,2,20.0%"));

    let jsonl = render(&l, Format::Jsonl);
    let first: serde_json::Value = serde_json::from_str(jsonl.lines().next().unwrap()).unwrap();
    assert_eq!(first["value"], "spam");
    assert_eq!(first["count"], 4);
    assert_eq!(first["percent"], "40.0%");

    let table = render(&l, Format::Table);
    assert!(table.contains("| value"), "table header missing:\n{table}");
    assert!(table.contains("| spam"), "table row missing:\n{table}");
}

#[test]
fn integer_column_counts_and_temporal_ok() {
    let mut counts = Counts::new();
    for ids in [[1, 1, 2], [2, 2, 3]] {
        let column = Column {
            data_type: ty(Kind::Int32, "Int32"),
            cells: ids.iter().map(|i| Cell::Int(*i)).collect(),
        };
        counts.update("id", &column, plain()).unwrap();
    }
    assert_eq!(
        rows(&build_batch(counts, FreqSort::Count, None)),
        vec![row("2", 3, "50.0%"), row("1", 2, "33.3%"), row("3", 1, "16.7%")]
    );
}

fn list() -> DataType {
    ty(Kind::List(Arc::new(Field::new("item", ty(Kind::Utf8, "Utf8"), true))), "List(Utf8)")
}

#[test]
fn nested_column_is_rejected() {
    let schema = Schema::new(vec![Field::new("tags", list(), true)]);
    let err = validate_column(&schema, "tags").unwrap_err();
    assert!(matches!(err, Error::UnsupportedFreqType { .. }));
}

#[test]
fn freq_on_nested_column_fails_cleanly() {
    let err = validate_freq_type("tags", &list()).unwrap_err();
    assert!(err.message().contains("freq cannot count"), "{}", err.message());
}

#[test]
fn binary_column_is_rejected() {
    let schema = Schema::new(vec![
        Field::new("id", ty(Kind::Int32, "Int32"), false),
        Field::new("data", ty(Kind::Binary, "Binary"), true),
    ]);
    let err = validate_column(&schema, "data").unwrap_err();
    assert!(matches!(err, Error::UnsupportedFreqType { .. }));
    assert_eq!(validate_column(&schema, "id").unwrap(), 0);
}

#[test]
fn freq_unknown_column_errors() {
    let schema = Schema::new(vec![Field::new("label", ty(Kind::Utf8, "Utf8"), true)]);
    let err = validate_column(&schema, "nope").unwrap_err();
    assert!(matches!(err, Error::UnknownColumn { .. }));
}

const NAMES: &[Option<&str>] = &[Some("alice"), Some("bob"), None, Some("dan"), Some("eve")];

#[test]
fn freq_defaults_to_table_format() {
    let table = render(&count(&[NAMES], FreqSort::Count, None), Format::Table);
    assert!(table.contains("| value"), "header missing:\n{table}");
    assert!(table.contains("| count"), "header missing:\n{table}");
    assert!(table.contains("| alice"), "value row missing:\n{table}");
    // The one null cell becomes an explicit NULL row.
    assert!(table.contains("| NULL"), "NULL row missing:\n{table}");
}

#[test]
fn freq_csv_reports_counts_and_percent() {
    // Every name is distinct (4 present + 1 null over 5 rows) → each 20%.
    let csv = render(&count(&[NAMES], FreqSort::Value, None), Format::Csv);
    let lines: Vec<&str> = csv.lines().collect();
    assert_eq!(lines[0], "value,count,percent");
    assert_eq!(lines[1], "alice,1,20.0%");
    // NULL sorts last.
    assert_eq!(*lines.last().unwrap(), "NULL,1,20.0%");
}

#[test]
fn freq_where_composes_over_filtered_subset() {
    let csv = render(&count(&[&NAMES[3..]], FreqSort::Count, None), Format::Csv);
    let mut data: Vec<&str> = csv.lines().skip(1).collect();
    data.sort_unstable();
    assert_eq!(data, vec!["dan,1,50.0%", "eve,1,50.0%"]);
}

#[test]
fn counts_are_shares_of_the_total() {
    assert_eq!(percent(0, 0), "0.0%");
    assert_eq!(percent(1, 3), "33.3%");
    assert_eq!(percent(1, 8), "12.5%");
    assert_eq!(percent(9999, 10000), "100.0%");
    let l = count(FRAGMENTS, FreqSort::Count, Some(1));
    assert_eq!(rows(&l).iter().map(|r| r.1).sum::<u64>(), 10);
}

#[test]
fn a_literal_null_text_is_not_a_null() {
    let l = count(&[&[Some("NULL"), None, None]], FreqSort::Count, None);
    assert_eq!(rows(&l), vec![row("NULL", 2, "66.7%"), row("NULL", 1, "33.3%")]);
}
