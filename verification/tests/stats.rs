//! Per-column statistics.
use std::sync::Arc;

use arrs::cell::{Batch, Cell, Column, Float};
use arrs::cli::{BinaryFormat, Format};
use arrs::dataset::ColumnStats;
use arrs::error::Error;
use arrs::output::table::TableStyle;
use arrs::output::{make_writer, RenderOptions, RowWriter};
use arrs::schema::{DataType, Field, Kind, Schema, TimeUnit};
use arrs::stats::distinct::{Distinct, DistinctKey, DISTINCT_CAP};
use arrs::stats::{
    accumulators, canonical_float_bits, fold_batch, output_schema, projected_fields,
    to_record_batch, update_ord,
};

fn lib_unit(u: &arrow_schema::TimeUnit) -> TimeUnit {
    match u {
        arrow_schema::TimeUnit::Second => TimeUnit::Second,
        arrow_schema::TimeUnit::Millisecond => TimeUnit::Millisecond,
        arrow_schema::TimeUnit::Microsecond => TimeUnit::Microsecond,
        arrow_schema::TimeUnit::Nanosecond => TimeUnit::Nanosecond,
    }
}

fn lib_field(f: &arrow_schema::Field) -> Field {
    Field::new(f.name(), lib_type(f.data_type()), f.is_nullable())
}

fn lib_type(t: &arrow_schema::DataType) -> DataType {
    let kind = match t {
        arrow_schema::DataType::Boolean => Kind::Boolean,
        arrow_schema::DataType::Int32 => Kind::Int32,
        arrow_schema::DataType::Int64 => Kind::Int64,
        arrow_schema::DataType::UInt64 => Kind::UInt64,
        arrow_schema::DataType::Float32 => Kind::Float32,
        arrow_schema::DataType::Float64 => Kind::Float64,
        arrow_schema::DataType::Utf8 => Kind::Utf8,
        arrow_schema::DataType::Binary => Kind::Binary,
        arrow_schema::DataType::Timestamp(unit, tz) => {
            Kind::Timestamp(lib_unit(unit), tz.as_ref().map(|s| s.to_string()))
        }
        arrow_schema::DataType::List(item) => Kind::List(Arc::new(lib_field(item))),
        arrow_schema::DataType::FixedSizeList(item, n) => {
            Kind::FixedSizeList(Arc::new(lib_field(item)), *n)
        }
        arrow_schema::DataType::Struct(fields) => {
            Kind::Struct(Arc::new(fields.iter().map(|f| lib_field(f)).collect()))
        }
        other => panic!("{other}"),
    };
    DataType { kind, debug: format!("{t:?}"), display: t.to_string() }
}

fn texts(v: f64) -> Float {
    Float {
        bits: v.to_bits(),
        shortest: v.to_string(),
        wide: v.to_string(),
        json: serde_json::Number::from_f64(v).map(|n| n.to_string()).unwrap_or_default(),
        fixed: String::new(),
    }
}

fn float(v: f64) -> Cell {
    Cell::Float(texts(v))
}

/// Mean and sample standard deviation of a column's numbers.
fn moments(batches: &[Batch], at: usize) -> (Float, Float) {
    let (mut n, mut mean, mut m2) = (0.0_f64, 0.0_f64, 0.0_f64);
    for b in batches {
        for c in &b.columns[at].cells {
            let x = match c {
                Cell::Int(i) => *i as f64,
                Cell::UInt(i) => *i as f64,
                Cell::Float(f) => f64::from_bits(f.bits),
                _ => continue,
            };
            n += 1.0;
            let delta = x - mean;
            mean += delta / n;
            m2 += delta * (x - mean);
        }
    }
    (texts(mean), texts((m2 / (n - 1.0)).sqrt()))
}

fn compute(fields: &Vec<Field>, batches: &[Batch]) -> Vec<ColumnStats> {
    let mut accs = accumulators(fields);
    for b in batches {
        fold_batch(&mut accs, b);
    }
    accs.into_iter()
        .enumerate()
        .map(|(at, acc)| {
            let (mean, stddev) = moments(batches, at);
            acc.finish(mean, stddev)
        })
        .collect()
}

fn number(f: &Option<Float>) -> Option<f64> {
    f.as_ref().map(|f| f64::from_bits(f.bits))
}

fn col<'a>(stats: &'a [ColumnStats], name: &str) -> &'a ColumnStats {
    stats.iter().find(|s| s.column == name).unwrap()
}

fn fields(list: Vec<arrow_schema::Field>) -> Vec<Field> {
    list.iter().map(lib_field).collect()
}

fn mixed_fields() -> Vec<Field> {
    fields(vec![
        arrow_schema::Field::new("id", arrow_schema::DataType::Int32, false),
        arrow_schema::Field::new("name", arrow_schema::DataType::Utf8, true),
        arrow_schema::Field::new("score", arrow_schema::DataType::Float64, true),
    ])
}

fn batch(fields: &[Field], columns: Vec<Vec<Cell>>) -> Batch {
    let rows = columns[0].len();
    Batch {
        columns: fields
            .iter()
            .zip(columns)
            .map(|(f, cells)| Column { data_type: f.data_type.clone(), cells })
            .collect(),
        rows,
    }
}

fn text(s: Option<&str>) -> Cell {
    match s {
        Some(s) => Cell::Text(s.to_string()),
        None => Cell::Null,
    }
}

fn opt_float(v: Option<f64>) -> Cell {
    match v {
        Some(v) => float(v),
        None => Cell::Null,
    }
}

fn mixed(rows: std::ops::Range<usize>) -> Batch {
    let names = [Some("alice"), Some("bob"), None, Some("dan"), Some("eve")];
    let scores = [Some(10.0), Some(20.0), Some(30.0), None, Some(40.0)];
    batch(
        &mixed_fields(),
        vec![
            rows.clone().map(|i| Cell::Int(i as i64 + 1)).collect(),
            rows.clone().map(|i| text(names[i])).collect(),
            rows.map(|i| opt_float(scores[i])).collect(),
        ],
    )
}

#[test]
fn numeric_string_known_statistics() {
    let stats = compute(&mixed_fields(), &[mixed(0..5)]);

    let id = col(&stats, "id");
    assert_eq!(id.data_type, "Int32");
    assert_eq!(id.count, 5);
    assert_eq!(id.nulls, 0);
    assert_eq!(id.min.as_deref(), Some("1"));
    assert_eq!(id.max.as_deref(), Some("5"));
    assert_eq!(number(&id.mean), Some(3.0));
    // sample stddev of 1..5 = sqrt(2.5)
    assert!((number(&id.stddev).unwrap() - 2.5_f64.sqrt()).abs() < 1e-12);
    assert_eq!(id.distinct.as_deref(), Some("5"));

    let name = col(&stats, "name");
    assert_eq!(name.data_type, "Utf8");
    assert_eq!(name.count, 4);
    assert_eq!(name.nulls, 1);
    assert_eq!(name.min.as_deref(), Some("alice"));
    assert_eq!(name.max.as_deref(), Some("eve"));
    assert!(name.mean.is_none());
    assert!(name.stddev.is_none());
    assert_eq!(name.distinct.as_deref(), Some("4"));

    let score = col(&stats, "score");
    assert_eq!(score.count, 4);
    assert_eq!(score.nulls, 1);
    assert_eq!(score.min.as_deref(), Some("10"));
    assert_eq!(score.max.as_deref(), Some("40"));
    assert_eq!(number(&score.mean), Some(25.0));
    // sample stddev of [10,20,30,40] = sqrt(500/3)
    assert!((number(&score.stddev).unwrap() - (500.0_f64 / 3.0).sqrt()).abs() < 1e-9);
    assert_eq!(score.distinct.as_deref(), Some("4"));
}

#[test]
fn multi_fragment_folds_across_batches() {
    let stats = compute(&mixed_fields(), &[mixed(0..2), mixed(2..3), mixed(3..5)]);
    let id = col(&stats, "id");
    assert_eq!(id.count, 5);
    assert_eq!(id.min.as_deref(), Some("1"));
    assert_eq!(id.max.as_deref(), Some("5"));
    assert_eq!(number(&id.mean), Some(3.0));
    assert_eq!(id.distinct.as_deref(), Some("5"));
    let score = col(&stats, "score");
    assert_eq!(score.count, 4);
    assert_eq!(number(&score.mean), Some(25.0));
    assert_eq!(score.distinct.as_deref(), Some("4"));
}

fn only(name: &str, t: arrow_schema::DataType) -> Vec<Field> {
    fields(vec![arrow_schema::Field::new(name, t, true)])
}

#[test]
fn nan_floats_skip_minmax_but_taint_mean() {
    let f = only("score", arrow_schema::DataType::Float64);
    let b = batch(&f, vec![vec![float(1.0), float(f64::NAN), float(3.0)]]);
    let stats = compute(&f, &[b]);
    let score = col(&stats, "score");
    // NaN is a non-null value.
    assert_eq!(score.count, 3);
    assert_eq!(score.nulls, 0);
    // min/max ignore NaN → the real numeric range.
    assert_eq!(score.min.as_deref(), Some("1"));
    assert_eq!(score.max.as_deref(), Some("3"));
    // mean/stddev are tainted to NaN.
    assert!(number(&score.mean).unwrap().is_nan());
    assert!(number(&score.stddev).unwrap().is_nan());
    // distinct counts NaN once: {1, NaN, 3}.
    assert_eq!(score.distinct.as_deref(), Some("3"));
}

#[test]
fn floats_are_ordered_by_value() {
    let f = only("x", arrow_schema::DataType::Float64);
    let b = batch(
        &f,
        vec![vec![float(-1.5), float(f64::INFINITY), float(-200.0), float(0.0), float(-0.0)]],
    );
    let stats = compute(&f, &[b]);
    assert_eq!(stats[0].min.as_deref(), Some("-200"));
    assert_eq!(stats[0].max.as_deref(), Some("inf"));
    assert_eq!(stats[0].distinct.as_deref(), Some("4"));
}

#[test]
fn all_null_column() {
    let f = only("name", arrow_schema::DataType::Utf8);
    let b = batch(&f, vec![vec![Cell::Null, Cell::Null, Cell::Null]]);
    let stats = compute(&f, &[b]);
    let name = col(&stats, "name");
    assert_eq!(name.count, 0);
    assert_eq!(name.nulls, 3);
    assert_eq!(name.min, None);
    assert_eq!(name.max, None);
    assert_eq!(name.distinct.as_deref(), Some("0"));
}

#[test]
fn empty_dataset_yields_zero_count_rows() {
    let stats = compute(&mixed_fields(), &[mixed(0..0)]);
    assert_eq!(stats.len(), 3);
    for s in &stats {
        assert_eq!(s.count, 0, "column {} count", s.column);
        assert_eq!(s.nulls, 0, "column {} nulls", s.column);
        assert_eq!(s.min, None);
        assert_eq!(s.max, None);
        assert!(s.mean.is_none());
        assert!(s.stddev.is_none());
    }
    // Numeric/string columns still report a distinct count (zero).
    assert_eq!(col(&stats, "id").distinct.as_deref(), Some("0"));
}

#[test]
fn a_single_value_has_no_spread() {
    let stats = compute(&mixed_fields(), &[mixed(0..1)]);
    assert_eq!(number(&col(&stats, "id").mean), Some(1.0));
    assert!(col(&stats, "id").stddev.is_none());
}

#[test]
fn nested_and_binary_columns_report_count_nulls_only() {
    let item = Arc::new(arrow_schema::Field::new("item", arrow_schema::DataType::Utf8, true));
    let micros = arrow_schema::DataType::Timestamp(arrow_schema::TimeUnit::Microsecond, None);
    let f = fields(vec![
        arrow_schema::Field::new("data", arrow_schema::DataType::Binary, true),
        arrow_schema::Field::new("tags", arrow_schema::DataType::List(item), true),
        arrow_schema::Field::new("flag", arrow_schema::DataType::Boolean, true),
        arrow_schema::Field::new("ts", micros, true),
    ]);
    let ts = |v: i64| Cell::Timestamp(v, TimeUnit::Microsecond, None);
    let b = batch(
        &f,
        vec![
            vec![Cell::Binary(vec![0, 255]), Cell::Null, Cell::Binary(b"hi".to_vec())],
            vec![Cell::List(vec![text(Some("a"))]), Cell::Null, Cell::List(vec![])],
            vec![Cell::Boolean(true), Cell::Boolean(false), Cell::Null],
            vec![ts(1_700_000_000_000_000), Cell::Null, ts(1_700_000_001_000_000)],
        ],
    );
    let stats = compute(&f, &[b]);

    let data = col(&stats, "data");
    assert_eq!(data.count, 2);
    assert_eq!(data.nulls, 1);
    assert_eq!(data.min, None);
    assert_eq!(data.max, None);
    assert!(data.mean.is_none());
    assert_eq!(data.distinct, None);

    let tags = col(&stats, "tags");
    assert_eq!(tags.count, 2);
    assert_eq!(tags.nulls, 1);
    assert_eq!(tags.min, None);
    assert_eq!(tags.distinct, None);

    let flag = col(&stats, "flag");
    assert_eq!(flag.count, 2);
    assert_eq!(flag.nulls, 1);
    assert_eq!(flag.min.as_deref(), Some("false"));
    assert_eq!(flag.max.as_deref(), Some("true"));
    assert_eq!(flag.distinct.as_deref(), Some("2"));

    let ts = col(&stats, "ts");
    assert_eq!(ts.count, 2);
    assert_eq!(ts.nulls, 1);
    assert!(ts.min.as_deref().unwrap().starts_with("2023-11-14T22:13:20"));
    assert!(ts.max.as_deref().unwrap() > ts.min.as_deref().unwrap());
    assert!(ts.mean.is_none());
    assert_eq!(ts.distinct.as_deref(), Some("2"));
}

#[test]
fn projection_and_filter_respected() {
    let schema = Schema::new(mixed_fields());
    let names = |cols: &[&str]| -> Result<Vec<String>, Error> {
        let cols: Vec<String> = cols.iter().map(|s| s.to_string()).collect();
        Ok(projected_fields(&schema, Some(&cols))?.iter().map(|f| f.name.clone()).collect())
    };
    // Projection: only `score`; the order of the projection is kept.
    assert_eq!(names(&["score"]).unwrap(), vec!["score"]);
    assert_eq!(names(&["score", "id"]).unwrap(), vec!["score", "id"]);
    // An unknown projected column is a caller error, not a panic.
    assert!(matches!(names(&["nope"]), Err(Error::UnknownColumn { .. })));

    // Filter: id > 2 keeps rows (3, 4, 5) → score values {30, null, 40}.
    let stats = compute(&mixed_fields(), &[mixed(2..5)]);
    let id = col(&stats, "id");
    assert_eq!(id.count, 3);
    assert_eq!(id.min.as_deref(), Some("3"));
    assert_eq!(id.max.as_deref(), Some("5"));
    let score = col(&stats, "score");
    assert_eq!(score.count, 2);
    assert_eq!(score.min.as_deref(), Some("30"));
    assert_eq!(score.max.as_deref(), Some("40"));
    assert_eq!(number(&score.mean), Some(35.0));
}

#[test]
fn distinct_caps_on_high_cardinality() {
    let f = only("id", arrow_schema::DataType::Int32);
    let n = DISTINCT_CAP as i64 + 50;
    let b = batch(&f, vec![(0..n).map(Cell::Int).collect()]);
    let stats = compute(&f, &[b]);
    let id = col(&stats, "id");
    assert_eq!(id.count, n as u64);
    assert_eq!(id.distinct.as_deref(), Some(format!(">{DISTINCT_CAP}").as_str()));
}

#[test]
fn renders_all_three_formats() {
    let stats = compute(&mixed_fields(), &[mixed(0..5)]);
    let listing = to_record_batch(&stats);
    let render = |format: Format| -> String {
        let mut out = String::new();
        let o = RenderOptions::new(BinaryFormat::Placeholder);
        let mut w = make_writer(format, o, TableStyle::Plain).unwrap();
        w.start(&output_schema(), &mut out).unwrap();
        w.write_batch(&listing.batch, &mut out).unwrap();
        w.finish(&mut out).unwrap();
        out
    };

    // CSV: header + one row per column.
    let csv = render(Format::Csv);
    let lines: Vec<&str> = csv.lines().collect();
    assert_eq!(lines[0], "column,type,count,nulls,min,max,mean,stddev,distinct");
    assert_eq!(lines.len(), 4); // header + 3 columns
    assert!(lines.iter().any(|l| l.starts_with("id,Int32,5,0,1,5,3")));

    // JSONL: one JSON object per column.
    let objs: Vec<serde_json::Value> =
        render(Format::Jsonl).lines().map(|l| serde_json::from_str(l).unwrap()).collect();
    assert_eq!(objs.len(), 3);
    let id = objs.iter().find(|o| o["column"] == "id").unwrap();
    assert_eq!(id["count"], 5);
    assert_eq!(id["mean"], 3.0);
    assert_eq!(id["distinct"], "5");

    // Table: renders without error and contains the header cells.
    let table = render(Format::Table);
    assert!(table.contains("column"));
    assert!(table.contains("distinct"));
    assert!(table.contains("alice"));
}

#[test]
fn distinct_exact_below_cap() {
    let mut d = Distinct::default();
    for v in [1_i64, 1, 2, 3, 3, 3] {
        d.add(DistinctKey::Int(v));
    }
    assert_eq!(d.finish(), "3");
}

#[test]
fn distinct_caps_and_reports_marker() {
    let mut d = Distinct::default();
    for v in 0..(DISTINCT_CAP as i64 + 50) {
        d.add(DistinctKey::Int(v));
    }
    assert_eq!(d.finish(), format!(">{DISTINCT_CAP}"));
    assert!(d.set().is_empty(), "capped set is dropped to bound memory");
}

#[test]
fn distinct_collapses_nan_and_zero() {
    let mut d = Distinct::default();
    d.add(DistinctKey::Float(canonical_float_bits(&texts(f64::NAN))));
    d.add(DistinctKey::Float(canonical_float_bits(&texts(-f64::NAN))));
    d.add(DistinctKey::Float(canonical_float_bits(&texts(0.0))));
    d.add(DistinctKey::Float(canonical_float_bits(&texts(-0.0))));
    assert_eq!(d.finish(), "2");
}

#[test]
fn keys_of_different_types_differ() {
    let mut d = Distinct::default();
    d.add(DistinctKey::Int(1));
    d.add(DistinctKey::UInt(1));
    d.add(DistinctKey::Bool(true));
    d.add(DistinctKey::Str("1".to_string()));
    d.add(DistinctKey::Str("1".to_string()));
    assert_eq!(d.finish(), "4");
}

#[test]
fn updates_keep_the_extremes_in_any_order() {
    for run in [[3_i64, -7, 5, 5], [5, 5, -7, 3], [-7, 3, 5, 5]] {
        let (mut min, mut max) = (None, None);
        for v in &run {
            update_ord(&mut min, &mut max, v);
        }
        assert_eq!((min, max), (Some(-7), Some(5)));
    }
    let (mut min, mut max) = (None, None);
    for s in ["b", "a", "ab"] {
        update_ord(&mut min, &mut max, &s.to_string());
    }
    assert_eq!((min.as_deref(), max.as_deref()), (Some("a"), Some("b")));
}
