//! Rows as the commands print them.
use std::sync::Arc;

use arrs::cell::{Batch, Cell, Column, Float};
use arrs::cli::{BinaryFormat, Format};
use arrs::commands::cat::{expand_inputs, Probe};
use arrs::commands::common::{prepare_row_id_columns, project};
use arrs::commands::head::Head;
use arrs::commands::sample::sample_indices;
use arrs::commands::tail::tail_indices;
use arrs::error::Error;
use arrs::indices::resolve;
use arrs::output::table::{truncate_cell, TableStyle};
use arrs::output::{make_writer, RenderOptions, RowWriter};
use arrs::row_id::{extend_schema, RowIds};
use arrs::schema::{DataType, Field, Kind, Schema, TimeUnit};
use serde_json::Value;

fn lib_unit(u: &arrow_schema::TimeUnit) -> TimeUnit {
    match u {
        arrow_schema::TimeUnit::Second => TimeUnit::Second,
        arrow_schema::TimeUnit::Millisecond => TimeUnit::Millisecond,
        arrow_schema::TimeUnit::Microsecond => TimeUnit::Microsecond,
        arrow_schema::TimeUnit::Nanosecond => TimeUnit::Nanosecond,
    }
}

fn lib_field(f: &arrow_schema::Field) -> Field {
    Field::new(f.name(), lib_type(f.data_type()), f.is_nullable())
}

fn lib_type(t: &arrow_schema::DataType) -> DataType {
    let kind = match t {
        arrow_schema::DataType::Boolean => Kind::Boolean,
        arrow_schema::DataType::Int32 => Kind::Int32,
        arrow_schema::DataType::Int64 => Kind::Int64,
        arrow_schema::DataType::UInt64 => Kind::UInt64,
        arrow_schema::DataType::Float32 => Kind::Float32,
        arrow_schema::DataType::Float64 => Kind::Float64,
        arrow_schema::DataType::Utf8 => Kind::Utf8,
        arrow_schema::DataType::Binary => Kind::Binary,
        arrow_schema::DataType::Timestamp(unit, tz) => {
            Kind::Timestamp(lib_unit(unit), tz.as_ref().map(|s| s.to_string()))
        }
        arrow_schema::DataType::List(item) => Kind::List(Arc::new(lib_field(item))),
        arrow_schema::DataType::FixedSizeList(item, n) => {
            Kind::FixedSizeList(Arc::new(lib_field(item)), *n)
        }
        arrow_schema::DataType::Struct(fields) => {
            Kind::Struct(Arc::new(fields.iter().map(|f| lib_field(f)).collect()))
        }
        other => panic!("{other}"),
    };
    DataType { kind, debug: format!("{t:?}"), display: t.to_string() }
}

/// A double with its texts, at `precision` fractional digits where given.
fn float(v: f64, precision: Option<usize>) -> Cell {
    Cell::Float(Float {
        bits: v.to_bits(),
        shortest: v.to_string(),
        wide: v.to_string(),
        json: serde_json::Number::from_f64(v).map(|n| n.to_string()).unwrap_or_default(),
        fixed: precision.map(|p| format!("{v:.p$}")).unwrap_or_default(),
    })
}

fn text(s: Option<&str>) -> Cell {
    match s {
        Some(s) => Cell::Text(s.to_string()),
        None => Cell::Null,
    }
}

fn copy(c: &Cell) -> Cell {
    match c {
        Cell::Null => Cell::Null,
        Cell::Boolean(b) => Cell::Boolean(*b),
        Cell::Int(i) => Cell::Int(*i),
        Cell::UInt(i) => Cell::UInt(*i),
        Cell::Float(f) => Cell::Float(f.clone()),
        Cell::Text(s) => Cell::Text(s.clone()),
        Cell::Binary(b) => Cell::Binary(b.clone()),
        Cell::Timestamp(v, u, tz) => Cell::Timestamp(*v, *u, tz.clone()),
        Cell::List(items) => Cell::List(items.iter().map(copy).collect()),
        Cell::Struct(members) => {
            Cell::Struct(members.iter().map(|(k, v)| (k.clone(), copy(v))).collect())
        }
        other => panic!("{other:?}"),
    }
}

/// A dataset in memory.
struct Table {
    schema: Schema,
    columns: Vec<Vec<Cell>>,
}

impl Table {
    fn new(columns: Vec<(arrow_schema::Field, Vec<Cell>)>) -> Table {
        let fields = columns.iter().map(|(f, _)| lib_field(f)).collect();
        Table {
            schema: Schema::new(fields),
            columns: columns.into_iter().map(|(_, c)| c).collect(),
        }
    }

    fn rows(&self) -> usize {
        self.columns[0].len()
    }

    /// The cell of a row at an entry of a projection.
    fn cell(&self, row: usize, entry: &str) -> Cell {
        if let Some(at) = self.schema.fields.iter().position(|f| f.name == entry) {
            return copy(&self.columns[at][row]);
        }
        let mut parts = entry.split('.');
        let top = parts.next().unwrap();
        let at = self.schema.fields.iter().position(|f| f.name == top).unwrap();
        let mut cell = copy(&self.columns[at][row]);
        for part in parts {
            cell = match cell {
                Cell::Struct(members) => members.into_iter().find(|(k, _)| k == part).unwrap().1,
                other => other,
            };
        }
        cell
    }

    fn take(&self, rows: &[usize], entries: Option<&[String]>, schema: &Schema) -> Batch {
        let names: Vec<String> = match entries {
            Some(names) => names.to_vec(),
            None => self.schema.fields.iter().map(|f| f.name.clone()).collect(),
        };
        let columns = names
            .iter()
            .zip(schema.fields.iter())
            .map(|(name, f)| Column {
                data_type: f.data_type.clone(),
                cells: rows.iter().map(|&r| self.cell(r, name)).collect(),
            })
            .collect();
        Batch { columns, rows: rows.len() }
    }
}

fn render(format: Format, o: RenderOptions, schema: &Schema, batches: &[Batch]) -> Result<String, Error> {
    let mut out = String::new();
    let mut w = make_writer(format, o, TableStyle::Plain).unwrap();
    w.start(schema, &mut out)?;
    for b in batches {
        w.write_batch(b, &mut out)?;
    }
    w.finish(&mut out)?;
    Ok(out)
}

fn show(
    t: &Table,
    rows: &[usize],
    format: Format,
    binary: BinaryFormat,
    columns: Option<&[String]>,
    exclude: Option<&[String]>,
) -> Result<String, Error> {
    let p = project(&t.schema, columns, exclude)?;
    let batch = t.take(rows, p.entries.as_deref(), &p.schema);
    render(format, RenderOptions::new(binary), &p.schema, &[batch])
}

fn cat(
    t: &Table,
    format: Format,
    binary: BinaryFormat,
    columns: Option<&[String]>,
    exclude: Option<&[String]>,
) -> Result<String, Error> {
    let rows: Vec<usize> = (0..t.rows()).collect();
    show(t, &rows, format, binary, columns, exclude)
}

fn plain(t: &Table, rows: &[usize]) -> String {
    show(t, rows, Format::Jsonl, BinaryFormat::Placeholder, None, None).unwrap()
}

fn field(name: &str, t: arrow_schema::DataType, nullable: bool) -> arrow_schema::Field {
    arrow_schema::Field::new(name, t, nullable)
}

fn simple() -> Table {
    Table::new(vec![
        (field("id", arrow_schema::DataType::Int32, false), (1..=5).map(Cell::Int).collect()),
        (
            field("name", arrow_schema::DataType::Utf8, true),
            [Some("alice"), Some("bob"), None, Some("dan"), Some("eve")].map(text).into(),
        ),
        (
            field("score", arrow_schema::DataType::Float64, true),
            vec![
                float(10.5, None),
                Cell::Null,
                float(f64::NAN, None),
                float(f64::INFINITY, None),
                float(-1.25, None),
            ],
        ),
    ])
}

fn bytes(b: Option<&[u8]>) -> Cell {
    match b {
        Some(b) => Cell::Binary(b.to_vec()),
        None => Cell::Null,
    }
}

fn with_binary() -> Table {
    Table::new(vec![
        (field("id", arrow_schema::DataType::Int32, false), (1..=3).map(Cell::Int).collect()),
        (
            field("data", arrow_schema::DataType::Binary, true),
            vec![bytes(Some(b"\x00\xff")), bytes(None), bytes(Some(b"hi"))],
        ),
    ])
}

fn full() -> Table {
    let list = arrow_schema::DataType::List(Arc::new(field("item", arrow_schema::DataType::Utf8, true)));
    let micros = arrow_schema::DataType::Timestamp(arrow_schema::TimeUnit::Microsecond, None);
    Table::new(vec![
        (field("id", arrow_schema::DataType::Int32, false), (1..=3).map(Cell::Int).collect()),
        (
            field("flag", arrow_schema::DataType::Boolean, true),
            vec![Cell::Boolean(true), Cell::Boolean(false), Cell::Null],
        ),
        (
            field("ts", micros, true),
            vec![
                Cell::Timestamp(1_700_000_000_000_000, TimeUnit::Microsecond, None),
                Cell::Null,
                Cell::Timestamp(1_700_000_001_000_000, TimeUnit::Microsecond, None),
            ],
        ),
        (
            field("data", arrow_schema::DataType::Binary, true),
            vec![bytes(Some(b"\x00\xff")), bytes(None), bytes(Some(b"hi"))],
        ),
        (
            field("tags", list, true),
            vec![
                Cell::List(vec![text(Some("a")), text(Some("b"))]),
                Cell::Null,
                Cell::List(vec![text(Some("c"))]),
            ],
        ),
    ])
}

fn structs() -> Table {
    let user = arrow_schema::DataType::Struct(arrow_schema::Fields::from(vec![
        field("id", arrow_schema::DataType::Int64, true),
        field("name", arrow_schema::DataType::Utf8, true),
    ]));
    let meta = arrow_schema::DataType::Struct(arrow_schema::Fields::from(vec![
        field("user", user, true),
        field("source", arrow_schema::DataType::Utf8, true),
    ]));
    let doubles = |v: [f64; 3]| -> Vec<Cell> { v.iter().map(|x| float(*x, None)).collect() };
    let row = |id: i64, name: Option<&str>, source: Option<&str>| -> Cell {
        Cell::Struct(vec![
            (
                "user".to_string(),
                Cell::Struct(vec![
                    ("id".to_string(), Cell::Int(id)),
                    ("name".to_string(), text(name)),
                ]),
            ),
            ("source".to_string(), text(source)),
        ])
    };
    Table::new(vec![
        (field("id", arrow_schema::DataType::Int32, false), (1..=3).map(Cell::Int).collect()),
        (
            field("score", arrow_schema::DataType::Float64, true),
            vec![float(1.0, None), float(2.5, None), Cell::Null],
        ),
        (field("emb_0", arrow_schema::DataType::Float64, true), doubles([0.1, 0.2, 0.3])),
        (field("emb_1", arrow_schema::DataType::Float64, true), doubles([1.1, 1.2, 1.3])),
        (field("emb_2", arrow_schema::DataType::Float64, true), doubles([2.1, 2.2, 2.3])),
        (
            field("meta", meta, true),
            vec![
                row(10, Some("alice"), Some("web")),
                row(20, None, Some("api")),
                row(30, Some("carol"), None),
            ],
        ),
    ])
}

fn parse(line: &str) -> Value {
    serde_json::from_str(line).unwrap()
}

fn cols(items: &[&str]) -> Vec<String> {
    items.iter().map(|s| s.to_string()).collect()
}

fn keys(line: &str) -> Vec<String> {
    parse(line).as_object().unwrap().keys().cloned().collect()
}

fn ids(out: &str) -> Vec<i64> {
    out.lines().map(|l| parse(l)["id"].as_i64().unwrap()).collect()
}

fn first(out: &str) -> &str {
    out.lines().next().unwrap()
}

const NONE: BinaryFormat = BinaryFormat::Placeholder;

// ---------- formats ----------

#[test]
fn cat_jsonl_emits_nan_and_infinity_as_strings() {
    let out = cat(&simple(), Format::Jsonl, NONE, None, None).unwrap();
    let lines: Vec<&str> = out.lines().collect();
    assert_eq!(lines.len(), 5);
    let v0 = parse(lines[0]);
    assert_eq!(v0["id"], 1);
    assert_eq!(v0["name"], "alice");
    assert_eq!(v0["score"], 10.5);
    assert_eq!(parse(lines[2])["score"], "NaN");
    assert_eq!(parse(lines[3])["score"], "Infinity");
    assert_eq!(parse(lines[1])["score"], Value::Null);
}

#[test]
fn cat_csv_header_and_null_cells() {
    let out = cat(&simple(), Format::Csv, NONE, None, None).unwrap();
    let lines: Vec<&str> = out.lines().collect();
    assert_eq!(lines[0], "id,name,score");
    assert_eq!(lines[1], "1,alice,10.5");
    assert_eq!(lines[2], "2,bob,");
    assert_eq!(lines[3], "3,,NaN");
    assert_eq!(lines[4], "4,dan,inf");
    assert_eq!(lines[5], "5,eve,-1.25");
    assert_eq!(lines.len(), 6);
}

#[test]
fn csv_starts_with_the_header() {
    let out = cat(&simple(), Format::Csv, NONE, None, None).unwrap();
    assert!(out.starts_with("id,name,score"), "unexpected output:\n{out}");
}

#[test]
fn cat_table_renders_header_and_rows_in_ascii() {
    let out = cat(&simple(), Format::Table, NONE, None, None).unwrap();
    assert!(out.contains('+'), "table border missing in:\n{out}");
    assert!(out.contains("| name"), "header missing in:\n{out}");
    assert!(out.contains("| alice"), "alice row missing in:\n{out}");
    assert!(out.contains("NaN"), "NaN should render literally in:\n{out}");
}

#[test]
fn jsonl_emits_lists_as_arrays() {
    let out = cat(&full(), Format::Jsonl, BinaryFormat::Hex, None, None).unwrap();
    let mut lines = out.lines();
    assert_eq!(parse(lines.next().unwrap())["tags"], parse("[\"a\",\"b\"]"));
    assert_eq!(parse(lines.next().unwrap())["tags"], Value::Null);
}

#[test]
fn jsonl_emits_lists_as_arrays_table_compatibility() {
    let out = cat(&full(), Format::Table, NONE, None, None).unwrap();
    assert!(out.contains("[\"a\",\"b\"]"), "list cell missing in:\n{out}");
}

#[test]
fn csv_quotes_column_name_containing_comma() {
    let t = Table::new(vec![(field("a,b", arrow_schema::DataType::Int32, true), vec![Cell::Int(1)])]);
    let out = cat(&t, Format::Csv, NONE, None, None).unwrap();
    let mut lines = out.lines();
    assert_eq!(lines.next().unwrap(), r#""a,b""#);
    assert_eq!(lines.next().unwrap(), "1");
}

#[test]
fn csv_agrees_with_a_csv_writer() {
    let values = ["plain", "a,b", "say \"hi\"", "two\nlines", "", " padded ", "cr\rx", "#x", "日本"];
    let t = Table::new(vec![
        (field("x", arrow_schema::DataType::Utf8, true), values.map(|s| text(Some(s))).into()),
        (field("y", arrow_schema::DataType::Utf8, true), values.map(|s| text(Some(s))).into()),
    ]);
    let out = cat(&t, Format::Csv, NONE, None, None).unwrap();
    let mut w = csv::Writer::from_writer(Vec::new());
    w.write_record(["x", "y"]).unwrap();
    for v in values {
        w.write_record([v, v]).unwrap();
    }
    assert_eq!(out.as_bytes(), w.into_inner().unwrap());
    // A record of one empty field is told apart from an empty line.
    let one = Table::new(vec![(field("x", arrow_schema::DataType::Utf8, true), vec![Cell::Null])]);
    assert_eq!(cat(&one, Format::Csv, NONE, None, None).unwrap(), "x\n\"\"\n");
}

#[test]
fn csv_records_keep_their_width() {
    let schema = Schema::new(vec![lib_field(&field("a", arrow_schema::DataType::Int32, true))]);
    let ty = schema.fields[0].data_type.clone();
    let column = |v: i64| Column { data_type: ty.clone(), cells: vec![Cell::Int(v)] };
    let wide = Batch { columns: vec![column(1), column(2)], rows: 1 };
    match render(Format::Csv, RenderOptions::new(NONE), &schema, &[wide]) {
        Err(e) => {
            assert!(matches!(e, Error::Csv { expected_len: 1, len: 2 }), "{e:?}");
            assert_eq!(e.message(), "csv writer error");
        }
        Ok(out) => panic!("{out}"),
    }
}

/// A batch of one row of texts.
fn texts_row(values: &[&str]) -> Batch {
    let ty = lib_type(&arrow_schema::DataType::Utf8);
    let column = |s: &&str| Column { data_type: ty.clone(), cells: vec![text(Some(s))] };
    Batch { columns: values.iter().map(column).collect(), rows: 1 }
}

#[test]
fn csv_records_without_an_end_go_on_as_in_a_csv_writer() {
    let runs: Vec<Vec<Vec<&str>>> = vec![
        // Too wide, then the writer never catches up.
        vec![vec!["a", "b"], vec!["1", "2", "3"], vec!["4", "5"]],
        // Too narrow: the next record completes it.
        vec![vec!["a", "b", "c"], vec!["1"], vec!["2", "3"], vec!["4", "5", "6"]],
        // The quote behind a field waits for what follows it.
        vec![vec!["a", "b", "c"], vec!["x,y"], vec!["say \"hi\""], vec!["z"]],
        vec![vec!["a", "b"], vec![""], vec![""], vec!["", ""]],
        vec![vec!["a", "b"], vec!["1\n2"]],
        vec![vec![""], vec!["", "q\"", ""]],
    ];
    for run in runs {
        let mut writer =
            make_writer(Format::Csv, RenderOptions::new(NONE), TableStyle::Plain).unwrap();
        let mut out = String::new();
        let mut real = csv::WriterBuilder::new().has_headers(false).from_writer(Vec::new());
        for record in &run {
            let ours = writer.write_batch(&texts_row(record), &mut out);
            let theirs = real.write_record(record);
            match (ours, theirs) {
                (Ok(()), Ok(())) => {}
                (Err(Error::Csv { expected_len, len }), Err(e)) => match e.kind() {
                    csv::ErrorKind::UnequalLengths { expected_len: w, len: n, .. } => {
                        assert_eq!((expected_len as u64, len as u64), (*w, *n));
                    }
                    other => panic!("{other:?}"),
                },
                (ours, theirs) => panic!("{run:?}: {ours:?} but {theirs:?}"),
            }
        }
        writer.finish(&mut out).unwrap();
        assert_eq!(out.as_bytes(), real.into_inner().unwrap(), "{run:?}");
    }
}

#[test]
fn tables_are_drawn_by_the_grid() {
    let t = Table::new(vec![
        (field("a", arrow_schema::DataType::Int32, true), vec![Cell::Int(1), Cell::Null]),
        (field("b", arrow_schema::DataType::Utf8, true), vec![text(Some("x")), text(None)]),
    ]);
    let out = cat(&t, Format::Table, NONE, None, None).unwrap();
    assert_eq!(
        out,
        "+---+---+\n| a | b |\n+=======+\n| 1 | x |\n|---+---|\n|   |   |\n+---+---+\n"
    );
}

#[test]
fn no_writer_of_text_writes_a_binary_stream() {
    assert!(make_writer(Format::Ipc, RenderOptions::new(NONE), TableStyle::Plain).is_none());
}

// ---------- rows ----------

fn head(t: &Table, limit: u64) -> String {
    let mut h = Head::new(limit);
    let mut rows = Vec::new();
    let mut at = 0;
    // Batches of two rows.
    while !h.is_done() && at < t.rows() {
        let n = (t.rows() - at).min(2);
        let kept = h.take(n as u64) as usize;
        rows.extend(at..at + kept);
        at += n;
    }
    plain(t, &rows)
}

#[test]
fn head_respects_limit() {
    assert_eq!(head(&simple(), 2).lines().count(), 2);
    assert_eq!(ids(&head(&simple(), 3)), vec![1, 2, 3]);
    assert_eq!(head(&simple(), 0), "");
}

#[test]
fn head_with_oversize_limit_returns_all_rows() {
    assert_eq!(head(&simple(), 100).lines().count(), 5);
}

fn at(rows: &[u64]) -> Vec<usize> {
    rows.iter().map(|r| *r as usize).collect()
}

#[test]
fn tail_returns_last_rows() {
    let out = plain(&simple(), &at(&tail_indices(2, 5)));
    assert_eq!(ids(&out), vec![4, 5]);
}

#[test]
fn take_supports_ranges_and_negatives() {
    let out = plain(&simple(), &at(&resolve("-1,0,1:2", 5).unwrap()));
    assert_eq!(ids(&out), vec![5, 1, 2, 3]);
}

#[test]
fn take_out_of_range_errors() {
    assert!(matches!(resolve("100", 5), Err(Error::IndexOutOfRange { .. })));
}

#[test]
fn sample_is_reproducible_with_seed() {
    let draw = || at(&sample_indices(3, 5, Some(42)).unwrap().unwrap());
    let a = plain(&simple(), &draw());
    assert_eq!(a, plain(&simple(), &draw()));
    assert_eq!(a.lines().count(), 3);
}

#[test]
fn cat_glob_expands_and_concatenates_in_lexicographic_order() {
    let part = |ids: Vec<i64>| {
        Table::new(vec![(
            field("id", arrow_schema::DataType::Int32, false),
            ids.into_iter().map(Cell::Int).collect(),
        )])
    };
    let (a, b) = (part(vec![1, 2]), part(vec![3, 4]));
    // The filesystem lists the matches in an order of its own.
    let found = ["/d/b.lance".to_string(), "/d/a.lance".to_string()];
    let probe = Probe { exists: false, matches: Ok(found.into()) };
    let inputs = expand_inputs(&["/d/*.lance".to_string()], &vec![probe]).unwrap();
    assert_eq!(inputs, vec!["/d/a.lance", "/d/b.lance"]);
    let batches: Vec<Batch> = inputs
        .iter()
        .map(|path| if path.ends_with("a.lance") { &a } else { &b })
        .map(|t| t.take(&[0, 1], None, &t.schema))
        .collect();
    let out = render(Format::Csv, RenderOptions::new(NONE), &a.schema, &batches).unwrap();
    assert_eq!(out, "id\n1\n2\n3\n4\n");
}

// ---------- binary values ----------

#[test]
fn jsonl_binary_hex_emits_backslash_x_format() {
    let out = cat(&full(), Format::Jsonl, BinaryFormat::Hex, None, None).unwrap();
    assert_eq!(parse(first(&out))["data"], "\\x00\\xff");
}

#[test]
fn jsonl_binary_none_renders_placeholder() {
    let out = cat(&with_binary(), Format::Jsonl, NONE, None, None).unwrap();
    let v0 = parse(first(&out));
    assert_eq!(v0["data"], "BINARY_DATA");
    assert_eq!(v0["id"], 1);
    // Null binary values stay null.
    assert_eq!(parse(out.lines().nth(1).unwrap())["data"], Value::Null);
}

#[test]
fn csv_binary_none_renders_placeholder() {
    let out = cat(&with_binary(), Format::Csv, NONE, None, None).unwrap();
    let lines: Vec<&str> = out.lines().collect();
    assert_eq!(lines[0], "id,data");
    assert_eq!(lines[1], "1,BINARY_DATA");
    // Null binary cell stays empty.
    assert_eq!(lines[2], "2,");
    assert_eq!(lines[3], "3,BINARY_DATA");
}

#[test]
fn jsonl_binary_none_placeholder_for_nested_binary() {
    let inner = arrow_schema::DataType::Struct(arrow_schema::Fields::from(vec![
        field("payload", arrow_schema::DataType::Binary, true),
        field("n", arrow_schema::DataType::Int32, true),
    ]));
    let t = Table::new(vec![(
        field("wrap", inner, true),
        vec![Cell::Struct(vec![
            ("payload".to_string(), bytes(Some(b"hello"))),
            ("n".to_string(), Cell::Int(7)),
        ])],
    )]);
    let v = parse(first(&cat(&t, Format::Jsonl, NONE, None, None).unwrap()));
    assert_eq!(v["wrap"]["payload"], "BINARY_DATA");
    assert_eq!(v["wrap"]["n"], 7);
}

#[test]
fn csv_binary_hex_emits_escape_sequence() {
    let out = cat(&with_binary(), Format::Csv, BinaryFormat::Hex, None, None).unwrap();
    let lines: Vec<&str> = out.lines().collect();
    assert_eq!(lines[0], "id,data");
    // Backslashes on their own are not special in CSV, so these render unquoted.
    assert_eq!(lines[1], r"1,\x00\xff");
    assert_eq!(lines[2], "2,");
    assert_eq!(lines[3], r"3,\x68\x69");
}

#[test]
fn csv_binary_base64_is_valid_base64() {
    let out = cat(&with_binary(), Format::Csv, BinaryFormat::Base64, None, None).unwrap();
    let lines: Vec<&str> = out.lines().collect();
    assert_eq!(lines[0], "id,data");
    assert_eq!(lines[1], "1,AP8=");
    assert_eq!(lines[2], "2,");
    assert_eq!(lines[3], "3,aGk=");
}

#[test]
fn jsonl_binary_base64_emits_standard_alphabet() {
    let out = cat(&with_binary(), Format::Jsonl, BinaryFormat::Base64, None, None).unwrap();
    let lines: Vec<&str> = out.lines().collect();
    assert_eq!(parse(lines[0])["data"], "AP8=");
    assert_eq!(parse(lines[1])["data"], Value::Null);
    assert_eq!(parse(lines[2])["data"], "aGk=");
}

#[test]
fn explicit_include_of_binary_with_none_still_emits_placeholder() {
    let out = cat(&with_binary(), Format::Jsonl, NONE, Some(&cols(&["id", "data"])), None).unwrap();
    let v = parse(first(&out));
    assert_eq!(v["id"], 1);
    assert_eq!(v["data"], "BINARY_DATA");
}

// ---------- columns ----------

#[test]
fn columns_preserves_user_order() {
    let out = cat(&simple(), Format::Jsonl, NONE, Some(&cols(&["score", "id"])), None).unwrap();
    assert_eq!(keys(first(&out)), cols(&["score", "id"]));
}

#[test]
fn exclude_columns_drops_specified() {
    let out = cat(&simple(), Format::Jsonl, NONE, None, Some(&cols(&["name"]))).unwrap();
    assert_eq!(keys(first(&out)), cols(&["id", "score"]));
}

#[test]
fn cli_unknown_column_errors() {
    let err = cat(&simple(), Format::Jsonl, NONE, Some(&cols(&["zzz"])), None).unwrap_err();
    assert!(matches!(err, Error::UnknownColumn { .. }));
}

#[test]
fn glob_include_expands_in_schema_order_through_cat() {
    let out = cat(&structs(), Format::Jsonl, NONE, Some(&cols(&["id", "emb_*"])), None).unwrap();
    assert_eq!(keys(first(&out)), cols(&["id", "emb_0", "emb_1", "emb_2"]));
}

#[test]
fn glob_exclude_through_cat() {
    let out = cat(&structs(), Format::Jsonl, NONE, None, Some(&cols(&["emb_*"]))).unwrap();
    // meta untouched by the glob stays a whole struct column.
    assert_eq!(keys(first(&out)), cols(&["id", "score", "meta"]));
}

#[test]
fn glob_no_match_errors_through_cat() {
    let err = cat(&structs(), Format::Jsonl, NONE, Some(&cols(&["nope_*"])), None).unwrap_err();
    assert!(matches!(err, Error::NoGlobMatch { .. }));
}

#[test]
fn nested_path_through_cat_flattens_to_dotted_columns() {
    let want = cols(&["meta.user.id", "id"]);
    let out = cat(&structs(), Format::Jsonl, NONE, Some(&want), None).unwrap();
    assert_eq!(keys(first(&out)), want);
    let v = parse(first(&out));
    assert_eq!(v["meta.user.id"], 10);
    assert_eq!(v["id"], 1);
}

#[test]
fn head_nested_path_end_to_end_binary() {
    let want = cols(&["meta.user.id", "id"]);
    let out = show(&structs(), &[0, 1], Format::Jsonl, NONE, Some(&want), None).unwrap();
    let v = parse(first(&out));
    assert_eq!(v["meta.user.id"], 10);
    assert_eq!(v["id"], 1);
}

#[test]
fn parent_and_leaf_overlap_agree_scan_and_take() {
    let want = cols(&["meta", "meta.user.id"]);
    let t = structs();
    let scan = cat(&t, Format::Jsonl, NONE, Some(&want), None).unwrap();
    let take =
        show(&t, &at(&resolve("0", 3).unwrap()), Format::Jsonl, NONE, Some(&want), None).unwrap();
    // Whole struct + duplicate flat leaf, and both paths agree.
    assert_eq!(keys(first(&scan)), want);
    assert_eq!(keys(first(&take)), want);
    assert_eq!(parse(first(&scan)), parse(first(&take)));
    let v = parse(first(&scan));
    assert_eq!(v["meta.user.id"], 10);
    assert_eq!(v["meta"]["user"]["id"], 10);
}

#[test]
fn nested_and_glob_combined_through_cat() {
    let want = cols(&["emb_*", "meta.user.id"]);
    let out = cat(&structs(), Format::Jsonl, NONE, Some(&want), None).unwrap();
    assert_eq!(keys(first(&out)), cols(&["emb_0", "emb_1", "emb_2", "meta.user.id"]));
}

#[test]
fn nested_path_through_take_flattens() {
    let want = cols(&["meta.user.name", "id"]);
    let out = show(&structs(), &[0], Format::Jsonl, NONE, Some(&want), None).unwrap();
    assert_eq!(keys(first(&out)), want);
    let v = parse(first(&out));
    assert_eq!(v["meta.user.name"], "alice");
    assert_eq!(v["id"], 1);
}

#[test]
fn exclude_nested_leaf_flattens_siblings_through_cat() {
    let excl = cols(&["meta.user.id", "emb_*"]);
    let out = cat(&structs(), Format::Jsonl, NONE, None, Some(&excl)).unwrap();
    assert_eq!(keys(first(&out)), cols(&["id", "score", "meta.user.name", "meta.source"]));
    let v = parse(first(&out));
    assert_eq!(v["meta.user.name"], "alice");
    assert_eq!(v["meta.source"], "web");
}

#[test]
fn nested_invalid_field_errors_through_cat() {
    let err = cat(&structs(), Format::Jsonl, NONE, Some(&cols(&["meta.nope"])), None).unwrap_err();
    assert!(matches!(err, Error::UnknownNestedField { .. }));
}

#[test]
fn nested_non_struct_traversal_errors_through_cat() {
    let err = cat(&structs(), Format::Jsonl, NONE, Some(&cols(&["score.x"])), None).unwrap_err();
    assert!(matches!(err, Error::NonStructField { .. }));
}

// ---------- row identity ----------

/// Rows with their identity: in a dataset of one fragment, the row's offset.
fn identified(
    t: &Table,
    rows: &[usize],
    format: Format,
    flags: RowIds,
    columns: Option<&[String]>,
    exclude: Option<&[String]>,
) -> String {
    let columns = prepare_row_id_columns("t", true, columns, exclude, flags).unwrap();
    let p = project(&t.schema, columns.as_deref(), exclude).unwrap();
    let schema = extend_schema(&p.schema, flags);
    let mut batch = t.take(rows, p.entries.as_deref(), &p.schema);
    for at in batch.columns.len()..schema.fields.len() {
        batch.columns.push(Column {
            data_type: schema.fields[at].data_type.clone(),
            cells: rows.iter().map(|r| Cell::UInt(*r as u64)).collect(),
        });
    }
    render(format, RenderOptions::new(NONE), &schema, &[batch]).unwrap()
}

const ROW_IDS: RowIds = RowIds { with_row_id: true, with_row_addr: false };

fn numbers(out: &str, name: &str) -> Vec<u64> {
    out.lines().map(|l| parse(l)[name].as_u64().unwrap()).collect()
}

#[test]
fn with_row_id_appends_rowid_last_and_counts_from_zero() {
    let out = identified(&simple(), &[0, 1, 2, 3, 4], Format::Jsonl, ROW_IDS, None, None);
    assert_eq!(keys(first(&out)), cols(&["id", "name", "score", "_rowid"]));
    assert_eq!(numbers(&out, "_rowid"), vec![0, 1, 2, 3, 4]);
}

#[test]
fn both_flags_append_rowid_then_rowaddr() {
    let both = RowIds { with_row_id: true, with_row_addr: true };
    let out = identified(&simple(), &[0], Format::Jsonl, both, None, None);
    assert_eq!(keys(first(&out)), cols(&["id", "name", "score", "_rowid", "_rowaddr"]));
}

#[test]
fn with_row_id_survives_column_projection() {
    let out = identified(&simple(), &[0, 1], Format::Jsonl, ROW_IDS, Some(&cols(&["id"])), None);
    assert_eq!(keys(first(&out)), cols(&["id", "_rowid"]));
    assert_eq!(numbers(&out, "_rowid"), vec![0, 1]);
}

#[test]
fn with_row_id_survives_exclude_of_other_columns() {
    let out = identified(&simple(), &[0], Format::Jsonl, ROW_IDS, None, Some(&cols(&["name"])));
    assert_eq!(keys(first(&out)), cols(&["id", "score", "_rowid"]));
}

#[test]
fn tail_with_row_id_reports_trailing_row_ids() {
    let rows = at(&tail_indices(2, 5));
    let out = identified(&simple(), &rows, Format::Jsonl, ROW_IDS, None, None);
    assert_eq!(numbers(&out, "_rowid"), vec![3, 4]);
    assert_eq!(keys(first(&out)), cols(&["id", "name", "score", "_rowid"]));
}

#[test]
fn sample_with_row_id_matches_each_rows_offset() {
    let rows = at(&sample_indices(3, 5, Some(1)).unwrap().unwrap());
    let out = identified(&simple(), &rows, Format::Jsonl, ROW_IDS, None, None);
    assert_eq!(out.lines().count(), 3);
    for (id, row) in ids(&out).iter().zip(numbers(&out, "_rowid")) {
        assert_eq!(row, (id - 1) as u64);
    }
}

#[test]
fn take_with_row_addr_reports_addresses() {
    let addr = RowIds { with_row_id: false, with_row_addr: true };
    let rows = at(&resolve("0,2", 5).unwrap());
    let out = identified(&simple(), &rows, Format::Jsonl, addr, None, None);
    assert_eq!(keys(first(&out)), cols(&["id", "name", "score", "_rowaddr"]));
    assert_eq!(numbers(&out, "_rowaddr"), vec![0, 2]);
}

#[test]
fn cat_with_row_id_covers_every_row() {
    let out = identified(&simple(), &[0, 1, 2, 3, 4], Format::Jsonl, ROW_IDS, None, None);
    assert_eq!(numbers(&out, "_rowid"), vec![0, 1, 2, 3, 4]);
}

#[test]
fn take_with_nested_projection_and_row_id() {
    let rows = at(&resolve("0,2", 3).unwrap());
    let want = cols(&["meta.user.id", "id"]);
    let out = identified(&structs(), &rows, Format::Jsonl, ROW_IDS, Some(&want), None);
    assert_eq!(keys(first(&out)), cols(&["meta.user.id", "id", "_rowid"]));
    assert_eq!(numbers(&out, "_rowid"), vec![0, 2]);
    assert_eq!(numbers(&out, "meta.user.id"), vec![10, 30]);
}

#[test]
fn row_id_columns_render_in_csv() {
    let both = RowIds { with_row_id: true, with_row_addr: true };
    let out = identified(&simple(), &[0], Format::Csv, both, None, None);
    let mut lines = out.lines();
    assert_eq!(lines.next().unwrap(), "id,name,score,_rowid,_rowaddr");
    assert_eq!(lines.next().unwrap(), "1,alice,10.5,0,0");
}

// ---------- rendering options ----------

fn opts() -> RenderOptions {
    RenderOptions::default()
}

/// id (Int32), emb (FixedSizeList<Float32; 6>), score (Float64), text (Utf8).
fn wide(n: usize, precision: Option<usize>) -> Table {
    let item = Arc::new(field("item", arrow_schema::DataType::Float32, false));
    let small = |v: f32| -> Cell {
        Cell::Float(Float {
            bits: (v as f64).to_bits(),
            shortest: v.to_string(),
            wide: (v as f64).to_string(),
            json: serde_json::Number::from_f64(v as f64).unwrap().to_string(),
            fixed: precision.map(|p| format!("{v:.p$}")).unwrap_or_default(),
        })
    };
    let emb = |r: usize| Cell::List((0..6).map(|c| small((r * 6 + c) as f32 / 100.0)).collect());
    Table::new(vec![
        (field("id", arrow_schema::DataType::Int32, false), (0..n).map(|r| Cell::Int(r as i64)).collect()),
        (
            field("emb", arrow_schema::DataType::FixedSizeList(item, 6), false),
            (0..n).map(emb).collect(),
        ),
        (
            field("score", arrow_schema::DataType::Float64, true),
            (0..n).map(|r| float(0.123456 + r as f64, precision)).collect(),
        ),
        (
            field("text", arrow_schema::DataType::Utf8, true),
            (0..n)
                .map(|r| Cell::Text(format!("row-{r}-with-a-fairly-long-value-that-should-truncate")))
                .collect(),
        ),
    ])
}

fn rendered(format: Format, o: RenderOptions, t: &Table) -> String {
    let rows: Vec<usize> = (0..t.rows()).collect();
    render(format, o, &t.schema, &[t.take(&rows, None, &t.schema)]).unwrap()
}

#[test]
fn defaults_render_full_list_without_marker() {
    let v = parse(rendered(Format::Jsonl, opts(), &wide(1, None)).trim());
    let emb = v["emb"].as_array().unwrap();
    assert_eq!(emb.len(), 6, "default must render all 6 elements");
    assert!(emb.iter().all(|e| e.is_number()), "no truncation marker under defaults");
}

#[test]
fn default_float_matches_full_precision_string() {
    // 0.123456 must keep its shortest round-trip form under defaults.
    let v = parse(rendered(Format::Jsonl, opts(), &wide(1, None)).trim());
    assert_eq!(v["score"].as_f64().unwrap(), 0.123456);
}

#[test]
fn max_list_items_truncates_fixed_size_list_in_jsonl() {
    let o = RenderOptions { max_list_items: Some(4), ..opts() };
    let v = parse(rendered(Format::Jsonl, o, &wide(1, None)).trim());
    let emb = v["emb"].as_array().unwrap();
    assert_eq!(emb.len(), 5, "4 elements + 1 marker");
    assert_eq!(emb[4], Value::String("… (2 more)".to_string()));
    assert!(emb[..4].iter().all(|e| e.is_number()));
}

#[test]
fn max_list_items_marker_keeps_valid_json() {
    let o = RenderOptions { max_list_items: Some(1), ..opts() };
    for line in rendered(Format::Jsonl, o, &wide(3, None)).lines() {
        // Every truncated line is still parseable JSON.
        let v = parse(line);
        let emb = v["emb"].as_array().unwrap();
        assert_eq!(emb.len(), 2);
        assert_eq!(emb[1], Value::String("… (5 more)".to_string()));
    }
}

#[test]
fn max_list_items_appears_in_table_nested_cell() {
    let o = RenderOptions { max_list_items: Some(2), ..opts() };
    let table = rendered(Format::Table, o, &wide(1, None));
    assert!(table.contains("… (4 more)"), "table nested cell should carry the marker: {table}");
}

#[test]
fn float_precision_rounds_in_jsonl_and_stays_a_number() {
    let o = RenderOptions { float_precision: Some(3), ..opts() };
    let v = parse(rendered(Format::Jsonl, o, &wide(1, Some(3))).trim());
    assert!(v["score"].is_number());
    // The exact "0.123" digits are kept.
    assert_eq!(v["score"].to_string(), "0.123");
}

#[test]
fn float_precision_rounds_in_csv() {
    let t = Table::new(vec![(
        field("score", arrow_schema::DataType::Float64, false),
        vec![float(0.123456, Some(2))],
    )]);
    let o = RenderOptions { float_precision: Some(2), ..opts() };
    let csv = rendered(Format::Csv, o, &t);
    // header line + one data line.
    assert_eq!(csv.lines().nth(1).unwrap(), "0.12");
}

#[test]
fn max_cell_width_truncates_with_ellipsis() {
    let o = RenderOptions { max_cell_width: Some(10), ..opts() };
    let table = rendered(Format::Table, o, &wide(1, None));
    // The long text cell must be shortened and end with the ellipsis.
    assert!(table.contains("row-0-wit…"), "got: {table}");
    // And the full untruncated value must be gone.
    assert!(!table.contains("should-truncate"));
}

#[test]
fn max_cell_width_never_splits_a_codepoint() {
    let t = Table::new(vec![(
        field("t", arrow_schema::DataType::Utf8, false),
        vec![text(Some("日本語のテキストです"))],
    )]);
    let o = RenderOptions { max_cell_width: Some(5), ..opts() };
    let table = rendered(Format::Table, o, &t);
    // 4 kept chars + ellipsis.
    assert!(table.contains("日本語の…"), "got: {table}");
    assert_eq!(truncate_cell("abcdef".to_string(), 6), "abcdef");
    assert_eq!(truncate_cell("abcdef".to_string(), 1), "…");
}

#[test]
fn json_format_is_single_parseable_array() {
    let v = parse(&rendered(Format::Json, opts(), &wide(3, None)));
    let arr = v.as_array().unwrap();
    assert_eq!(arr.len(), 3);
    assert!(arr.iter().all(|o| o.is_object()));
    assert_eq!(arr[0]["id"], 0);
}

#[test]
fn json_format_empty_input_is_empty_array() {
    let v = parse(&rendered(Format::Json, opts(), &wide(0, None)));
    assert_eq!(v, Value::Array(vec![]));
}

#[test]
fn json_format_streams_each_object_before_finish() {
    let t = wide(2, None);
    let batch = t.take(&[0, 1], None, &t.schema);
    let mut out = String::new();
    let mut w = make_writer(Format::Json, opts(), TableStyle::Plain).unwrap();
    w.start(&t.schema, &mut out).unwrap();
    w.write_batch(&batch, &mut out).unwrap();
    // Both row objects are written, but the array is still open.
    assert!(out.starts_with('['));
    assert!(out.contains("\"id\":0") && out.contains("\"id\":1"));
    assert!(out.trim_end().ends_with('}'), "array must still be open before finish: {out}");
    w.finish(&mut out).unwrap();
    assert!(out.trim_end().ends_with(']'));
    assert_eq!(parse(&out).as_array().unwrap().len(), 2);
}

#[test]
fn combined_json_truncation_and_precision() {
    let o = RenderOptions { max_list_items: Some(3), float_precision: Some(2), ..opts() };
    let v = parse(&rendered(Format::Json, o, &wide(2, Some(2))));
    let arr = v.as_array().unwrap();
    assert_eq!(arr.len(), 2);
    for obj in arr {
        let emb = obj["emb"].as_array().unwrap();
        assert_eq!(emb.len(), 4); // 3 + marker
        assert_eq!(emb[3], Value::String("… (3 more)".to_string()));
        assert!(obj["score"].is_number());
    }
}

#[test]
fn csv_still_rejects_nested_even_with_max_list_items() {
    let o = RenderOptions { max_list_items: Some(2), ..opts() };
    let t = wide(1, None);
    let mut out = String::new();
    let mut w = make_writer(Format::Csv, o, TableStyle::Plain).unwrap();
    let err = w.start(&t.schema, &mut out);
    assert!(err.is_err(), "CSV must reject the nested embedding column");
}
