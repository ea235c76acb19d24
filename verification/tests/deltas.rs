//! Differences between two versions, and between two datasets.
use std::sync::Arc;

use arrs::cli::Format;
use arrs::commands::diff::{
    build_metadata_delta, build_report as compare_datasets, mode, scope_schemas, wants_json,
    DatasetDiffReport, Mode,
};
use arrs::commands::diff_common::{build_delta, build_schema_delta};
use arrs::commands::lance::deltas::{
    build_fragment_delta, build_index_delta, build_row_delta, file_set_differs, RowDelta,
};
use arrs::commands::lance::diff::{
    build_report, check_branches, versions_in_range, DiffSelectors, Endpoint,
};
use arrs::commands::Outcome;
use arrs::dataset::{
    CheckoutState, FragmentInfo, IndexInfo, Instant, VersionInfo, MAIN_BRANCH,
};
use arrs::error::Error;
use arrs::schema::{DataType, Field, Kind, Schema};
use serde_json::Value;

fn ty(t: &arrow_schema::DataType) -> DataType {
    let kind = match t {
        arrow_schema::DataType::Int32 => Kind::Int32,
        arrow_schema::DataType::Int64 => Kind::Int64,
        arrow_schema::DataType::Float64 => Kind::Float64,
        arrow_schema::DataType::Utf8 => Kind::Utf8,
        arrow_schema::DataType::Struct(fields) => Kind::Struct(Arc::new(
            fields
                .iter()
                .map(|f| Field::new(f.name(), ty(f.data_type()), f.is_nullable()))
                .collect(),
        )),
        other => panic!("{other}"),
    };
    DataType { kind, debug: format!("{t:?}"), display: t.to_string() }
}

fn field(name: &str, t: arrow_schema::DataType, nullable: bool) -> Field {
    Field::new(name, ty(&t), nullable)
}

fn json(text: &str) -> Value {
    serde_json::from_str(text).unwrap()
}

fn frag(id: u64, physical: u64, deleted: u64, files: &[&str]) -> FragmentInfo {
    FragmentInfo {
        id,
        physical_rows: physical,
        deleted_rows: deleted,
        num_files: files.len() as u64,
        files: files.iter().map(|s| s.to_string()).collect(),
        size: None,
    }
}

fn pairs(items: &[(&str, &str)]) -> Vec<(String, String)> {
    items.iter().map(|(a, b)| (a.to_string(), b.to_string())).collect()
}

fn triples(items: &[(&str, &str, &str)]) -> Vec<(String, String, String)> {
    items.iter().map(|(a, b, c)| (a.to_string(), b.to_string(), c.to_string())).collect()
}

// ---------- rows ----------

#[test]
fn row_delta_splits_append_and_delete() {
    // from: fragment 0 (2 rows). to: fragment 0 gained a tombstone, plus a
    // new fragment 1 with 1 row → +1 added, -1 deleted, net 0.
    let from = vec![frag(0, 2, 0, &["a.lance"])];
    let to = vec![frag(0, 2, 1, &["a.lance"]), frag(1, 1, 0, &["b.lance"])];
    let d = build_row_delta(&from, &to);
    assert_eq!(d.from_rows, 2);
    assert_eq!(d.to_rows, 2);
    assert_eq!(d.added, 1);
    assert_eq!(d.deleted, 1);
}

/// The split must always reconcile with the net live-row change.
fn assert_row_invariant(d: &RowDelta) {
    assert_eq!(
        d.added as i64 - d.deleted as i64,
        d.to_rows as i64 - d.from_rows as i64,
        "added - deleted must equal net"
    );
}

#[test]
fn row_delta_counts_restored_tombstones_as_added() {
    // A version `restore` un-deletes rows on a surviving fragment: from had
    // 2 tombstones (7 live), to has 0 (9 live) → +2 added, 0 deleted.
    let from = vec![frag(0, 9, 2, &["a.lance"])];
    let to = vec![frag(0, 9, 0, &["a.lance"])];
    let d = build_row_delta(&from, &to);
    assert_eq!(d.from_rows, 7);
    assert_eq!(d.to_rows, 9);
    assert_eq!(d.added, 2);
    assert_eq!(d.deleted, 0);
    assert_row_invariant(&d);
}

#[test]
fn row_delta_reversed_range_is_symmetric() {
    // The reverse of the append+delete case: fragment 1 disappears (deleted)
    // and fragment 0's tombstone is undone (added).
    let from = vec![frag(0, 2, 1, &["a.lance"]), frag(1, 1, 0, &["b.lance"])];
    let to = vec![frag(0, 2, 0, &["a.lance"])];
    let d = build_row_delta(&from, &to);
    assert_eq!(d.from_rows, 2);
    assert_eq!(d.to_rows, 2);
    assert_eq!(d.added, 1); // fragment 0 un-tombstoned
    assert_eq!(d.deleted, 1); // fragment 1 removed
    assert_row_invariant(&d);
}

#[test]
fn row_delta_pure_append() {
    let from = vec![frag(0, 2, 0, &["a.lance"])];
    let to = vec![frag(0, 2, 0, &["a.lance"]), frag(1, 3, 0, &["b.lance"])];
    let d = build_row_delta(&from, &to);
    assert_eq!(d.added, 3);
    assert_eq!(d.deleted, 0);
    assert_eq!(d.to_rows - d.from_rows, 3);
}

// ---------- schemas ----------

fn retyped_schemas() -> (Schema, Schema) {
    let from = Schema::new(vec![
        field("id", arrow_schema::DataType::Int32, false),
        field("gone", arrow_schema::DataType::Utf8, true),
        field("score", arrow_schema::DataType::Int32, true),
    ]);
    let to = Schema::new(vec![
        field("id", arrow_schema::DataType::Int32, false),
        field("score", arrow_schema::DataType::Int64, true), // retyped
        field("added", arrow_schema::DataType::Float64, true), // added
    ]);
    (from, to)
}

#[test]
fn diff_common_schema_delta_detects_add_remove_retype() {
    let (from, to) = retyped_schemas();
    let d = build_schema_delta(&from, &to);
    assert_eq!(d.added, pairs(&[("added", "Float64?")]));
    assert_eq!(d.removed, pairs(&[("gone", "Utf8?")]));
    assert_eq!(d.changed, triples(&[("score", "Int32?", "Int64?")]));
}

#[test]
fn diff_schema_delta_detects_add_remove_retype() {
    let (from, to) = retyped_schemas();
    let d = build_report(&endpoint(1, from, vec![]), &endpoint(2, to, vec![]), vec![]).schema;
    assert_eq!(d.added, pairs(&[("added", "Float64?")]));
    assert_eq!(d.removed, pairs(&[("gone", "Utf8?")]));
    assert_eq!(d.changed, triples(&[("score", "Int32?", "Int64?")]));
}

fn id_schema(nullable: bool) -> Schema {
    Schema::new(vec![field("id", arrow_schema::DataType::Int32, nullable)])
}

#[test]
fn diff_common_schema_delta_flags_nullability_change() {
    let d = build_schema_delta(&id_schema(false), &id_schema(true));
    assert_eq!(d.changed, triples(&[("id", "Int32", "Int32?")]));
}

#[test]
fn diff_schema_delta_flags_nullability_change() {
    let from = endpoint(1, id_schema(false), vec![]);
    let to = endpoint(2, id_schema(true), vec![]);
    let d = build_report(&from, &to, vec![]).schema;
    assert_eq!(d.changed, triples(&[("id", "Int32", "Int32?")]));
}

fn nested(inner: arrow_schema::DataType) -> Schema {
    Schema::new(vec![field(
        "meta",
        arrow_schema::DataType::Struct(
            vec![arrow_schema::Field::new("id", inner, true)].into_iter().collect(),
        ),
        true,
    )])
}

#[test]
fn schema_delta_compares_nested_structs_structurally() {
    let from = nested(arrow_schema::DataType::Int32);
    let to = nested(arrow_schema::DataType::Int64);
    let d = build_schema_delta(&from, &to);
    assert_eq!(d.changed.len(), 1);
    let (name, from_ty, to_ty) = &d.changed[0];
    assert_eq!(name, "meta");
    assert!(from_ty.contains("Int32"), "got {from_ty}");
    assert!(to_ty.contains("Int64"), "got {to_ty}");
}

#[test]
fn identical_schemas_are_empty() {
    let s = id_schema(false);
    assert!(build_schema_delta(&s, &s).is_empty());
}

#[test]
fn deltas_are_in_key_order() {
    let from = pairs(&[("z", "1"), ("m", "1"), ("b", "1")]);
    let to = pairs(&[("m", "2"), ("c", "1"), ("a", "1"), ("b", "1")]);
    let d = build_delta(&from, &to);
    assert_eq!(d.added, pairs(&[("a", "1"), ("c", "1")]));
    assert_eq!(d.removed, pairs(&[("z", "1")]));
    assert_eq!(d.changed, triples(&[("m", "1", "2")]));
    let back = build_delta(&to, &from);
    assert_eq!(back.added, d.removed);
    assert_eq!(back.removed, d.added);
    assert_eq!(back.changed, triples(&[("m", "2", "1")]));
    let mut rows = String::new();
    d.write_rows(&mut rows);
    assert_eq!(rows, "  + a: 1\n  + c: 1\n  - z: 1\n  ~ m: 1 -> 2\n");
}

// ---------- fragments and indices ----------

#[test]
fn fragment_delta_added_removed_rewritten() {
    // 0 survives with an extra data file (rewritten); 1 removed; 2 added.
    let from = vec![frag(0, 2, 0, &["0/a.lance"]), frag(1, 1, 0, &["1/a.lance"])];
    let to = vec![
        frag(0, 2, 0, &["0/a.lance", "0/b.lance"]),
        frag(2, 3, 0, &["2/a.lance"]),
    ];
    let d = build_fragment_delta(&from, &to);
    assert_eq!(d.added, vec![2]);
    assert_eq!(d.removed, vec![1]);
    assert_eq!(d.rewritten, vec![0]);
}

#[test]
fn fragment_delta_tombstone_only_is_not_rewritten() {
    let from = vec![frag(0, 2, 0, &["0/a.lance"])];
    let to = vec![frag(0, 2, 1, &["0/a.lance"])];
    let d = build_fragment_delta(&from, &to);
    assert!(d.added.is_empty() && d.removed.is_empty() && d.rewritten.is_empty());
}

#[test]
fn file_order_does_not_matter() {
    let a = frag(0, 1, 0, &["x", "y"]);
    let b = frag(0, 1, 0, &["y", "x"]);
    let c = frag(0, 1, 0, &["y", "z"]);
    assert!(!file_set_differs(&a, &b));
    assert!(file_set_differs(&a, &c));
}

fn index(name: &str) -> IndexInfo {
    IndexInfo {
        name: name.to_string(),
        index_type: "BTree".to_string(),
        uuid: "u".to_string(),
        columns: vec!["id".to_string()],
        dataset_version: 1,
        created_at: None,
    }
}

#[test]
fn index_delta_created_dropped() {
    let from = vec![index("old")];
    let to = vec![index("new")];
    let d = build_index_delta(&from, &to);
    assert_eq!(d.created, vec!["new".to_string()]);
    assert_eq!(d.dropped, vec!["old".to_string()]);
}

// ---------- two versions ----------

fn endpoint(version: u64, schema: Schema, fragments: Vec<FragmentInfo>) -> Endpoint {
    Endpoint { branch: MAIN_BRANCH.to_string(), version, schema, fragments, indices: vec![] }
}

#[test]
fn identical_endpoints_report_no_differences() {
    let from = endpoint(3, id_schema(false), vec![frag(0, 2, 0, &["a.lance"])]);
    let to = endpoint(3, id_schema(false), vec![frag(0, 2, 0, &["a.lance"])]);
    let report = build_report(&from, &to, vec![]);
    assert!(report.is_identical());
    let text = report.write_human("ds.lance");
    assert!(text.contains("No differences."), "got: {text}");
}

#[test]
fn different_endpoints_are_not_identical() {
    let from = endpoint(1, id_schema(false), vec![frag(0, 2, 0, &["a.lance"])]);
    let to = endpoint(
        2,
        id_schema(false),
        vec![frag(0, 2, 0, &["a.lance"]), frag(1, 1, 0, &["b.lance"])],
    );
    let report = build_report(&from, &to, vec![]);
    assert!(!report.is_identical());
    let v = json(&report.to_json());
    assert_eq!(v["identical"], false);
    assert_eq!(v["rows"]["added"], 1);
    assert_eq!(v["fragments"]["added"], json("[1]"));
}

#[test]
fn restore_endpoints_are_not_identical() {
    // Same fragment id + files, but tombstones removed (a restore). The only
    // change is the live-row count; this must not read as identical.
    let from = endpoint(2, id_schema(false), vec![frag(0, 9, 2, &["a.lance"])]);
    let to = endpoint(3, id_schema(false), vec![frag(0, 9, 0, &["a.lance"])]);
    let report = build_report(&from, &to, vec![]);
    assert!(!report.is_identical());
    assert_eq!(report.rows.added, 2);
    assert_eq!(report.rows.deleted, 0);
    let text = report.write_human("ds.lance");
    assert!(!text.contains("No differences."), "restore must not report identical: {text}");
}

fn value_schema(doubled: bool) -> Schema {
    let mut fields = vec![
        field("id", arrow_schema::DataType::Int32, false),
        field("value", arrow_schema::DataType::Utf8, true),
    ];
    if doubled {
        fields.push(field("doubled", arrow_schema::DataType::Int32, true));
    }
    Schema::new(fields)
}

/// Four versions: two rows written, one appended, one deleted, one column added.
fn version_of(n: u64) -> Endpoint {
    let fragments = match n {
        1 => vec![frag(0, 2, 0, &["0.lance"])],
        2 => vec![frag(0, 2, 0, &["0.lance"]), frag(1, 1, 0, &["1.lance"])],
        3 => vec![frag(0, 2, 1, &["0.lance"]), frag(1, 1, 0, &["1.lance"])],
        _ => vec![
            frag(0, 2, 1, &["0.lance", "0d.lance"]),
            frag(1, 1, 0, &["1.lance", "1d.lance"]),
        ],
    };
    endpoint(n, value_schema(n == 4), fragments)
}

fn history() -> Vec<VersionInfo> {
    (1..=4)
        .map(|version| VersionInfo {
            version,
            timestamp: Instant { secs: 1_780_000_000 + version as i64, nanos: 5 },
            tag: if version == 2 { Some("v2".to_string()) } else { None },
            message: None,
        })
        .collect()
}

fn compare(from: u64, to: u64) -> arrs::commands::lance::diff::DiffReport {
    build_report(&version_of(from), &version_of(to), versions_in_range(&history(), from, to))
}

#[test]
fn diff_pure_append_reports_added_rows_and_fragment() {
    let report = compare(1, 2);
    assert!(matches!(report.outcome(), Outcome::Different));
    let v = json(&report.to_json());
    assert_eq!(v["identical"], false);
    assert_eq!(v["rows"]["from"], 2);
    assert_eq!(v["rows"]["to"], 3);
    assert_eq!(v["rows"]["added"], 1);
    assert_eq!(v["rows"]["deleted"], 0);
    assert_eq!(v["rows"]["net"], 1);
    assert_eq!(v["fragments"]["added"], json("[1]"));
    assert_eq!(v["fragments"]["removed"], json("[]"));
}

#[test]
fn diff_delete_reports_deleted_split_not_just_net() {
    let v = json(&compare(2, 3).to_json());
    assert_eq!(v["rows"]["from"], 3);
    assert_eq!(v["rows"]["to"], 2);
    assert_eq!(v["rows"]["added"], 0);
    assert_eq!(v["rows"]["deleted"], 1);
    assert_eq!(v["rows"]["net"], -1);
    // A tombstone rewrites no data file, so it stays out of the fragment buckets.
    assert_eq!(v["fragments"]["added"], json("[]"));
    assert_eq!(v["fragments"]["removed"], json("[]"));
    assert_eq!(v["fragments"]["rewritten"], json("[]"));
}

#[test]
fn diff_schema_evolution_reports_added_column_and_rewritten_fragments() {
    let v = json(&compare(3, 4).to_json());
    let added = v["schema"]["added"].as_array().unwrap();
    assert_eq!(added.len(), 1);
    assert_eq!(added[0]["name"], "doubled");
    assert!(added[0]["type"].as_str().unwrap().starts_with("Int32"));
    // Both surviving fragments gained a data file → rewritten, not removed/added.
    assert_eq!(v["fragments"]["rewritten"], json("[0,1]"));
    assert_eq!(v["fragments"]["added"], json("[]"));
    assert_eq!(v["fragments"]["removed"], json("[]"));
    // Row count is unchanged by adding a column.
    assert_eq!(v["rows"]["added"], 0);
    assert_eq!(v["rows"]["deleted"], 0);
}

#[test]
fn diff_to_defaults_to_branch_latest_and_lists_version_log() {
    let selectors = DiffSelectors { from_version: Some(1), ..DiffSelectors::default() };
    let from = CheckoutState { branch: "main".to_string(), version: 1 };
    // No second selector → the latest of the first one's branch.
    let to = selectors.to_args(&from);
    assert!(!to.is_any_set());
    let v = json(&compare(1, 4).to_json());
    assert_eq!(v["to"]["version"], 4);
    let versions: Vec<u64> = v["versions"]
        .as_array()
        .unwrap()
        .iter()
        .map(|e| e["version"].as_u64().unwrap())
        .collect();
    assert_eq!(versions, vec![2, 3, 4]);
}

#[test]
fn the_latest_of_another_branch_is_asked_for_by_name() {
    let selectors = DiffSelectors { from_tag: Some("t".to_string()), ..DiffSelectors::default() };
    let from = CheckoutState { branch: "dev".to_string(), version: 3 };
    assert_eq!(selectors.to_args(&from).branch.as_deref(), Some("dev"));
    assert_eq!(selectors.from_args().tag.as_deref(), Some("t"));
}

#[test]
fn diff_selects_endpoints_by_tag() {
    let selectors = DiffSelectors {
        from_tag: Some("v2".to_string()),
        to_version: Some(3),
        ..DiffSelectors::default()
    };
    assert_eq!(selectors.from_args().tag.as_deref(), Some("v2"));
    let v = json(&compare(2, 3).to_json());
    assert_eq!(v["from"]["version"], 2);
    assert_eq!(v["from"]["branch"], "main");
    assert_eq!(v["to"]["version"], 3);
}

#[test]
fn diff_identical_versions_exit_zero_jsonl() {
    let report = compare(4, 4);
    assert!(matches!(report.outcome(), Outcome::Success));
    let v = json(&report.to_json());
    assert_eq!(v["identical"], true);
    assert_eq!(v["rows"]["net"], 0);
}

#[test]
fn diff_identical_versions_human_says_no_differences() {
    let text = compare(4, 4).write_human("ds");
    assert!(text.contains("No differences."), "{text}");
}

#[test]
fn diff_human_summary_reports_rows_and_schema() {
    let text = compare(1, 4).write_human("ds");
    assert!(text.contains("Rows:"), "missing Rows line:\n{text}");
    assert!(text.contains("+ doubled"), "missing added column:\n{text}");
    assert!(text.contains("Versions in range"), "missing version log:\n{text}");
}

#[test]
fn diff_is_told_in_two_formats() {
    let err = wants_json(Some(Format::Csv)).unwrap_err();
    assert!(err.message().contains("diff supports only"));
    assert!(!wants_json(None).unwrap());
    assert!(wants_json(Some(Format::Jsonl)).unwrap());
}

#[test]
fn diff_restore_reports_added_rows_not_no_differences() {
    let from = endpoint(2, value_schema(false), vec![frag(0, 9, 2, &["a.lance"])]);
    let to = endpoint(3, value_schema(false), vec![frag(0, 9, 0, &["a.lance"])]);
    let report = build_report(&from, &to, vec![]);
    let v = json(&report.to_json());
    assert_eq!(v["identical"], false);
    assert_eq!(v["rows"]["from"], 7);
    assert_eq!(v["rows"]["to"], 9);
    assert_eq!(v["rows"]["added"], 2);
    assert_eq!(v["rows"]["deleted"], 0);
    assert_eq!(v["rows"]["net"], 2);
    assert!(matches!(report.outcome(), Outcome::Different));
    assert!(!report.write_human("ds").contains("No differences."));
}

#[test]
fn diff_index_creation_is_reported() {
    let from = version_of(1);
    let mut to = version_of(1);
    to.version = 2;
    to.indices = vec![index("idx_id")];
    let v = json(&build_report(&from, &to, vec![]).to_json());
    assert_eq!(v["indices"]["created"], json("[\"idx_id\"]"));
    assert_eq!(v["indices"]["dropped"], json("[]"));
}

#[test]
fn endpoints_on_two_branches_are_refused() {
    let main = CheckoutState { branch: "main".to_string(), version: 2 };
    let dev = CheckoutState { branch: "dev".to_string(), version: 2 };
    let err = check_branches(&main, &dev).unwrap_err();
    assert!(err.message().contains("different branches"), "{}", err.message());
    assert!(check_branches(&main, &main.clone()).is_ok());
}

#[test]
fn the_version_log_is_half_open_either_way() {
    let numbers = |v: Vec<VersionInfo>| -> Vec<u64> { v.iter().map(|x| x.version).collect() };
    assert_eq!(numbers(versions_in_range(&history(), 1, 3)), vec![2, 3]);
    assert_eq!(numbers(versions_in_range(&history(), 3, 1)), vec![2, 3]);
    assert!(versions_in_range(&history(), 2, 2).is_empty());
}

// ---------- two datasets ----------

fn report(left_rows: u64, right_rows: u64, from: &Schema, to: &Schema) -> DatasetDiffReport {
    compare_datasets("a.lance", "b.lance", (left_rows, right_rows), (from, to), (from, to))
}

fn with_metadata(items: &[(&str, &str)]) -> Schema {
    Schema {
        fields: Arc::new(vec![field("id", arrow_schema::DataType::Int32, false)]),
        metadata: Arc::new(pairs(items)),
    }
}

#[test]
fn identical_datasets_report_no_differences() {
    let s = id_schema(false);
    let r = report(5, 5, &s, &s);
    assert!(r.is_identical());
    let text = r.write_human();
    assert!(text.contains("No differences."), "got: {text}");
    assert_eq!(json(&r.to_json())["identical"], true);
}

#[test]
fn rowcount_only_difference_is_not_identical() {
    let s = id_schema(false);
    let r = report(5, 8, &s, &s);
    assert!(!r.is_identical());
    let v = json(&r.to_json());
    assert_eq!(v["rows"]["left"], 5);
    assert_eq!(v["rows"]["right"], 8);
    assert_eq!(v["rows"]["net"], 3);
    // Schema is unchanged even though rows differ.
    assert_eq!(v["schema"]["added"], json("[]"));
}

#[test]
fn schema_only_difference_is_not_identical() {
    let from = id_schema(false);
    let to = Schema::new(vec![
        field("id", arrow_schema::DataType::Int32, false),
        field("extra", arrow_schema::DataType::Utf8, true),
    ]);
    let r = report(5, 5, &from, &to);
    assert!(!r.is_identical());
    let v = json(&r.to_json());
    assert_eq!(v["rows"]["net"], 0);
    assert_eq!(v["schema"]["added"][0]["name"], "extra");
}

#[test]
fn metadata_difference_alone_is_a_difference() {
    let from = id_schema(false);
    let to = with_metadata(&[("owner", "team-b")]);
    let r = report(5, 5, &from, &to);
    assert!(!r.is_identical());
    let v = json(&r.to_json());
    assert_eq!(v["metadata"]["added"][0]["key"], "owner");
    assert_eq!(v["metadata"]["added"][0]["value"], "team-b");
}

#[test]
fn metadata_changed_value_is_reported() {
    let from = with_metadata(&[("v", "1")]);
    let to = with_metadata(&[("v", "2")]);
    let d = build_metadata_delta(&from.metadata, &to.metadata);
    assert_eq!(d.changed, triples(&[("v", "1", "2")]));
    assert!(d.added.is_empty() && d.removed.is_empty());
}

fn id_value(id: arrow_schema::DataType, extra: bool) -> Schema {
    let mut fields =
        vec![field("id", id, false), field("value", arrow_schema::DataType::Utf8, true)];
    if extra {
        fields.push(field("extra", arrow_schema::DataType::Float64, true));
    }
    Schema::new(fields)
}

#[test]
fn dsdiff_identical_datasets_exit_zero() {
    let s = id_value(arrow_schema::DataType::Int32, false);
    let r = report(3, 3, &s, &s);
    assert!(matches!(r.outcome(), Outcome::Success));
    assert!(r.write_human().contains("No differences."));
    let v = json(&r.to_json());
    assert_eq!(v["identical"], true);
    assert_eq!(v["rows"]["net"], 0);
    assert_eq!(v["schema"]["added"], json("[]"));
    assert_eq!(v["schema"]["removed"], json("[]"));
    assert_eq!(v["schema"]["retyped"], json("[]"));
    assert_eq!(v["metadata"]["added"], json("[]"));
}

#[test]
fn dsdiff_schema_and_rowcount_difference_jsonl_fields() {
    let a = id_value(arrow_schema::DataType::Int32, false);
    let b = id_value(arrow_schema::DataType::Int32, true);
    let r = report(3, 2, &a, &b);
    assert!(matches!(r.outcome(), Outcome::Different));
    let v = json(&r.to_json());
    assert_eq!(v["left"], "a.lance");
    assert_eq!(v["right"], "b.lance");
    assert_eq!(v["identical"], false);
    assert_eq!(v["rows"]["left"], 3);
    assert_eq!(v["rows"]["right"], 2);
    assert_eq!(v["rows"]["net"], -1);
    let added = v["schema"]["added"].as_array().unwrap();
    assert_eq!(added.len(), 1);
    assert_eq!(added[0]["name"], "extra");
    assert!(added[0]["type"].as_str().unwrap().starts_with("Float64"));
    assert_eq!(v["schema"]["removed"], json("[]"));
    assert_eq!(v["schema"]["retyped"], json("[]"));
    // Metadata object is always present with its three arrays.
    assert!(v["metadata"]["added"].is_array());
    assert!(v["metadata"]["removed"].is_array());
    assert!(v["metadata"]["changed"].is_array());
}

#[test]
fn dsdiff_rowcount_only_difference() {
    let s = id_value(arrow_schema::DataType::Int32, false);
    let v = json(&report(3, 5, &s, &s).to_json());
    assert_eq!(v["rows"]["left"], 3);
    assert_eq!(v["rows"]["right"], 5);
    assert_eq!(v["rows"]["net"], 2);
    assert_eq!(v["schema"]["added"], json("[]"));
    assert_eq!(v["schema"]["removed"], json("[]"));
    assert_eq!(v["schema"]["retyped"], json("[]"));
}

#[test]
fn dsdiff_retyped_column_is_reported() {
    let a = id_value(arrow_schema::DataType::Int32, false);
    let b = id_value(arrow_schema::DataType::Int64, false);
    let v = json(&report(3, 3, &a, &b).to_json());
    let retyped = v["schema"]["retyped"].as_array().unwrap();
    assert_eq!(retyped.len(), 1);
    assert_eq!(retyped[0]["name"], "id");
    assert!(retyped[0]["from"].as_str().unwrap().starts_with("Int32"));
    assert!(retyped[0]["to"].as_str().unwrap().starts_with("Int64"));
}

#[test]
fn dsdiff_nested_type_difference_compared_structurally() {
    let a = nested(arrow_schema::DataType::Int64);
    let b = nested(arrow_schema::DataType::Int32);
    let v = json(&report(3, 3, &a, &b).to_json());
    let retyped = v["schema"]["retyped"].as_array().unwrap();
    assert_eq!(retyped.len(), 1, "expected one retyped column: {v}");
    assert_eq!(retyped[0]["name"], "meta");
    assert!(retyped[0]["from"].as_str().unwrap().contains("Int64"));
    assert!(retyped[0]["to"].as_str().unwrap().contains("Int32"));
}

#[test]
fn dsdiff_projection_scopes_the_comparison() {
    let a = id_value(arrow_schema::DataType::Int32, false);
    let b = id_value(arrow_schema::DataType::Int32, true);
    assert!(!report(3, 3, &a, &b).is_identical());
    let shared = vec!["id".to_string(), "value".to_string()];
    let (left, right) = scope_schemas("a", "b", &a, &b, Some(&shared), None).unwrap();
    let r = compare_datasets("a", "b", (3, 3), (&left, &right), (&a, &b));
    assert!(r.is_identical());
    assert!(r.write_human().contains("No differences."));
}

#[test]
fn dsdiff_projection_absent_on_one_side_errors() {
    let s = id_value(arrow_schema::DataType::Int32, false);
    let extra = vec!["extra".to_string()];
    let err = scope_schemas("a.lance", "b.lance", &s, &s, Some(&extra), None).unwrap_err();
    // The error names which dataset rejected the column: the left is resolved first.
    let text = err.message();
    assert!(text.contains("in a.lance:") && text.contains("unknown column 'extra'"), "{text}");
    let wide = id_value(arrow_schema::DataType::Int32, true);
    match scope_schemas("a.lance", "b.lance", &wide, &s, Some(&extra), None) {
        Err(Error::DiffColumn { path, .. }) => assert_eq!(path, "b.lance"),
        other => panic!("{other:?}"),
    }
}

#[test]
fn dsdiff_rejects_lance_version_selectors() {
    let selectors = DiffSelectors { from_version: Some(1), ..DiffSelectors::default() };
    let err = mode(true, &selectors).unwrap_err();
    assert!(err.message().contains("cannot combine a second dataset"));
    assert_eq!(mode(true, &DiffSelectors::default()).unwrap(), Mode::Datasets);
}

#[test]
fn every_other_format_of_a_diff_is_refused() {
    for format in [Format::Csv, Format::Table, Format::Json, Format::Ipc] {
        assert!(wants_json(Some(format)).unwrap_err().message().contains("diff supports only"));
    }
}

#[test]
fn diff_single_dataset_without_selector_errors() {
    let err = mode(false, &DiffSelectors::default()).unwrap_err();
    assert!(err.message().contains("needs either a second dataset"));
    let branch_only = DiffSelectors { branch: Some("dev".to_string()), ..DiffSelectors::default() };
    assert!(mode(false, &branch_only).is_err());
}

#[test]
fn reversed_deltas_swap_values() {
    let pair = |k: &str, v: &str| (k.to_string(), v.to_string());
    let a = vec![pair("x", "1"), pair("y", "2"), pair("z", "3")];
    let b = vec![pair("z", "4"), pair("w", "5"), pair("x", "6")];
    let (there, back) = (build_delta(&a, &b), build_delta(&b, &a));
    assert_eq!((&there.added, &there.removed), (&back.removed, &back.added));
    let swapped: Vec<(String, String, String)> =
        back.changed.into_iter().map(|(k, from, to)| (k, to, from)).collect();
    assert_eq!(there.changed, swapped);
    assert_eq!(there.changed.len(), 2);
}
