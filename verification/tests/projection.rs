//! Column selection.
use std::sync::Arc;

use arrs::commands::common::{project, project_arrow_schema};
use arrs::error::Error;
use arrs::projection::{
    classify, entry_positions, is_entry, leaf_paths, projected_field, resolve, validate_path, Token,
};
use arrs::schema::{DataType, Field, Kind, Schema};
use arrs::wildcard::wildcard_match;

fn lib_type(t: &arrow_schema::DataType) -> DataType {
    let kind = match t {
        arrow_schema::DataType::Int32 => Kind::Int32,
        arrow_schema::DataType::Int64 => Kind::Int64,
        arrow_schema::DataType::Float64 => Kind::Float64,
        arrow_schema::DataType::Utf8 => Kind::Utf8,
        arrow_schema::DataType::Struct(fields) => {
            Kind::Struct(Arc::new(fields.iter().map(|f| lib_field(f)).collect()))
        }
        other => panic!("{other}"),
    };
    DataType { kind, debug: format!("{t:?}"), display: t.to_string() }
}

fn lib_field(f: &arrow_schema::Field) -> Field {
    Field::new(f.name(), lib_type(f.data_type()), f.is_nullable())
}

fn lib_schema(fields: Vec<arrow_schema::Field>) -> Schema {
    Schema::new(fields.iter().map(lib_field).collect())
}

fn schema() -> Schema {
    lib_schema(vec![
        arrow_schema::Field::new("a", arrow_schema::DataType::Int32, true),
        arrow_schema::Field::new("b", arrow_schema::DataType::Utf8, true),
        arrow_schema::Field::new("c", arrow_schema::DataType::Float64, true),
    ])
}

fn nested_schema() -> Schema {
    let user = arrow_schema::Fields::from(vec![
        arrow_schema::Field::new("id", arrow_schema::DataType::Int64, true),
        arrow_schema::Field::new("name", arrow_schema::DataType::Utf8, true),
    ]);
    let meta = arrow_schema::Fields::from(vec![
        arrow_schema::Field::new("user", arrow_schema::DataType::Struct(user), true),
        arrow_schema::Field::new("source", arrow_schema::DataType::Utf8, true),
    ]);
    lib_schema(vec![
        arrow_schema::Field::new("id", arrow_schema::DataType::Int32, false),
        arrow_schema::Field::new("score", arrow_schema::DataType::Float64, true),
        arrow_schema::Field::new("emb_0", arrow_schema::DataType::Float64, true),
        arrow_schema::Field::new("emb_1", arrow_schema::DataType::Float64, true),
        arrow_schema::Field::new("emb_2", arrow_schema::DataType::Float64, true),
        arrow_schema::Field::new("meta", arrow_schema::DataType::Struct(meta), true),
    ])
}

fn v(items: &[&str]) -> Vec<String> {
    items.iter().map(|s| s.to_string()).collect()
}

#[test]
fn none_means_all() {
    let s = schema();
    assert!(resolve(&s, None, None).unwrap().is_none());
}

#[test]
fn include_preserves_user_order() {
    let s = schema();
    let got = resolve(&s, Some(&v(&["c", "a"])), None).unwrap().unwrap();
    assert_eq!(got, v(&["c", "a"]));
}

#[test]
fn exclude_keeps_schema_order() {
    let s = schema();
    let got = resolve(&s, None, Some(&v(&["b"]))).unwrap().unwrap();
    assert_eq!(got, v(&["a", "c"]));
}

#[test]
fn exclude_takes_precedence() {
    let s = schema();
    let got = resolve(&s, Some(&v(&["a", "b"])), Some(&v(&["b"])))
        .unwrap()
        .unwrap();
    assert_eq!(got, v(&["a", "c"]));
}

#[test]
fn projection_unknown_column_errors() {
    let s = schema();
    assert!(matches!(
        resolve(&s, Some(&v(&["zzz"])), None),
        Err(Error::UnknownColumn { .. })
    ));
}

#[test]
fn duplicate_errors() {
    let s = schema();
    assert!(matches!(
        resolve(&s, Some(&v(&["a", "a"])), None),
        Err(Error::DuplicateColumn(_))
    ));
}

// ---------------- globs ----------------

#[test]
fn glob_include_expands_in_schema_order() {
    let s = nested_schema();
    let got = resolve(&s, Some(&v(&["emb_*"])), None).unwrap().unwrap();
    assert_eq!(got, v(&["emb_0", "emb_1", "emb_2"]));
}

#[test]
fn glob_and_explicit_keep_relative_positions() {
    let s = nested_schema();
    // Glob expands in place; explicit `id` keeps its user position.
    let got = resolve(&s, Some(&v(&["id", "emb_*"])), None)
        .unwrap()
        .unwrap();
    assert_eq!(got, v(&["id", "emb_0", "emb_1", "emb_2"]));
}

#[test]
fn glob_question_matches_single_char() {
    let s = nested_schema();
    let got = resolve(&s, Some(&v(&["emb_?"])), None).unwrap().unwrap();
    assert_eq!(got, v(&["emb_0", "emb_1", "emb_2"]));
}

#[test]
fn glob_no_match_errors() {
    let s = nested_schema();
    assert!(matches!(
        resolve(&s, Some(&v(&["nope_*"])), None),
        Err(Error::NoGlobMatch { .. })
    ));
}

#[test]
fn glob_exclude_removes_matches() {
    let s = nested_schema();
    let got = resolve(&s, None, Some(&v(&["emb_*"]))).unwrap().unwrap();
    // `meta` is untouched by the glob, so it stays a whole struct column.
    assert_eq!(got, v(&["id", "score", "meta"]));
}

#[test]
fn glob_overlap_with_explicit_dedupes_explicit_first() {
    let s = nested_schema();
    // `emb_1` matched by both the explicit name and the glob: appears once,
    // at its first position (the explicit one, index 0).
    let got = resolve(&s, Some(&v(&["emb_1", "emb_*"])), None)
        .unwrap()
        .unwrap();
    assert_eq!(got, v(&["emb_1", "emb_0", "emb_2"]));
}

#[test]
fn glob_overlap_with_explicit_dedupes_glob_first() {
    let s = nested_schema();
    // Reverse order must not error: the glob introduces `emb_1`, and the
    // later explicit `emb_1` dedupes silently at its glob position.
    let got = resolve(&s, Some(&v(&["emb_*", "emb_1"])), None)
        .unwrap()
        .unwrap();
    assert_eq!(got, v(&["emb_0", "emb_1", "emb_2"]));
}

#[test]
fn explicit_named_twice_still_errors() {
    let s = nested_schema();
    // Two *explicit* mentions remain a duplicate error.
    assert!(matches!(
        resolve(&s, Some(&v(&["emb_1", "emb_1"])), None),
        Err(Error::DuplicateColumn(_))
    ));
}

#[test]
fn literal_star_name_wins_over_glob() {
    let s = lib_schema(vec![
        arrow_schema::Field::new("a*b", arrow_schema::DataType::Int32, true),
        arrow_schema::Field::new("axb", arrow_schema::DataType::Int32, true),
    ]);
    // Exact match on the literal `a*b` column wins; `axb` is not pulled in.
    let got = resolve(&s, Some(&v(&["a*b"])), None).unwrap().unwrap();
    assert_eq!(got, v(&["a*b"]));
}

// ---------------- nested paths ----------------

#[test]
fn nested_path_include() {
    let s = nested_schema();
    let got = resolve(&s, Some(&v(&["meta.user.id", "id"])), None)
        .unwrap()
        .unwrap();
    assert_eq!(got, v(&["meta.user.id", "id"]));
}

#[test]
fn nested_unknown_field_errors() {
    let s = nested_schema();
    assert!(matches!(
        resolve(&s, Some(&v(&["meta.nope"])), None),
        Err(Error::UnknownNestedField { .. })
    ));
}

#[test]
fn nested_non_struct_traversal_errors() {
    let s = nested_schema();
    assert!(matches!(
        resolve(&s, Some(&v(&["score.x"])), None),
        Err(Error::NonStructField { .. })
    ));
}

#[test]
fn literal_dotted_name_wins_over_path() {
    let s = lib_schema(vec![
        arrow_schema::Field::new("meta.user", arrow_schema::DataType::Int32, true),
        arrow_schema::Field::new("other", arrow_schema::DataType::Int32, true),
    ]);
    // Exact top-level match on `meta.user` wins over path interpretation.
    let got = resolve(&s, Some(&v(&["meta.user"])), None)
        .unwrap()
        .unwrap();
    assert_eq!(got, v(&["meta.user"]));
}

#[test]
fn exclude_nested_leaf_flattens_siblings() {
    let s = nested_schema();
    let got = resolve(&s, None, Some(&v(&["meta.user.id"])))
        .unwrap()
        .unwrap();
    // `meta` becomes its surviving leaves as flat dotted columns.
    assert_eq!(
        got,
        v(&[
            "id",
            "score",
            "emb_0",
            "emb_1",
            "emb_2",
            "meta.user.name",
            "meta.source"
        ])
    );
}

#[test]
fn exclude_nested_subtree_prunes_all_children() {
    let s = nested_schema();
    let got = resolve(&s, None, Some(&v(&["meta.user"])))
        .unwrap()
        .unwrap();
    assert_eq!(
        got,
        v(&["id", "score", "emb_0", "emb_1", "emb_2", "meta.source"])
    );
}

// ---------------- projected_field ----------------

#[test]
fn projected_field_top_level() {
    let s = nested_schema();
    let f = projected_field(&s, "id");
    assert_eq!(f.name, "id");
    assert!(matches!(f.data_type.kind, Kind::Int32));
    assert!(!f.nullable);
}

#[test]
fn projected_field_nested_leaf_uses_dotted_name() {
    let s = nested_schema();
    let f = projected_field(&s, "meta.user.id");
    assert_eq!(f.name, "meta.user.id");
    assert!(matches!(f.data_type.kind, Kind::Int64));
    // nullable because ancestor structs are nullable.
    assert!(f.nullable);
}

// ---------------- wildcard matcher ----------------

#[test]
fn wildcard_semantics() {
    assert!(wildcard_match("*", "anything"));
    assert!(wildcard_match("emb_*", "emb_12"));
    assert!(wildcard_match("emb_?", "emb_3"));
    assert!(!wildcard_match("emb_?", "emb_33"));
    assert!(wildcard_match("a*b*c", "aXXbYYc"));
    assert!(!wildcard_match("a*b*c", "aXXb"));
    assert!(wildcard_match("abc", "abc"));
    assert!(!wildcard_match("abc", "abcd"));
}

#[test]
fn errors_list_what_is_there() {
    let s = nested_schema();
    assert_eq!(
        resolve(&schema(), Some(&v(&["zzz"])), None).unwrap_err().message(),
        "unknown column 'zzz' (available: a, b, c)"
    );
    assert_eq!(
        resolve(&s, Some(&v(&["nope_*"])), None).unwrap_err().message(),
        "pattern 'nope_*' matches no columns (available: id, score, emb_0, emb_1, emb_2, meta)"
    );
    assert_eq!(
        resolve(&s, None, Some(&v(&["meta.user.zip"]))).unwrap_err().message(),
        "unknown field 'zip' in 'meta.user' for path 'meta.user.zip' (available: id, name)"
    );
    assert_eq!(
        resolve(&s, Some(&v(&["score.x"])), None).unwrap_err().message(),
        "cannot descend into 'score' in path 'score.x': 'score' is not a struct (found Float64)"
    );
}

#[test]
fn everything_can_be_excluded() {
    let s = schema();
    let got = resolve(&s, None, Some(&v(&["*"]))).unwrap().unwrap();
    assert!(got.is_empty());
}

#[test]
fn tokens_are_told_apart() {
    let top = v(&["a", "x.y", "s*r"]);
    assert!(matches!(classify("x.y", &top), Token::TopLevel));
    assert!(matches!(classify("s*r", &top), Token::TopLevel));
    assert!(matches!(classify("a*", &top), Token::Glob));
    assert!(matches!(classify("a.b", &top), Token::Path));
    assert!(matches!(classify("b", &top), Token::Unknown));
}

#[test]
fn leaves_of_a_struct_are_dotted() {
    let s = nested_schema();
    assert_eq!(
        leaf_paths("meta", &s.fields[5]),
        v(&["meta.user.id", "meta.user.name", "meta.source"])
    );
    assert_eq!(leaf_paths("id", &s.fields[0]), v(&["id"]));
    assert!(validate_path(&s, "meta.user").is_ok());
    assert!(is_entry(&s, "meta.user.id") && is_entry(&s, "meta") && !is_entry(&s, "meta.zip"));
}

#[test]
fn nested_projection_header_matches_scan_output() {
    let s = nested_schema();
    let wanted = v(&["meta.source", "meta.user.name", "id", "emb_1"]);
    let header = project(&s, Some(&wanted), None).unwrap();
    assert_eq!(header.entries, Some(wanted.clone()));
    let shown: Vec<(&str, &str, bool)> = header
        .schema
        .fields
        .iter()
        .map(|f| (f.name.as_str(), f.data_type.display.as_str(), f.nullable))
        .collect();
    assert_eq!(
        shown,
        vec![
            ("meta.source", "Utf8", true),
            ("meta.user.name", "Utf8", true),
            ("id", "Int32", false),
            ("emb_1", "Float64", true),
        ]
    );
    let again = project_arrow_schema(&s, Some(&wanted));
    assert_eq!(again.fields.len(), 4);
}

#[test]
fn schema_arrow_nested_flat_fields() {
    let s = nested_schema();
    let wanted = v(&["meta.user.id", "id"]);
    let projected = project(&s, Some(&wanted), None).unwrap().schema;
    assert!(projected.fields.iter().any(|f| f.name == "meta.user.id"));
}

#[test]
fn wildcards_backtrack() {
    assert!(wildcard_match("*a*a*b", "aaab"));
    assert!(!wildcard_match("*a*a*b", "ab"));
    assert!(wildcard_match("**", ""));
    assert!(!wildcard_match("?", ""));
    assert!(wildcard_match("", ""));
    assert!(wildcard_match("日?語*", "日本語"));
}

#[test]
fn positions_lead_to_the_field_of_an_entry() {
    let schema = nested_schema();
    for (entry, at) in
        [("id", vec![0]), ("meta", vec![5]), ("meta.user", vec![5, 0]), ("meta.user.name", vec![5, 0, 1])]
    {
        assert_eq!(entry_positions(&schema, entry), at, "{entry}");
    }
}
