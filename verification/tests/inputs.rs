//! Which inputs are read, and how.
use arrs::commands::cat::{check_schemas, expand_inputs, is_glob_pattern, require_inputs, Probe};
use arrs::dataset::{detect_format, has_scheme, Format, ScanOptions};
use arrs::error::Error;
use arrs::schema::{DataType, Field, Kind, Schema};

#[test]
fn scheme_detection_matches_object_store_uris() {
    for uri in [
        "s3://bucket/data.lance",
        "gs://analytics/events.lance",
        "az://container/data.lance",
        "file:///data/foo.lance",
        "s3+http://host/bucket/data",
    ] {
        assert!(has_scheme(uri), "expected scheme in {uri:?}");
    }
}

#[test]
fn scheme_detection_rejects_local_paths() {
    for path in [
        "/data/foo.lance",
        "./relative/foo.lance",
        "foo.lance",
        "C:\\data\\foo.lance",
        "",
        "://missing-scheme",
    ] {
        assert!(!has_scheme(path), "did not expect scheme in {path:?}");
    }
}

#[test]
fn scheme_qualified_input_dispatches_to_lance_without_touching_fs() {
    // No filesystem access happens for scheme-qualified inputs; a bucket URI
    // that obviously doesn't exist locally still resolves to `Lance`.
    assert_eq!(
        detect_format("s3://no-such-bucket/data.lance", false).unwrap(),
        Format::Lance,
    );
}

#[test]
fn scheme_less_nonexistent_local_path_is_unknown_format() {
    let err = detect_format("/definitely/not/a/dataset/xyz", false).unwrap_err();
    match err {
        Error::UnknownFormat { path } => {
            assert_eq!(path, "/definitely/not/a/dataset/xyz");
        }
        other => panic!("expected UnknownFormat, got {other:?}"),
    }
}

#[test]
fn open_non_lance_path_errors_with_unknown_format() {
    // A directory that lacks `_versions/` is not recognised as a Lance dataset.
    let err = detect_format("not-a-dataset", false).unwrap_err();
    assert_eq!(err.message(), "unrecognised dataset format at not-a-dataset");
    assert!(matches!(err, Error::UnknownFormat { .. }));
    assert_eq!(detect_format("a-dataset", true).unwrap(), Format::Lance);
}

#[test]
fn a_scan_of_everything_is_the_default() {
    let all = ScanOptions::default();
    assert!(all.projection.is_none() && all.filter.is_none() && !all.row_ids.any());
}

// ---------- patterns ----------

fn v(items: &[&str]) -> Vec<String> {
    items.iter().map(|s| s.to_string()).collect()
}

fn found(matches: &[&str]) -> Probe {
    Probe { exists: false, matches: Ok(v(matches)) }
}

#[test]
fn glob_expands_multiple_matches_in_lexicographic_order() {
    // Found out of lexical order, to show the sort.
    let probes = vec![found(&["/d/part_c.lance", "/d/part_a.lance", "/d/part_b.lance"])];
    let out = expand_inputs(&v(&["/d/part_*.lance"]), &probes).unwrap();
    assert_eq!(out, v(&["/d/part_a.lance", "/d/part_b.lance", "/d/part_c.lance"]));
}

#[test]
fn glob_no_match_is_an_error() {
    let pattern = "/d/nomatch_*.lance".to_string();
    let err = expand_inputs(std::slice::from_ref(&pattern), &vec![found(&[])]).unwrap_err();
    assert!(
        matches!(err, Error::InputGlobNoMatch { pattern: ref p } if *p == pattern),
        "expected InputGlobNoMatch, got {err:?}"
    );
}

#[test]
fn cat_glob_no_match_is_an_error() {
    let err = expand_inputs(&v(&["nomatch_*.lance"]), &vec![found(&[])]).unwrap_err();
    assert!(err.message().contains("matched no files"), "{}", err.message());
}

#[test]
fn literal_path_with_glob_chars_that_exists_is_used_as_is() {
    let literal = "/d/weird[1].lance".to_string();
    let probes = vec![Probe { exists: true, matches: Ok(v(&["/d/weird1.lance"])) }];
    let out = expand_inputs(std::slice::from_ref(&literal), &probes).unwrap();
    // Passed through verbatim rather than treated as a `[1]` character class.
    assert_eq!(out, vec![literal]);
}

#[test]
fn remote_uris_pass_through_untouched() {
    // Contains a `*`, but a remote URI must never be globbed locally.
    let uris = vec![
        "s3://bucket/part_*.lance".to_string(),
        "gs://analytics/events.lance".to_string(),
    ];
    let out = expand_inputs(&uris, &vec![found(&["x"]), found(&[])]).unwrap();
    assert_eq!(out, uris);
}

#[test]
fn scheme_less_non_glob_missing_path_passes_through() {
    // No glob chars and does not exist: passed through so `open` reports it.
    let out = expand_inputs(&["/no/such/dataset.lance".to_string()], &vec![found(&[])]).unwrap();
    assert_eq!(out, vec!["/no/such/dataset.lance".to_string()]);
}

#[test]
fn malformed_patterns_are_reported() {
    let probes = vec![
        found(&[]),
        Probe { exists: false, matches: Err("invalid range pattern".to_string()) },
    ];
    match expand_inputs(&v(&["a.lance", "b[.lance"]), &probes) {
        Err(Error::InvalidGlobPattern { pattern, message }) => {
            assert_eq!(pattern, "b[.lance");
            assert_eq!(message, "invalid range pattern");
        }
        other => panic!("{other:?}"),
    }
}

#[test]
fn patterns_and_paths_keep_their_places() {
    let probes = vec![found(&["b2", "b1"]), found(&[]), found(&["a1"])];
    let out = expand_inputs(&v(&["b?", "z", "a*"]), &probes).unwrap();
    assert_eq!(out, v(&["b1", "b2", "z", "a1"]));
    assert!(is_glob_pattern("a[0]") && is_glob_pattern("?") && !is_glob_pattern("plain"));
}

#[test]
fn no_inputs_is_an_error() {
    assert!(matches!(require_inputs(&[]), Err(Error::EmptyInputs)));
    assert!(require_inputs(&v(&["a"])).is_ok());
}

// ---------- schemas ----------

fn ty(kind: Kind, label: &str) -> DataType {
    DataType { kind, debug: label.to_string(), display: label.to_string() }
}

#[test]
fn inputs_must_agree_with_the_first() {
    let a = || Schema::new(vec![Field::new("id", ty(Kind::Int32, "Int32"), false)]);
    let b = || Schema::new(vec![Field::new("id", ty(Kind::Int64, "Int64"), false)]);
    let c = || Schema::new(vec![]);
    let names = v(&["x", "y", "z"]);
    assert!(check_schemas(&names, &vec![a(), a(), a()]).is_ok());
    match check_schemas(&names, &vec![a(), a(), b()]) {
        Err(Error::SchemaMismatch { left, right, field }) => {
            assert_eq!((left.as_str(), right.as_str(), field.as_str()), ("x", "z", "id"));
        }
        other => panic!("{other:?}"),
    }
    match check_schemas(&names, &vec![a(), c(), b()]) {
        Err(Error::SchemaMismatch { right, field, .. }) => {
            assert_eq!(right, "y");
            assert_eq!(field, "column count differs (1 vs 0)");
        }
        other => panic!("{other:?}"),
    }
}
