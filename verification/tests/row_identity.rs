//! Row identity columns.
use std::sync::Arc;

use arrs::commands::common::{prepare_row_id_columns, require_lance, require_row_ids};
use arrs::error::Error;
use arrs::row_id::{
    extend_schema, strip_columns, validate_exclude, RowIds, ROW_ADDR, ROW_ID,
};
use arrs::schema::{DataType, Field, Kind, Schema};

fn int32() -> DataType {
    DataType { kind: Kind::Int32, debug: "Int32".to_string(), display: "Int32".to_string() }
}

fn v(items: &[&str]) -> Vec<String> {
    items.iter().map(|s| s.to_string()).collect()
}

#[test]
fn columns_are_ordered_rowid_then_rowaddr() {
    let both = RowIds {
        with_row_id: true,
        with_row_addr: true,
    };
    assert_eq!(both.columns(), vec![ROW_ID, ROW_ADDR]);
    assert!(both.any());

    let none = RowIds::default();
    assert!(none.columns().is_empty());
    assert!(!none.any());
}

#[test]
fn strip_removes_only_flagged_system_columns() {
    let flags = RowIds {
        with_row_id: true,
        with_row_addr: false,
    };
    // `_rowid` is stripped (flag set); `_rowaddr` is kept (flag unset).
    let cols = v(&["id", "_rowid", "_rowaddr"]);
    assert_eq!(
        strip_columns(Some(&cols), flags),
        Some(v(&["id", "_rowaddr"]))
    );
    // No projection stays "all columns".
    assert_eq!(strip_columns(None, flags), None);
}

#[test]
fn exclude_of_flagged_system_column_errors() {
    let flags = RowIds {
        with_row_id: true,
        with_row_addr: false,
    };
    let excl = v(&["_rowid"]);
    assert!(matches!(
        validate_exclude(Some(&excl), flags),
        Err(Error::RowIdExcluded { .. })
    ));
    // Excluding `_rowaddr` while only `--with-row-id` is set is not our
    // concern: it falls through to the normal resolver.
    let excl = v(&["_rowaddr"]);
    assert!(validate_exclude(Some(&excl), flags).is_ok());
}

#[test]
fn extend_schema_appends_uint64_fields() {
    let base = Schema::new(vec![Field::new("id", int32(), false)]);
    let flags = RowIds {
        with_row_id: true,
        with_row_addr: true,
    };
    let out = extend_schema(&base, flags);
    let names: Vec<&str> = out.fields.iter().map(|f| f.name.as_str()).collect();
    assert_eq!(names, vec!["id", ROW_ID, ROW_ADDR]);
    assert!(matches!(out.fields[1].data_type.kind, Kind::UInt64));
    assert!(out.fields[1].nullable);
}

#[test]
fn extending_yields_the_columns_alone() {
    let base = Schema {
        fields: Arc::new(vec![Field::new("id", int32(), false)]),
        metadata: Arc::new(vec![("owner".to_string(), "me".to_string())]),
    };
    let out = extend_schema(&base, RowIds { with_row_id: false, with_row_addr: true });
    assert_eq!(out.fields.len(), 2);
    assert_eq!(out.fields[1].name, "_rowaddr");
    assert_eq!(out.fields[1].data_type.display, arrow_schema::DataType::UInt64.to_string());
    assert!(out.metadata.is_empty());
    let same = extend_schema(&base, RowIds { with_row_id: false, with_row_addr: false });
    assert_eq!(*same.metadata, vec![("owner".to_string(), "me".to_string())]);
}

#[test]
fn excluding_a_flagged_column_names_the_flag() {
    let flags = RowIds { with_row_id: true, with_row_addr: true };
    let excl = v(&["name", "_rowaddr", "_rowid"]);
    match validate_exclude(Some(&excl), flags) {
        Err(e) => assert_eq!(
            e.message(),
            "cannot exclude the system column '_rowaddr': it is always emitted with --with-row-addr; drop the flag instead"
        ),
        Ok(()) => panic!("accepted"),
    }
}

#[test]
fn row_identity_needs_a_dataset_that_has_it() {
    let flags = RowIds { with_row_id: true, with_row_addr: false };
    let none = RowIds { with_row_id: false, with_row_addr: false };
    assert!(matches!(
        prepare_row_id_columns("a.csv", false, None, None, flags),
        Err(Error::RowIdUnsupported { path }) if path == "a.csv"
    ));
    assert!(require_row_ids("a.csv", false, none).is_ok());
    assert!(require_row_ids("a.lance", true, flags).is_ok());
    assert!(require_row_ids("a.csv", false, flags).is_err());
    let cols = v(&["_rowid", "id"]);
    assert_eq!(
        prepare_row_id_columns("a.lance", true, Some(&cols), None, flags).unwrap(),
        Some(v(&["id"]))
    );
}

#[test]
fn excluding_rowid_while_flagged_is_a_clean_error() {
    let excl = v(&["_rowid"]);
    let flags = RowIds { with_row_id: true, with_row_addr: false };
    let err = prepare_row_id_columns("s", true, None, Some(&excl), flags).unwrap_err();
    assert!(err.message().contains("cannot exclude the system column '_rowid'"));
}

#[test]
fn commands_of_one_format_need_that_format() {
    assert!(require_lance("search", "x", true).is_ok());
    let err = require_lance("search", "x", false).unwrap_err();
    assert_eq!(err.message(), "'search' is only valid for Lance datasets (x)");
}
