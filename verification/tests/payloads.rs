//! Binary payloads, and output that is not for a terminal.
use arrs::cell::Cell;
use arrs::commands::blob::{
    binary_cell_bytes, ensure_binary_type, guard_not_terminal, is_blob_column, locate, temp_path,
    Extraction,
};
use arrs::error::Error;
use arrs::output::ipc;
use arrs::schema::{DataType, Field, Kind, Schema};

fn ty(kind: Kind, label: &str) -> DataType {
    DataType { kind, debug: label.to_string(), display: label.to_string() }
}

fn schema() -> Schema {
    Schema::new(vec![
        Field::new("id", ty(Kind::Int32, "Int32"), false),
        Field::new("payload", ty(Kind::Binary, "Binary"), true),
        Field::new("blob", ty(Kind::LargeBinary, "LargeBinary"), true),
    ])
}

#[test]
fn tty_guard_refuses_terminal() {
    assert!(matches!(guard_not_terminal(true), Err(Error::BlobToTty)));
}

#[test]
fn tty_guard_allows_non_terminal() {
    assert!(guard_not_terminal(false).is_ok());
}

#[test]
fn guard_refuses_terminal_but_allows_pipe() {
    assert!(ipc::guard_not_terminal(false).is_ok());
    assert!(matches!(ipc::guard_not_terminal(true), Err(Error::IpcToTerminal)));
}

#[test]
fn non_binary_type_is_rejected() {
    assert!(matches!(
        ensure_binary_type("id", &ty(Kind::Int32, "Int32")),
        Err(Error::NotBinaryColumn { .. })
    ));
}

#[test]
fn binary_types_are_accepted() {
    for kind in [Kind::Binary, Kind::LargeBinary, Kind::BinaryView, Kind::FixedSizeBinary(4)] {
        let dt = ty(kind, "b");
        assert!(ensure_binary_type("payload", &dt).is_ok(), "{dt:?}");
    }
}

#[test]
fn temp_path_is_a_sibling() {
    let p = std::path::Path::new("/tmp/out.png");
    let t = temp_path("/tmp/out.png", 4711);
    assert_eq!(t, "/tmp/out.png.arrs-blob-4711.tmp");
    let t = std::path::Path::new(&t);
    assert_eq!(t.parent(), p.parent());
    assert_ne!(t, p);
    assert!(t.file_name().unwrap().to_str().unwrap().starts_with("out.png"));
}

/// The bytes of one cell of a plain column with these cells.
fn extract(column: &str, index: i64) -> Result<Vec<u8>, Error> {
    let cells = [Some(b"\x00\x01".to_vec()), Some(b"two".to_vec()), None, Some(b"last".to_vec())];
    match locate(&schema(), column, index, cells.len() as u64, false)? {
        Extraction::Taken(row) => {
            let cell = match &cells[row as usize] {
                Some(b) => Cell::Binary(b.clone()),
                None => Cell::Null,
            };
            binary_cell_bytes(column, row, cell)
        }
        Extraction::Streamed(_) => panic!("streamed"),
    }
}

#[test]
fn a_binary_cell_is_taken_whole() {
    assert_eq!(extract("payload", 0).unwrap(), b"\x00\x01");
}

#[test]
fn binary_negative_index_is_last_row() {
    assert_eq!(extract("payload", -1).unwrap(), b"last");
}

#[test]
fn null_cell_errors_and_writes_no_file() {
    let err = extract("payload", 2).unwrap_err();
    assert!(err.message().contains("is null"), "{}", err.message());
}

#[test]
fn non_binary_column_errors() {
    let text = extract("id", 0).unwrap_err().message();
    assert!(text.contains("not a binary column") || text.contains("blob cannot extract"), "{text}");
}

#[test]
fn out_of_range_index_errors() {
    assert!(extract("payload", 99).unwrap_err().message().contains("out of range"));
}

#[test]
fn blob_unknown_column_errors() {
    assert!(extract("nope", 0).unwrap_err().message().contains("unknown column"));
}

#[test]
fn blob_column_negative_index() {
    assert_eq!(locate(&schema(), "blob", -1, 4, true).unwrap(), Extraction::Streamed(3));
    // A blob-encoded column is told apart before its type matters.
    assert_eq!(locate(&schema(), "id", 0, 4, true).unwrap(), Extraction::Streamed(0));
}

#[test]
fn blob_columns_are_marked_true() {
    assert!(is_blob_column(Some("true")));
    assert!(!is_blob_column(Some("false")));
    assert!(!is_blob_column(Some("")));
    assert!(!is_blob_column(None));
}
