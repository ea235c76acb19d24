//! Nearest-neighbour search.
use std::sync::Arc;

use arrs::commands::lance::search::{
    check_dims, flat_search_note, query_source, search_projection, vector_column_dim, QuerySource,
    Reading,
};
use arrs::error::Error;
use arrs::schema::{DataType, Field, Kind, Schema};

fn ty(kind: Kind, label: &str) -> DataType {
    DataType { kind, debug: label.to_string(), display: label.to_string() }
}

fn vector(item: Kind, n: i32) -> DataType {
    ty(Kind::FixedSizeList(Arc::new(Field::new("item", ty(item, "x"), true)), n), "vector")
}

fn schema() -> Schema {
    Schema::new(vec![
        Field::new("id", ty(Kind::Int32, "Int32"), false),
        Field::new("emb", vector(Kind::Float32, 4), true),
        Field::new("half", vector(Kind::Float16, 2), true),
        Field::new("ints", vector(Kind::Int32, 4), true),
    ])
}

#[test]
fn vectors_come_inline_from_a_file_or_from_stdin() {
    assert!(matches!(query_source(Some("[1]"), Some("f")), Some(QuerySource::Inline("[1]"))));
    assert!(matches!(query_source(None, Some("f")), Some(QuerySource::File("f"))));
    assert!(query_source(None, None).is_none());
    assert!(matches!(QuerySource::Inline("-").reading(), Reading::Text("-")));
    assert!(matches!(QuerySource::File("-").reading(), Reading::Stdin));
    assert!(matches!(QuerySource::File("q.json").reading(), Reading::File("q.json")));
}

#[test]
fn only_float_vectors_are_searched() {
    assert_eq!(vector_column_dim(&schema(), "emb").unwrap(), 4);
    assert_eq!(vector_column_dim(&schema(), "half").unwrap(), 2);
    assert!(matches!(vector_column_dim(&schema(), "zip"), Err(Error::UnknownColumn { .. })));
    assert!(matches!(vector_column_dim(&schema(), "id"), Err(Error::NotVectorColumn { .. })));
    assert!(matches!(vector_column_dim(&schema(), "ints"), Err(Error::NotVectorColumn { .. })));
}

#[test]
fn widths_must_agree() {
    assert!(check_dims(4, "emb", 4).is_ok());
    let err = check_dims(512, "embedding", 768).unwrap_err();
    assert_eq!(err.message(), "query has 512 dims, column embedding has 768");
}

#[test]
fn distances_come_last_unless_they_are_asked_for() {
    assert_eq!(
        search_projection(&schema(), None),
        vec!["id", "emb", "half", "ints", "_distance"]
    );
    let some = vec!["_distance".to_string(), "id".to_string()];
    assert_eq!(search_projection(&schema(), Some(&some)), some);
    let one = vec!["id".to_string()];
    assert_eq!(search_projection(&schema(), Some(&one)), vec!["id", "_distance"]);
}

#[test]
fn exhaustive_searches_are_noted() {
    assert_eq!(
        flat_search_note("emb"),
        "note: no ANN index on column 'emb'; using flat (brute-force) KNN, which may be slow on large datasets"
    );
}
