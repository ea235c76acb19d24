//! Inspect Arrow-based datasets.
pub mod binary64;
pub mod cell;
pub mod cli;
pub mod commands;
pub mod dataset;
pub mod error;
pub mod indices;
pub mod json;
pub mod lance;
pub mod laws;
pub mod listing;
pub mod output;
pub mod projection;
pub mod row_id;
pub mod schema;
pub mod sort;
pub mod stats;
pub mod text;
pub mod wildcard;

pub use error::Error;
