//! What holds of the library's answers taken together: each law relates what a
//! function is given to what it answers, or two answers to each other.
pub mod cells;
pub mod columns;
pub mod dataset_stat;
pub mod diff;
pub mod fragments;
pub mod frequencies;
pub mod history;
pub mod listings;
pub mod messages;
pub mod moments;
pub mod numbers;
pub mod order;
pub mod percent;
pub mod plan;
pub mod quoting;
pub mod reports;
pub mod rows;
pub mod selection;
pub mod stats;
pub mod storage;
