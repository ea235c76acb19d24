//! What the commands decide and compute that need a Lance dataset.
pub mod branches;
pub mod deltas;
pub mod diff;
pub mod fragments;
pub mod index_stats;
pub mod indices;
pub mod search;
pub mod stat;
pub mod tags;
pub mod versions;
