//! What the Lance adapter decides and computes around the datasets that it reads.
pub mod adapter;
pub mod as_of;
pub mod checkout;
pub mod refs;
