//! Merge sort over vectors of `i32`, with the result of every operation
//! stated over sequences and proved.
//!
//! `model` says what a stable merge and a merge sort of a sequence are,
//! `laws` proves what holds of them, `stability` follows each element from
//! the input to its place in the result, and `merge_sort` holds the
//! executable operations on a primary and a scratch buffer.

pub mod model;
pub mod laws;
pub mod stability;
pub mod merge_sort;

pub use merge_sort::{merge, merge_copy, merge_split, sort};
