//! Line-oriented regular-expression search over byte streams, with the
//! decisions of a directory-wide search (hidden-entry policy, per-file
//! isolation of failures, aggregation of per-file results).
pub mod error;
pub mod search;
