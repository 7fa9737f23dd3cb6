//! The streams of rows that a read is built from: a merge of sorted sources,
//! the removal of overwritten rows, and the plain chain of sources.

pub mod chain;
pub mod dedup;
pub mod merge;
