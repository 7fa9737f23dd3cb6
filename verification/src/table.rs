//! The state of one table: its readable version and its counters.

pub mod data;
pub mod version;
