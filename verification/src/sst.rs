//! Segment files: their descriptors, the per-level index and the purger.

pub mod file;
pub mod reader;
