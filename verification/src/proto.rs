//! The shapes in which meta data is stored.

use crate::column_schema::ColumnSchema;
use crate::sst::file::IndexMap;
use vstd::prelude::*;

verus! {

/// A time range as stored: its bounds, unchecked.
#[derive(Clone, Copy, Debug, PartialEq, Eq, Structural)]
pub struct TimeRangePb {
    pub start: i64,
    pub end: i64,
}

/// The schema of a table as stored: its columns, unchecked, of which the
/// first `num_key_columns` are the key.
#[derive(Debug, PartialEq, Eq)]
pub struct TableSchemaPb {
    pub columns: Vec<ColumnSchema>,
    pub num_key_columns: u32,
    pub version: u32,
}

/// The meta data of a segment file as stored.
#[derive(Debug, PartialEq, Eq)]
pub struct SstMetaDataPb {
    pub min_key: Vec<u8>,
    pub max_key: Vec<u8>,
    pub time_range: TimeRangePb,
    pub max_sequence: u64,
    pub schema: TableSchemaPb,
    pub size: u64,
    pub row_num: u64,
    pub index_map: IndexMap,
}

} // verus!
