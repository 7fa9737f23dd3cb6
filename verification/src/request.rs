//! What callers ask of the engine.

use crate::entry::Entry;
use crate::time::TimeRange;
use crate::types::{ShardId, TableId};
use vstd::prelude::*;

verus! {

/// The order in which a read hands out its rows.
#[derive(Clone, Copy, Debug, PartialEq, Eq, Structural)]
pub enum ReadOrder {
    /// No order is asked for.
    NoOrder,
    /// Ascending by primary key.
    Asc,
    /// Descending by primary key.
    Desc,
}

impl ReadOrder {
    pub open spec fn spec_is_in_order(self) -> bool {
        !(self is NoOrder)
    }

    pub open spec fn spec_is_in_desc_order(self) -> bool {
        self is Desc
    }

    pub fn is_out_of_order(&self) -> (b: bool)
        ensures
            b == (*self is NoOrder),
    {
        match self {
            ReadOrder::NoOrder => true,
            _ => false,
        }
    }

    pub fn is_in_order(&self) -> (b: bool)
        ensures
            b == self.spec_is_in_order(),
    {
        !self.is_out_of_order()
    }

    pub fn is_in_desc_order(&self) -> (b: bool)
        ensures
            b == self.spec_is_in_desc_order(),
    {
        match self {
            ReadOrder::Desc => true,
            _ => false,
        }
    }
}

/// How a read is carried out.
#[derive(Clone, Copy, Debug, PartialEq, Eq, Structural)]
pub struct ReadOptions {
    /// Number of rows of a batch.
    pub batch_size: usize,
    /// Number of streams that the read hands out.
    pub read_parallelism: usize,
}

/// A read of a table.
#[derive(Clone, Copy, Debug, PartialEq, Eq, Structural)]
pub struct ReadRequest {
    pub request_id: u64,
    pub opts: ReadOptions,
    /// The time range that the rows are asked of.
    pub time_range: TimeRange,
    pub order: ReadOrder,
}

/// The streams of a read, one for each lane of its parallelism; each holds
/// its rows in the order in which they come out.
#[derive(Debug)]
pub struct PartitionedStreams {
    pub streams: Vec<Vec<Entry>>,
}

/// A flush of a table.
#[derive(Clone, Copy, Debug, PartialEq, Eq, Structural)]
pub struct FlushRequest {
    /// Whether the caller waits until the flush is done.
    pub sync: bool,
}

/// The request to drop a table.
#[derive(Debug, PartialEq, Eq)]
pub struct DropTableRequest {
    pub catalog_name: String,
    pub schema_name: String,
    pub schema_id: u32,
    pub table_name: String,
}

/// The request to open a table.
#[derive(Debug, PartialEq, Eq)]
pub struct OpenTableRequest {
    pub catalog_name: String,
    pub schema_name: String,
    pub schema_id: u32,
    pub table_name: String,
    pub table_id: TableId,
    pub shard_id: ShardId,
}

} // verus!
