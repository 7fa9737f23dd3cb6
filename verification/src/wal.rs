//! What the engine asks of the write-ahead log of a table.

use crate::payload::ReadPayload;
use crate::types::{SequenceNumber, TableId};
use vstd::prelude::*;

verus! {

/// Where the log of a table is found: the region that its shard writes to,
/// and in it the table.
#[derive(Clone, Copy, Debug, PartialEq, Eq, Structural)]
pub struct WalLocation {
    pub region_id: u64,
    pub table_id: TableId,
}

impl WalLocation {
    pub fn new(region_id: u64, table_id: TableId) -> (location: WalLocation)
        ensures
            location == (WalLocation { region_id, table_id }),
    {
        WalLocation { region_id, table_id }
    }
}

/// One end of the range of sequence numbers that a read of the log covers.
#[derive(Clone, Copy, Debug, PartialEq, Eq, Structural)]
pub enum ReadBoundary {
    /// The greatest sequence number.
    Max,
    /// The least sequence number.
    Min,
    /// The sequence number itself is read.
    Included(SequenceNumber),
    /// The sequence number itself is not read.
    Excluded(SequenceNumber),
}

impl ReadBoundary {
    /// The boundary lets the sequence number through as the start of a range.
    pub open spec fn admits_from(self, sequence: SequenceNumber) -> bool {
        match self {
            ReadBoundary::Max => sequence == u64::MAX,
            ReadBoundary::Min => true,
            ReadBoundary::Included(s) => sequence >= s,
            ReadBoundary::Excluded(s) => sequence > s,
        }
    }

    /// The boundary lets the sequence number through as the end of a range.
    pub open spec fn admits_to(self, sequence: SequenceNumber) -> bool {
        match self {
            ReadBoundary::Max => true,
            ReadBoundary::Min => sequence == 0,
            ReadBoundary::Included(s) => sequence <= s,
            ReadBoundary::Excluded(s) => sequence < s,
        }
    }
}

/// How the log is read.
#[derive(Clone, Copy, Debug, PartialEq, Eq, Structural)]
pub struct ReadContext {
    /// Number of entries of a batch.
    pub batch_size: usize,
    /// Time that a read may take, in milliseconds.
    pub timeout_ms: u64,
}

impl Default for ReadContext {
    /// Batches of 500 entries, and five seconds for a read.
    fn default() -> (ctx: ReadContext)
        ensures
            ctx == (ReadContext { batch_size: 500, timeout_ms: 5000 }),
    {
        ReadContext { batch_size: 500, timeout_ms: 5000 }
    }
}

/// A read of the log of one table.
#[derive(Clone, Copy, Debug, PartialEq, Eq, Structural)]
pub struct ReadRequest {
    pub location: WalLocation,
    pub start: ReadBoundary,
    pub end: ReadBoundary,
}

impl ReadRequest {
    /// The read covers the sequence number.
    pub open spec fn covers(self, sequence: SequenceNumber) -> bool {
        self.start.admits_from(sequence) && self.end.admits_to(sequence)
    }

    /// Whether the read covers the sequence number.
    pub fn contains(&self, sequence: SequenceNumber) -> (b: bool)
        ensures
            b == self.covers(sequence),
    {
        let from = match self.start {
            ReadBoundary::Max => sequence == u64::MAX,
            ReadBoundary::Min => true,
            ReadBoundary::Included(s) => sequence >= s,
            ReadBoundary::Excluded(s) => sequence > s,
        };
        let to = match self.end {
            ReadBoundary::Max => true,
            ReadBoundary::Min => sequence == 0,
            ReadBoundary::Included(s) => sequence <= s,
            ReadBoundary::Excluded(s) => sequence < s,
        };
        from && to
    }
}

/// One entry of the log.
#[derive(Debug)]
pub struct LogEntry {
    pub table_id: TableId,
    pub sequence: SequenceNumber,
    pub payload: ReadPayload,
}

} // verus!
