//! Ids and counters that the whole engine shares.

use vstd::prelude::*;

verus! {

/// Position of a write in the log of its table; it grows with every write.
pub type SequenceNumber = u64;

/// The greatest sequence number.
pub const MAX_SEQUENCE_NUMBER: SequenceNumber = u64::MAX;

/// The sequence number below every write.
pub const MIN_SEQUENCE_NUMBER: SequenceNumber = 0;

/// Id of a table.
pub type TableId = u64;

/// Id of a space, the namespace of a set of tables.
pub type SpaceId = u32;

/// Id of a shard, the unit that shares one log.
pub type ShardId = u32;

/// Id of a segment file; it grows within its table.
pub type FileId = u64;

} // verus!
