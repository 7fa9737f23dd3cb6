//! Errors of the operations of the engine on its tables.

use crate::types::{SpaceId, TableId};
use vstd::prelude::*;

verus! {

/// Why an operation of the engine on a table fails.
#[derive(Clone, Copy, Debug, PartialEq, Eq, Structural)]
pub enum Error {
    /// What the manifest holds of the table could not be read.
    ReadMetaUpdate { table_id: TableId },
    /// What the manifest holds of the table is not the state of a table.
    RecoverTableData { space_id: SpaceId, table_id: TableId },
    /// The log could not be read.
    ReadWal,
    /// The rows of an entry of the log found no memtable.
    ApplyMemTable { space_id: SpaceId, table_id: TableId, source: crate::table::version::Error },
    /// The table could not be flushed.
    FlushTable { space_id: SpaceId, table_id: TableId },
    /// The edit could not be recorded in the manifest.
    WriteManifest { space_id: SpaceId, table_id: TableId },
    /// The entries of the log that the table was not flushed past could not
    /// be marked as deletable.
    MarkWalDeleted { space_id: SpaceId, table_id: TableId },
}

/// Builds the id of the space of a schema.
pub fn build_space_id(schema_id: u32) -> (space_id: SpaceId)
    ensures
        space_id == schema_id,
{
    schema_id
}

} // verus!
