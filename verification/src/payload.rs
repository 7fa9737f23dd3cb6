//! What the log of a table records.

use crate::entry::KeyedRow;
use crate::schema::{Schema, Version};
use crate::table_options::TableOptions;
use vstd::prelude::*;

verus! {

/// The rows of one write, with the version of the schema they were written
/// under.
#[derive(Debug)]
pub struct RowGroup {
    pub schema_version: Version,
    pub rows: Vec<KeyedRow>,
}

impl RowGroup {
    pub fn new(schema_version: Version, rows: Vec<KeyedRow>) -> (group: RowGroup)
        ensures
            group.schema_version == schema_version,
            group.rows == rows,
    {
        RowGroup { schema_version, rows }
    }

    pub fn schema_version(&self) -> (version: Version)
        ensures
            version == self.schema_version,
    {
        self.schema_version
    }

    pub fn num_rows(&self) -> (n: usize)
        ensures
            n == self.rows@.len(),
    {
        self.rows.len()
    }
}

/// An entry of the log, as read back.
#[derive(Debug)]
pub enum ReadPayload {
    Write { row_group: RowGroup },
    AlterSchema { schema: Schema },
    AlterOptions { options: TableOptions },
}

} // verus!
