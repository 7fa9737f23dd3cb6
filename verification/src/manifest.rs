//! The edits of meta data that the manifest records.

use crate::schema::Schema;
use crate::table::data::TableShardInfo;
use crate::table::version::{AddFile, DeleteFile, TableVersionMeta};
use crate::table_options::TableOptions;
use crate::types::{SequenceNumber, ShardId, SpaceId, TableId};
use vstd::prelude::*;

verus! {

/// The meta of a table to add.
#[derive(Debug)]
pub struct AddTableMeta {
    pub space_id: SpaceId,
    pub table_id: TableId,
    pub table_name: String,
    pub schema: Schema,
    pub opts: TableOptions,
}

/// The meta of a table to drop.
#[derive(Debug, PartialEq, Eq)]
pub struct DropTableMeta {
    pub space_id: SpaceId,
    pub table_id: TableId,
    pub table_name: String,
}

/// The meta of a change of the files of a table.
#[derive(Debug)]
pub struct VersionEditMeta {
    pub space_id: SpaceId,
    pub table_id: TableId,
    pub flushed_sequence: SequenceNumber,
    pub files_to_add: Vec<AddFile>,
    pub files_to_delete: Vec<DeleteFile>,
}

/// The meta of a change of the schema of a table.
#[derive(Debug)]
pub struct AlterSchemaMeta {
    pub space_id: SpaceId,
    pub table_id: TableId,
    pub schema: Schema,
}

/// The meta of a change of the options of a table.
#[derive(Debug)]
pub struct AlterOptionsMeta {
    pub space_id: SpaceId,
    pub table_id: TableId,
    pub options: TableOptions,
}

/// One change of the meta data of a table.
#[derive(Debug)]
pub enum MetaUpdate {
    AddTable(AddTableMeta),
    DropTable(DropTableMeta),
    VersionEdit(VersionEditMeta),
    AlterSchema(AlterSchemaMeta),
    AlterOptions(AlterOptionsMeta),
}

/// What the manifest is asked to record.
#[derive(Debug)]
pub enum MetaEdit {
    Update(MetaUpdate),
    Snapshot(TableManifestData),
}

/// An edit, with the shard of the table it is about.
#[derive(Debug)]
pub struct MetaEditRequest {
    pub shard_info: TableShardInfo,
    pub meta_edit: MetaEdit,
}

/// What the manifest holds of one table.
#[derive(Debug)]
pub struct TableManifestData {
    pub table_meta: AddTableMeta,
    pub version_meta: Option<TableVersionMeta>,
}

/// The request to load what the manifest holds of one table.
#[derive(Clone, Copy, Debug, PartialEq, Eq, Structural)]
pub struct LoadRequest {
    pub space_id: SpaceId,
    pub table_id: TableId,
    pub shard_id: ShardId,
}

} // verus!
