//! Opening the engine and recovering its tables from the manifest and the
//! log.

use crate::config::ReadableSize;
use crate::entry::Entry;
use crate::instance::engine::{build_space_id, Error};
use crate::instance::write::{check_rows, first_row_error, lemma_rows_still_fine};
use crate::instance::{
    create_wal_location, Instance, IterOptions, RecoverMode, ScanOptions, SpaceStore,
};
use crate::manifest::{LoadRequest, TableManifestData};
use crate::payload::ReadPayload;
use crate::request::OpenTableRequest;
use crate::schema::Version;
use crate::space::{has_space, has_table_id, has_table_named, Space, SpaceContext, Spaces};
use crate::sst::file::FilePurger;
use crate::table::data::{
    grows, row_landed, saturated, spec_memory_usage, stamped, stored_rows, TableData,
};
use crate::table::version::{added_on, TableVersion, MAX_LEVEL};
use crate::table_options::{CompactionOptions, TableOptions};
use crate::types::{SequenceNumber, SpaceId, TableId};
use crate::wal::{LogEntry, ReadBoundary, ReadContext, ReadRequest};
use vstd::multiset::Multiset;
use vstd::prelude::*;
use vstd::seq_lib::*;

verus! {

/// Number of batches that a stream may hold back while a compaction reads.
pub const MAX_RECORD_BATCHES_IN_FLIGHT_WHEN_COMPACTION_READ: usize = 64;

/// Options of the engine.
#[derive(Clone, Copy, Debug, PartialEq, Eq, Structural)]
pub struct Config {
    pub table_opts: TableOptions,
    pub compaction: CompactionOptions,
    pub sst_meta_cache_cap: Option<usize>,
    pub sst_background_read_parallelism: usize,
    pub scan_max_record_batches_in_flight: usize,
    pub scan_batch_size: Option<usize>,
    pub max_rows_in_write_queue: usize,
    pub db_write_buffer_size: usize,
    pub space_write_buffer_size: usize,
    pub replay_batch_size: usize,
    pub write_sst_max_buffer_size: ReadableSize,
    pub max_retry_flush_limit: usize,
    pub max_bytes_per_write_batch: Option<ReadableSize>,
    pub recover_mode: RecoverMode,
}

/// What the engine is opened with.
#[derive(Clone, Copy, Debug, PartialEq, Eq, Structural)]
pub struct OpenContext {
    pub config: Config,
    /// Whether the meta data of files is cached.
    pub has_meta_cache: bool,
}

/// The number of bytes as a size in memory: the greatest such size where the
/// number is above it.
pub fn bytes_to_usize(bytes: u64) -> (size: usize)
    ensures
        size == saturated(bytes as int),
{
    if bytes > usize::MAX as u64 {
        usize::MAX
    } else {
        bytes as usize
    }
}

/// The first decision on a request to open a table.
#[derive(Clone, Copy, Debug, PartialEq, Eq, Structural)]
pub enum OpenTableStep {
    /// The table is open: it stands at that index in its space.
    AlreadyOpen(usize),
    /// The table is not open: what the manifest holds of it is to be loaded.
    LoadManifest(LoadRequest),
}

/// What the replay of a batch of log entries came to.
#[derive(Clone, Copy, Debug, PartialEq, Eq, Structural)]
pub struct ReplayOutcome {
    /// Number of writes whose rows went into the memtables.
    pub applied: usize,
    /// Number of writes that were skipped, as written under another version
    /// of the schema.
    pub skipped: usize,
    /// Whether a flush of the table is to be scheduled.
    pub flush_requested: bool,
    /// Whether the log is read to its end: the batch was empty.
    pub done: bool,
}

/// The table that a log is replayed into, with the version of its schema.
#[derive(Clone, Copy, Debug, PartialEq, Eq, Structural)]
pub struct ReplayTarget {
    pub table_id: TableId,
    pub schema_version: Version,
}

/// The entry is a write to the table under its version of the schema.
pub open spec fn is_write_of(entry: LogEntry, target: ReplayTarget) -> bool {
    entry.table_id == target.table_id && (entry.payload matches ReadPayload::Write { row_group }
        && row_group.schema_version == target.schema_version)
}

/// The entry is a write to the table under another version of the schema.
pub open spec fn is_stale_write(entry: LogEntry, target: ReplayTarget) -> bool {
    entry.table_id == target.table_id && (entry.payload matches ReadPayload::Write { row_group }
        && row_group.schema_version != target.schema_version)
}

/// The table as the target of a replay.
pub open spec fn target_of(table: TableData) -> ReplayTarget {
    ReplayTarget { table_id: table.id, schema_version: table.schema.version }
}

/// The rows of the entry, as stored by its write.
pub open spec fn rows_of_entry(entry: LogEntry) -> Seq<Entry> {
    match entry.payload {
        ReadPayload::Write { row_group } => stamped(row_group.rows@, entry.sequence),
        _ => Seq::empty(),
    }
}

/// Every row of the entry stands in the sampling memtable of the version, or
/// in the memtable of its time bucket.
pub open spec fn entry_landed(version: TableVersion, entry: LogEntry, segment: Option<i64>)
    -> bool {
    forall|j: int|
        0 <= j < rows_of_entry(entry).len() ==> row_landed(
            version,
            #[trigger] rows_of_entry(entry)[j],
            segment,
        )
}

/// The rows of an entry that have landed in a version have landed in every
/// version grown from it.
proof fn lemma_entry_stays(
    before: TableVersion,
    after: TableVersion,
    entry: LogEntry,
    segment: Option<i64>,
)
    requires
        grows(before, after, segment),
        entry_landed(before, entry, segment),
    ensures
        entry_landed(after, entry, segment),
{
    assert forall|j: int| 0 <= j < rows_of_entry(entry).len() implies row_landed(
        after,
        #[trigger] rows_of_entry(entry)[j],
        segment,
    ) by {
        crate::instance::write::lemma_landed_stays(before, after, rows_of_entry(entry)[j], segment);
    }
}

/// The rows that a replay of the entries puts into the memtables: those of
/// the writes to the table under its version of the schema.
pub open spec fn replayed_rows(entries: Seq<LogEntry>, target: ReplayTarget) -> Multiset<Entry>
    decreases entries.len(),
{
    if entries.len() == 0 {
        Multiset::empty()
    } else if is_write_of(entries.last(), target) {
        replayed_rows(entries.drop_last(), target).add(
            rows_of_entry(entries.last()).to_multiset(),
        )
    } else {
        replayed_rows(entries.drop_last(), target)
    }
}

/// Number of rows that a replay of the entries puts into the memtables.
pub open spec fn replayed_count(entries: Seq<LogEntry>, target: ReplayTarget) -> nat
    decreases entries.len(),
{
    if entries.len() == 0 {
        0
    } else if is_write_of(entries.last(), target) {
        replayed_count(entries.drop_last(), target) + entries.last().payload->row_group.rows@.len()
    } else {
        replayed_count(entries.drop_last(), target)
    }
}

/// Number of writes to the table among the entries that are under its
/// version of the schema.
pub open spec fn count_applied(entries: Seq<LogEntry>, target: ReplayTarget) -> nat
    decreases entries.len(),
{
    if entries.len() == 0 {
        0
    } else {
        count_applied(entries.drop_last(), target) + if is_write_of(entries.last(), target) {
            1nat
        } else {
            0nat
        }
    }
}

/// Number of writes to the table among the entries that are under another
/// version of the schema.
pub open spec fn count_skipped(entries: Seq<LogEntry>, target: ReplayTarget) -> nat
    decreases entries.len(),
{
    if entries.len() == 0 {
        0
    } else {
        count_skipped(entries.drop_last(), target) + if is_stale_write(entries.last(), target) {
            1nat
        } else {
            0nat
        }
    }
}

/// The greatest sequence number among `floor` and the entries of the table.
pub open spec fn highest_sequence(
    entries: Seq<LogEntry>,
    table_id: TableId,
    floor: SequenceNumber,
) -> SequenceNumber
    decreases entries.len(),
{
    if entries.len() == 0 {
        floor
    } else {
        let rest = highest_sequence(entries.drop_last(), table_id, floor);
        if entries.last().table_id == table_id && entries.last().sequence > rest {
            entries.last().sequence
        } else {
            rest
        }
    }
}

/// The first row of a write to the table under its version of the schema
/// that finds no memtable in the version of the table, with the reason.
pub open spec fn first_replay_error(
    version: TableVersion,
    segment: Option<i64>,
    entries: Seq<LogEntry>,
    target: ReplayTarget,
) -> Option<crate::table::version::Error>
    decreases entries.len(),
{
    if entries.len() == 0 {
        None
    } else {
        match first_replay_error(version, segment, entries.drop_last(), target) {
            Some(e) => Some(e),
            None => if is_write_of(entries.last(), target) {
                first_row_error(version, entries.last().payload->row_group.rows@, segment)
            } else {
                None
            },
        }
    }
}

/// Why the entries cannot be replayed into the table, if they cannot.
pub open spec fn replay_error(table: TableData, entries: Seq<LogEntry>) -> Option<
    crate::table::version::Error,
> {
    if table.last_memtable_id + replayed_count(entries, target_of(table)) > u64::MAX {
        Some(crate::table::version::Error::MemTableIdsExhausted)
    } else {
        first_replay_error(table.version, table.opts.segment_duration, entries, target_of(table))
    }
}

/// What `recover_table_data` brings about: the space of the table is open,
/// and the table is recovered where the manifest holds the state of a table.
pub open spec fn is_recovered(
    before: Instance,
    after: Instance,
    data: TableManifestData,
    request: OpenTableRequest,
    r: Result<Option<TableData>, Error>,
) -> bool {
    &&& after == (Instance { space_store: after.space_store, ..before })
    &&& has_space(after.space_store.spaces.spaces@, data.table_meta.space_id)
    &&& has_space(before.space_store.spaces.spaces@, data.table_meta.space_id) ==> after == before
    &&& !has_space(before.space_store.spaces.spaces@, data.table_meta.space_id)
        ==> after.space_store.spaces.spaces@.drop_last() == before.space_store.spaces.spaces@
        && after.space_store.spaces.spaces@.last().id == data.table_meta.space_id
        && after.space_store.spaces.spaces@.last().tables@.len() == 0
        && after.space_store.spaces.spaces@.last().context.catalog_name == request.catalog_name
        && after.space_store.spaces.spaces@.last().context.schema_name == request.schema_name
    &&& match r {
        Ok(Some(table)) => {
            &&& crate::table::data::is_recoverable(data.table_meta, data.version_meta)
            &&& table.wf()
            &&& table.id == data.table_meta.table_id
            &&& table.name == data.table_meta.table_name
            &&& table.space_id == data.table_meta.space_id
            &&& table.shard_info.shard_id == request.shard_id
            &&& table.schema == data.table_meta.schema
            &&& table.opts == data.table_meta.opts
            &&& !table.dropped
            &&& table.version.memtables@.len() == 0
            &&& table.version.sampling_mem.is_none()
            &&& match data.version_meta {
                Some(meta) => {
                    &&& table.version.flushed_sequence == meta.flushed_sequence
                    &&& forall|l: int, f: crate::sst::file::FileHandle|
                        0 <= l < MAX_LEVEL
                            ==> (#[trigger] table.version.levels@[l].files@.contains(f)
                            <==> added_on(meta.files@, 0, l, f))
                    &&& table.last_file_id == crate::table::data::greatest_file_id(
                        meta.files@,
                        meta.max_file_id,
                    )
                    &&& table.last_sequence == crate::table::data::greatest_sequence(
                        meta.files@,
                        meta.flushed_sequence,
                    )
                },
                None => {
                    &&& table.version.flushed_sequence == 0
                    &&& forall|l: int|
                        0 <= l < MAX_LEVEL
                            ==> (#[trigger] table.version.levels@[l]).files@.len() == 0
                    &&& table.last_file_id == 0
                    &&& table.last_sequence == 0
                },
            }
        },
        Ok(None) => false,
        Err(e) => e == (Error::RecoverTableData {
            space_id: data.table_meta.space_id,
            table_id: data.table_meta.table_id,
        }) && !crate::table::data::is_recoverable(data.table_meta, data.version_meta),
    }
}

/// The number of replayed rows grows with the entries.
proof fn lemma_count_grows(entries: Seq<LogEntry>, target: ReplayTarget, n: int)
    requires
        0 <= n <= entries.len(),
    ensures
        replayed_count(entries.take(n), target) <= replayed_count(entries, target),
    decreases entries.len() - n,
{
    if n == entries.len() {
        assert(entries.take(n) =~= entries);
    } else {
        assert(entries.take(n + 1).drop_last() =~= entries.take(n));
        lemma_count_grows(entries, target, n + 1);
    }
}

/// The error of the first entries is the error of all entries.
proof fn lemma_replay_error_stays(
    version: TableVersion,
    segment: Option<i64>,
    entries: Seq<LogEntry>,
    target: ReplayTarget,
    n: int,
)
    requires
        0 <= n <= entries.len(),
        first_replay_error(version, segment, entries.take(n), target).is_some(),
    ensures
        first_replay_error(version, segment, entries, target) == first_replay_error(
            version,
            segment,
            entries.take(n),
            target,
        ),
    decreases entries.len() - n,
{
    if n == entries.len() {
        assert(entries.take(n) =~= entries);
    } else {
        assert(entries.take(n + 1).drop_last() =~= entries.take(n));
        lemma_replay_error_stays(version, segment, entries, target, n + 1);
    }
}

/// Where the entries have no error, the rows of none of their writes have.
proof fn lemma_no_replay_error(
    version: TableVersion,
    segment: Option<i64>,
    entries: Seq<LogEntry>,
    target: ReplayTarget,
)
    requires
        first_replay_error(version, segment, entries, target).is_none(),
    ensures
        forall|k: int|
            0 <= k < entries.len() && is_write_of(#[trigger] entries[k], target)
                ==> first_row_error(version, entries[k].payload->row_group.rows@,
                    segment).is_none(),
    decreases entries.len(),
{
    if entries.len() > 0 {
        lemma_no_replay_error(version, segment, entries.drop_last(), target);
        assert forall|k: int|
            0 <= k < entries.len() && is_write_of(
                #[trigger] entries[k],
                target,
            ) implies first_row_error(version, entries[k].payload->row_group.rows@,
                segment).is_none() by {
            if k < entries.len() - 1 {
                assert(entries.drop_last()[k] == entries[k]);
            }
        }
    }
}

impl Instance {
    /// Opens the engine under the options given, without spaces.
    pub fn open(ctx: OpenContext) -> (instance: Instance)
        ensures
            instance.space_store.spaces.spaces@.len() == 0,
            instance.space_store.has_meta_cache == ctx.has_meta_cache,
            instance.table_opts == ctx.config.table_opts,
            !instance.file_purger.joined,
            instance.max_rows_in_write_queue == ctx.config.max_rows_in_write_queue,
            instance.db_write_buffer_size == ctx.config.db_write_buffer_size,
            instance.space_write_buffer_size == ctx.config.space_write_buffer_size,
            instance.replay_batch_size == ctx.config.replay_batch_size,
            instance.write_sst_max_buffer_size == saturated(
                ctx.config.write_sst_max_buffer_size.0 as int,
            ),
            instance.max_retry_flush_limit == ctx.config.max_retry_flush_limit,
            instance.max_bytes_per_write_batch == match ctx.config.max_bytes_per_write_batch {
                Some(size) => Some(saturated(size.0 as int) as usize),
                None => None,
            },
            instance.scan_options == (ScanOptions {
                background_read_parallelism: ctx.config.sst_background_read_parallelism,
                max_record_batches_in_flight: ctx.config.scan_max_record_batches_in_flight,
            }),
            instance.iter_options == match ctx.config.scan_batch_size {
                Some(batch_size) => Some((IterOptions { batch_size })),
                None => None,
            },
            instance.recover_mode == ctx.config.recover_mode,
            instance.wf(),
    {
        let space_store = SpaceStore { spaces: Spaces::new(), has_meta_cache: ctx.has_meta_cache };
        let file_purger = FilePurger::start();
        let scan_options = ScanOptions {
            background_read_parallelism: ctx.config.sst_background_read_parallelism,
            max_record_batches_in_flight: ctx.config.scan_max_record_batches_in_flight,
        };
        let iter_options = match ctx.config.scan_batch_size {
            Some(batch_size) => Some(IterOptions { batch_size }),
            None => None,
        };
        Instance {
            space_store,
            table_opts: ctx.config.table_opts,
            file_purger,
            max_rows_in_write_queue: ctx.config.max_rows_in_write_queue,
            db_write_buffer_size: ctx.config.db_write_buffer_size,
            space_write_buffer_size: ctx.config.space_write_buffer_size,
            replay_batch_size: ctx.config.replay_batch_size,
            write_sst_max_buffer_size: bytes_to_usize(
                ctx.config.write_sst_max_buffer_size.as_byte(),
            ),
            max_retry_flush_limit: ctx.config.max_retry_flush_limit,
            max_bytes_per_write_batch: match ctx.config.max_bytes_per_write_batch {
                Some(size) => Some(bytes_to_usize(size.as_byte())),
                None => None,
            },
            scan_options,
            iter_options,
            recover_mode: ctx.config.recover_mode,
        }
    }

    /// How a compaction scans the files it reads: one file at a time.
    pub fn scan_options_for_compaction() -> (options: ScanOptions)
        ensures
            options == (ScanOptions {
                background_read_parallelism: 1,
                max_record_batches_in_flight: MAX_RECORD_BATCHES_IN_FLIGHT_WHEN_COMPACTION_READ,
            }),
    {
        ScanOptions {
            background_read_parallelism: 1,
            max_record_batches_in_flight: MAX_RECORD_BATCHES_IN_FLIGHT_WHEN_COMPACTION_READ,
        }
    }

    /// Opens the space of that id unless it is open. Returns its index among
    /// the spaces.
    pub fn open_space(&mut self, space_id: SpaceId, context: SpaceContext) -> (index: usize)
        requires
            old(self).wf(),
        ensures
            final(self).wf(),
            index < final(self).space_store.spaces.spaces@.len(),
            final(self).space_store.spaces.spaces@[index as int].id == space_id,
            has_space(old(self).space_store.spaces.spaces@, space_id)
                ==> *final(self) == *old(self),
            !has_space(old(self).space_store.spaces.spaces@, space_id) ==> {
                &&& final(self).space_store.spaces.spaces@.drop_last()
                    == old(self).space_store.spaces.spaces@
                &&& index == old(self).space_store.spaces.spaces@.len()
                &&& final(self).space_store.spaces.spaces@[index as int].tables@.len() == 0
                &&& final(self).space_store.spaces.spaces@[index as int].context == context
                &&& final(self).space_store.spaces.spaces@[index as int].write_buffer_size
                    == old(self).space_write_buffer_size
            },
            *final(self) == (Instance { space_store: final(self).space_store, ..*old(self) }),
            final(self).space_store.has_meta_cache == old(self).space_store.has_meta_cache,
    {
        match self.space_store.spaces.index_of(space_id) {
            Some(index) => index,
            None => {
                // The space is not open yet.
                let ghost before = self.space_store.spaces.spaces@;
                let space = Space::new(space_id, context, self.space_write_buffer_size);
                let index = self.space_store.spaces.spaces.len();
                self.space_store.spaces.insert(space);
                proof {
                    assert(self.space_store.spaces.spaces@.drop_last() =~= before);
                }
                index
            },
        }
    }

    /// The first decision on a request to open a table: a table that is open
    /// is handed out as it is; of any other, what the manifest holds is loaded.
    pub fn do_open_table(space: &Space, request: &OpenTableRequest) -> (step: OpenTableStep)
        ensures
            match step {
                OpenTableStep::AlreadyOpen(i) => i < space.tables@.len()
                    && space.tables@[i as int].id
                    == request.table_id,
                OpenTableStep::LoadManifest(load) => !has_table_id(space.tables@, request.table_id)
                    && load == (LoadRequest {
                    space_id: request.schema_id,
                    table_id: request.table_id,
                    shard_id: request.shard_id,
                }),
            },
    {
        match space.table_index_by_id(request.table_id) {
            Some(i) => OpenTableStep::AlreadyOpen(i),
            None => OpenTableStep::LoadManifest(
                LoadRequest {
                    space_id: build_space_id(request.schema_id),
                    table_id: request.table_id,
                    shard_id: request.shard_id,
                },
            ),
        }
    }

    /// How the log of the table is read to recover it: from the first entry
    /// after the flushed sequence number to the end, in batches of the size
    /// given.
    pub fn recover_table_from_wal(table_data: &TableData, replay_batch_size: usize) -> (read: (
        ReadContext,
        ReadRequest,
    ))
        ensures
            read.0 == (ReadContext { batch_size: replay_batch_size, timeout_ms: 5000 }),
            read.1 == (ReadRequest {
                location: crate::wal::WalLocation {
                    region_id: table_data.shard_info.shard_id as u64,
                    table_id: table_data.id,
                },
                start: ReadBoundary::Excluded(table_data.version.flushed_sequence),
                end: ReadBoundary::Max,
            }),
            forall|sequence: SequenceNumber|
                #[trigger] read.1.covers(sequence) <==> sequence
                    > table_data.version.flushed_sequence,
    {
        let defaults = ReadContext::default();
        let read_ctx = ReadContext { batch_size: replay_batch_size,
            timeout_ms: defaults.timeout_ms };
        let table_location = table_data.table_location();
        let wal_location = create_wal_location(table_location.id, table_location.shard_info);
        let read_req = ReadRequest {
            location: wal_location,
            start: ReadBoundary::Excluded(table_data.current_version().flushed_sequence()),
            end: ReadBoundary::Max,
        };
        (read_ctx, read_req)
    }

    /// Recovers the state of a table from what the manifest holds of it, and
    /// opens the space of the table unless it is open. Nothing is recovered
    /// where the manifest holds nothing of the table.
    pub fn recover_table_meta_data(
        &mut self,
        request: &OpenTableRequest,
        manifest_data: Option<TableManifestData>,
    ) -> (r: Result<Option<TableData>, Error>)
        requires
            old(self).wf(),
        ensures
            final(self).wf(),
            match manifest_data {
                None => (r matches Ok(None)) && *final(self) == *old(self),
                Some(data) => is_recovered(*old(self), *final(self), data, *request, r),
            },
    {
        match manifest_data {
            Some(manifest_data) => match self.recover_table_data(manifest_data, request) {
                Ok(table_data) => Ok(Some(table_data)),
                Err(e) => Err(e),
            },
            None => Ok(None),
        }
    }

    /// Recovers the state of a table from what the manifest holds of it: the
    /// table with the files and the flushed sequence number of its version,
    /// and with counters that bound what the version holds. The space of the
    /// table is opened unless it is open.
    pub fn recover_table_data(
        &mut self,
        manifest_data: TableManifestData,
        request: &OpenTableRequest,
    ) -> (r: Result<TableData, Error>)
        requires
            old(self).wf(),
        ensures
            final(self).wf(),
            is_recovered(
                *old(self),
                *final(self),
                manifest_data,
                *request,
                match r {
                    Ok(table) => Ok(Some(table)),
                    Err(e) => Err(e),
                },
            ),
    {
        let TableManifestData { table_meta, version_meta } = manifest_data;
        let context = SpaceContext {
            catalog_name: request.catalog_name.clone(),
            schema_name: request.schema_name.clone(),
        };
        let space_id = table_meta.space_id;
        let table_id = table_meta.table_id;
        let index = self.open_space(space_id, context);
        match TableData::recover_from_add(table_meta, version_meta, request.shard_id) {
            Some(table_data) => Ok(table_data),
            None => Err(Error::RecoverTableData { space_id, table_id }),
        }
    }

    /// Ends the recovery of a table. A table that has been opened meanwhile is
    /// handed out as it is. Where the replay of the log failed, the table is
    /// noted as one that could not be opened; else it joins its space.
    /// Returns the index of the table in the space.
    pub fn process_recover_table_command(
        space: &mut Space,
        table_data: TableData,
        replayed: Result<(), Error>,
    ) -> (r: Result<usize, Error>)
        requires
            old(space).wf(),
            table_data.wf(),
            table_data.space_id == old(space).id,
            !has_table_id(old(space).tables@, table_data.id) && replayed is Ok
                ==> !has_table_named(old(space).tables@, table_data.name@),
        ensures
            final(space).wf(),
            has_table_id(old(space).tables@, table_data.id) ==> (r matches Ok(i)
                && i < old(space).tables@.len()
                && old(space).tables@[i as int].id == table_data.id && *final(space)
                == *old(space)),
            !has_table_id(old(space).tables@, table_data.id) ==> match replayed {
                Ok(()) => r == Ok::<usize, Error>(old(space).tables@.len() as usize)
                    && final(space).tables@ == old(space).tables@.push(table_data)
                    && *final(space) == (Space {
                    tables: final(space).tables,
                    ..*old(space)
                }),
                Err(e) => r == Err::<usize, Error>(e)
                    && final(space).open_failed_tables@
                    == old(space).open_failed_tables@.push(table_data.name)
                    && *final(space) == (Space {
                    open_failed_tables: final(space).open_failed_tables,
                    ..*old(space)
                }),
            },
    {
        match space.table_index_by_id(table_data.id) {
            Some(i) => {
                return Ok(i);
            },
            None => {},
        }
        match replayed {
            Ok(()) => {
                let index = space.tables.len();
                space.insert_table(table_data);
                Ok(index)
            },
            Err(e) => {
                space.insert_open_failed_table(table_data.name);
                Err(e)
            },
        }
    }

    /// Replays a batch of log entries into the memtables of the table. The
    /// rows of a write to the table under its version of the schema go into
    /// the memtables; a write under another version is skipped; the entries
    /// of other tables of the shard, and changes of the schema and of the
    /// options, which the manifest holds, are passed over.
    /// Each replayed row stands in the memtable of its time bucket. The
    /// sequence number of the last write moves on to the greatest of the
    /// table's entries in the batch. Either every write of the batch is
    /// replayed or none is. A batch without a write to replay leaves the
    /// memtables as they are, an empty batch the whole table.
    pub fn replay_table_log_entries(table_data: &mut TableData, log_entries: &Vec<LogEntry>) -> (r:
        Result<ReplayOutcome, Error>)
        requires
            old(table_data).wf(),
        ensures
            final(table_data).wf(),
            match r {
                Err(e) => replay_error(*old(table_data), log_entries@) matches Some(source) && e
                    == (Error::ApplyMemTable {
                    space_id: old(table_data).space_id,
                    table_id: old(table_data).id,
                    source,
                }) && *final(table_data) == *old(table_data),
                Ok(outcome) => {
                    &&& replay_error(*old(table_data), log_entries@).is_none()
                    &&& stored_rows(final(table_data).version) == stored_rows(
                        old(table_data).version,
                    ).add(replayed_rows(log_entries@, target_of(*old(table_data))))
                    &&& grows(
                        old(table_data).version,
                        final(table_data).version,
                        old(table_data).opts.segment_duration,
                    )
                    &&& final(table_data).last_sequence == highest_sequence(
                        log_entries@,
                        old(table_data).id,
                        old(table_data).last_sequence,
                    )
                    &&& *final(table_data) == (TableData {
                        version: final(table_data).version,
                        last_sequence: final(table_data).last_sequence,
                        last_memtable_id: final(table_data).last_memtable_id,
                        ..*old(table_data)
                    })
                    &&& forall|k: int|
                        0 <= k < log_entries@.len() && is_write_of(
                            #[trigger] log_entries@[k],
                            target_of(*old(table_data)),
                        ) ==> entry_landed(
                            final(table_data).version,
                            log_entries@[k],
                            old(table_data).opts.segment_duration,
                        )
                    &&& outcome.applied == 0 ==> final(table_data).version == old(
                        table_data,
                    ).version && final(table_data).last_memtable_id == old(
                        table_data,
                    ).last_memtable_id
                    &&& log_entries@.len() == 0 ==> *final(table_data) == *old(table_data)
                    &&& outcome.applied == count_applied(log_entries@, target_of(*old(table_data)))
                    &&& outcome.skipped == count_skipped(log_entries@, target_of(*old(table_data)))
                    &&& outcome.done == (log_entries@.len() == 0)
                    &&& outcome.flush_requested == (outcome.applied > 0
                        && final(table_data).opts.write_buffer_size > 0 && saturated(
                        spec_memory_usage(final(table_data).version),
                    ) >= final(table_data).opts.write_buffer_size)
                },
            },
    {
        broadcast use vstd::multiset::group_multiset_axioms;

        let ghost start = *table_data;
        let ghost entries = log_entries@;
        let ghost segment = table_data.opts.segment_duration;
        let table_id = table_data.id;
        let schema_version = table_data.schema_version();
        let ghost target = target_of(*table_data);
        let n = log_entries.len();
        // Check every write before any is replayed.
        let budget: u64 = u64::MAX - table_data.last_memtable_id;
        let mut count: u64 = 0;
        let mut i: usize = 0;
        while i < n
            invariant
                n == entries.len(),
                entries == log_entries@,
                *table_data == start,
                start.wf(),
                segment == start.opts.segment_duration,
                target == target_of(start),
                table_id == start.id,
                schema_version == start.schema.version,
                budget == u64::MAX - start.last_memtable_id,
                i <= n,
                count == replayed_count(entries.take(i as int), target),
                count <= budget,
            decreases n - i,
        {
            proof {
                assert(entries.take(i + 1).drop_last() =~= entries.take(i as int));
                assert(entries.take(i + 1).last() == entries[i as int]);
            }
            match &log_entries[i].payload {
                ReadPayload::Write { row_group } => {
                    if log_entries[i].table_id == table_id && row_group.schema_version
                        == schema_version {
                        let rows = row_group.rows.len();
                        if rows as u64 > budget - count {
                            proof {
                                lemma_count_grows(entries, target, i + 1);
                            }
                            return Err(
                                Error::ApplyMemTable {
                                    space_id: table_data.space_id,
                                    table_id: table_data.id,
                                    source: crate::table::version::Error::MemTableIdsExhausted,
                                },
                            );
                        }
                        count = count + rows as u64;
                    }
                },
                _ => {},
            }
            i += 1;
        }
        proof {
            assert(entries.take(n as int) =~= entries);
        }
        let mut i: usize = 0;
        while i < n
            invariant
                n == entries.len(),
                entries == log_entries@,
                *table_data == start,
                start.wf(),
                segment == start.opts.segment_duration,
                target == target_of(start),
                table_id == start.id,
                schema_version == start.schema.version,
                start.last_memtable_id + replayed_count(entries, target) <= u64::MAX,
                i <= n,
                first_replay_error(
                    start.version,
                    segment,
                    entries.take(i as int),
                    target,
                ).is_none(),
            decreases n - i,
        {
            proof {
                assert(entries.take(i + 1).drop_last() =~= entries.take(i as int));
                assert(entries.take(i + 1).last() == entries[i as int]);
            }
            match &log_entries[i].payload {
                ReadPayload::Write { row_group } => {
                    if log_entries[i].table_id == table_id && row_group.schema_version
                        == schema_version {
                        match check_rows(
                            &table_data.version,
                            &row_group.rows,
                            table_data.opts.segment_duration,
                        ) {
                            Ok(()) => {},
                            Err(source) => {
                                proof {
                                    lemma_replay_error_stays(
                                        start.version,
                                        segment,
                                        entries,
                                        target,
                                        i + 1,
                                    );
                                }
                                return Err(
                                    Error::ApplyMemTable {
                                        space_id: table_data.space_id,
                                        table_id: table_data.id,
                                        source,
                                    },
                                );
                            },
                        }
                    }
                },
                _ => {},
            }
            i += 1;
        }
        proof {
            assert(entries.take(n as int) =~= entries);
            lemma_no_replay_error(start.version, segment, entries, target);
            assert(replayed_rows(entries.take(0), target) =~= Multiset::<
                Entry,
            >::empty());
            assert(stored_rows(table_data.version) =~= stored_rows(start.version).add(
                replayed_rows(entries.take(0), target),
            ));
        }
        let mut applied: usize = 0;
        let mut skipped: usize = 0;
        let mut highest: SequenceNumber = table_data.last_sequence;
        let mut i: usize = 0;
        while i < n
            invariant
                n == entries.len(),
                entries == log_entries@,
                start.wf(),
                table_data.wf(),
                segment == start.opts.segment_duration,
                target == target_of(start),
                table_id == start.id,
                schema_version == start.schema.version,
                start.last_memtable_id + replayed_count(entries, target) <= u64::MAX,
                forall|k: int|
                    0 <= k < entries.len()
                        && is_write_of(#[trigger] entries[k], target)
                        ==> first_row_error(
                        start.version,
                        entries[k].payload->row_group.rows@,
                        segment,
                    ).is_none(),
                i <= n,
                applied == count_applied(entries.take(i as int), target),
                skipped == count_skipped(entries.take(i as int), target),
                applied == 0 ==> table_data.version == start.version
                    && table_data.last_memtable_id == start.last_memtable_id,
                i == 0 ==> highest == start.last_sequence,
                forall|k: int|
                    0 <= k < i && is_write_of(#[trigger] entries[k], target) ==> entry_landed(
                        table_data.version,
                        entries[k],
                        segment,
                    ),
                applied <= i,
                skipped <= i,
                highest == highest_sequence(entries.take(i as int), table_id, start.last_sequence),
                start.last_sequence <= table_data.last_sequence <= highest,
                start.last_memtable_id <= table_data.last_memtable_id <= start.last_memtable_id
                    + replayed_count(entries.take(i as int), target),
                stored_rows(table_data.version) == stored_rows(start.version).add(
                    replayed_rows(entries.take(i as int), target),
                ),
                grows(start.version, table_data.version, segment),
                *table_data == (TableData {
                    version: table_data.version,
                    last_sequence: table_data.last_sequence,
                    last_memtable_id: table_data.last_memtable_id,
                    ..start
                }),
            decreases n - i,
        {
            let ghost before = *table_data;
            proof {
                assert(entries.take(i + 1).drop_last() =~= entries.take(i as int));
                assert(entries.take(i + 1).last() == entries[i as int]);
                lemma_count_grows(entries, target, i + 1);
            }
            let log_entry = &log_entries[i];
            let sequence = log_entry.sequence;
            if log_entry.table_id == table_id && sequence > highest {
                highest = sequence;
            }
            match &log_entry.payload {
                ReadPayload::Write { row_group } => {
                    if log_entry.table_id != table_id {
                        // The entry belongs to another table of the shard.
                    } else if schema_version != row_group.schema_version {
                        // Rows under another version of the schema are in
                        // files already.
                        skipped = skipped + 1;
                    } else {
                        proof {
                            lemma_rows_still_fine(
                                start.version,
                                table_data.version,
                                row_group.rows@,
                                segment,
                            );
                        }
                        match Instance::write_to_memtable(table_data, sequence, row_group) {
                            Ok(()) => {},
                            Err(e) => {
                                proof {
                                    assert(false);
                                }
                            },
                        }
                        proof {
                            crate::instance::write::lemma_grows_transitive(
                                start.version,
                                before.version,
                                table_data.version,
                                segment,
                            );
                            assert(stored_rows(table_data.version) =~= stored_rows(
                                start.version,
                            ).add(replayed_rows(entries.take(i + 1), target)));
                            assert(rows_of_entry(entries[i as int]) == stamped(
                                row_group.rows@,
                                sequence,
                            ));
                            assert(entry_landed(table_data.version, entries[i as int], segment));
                            assert forall|k: int|
                                0 <= k < i && is_write_of(
                                    #[trigger] entries[k],
                                    target,
                                ) implies entry_landed(
                                table_data.version,
                                entries[k],
                                segment,
                            ) by {
                                lemma_entry_stays(
                                    before.version,
                                    table_data.version,
                                    entries[k],
                                    segment,
                                );
                            }
                        }
                        applied = applied + 1;
                    }
                },
                ReadPayload::AlterSchema { .. } | ReadPayload::AlterOptions { .. } => {
                    // Changes of the schema and of the options are recovered
                    // from the manifest.
                },
            }
            i += 1;
        }
        proof {
            assert(entries.take(n as int) =~= entries);
        }
        table_data.set_last_sequence(highest);
        let flush_requested = applied > 0 && table_data.should_flush_table();
        Ok(ReplayOutcome { applied, skipped, flush_requested, done: n == 0 })
    }
}

} // verus!
