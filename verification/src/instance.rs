//! The engine: all spaces, and what their tables share.

pub mod drop;
pub mod engine;
pub mod flush_compaction;
pub mod open;
pub mod read;
pub mod write;

use crate::space::{has_space, Space, Spaces};
use crate::sst::file::{FilePurger, StopPlan};
use crate::table::data::{saturated, TableData, TableShardInfo};
use crate::table_options::TableOptions;
use crate::types::{SpaceId, TableId};
use crate::wal::WalLocation;
use vstd::prelude::*;

verus! {

/// A manual flush or compaction.
#[derive(Clone, Copy, Debug, PartialEq, Eq, Structural)]
pub enum ManualOp {
    Flush,
    Compact,
}

/// Error of the engine.
#[derive(Clone, Copy, Debug, PartialEq, Eq, Structural)]
pub enum Error {
    /// The file purger could not be stopped.
    StopFilePurger { source: crate::sst::file::Error },
    /// The compaction scheduler could not be stopped.
    StopScheduler,
    /// The manual operation failed on the table.
    ManualOp { op: ManualOp, table_id: TableId },
    /// The result of the manual operation on the table never arrived.
    RecvManualOpResult { op: ManualOp, table_id: TableId },
    /// The queue of the compaction scheduler is full.
    SchedulerBusy { table_id: TableId },
}

/// How often the rows that a scan reads are read again.
#[derive(Clone, Copy, Debug, PartialEq, Eq, Structural)]
pub enum ReadFrequency {
    Once,
    Frequent,
}

/// What a scan is for.
#[derive(Clone, Copy, Debug, PartialEq, Eq, Structural)]
pub enum ScanType {
    Query,
    Compaction,
}

impl From<ScanType> for ReadFrequency {
    fn from(value: ScanType) -> (frequency: ReadFrequency) {
        match value {
            ScanType::Query => ReadFrequency::Frequent,
            ScanType::Compaction => ReadFrequency::Once,
        }
    }
}

impl vstd::std_specs::convert::FromSpecImpl<ScanType> for ReadFrequency {
    open spec fn obeys_from_spec() -> bool {
        true
    }

    /// A query reads its rows again and again, a compaction once.
    open spec fn from_spec(value: ScanType) -> ReadFrequency {
        match value {
            ScanType::Query => ReadFrequency::Frequent,
            ScanType::Compaction => ReadFrequency::Once,
        }
    }
}

/// How the files are scanned.
#[derive(Clone, Copy, Debug, PartialEq, Eq, Structural)]
pub struct ScanOptions {
    /// Number of files that a scan reads at a time.
    pub background_read_parallelism: usize,
    /// Number of batches that a stream may hold back.
    pub max_record_batches_in_flight: usize,
}

/// How the rows of a read are batched.
#[derive(Clone, Copy, Debug, PartialEq, Eq, Structural)]
pub struct IterOptions {
    pub batch_size: usize,
}

/// How tables are recovered from the log.
#[derive(Clone, Copy, Debug, PartialEq, Eq, Structural)]
pub enum RecoverMode {
    /// Each table reads its own entries.
    TableBased,
    /// The tables of a shard share one walk over the log.
    ShardBased,
}

/// How a file is read.
#[derive(Clone, Copy, Debug, PartialEq, Eq, Structural)]
pub struct SstReadOptions {
    pub num_rows_per_row_group: usize,
    pub frequency: ReadFrequency,
    pub scan_options: ScanOptions,
    /// Whether the rows are read from the last to the first.
    pub reverse: bool,
    pub has_meta_cache: bool,
}

/// The options under which a scan of that type reads a file.
pub fn create_sst_read_option(
    scan_type: ScanType,
    scan_options: ScanOptions,
    num_rows_per_row_group: usize,
    reverse: bool,
    has_meta_cache: bool,
) -> (options: SstReadOptions)
    ensures
        options == (SstReadOptions {
            num_rows_per_row_group,
            frequency: match scan_type {
                ScanType::Query => ReadFrequency::Frequent,
                ScanType::Compaction => ReadFrequency::Once,
            },
            scan_options,
            reverse,
            has_meta_cache,
        }),
{
    SstReadOptions {
        num_rows_per_row_group,
        frequency: ReadFrequency::from(scan_type),
        scan_options,
        reverse,
        has_meta_cache,
    }
}

/// Where the log of the table is found: in the region of its shard.
pub fn create_wal_location(table_id: TableId, shard_info: TableShardInfo) -> (location: WalLocation)
    ensures
        location == (WalLocation { region_id: shard_info.shard_id as u64, table_id }),
{
    WalLocation::new(shard_info.shard_id as u64, table_id)
}

/// Flushes memtables into files.
#[derive(Clone, Copy, Debug, PartialEq, Eq, Structural)]
pub struct Flusher {
    /// Bytes that the writer of a file may buffer.
    pub write_sst_max_buffer_size: usize,
}

/// How one flush is carried out.
#[derive(Clone, Copy, Debug, PartialEq, Eq, Structural)]
pub struct TableFlushOptions {
    /// Whether the caller is told how the flush ended.
    pub res_sender: bool,
    /// Number of times that a failed flush is tried again.
    pub max_retry_flush_limit: usize,
}

/// All spaces of the engine.
#[derive(Debug)]
pub struct SpaceStore {
    pub spaces: Spaces,
    pub has_meta_cache: bool,
}

/// Bytes that the memtables of the spaces account for.
pub open spec fn spaces_usage(spaces: Seq<Space>) -> int
    decreases spaces.len(),
{
    if spaces.len() == 0 {
        0
    } else {
        spaces_usage(spaces.drop_last()) + saturated(
            crate::space::tables_usage(spaces.last().tables@),
        )
    }
}

proof fn lemma_spaces_usage_nonnegative(spaces: Seq<Space>)
    ensures
        spaces_usage(spaces) >= 0,
    decreases spaces.len(),
{
    if spaces.len() > 0 {
        lemma_spaces_usage_nonnegative(spaces.drop_last());
        crate::space::lemma_usage_nonnegative(spaces.last().tables@);
    }
}

/// The memtables of the space account for that many bytes.
pub open spec fn space_usage(space: Space) -> int {
    saturated(crate::space::tables_usage(space.tables@))
}

/// The memtables of the space at `at` account for the most bytes among the
/// spaces; among several such spaces it is the last.
pub open spec fn is_largest_space(spaces: Seq<Space>, at: int) -> bool {
    &&& 0 <= at < spaces.len()
    &&& forall|i: int| 0 <= i <= at ==> space_usage(#[trigger] spaces[i]) <= space_usage(spaces[at])
    &&& forall|i: int|
        at < i < spaces.len() ==> space_usage(#[trigger] spaces[i]) < space_usage(spaces[at])
}

impl SpaceStore {
    /// All tables of all spaces, space after space.
    pub open spec fn all_tables(spaces: Seq<Space>) -> Seq<TableData>
        decreases spaces.len(),
    {
        if spaces.len() == 0 {
            Seq::empty()
        } else {
            Self::all_tables(spaces.drop_last()) + spaces.last().tables@
        }
    }

    /// Appends all tables of all spaces to `tables`.
    pub fn list_all_tables<'a>(&'a self, tables: &mut Vec<&'a TableData>)
        ensures
            crate::table::version::pointees_of(final(tables)@)
                == crate::table::version::pointees_of(
                old(tables)@,
            ) + Self::all_tables(self.spaces.spaces@),
    {
        let ghost start = crate::table::version::pointees_of(tables@);
        let mut s: usize = 0;
        while s < self.spaces.spaces.len()
            invariant
                s <= self.spaces.spaces@.len(),
                crate::table::version::pointees_of(tables@) == start + Self::all_tables(
                    self.spaces.spaces@.take(s as int),
                ),
            decreases self.spaces.spaces@.len() - s,
        {
            let space = &self.spaces.spaces[s];
            let ghost done = crate::table::version::pointees_of(tables@);
            let mut i: usize = 0;
            while i < space.tables.len()
                invariant
                    i <= space.tables@.len(),
                    crate::table::version::pointees_of(tables@)
                        == done + space.tables@.take(i as int),
                decreases space.tables@.len() - i,
            {
                let ghost before = tables@;
                tables.push(&space.tables[i]);
                proof {
                    assert(crate::table::version::pointees_of(tables@)
                        =~= crate::table::version::pointees_of(before).push(space.tables@[i as int]));
                    assert(space.tables@.take(i + 1) =~= space.tables@.take(i as int).push(
                        space.tables@[i as int],
                    ));
                    assert(crate::table::version::pointees_of(tables@) =~= done + space.tables@.take(
                        i + 1,
                    ));
                }
                i += 1;
            }
            proof {
                assert(space.tables@.take(space.tables@.len() as int) =~= space.tables@);
                let spaces = self.spaces.spaces@;
                assert(spaces.take(s + 1).drop_last() =~= spaces.take(s as int));
                assert(crate::table::version::pointees_of(tables@) =~= start + Self::all_tables(
                    spaces.take(s + 1),
                ));
            }
            s += 1;
        }
        proof {
            assert(self.spaces.spaces@.take(self.spaces.spaces@.len() as int)
                =~= self.spaces.spaces@);
        }
    }

    /// The space whose memtables account for the most bytes; among several
    /// such spaces the last.
    pub fn find_maximum_memory_usage_space(&self) -> (found: Option<&Space>)
        ensures
            match found {
                None => self.spaces.spaces@.len() == 0,
                Some(space) => exists|at: int|
                    is_largest_space(self.spaces.spaces@, at) && #[trigger] self.spaces.spaces@[at]
                        == *space,
            },
    {
        match self.maximum_memory_usage_space_index() {
            Some(at) => Some(&self.spaces.spaces[at]),
            None => None,
        }
    }

    /// Where the space stands whose memtables account for the most bytes;
    /// among several such spaces the last.
    pub fn maximum_memory_usage_space_index(&self) -> (found: Option<usize>)
        ensures
            match found {
                None => self.spaces.spaces@.len() == 0,
                Some(at) => is_largest_space(self.spaces.spaces@, at as int),
            },
    {
        let n = self.spaces.spaces.len();
        if n == 0 {
            return None;
        }
        let mut best: usize = 0;
        let mut best_usage = self.spaces.spaces[0].memtable_memory_usage();
        let mut i: usize = 1;
        while i < n
            invariant
                n == self.spaces.spaces@.len(),
                1 <= i <= n,
                best < i,
                best_usage == space_usage(self.spaces.spaces@[best as int]),
                forall|k: int|
                    0 <= k <= best ==> space_usage(#[trigger] self.spaces.spaces@[k]) <= best_usage,
                forall|k: int|
                    best < k < i ==> space_usage(#[trigger] self.spaces.spaces@[k]) < best_usage,
            decreases n - i,
        {
            let usage = self.spaces.spaces[i].memtable_memory_usage();
            if usage >= best_usage {
                best = i;
                best_usage = usage;
            }
            i += 1;
        }
        Some(best)
    }

    /// Bytes that the memtables of all tables of all spaces account for, up to
    /// the greatest number of bytes there is.
    pub fn total_memory_usage_space(&self) -> (bytes: usize)
        ensures
            bytes == saturated(spaces_usage(self.spaces.spaces@)),
    {
        let mut bytes: usize = 0;
        let mut i: usize = 0;
        while i < self.spaces.spaces.len()
            invariant
                i <= self.spaces.spaces@.len(),
                bytes == saturated(spaces_usage(self.spaces.spaces@.take(i as int))),
            decreases self.spaces.spaces@.len() - i,
        {
            proof {
                let spaces = self.spaces.spaces@;
                assert(spaces.take(i + 1).drop_last() =~= spaces.take(i as int));
                lemma_spaces_usage_nonnegative(spaces.take(i as int));
                crate::space::lemma_usage_nonnegative(spaces[i as int].tables@);
            }
            let more = self.spaces.spaces[i].memtable_memory_usage();
            bytes = match bytes.checked_add(more) {
                Some(sum) => sum,
                None => usize::MAX,
            };
            i += 1;
        }
        proof {
            assert(self.spaces.spaces@.take(self.spaces.spaces@.len() as int)
                =~= self.spaces.spaces@);
        }
        bytes
    }
}

/// One step of the shutdown of the engine; the steps are taken in the order
/// in which `Instance::close` returns them.
#[derive(Clone, Copy, Debug, PartialEq, Eq, Structural)]
pub enum CloseStep {
    /// Stop the file purger as the plan says.
    StopFilePurger(StopPlan),
    /// Stop the compaction scheduler and wait for the compaction under way.
    StopScheduler,
    /// Close the spaces: wait for the writes and flushes under way.
    CloseSpaces,
    /// Drop the runtimes.
    DropRuntimes,
}

/// How a manual operation went outside the engine.
#[derive(Clone, Copy, Debug, PartialEq, Eq, Structural)]
pub enum ManualOpOutcome {
    /// The operation could not be scheduled.
    ScheduleFailed,
    /// The operation was scheduled, and nobody waits for its result.
    Scheduled,
    /// The result of the operation never arrived.
    RecvFailed,
    /// The operation failed.
    OpFailed,
    /// The operation succeeded.
    Done,
}

/// The engine: all spaces, and what their tables share.
#[derive(Debug)]
pub struct Instance {
    pub space_store: SpaceStore,
    /// Options that stand in for those that a table leaves open.
    pub table_opts: TableOptions,
    pub file_purger: FilePurger,
    pub max_rows_in_write_queue: usize,
    /// Size of the memtables of the engine, in bytes, from which a table is
    /// flushed; 0 for no such limit.
    pub db_write_buffer_size: usize,
    /// Size of the memtables of a space, in bytes, from which one of its
    /// tables is flushed; 0 for no such limit.
    pub space_write_buffer_size: usize,
    /// Number of log entries that a replay reads at a time.
    pub replay_batch_size: usize,
    /// Bytes that the writer of a file may buffer.
    pub write_sst_max_buffer_size: usize,
    /// Number of times that a failed flush is tried again.
    pub max_retry_flush_limit: usize,
    /// Greatest size of a write, in bytes.
    pub max_bytes_per_write_batch: Option<usize>,
    pub scan_options: ScanOptions,
    pub iter_options: Option<IterOptions>,
    pub recover_mode: RecoverMode,
}

impl Instance {
    /// The spaces are in order.
    pub open spec fn wf(self) -> bool {
        self.space_store.spaces.wf()
    }

    /// Shuts the engine down: the steps to take, in their order. The file
    /// purger is stopped first, then the compaction scheduler; then the
    /// spaces are closed and the runtimes dropped.
    pub fn close(&mut self) -> (steps: Vec<CloseStep>)
        ensures
            steps@ == seq![
                CloseStep::StopFilePurger(
                    (StopPlan {
                        request: crate::sst::file::Request::Exit,
                        join: !old(self).file_purger.joined,
                    }),
                ),
                CloseStep::StopScheduler,
                CloseStep::CloseSpaces,
                CloseStep::DropRuntimes,
            ],
            final(self).file_purger.joined,
            *final(self) == (Instance { file_purger: final(self).file_purger, ..*old(self) }),
    {
        let plan = self.file_purger.stop();
        let mut steps: Vec<CloseStep> = Vec::new();
        steps.push(CloseStep::StopFilePurger(plan));
        steps.push(CloseStep::StopScheduler);
        steps.push(CloseStep::CloseSpaces);
        steps.push(CloseStep::DropRuntimes);
        proof {
            assert(steps@ =~= seq![
                CloseStep::StopFilePurger(plan),
                CloseStep::StopScheduler,
                CloseStep::CloseSpaces,
                CloseStep::DropRuntimes,
            ]);
        }
        steps
    }

    /// The error that the shutdown ends with where the step fails.
    pub fn close_error(step: CloseStep) -> (error: Option<Error>)
        ensures
            error == match step {
                CloseStep::StopFilePurger(_) => Some(
                    Error::StopFilePurger { source: crate::sst::file::Error::StopPurger },
                ),
                CloseStep::StopScheduler => Some(Error::StopScheduler),
                CloseStep::CloseSpaces => None,
                CloseStep::DropRuntimes => None,
            },
    {
        match step {
            CloseStep::StopFilePurger(_) => Some(
                Error::StopFilePurger { source: crate::sst::file::Error::StopPurger },
            ),
            CloseStep::StopScheduler => Some(Error::StopScheduler),
            CloseStep::CloseSpaces => None,
            CloseStep::DropRuntimes => None,
        }
    }

    /// How a manual flush is carried out: the caller of a synchronous flush is
    /// told how it ended, and a failed flush is not tried again.
    pub fn manual_flush_table(&self, request: crate::request::FlushRequest) -> (opts:
        TableFlushOptions)
        ensures
            opts == (TableFlushOptions { res_sender: request.sync, max_retry_flush_limit: 0 }),
    {
        TableFlushOptions { res_sender: request.sync, max_retry_flush_limit: 0 }
    }

    /// What the caller of a manual flush of the table is told.
    pub fn manual_flush_result(
        table_id: TableId,
        request: crate::request::FlushRequest,
        outcome: ManualOpOutcome,
    ) -> (r: Result<(), Error>)
        ensures
            r == match outcome {
                ManualOpOutcome::ScheduleFailed => Err(
                    Error::ManualOp { op: ManualOp::Flush, table_id },
                ),
                ManualOpOutcome::Scheduled => Ok(()),
                ManualOpOutcome::RecvFailed => if request.sync {
                    Err(Error::RecvManualOpResult { op: ManualOp::Flush, table_id })
                } else {
                    Ok(())
                },
                ManualOpOutcome::OpFailed => if request.sync {
                    Err(Error::ManualOp { op: ManualOp::Flush, table_id })
                } else {
                    Ok(())
                },
                ManualOpOutcome::Done => Ok(()),
            },
    {
        match outcome {
            ManualOpOutcome::ScheduleFailed => Err(Error::ManualOp { op: ManualOp::Flush,
                table_id }),
            ManualOpOutcome::Scheduled => Ok(()),
            ManualOpOutcome::RecvFailed => if request.sync {
                Err(Error::RecvManualOpResult { op: ManualOp::Flush, table_id })
            } else {
                Ok(())
            },
            ManualOpOutcome::OpFailed => if request.sync {
                Err(Error::ManualOp { op: ManualOp::Flush, table_id })
            } else {
                Ok(())
            },
            ManualOpOutcome::Done => Ok(()),
        }
    }

    /// What the caller of a manual compaction of the table is told: that the
    /// scheduler is busy where its queue is full, else how the compaction
    /// ended.
    pub fn manual_compact_table(table_id: TableId, outcome: ManualOpOutcome) -> (r: Result<
        (),
        Error,
    >)
        ensures
            r == match outcome {
                ManualOpOutcome::RecvFailed => Err(
                    Error::RecvManualOpResult { op: ManualOp::Compact, table_id },
                ),
                ManualOpOutcome::OpFailed => Err(Error::ManualOp { op: ManualOp::Compact,
                    table_id }),
                ManualOpOutcome::ScheduleFailed => Err(Error::SchedulerBusy { table_id }),
                ManualOpOutcome::Scheduled => Ok(()),
                ManualOpOutcome::Done => Ok(()),
            },
    {
        match outcome {
            ManualOpOutcome::RecvFailed => Err(
                Error::RecvManualOpResult { op: ManualOp::Compact, table_id },
            ),
            ManualOpOutcome::OpFailed => Err(Error::ManualOp { op: ManualOp::Compact, table_id }),
            ManualOpOutcome::ScheduleFailed => Err(Error::SchedulerBusy { table_id }),
            ManualOpOutcome::Scheduled => Ok(()),
            ManualOpOutcome::Done => Ok(()),
        }
    }

    /// The space of that id.
    pub fn get_space_by_read_lock(&self, space: SpaceId) -> (found: Option<&Space>)
        ensures
            match found {
                Some(s) => exists|i: int|
                    0 <= i < self.space_store.spaces.spaces@.len()
                        && #[trigger] self.space_store.spaces.spaces@[i] == *s && s.id == space,
                None => !has_space(self.space_store.spaces.spaces@, space),
            },
    {
        self.space_store.spaces.get_by_id(space)
    }

    /// Whether the memtables of the engine have grown to its write buffer
    /// size.
    pub fn should_flush_instance(&self) -> (b: bool)
        ensures
            b == (self.db_write_buffer_size > 0 && saturated(
                spaces_usage(self.space_store.spaces.spaces@),
            ) >= self.db_write_buffer_size),
    {
        self.db_write_buffer_size > 0 && self.space_store.total_memory_usage_space()
            >= self.db_write_buffer_size
    }

    pub fn make_flusher(&self) -> (flusher: Flusher)
        ensures
            flusher == (Flusher { write_sst_max_buffer_size: self.write_sst_max_buffer_size }),
    {
        Flusher { write_sst_max_buffer_size: self.write_sst_max_buffer_size }
    }

    pub fn max_retry_flush_limit(&self) -> (limit: usize)
        ensures
            limit == self.max_retry_flush_limit,
    {
        self.max_retry_flush_limit
    }
}

} // verus!
