//! Choosing what to compact, and queueing the tables that wait for it.

use crate::sst::file::{in_range, FileHandle};
use crate::table::version::{DeleteFile, TableVersion, MAX_LEVEL};
use crate::table_options::CompactionOptions;
use crate::time::Timestamp;
use crate::types::TableId;
use vstd::prelude::*;
use vstd::seq_lib::*;

verus! {

/// What one compaction of a table is to do.
#[derive(Debug)]
pub struct CompactionTask {
    /// The files of level 0 to merge into one file of level 1.
    pub inputs: Vec<FileHandle>,
    /// The expired files to delete, of any level.
    pub expired: Vec<DeleteFile>,
}

/// The test that a file of level 0 may join a compaction: it is not being
/// compacted and has not expired.
pub open spec fn is_candidate(expire_time: Option<Timestamp>) -> spec_fn(FileHandle) -> bool {
    |f: FileHandle| !f.being_compacted && !f.spec_time_range().spec_is_expired(expire_time)
}

/// The test that a file is to be deleted as expired: it has expired and is
/// not being compacted.
pub open spec fn is_reclaimable(expire_time: Option<Timestamp>) -> spec_fn(FileHandle) -> bool {
    |f: FileHandle| !f.being_compacted && f.spec_time_range().spec_is_expired(expire_time)
}

/// Total size of the files, in bytes.
pub open spec fn total_size(files: Seq<FileHandle>) -> int
    decreases files.len(),
{
    if files.len() == 0 {
        0
    } else {
        total_size(files.drop_last()) + files.last().meta.meta.size
    }
}

/// Level 0 is due for a compaction: it has as many candidates as the trigger
/// says, or they are as large together as the trigger says.
pub open spec fn is_triggered(candidates: Seq<FileHandle>, options: CompactionOptions) -> bool {
    candidates.len() >= options.l0_file_num_trigger || total_size(candidates)
        >= options.l0_size_trigger
}

/// The files that a compaction of level 0 merges: where the level is due, the
/// first candidate and the candidates whose time ranges intersect its own,
/// if they are two at least.
pub open spec fn picked_inputs(
    level0: Seq<FileHandle>,
    options: CompactionOptions,
    expire_time: Option<Timestamp>,
) -> Seq<FileHandle> {
    let candidates = level0.filter(is_candidate(expire_time));
    if candidates.len() == 0 || !is_triggered(candidates, options) {
        Seq::empty()
    } else {
        let cluster = candidates.filter(in_range(candidates[0].spec_time_range()));
        if cluster.len() >= 2 {
            cluster
        } else {
            Seq::empty()
        }
    }
}

/// The deletion of each file from its level.
pub open spec fn deletes_of(files: Seq<FileHandle>, level: u16) -> Seq<DeleteFile> {
    files.map_values(|f: FileHandle| DeleteFile { level, file_id: f.spec_id() })
}

/// The deletions of the reclaimable files of the levels, level after level.
pub open spec fn expired_deletes(
    levels: Seq<crate::sst::file::LevelHandler>,
    expire_time: Option<Timestamp>,
) -> Seq<DeleteFile>
    decreases levels.len(),
{
    if levels.len() == 0 {
        Seq::empty()
    } else {
        expired_deletes(levels.drop_last(), expire_time) + deletes_of(
            levels.last().files@.filter(is_reclaimable(expire_time)),
            (levels.len() - 1) as u16,
        )
    }
}

/// The files that are not being compacted and have expired, or have not, in
/// their order.
fn filter_files(files: &Vec<FileHandle>, expire_time: Option<Timestamp>, expired: bool) -> (out:
    Vec<FileHandle>)
    ensures
        expired ==> out@ == files@.filter(is_reclaimable(expire_time)),
        !expired ==> out@ == files@.filter(is_candidate(expire_time)),
{
    let ghost test = if expired {
        is_reclaimable(expire_time)
    } else {
        is_candidate(expire_time)
    };
    let mut out: Vec<FileHandle> = Vec::new();
    let mut i: usize = 0;
    while i < files.len()
        invariant
            i <= files@.len(),
            test == (if expired {
                is_reclaimable(expire_time)
            } else {
                is_candidate(expire_time)
            }),
            out@ == files@.take(i as int).filter(test),
        decreases files@.len() - i,
    {
        proof {
            files@.take(i as int).lemma_filter_push(files@[i as int], test);
            assert(files@.take(i as int).push(files@[i as int]) =~= files@.take(i + 1));
        }
        let f = &files[i];
        if !f.being_compacted() && f.time_range().is_expired(expire_time) == expired {
            out.push(f.clone());
        }
        i += 1;
    }
    proof {
        assert(files@.take(files@.len() as int) =~= files@);
    }
    out
}

/// Whether the files are as large together as `limit`.
fn reaches_size(files: &Vec<FileHandle>, limit: u64) -> (b: bool)
    ensures
        b == (total_size(files@) >= limit),
{
    let mut sum: u64 = 0;
    let mut i: usize = 0;
    if limit == 0 {
        proof {
            lemma_total_size_nonnegative(files@);
        }
        return true;
    }
    while i < files.len()
        invariant
            i <= files@.len(),
            sum == total_size(files@.take(i as int)),
            sum < limit,
        decreases files@.len() - i,
    {
        proof {
            assert(files@.take(i + 1).drop_last() =~= files@.take(i as int));
            assert(files@.take(i + 1).last() == files@[i as int]);
        }
        let size = files[i].size();
        if size >= limit - sum {
            proof {
                lemma_total_size_grows(files@, i + 1);
            }
            return true;
        }
        sum = sum + size;
        i += 1;
    }
    proof {
        assert(files@.take(files@.len() as int) =~= files@);
    }
    false
}

proof fn lemma_total_size_nonnegative(files: Seq<FileHandle>)
    ensures
        total_size(files) >= 0,
    decreases files.len(),
{
    if files.len() > 0 {
        lemma_total_size_nonnegative(files.drop_last());
    }
}

proof fn lemma_total_size_grows(files: Seq<FileHandle>, n: int)
    requires
        0 <= n <= files.len(),
    ensures
        total_size(files.take(n)) <= total_size(files),
    decreases files.len() - n,
{
    if n == files.len() {
        assert(files.take(n) =~= files);
    } else {
        assert(files.take(n + 1).drop_last() =~= files.take(n));
        lemma_total_size_grows(files, n + 1);
    }
}

/// Picks what the next compaction of the table is to do: the expired files of
/// all levels are deleted, and where level 0 is due, a cluster of its files
/// whose time ranges overlap is merged. Files that are being compacted are
/// left alone.
pub fn pick(
    version: &TableVersion,
    options: &CompactionOptions,
    expire_time: Option<Timestamp>,
) -> (task: CompactionTask)
    requires
        version.wf(),
    ensures
        task.inputs@ == picked_inputs(version.levels@[0].files@, *options, expire_time),
        task.expired@ == expired_deletes(version.levels@, expire_time),
{
    let mut expired: Vec<DeleteFile> = Vec::new();
    let mut l: usize = 0;
    while l < version.levels.len()
        invariant
            version.wf(),
            l <= version.levels@.len(),
            expired@ == expired_deletes(version.levels@.take(l as int), expire_time),
        decreases version.levels@.len() - l,
    {
        let files = filter_files(&version.levels[l].files.files, expire_time, true);
        let ghost done = expired@;
        let mut i: usize = 0;
        while i < files.len()
            invariant
                l < MAX_LEVEL,
                i <= files@.len(),
                expired@ == done + deletes_of(files@.take(i as int), l as u16),
            decreases files@.len() - i,
        {
            expired.push(DeleteFile { level: l as u16, file_id: files[i].id() });
            proof {
                assert(deletes_of(files@.take(i + 1), l as u16) =~= deletes_of(
                    files@.take(i as int),
                    l as u16,
                ).push(DeleteFile { level: l as u16, file_id: files@[i as int].spec_id() }));
                assert(expired@ =~= done + deletes_of(files@.take(i + 1), l as u16));
            }
            i += 1;
        }
        proof {
            assert(files@.take(files@.len() as int) =~= files@);
            let levels = version.levels@;
            assert(levels.take(l + 1).drop_last() =~= levels.take(l as int));
            assert(levels.take(l + 1).last() == levels[l as int]);
        }
        l += 1;
    }
    proof {
        assert(version.levels@.take(version.levels@.len() as int) =~= version.levels@);
    }
    let candidates = filter_files(&version.levels[0].files.files, expire_time, false);
    let triggered = candidates.len() >= options.l0_file_num_trigger || reaches_size(
        &candidates,
        options.l0_size_trigger,
    );
    if candidates.len() == 0 || !triggered {
        return CompactionTask { inputs: Vec::new(), expired };
    }
    let range = candidates[0].time_range();
    let mut cluster: Vec<FileHandle> = Vec::new();
    let mut i: usize = 0;
    while i < candidates.len()
        invariant
            i <= candidates@.len(),
            cluster@ == candidates@.take(i as int).filter(in_range(range)),
        decreases candidates@.len() - i,
    {
        proof {
            candidates@.take(i as int).lemma_filter_push(candidates@[i as int], in_range(range));
            assert(candidates@.take(i as int).push(candidates@[i as int]) =~= candidates@.take(
                i + 1,
            ));
        }
        if candidates[i].intersect_with_time_range(range) {
            cluster.push(candidates[i].clone());
        }
        i += 1;
    }
    proof {
        assert(candidates@.take(candidates@.len() as int) =~= candidates@);
    }
    if cluster.len() >= 2 {
        CompactionTask { inputs: cluster, expired }
    } else {
        CompactionTask { inputs: Vec::new(), expired }
    }
}

/// What became of a request to compact a table.
#[derive(Clone, Copy, Debug, PartialEq, Eq, Structural)]
pub enum ScheduleOutcome {
    /// The request waits for its turn.
    Queued,
    /// The queue is full: the request of the scheduler itself is dropped.
    Dropped,
    /// The queue is full: the caller of a manual compaction is told so.
    SchedulerBusy,
}

/// The tables that wait to be compacted, in the order of their turns.
#[derive(Debug)]
pub struct CompactionScheduler {
    pub pending: Vec<TableId>,
    /// Number of manual requests at the head of the queue.
    pub manual: usize,
    /// Number of requests that may wait.
    pub max_pending: usize,
    /// Whether the scheduler still takes requests.
    pub running: bool,
}

impl CompactionScheduler {
    /// The manual requests stand at the head of the queue.
    pub open spec fn wf(self) -> bool {
        self.manual <= self.pending@.len()
    }

    pub fn new(max_pending: usize) -> (scheduler: CompactionScheduler)
        ensures
            scheduler.pending@.len() == 0,
            scheduler.manual == 0,
            scheduler.max_pending == max_pending,
            scheduler.running,
            scheduler.wf(),
    {
        CompactionScheduler { pending: Vec::new(), manual: 0, max_pending, running: true }
    }

    /// Takes a request to compact the table, unless the queue is full or the
    /// scheduler has been stopped. A manual request goes ahead of the
    /// requests of the scheduler itself, behind the manual requests before
    /// it.
    pub fn schedule_table_compaction(&mut self, table_id: TableId, manual: bool) -> (outcome:
        ScheduleOutcome)
        requires
            old(self).wf(),
        ensures
            final(self).wf(),
            final(self).max_pending == old(self).max_pending,
            final(self).running == old(self).running,
            !old(self).running || old(self).pending@.len() >= old(self).max_pending ==> *final(self)
                == *old(self) && outcome == if manual {
                ScheduleOutcome::SchedulerBusy
            } else {
                ScheduleOutcome::Dropped
            },
            old(self).running && old(self).pending@.len() < old(self).max_pending ==> outcome
                == ScheduleOutcome::Queued && if manual {
                final(self).pending@ == old(self).pending@.insert(old(self).manual as int, table_id)
                    && final(self).manual == old(self).manual + 1
            } else {
                final(self).pending@ == old(self).pending@.push(table_id) && final(self).manual
                    == old(self).manual
            },
    {
        if !self.running || self.pending.len() >= self.max_pending {
            return if manual {
                ScheduleOutcome::SchedulerBusy
            } else {
                ScheduleOutcome::Dropped
            };
        }
        if manual {
            self.pending.insert(self.manual, table_id);
            self.manual = self.manual + 1;
        } else {
            self.pending.push(table_id);
        }
        ScheduleOutcome::Queued
    }

    /// The table whose turn it is, if any waits.
    pub fn next(&mut self) -> (table_id: Option<TableId>)
        requires
            old(self).wf(),
        ensures
            final(self).wf(),
            final(self).max_pending == old(self).max_pending,
            final(self).running == old(self).running,
            old(self).pending@.len() == 0 ==> table_id.is_none() && *final(self) == *old(self),
            old(self).pending@.len() > 0 ==> table_id == Some(old(self).pending@[0])
                && final(self).pending@ == old(self).pending@.drop_first()
                && final(self).manual == if old(self).manual > 0 {
                (old(self).manual - 1) as usize
            } else {
                0usize
            },
    {
        if self.pending.len() == 0 {
            return None;
        }
        let table_id = self.pending.remove(0);
        if self.manual > 0 {
            self.manual = self.manual - 1;
        }
        proof {
            assert(self.pending@ =~= old(self).pending@.drop_first());
        }
        Some(table_id)
    }

    /// Stops the scheduler: it takes no more requests.
    pub fn stop_scheduler(&mut self)
        ensures
            *final(self) == (CompactionScheduler { running: false, ..*old(self) }),
    {
        self.running = false;
    }
}

} // verus!
