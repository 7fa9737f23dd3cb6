//! Flushing memtables into files.

use crate::compaction::{deletes_of, CompactionTask};
use crate::entry::{all_entries, encode_key, encoded_key, sorted_entries, views, Entry};
use crate::instance::read::{file_sources, find_sst, is_merged_read, sst_rows, SstData};
use crate::memtable::{copy_entries, MemTable, MemTableId, ENTRY_SIZE};
use crate::row_iter::dedup::{dedup, first_of_runs};
use crate::schema::Schema;
use crate::sst::file::{
    is_max_end, is_max_key, is_max_sequence, is_min_key, is_min_start, merge_sst_meta,
    some_range_wf, FileMeta, Request, SstMetaData,
};
use crate::sst::file::FileHandle;
use crate::table::data::{adds_fit, TableData};
use crate::table::version::{
    mem_id_not_in, AddFile, DeleteFile, TableVersion, VersionEdit, MAX_LEVEL,
};
use crate::time::{TimeRange, Timestamp};
use crate::types::{FileId, SequenceNumber};
use vstd::prelude::*;
use vstd::seq_lib::*;

verus! {

/// Why a flush fails.
#[derive(Clone, Copy, Debug, PartialEq, Eq, Structural)]
pub enum Error {
    /// No more file ids are left to give out.
    FileIdsExhausted,
    /// The plan was not made for the table as it is now.
    StalePlan,
    /// The files could not be written, however often it was tried.
    FlushFailed { attempts: usize },
    /// The compaction cannot go ahead: the rows of an input are not at hand,
    /// no input has a time range, or no file id is left. The inputs stay in
    /// place.
    CompactionFailed,
}

/// What freezing the memtables of a table came to.
#[derive(Clone, Copy, Debug, PartialEq, Eq, Structural)]
pub enum FreezeOutcome {
    /// No memtable of the table holds a row, or the table has been dropped:
    /// there is nothing to flush.
    NothingToFlush,
    /// A flush of the table is under way.
    FlushInFlight,
    /// The memtables are frozen; they hold the writes up to that sequence
    /// number.
    Frozen(SequenceNumber),
}

/// What is to be done outside the engine to flush a table: each file is
/// written with its rows, then the edit is recorded in the manifest.
#[derive(Debug)]
pub struct FlushPlan {
    /// Sequence number up to which the rows of the table are in files once
    /// the flush is done.
    pub flush_sequence: SequenceNumber,
    /// Ids of the memtables that the flush empties.
    pub mems_to_remove: Vec<MemTableId>,
    /// The files to write, all on level 0.
    pub files_to_add: Vec<AddFile>,
    /// The rows of each file, in the order of the files.
    pub rows: Vec<Vec<Entry>>,
}

/// What is left to do outside the engine once a flush is done.
#[derive(Clone, Copy, Debug, PartialEq, Eq, Structural)]
pub struct FlushDone {
    /// Sequence number up to which the entries of the log can be deleted.
    pub mark_delete_up_to: SequenceNumber,
}

/// What to do about a flush that failed.
#[derive(Clone, Copy, Debug, PartialEq, Eq, Structural)]
pub enum RetryDecision {
    /// Try again after that many milliseconds.
    Retry { backoff_ms: u64 },
    /// Give up: the memtables stay frozen for the next flush.
    GiveUp,
}

/// Milliseconds to wait before the first new try of a failed flush.
pub const FLUSH_BACKOFF_BASE_MS: u64 = 100;

/// The wait before try number `attempt`: the base, doubled with every try, up
/// to the greatest number of milliseconds there is.
pub open spec fn backoff_of(attempt: nat) -> int
    decreases attempt,
{
    if attempt == 0 {
        FLUSH_BACKOFF_BASE_MS as int
    } else if backoff_of((attempt - 1) as nat) * 2 > u64::MAX {
        u64::MAX as int
    } else {
        backoff_of((attempt - 1) as nat) * 2
    }
}

/// `mem` with the mark that it takes no more rows.
pub open spec fn frozen_copy(mem: MemTable) -> MemTable {
    MemTable { frozen: true, ..mem }
}

/// The test that a memtable waits to be flushed.
pub open spec fn is_frozen() -> spec_fn(MemTable) -> bool {
    |m: MemTable| m.frozen
}

/// The test that a memtable waits to be flushed and holds rows.
pub open spec fn is_dirty() -> spec_fn(MemTable) -> bool {
    |m: MemTable| m.frozen && m.entries@.len() > 0
}

/// All memtables of the version: the sampling memtable first.
pub open spec fn all_mems(version: TableVersion) -> Seq<MemTable> {
    (match version.sampling_mem {
        Some(mem) => seq![mem],
        None => Seq::empty(),
    }) + version.memtables@
}

/// The memtables of the version that wait to be flushed.
pub open spec fn frozen_mems(version: TableVersion) -> Seq<MemTable> {
    all_mems(version).filter(is_frozen())
}

/// The memtables of the version that wait to be flushed and hold rows: those
/// that a flush writes a file for.
pub open spec fn dirty_mems(version: TableVersion) -> Seq<MemTable> {
    all_mems(version).filter(is_dirty())
}

/// The ids of the memtables.
pub open spec fn mem_ids(mems: Seq<MemTable>) -> Seq<MemTableId> {
    mems.map_values(|m: MemTable| m.id)
}

/// The rows that a flush writes for a memtable: all its rows, or, where the
/// table drops overwritten rows, of each key the row of the latest write.
pub open spec fn flush_rows(mem: MemTable, need_dedup: bool) -> Seq<Entry> {
    if need_dedup {
        first_of_runs(mem.entries@)
    } else {
        mem.entries@
    }
}

/// The time range of the file of a memtable: the memtable's time bucket, or
/// for the sampling memtable the range from the earliest of the rows to just
/// behind the latest.
pub open spec fn is_flush_range(range: TimeRange, mem: MemTable, rows: Seq<Entry>) -> bool {
    if mem.sampling {
        &&& exists|i: int|
            0 <= i < rows.len() && (#[trigger] rows[i]).key.timestamp == range.inclusive_start
        &&& exists|i: int|
            0 <= i < rows.len() && (#[trigger] rows[i]).key.timestamp.0 + 1
                == range.exclusive_end.0
        &&& forall|i: int|
            0 <= i < rows.len() ==> range.spec_contains((#[trigger] rows[i]).key.timestamp)
    } else {
        range == mem.time_range
    }
}

/// `add` and `rows` are the file that a flush writes for the memtable, under
/// the id given.
pub open spec fn is_flush_of(
    add: AddFile,
    rows: Seq<Entry>,
    mem: MemTable,
    id: int,
    need_dedup: bool,
    schema: Schema,
) -> bool {
    &&& add.level == 0
    &&& add.file.id == id
    &&& rows == flush_rows(mem, need_dedup)
    &&& rows.len() > 0
    &&& add.file.meta.min_key@ == encoded_key(rows.first().key)
    &&& add.file.meta.max_key@ == encoded_key(rows.last().key)
    &&& is_flush_range(add.file.meta.time_range, mem, rows)
    &&& add.file.meta.time_range.wf()
    &&& add.file.meta.max_sequence == mem.last_sequence
    &&& add.file.meta.schema@ == schema@
    &&& add.file.meta.row_num == rows.len()
    &&& add.file.meta.size == file_size(rows.len())
    &&& add.file.meta.index_map@.len() == 0
}

/// Bytes that a file accounts for that many rows, up to the greatest number
/// of bytes there is.
pub open spec fn file_size(rows: nat) -> u64 {
    if rows * ENTRY_SIZE > u64::MAX {
        u64::MAX
    } else {
        (rows * ENTRY_SIZE) as u64
    }
}

/// The earliest and the latest timestamp among the rows.
fn time_hull(rows: &Vec<Entry>) -> (hull: (Timestamp, Timestamp))
    requires
        rows@.len() > 0,
    ensures
        exists|i: int| 0 <= i < rows@.len() && (#[trigger] rows@[i]).key.timestamp == hull.0,
        exists|i: int| 0 <= i < rows@.len() && (#[trigger] rows@[i]).key.timestamp == hull.1,
        forall|i: int|
            0 <= i < rows@.len() ==> hull.0.0 <= (#[trigger] rows@[i]).key.timestamp.0 <= hull.1.0,
{
    let mut min = rows[0].key.timestamp;
    let mut max = rows[0].key.timestamp;
    let ghost mut at_min: int = 0;
    let ghost mut at_max: int = 0;
    let mut i: usize = 1;
    while i < rows.len()
        invariant
            1 <= i <= rows@.len(),
            0 <= at_min < i,
            0 <= at_max < i,
            rows@[at_min].key.timestamp == min,
            rows@[at_max].key.timestamp == max,
            forall|k: int| 0 <= k < i ==> min.0 <= (#[trigger] rows@[k]).key.timestamp.0 <= max.0,
        decreases rows@.len() - i,
    {
        let t = rows[i].key.timestamp;
        if t.0 < min.0 {
            min = t;
            proof {
                at_min = i as int;
            }
        }
        if t.0 > max.0 {
            max = t;
            proof {
                at_max = i as int;
            }
        }
        i += 1;
    }
    (min, max)
}

/// The rows that a flush writes for a memtable that holds rows.
fn rows_to_flush(mem: &MemTable, need_dedup: bool) -> (rows: Vec<Entry>)
    requires
        mem.wf(),
        mem.entries@.len() > 0,
    ensures
        rows@ == flush_rows(*mem, need_dedup),
        rows@.len() > 0,
        forall|i: int|
            0 <= i < rows@.len() ==> mem.time_range.spec_contains(
                (#[trigger] rows@[i]).key.timestamp,
            ),
{
    let rows = if need_dedup {
        let rows = dedup(&mem.entries);
        proof {
            crate::row_iter::dedup::lemma_dedup_is_not_empty(mem.entries@);
            crate::row_iter::dedup::lemma_drawn_from(mem.entries@);
        }
        rows
    } else {
        copy_entries(&mem.entries)
    };
    proof {
        assert forall|i: int| 0 <= i < rows@.len() implies mem.time_range.spec_contains(
            (#[trigger] rows@[i]).key.timestamp,
        ) by {
            assert(mem.entries@.contains(rows@[i]));
            let k = choose|k: int| 0 <= k < mem.entries@.len() && mem.entries@[k] == rows@[i];
            assert(mem.time_range.spec_contains(mem.entries@[k].key.timestamp));
        }
    }
    rows
}

/// The time range of the file that a flush writes for the memtable.
fn range_to_flush(mem: &MemTable, rows: &Vec<Entry>) -> (range: TimeRange)
    requires
        mem.time_range.wf(),
        rows@.len() > 0,
        forall|i: int|
            0 <= i < rows@.len() ==> mem.time_range.spec_contains(
                (#[trigger] rows@[i]).key.timestamp,
            ),
    ensures
        is_flush_range(range, *mem, rows@),
        range.wf(),
{
    if mem.sampling {
        let (min, max) = time_hull(rows);
        proof {
            let w = choose|i: int| 0 <= i < rows@.len()
                && (#[trigger] rows@[i]).key.timestamp == max;
            assert(mem.time_range.spec_contains(rows@[w].key.timestamp));
            let v = choose|i: int| 0 <= i < rows@.len()
                && (#[trigger] rows@[i]).key.timestamp == min;
            assert(min.0 <= rows@[w].key.timestamp.0);
        }
        let range = TimeRange { inclusive_start: min, exclusive_end: Timestamp(max.0 + 1) };
        proof {
            let w = choose|i: int| 0 <= i < rows@.len()
                && (#[trigger] rows@[i]).key.timestamp == max;
            assert(rows@[w].key.timestamp.0 + 1 == range.exclusive_end.0);
            let v = choose|i: int| 0 <= i < rows@.len()
                && (#[trigger] rows@[i]).key.timestamp == min;
            assert(rows@[v].key.timestamp == range.inclusive_start);
        }
        range
    } else {
        mem.time_range
    }
}

/// The file that a flush writes for a memtable that holds rows.
fn flush_file(mem: &MemTable, id: FileId, need_dedup: bool, schema: &Schema) -> (r: (
    AddFile,
    Vec<Entry>,
))
    requires
        mem.wf(),
        mem.entries@.len() > 0,
    ensures
        is_flush_of(r.0, r.1@, *mem, id as int, need_dedup, *schema),
{
    let rows = rows_to_flush(mem, need_dedup);
    let n = rows.len();
    let time_range = range_to_flush(mem, &rows);
    let size = match (n as u64).checked_mul(ENTRY_SIZE as u64) {
        Some(size) => size,
        None => u64::MAX,
    };
    let min_key = encode_key(&rows[0].key);
    let max_key = encode_key(&rows[n - 1].key);
    let meta = SstMetaData {
        min_key,
        max_key,
        time_range,
        max_sequence: mem.last_sequence,
        schema: schema.clone(),
        size,
        row_num: n as u64,
        index_map: Vec::new(),
    };
    (AddFile { level: 0, file: FileMeta { id, meta } }, rows)
}

/// Flushes the memtables of tables.
pub use crate::instance::Flusher;

/// The files of a flush of the memtables, under ids from `first_id` on, and
/// the ids of the memtables that the flush empties.
fn plan_files(
    version: &TableVersion,
    first_id: FileId,
    need_dedup: bool,
    schema: &Schema,
) -> (r: (Vec<MemTableId>, Vec<AddFile>, Vec<Vec<Entry>>))
    requires
        version.wf(),
        first_id + all_mems(*version).len() <= u64::MAX,
    ensures
        r.0@ == mem_ids(frozen_mems(*version)),
        r.1@.len() == dirty_mems(*version).len(),
        r.2@.len() == dirty_mems(*version).len(),
        forall|k: int|
            0 <= k < dirty_mems(*version).len() ==> is_flush_of(
                #[trigger] r.1@[k],
                r.2@[k]@,
                dirty_mems(*version)[k],
                first_id + k,
                need_dedup,
                *schema,
            ),
{
    let mut mems: Vec<&MemTable> = Vec::new();
    match &version.sampling_mem {
        Some(mem) => {
            mems.push(mem);
        },
        None => {},
    }
    let ghost head = crate::table::version::pointees(mems@);
    proof {
        assert(head =~= (match version.sampling_mem {
            Some(mem) => seq![mem],
            None => Seq::empty(),
        }));
    }
    let mut i: usize = 0;
    while i < version.memtables.len()
        invariant
            i <= version.memtables@.len(),
            crate::table::version::pointees(mems@) == head + version.memtables@.take(i as int),
        decreases version.memtables@.len() - i,
    {
        let ghost before = mems@;
        mems.push(&version.memtables[i]);
        proof {
            assert(crate::table::version::pointees(mems@) =~= crate::table::version::pointees(
                before,
            ).push(version.memtables@[i as int]));
            assert(version.memtables@.take(i + 1) =~= version.memtables@.take(i as int).push(
                version.memtables@[i as int],
            ));
        }
        i += 1;
    }
    let ghost all = all_mems(*version);
    proof {
        assert(version.memtables@.take(version.memtables@.len() as int) =~= version.memtables@);
        assert(crate::table::version::pointees(mems@) == all);
        assert forall|k: int| 0 <= k < all.len() implies (#[trigger] all[k]).wf() by {
            if version.sampling_mem.is_some() {
                if k > 0 {
                    assert(all[k] == version.memtables@[k - 1]);
                }
            } else {
                assert(all[k] == version.memtables@[k]);
            }
        }
    }
    let mut ids: Vec<MemTableId> = Vec::new();
    let mut adds: Vec<AddFile> = Vec::new();
    let mut rows: Vec<Vec<Entry>> = Vec::new();
    let n = mems.len();
    let mut i: usize = 0;
    while i < n
        invariant
            n == all.len(),
            all == crate::table::version::pointees(mems@),
            forall|k: int| 0 <= k < all.len() ==> (#[trigger] all[k]).wf(),
            first_id + all.len() <= u64::MAX,
            i <= n,
            ids@ == mem_ids(all.take(i as int).filter(is_frozen())),
            adds@.len() == all.take(i as int).filter(is_dirty()).len(),
            rows@.len() == adds@.len(),
            adds@.len() <= i,
            forall|k: int|
                0 <= k < adds@.len() ==> is_flush_of(
                    #[trigger] adds@[k],
                    rows@[k]@,
                    all.take(i as int).filter(is_dirty())[k],
                    first_id + k,
                    need_dedup,
                    *schema,
                ),
        decreases n - i,
    {
        let mem: &MemTable = mems[i];
        let ghost seen = all.take(i as int);
        let ghost next = all.take(i + 1);
        let ghost old_adds = adds@;
        let ghost old_rows = rows@;
        proof {
            assert(*mem == all[i as int]);
            assert(next =~= seen.push(all[i as int]));
            seen.lemma_filter_push(all[i as int], is_frozen());
            seen.lemma_filter_push(all[i as int], is_dirty());
        }
        if mem.frozen {
            let ghost before = ids@;
            ids.push(mem.id);
            proof {
                assert(ids@ =~= mem_ids(next.filter(is_frozen())));
            }
            if mem.entries.len() > 0 {
                let id = first_id + adds.len() as u64;
                let (add, file_rows) = flush_file(mem, id, need_dedup, schema);
                adds.push(add);
                rows.push(file_rows);
                proof {
                    let dirty = next.filter(is_dirty());
                    assert(dirty == seen.filter(is_dirty()).push(all[i as int]));
                    assert forall|k: int| 0 <= k < adds@.len() implies is_flush_of(
                        #[trigger] adds@[k],
                        rows@[k]@,
                        dirty[k],
                        first_id + k,
                        need_dedup,
                        *schema,
                    ) by {
                        if k < old_adds.len() {
                            assert(adds@[k] == old_adds[k]);
                            assert(rows@[k] == old_rows[k]);
                            assert(dirty[k] == seen.filter(is_dirty())[k]);
                        }
                    }
                }
            }
        }
        i += 1;
    }
    proof {
        assert(all.take(n as int) =~= all);
    }
    (ids, adds, rows)
}

/// The shortest segment duration that a table is given: two hours, in
/// milliseconds.
pub const SEGMENT_TWO_HOURS_MS: i64 = 7_200_000;

/// A segment duration of one day, in milliseconds.
pub const SEGMENT_ONE_DAY_MS: i64 = 86_400_000;

/// A segment duration of one week, in milliseconds.
pub const SEGMENT_ONE_WEEK_MS: i64 = 604_800_000;

/// The longest segment duration that a table is given: thirty days, in
/// milliseconds.
pub const SEGMENT_THIRTY_DAYS_MS: i64 = 2_592_000_000;

/// The segment duration for rows whose times lie `span` milliseconds apart:
/// the shortest of two hours, a day, a week and thirty days that is longer
/// than the span, so that the rows sampled would have shared a segment; and
/// thirty days for a span that none of them is longer than.
pub open spec fn duration_for(span: int) -> i64 {
    if span < SEGMENT_TWO_HOURS_MS {
        SEGMENT_TWO_HOURS_MS
    } else if span < SEGMENT_ONE_DAY_MS {
        SEGMENT_ONE_DAY_MS
    } else if span < SEGMENT_ONE_WEEK_MS {
        SEGMENT_ONE_WEEK_MS
    } else {
        SEGMENT_THIRTY_DAYS_MS
    }
}

/// `span` is the time between the earliest and the latest of the rows.
pub open spec fn is_span_of(rows: Seq<Entry>, span: int) -> bool {
    exists|i: int, j: int|
        {
            &&& 0 <= i < rows.len()
            &&& 0 <= j < rows.len()
            &&& span == (#[trigger] rows[j]).key.timestamp.0 - (#[trigger] rows[i]).key.timestamp.0
            &&& forall|k: int|
                0 <= k < rows.len() ==> rows[i].key.timestamp.0 <= (
                #[trigger] rows[k]).key.timestamp.0 <= rows[j].key.timestamp.0
        }
}

/// From `before` to `after` every memtable has been frozen, and nothing else
/// has changed.
pub open spec fn all_frozen(before: TableVersion, after: TableVersion) -> bool {
    &&& after.levels == before.levels
    &&& after.flushed_sequence == before.flushed_sequence
    &&& after.memtables@.len() == before.memtables@.len()
    &&& forall|i: int|
        0 <= i < before.memtables@.len() ==> #[trigger] after.memtables@[i] == frozen_copy(
            before.memtables@[i],
        )
    &&& after.sampling_mem == match before.sampling_mem {
        Some(mem) => Some(frozen_copy(mem)),
        None => None,
    }
}

/// Some memtable of the version holds a row.
pub open spec fn has_rows(version: TableVersion) -> bool {
    ||| version.sampling_mem matches Some(mem) && mem.entries@.len() > 0
    ||| exists|i: int|
        0 <= i < version.memtables@.len() && (#[trigger] version.memtables@[i]).entries@.len() > 0
}

/// Whether some memtable of the version holds a row.
fn holds_rows(version: &TableVersion) -> (b: bool)
    ensures
        b == has_rows(*version),
{
    match &version.sampling_mem {
        Some(mem) => {
            if mem.entries.len() > 0 {
                return true;
            }
        },
        None => {},
    }
    let mut i: usize = 0;
    while i < version.memtables.len()
        invariant
            i <= version.memtables@.len(),
            forall|k: int| 0 <= k < i ==> (#[trigger] version.memtables@[k]).entries@.len() == 0,
        decreases version.memtables@.len() - i,
    {
        if version.memtables[i].entries.len() > 0 {
            return true;
        }
        i += 1;
    }
    false
}

impl Flusher {
    /// Freezes the memtables of the table for a flush: they take no more rows
    /// and hold the writes up to the sequence number of the last write. A
    /// table whose memtables hold no row has nothing to flush and is left as
    /// it is, and so are a table that has been dropped and one whose flush is
    /// under way.
    pub fn freeze_memtables(table: &mut TableData) -> (outcome: FreezeOutcome)
        requires
            old(table).wf(),
        ensures
            final(table).wf(),
            outcome == if old(table).flush_in_flight {
                FreezeOutcome::FlushInFlight
            } else if old(table).dropped || !has_rows(old(table).version) {
                FreezeOutcome::NothingToFlush
            } else {
                FreezeOutcome::Frozen(old(table).last_sequence)
            },
            !(outcome is Frozen) ==> *final(table) == *old(table),
            outcome is Frozen ==> all_frozen(old(table).version, final(table).version)
                && *final(table)
                == (TableData { version: final(table).version, flush_in_flight: true,
                ..*old(table) }),
    {
        if table.flush_in_flight {
            return FreezeOutcome::FlushInFlight;
        }
        if table.dropped || !holds_rows(&table.version) {
            return FreezeOutcome::NothingToFlush;
        }
        let ghost start = *table;
        match &mut table.version.sampling_mem {
            Some(mem) => {
                mem.frozen = true;
            },
            None => {},
        }
        let n = table.version.memtables.len();
        let mut i: usize = 0;
        while i < n
            invariant
                start.wf(),
                n == start.version.memtables@.len(),
                table.version.memtables@.len() == n,
                i <= n,
                forall|k: int|
                    0 <= k < i ==> #[trigger] table.version.memtables@[k] == frozen_copy(
                        start.version.memtables@[k],
                    ),
                forall|k: int|
                    i <= k < n ==> #[trigger] table.version.memtables@[k]
                        == start.version.memtables@[k],
                table.version.sampling_mem == match start.version.sampling_mem {
                    Some(mem) => Some(frozen_copy(mem)),
                    None => None,
                },
                *table == (TableData { version: table.version, ..start }),
                table.version == (TableVersion {
                    memtables: table.version.memtables,
                    sampling_mem: table.version.sampling_mem,
                    ..start.version
                }),
            decreases n - i,
        {
            let ghost before = table.version.memtables@;
            table.version.memtables[i].frozen = true;
            proof {
                assert forall|k: int| 0 <= k < n && k != i
                    implies #[trigger] table.version.memtables@[k]
                    == before[k] by {}
            }
            i += 1;
        }
        table.flush_in_flight = true;
        proof {
            let mems = table.version.memtables@;
            assert forall|k: int| 0 <= k < mems.len() implies (#[trigger] mems[k]).wf()
                && !mems[k].sampling && mems[k].id <= table.last_memtable_id
                    && mems[k].last_sequence
                <= table.last_sequence by {
                assert(start.version.memtables@[k].wf());
            }
            assert forall|a: int, b: int| 0 <= a < b < mems.len() implies (#[trigger] mems[a]).id
                != (#[trigger] mems[b]).id by {
                assert(start.version.memtables@[a].id != start.version.memtables@[b].id);
            }
        }
        FreezeOutcome::Frozen(table.last_sequence)
    }

    /// The segment duration that the rows sampled so far suggest for the
    /// table: that for the time between the earliest and the latest row of
    /// the sampling memtable. None for a table that is not sampling, or has
    /// sampled no row.
    pub fn suggest_segment_duration(table: &TableData) -> (suggested: Option<i64>)
        ensures
            match table.version.sampling_mem {
                Some(mem) => if mem.entries@.len() == 0 {
                    suggested.is_none()
                } else {
                    suggested matches Some(d) && exists|span: int|
                        is_span_of(mem.entries@, span) && d == #[trigger] duration_for(span)
                },
                None => suggested.is_none(),
            },
            suggested matches Some(d) ==> d > 0,
    {
        let mem = match &table.version.sampling_mem {
            Some(mem) => mem,
            None => {
                return None;
            },
        };
        if mem.entries.len() == 0 {
            return None;
        }
        let (earliest, latest) = time_hull(&mem.entries);
        let ghost span = latest.0 - earliest.0;
        proof {
            let rows = mem.entries@;
            let i = choose|i: int| 0 <= i < rows.len() && (#[trigger] rows[i]).key.timestamp
                == earliest;
            let j = choose|j: int| 0 <= j < rows.len() && (#[trigger] rows[j]).key.timestamp
                == latest;
            assert(span == rows[j].key.timestamp.0 - rows[i].key.timestamp.0);
            assert(is_span_of(rows, span));
        }
        let duration: i64 = match latest.0.checked_sub(earliest.0) {
            Some(apart) => {
                if apart < SEGMENT_TWO_HOURS_MS {
                    SEGMENT_TWO_HOURS_MS
                } else if apart < SEGMENT_ONE_DAY_MS {
                    SEGMENT_ONE_DAY_MS
                } else if apart < SEGMENT_ONE_WEEK_MS {
                    SEGMENT_ONE_WEEK_MS
                } else {
                    SEGMENT_THIRTY_DAYS_MS
                }
            },
            None => SEGMENT_THIRTY_DAYS_MS,
        };
        proof {
            assert(duration == duration_for(span));
        }
        Some(duration)
    }

    /// Plans the flush of the frozen memtables of the table: a file on level
    /// 0 for each that holds rows, under the next file ids of the table, and
    /// the edit that takes the memtables out of the version and the files in.
    /// The table gives out the file ids and is left as it is otherwise.
    pub fn plan_flush(table: &mut TableData, flush_sequence: SequenceNumber) -> (r: Result<
        FlushPlan,
        Error,
    >)
        requires
            old(table).wf(),
        ensures
            final(table).wf(),
            match r {
                Err(e) => e == Error::FileIdsExhausted && old(table).last_file_id + 1 + all_mems(
                    old(table).version,
                ).len() > u64::MAX && *final(table) == *old(table),
                Ok(plan) => {
                    let dirty = dirty_mems(old(table).version);
                    &&& old(table).last_file_id + 1 + all_mems(old(table).version).len() <= u64::MAX
                    &&& plan.flush_sequence == flush_sequence
                    &&& plan.mems_to_remove@ == mem_ids(frozen_mems(old(table).version))
                    &&& plan.files_to_add@.len() == dirty.len()
                    &&& plan.rows@.len() == dirty.len()
                    &&& forall|k: int|
                        0 <= k < dirty.len() ==> is_flush_of(
                            #[trigger] plan.files_to_add@[k],
                            plan.rows@[k]@,
                            dirty[k],
                            old(table).last_file_id + 1 + k,
                            old(table).opts.spec_need_dedup(),
                            old(table).schema,
                        )
                    &&& *final(table) == (TableData {
                        last_file_id: (old(table).last_file_id + dirty.len()) as u64,
                        ..*old(table)
                    })
                },
            },
    {
        let total = match &table.version.sampling_mem {
            Some(_) => 1 + table.version.memtables.len() as u64,
            None => table.version.memtables.len() as u64,
        };
        if table.last_file_id == u64::MAX || total > u64::MAX - table.last_file_id - 1 {
            return Err(Error::FileIdsExhausted);
        }
        let first_id = table.last_file_id + 1;
        let need_dedup = table.opts.need_dedup();
        let (mems_to_remove, files_to_add, rows) = plan_files(
            &table.version,
            first_id,
            need_dedup,
            &table.schema,
        );
        proof {
            all_mems(table.version).lemma_filter_len(is_dirty());
        }
        table.last_file_id = table.last_file_id + files_to_add.len() as u64;
        Ok(FlushPlan { flush_sequence, mems_to_remove, files_to_add, rows })
    }

    /// Ends a flush whose files are written and whose edit the manifest has
    /// recorded: the flushed memtables leave the version, the files enter
    /// level 0, and the flushed sequence number moves on, never back. The
    /// entries of the log up to the sequence number of the flush can be
    /// deleted; that number is not above the flushed sequence number. A flush
    /// that has written no file leaves the flushed sequence number where it
    /// is, and nothing more of the log can be deleted. A table that has
    /// flushed its sampling memtable takes the segment duration suggested. A
    /// plan that does not fit the table leaves it as it is.
    pub fn finish_flush(
        table: &mut TableData,
        plan: FlushPlan,
        suggested_segment_duration: Option<i64>,
        now_ms: u64,
    ) -> (r: Result<FlushDone, Error>)
        requires
            old(table).wf(),
        ensures
            final(table).wf(),
            match r {
                Err(e) => e == Error::StalePlan && !adds_fit(
                    *old(table),
                    plan.files_to_add@,
                    plan.flush_sequence,
                ) && *final(table) == *old(table),
                Ok(done) => {
                    &&& adds_fit(*old(table), plan.files_to_add@, plan.flush_sequence)
                    &&& done.mark_delete_up_to == if plan.files_to_add@.len() == 0 {
                        old(table).version.flushed_sequence
                    } else {
                        plan.flush_sequence
                    }
                    &&& done.mark_delete_up_to <= final(table).version.flushed_sequence
                    &&& old(table).version.flushed_sequence <= final(table).version.flushed_sequence
                    &&& final(table).version.flushed_sequence == if plan.files_to_add@.len() > 0
                        && plan.flush_sequence > old(table).version.flushed_sequence {
                        plan.flush_sequence
                    } else {
                        old(table).version.flushed_sequence
                    }
                    &&& final(table).version.memtables@ == old(table).version.memtables@.filter(
                        mem_id_not_in(plan.mems_to_remove@),
                    )
                    &&& final(table).version.sampling_mem == match old(table).version.sampling_mem {
                        Some(mem) => if plan.mems_to_remove@.contains(mem.id) {
                            None
                        } else {
                            Some(mem)
                        },
                        None => None,
                    }
                    &&& forall|l: int, f: FileHandle|
                        0 <= l < MAX_LEVEL ==> (
                        #[trigger] final(table).version.levels@[l].files@.contains(f)
                            <==> (old(table).version.levels@[l].files@.contains(f)
                            || crate::table::version::added_on(plan.files_to_add@, 0, l, f)))
                    &&& !final(table).flush_in_flight
                    &&& final(table).last_flush_time_ms == now_ms
                    &&& final(table).opts == (crate::table_options::TableOptions {
                        segment_duration: final(table).opts.segment_duration,
                        ..old(table).opts
                    })
                    &&& final(table).opts.segment_duration
                        == if old(table).opts.segment_duration.is_none()
                        && final(table).version.sampling_mem.is_none()
                        && suggested_segment_duration.is_some()
                        && suggested_segment_duration.unwrap() > 0 {
                        suggested_segment_duration
                    } else {
                        old(table).opts.segment_duration
                    }
                    &&& *final(table) == (TableData {
                        version: final(table).version,
                        opts: final(table).opts,
                        flush_in_flight: false,
                        last_flush_time_ms: now_ms,
                        ..*old(table)
                    })
                },
            },
    {
        let FlushPlan { flush_sequence, mems_to_remove, files_to_add, rows } = plan;
        if flush_sequence > table.last_sequence {
            return Err(Error::StalePlan);
        }
        // A flush that has written no file has flushed no row.
        let flushed_sequence = if files_to_add.len() == 0 {
            table.version.flushed_sequence
        } else {
            flush_sequence
        };
        let edit = VersionEdit {
            flushed_sequence,
            mems_to_remove,
            files_to_add,
            files_to_delete: Vec::new(),
        };
        match table.apply_version_edit(edit) {
            Some(_) => {},
            None => {
                return Err(Error::StalePlan);
            },
        }
        table.flush_in_flight = false;
        table.last_flush_time_ms = now_ms;
        if table.opts.segment_duration.is_none() && table.version.sampling_mem.is_none() {
            match suggested_segment_duration {
                Some(d) => {
                    if d > 0 {
                        table.opts.segment_duration = Some(d);
                    }
                },
                None => {},
            }
        }
        Ok(FlushDone { mark_delete_up_to: flushed_sequence })
    }

    /// What to do about a flush that has failed `attempt` times: it is tried
    /// again, after a wait that doubles with every try, until it has been
    /// tried again as often as the limit says.
    pub fn on_flush_failure(attempt: usize, max_retry_flush_limit: usize) -> (decision:
        RetryDecision)
        ensures
            decision == if attempt < max_retry_flush_limit {
                RetryDecision::Retry { backoff_ms: backoff_of(attempt as nat) as u64 }
            } else {
                RetryDecision::GiveUp
            },
    {
        if attempt >= max_retry_flush_limit {
            return RetryDecision::GiveUp;
        }
        let mut backoff_ms: u64 = FLUSH_BACKOFF_BASE_MS;
        let mut i: usize = 0;
        while i < attempt
            invariant
                i <= attempt,
                backoff_ms == backoff_of(i as nat),
            decreases attempt - i,
        {
            backoff_ms = match backoff_ms.checked_mul(2) {
                Some(v) => v,
                None => u64::MAX,
            };
            i += 1;
        }
        RetryDecision::Retry { backoff_ms }
    }

    /// Gives a flush up that has failed for good: the memtables stay frozen
    /// for the next flush, which may start now.
    pub fn abort_flush(table: &mut TableData, attempts: usize) -> (error: Error)
        ensures
            *final(table) == (TableData { flush_in_flight: false, ..*old(table) }),
            error == (Error::FlushFailed { attempts }),
    {
        table.flush_in_flight = false;
        Error::FlushFailed { attempts }
    }
}

/// What is to be done outside the engine to compact a table: the file, if
/// there is one, is written with its rows, then the edit is recorded in the
/// manifest.
#[derive(Debug)]
pub struct CompactionPlan {
    /// The edit: the inputs and the expired files leave their levels, the
    /// merged file enters level 1.
    pub edit: VersionEdit,
    /// The rows of the merged file.
    pub rows: Vec<Entry>,
}

/// The rows of each input, as sequences.
pub open spec fn input_sources(inputs: Seq<FileHandle>, store: Seq<SstData>) -> Seq<Seq<Entry>> {
    file_sources(inputs, store)
}

/// The store holds the rows of every input.
pub open spec fn store_has_inputs(store: Seq<SstData>, inputs: Seq<FileHandle>) -> bool {
    forall|i: int| 0 <= i < inputs.len()
        ==> sst_rows(store, (#[trigger] inputs[i]).spec_id()).is_some()
}

/// `rows` is what a compaction makes of the sources. Where the table drops
/// overwritten rows: rows of the sources only, and, the sources being sorted,
/// of each key the row of the latest write, in ascending order of the keys.
/// Else every row of every source, and sorted where the sources are.
pub open spec fn is_compacted(rows: Seq<Entry>, sources: Seq<Seq<Entry>>, need_dedup: bool)
    -> bool {
    if need_dedup {
        is_merged_read(rows, sources, false)
    } else {
        &&& rows.to_multiset() == sources.flatten().to_multiset()
        &&& (forall|s: int| 0 <= s < sources.len() ==> sorted_entries(#[trigger] sources[s]))
            ==> sorted_entries(rows)
    }
}

/// `add` is the file that a compaction of the inputs writes on level 1, with
/// that many rows, under the id given: it spans the keys and the time ranges
/// of the inputs and carries their greatest sequence number.
pub open spec fn is_merged_file(
    add: AddFile,
    inputs: Seq<FileHandle>,
    rows: nat,
    id: int,
    schema: Schema,
) -> bool {
    &&& add.level == 1
    &&& add.file.id == id
    &&& is_min_key(inputs, add.file.meta.min_key@)
    &&& is_max_key(inputs, add.file.meta.max_key@)
    &&& is_min_start(inputs, add.file.meta.time_range.inclusive_start)
    &&& is_max_end(inputs, add.file.meta.time_range.exclusive_end)
    &&& is_max_sequence(inputs, add.file.meta.max_sequence)
    &&& add.file.meta.schema@ == schema@
    &&& add.file.meta.row_num == rows
    &&& add.file.meta.size == file_size(rows)
    &&& add.file.meta.index_map@.len() == 0
}

/// The compaction can go ahead: it has nothing to merge, or the rows of
/// every input are at hand, some input has a time range, and a file id is
/// left.
pub open spec fn can_compact(table: TableData, task: CompactionTask, store: Seq<SstData>) -> bool {
    task.inputs@.len() > 0 ==> store_has_inputs(store, task.inputs@) && some_range_wf(
        task.inputs@,
    ) && table.last_file_id < u64::MAX
}

/// The rows of the inputs, copied out of the store.
fn collect_inputs(inputs: &Vec<FileHandle>, store: &Vec<SstData>) -> (sources: Option<
    Vec<Vec<Entry>>,
>)
    ensures
        match sources {
            Some(sources) => store_has_inputs(store@, inputs@) && views(sources@) == file_sources(
                inputs@,
                store@,
            ),
            None => !store_has_inputs(store@, inputs@),
        },
{
    let mut sources: Vec<Vec<Entry>> = Vec::new();
    let mut i: usize = 0;
    while i < inputs.len()
        invariant
            i <= inputs@.len(),
            forall|k: int| 0 <= k < i
                ==> sst_rows(store@, (#[trigger] inputs@[k]).spec_id()).is_some(),
            views(sources@) == file_sources(inputs@.take(i as int), store@),
        decreases inputs@.len() - i,
    {
        let ghost before = sources@;
        match find_sst(store, inputs[i].id()) {
            Some(at) => {
                sources.push(copy_entries(&store[at].rows));
            },
            None => {
                return None;
            },
        }
        proof {
            let rows = sst_rows(store@, inputs@[i as int].spec_id()).unwrap();
            assert(views(sources@) =~= views(before).push(rows));
            assert(file_sources(inputs@.take(i + 1), store@) =~= file_sources(
                inputs@.take(i as int),
                store@,
            ).push(rows));
        }
        i += 1;
    }
    proof {
        assert(inputs@.take(inputs@.len() as int) =~= inputs@);
    }
    Some(sources)
}

/// Whether some file's time range does not end before it starts.
fn has_time_range(files: &Vec<FileHandle>) -> (b: bool)
    ensures
        b == some_range_wf(files@),
{
    let mut i: usize = 0;
    while i < files.len()
        invariant
            i <= files@.len(),
            forall|k: int| 0 <= k < i ==> !(#[trigger] files@[k]).spec_time_range().wf(),
        decreases files@.len() - i,
    {
        let range = files[i].time_range();
        if range.inclusive_start.0 <= range.exclusive_end.0 {
            return true;
        }
        i += 1;
    }
    false
}

/// The ids of the files.
fn ids_of(files: &Vec<FileHandle>) -> (ids: Vec<FileId>)
    ensures
        ids@ == files@.map_values(|f: FileHandle| f.spec_id()),
{
    let mut ids: Vec<FileId> = Vec::new();
    let mut i: usize = 0;
    while i < files.len()
        invariant
            i <= files@.len(),
            ids@ == files@.take(i as int).map_values(|f: FileHandle| f.spec_id()),
        decreases files@.len() - i,
    {
        ids.push(files[i].id());
        proof {
            assert(ids@ =~= files@.take(i + 1).map_values(|f: FileHandle| f.spec_id()));
        }
        i += 1;
    }
    proof {
        assert(files@.take(files@.len() as int) =~= files@);
    }
    ids
}

/// Compacts the files of tables.
#[derive(Clone, Copy, Debug, PartialEq, Eq, Structural)]
pub struct Compactor;

impl Compactor {
    /// Starts a compaction: its inputs are marked as being compacted, so that
    /// no other compaction picks them.
    pub fn start_compaction(table: &mut TableData, task: &CompactionTask)
        requires
            old(table).wf(),
        ensures
            final(table).wf(),
            *final(table) == (TableData { version: final(table).version, ..*old(table) }),
            final(table).version.memtables == old(table).version.memtables,
            final(table).version.sampling_mem == old(table).version.sampling_mem,
            final(table).version.flushed_sequence == old(table).version.flushed_sequence,
            final(table).version.levels@[1] == old(table).version.levels@[1],
            final(table).version.levels@[0].files@.len()
                == old(table).version.levels@[0].files@.len(),
            forall|i: int|
                0 <= i < old(table).version.levels@[0].files@.len() ==> (
                #[trigger] final(table).version.levels@[0].files@[i]).meta
                    == old(table).version.levels@[0].files@[i].meta
                    && final(table).version.levels@[0].files@[i].being_compacted
                    == (old(table).version.levels@[0].files@[i].being_compacted
                    || task.inputs@.map_values(
                    |f: FileHandle| f.spec_id(),
                ).contains(old(table).version.levels@[0].files@[i].spec_id())),
    {
        let ids = ids_of(&task.inputs);
        Self::mark(table, &ids, true);
    }

    /// Gives a compaction up: its inputs stay in place and may be picked
    /// again.
    pub fn abort_compaction(table: &mut TableData, task: &CompactionTask) -> (error: Error)
        requires
            old(table).wf(),
        ensures
            final(table).wf(),
            error == Error::CompactionFailed,
            *final(table) == (TableData { version: final(table).version, ..*old(table) }),
            final(table).version.memtables == old(table).version.memtables,
            final(table).version.sampling_mem == old(table).version.sampling_mem,
            final(table).version.flushed_sequence == old(table).version.flushed_sequence,
            final(table).version.levels@[1] == old(table).version.levels@[1],
            final(table).version.levels@[0].files@.len()
                == old(table).version.levels@[0].files@.len(),
            forall|i: int|
                0 <= i < old(table).version.levels@[0].files@.len() ==> (
                #[trigger] final(table).version.levels@[0].files@[i]).meta
                    == old(table).version.levels@[0].files@[i].meta
                    && final(table).version.levels@[0].files@[i].being_compacted
                    == (old(table).version.levels@[0].files@[i].being_compacted
                    && !task.inputs@.map_values(
                    |f: FileHandle| f.spec_id(),
                ).contains(old(table).version.levels@[0].files@[i].spec_id())),
    {
        let ids = ids_of(&task.inputs);
        Self::mark(table, &ids, false);
        Error::CompactionFailed
    }

    fn mark(table: &mut TableData, ids: &Vec<FileId>, value: bool)
        requires
            old(table).wf(),
        ensures
            final(table).wf(),
            *final(table) == (TableData { version: final(table).version, ..*old(table) }),
            final(table).version.memtables == old(table).version.memtables,
            final(table).version.sampling_mem == old(table).version.sampling_mem,
            final(table).version.flushed_sequence == old(table).version.flushed_sequence,
            final(table).version.levels@[1] == old(table).version.levels@[1],
            final(table).version.levels@[0].files@.len()
                == old(table).version.levels@[0].files@.len(),
            forall|i: int|
                0 <= i < old(table).version.levels@[0].files@.len() ==> (
                #[trigger] final(table).version.levels@[0].files@[i]).meta
                    == old(table).version.levels@[0].files@[i].meta
                    && final(table).version.levels@[0].files@[i].being_compacted
                    == if ids@.contains(
                    old(table).version.levels@[0].files@[i].spec_id(),
                ) {
                    value
                } else {
                    old(table).version.levels@[0].files@[i].being_compacted
                },
    {
        let ghost start = *table;
        table.version.set_being_compacted(0, ids.as_slice(), value);
        proof {
            assert forall|l: int, i: int|
                0 <= l < table.version.levels@.len() && 0 <= i
                    < table.version.levels@[l].files@.len() implies (
            #[trigger] table.version.levels@[l].files@[i]).spec_id() <= table.last_file_id
                && table.version.levels@[l].files@[i].meta.meta.max_sequence
                <= table.last_sequence by {
                if l == 0 {
                    assert(table.version.levels@[0].files@[i].meta
                        == start.version.levels@[0].files@[i].meta);
                    assert(start.version.levels@[0].files@[i].spec_id() <= start.last_file_id);
                } else {
                    assert(table.version.levels@[l] == start.version.levels@[l]);
                    assert(start.version.levels@[l].files@[i].spec_id() <= start.last_file_id);
                }
            }
        }
    }

    /// Plans a compaction: the rows of the inputs are merged, without the
    /// rows that a later write has overwritten where the table drops them,
    /// into one file of level 1 that spans the inputs; the inputs and the
    /// expired files leave their levels. The table gives out the file id and
    /// is left as it is otherwise.
    pub fn plan_compaction(
        table: &mut TableData,
        task: &CompactionTask,
        store: &Vec<SstData>,
    ) -> (r: Result<CompactionPlan, Error>)
        requires
            old(table).wf(),
        ensures
            final(table).wf(),
            match r {
                Err(e) => e == Error::CompactionFailed && !can_compact(*old(table), *task, store@)
                    && *final(table) == *old(table),
                Ok(plan) => {
                    &&& can_compact(*old(table), *task, store@)
                    &&& plan.edit.flushed_sequence == 0
                    &&& plan.edit.mems_to_remove@.len() == 0
                    &&& plan.edit.files_to_delete@ == task.expired@ + deletes_of(task.inputs@, 0)
                    &&& is_compacted(
                        plan.rows@,
                        input_sources(task.inputs@, store@),
                        old(table).opts.spec_need_dedup(),
                    )
                    &&& if task.inputs@.len() > 0 && plan.rows@.len() > 0 {
                        &&& plan.edit.files_to_add@.len() == 1
                        &&& is_merged_file(
                            plan.edit.files_to_add@[0],
                            task.inputs@,
                            plan.rows@.len(),
                            old(table).last_file_id + 1,
                            old(table).schema,
                        )
                    } else {
                        plan.edit.files_to_add@.len() == 0
                    }
                    &&& *final(table) == (TableData {
                        last_file_id: (old(table).last_file_id + plan.edit.files_to_add@.len()) as u64,
                        ..*old(table)
                    })
                },
            },
    {
        let mut files_to_delete: Vec<DeleteFile> = Vec::new();
        let mut i: usize = 0;
        while i < task.expired.len()
            invariant
                i <= task.expired@.len(),
                files_to_delete@ == task.expired@.take(i as int),
            decreases task.expired@.len() - i,
        {
            files_to_delete.push(task.expired[i]);
            proof {
                assert(files_to_delete@ =~= task.expired@.take(i + 1));
            }
            i += 1;
        }
        proof {
            assert(task.expired@.take(task.expired@.len() as int) =~= task.expired@);
        }
        let ghost head = files_to_delete@;
        let mut i: usize = 0;
        while i < task.inputs.len()
            invariant
                i <= task.inputs@.len(),
                files_to_delete@ == head + deletes_of(task.inputs@.take(i as int), 0),
            decreases task.inputs@.len() - i,
        {
            files_to_delete.push(DeleteFile { level: 0, file_id: task.inputs[i].id() });
            proof {
                assert(files_to_delete@ =~= head + deletes_of(task.inputs@.take(i + 1), 0));
            }
            i += 1;
        }
        proof {
            assert(task.inputs@.take(task.inputs@.len() as int) =~= task.inputs@);
        }
        if task.inputs.len() == 0 {
            proof {
                let sources = input_sources(task.inputs@, store@);
                assert(sources =~= Seq::<Seq<Entry>>::empty());
                assert(sources.flatten() =~= Seq::<Entry>::empty());
            }
            return Ok(
                CompactionPlan {
                    edit: VersionEdit {
                        flushed_sequence: 0,
                        mems_to_remove: Vec::new(),
                        files_to_add: Vec::new(),
                        files_to_delete,
                    },
                    rows: Vec::new(),
                },
            );
        }
        let sources = match collect_inputs(&task.inputs, store) {
            Some(sources) => sources,
            None => {
                return Err(Error::CompactionFailed);
            },
        };
        if !has_time_range(&task.inputs) || table.last_file_id == u64::MAX {
            return Err(Error::CompactionFailed);
        }
        let need_dedup = table.opts.need_dedup();
        let merged = crate::row_iter::merge::merge(&sources);
        let ghost all = input_sources(task.inputs@, store@);
        proof {
            assert(all_entries(sources@) == all.flatten());
            if forall|s: int| 0 <= s < all.len() ==> sorted_entries(#[trigger] all[s]) {
                assert forall|s: int| 0 <= s < sources@.len() implies sorted_entries(
                    #[trigger] sources@[s]@,
                ) by {
                    assert(views(sources@)[s] == sources@[s]@);
                }
            }
        }
        let rows = if need_dedup {
            let rows = dedup(&merged);
            proof {
                crate::row_iter::dedup::lemma_drawn_from(merged@);
                crate::instance::read::lemma_keeps_latest_of_same_rows(merged@, all.flatten(),
                    rows@);
                if forall|s: int| 0 <= s < all.len() ==> sorted_entries(#[trigger] all[s]) {
                    crate::row_iter::dedup::lemma_dedup_keeps_latest(merged@);
                }
            }
            rows
        } else {
            merged
        };
        let mut files_to_add: Vec<AddFile> = Vec::new();
        let n = rows.len();
        if n > 0 {
            let id = table.last_file_id + 1;
            let mut meta = merge_sst_meta(task.inputs.as_slice(), table.schema.clone());
            meta.row_num = n as u64;
            meta.size = match (n as u64).checked_mul(ENTRY_SIZE as u64) {
                Some(size) => size,
                None => u64::MAX,
            };
            files_to_add.push(AddFile { level: 1, file: FileMeta { id, meta } });
            table.last_file_id = id;
        }
        Ok(
            CompactionPlan {
                edit: VersionEdit {
                    flushed_sequence: 0,
                    mems_to_remove: Vec::new(),
                    files_to_add,
                    files_to_delete,
                },
                rows,
            },
        )
    }

    /// Ends a compaction whose file is written and whose edit the manifest
    /// has recorded: the inputs and the expired files leave the version, the
    /// merged file enters level 1. Returns the requests to purge the files
    /// that the version holds no more. An edit that does not fit the table
    /// leaves it as it is.
    pub fn finish_compaction(table: &mut TableData, edit: VersionEdit) -> (r: Result<
        Vec<Request>,
        Error,
    >)
        requires
            old(table).wf(),
        ensures
            final(table).wf(),
            r is Err <==> !crate::table::data::edit_fits(*old(table), edit),
            r matches Err(e) ==> e == Error::StalePlan && *final(table) == *old(table),
            r is Ok ==> crate::table::data::is_applied(*old(table), *final(table), edit, r->Ok_0@),
    {
        match table.apply_version_edit(edit) {
            Some(requests) => Ok(requests),
            None => Err(Error::StalePlan),
        }
    }
}

} // verus!
