//! What the engine guarantees across its operations.

use crate::compaction::{deletes_of, expired_deletes, is_reclaimable};
use crate::entry::{sorted_entries, strictly_ascending, views, Entry, KeyedRow};
use crate::instance::open::{
    highest_sequence, is_write_of, replayed_rows, rows_of_entry, ReplayTarget,
};
use crate::instance::read::{
    are_iters_of, are_lanes_of, bucket_among_files, bucket_among_levels, cut_by_buckets,
    dealing_order, file_bucket, file_in_bucket, file_sources, is_bucket_of, is_merged_read,
    is_part_of, is_partition_of, is_read_as_one, is_read_of, is_read_view_of, is_table_read,
    lane_iters,
    level_sources, mem_bucket, mem_in_bucket, mem_sources, sst_rows, store_covers, view_sources,
    SstData,
};
use crate::memtable::MemTable;
use crate::request::{PartitionedStreams, ReadRequest};
use crate::row_iter::dedup::{covers, drawn_from, holds_latest_of, keeps_latest};
use crate::sst::file::{
    has_file_id, live_in_range, purge_of, sorted_by_key, FileHandle, LevelHandler, Request,
};
use crate::table::data::{
    edit_fits, is_applied, landed_in, row_landed, rows_of, stamped, stored_rows, TableData,
};
use crate::table::version::{
    added_on, is_handle_of, mem_in_range, pointees, version_has_file, DeleteFile, ReadView,
    TableVersion, VersionEdit, MAX_LEVEL,
};
use crate::time::{TimeRange, Timestamp};
use crate::wal::LogEntry;
use vstd::prelude::*;
use vstd::seq_lib::*;

verus! {

/// A file that has expired is not read: what a read sees when files expire
/// at `expire_time` holds none of the files that have expired by then,
/// whatever its time range.
pub proof fn lemma_expired_file_is_not_read(
    view: ReadView,
    version: TableVersion,
    time_range: TimeRange,
    expire_time: Option<Timestamp>,
    level: int,
    file: FileHandle,
)
    requires
        is_read_view_of(view, version, time_range, expire_time),
        0 <= level < version.levels@.len(),
        file.spec_time_range().spec_is_expired(expire_time),
    ensures
        !view.leveled_ssts@[level]@.contains(file),
{
    let files = version.levels@[level].files@;
    let seen = view.leveled_ssts@[level]@;
    if seen.contains(file) {
        let i = choose|i: int| 0 <= i < seen.len() && seen[i] == file;
        files.lemma_filter_pred(live_in_range(time_range, expire_time), i);
    }
}

/// A file that has expired is reclaimed: the next compaction of its table
/// deletes every file that has expired and is not being compacted.
pub proof fn lemma_expired_file_is_reclaimed(
    levels: Seq<LevelHandler>,
    expire_time: Option<Timestamp>,
    level: int,
    file: FileHandle,
)
    requires
        0 <= level < levels.len(),
        levels.len() <= u16::MAX,
        levels[level].files@.contains(file),
        file.spec_time_range().spec_is_expired(expire_time),
        !file.being_compacted,
    ensures
        expired_deletes(levels, expire_time).contains(
            (DeleteFile { level: level as u16, file_id: file.spec_id() }),
        ),
    decreases levels.len(),
{
    let target = DeleteFile { level: level as u16, file_id: file.spec_id() };
    let rest = expired_deletes(levels.drop_last(), expire_time);
    let last = deletes_of(
        levels.last().files@.filter(is_reclaimable(expire_time)),
        (levels.len() - 1) as u16,
    );
    if level == levels.len() - 1 {
        let files = levels[level].files@;
        let i = choose|i: int| 0 <= i < files.len() && files[i] == file;
        files.lemma_filter_contains(is_reclaimable(expire_time), i);
        let kept = files.filter(is_reclaimable(expire_time));
        let j = choose|j: int| 0 <= j < kept.len() && kept[j] == file;
        assert(last[j] == target);
        assert((rest + last)[rest.len() + j] == target);
    } else {
        assert(levels.drop_last()[level] == levels[level]);
        lemma_expired_file_is_reclaimed(levels.drop_last(), expire_time, level, file);
        let j = choose|j: int| 0 <= j < rest.len() && rest[j] == target;
        assert((rest + last)[j] == target);
    }
}

/// A row of one of the sequences is a row of all of them put together.
pub proof fn lemma_flatten_contains(sources: Seq<Seq<Entry>>, s: int, e: Entry)
    requires
        0 <= s < sources.len(),
        sources[s].contains(e),
    ensures
        sources.flatten().contains(e),
    decreases sources.len(),
{
    let first = sources.first();
    let rest = sources.drop_first();
    if s == 0 {
        let i = choose|i: int| 0 <= i < first.len() && first[i] == e;
        assert((first + rest.flatten())[i] == e);
    } else {
        assert(rest[s - 1] == sources[s]);
        lemma_flatten_contains(rest, s - 1, e);
        let i = choose|i: int| 0 <= i < rest.flatten().len() && rest.flatten()[i] == e;
        assert((first + rest.flatten())[first.len() + i] == e);
    }
}

/// A stream among those that are dealt out goes to the lane of its index.
pub proof fn lemma_lane_holds(ordered: Seq<Seq<Entry>>, lanes: int, i: int)
    requires
        lanes > 0,
        0 <= i < ordered.len(),
    ensures
        lane_iters(ordered, lanes, i % lanes).contains(ordered[i]),
    decreases ordered.len(),
{
    let lane = i % lanes;
    let rest = lane_iters(ordered.drop_last(), lanes, lane);
    if i == ordered.len() - 1 {
        assert(lane_iters(ordered, lanes, lane) == rest.push(ordered.last()));
        assert(rest.push(ordered.last())[rest.len() as int] == ordered[i]);
    } else {
        assert(ordered.drop_last()[i] == ordered[i]);
        lemma_lane_holds(ordered.drop_last(), lanes, i);
        let j = choose|j: int| 0 <= j < rest.len() && rest[j] == ordered[i];
        if (ordered.len() - 1) % lanes == lane {
            assert(rest.push(ordered.last())[j] == ordered[i]);
        }
    }
}

/// The rows that the store hands out for a file are the rows of one of its
/// entries.
pub proof fn lemma_sst_rows_in_store(store: Seq<SstData>, id: u64)
    requires
        sst_rows(store, id).is_some(),
    ensures
        exists|i: int| 0 <= i < store.len()
            && (#[trigger] store[i]).rows@ == sst_rows(store, id).unwrap(),
    decreases store.len(),
{
    if store[0].file_id == id {
        assert(store[0].rows@ == sst_rows(store, id).unwrap());
    } else {
        lemma_sst_rows_in_store(store.drop_first(), id);
        let rest = store.drop_first();
        let i = choose|i: int|
            0 <= i < rest.len() && (#[trigger] rest[i]).rows@ == sst_rows(rest, id).unwrap();
        assert(store[i + 1].rows@ == sst_rows(store, id).unwrap());
    }
}

/// Every entry of the store holds its rows in order.
pub open spec fn store_sorted(store: Seq<SstData>) -> bool {
    forall|i: int| 0 <= i < store.len() ==> sorted_entries((#[trigger] store[i]).rows@)
}

/// The rows of the files come out of a sorted store in order.
pub proof fn lemma_level_sources_sorted(leveled: Seq<Vec<FileHandle>>, store: Seq<SstData>)
    requires
        store_sorted(store),
    ensures
        forall|s: int|
            0 <= s < level_sources(leveled, store).len() ==> sorted_entries(
                #[trigger] level_sources(leveled, store)[s],
            ),
    decreases leveled.len(),
{
    if leveled.len() > 0 {
        lemma_level_sources_sorted(leveled.drop_last(), store);
        let rest = level_sources(leveled.drop_last(), store);
        let last = file_sources(leveled.last()@, store);
        assert forall|s: int| 0 <= s < (rest + last).len() implies sorted_entries(
            #[trigger] (rest + last)[s],
        ) by {
            if s >= rest.len() {
                let f = leveled.last()@[s - rest.len()];
                assert(last[s - rest.len()] == match sst_rows(store, f.spec_id()) {
                    Some(rows) => rows,
                    None => Seq::empty(),
                });
                if sst_rows(store, f.spec_id()).is_some() {
                    lemma_sst_rows_in_store(store, f.spec_id());
                }
            }
        }
    }
}

/// The memtable is one of the version.
pub open spec fn is_mem_of(version: TableVersion, mem: MemTable) -> bool {
    version.sampling_mem == Some(mem) || version.memtables@.contains(mem)
}

/// The memtables of a part of what a read sees are memtables of the version.
proof fn lemma_part_mems_are_of_version(
    parts: Seq<ReadView>,
    version: TableVersion,
    time_range: TimeRange,
    segment: Option<i64>,
    k: int,
    expire_time: Option<Timestamp>,
)
    requires
        is_partition_of(parts, version, time_range, expire_time, segment),
        0 <= k < parts.len(),
    ensures
        forall|j: int|
            0 <= j < parts[k].memtables@.len() ==> version.memtables@.contains(
                *#[trigger] parts[k].memtables@[j],
            ),
        parts[k].sampling_mem matches Some(mem) ==> version.sampling_mem == Some(*mem),
{
    let whole = choose|whole: ReadView|
        #![trigger whole.leveled_ssts]
        {
            &&& is_read_view_of(whole, version, time_range, expire_time)
            &&& if is_read_as_one(whole, segment) {
                parts == seq![whole]
            } else {
                exists|keys: Seq<i64>| cut_by_buckets(parts, whole, segment.unwrap(), keys)
            }
        };
    let seen = pointees(whole.memtables@);
    assert forall|j: int| 0 <= j < whole.memtables@.len() implies version.memtables@.contains(
        *#[trigger] whole.memtables@[j],
    ) by {
        assert(seen[j] == *whole.memtables@[j]);
        assert(seen.contains(seen[j]));
        version.memtables@.lemma_filter_contains_rev(mem_in_range(time_range), seen[j]);
    }
    if is_read_as_one(whole, segment) {
        assert(parts[k] == whole);
    } else {
        let d = segment.unwrap();
        let keys = choose|keys: Seq<i64>| cut_by_buckets(parts, whole, d, keys);
        assert(is_part_of(parts[k], whole, d, keys[k] as int));
        let mine = pointees(parts[k].memtables@);
        assert forall|j: int| 0 <= j < parts[k].memtables@.len()
            implies version.memtables@.contains(
            *#[trigger] parts[k].memtables@[j],
        ) by {
            assert(mine[j] == *parts[k].memtables@[j]);
            assert(mine.contains(mine[j]));
            seen.lemma_filter_contains_rev(mem_in_bucket(d, keys[k] as int), mine[j]);
            let w = choose|w: int| 0 <= w < seen.len() && seen[w] == mine[j];
            assert(seen[w] == *whole.memtables@[w]);
        }
    }
}

/// The sources of a part of what a read sees of a table in order are sorted,
/// where the store holds its rows in order.
pub proof fn lemma_part_sources_sorted(
    parts: Seq<ReadView>,
    table: TableData,
    time_range: TimeRange,
    store: Seq<SstData>,
    k: int,
    expire_time: Option<Timestamp>,
)
    requires
        table.wf(),
        store_sorted(store),
        is_partition_of(parts, table.version, time_range, expire_time, table.opts.segment_duration),
        0 <= k < parts.len(),
    ensures
        forall|s: int|
            0 <= s < view_sources(parts[k], store).len() ==> sorted_entries(
                #[trigger] view_sources(parts[k], store)[s],
            ),
{
    let part = parts[k];
    lemma_part_mems_are_of_version(
        parts,
        table.version,
        time_range,
        table.opts.segment_duration,
        k,
        expire_time,
    );
    lemma_level_sources_sorted(part.leveled_ssts@, store);
    let head: Seq<Seq<Entry>> = match part.sampling_mem {
        Some(mem) => seq![mem.entries@],
        None => Seq::empty(),
    };
    let mems = mem_sources(part.memtables@);
    let files = level_sources(part.leveled_ssts@, store);
    assert forall|s: int| 0 <= s < view_sources(part, store).len() implies sorted_entries(
        #[trigger] view_sources(part, store)[s],
    ) by {
        if s < head.len() {
            assert(view_sources(part, store)[s] == head[s]);
            assert(table.version.sampling_mem->Some_0.wf());
        } else if s < head.len() + mems.len() {
            let j = s - head.len();
            assert(view_sources(part, store)[s] == mems[j]);
            let m = *part.memtables@[j];
            assert(table.version.memtables@.contains(m));
            let w = choose|w: int|
                0 <= w < table.version.memtables@.len() && table.version.memtables@[w] == m;
            assert(table.version.memtables@[w].wf());
        } else {
            assert(view_sources(part, store)[s] == files[s - head.len() - mems.len()]);
        }
    }
}

/// A memtable of the table whose time bucket a read asks for is a source of
/// one of the parts of what the read sees.
pub proof fn lemma_memtable_is_a_source(
    parts: Seq<ReadView>,
    table: TableData,
    time_range: TimeRange,
    store: Seq<SstData>,
    mem: MemTable,
    expire_time: Option<Timestamp>,
) -> (at: (int, int))
    requires
        table.wf(),
        is_partition_of(parts, table.version, time_range, expire_time, table.opts.segment_duration),
        is_mem_of(table.version, mem),
        mem.time_range.spec_intersect_with(time_range),
    ensures
        0 <= at.0 < parts.len(),
        0 <= at.1 < view_sources(parts[at.0], store).len(),
        view_sources(parts[at.0], store)[at.1] == mem.entries@,
{
    let version = table.version;
    let segment = table.opts.segment_duration;
    let whole = choose|whole: ReadView|
        #![trigger whole.leveled_ssts]
        {
            &&& is_read_view_of(whole, version, time_range, expire_time)
            &&& if is_read_as_one(whole, segment) {
                parts == seq![whole]
            } else {
                exists|keys: Seq<i64>| cut_by_buckets(parts, whole, segment.unwrap(), keys)
            }
        };
    let seen = pointees(whole.memtables@);
    if version.sampling_mem == Some(mem) {
        assert(parts[0] == whole);
        let head: Seq<Seq<Entry>> = seq![mem.entries@];
        assert(view_sources(whole, store)[0] == head[0]);
        (0, 0)
    } else {
        let j = choose|j: int| 0 <= j < version.memtables@.len() && version.memtables@[j] == mem;
        version.memtables@.lemma_filter_contains(mem_in_range(time_range), j);
        let w = choose|w: int| 0 <= w < seen.len() && seen[w] == mem;
        assert(*whole.memtables@[w] == mem);
        if is_read_as_one(whole, segment) {
            assert(parts[0] == whole);
            let head: Seq<Seq<Entry>> = match whole.sampling_mem {
                Some(m) => seq![m.entries@],
                None => Seq::empty(),
            };
            let mems = mem_sources(whole.memtables@);
            assert(mems[w] == mem.entries@);
            assert(view_sources(whole, store)[head.len() + w] == mems[w]);
            (0, head.len() + w)
        } else {
            let d = segment.unwrap();
            let keys = choose|keys: Seq<i64>| cut_by_buckets(parts, whole, d, keys);
            crate::time::lemma_quotient_bounds(mem.time_range.inclusive_start.0 as int, d as int);
            let b = mem_bucket(mem, d);
            let bucket: i64 = b as i64;
            assert(mem_bucket(*whole.memtables@[w], d) == b);
            assert(is_bucket_of(whole, d, bucket as int));
            assert(keys.contains(bucket));
            let k = choose|k: int| 0 <= k < keys.len() && keys[k] == bucket;
            assert(is_part_of(parts[k], whole, d, keys[k] as int));
            seen.lemma_filter_contains(mem_in_bucket(d, b), w);
            let mine = pointees(parts[k].memtables@);
            let w2 = choose|w2: int| 0 <= w2 < mine.len() && mine[w2] == mem;
            assert(*parts[k].memtables@[w2] == mem);
            let mems = mem_sources(parts[k].memtables@);
            assert(mems[w2] == mem.entries@);
            assert(view_sources(parts[k], store)[w2] == mems[w2]);
            (k, w2)
        }
    }
}

/// Of a row of a source of a part of a read, the stream of the part holds a
/// row of the same key whose write is not earlier; an unsorted stream holds
/// the row itself.
pub proof fn lemma_source_row_is_in_its_part(
    table: TableData,
    request: ReadRequest,
    store: Seq<SstData>,
    parts: Seq<ReadView>,
    iters: Seq<Vec<Entry>>,
    k: int,
    s: int,
    e: Entry,
    expire_time: Option<Timestamp>,
) -> (at: int)
    requires
        table.wf(),
        store_sorted(store),
        is_partition_of(
            parts,
            table.version,
            request.time_range,
            expire_time,
            table.opts.segment_duration,
        ),
        are_iters_of(iters, table, request, store, parts),
        0 <= k < parts.len(),
        0 <= s < view_sources(parts[k], store).len(),
        view_sources(parts[k], store)[s].contains(e),
    ensures
        0 <= at < iters[k]@.len(),
        iters[k]@[at].key == e.key,
        iters[k]@[at].sequence >= e.sequence,
        !(table.opts.spec_need_dedup() || request.order.spec_is_in_order()) ==> iters[k]@[at] == e,
{
    let sources = view_sources(parts[k], store);
    lemma_flatten_contains(sources, s, e);
    let iter = iters[k]@;
    if table.opts.spec_need_dedup() || request.order.spec_is_in_order() {
        lemma_part_sources_sorted(parts, table, request.time_range, store, k, expire_time);
        let reverse = request.order.spec_is_in_desc_order();
        let forward = if reverse {
            iter.reverse()
        } else {
            iter
        };
        assert(is_merged_read(iter, sources, reverse));
        assert(keeps_latest(sources.flatten(), forward));
        let j = choose|j: int| 0 <= j < sources.flatten().len() && sources.flatten()[j] == e;
        assert(holds_latest_of(forward, sources.flatten()[j]));
        let i = choose|i: int|
            0 <= i < forward.len() && (#[trigger] forward[i]).key == e.key && forward[i].sequence
                >= e.sequence;
        let found = if reverse {
            iter.len() - 1 - i
        } else {
            i
        };
        assert(iter[found] == forward[i]);
        found
    } else {
        let found = choose|i: int| 0 <= i < iter.len() && iter[i] == e;
        found
    }
}

/// Of a row that stands in a memtable of the table whose time a read asks
/// for, the stream of one of the parts of the read holds a row of the same
/// key whose write is not earlier; an unsorted stream holds the row itself.
pub proof fn lemma_row_is_in_a_part(
    table: TableData,
    request: ReadRequest,
    store: Seq<SstData>,
    parts: Seq<ReadView>,
    iters: Seq<Vec<Entry>>,
    mem: MemTable,
    e: Entry,
    expire_time: Option<Timestamp>,
) -> (at: (int, int))
    requires
        table.wf(),
        store_sorted(store),
        is_partition_of(
            parts,
            table.version,
            request.time_range,
            expire_time,
            table.opts.segment_duration,
        ),
        are_iters_of(iters, table, request, store, parts),
        is_mem_of(table.version, mem),
        mem.entries@.contains(e),
        request.time_range.spec_contains(e.key.timestamp),
    ensures
        0 <= at.0 < iters.len(),
        0 <= at.1 < iters[at.0]@.len(),
        iters[at.0]@[at.1].key == e.key,
        iters[at.0]@[at.1].sequence >= e.sequence,
        !(table.opts.spec_need_dedup() || request.order.spec_is_in_order()) ==> iters[at.0]@[at.1]
            == e,
{
    // The memtable holds its rows within its time bucket, so the bucket
    // meets the time range of the read.
    assert(mem.wf()) by {
        if table.version.sampling_mem != Some(mem) {
            let j = choose|j: int|
                0 <= j < table.version.memtables@.len() && table.version.memtables@[j] == mem;
            assert(table.version.memtables@[j].wf());
        }
    }
    let at_e = choose|i: int| 0 <= i < mem.entries@.len() && mem.entries@[i] == e;
    assert(mem.time_range.spec_contains(mem.entries@[at_e].key.timestamp));
    crate::time::lemma_shared_point_intersects(mem.time_range, request.time_range, e.key.timestamp);
    let (k, s) = lemma_memtable_is_a_source(
        parts,
        table,
        request.time_range,
        store,
        mem,
        expire_time,
    );
    let found = lemma_source_row_is_in_its_part(
        table,
        request,
        store,
        parts,
        iters,
        k,
        s,
        e,
        expire_time,
    );
    (k, found)
}

/// The rows of a file of one of the levels are one of the sources of the
/// levels.
proof fn lemma_level_source_at(leveled: Seq<Vec<FileHandle>>, store: Seq<SstData>, l: int, i: int)
    -> (s: int)
    requires
        0 <= l < leveled.len(),
        0 <= i < leveled[l]@.len(),
    ensures
        0 <= s < level_sources(leveled, store).len(),
        level_sources(leveled, store)[s] == file_sources(leveled[l]@, store)[i],
    decreases leveled.len(),
{
    let rest = level_sources(leveled.drop_last(), store);
    let last = file_sources(leveled.last()@, store);
    if l == leveled.len() - 1 {
        assert((rest + last)[rest.len() + i] == last[i]);
        rest.len() + i
    } else {
        assert(leveled.drop_last()[l] == leveled[l]);
        let s = lemma_level_source_at(leveled.drop_last(), store, l, i);
        assert((rest + last)[s] == rest[s]);
        s
    }
}

/// A file of the table that has not expired and whose time range a read
/// asks for is a source of one of the parts of what the read sees.
pub proof fn lemma_file_is_a_source(
    parts: Seq<ReadView>,
    table: TableData,
    time_range: TimeRange,
    store: Seq<SstData>,
    level: int,
    file: FileHandle,
    expire_time: Option<Timestamp>,
) -> (at: (int, int))
    requires
        table.wf(),
        is_partition_of(parts, table.version, time_range, expire_time, table.opts.segment_duration),
        0 <= level < MAX_LEVEL,
        table.version.levels@[level].files@.contains(file),
        file.spec_time_range().spec_intersect_with(time_range),
        !file.spec_time_range().spec_is_expired(expire_time),
    ensures
        0 <= at.0 < parts.len(),
        0 <= at.1 < view_sources(parts[at.0], store).len(),
        view_sources(parts[at.0], store)[at.1] == match sst_rows(store, file.spec_id()) {
            Some(rows) => rows,
            None => Seq::empty(),
        },
{
    let version = table.version;
    let segment = table.opts.segment_duration;
    let whole = choose|whole: ReadView|
        #![trigger whole.leveled_ssts]
        {
            &&& is_read_view_of(whole, version, time_range, expire_time)
            &&& if is_read_as_one(whole, segment) {
                parts == seq![whole]
            } else {
                exists|keys: Seq<i64>| cut_by_buckets(parts, whole, segment.unwrap(), keys)
            }
        };
    let files = version.levels@[level].files@;
    let j = choose|j: int| 0 <= j < files.len() && files[j] == file;
    files.lemma_filter_contains(live_in_range(time_range, expire_time), j);
    let seen = whole.leveled_ssts@[level]@;
    let w = choose|w: int| 0 <= w < seen.len() && seen[w] == file;
    if is_read_as_one(whole, segment) {
        assert(parts[0] == whole);
        let s = lemma_level_source_at(whole.leveled_ssts@, store, level, w);
        let head: Seq<Seq<Entry>> = match whole.sampling_mem {
            Some(m) => seq![m.entries@],
            None => Seq::empty(),
        };
        let mems = mem_sources(whole.memtables@);
        let below = level_sources(whole.leveled_ssts@, store);
        assert(view_sources(whole, store)[head.len() + mems.len() + s] == below[s]);
        (0, head.len() + mems.len() + s)
    } else {
        let d = segment.unwrap();
        let keys = choose|keys: Seq<i64>| cut_by_buckets(parts, whole, d, keys);
        crate::time::lemma_quotient_bounds(
            file.spec_time_range().inclusive_start.0 as int,
            d as int,
        );
        let b = file_bucket(file, d);
        let bucket: i64 = b as i64;
        assert(file_bucket(whole.leveled_ssts@[level]@[w], d) == b);
        assert(bucket_among_files(whole.leveled_ssts@[level]@, d, b));
        assert(bucket_among_levels(whole.leveled_ssts@, d, b));
        assert(is_bucket_of(whole, d, bucket as int));
        assert(keys.contains(bucket));
        let k = choose|k: int| 0 <= k < keys.len() && keys[k] == bucket;
        assert(is_part_of(parts[k], whole, d, keys[k] as int));
        seen.lemma_filter_contains(file_in_bucket(d, b), w);
        let mine = parts[k].leveled_ssts@[level]@;
        let w2 = choose|w2: int| 0 <= w2 < mine.len() && mine[w2] == file;
        let s = lemma_level_source_at(parts[k].leveled_ssts@, store, level, w2);
        let mems = mem_sources(parts[k].memtables@);
        let below = level_sources(parts[k].leveled_ssts@, store);
        assert(view_sources(parts[k], store)[mems.len() + s] == below[s]);
        (k, mems.len() + s)
    }
}

/// Every part of what a read sees of a table has its files among the files
/// of the table: where the store holds the rows of every file of the table,
/// it holds those of every file of every part.
pub proof fn lemma_store_covers_parts(
    parts: Seq<ReadView>,
    version: TableVersion,
    time_range: TimeRange,
    segment: Option<i64>,
    store: Seq<SstData>,
    k: int,
    expire_time: Option<Timestamp>,
)
    requires
        version.wf(),
        is_partition_of(parts, version, time_range, expire_time, segment),
        store_covers_version(store, version),
        0 <= k < parts.len(),
    ensures
        store_covers(store, parts[k].leveled_ssts@),
{
    let whole = choose|whole: ReadView|
        #![trigger whole.leveled_ssts]
        {
            &&& is_read_view_of(whole, version, time_range, expire_time)
            &&& if is_read_as_one(whole, segment) {
                parts == seq![whole]
            } else {
                exists|keys: Seq<i64>| cut_by_buckets(parts, whole, segment.unwrap(), keys)
            }
        };
    let test = live_in_range(time_range, expire_time);
    assert forall|l: int, i: int|
        0 <= l < parts[k].leveled_ssts@.len() && 0 <= i < parts[k].leveled_ssts@[l]@.len()
        implies sst_rows(store, (#[trigger] parts[k].leveled_ssts@[l]@[i]).spec_id()).is_some() by {
        let f = parts[k].leveled_ssts@[l]@[i];
        assert(parts[k].leveled_ssts@[l]@.contains(f));
        if is_read_as_one(whole, segment) {
            assert(parts[k] == whole);
        } else {
            let d = segment.unwrap();
            let keys = choose|keys: Seq<i64>| cut_by_buckets(parts, whole, d, keys);
            assert(is_part_of(parts[k], whole, d, keys[k] as int));
            whole.leveled_ssts@[l]@.lemma_filter_contains_rev(
                file_in_bucket(d, keys[k] as int),
                f,
            );
        }
        assert(whole.leveled_ssts@[l]@.contains(f));
        version.levels@[l].files@.lemma_filter_contains_rev(test, f);
        let j = choose|j: int|
            0 <= j < version.levels@[l].files@.len() && version.levels@[l].files@[j] == f;
        assert(sst_rows(store, version.levels@[l].files@[j].spec_id()).is_some());
    }
}

/// The store holds the rows of every file of the version.
pub open spec fn store_covers_version(store: Seq<SstData>, version: TableVersion) -> bool {
    forall|l: int, i: int|
        0 <= l < version.levels@.len() && 0 <= i < version.levels@[l].files@.len() ==> sst_rows(
            store,
            (#[trigger] version.levels@[l].files@[i]).spec_id(),
        ).is_some()
}

/// A read of a table succeeds where the table has not been dropped and the
/// store holds the rows of every file of the table.
pub proof fn lemma_read_succeeds(
    table: TableData,
    request: ReadRequest,
    store: Seq<SstData>,
    parts: Seq<ReadView>,
    r: Result<PartitionedStreams, crate::instance::read::Error>,
    expire_time: Option<Timestamp>,
)
    requires
        table.wf(),
        is_partition_of(
            parts,
            table.version,
            request.time_range,
            expire_time,
            table.opts.segment_duration,
        ),
        is_read_of(r, table, request, store, parts),
        store_covers_version(store, table.version),
    ensures
        r is Ok,
{
    if r is Err {
        let k = choose|k: int|
            0 <= k < parts.len() && !store_covers(store, (#[trigger] parts[k]).leveled_ssts@);
        lemma_store_covers_parts(
            parts,
            table.version,
            request.time_range,
            table.opts.segment_duration,
            store,
            k,
            expire_time,
        );
    }
}

/// Every row of the stream of a part comes out on the lane that the stream
/// is dealt to.
pub proof fn lemma_row_reaches_its_lane(
    iters: Seq<Vec<Entry>>,
    streams: Seq<Vec<Entry>>,
    request: ReadRequest,
    k: int,
    i: int,
) -> (at: (int, int))
    requires
        request.opts.read_parallelism > 0,
        are_lanes_of(streams, iters, request),
        0 <= k < iters.len(),
        0 <= i < iters[k]@.len(),
    ensures
        0 <= at.0 < streams.len(),
        0 <= at.1 < streams[at.0]@.len(),
        streams[at.0]@[at.1] == iters[k]@[i],
{
    let iter = iters[k]@;
    let row = iter[i];
    assert(iter.contains(row));
    let lanes = request.opts.read_parallelism as int;
    let all = views(iters);
    let ordered = dealing_order(all, request);
    let place = if ordered == all {
        k
    } else {
        all.len() - 1 - k
    };
    assert(ordered[place] == iter) by {
        assert(all[k] == iter);
    }
    let lane = place % lanes;
    lemma_lane_holds(ordered, lanes, place);
    let dealt = lane_iters(ordered, lanes, lane);
    let q = choose|q: int| 0 <= q < dealt.len() && dealt[q] == ordered[place];
    lemma_flatten_contains(dealt, q, row);
    assert(streams[lane]@ == dealt.flatten());
    let j = choose|j: int| 0 <= j < dealt.flatten().len() && dealt.flatten()[j] == row;
    (lane, j)
}

/// A written row is read. Of a row that stands in a memtable of the table, a
/// read whose time range holds the row's time hands out, on one of its lanes,
/// a row of the same key whose write is not earlier: the row itself, unless a
/// later write has overwritten it. The store must hold the rows of its files
/// in order.
pub proof fn lemma_written_row_is_read(
    table: TableData,
    request: ReadRequest,
    store: Seq<SstData>,
    parts: Seq<ReadView>,
    iters: Seq<Vec<Entry>>,
    streams: Seq<Vec<Entry>>,
    mem: MemTable,
    e: Entry,
    expire_time: Option<Timestamp>,
)
    requires
        table.wf(),
        request.opts.read_parallelism > 0,
        store_sorted(store),
        is_partition_of(
            parts,
            table.version,
            request.time_range,
            expire_time,
            table.opts.segment_duration,
        ),
        are_iters_of(iters, table, request, store, parts),
        are_lanes_of(streams, iters, request),
        is_mem_of(table.version, mem),
        mem.entries@.contains(e),
        request.time_range.spec_contains(e.key.timestamp),
    ensures
        exists|lane: int, i: int|
            0 <= lane < streams.len() && 0 <= i < streams[lane]@.len() && (
            #[trigger] streams[lane]@[i]).key == e.key && streams[lane]@[i].sequence >= e.sequence,
        !(table.opts.spec_need_dedup() || request.order.spec_is_in_order()) ==> exists|
            lane: int,
            i: int,
        |
            0 <= lane < streams.len() && 0 <= i < streams[lane]@.len()
                && #[trigger] streams[lane]@[i] == e,
{
    let (k, i) = lemma_row_is_in_a_part(table, request, store, parts, iters, mem, e, expire_time);
    let (lane, j) = lemma_row_reaches_its_lane(iters, streams, request, k, i);
    assert(streams[lane]@[j].key == e.key && streams[lane]@[j].sequence >= e.sequence);
}

/// A flushed row is read. Of a row that the store holds for a file of the
/// table, a read whose time range the file meets hands out, on one of its
/// lanes, a row of the same key whose write is not earlier: the row itself
/// where the read is unsorted. The file must not have expired, and the store
/// must hold the rows of its files in order.
pub proof fn lemma_flushed_row_is_read(
    table: TableData,
    request: ReadRequest,
    store: Seq<SstData>,
    parts: Seq<ReadView>,
    iters: Seq<Vec<Entry>>,
    streams: Seq<Vec<Entry>>,
    level: int,
    file: FileHandle,
    e: Entry,
    expire_time: Option<Timestamp>,
)
    requires
        table.wf(),
        request.opts.read_parallelism > 0,
        store_sorted(store),
        is_partition_of(
            parts,
            table.version,
            request.time_range,
            expire_time,
            table.opts.segment_duration,
        ),
        are_iters_of(iters, table, request, store, parts),
        are_lanes_of(streams, iters, request),
        0 <= level < MAX_LEVEL,
        table.version.levels@[level].files@.contains(file),
        file.spec_time_range().spec_intersect_with(request.time_range),
        !file.spec_time_range().spec_is_expired(expire_time),
        sst_rows(store, file.spec_id()) matches Some(rows) && rows.contains(e),
    ensures
        exists|lane: int, i: int|
            0 <= lane < streams.len() && 0 <= i < streams[lane]@.len() && (
            #[trigger] streams[lane]@[i]).key == e.key && streams[lane]@[i].sequence >= e.sequence,
        !(table.opts.spec_need_dedup() || request.order.spec_is_in_order()) ==> exists|
            lane: int,
            i: int,
        |
            0 <= lane < streams.len() && 0 <= i < streams[lane]@.len()
                && #[trigger] streams[lane]@[i] == e,
{
    let (k, s) = lemma_file_is_a_source(
        parts,
        table,
        request.time_range,
        store,
        level,
        file,
        expire_time,
    );
    let i = lemma_source_row_is_in_its_part(
        table,
        request,
        store,
        parts,
        iters,
        k,
        s,
        e,
        expire_time,
    );
    let (lane, j) = lemma_row_reaches_its_lane(iters, streams, request, k, i);
    assert(streams[lane]@[j].key == e.key && streams[lane]@[j].sequence >= e.sequence);
}

/// The table holds the row: in one of its memtables, or in a file that has
/// not expired at `expire_time`, whose time range holds the row's time and
/// whose rows are in the store.
pub open spec fn row_is_stored(
    table: TableData,
    store: Seq<SstData>,
    e: Entry,
    expire_time: Option<Timestamp>,
) -> bool {
    ||| exists|mem: MemTable| is_mem_of(table.version, mem) && #[trigger] mem.entries@.contains(e)
    ||| exists|level: int, file: FileHandle|
        {
            &&& 0 <= level < MAX_LEVEL
            &&& #[trigger] table.version.levels@[level].files@.contains(file)
            &&& file.spec_time_range().spec_contains(e.key.timestamp)
            &&& !file.spec_time_range().spec_is_expired(expire_time)
            &&& sst_rows(store, file.spec_id()) matches Some(rows) && rows.contains(e)
        }
}

/// Every row that a table holds is read. A read at the time `now` of a table
/// that has not been dropped succeeds where the store holds the rows of
/// every file of the table; and of a row that the table holds, in a memtable
/// or in a file that has not expired, and whose time the read asks for, it
/// hands out, on one of its lanes, a row of the same key whose write is not
/// earlier: the row itself, unless a later write has overwritten it. The
/// store must hold the rows of its files in order.
pub proof fn lemma_stored_row_is_read(
    table: TableData,
    request: ReadRequest,
    store: Seq<SstData>,
    now: Timestamp,
    r: Result<PartitionedStreams, crate::instance::read::Error>,
    e: Entry,
)
    requires
        table.wf(),
        !table.dropped,
        request.opts.read_parallelism > 0,
        store_sorted(store),
        store_covers_version(store, table.version),
        is_table_read(r, table, request, store, now),
        row_is_stored(table, store, e, table.opts.spec_expire_time(now)),
        request.time_range.spec_contains(e.key.timestamp),
    ensures
        r matches Ok(read) && exists|lane: int, i: int|
            0 <= lane < read.streams@.len() && 0 <= i < read.streams@[lane]@.len() && (
            #[trigger] read.streams@[lane]@[i]).key == e.key && read.streams@[lane]@[i].sequence
                >= e.sequence,
{
    let expire_time = table.opts.spec_expire_time(now);
    let parts = choose|parts: Seq<ReadView>|
        #![trigger parts.len()]
        is_partition_of(
            parts,
            table.version,
            request.time_range,
            expire_time,
            table.opts.segment_duration,
        ) && is_read_of(r, table, request, store, parts);
    lemma_read_succeeds(table, request, store, parts, r, expire_time);
    let streams = r->Ok_0.streams@;
    let iters = choose|iters: Seq<Vec<Entry>>|
        #![trigger iters.len()]
        are_iters_of(iters, table, request, store, parts) && are_lanes_of(streams, iters, request);
    if exists|mem: MemTable| is_mem_of(table.version, mem) && #[trigger] mem.entries@.contains(e) {
        let mem = choose|mem: MemTable|
            is_mem_of(table.version, mem) && #[trigger] mem.entries@.contains(e);
        lemma_written_row_is_read(
            table,
            request,
            store,
            parts,
            iters,
            streams,
            mem,
            e,
            expire_time,
        );
    } else {
        let (level, file) = choose|level: int, file: FileHandle|
            {
                &&& 0 <= level < MAX_LEVEL
                &&& #[trigger] table.version.levels@[level].files@.contains(file)
                &&& file.spec_time_range().spec_contains(e.key.timestamp)
                &&& !file.spec_time_range().spec_is_expired(expire_time)
                &&& sst_rows(store, file.spec_id()) matches Some(rows) && rows.contains(e)
            };
        crate::time::lemma_shared_point_intersects(
            file.spec_time_range(),
            request.time_range,
            e.key.timestamp,
        );
        lemma_flushed_row_is_read(
            table,
            request,
            store,
            parts,
            iters,
            streams,
            level,
            file,
            e,
            expire_time,
        );
    }
}

/// The time range lies within one time bucket, or holds no point of time.
pub open spec fn spans_one_bucket(range: TimeRange, segment: i64) -> bool {
    range.inclusive_start.0 >= range.exclusive_end.0 || range.inclusive_start.0 as int
        / segment as int == (range.exclusive_end.0 - 1) / segment as int
}

/// Every file and every memtable of the version lies within one time bucket.
pub open spec fn is_aligned(version: TableVersion, segment: i64) -> bool {
    &&& forall|l: int, i: int|
        0 <= l < version.levels@.len() && 0 <= i < version.levels@[l].files@.len()
            ==> spans_one_bucket(
            (#[trigger] version.levels@[l].files@[i]).spec_time_range(),
            segment,
        )
    &&& forall|j: int|
        0 <= j < version.memtables@.len() ==> spans_one_bucket(
            (#[trigger] version.memtables@[j]).time_range,
            segment,
        )
}

/// The rows that the store holds for a file of the version lie within the
/// time range of the file.
pub open spec fn files_hold_their_rows(version: TableVersion, store: Seq<SstData>) -> bool {
    forall|l: int, i: int|
        0 <= l < version.levels@.len() && 0 <= i < version.levels@[l].files@.len() ==> rows_within(
            (#[trigger] version.levels@[l].files@[i]).spec_time_range(),
            sst_rows(store, version.levels@[l].files@[i].spec_id()),
        )
}

/// Every row, if there are rows, is of a time of the time range.
pub open spec fn rows_within(range: TimeRange, rows: Option<Seq<Entry>>) -> bool {
    rows matches Some(rows) ==> forall|j: int|
        0 <= j < rows.len() ==> range.spec_contains((#[trigger] rows[j]).key.timestamp)
}

/// Each source of the levels holds the rows of one of their files.
proof fn lemma_level_source_file(leveled: Seq<Vec<FileHandle>>, store: Seq<SstData>, s: int) -> (at:
    (int, int))
    requires
        0 <= s < level_sources(leveled, store).len(),
    ensures
        0 <= at.0 < leveled.len(),
        0 <= at.1 < leveled[at.0]@.len(),
        level_sources(leveled, store)[s] == file_sources(leveled[at.0]@, store)[at.1],
    decreases leveled.len(),
{
    let rest = level_sources(leveled.drop_last(), store);
    let last = file_sources(leveled.last()@, store);
    if s < rest.len() {
        let at = lemma_level_source_file(leveled.drop_last(), store, s);
        assert(leveled.drop_last()[at.0] == leveled[at.0]);
        assert((rest + last)[s] == rest[s]);
        at
    } else {
        assert((rest + last)[s] == last[s - rest.len()]);
        (leveled.len() - 1, s - rest.len())
    }
}

/// A time of a time range that lies within one bucket lies in the bucket in
/// which the range starts.
proof fn lemma_time_in_start_bucket(range: TimeRange, t: Timestamp, segment: i64)
    requires
        segment > 0,
        range.spec_contains(t),
        spans_one_bucket(range, segment),
    ensures
        t.0 as int / segment as int == range.inclusive_start.0 as int / segment as int,
{
    vstd::arithmetic::div_mod::lemma_div_is_ordered(
        range.inclusive_start.0 as int,
        t.0 as int,
        segment as int,
    );
    vstd::arithmetic::div_mod::lemma_div_is_ordered(
        t.0 as int,
        range.exclusive_end.0 - 1,
        segment as int,
    );
}

/// Every row of a source of the part of a bucket lies in that bucket, where
/// the files and memtables of the version lie within one bucket each and the
/// files hold their rows.
proof fn lemma_source_rows_in_bucket(
    part: ReadView,
    whole: ReadView,
    version: TableVersion,
    time_range: TimeRange,
    expire_time: Option<Timestamp>,
    segment: i64,
    bucket: int,
    store: Seq<SstData>,
    s: int,
    e: Entry,
)
    requires
        segment > 0,
        version.wf(),
        is_read_view_of(whole, version, time_range, expire_time),
        is_part_of(part, whole, segment, bucket),
        is_aligned(version, segment),
        files_hold_their_rows(version, store),
        0 <= s < view_sources(part, store).len(),
        view_sources(part, store)[s].contains(e),
    ensures
        e.key.timestamp.0 as int / segment as int == bucket,
{
    let mems = mem_sources(part.memtables@);
    let below = level_sources(part.leveled_ssts@, store);
    let source = view_sources(part, store)[s];
    let at = choose|at: int| 0 <= at < source.len() && source[at] == e;
    if s < mems.len() {
        assert(source == mems[s]);
        let mine = pointees(part.memtables@);
        let seen = pointees(whole.memtables@);
        let m = mine[s];
        assert(m == *part.memtables@[s]);
        assert(mine.contains(m));
        seen.lemma_filter_pred(mem_in_bucket(segment, bucket), s);
        seen.lemma_filter_contains_rev(mem_in_bucket(segment, bucket), m);
        version.memtables@.lemma_filter_contains_rev(mem_in_range(time_range), m);
        let j = choose|j: int| 0 <= j < version.memtables@.len() && version.memtables@[j] == m;
        assert(version.memtables@[j].wf());
        assert(spans_one_bucket(version.memtables@[j].time_range, segment));
        assert(m.entries@[at] == e);
        lemma_time_in_start_bucket(m.time_range, e.key.timestamp, segment);
    } else {
        let j = s - mems.len();
        assert(source == below[j]);
        let (l, i) = lemma_level_source_file(part.leveled_ssts@, store, j);
        let mine = part.leveled_ssts@[l]@;
        let f = mine[i];
        assert(mine.contains(f));
        let seen = whole.leveled_ssts@[l]@;
        seen.lemma_filter_pred(file_in_bucket(segment, bucket), i);
        seen.lemma_filter_contains_rev(file_in_bucket(segment, bucket), f);
        let files = version.levels@[l].files@;
        files.lemma_filter_contains_rev(live_in_range(time_range, expire_time), f);
        let w = choose|w: int| 0 <= w < files.len() && files[w] == f;
        assert(spans_one_bucket(files[w].spec_time_range(), segment));
        assert(sst_rows(store, f.spec_id()).is_some());
        let rows = sst_rows(store, files[w].spec_id()).unwrap();
        assert(rows[at] == e);
        assert(rows_within(files[w].spec_time_range(), sst_rows(store, files[w].spec_id())));
        assert(files[w].spec_time_range().spec_contains(rows[at].key.timestamp));
        lemma_time_in_start_bucket(f.spec_time_range(), e.key.timestamp, segment);
    }
}

/// The rows of one key are read together. Where the files and the memtables
/// of a table lie within one time bucket each, and the files hold their
/// rows, two rows of one key that a read draws from its sources are drawn
/// by the same part of the read, which hands out the later of them only
/// where the read drops overwritten rows.
pub proof fn lemma_rows_of_a_key_share_a_part(
    parts: Seq<ReadView>,
    version: TableVersion,
    time_range: TimeRange,
    expire_time: Option<Timestamp>,
    segment: i64,
    store: Seq<SstData>,
    k1: int,
    s1: int,
    e1: Entry,
    k2: int,
    s2: int,
    e2: Entry,
)
    requires
        segment > 0,
        version.wf(),
        is_partition_of(parts, version, time_range, expire_time, Some(segment)),
        is_aligned(version, segment),
        files_hold_their_rows(version, store),
        0 <= k1 < parts.len(),
        0 <= s1 < view_sources(parts[k1], store).len(),
        view_sources(parts[k1], store)[s1].contains(e1),
        0 <= k2 < parts.len(),
        0 <= s2 < view_sources(parts[k2], store).len(),
        view_sources(parts[k2], store)[s2].contains(e2),
        e1.key == e2.key,
    ensures
        k1 == k2,
{
    let whole = choose|whole: ReadView|
        #![trigger whole.leveled_ssts]
        {
            &&& is_read_view_of(whole, version, time_range, expire_time)
            &&& if is_read_as_one(whole, Some(segment)) {
                parts == seq![whole]
            } else {
                exists|keys: Seq<i64>| cut_by_buckets(parts, whole, segment, keys)
            }
        };
    if !is_read_as_one(whole, Some(segment)) {
        let keys = choose|keys: Seq<i64>| cut_by_buckets(parts, whole, segment, keys);
        assert(is_part_of(parts[k1], whole, segment, keys[k1] as int));
        assert(is_part_of(parts[k2], whole, segment, keys[k2] as int));
        lemma_source_rows_in_bucket(
            parts[k1],
            whole,
            version,
            time_range,
            expire_time,
            segment,
            keys[k1] as int,
            store,
            s1,
            e1,
        );
        lemma_source_rows_in_bucket(
            parts[k2],
            whole,
            version,
            time_range,
            expire_time,
            segment,
            keys[k2] as int,
            store,
            s2,
            e2,
        );
        assert(keys[k1] == keys[k2]);
        if k1 < k2 {
            assert(keys[k1] < keys[k2]);
        } else if k2 < k1 {
            assert(keys[k2] < keys[k1]);
        }
    }
}

/// A stream that goes to a lane is one of the streams that are dealt out.
proof fn lemma_lane_iter_origin(ordered: Seq<Seq<Entry>>, lanes: int, lane: int, q: int) -> (p:
    int)
    requires
        lanes > 0,
        0 <= q < lane_iters(ordered, lanes, lane).len(),
    ensures
        0 <= p < ordered.len(),
        ordered[p] == lane_iters(ordered, lanes, lane)[q],
    decreases ordered.len(),
{
    let rest = lane_iters(ordered.drop_last(), lanes, lane);
    if q < rest.len() {
        let p = lemma_lane_iter_origin(ordered.drop_last(), lanes, lane, q);
        assert(ordered.drop_last()[p] == ordered[p]);
        if (ordered.len() - 1) % lanes == lane {
            assert(rest.push(ordered.last())[q] == rest[q]);
        }
        p
    } else {
        assert(rest.push(ordered.last())[q] == ordered.last());
        ordered.len() - 1
    }
}

/// The row is a row of the table that a read of `time_range` takes when
/// files expire at `expire_time`: a row of one of its memtables, or a row
/// that the store holds for one of its files, which has not expired and
/// whose time range meets that of the read.
pub open spec fn is_live_row(
    table: TableData,
    store: Seq<SstData>,
    time_range: TimeRange,
    expire_time: Option<Timestamp>,
    e: Entry,
) -> bool {
    ||| exists|mem: MemTable| is_mem_of(table.version, mem) && #[trigger] mem.entries@.contains(e)
    ||| exists|level: int, file: FileHandle|
        {
            &&& 0 <= level < MAX_LEVEL
            &&& #[trigger] table.version.levels@[level].files@.contains(file)
            &&& file.spec_time_range().spec_intersect_with(time_range)
            &&& !file.spec_time_range().spec_is_expired(expire_time)
            &&& sst_rows(store, file.spec_id()) matches Some(rows) && rows.contains(e)
        }
}

/// Every row of a source of a part of a read is a row of the table that the
/// read takes.
proof fn lemma_source_row_is_live(
    parts: Seq<ReadView>,
    table: TableData,
    time_range: TimeRange,
    expire_time: Option<Timestamp>,
    store: Seq<SstData>,
    k: int,
    s: int,
    e: Entry,
)
    requires
        table.wf(),
        is_partition_of(parts, table.version, time_range, expire_time, table.opts.segment_duration),
        0 <= k < parts.len(),
        0 <= s < view_sources(parts[k], store).len(),
        view_sources(parts[k], store)[s].contains(e),
    ensures
        is_live_row(table, store, time_range, expire_time, e),
{
    let version = table.version;
    let segment = table.opts.segment_duration;
    let part = parts[k];
    lemma_part_mems_are_of_version(parts, version, time_range, segment, k, expire_time);
    let head: Seq<Seq<Entry>> = match part.sampling_mem {
        Some(mem) => seq![mem.entries@],
        None => Seq::empty(),
    };
    let mems = mem_sources(part.memtables@);
    let below = level_sources(part.leveled_ssts@, store);
    let source = view_sources(part, store)[s];
    if s < head.len() {
        let mem = version.sampling_mem->Some_0;
        assert(source == head[s]);
        assert(is_mem_of(version, mem) && mem.entries@.contains(e));
    } else if s < head.len() + mems.len() {
        let j = s - head.len();
        assert(source == mems[j]);
        let mem = *part.memtables@[j];
        assert(is_mem_of(version, mem) && mem.entries@.contains(e));
    } else {
        let j = s - head.len() - mems.len();
        assert(source == below[j]);
        let (l, i) = lemma_level_source_file(part.leveled_ssts@, store, j);
        let f = part.leveled_ssts@[l]@[i];
        assert(part.leveled_ssts@[l]@.contains(f));
        let whole = choose|whole: ReadView|
            #![trigger whole.leveled_ssts]
            {
                &&& is_read_view_of(whole, version, time_range, expire_time)
                &&& if is_read_as_one(whole, segment) {
                    parts == seq![whole]
                } else {
                    exists|keys: Seq<i64>| cut_by_buckets(parts, whole, segment.unwrap(), keys)
                }
            };
        if is_read_as_one(whole, segment) {
            assert(part == whole);
        } else {
            let d = segment.unwrap();
            let keys = choose|keys: Seq<i64>| cut_by_buckets(parts, whole, d, keys);
            assert(is_part_of(part, whole, d, keys[k] as int));
            whole.leveled_ssts@[l]@.lemma_filter_contains_rev(file_in_bucket(d, keys[k] as int), f);
        }
        let seen = whole.leveled_ssts@[l]@;
        let w = choose|w: int| 0 <= w < seen.len() && seen[w] == f;
        let files = version.levels@[l].files@;
        let test = live_in_range(time_range, expire_time);
        files.lemma_filter_pred(test, w);
        files.lemma_filter_contains_rev(test, f);
        assert(test(f));
        assert(sst_rows(store, f.spec_id()).is_some()) by {
            if sst_rows(store, f.spec_id()).is_none() {
                assert(source.len() == 0);
            }
        }
        assert(version.levels@[l].files@.contains(f));
    }
}

/// A read hands out rows of the table only, and none of a file that has
/// expired. Every row that a read at the time `now` hands out is a row of a
/// memtable of the table, or a row that the store holds for a file of the
/// table that has not expired at `now` and whose time range meets that of
/// the read.
pub proof fn lemma_read_rows_are_live(
    table: TableData,
    request: ReadRequest,
    store: Seq<SstData>,
    now: Timestamp,
    read: PartitionedStreams,
    lane: int,
    i: int,
)
    requires
        table.wf(),
        request.opts.read_parallelism > 0,
        is_table_read(Ok(read), table, request, store, now),
        0 <= lane < read.streams@.len(),
        0 <= i < read.streams@[lane]@.len(),
    ensures
        is_live_row(
            table,
            store,
            request.time_range,
            table.opts.spec_expire_time(now),
            read.streams@[lane]@[i],
        ),
{
    let expire_time = table.opts.spec_expire_time(now);
    let r: Result<PartitionedStreams, crate::instance::read::Error> = Ok(read);
    let parts = choose|parts: Seq<ReadView>|
        #![trigger parts.len()]
        is_partition_of(
            parts,
            table.version,
            request.time_range,
            expire_time,
            table.opts.segment_duration,
        ) && is_read_of(r, table, request, store, parts);
    let streams = read.streams@;
    let iters = choose|iters: Seq<Vec<Entry>>|
        #![trigger iters.len()]
        are_iters_of(iters, table, request, store, parts) && are_lanes_of(streams, iters, request);
    let e = streams[lane]@[i];
    let lanes = request.opts.read_parallelism as int;
    let all = views(iters);
    let ordered = dealing_order(all, request);
    let dealt = lane_iters(ordered, lanes, lane);
    assert(streams[lane]@ == dealt.flatten());
    assert(dealt.flatten().contains(e));
    let q = lemma_flatten_contains_rev(dealt, e);
    let p = lemma_lane_iter_origin(ordered, lanes, lane, q);
    let k = if ordered == all {
        p
    } else {
        all.len() - 1 - p
    };
    assert(all[k] == ordered[p]);
    assert(iters[k]@ == all[k]);
    let iter = iters[k]@;
    assert(iter.contains(e));
    let sources = view_sources(parts[k], store);
    if table.opts.spec_need_dedup() || request.order.spec_is_in_order() {
        let j = choose|j: int| 0 <= j < iter.len() && iter[j] == e;
        lemma_iter_row_is_drawn(iter, sources, request.order.spec_is_in_desc_order(), j);
    }
    let s = lemma_flatten_contains_rev(sources, e);
    lemma_source_row_is_live(parts, table, request.time_range, expire_time, store, k, s, e);
}

/// A file is in the version or with the purger, never both: no file that an
/// edit hands to the purger is a file of the version after the edit.
pub proof fn lemma_purged_file_has_left(
    before: TableData,
    after: TableData,
    edit: VersionEdit,
    requests: Seq<Request>,
    id: u64,
)
    requires
        before.wf(),
        after.wf(),
        edit_fits(before, edit),
        is_applied(before, after, edit, requests),
        requests.contains(purge_of(before.purge_queue, id)),
    ensures
        version_has_file(before.version.levels@, id),
        !version_has_file(after.version.levels@, id),
{
    let queue = before.purge_queue;
    let request = purge_of(queue, id);
    assert(!queue.closed) by {
        let j = choose|j: int| 0 <= j < requests.len() && requests[j] == request;
    }
    let (l, found) = choose|l: int, found: u64|
        0 <= l < MAX_LEVEL && has_file_id((#[trigger] before.version.levels@[l]).files@, found)
            && edit.files_to_delete@.contains(
            (crate::table::version::DeleteFile { level: l as u16, file_id: found }),
        ) && request == #[trigger] purge_of(queue, found);
    assert(found == id);
    let old_files = before.version.levels@[l].files@;
    let w = choose|w: int| 0 <= w < old_files.len() && (#[trigger] old_files[w]).spec_id() == id;
    if version_has_file(after.version.levels@, id) {
        let l2 = choose|l2: int|
            0 <= l2 < after.version.levels@.len() && has_file_id(
                (#[trigger] after.version.levels@[l2]).files@,
                id,
            );
        let new_files = after.version.levels@[l2].files@;
        let v = choose|v: int| 0 <= v < new_files.len()
            && (#[trigger] new_files[v]).spec_id() == id;
        let f = new_files[v];
        assert(after.version.levels@[l2].files@.contains(f));
        if added_on(edit.files_to_add@, 0, l2, f) {
            let k = choose|k: int|
                0 <= k < edit.files_to_add@.len() && 0 <= k && (
                #[trigger] edit.files_to_add@[k]).level == l2 && is_handle_of(
                    f,
                    edit.files_to_add@[k],
                );
            assert(!version_has_file(before.version.levels@, edit.files_to_add@[k].file.id));
            assert(false);
        } else {
            let kept = before.version.levels@[l2].files@;
            assert(kept.contains(f));
            let u = choose|u: int| 0 <= u < kept.len() && kept[u] == f;
            if l2 == l {
                assert(false);
            } else if l < l2 {
                assert(before.version.levels@[l].files@[w].spec_id()
                    != before.version.levels@[l2].files@[u].spec_id());
            } else {
                assert(before.version.levels@[l2].files@[u].spec_id()
                    != before.version.levels@[l].files@[w].spec_id());
            }
        }
    }
}

/// The files of a level are determined by which files they are: two ordered
/// sets of the same files are the same sequence.
pub proof fn lemma_ordered_files_are_unique(a: Seq<FileHandle>, b: Seq<FileHandle>)
    requires
        sorted_by_key(a),
        sorted_by_key(b),
        forall|f: FileHandle| a.contains(f) <==> b.contains(f),
    ensures
        a == b,
    decreases a.len(),
{
    if a.len() == 0 {
        if b.len() > 0 {
            assert(b.contains(b[0]));
        }
        assert(a =~= b);
    } else {
        assert(a.contains(a.last()));
        let j = choose|j: int| 0 <= j < b.len() && b[j] == a.last();
        assert(b.contains(b.last()));
        let i = choose|i: int| 0 <= i < a.len() && a[i] == b.last();
        if i < a.len() - 1 {
            assert(a[i].ord_key().spec_lt(a[a.len() - 1].ord_key()));
        }
        if j < b.len() - 1 {
            assert(b[j].ord_key().spec_lt(b[b.len() - 1].ord_key()));
        }
        assert(a.last() == b.last());
        let a0 = a.drop_last();
        let b0 = b.drop_last();
        assert forall|f: FileHandle| a0.contains(f) <==> b0.contains(f) by {
            if a0.contains(f) {
                let k = choose|k: int| 0 <= k < a0.len() && a0[k] == f;
                assert(a[k] == f);
                assert(a[k].ord_key().spec_lt(a[a.len() - 1].ord_key()));
                assert(a.contains(f));
                let m = choose|m: int| 0 <= m < b.len() && b[m] == f;
                assert(b0[m] == f);
            }
            if b0.contains(f) {
                let k = choose|k: int| 0 <= k < b0.len() && b0[k] == f;
                assert(b[k] == f);
                assert(b[k].ord_key().spec_lt(b[b.len() - 1].ord_key()));
                assert(b.contains(f));
                let m = choose|m: int| 0 <= m < a.len() && a[m] == f;
                assert(a0[m] == f);
            }
        }
        assert forall|x: int, y: int| 0 <= x < y < a0.len()
            implies (#[trigger] a0[x]).ord_key().spec_lt(
            (#[trigger] a0[y]).ord_key(),
        ) by {
            assert(a[x].ord_key().spec_lt(a[y].ord_key()));
        }
        assert forall|x: int, y: int| 0 <= x < y < b0.len()
            implies (#[trigger] b0[x]).ord_key().spec_lt(
            (#[trigger] b0[y]).ord_key(),
        ) by {
            assert(b[x].ord_key().spec_lt(b[y].ord_key()));
        }
        lemma_ordered_files_are_unique(a0, b0);
        assert(a =~= a0.push(a.last()));
        assert(b =~= b0.push(b.last()));
    }
}

/// Replay restores what was written: replaying the log entry of a write
/// puts the same rows into the memtables as the write itself did.
pub proof fn lemma_replay_restores_write(
    before: TableVersion,
    written: TableVersion,
    replayed: TableVersion,
    entry: LogEntry,
    target: ReplayTarget,
)
    requires
        is_write_of(entry, target),
        stored_rows(written) == stored_rows(before).add(
            stamped(entry.payload->row_group.rows@, entry.sequence).to_multiset(),
        ),
        stored_rows(replayed) == stored_rows(before).add(
            replayed_rows(seq![entry], target),
        ),
    ensures
        stored_rows(replayed) == stored_rows(written),
{
    broadcast use vstd::multiset::group_multiset_axioms;

    let entries = seq![entry];
    assert(entries.drop_last() =~= Seq::<LogEntry>::empty());
    assert(entries.last() == entry);
    assert(replayed_rows(entries.drop_last(), target) =~= vstd::multiset::Multiset::<
        Entry,
    >::empty());
    assert(replayed_rows(entries, target) =~= rows_of_entry(entry).to_multiset());
}

/// The rows that the writes of a log have put into the memtables of their
/// table, write after write.
pub open spec fn written_rows(entries: Seq<LogEntry>) -> vstd::multiset::Multiset<Entry>
    decreases entries.len(),
{
    if entries.len() == 0 {
        vstd::multiset::Multiset::empty()
    } else {
        written_rows(entries.drop_last()).add(rows_of_entry(entries.last()).to_multiset())
    }
}

/// Every entry is a write to the table under its version of the schema.
pub open spec fn all_writes_of(entries: Seq<LogEntry>, target: ReplayTarget) -> bool {
    forall|k: int| 0 <= k < entries.len() ==> is_write_of(#[trigger] entries[k], target)
}

/// A replay of a log whose entries are all writes to the table under its
/// version of the schema puts into the memtables what the writes had put.
pub proof fn lemma_replay_restores_log(entries: Seq<LogEntry>, target: ReplayTarget)
    requires
        all_writes_of(entries, target),
    ensures
        replayed_rows(entries, target) == written_rows(entries),
    decreases entries.len(),
{
    if entries.len() > 0 {
        let rest = entries.drop_last();
        assert forall|k: int| 0 <= k < rest.len() implies is_write_of(
            #[trigger] rest[k],
            target,
        ) by {
            assert(rest[k] == entries[k]);
        }
        lemma_replay_restores_log(rest, target);
        assert(is_write_of(entries[entries.len() - 1], target));
    }
}

/// A log replayed batch after batch puts the same rows into the memtables
/// as the log replayed as a whole.
pub proof fn lemma_replay_in_batches(
    first: Seq<LogEntry>,
    second: Seq<LogEntry>,
    target: ReplayTarget,
)
    ensures
        replayed_rows(first + second, target) == replayed_rows(first, target).add(
            replayed_rows(second, target),
        ),
    decreases second.len(),
{
    broadcast use vstd::multiset::group_multiset_axioms;

    if second.len() == 0 {
        assert(first + second =~= first);
        assert(replayed_rows(first, target).add(replayed_rows(second, target)) =~= replayed_rows(
            first,
            target,
        ));
    } else {
        let whole = first + second;
        assert(whole.drop_last() =~= first + second.drop_last());
        assert(whole.last() == second.last());
        lemma_replay_in_batches(first, second.drop_last(), target);
        assert(replayed_rows(whole, target) =~= replayed_rows(first, target).add(
            replayed_rows(second, target),
        ));
    }
}

/// A table that is opened again holds what it held. Where a table held, on
/// top of what its files hold, the rows of the writes of its log, and it is
/// opened again from its files and the log is replayed, in two batches or
/// in one, it holds the same rows in its memtables as before.
pub proof fn lemma_reopened_table_holds_the_same_rows(
    recovered: TableVersion,
    before: TableVersion,
    midway: TableVersion,
    reopened: TableVersion,
    first: Seq<LogEntry>,
    second: Seq<LogEntry>,
    target: ReplayTarget,
)
    requires
        all_writes_of(first + second, target),
        stored_rows(before) == stored_rows(recovered).add(written_rows(first + second)),
        stored_rows(midway) == stored_rows(recovered).add(replayed_rows(first, target)),
        stored_rows(reopened) == stored_rows(midway).add(replayed_rows(second, target)),
    ensures
        stored_rows(reopened) == stored_rows(before),
{
    broadcast use vstd::multiset::group_multiset_axioms;

    lemma_replay_in_batches(first, second, target);
    lemma_replay_restores_log(first + second, target);
    assert(stored_rows(reopened) =~= stored_rows(before));
}

/// The last sequence number of a table after a replay is that of the last
/// entry of the batch, where every entry is of the table and the sequence
/// numbers ascend from above the table's own: entries that are skipped or
/// passed over count as well.
pub proof fn lemma_replay_ends_at_the_last_entry(
    entries: Seq<LogEntry>,
    table_id: u64,
    floor: u64,
)
    requires
        entries.len() > 0,
        forall|k: int| 0 <= k < entries.len() ==> (#[trigger] entries[k]).table_id == table_id,
        forall|i: int, j: int|
            0 <= i < j < entries.len() ==> (#[trigger] entries[i]).sequence < (
            #[trigger] entries[j]).sequence,
        floor < entries[0].sequence,
    ensures
        highest_sequence(entries, table_id, floor) == entries.last().sequence,
    decreases entries.len(),
{
    let rest = entries.drop_last();
    if rest.len() > 0 {
        assert forall|k: int| 0 <= k < rest.len() implies (#[trigger] rest[k]).table_id
            == table_id by {
            assert(rest[k] == entries[k]);
        }
        assert forall|i: int, j: int| 0 <= i < j < rest.len() implies (#[trigger] rest[i]).sequence
            < (#[trigger] rest[j]).sequence by {
            assert(rest[i] == entries[i]);
            assert(rest[j] == entries[j]);
        }
        assert(rest[0] == entries[0]);
        lemma_replay_ends_at_the_last_entry(rest, table_id, floor);
        assert(rest.last() == entries[entries.len() - 2]);
        assert(entries[entries.len() - 2].sequence < entries[entries.len() - 1].sequence);
        assert(entries.last().table_id == table_id);
    } else {
        assert(entries.last() == entries[0]);
        assert(entries[0].table_id == table_id);
        assert(highest_sequence(rest, table_id, floor) == floor);
    }
}

/// The last sequence number of a table never goes back in a replay, and is
/// not below that of any entry of the table.
pub proof fn lemma_replay_keeps_the_greatest_sequence(
    entries: Seq<LogEntry>,
    table_id: u64,
    floor: u64,
)
    ensures
        highest_sequence(entries, table_id, floor) >= floor,
        forall|k: int|
            0 <= k < entries.len() && (#[trigger] entries[k]).table_id == table_id
                ==> entries[k].sequence <= highest_sequence(entries, table_id, floor),
    decreases entries.len(),
{
    if entries.len() > 0 {
        let rest = entries.drop_last();
        lemma_replay_keeps_the_greatest_sequence(rest, table_id, floor);
        assert forall|k: int|
            0 <= k < entries.len() && (#[trigger] entries[k]).table_id == table_id
            implies entries[k].sequence <= highest_sequence(entries, table_id, floor) by {
            if k < rest.len() {
                assert(rest[k] == entries[k]);
            }
        }
    }
}

/// No two rows share a key and the sequence number of their write, unless
/// they are the same row.
pub open spec fn unique_writes(entries: Seq<Entry>) -> bool {
    forall|i: int, j: int|
        0 <= i < entries.len() && 0 <= j < entries.len() ==> #[trigger] same_if_same_write(
            entries[i],
            entries[j],
        )
}

/// The two rows are the same row, or differ in their key or in the sequence
/// number of their write.
pub open spec fn same_if_same_write(x: Entry, y: Entry) -> bool {
    x.key == y.key && x.sequence == y.sequence ==> x == y
}

/// Two streams in strictly ascending order of their keys that hold the same
/// rows are the same stream.
pub proof fn lemma_ascending_rows_are_unique(a: Seq<Entry>, b: Seq<Entry>)
    requires
        strictly_ascending(a),
        strictly_ascending(b),
        forall|x: Entry| a.contains(x) <==> b.contains(x),
    ensures
        a == b,
    decreases a.len(),
{
    if a.len() == 0 {
        if b.len() > 0 {
            assert(b.contains(b[0]));
        }
        assert(a =~= b);
    } else {
        assert(a.contains(a.last()));
        let j = choose|j: int| 0 <= j < b.len() && b[j] == a.last();
        assert(b.contains(b.last()));
        let i = choose|i: int| 0 <= i < a.len() && a[i] == b.last();
        if i < a.len() - 1 {
            assert(a[i].key.spec_lt(a[a.len() - 1].key));
        }
        if j < b.len() - 1 {
            assert(b[j].key.spec_lt(b[b.len() - 1].key));
        }
        assert(a.last() == b.last());
        let a0 = a.drop_last();
        let b0 = b.drop_last();
        assert forall|x: Entry| a0.contains(x) <==> b0.contains(x) by {
            if a0.contains(x) {
                let k = choose|k: int| 0 <= k < a0.len() && a0[k] == x;
                assert(a[k] == x);
                assert(a[k].key.spec_lt(a[a.len() - 1].key));
                assert(a.contains(x));
                let m = choose|m: int| 0 <= m < b.len() && b[m] == x;
                assert(b0[m] == x);
            }
            if b0.contains(x) {
                let k = choose|k: int| 0 <= k < b0.len() && b0[k] == x;
                assert(b[k] == x);
                assert(b[k].key.spec_lt(b[b.len() - 1].key));
                assert(b.contains(x));
                let m = choose|m: int| 0 <= m < a.len() && a[m] == x;
                assert(a0[m] == x);
            }
        }
        assert forall|x: int, y: int| 0 <= x < y < a0.len() implies (#[trigger] a0[x]).key.spec_lt(
            (#[trigger] a0[y]).key,
        ) by {
            assert(a[x].key.spec_lt(a[y].key));
        }
        assert forall|x: int, y: int| 0 <= x < y < b0.len() implies (#[trigger] b0[x]).key.spec_lt(
            (#[trigger] b0[y]).key,
        ) by {
            assert(b[x].key.spec_lt(b[y].key));
        }
        lemma_ascending_rows_are_unique(a0, b0);
        assert(a =~= a0.push(a.last()));
        assert(b =~= b0.push(b.last()));
    }
}

proof fn lemma_drawn_row(entries: Seq<Entry>, out: Seq<Entry>, x: Entry)
    requires
        is_drawn(entries, out),
        out.contains(x),
    ensures
        entries.contains(x),
{
    reveal(is_drawn);
    let i = choose|i: int| 0 <= i < out.len() && out[i] == x;
    assert(entries.contains(out[i]));
}

proof fn lemma_covered_row(entries: Seq<Entry>, out: Seq<Entry>, e: Entry) -> (j: int)
    requires
        is_covering(entries, out),
        entries.contains(e),
    ensures
        0 <= j < out.len(),
        out[j].key == e.key,
        out[j].sequence >= e.sequence,
{
    reveal(is_covering);
    let p = choose|p: int| 0 <= p < entries.len() && entries[p] == e;
    assert(holds_latest_of(out, entries[p]));
    choose|j: int| 0 <= j < out.len() && (#[trigger] out[j]).key == e.key
        && out[j].sequence >= e.sequence
}

proof fn lemma_one_row_of_a_key(out: Seq<Entry>, i: int, k: int)
    requires
        strictly_ascending(out),
        0 <= i < out.len(),
        0 <= k < out.len(),
        out[i].key == out[k].key,
    ensures
        i == k,
{
    if k < i {
        assert(out[k].key.spec_lt(out[i].key));
    } else if i < k {
        assert(out[i].key.spec_lt(out[k].key));
    }
}

proof fn lemma_same_write(entries: Seq<Entry>, x: Entry, y: Entry)
    requires
        unique_writes(entries),
        entries.contains(x),
        entries.contains(y),
        x.key == y.key,
        x.sequence == y.sequence,
    ensures
        x == y,
{
    let p = choose|p: int| 0 <= p < entries.len() && entries[p] == x;
    let q = choose|q: int| 0 <= q < entries.len() && entries[q] == y;
    assert(same_if_same_write(entries[p], entries[q]));
}

/// Every row of `a` is a row of `b`, where both keep the latest rows of the
/// same stream.
proof fn lemma_latest_rows_agree(entries: Seq<Entry>, a: Seq<Entry>, b: Seq<Entry>, x: Entry)
    requires
        strictly_ascending(a),
        is_drawn(entries, a),
        is_drawn(entries, b),
        is_covering(entries, a),
        is_covering(entries, b),
        unique_writes(entries),
        a.contains(x),
    ensures
        b.contains(x),
{
    let i = choose|i: int| 0 <= i < a.len() && a[i] == x;
    lemma_drawn_row(entries, a, x);
    let j = lemma_covered_row(entries, b, x);
    let y = b[j];
    assert(b.contains(y));
    lemma_drawn_row(entries, b, y);
    let k = lemma_covered_row(entries, a, y);
    lemma_one_row_of_a_key(a, i, k);
    lemma_same_write(entries, x, y);
}

#[verifier::opaque]
spec fn is_drawn(entries: Seq<Entry>, out: Seq<Entry>) -> bool {
    drawn_from(entries, out)
}

#[verifier::opaque]
spec fn is_covering(entries: Seq<Entry>, out: Seq<Entry>) -> bool {
    covers(entries, out)
}

proof fn lemma_wrap(entries: Seq<Entry>, out: Seq<Entry>)
    requires
        keeps_latest(entries, out),
    ensures
        strictly_ascending(out),
        is_drawn(entries, out),
        is_covering(entries, out),
{
    reveal(is_drawn);
    reveal(is_covering);
}

proof fn lemma_wrapped_rows_are_unique(entries: Seq<Entry>, a: Seq<Entry>, b: Seq<Entry>)
    requires
        strictly_ascending(a),
        strictly_ascending(b),
        is_drawn(entries, a),
        is_drawn(entries, b),
        is_covering(entries, a),
        is_covering(entries, b),
        unique_writes(entries),
    ensures
        a == b,
{
    assert forall|x: Entry| a.contains(x) <==> b.contains(x) by {
        if a.contains(x) {
            lemma_latest_rows_agree(entries, a, b, x);
        }
        if b.contains(x) {
            lemma_latest_rows_agree(entries, b, a, x);
        }
    }
    lemma_ascending_rows_are_unique(a, b);
}

/// What a sorted read hands out is determined by the rows it reads: two
/// streams that keep the latest row of each key of the same rows are the same
/// stream, where no two rows of a key were written at one sequence number.
pub proof fn lemma_latest_rows_are_unique(entries: Seq<Entry>, a: Seq<Entry>, b: Seq<Entry>)
    requires
        keeps_latest(entries, a),
        keeps_latest(entries, b),
        unique_writes(entries),
    ensures
        a == b,
{
    lemma_wrap(entries, a);
    lemma_wrap(entries, b);
    lemma_wrapped_rows_are_unique(entries, a, b);
}

/// A row of all sequences put together is a row of one of them.
pub proof fn lemma_flatten_contains_rev(sources: Seq<Seq<Entry>>, e: Entry) -> (s: int)
    requires
        sources.flatten().contains(e),
    ensures
        0 <= s < sources.len(),
        sources[s].contains(e),
    decreases sources.len(),
{
    let i = choose|i: int| 0 <= i < sources.flatten().len() && sources.flatten()[i] == e;
    let first = sources.first();
    let rest = sources.drop_first();
    if sources.len() == 0 {
        0
    } else if i < first.len() {
        assert(first[i] == e);
        0
    } else {
        assert(rest.flatten()[i - first.len()] == e);
        let s = lemma_flatten_contains_rev(rest, e);
        assert(sources[s + 1] == rest[s]);
        s + 1
    }
}

/// Compaction keeps reads as they were: a sorted read of the compacted file
/// in place of its inputs hands out what a sorted read of the inputs handed
/// out, beside any other sources. No two rows of a key may have been written
/// at one sequence number.
pub proof fn lemma_compaction_keeps_reads(
    others: Seq<Seq<Entry>>,
    inputs: Seq<Seq<Entry>>,
    compacted: Seq<Entry>,
    read_before: Seq<Entry>,
    read_after: Seq<Entry>,
)
    requires
        keeps_latest(inputs.flatten(), compacted),
        keeps_latest((others + inputs).flatten(), read_before),
        keeps_latest((others + seq![compacted]).flatten(), read_after),
        unique_writes((others + inputs).flatten()),
    ensures
        read_after == read_before,
{
    let before = others + inputs;
    let after = others + seq![compacted];
    assert forall|i: int| 0 <= i < read_after.len() implies before.flatten().contains(
        #[trigger] read_after[i],
    ) by {
        let x = read_after[i];
        assert(after.flatten().contains(x));
        let s = lemma_flatten_contains_rev(after, x);
        if s < others.len() {
            assert(before[s] == after[s]);
            lemma_flatten_contains(before, s, x);
        } else {
            assert(after[s] == compacted);
            let j = choose|j: int| 0 <= j < compacted.len() && compacted[j] == x;
            assert(inputs.flatten().contains(compacted[j]));
            let t = lemma_flatten_contains_rev(inputs, x);
            assert(before[others.len() + t] == inputs[t]);
            lemma_flatten_contains(before, others.len() + t, x);
        }
    }
    assert forall|j: int| 0 <= j < before.flatten().len() implies holds_latest_of(
        read_after,
        #[trigger] before.flatten()[j],
    ) by {
        let e = before.flatten()[j];
        assert(before.flatten().contains(e));
        let s = lemma_flatten_contains_rev(before, e);
        if s < others.len() {
            assert(after[s] == before[s]);
            lemma_flatten_contains(after, s, e);
            let p = choose|p: int| 0 <= p < after.flatten().len() && after.flatten()[p] == e;
            assert(holds_latest_of(read_after, after.flatten()[p]));
        } else {
            assert(before[s] == inputs[s - others.len()]);
            lemma_flatten_contains(inputs, s - others.len(), e);
            let q = choose|q: int| 0 <= q < inputs.flatten().len() && inputs.flatten()[q] == e;
            assert(holds_latest_of(compacted, inputs.flatten()[q]));
            let c = choose|c: int|
                0 <= c < compacted.len() && (#[trigger] compacted[c]).key == e.key
                    && compacted[c].sequence >= e.sequence;
            assert(compacted.contains(compacted[c]));
            assert(after[others.len() as int] == compacted);
            lemma_flatten_contains(after, others.len() as int, compacted[c]);
            let p = choose|p: int|
                0 <= p < after.flatten().len() && after.flatten()[p] == compacted[c];
            assert(holds_latest_of(read_after, after.flatten()[p]));
            let o = choose|o: int|
                0 <= o < read_after.len() && (#[trigger] read_after[o]).key == compacted[c].key
                    && read_after[o].sequence >= compacted[c].sequence;
            assert(read_after[o].key == e.key && read_after[o].sequence >= e.sequence);
        }
    }
    lemma_latest_rows_are_unique(before.flatten(), read_after, read_before);
}

/// A row is among the rows of the memtables exactly where one of the
/// memtables holds it.
pub proof fn lemma_rows_of_holds(mems: Seq<MemTable>, x: Entry)
    ensures
        rows_of(mems).count(x) > 0 <==> exists|i: int|
            0 <= i < mems.len() && (#[trigger] mems[i]).entries@.contains(x),
    decreases mems.len(),
{
    broadcast use vstd::multiset::group_multiset_axioms;

    if mems.len() > 0 {
        let rest = mems.drop_last();
        lemma_rows_of_holds(rest, x);
        mems.last().entries@.to_multiset_ensures();
        if rows_of(mems).count(x) > 0 {
            if rows_of(rest).count(x) > 0 {
                let i = choose|i: int| 0 <= i < rest.len()
                    && (#[trigger] rest[i]).entries@.contains(x);
                assert(mems[i].entries@.contains(x));
            } else {
                assert(mems[mems.len() - 1].entries@.contains(x));
            }
        }
        if exists|i: int| 0 <= i < mems.len() && (#[trigger] mems[i]).entries@.contains(x) {
            let i = choose|i: int| 0 <= i < mems.len() && (#[trigger] mems[i]).entries@.contains(x);
            if i < mems.len() - 1 {
                assert(rest[i].entries@.contains(x));
            }
        }
    }
}

/// A row is among the rows that a version holds in memory exactly where one
/// of its memtables holds it.
pub proof fn lemma_stored_rows_hold(version: TableVersion, x: Entry)
    ensures
        stored_rows(version).count(x) > 0 <==> exists|mem: MemTable|
            is_mem_of(version, mem) && #[trigger] mem.entries@.contains(x),
{
    broadcast use vstd::multiset::group_multiset_axioms;

    lemma_rows_of_holds(version.memtables@, x);
    if version.sampling_mem is Some {
        version.sampling_mem->Some_0.entries@.to_multiset_ensures();
    }
    if stored_rows(version).count(x) > 0 {
        if rows_of(version.memtables@).count(x) > 0 {
            let i = choose|i: int|
                0 <= i < version.memtables@.len() && (
                #[trigger] version.memtables@[i]).entries@.contains(x);
            let mem = version.memtables@[i];
            assert(version.memtables@.contains(mem));
            assert(is_mem_of(version, mem) && mem.entries@.contains(x));
        } else {
            let mem = version.sampling_mem->Some_0;
            assert(is_mem_of(version, mem) && mem.entries@.contains(x));
        }
    }
    if exists|mem: MemTable| is_mem_of(version, mem) && #[trigger] mem.entries@.contains(x) {
        let mem = choose|mem: MemTable| is_mem_of(version, mem)
            && #[trigger] mem.entries@.contains(x);
        if version.sampling_mem != Some(mem) {
            let i = choose|i: int|
                0 <= i < version.memtables@.len() && version.memtables@[i] == mem;
            assert(version.memtables@[i].entries@.contains(x));
        }
    }
}

/// No row that a table holds in memory is of a write after the last.
pub proof fn lemma_stored_row_is_bounded(table: TableData, x: Entry)
    requires
        table.wf(),
        stored_rows(table.version).count(x) > 0,
    ensures
        x.sequence <= table.last_sequence,
{
    lemma_stored_rows_hold(table.version, x);
    let mem = choose|mem: MemTable|
        is_mem_of(table.version, mem) && #[trigger] mem.entries@.contains(x);
    let at = choose|at: int| 0 <= at < mem.entries@.len() && mem.entries@[at] == x;
    if table.version.sampling_mem == Some(mem) {
        assert(mem.wf());
        assert(mem.entries@[at].sequence <= mem.last_sequence);
    } else {
        let i = choose|i: int|
            0 <= i < table.version.memtables@.len() && table.version.memtables@[i] == mem;
        assert(table.version.memtables@[i].wf());
        assert(mem.entries@[at].sequence <= mem.last_sequence);
        assert(table.version.memtables@[i].last_sequence <= table.last_sequence);
    }
}

/// Each source of the files is empty or holds the rows of an entry of the
/// store.
proof fn lemma_level_source_origin(leveled: Seq<Vec<FileHandle>>, store: Seq<SstData>, s: int)
    requires
        0 <= s < level_sources(leveled, store).len(),
    ensures
        level_sources(leveled, store)[s].len() == 0 || exists|i: int|
            0 <= i < store.len() && (#[trigger] store[i]).rows@ == level_sources(leveled, store)[s],
    decreases leveled.len(),
{
    if leveled.len() > 0 {
        let rest = level_sources(leveled.drop_last(), store);
        let last = file_sources(leveled.last()@, store);
        if s < rest.len() {
            lemma_level_source_origin(leveled.drop_last(), store, s);
            assert((rest + last)[s] == rest[s]);
        } else {
            let f = leveled.last()@[s - rest.len()];
            assert((rest + last)[s] == last[s - rest.len()]);
            if sst_rows(store, f.spec_id()).is_some() {
                lemma_sst_rows_in_store(store, f.spec_id());
            }
        }
    }
}

/// Each source of a part of a read is empty, or holds the rows of a memtable
/// of the version, or those of an entry of the store.
proof fn lemma_source_origin(
    parts: Seq<ReadView>,
    version: TableVersion,
    time_range: TimeRange,
    segment: Option<i64>,
    store: Seq<SstData>,
    k: int,
    s: int,
    expire_time: Option<Timestamp>,
)
    requires
        is_partition_of(parts, version, time_range, expire_time, segment),
        0 <= k < parts.len(),
        0 <= s < view_sources(parts[k], store).len(),
    ensures
        ({
            let source = view_sources(parts[k], store)[s];
            ||| source.len() == 0
            ||| exists|mem: MemTable| is_mem_of(version, mem) && #[trigger] mem.entries@ == source
            ||| exists|i: int| 0 <= i < store.len() && (#[trigger] store[i]).rows@ == source
        }),
{
    let part = parts[k];
    lemma_part_mems_are_of_version(parts, version, time_range, segment, k, expire_time);
    let head: Seq<Seq<Entry>> = match part.sampling_mem {
        Some(mem) => seq![mem.entries@],
        None => Seq::empty(),
    };
    let mems = mem_sources(part.memtables@);
    let files = level_sources(part.leveled_ssts@, store);
    let source = view_sources(part, store)[s];
    if s < head.len() {
        let mem = version.sampling_mem->Some_0;
        assert(source == head[s]);
        assert(is_mem_of(version, mem) && mem.entries@ == source);
    } else if s < head.len() + mems.len() {
        let j = s - head.len();
        assert(source == mems[j]);
        let mem = *part.memtables@[j];
        assert(is_mem_of(version, mem) && mem.entries@ == source);
    } else {
        let j = s - head.len() - mems.len();
        assert(source == files[j]);
        lemma_level_source_origin(part.leveled_ssts@, store, j);
    }
}

/// Every row of a sorted stream of a part is a row of one of its sources.
proof fn lemma_iter_row_is_drawn(iter: Seq<Entry>, sources: Seq<Seq<Entry>>, reverse: bool, j: int)
    requires
        is_merged_read(iter, sources, reverse),
        0 <= j < iter.len(),
    ensures
        sources.flatten().contains(iter[j]),
{
    let forward = if reverse {
        iter.reverse()
    } else {
        iter
    };
    let at = if reverse {
        iter.len() - 1 - j
    } else {
        j
    };
    assert(forward[at] == iter[j]);
    assert(sources.flatten().contains(forward[at]));
}

/// Every row of every entry of the store is of a write before `sequence`.
pub open spec fn store_is_older(store: Seq<SstData>, sequence: u64) -> bool {
    forall|i: int, j: int|
        0 <= i < store.len() && 0 <= j < store[i].rows@.len()
            ==> (#[trigger] store[i].rows@[j]).sequence
            < sequence
}

/// No two of the rows share a key.
pub open spec fn distinct_keys(rows: Seq<KeyedRow>) -> bool {
    forall|a: int, b: int| 0 <= a < b < rows.len()
        ==> (#[trigger] rows[a]).key != (#[trigger] rows[b]).key
}

/// What is written is read back: after a write of rows with distinct keys, a
/// sorted read whose time range holds the time of one of the rows hands that
/// row out on one of its lanes, as written. The write must be the latest of
/// the table, and the store must hold its rows in order, all of them of
/// earlier writes.
pub proof fn lemma_read_returns_written_row(
    before: TableData,
    after: TableData,
    rows: Seq<KeyedRow>,
    sequence: u64,
    request: ReadRequest,
    store: Seq<SstData>,
    parts: Seq<ReadView>,
    iters: Seq<Vec<Entry>>,
    streams: Seq<Vec<Entry>>,
    i: int,
    expire_time: Option<Timestamp>,
)
    requires
        before.wf(),
        after.wf(),
        before.last_sequence < sequence,
        after.last_sequence == sequence,
        distinct_keys(rows),
        0 <= i < rows.len(),
        stored_rows(after.version) == stored_rows(before.version).add(
            stamped(rows, sequence).to_multiset(),
        ),
        row_landed(after.version, stamped(rows, sequence)[i], after.opts.segment_duration),
        after.opts.spec_need_dedup() || request.order.spec_is_in_order(),
        request.opts.read_parallelism > 0,
        request.time_range.spec_contains(rows[i].key.timestamp),
        store_sorted(store),
        store_is_older(store, sequence),
        is_partition_of(
            parts,
            after.version,
            request.time_range,
            expire_time,
            after.opts.segment_duration,
        ),
        are_iters_of(iters, after, request, store, parts),
        are_lanes_of(streams, iters, request),
    ensures
        exists|lane: int, j: int|
            0 <= lane < streams.len() && 0 <= j < streams[lane]@.len()
                && #[trigger] streams[lane]@[j] == stamped(rows, sequence)[i],
{
    broadcast use vstd::multiset::group_multiset_axioms;

    let written = stamped(rows, sequence);
    let e = written[i];
    let segment = after.opts.segment_duration;
    // The memtable in which the row has landed.
    let mem = if after.version.sampling_mem matches Some(m) && m.entries@.contains(e) {
        after.version.sampling_mem->Some_0
    } else {
        let k = choose|k: int|
            0 <= k < after.version.memtables@.len() && landed_in(
                #[trigger] after.version.memtables@[k],
                e,
                segment->Some_0,
            );
        after.version.memtables@[k]
    };
    assert(is_mem_of(after.version, mem) && mem.entries@.contains(e)) by {
        if !(after.version.sampling_mem matches Some(m) && m.entries@.contains(e)) {
            assert(after.version.memtables@.contains(mem));
        }
    }
    let (k, j) = lemma_row_is_in_a_part(after, request, store, parts, iters, mem, e, expire_time);
    let r = iters[k]@[j];
    let sources = view_sources(parts[k], store);
    lemma_iter_row_is_drawn(iters[k]@, sources, request.order.spec_is_in_desc_order(), j);
    let s = lemma_flatten_contains_rev(sources, r);
    lemma_source_origin(
        parts,
        after.version,
        request.time_range,
        segment,
        store,
        k,
        s,
        expire_time,
    );
    let source = sources[s];
    let at = choose|at: int| 0 <= at < source.len() && source[at] == r;
    if exists|w: int| 0 <= w < store.len() && (#[trigger] store[w]).rows@ == source {
        let w = choose|w: int| 0 <= w < store.len() && (#[trigger] store[w]).rows@ == source;
        assert(store[w].rows@[at].sequence < sequence);
    }
    // The row was read from a memtable: it is a row of the write.
    let origin = choose|origin: MemTable|
        is_mem_of(after.version, origin) && #[trigger] origin.entries@ == source;
    assert(origin.entries@.contains(r));
    lemma_stored_rows_hold(after.version, r);
    assert(stored_rows(after.version).count(r) > 0);
    if stored_rows(before.version).count(r) > 0 {
        lemma_stored_row_is_bounded(before, r);
    }
    written.to_multiset_ensures();
    assert(written.to_multiset().count(r) > 0);
    assert(written.contains(r));
    let p = choose|p: int| 0 <= p < written.len() && written[p] == r;
    assert(rows[p].key == rows[i].key);
    assert(p == i) by {
        if p < i {
            assert(rows[p].key != rows[i].key);
        } else if i < p {
            assert(rows[i].key != rows[p].key);
        }
    }
    let (lane, q) = lemma_row_reaches_its_lane(iters, streams, request, k, j);
    assert(streams[lane]@[q] == written[i]);
}

} // verus!
