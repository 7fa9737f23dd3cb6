//! The state of one table.

use crate::entry::{Entry, KeyedRow};
use crate::memtable::{MemTable, MemTableId};
use crate::schema::{Schema, Version};
use crate::sst::file::{purge_of, FilePurgeQueue, Request};
use crate::manifest::AddTableMeta;
use crate::sst::file::{has_file_id, FileHandle};
use crate::table::version::{
    added_on, mem_id_not_in, version_has_file, AddFile, DeleteFile, MemTableForWrite, TableVersion,
    TableVersionMeta, VersionEdit, MAX_LEVEL,
};
use crate::table_options::TableOptions;
use crate::time::bucket_start;
use crate::types::{FileId, SequenceNumber, ShardId, SpaceId, TableId};
use vstd::multiset::Multiset;
use vstd::prelude::*;
use vstd::seq_lib::*;

verus! {

/// The shard that a table belongs to.
#[derive(Clone, Copy, Debug, PartialEq, Eq, Structural)]
pub struct TableShardInfo {
    pub shard_id: ShardId,
}

/// Where the log of a table is found.
#[derive(Clone, Copy, Debug, PartialEq, Eq, Structural)]
pub struct TableLocation {
    pub id: TableId,
    pub shard_info: TableShardInfo,
}

/// The rows of the memtables, as a multiset.
pub open spec fn rows_of(mems: Seq<MemTable>) -> Multiset<Entry>
    decreases mems.len(),
{
    if mems.len() == 0 {
        Multiset::empty()
    } else {
        rows_of(mems.drop_last()).add(mems.last().entries@.to_multiset())
    }
}

/// The rows that the version holds in memory, as a multiset.
pub open spec fn stored_rows(version: TableVersion) -> Multiset<Entry> {
    match version.sampling_mem {
        Some(mem) => rows_of(version.memtables@).add(mem.entries@.to_multiset()),
        None => rows_of(version.memtables@),
    }
}

/// The rows as stored by the write of that sequence number.
pub open spec fn stamped(rows: Seq<KeyedRow>, sequence: SequenceNumber) -> Seq<Entry> {
    rows.map_values(|row: KeyedRow| Entry { key: row.key, sequence, value: row.value })
}

/// A memtable without rows adds nothing to the rows of the memtables.
pub proof fn lemma_rows_of_push_empty(mems: Seq<MemTable>, mem: MemTable)
    requires
        mem.entries@.len() == 0,
    ensures
        rows_of(mems.push(mem)) == rows_of(mems),
{
    broadcast use vstd::multiset::group_multiset_axioms;

    assert(mems.push(mem).drop_last() =~= mems);
    mem.entries@.to_multiset_ensures();
    assert(mem.entries@.to_multiset().len() == 0);
    assert(mem.entries@.to_multiset() =~= Multiset::<Entry>::empty());
    assert(rows_of(mems.push(mem)) =~= rows_of(mems));
}

/// A row more in one memtable is a row more among the rows of the memtables.
pub proof fn lemma_rows_of_put(before: Seq<MemTable>, after: Seq<MemTable>, at: int, entry: Entry)
    requires
        0 <= at < before.len(),
        after.len() == before.len(),
        forall|k: int| 0 <= k < before.len() && k != at ==> #[trigger] after[k] == before[k],
        after[at].entries@.to_multiset() == before[at].entries@.to_multiset().insert(entry),
    ensures
        rows_of(after) == rows_of(before).insert(entry),
    decreases before.len(),
{
    broadcast use vstd::multiset::group_multiset_axioms;

    let n = before.len() as int;
    if at == n - 1 {
        assert(after.drop_last() =~= before.drop_last());
        assert(rows_of(after) =~= rows_of(before).insert(entry));
    } else {
        assert(after.last() == before.last());
        lemma_rows_of_put(before.drop_last(), after.drop_last(), at, entry);
        assert(rows_of(after) =~= rows_of(before).insert(entry));
    }
}

/// The row stands in the memtable of its time bucket.
pub open spec fn landed_in(mem: MemTable, entry: Entry, segment: i64) -> bool {
    &&& mem.entries@.contains(entry)
    &&& mem.time_range.inclusive_start.0 == bucket_start(
        entry.key.timestamp.0 as int,
        segment as int,
    )
    &&& mem.time_range.exclusive_end.0 == mem.time_range.inclusive_start.0 + segment
}

/// The row stands in the sampling memtable, or in the memtable of its time
/// bucket.
pub open spec fn row_landed(version: TableVersion, entry: Entry, segment: Option<i64>) -> bool {
    ||| version.sampling_mem matches Some(mem) && mem.entries@.contains(entry)
    ||| segment matches Some(d) && exists|k: int|
        0 <= k < version.memtables@.len() && landed_in(#[trigger] version.memtables@[k], entry, d)
}

/// From `before` to `after` the version has only taken rows: its files are
/// the same, its memtables are still there, each with at least the rows it
/// had, and a write that could be taken before can be taken after, under
/// the segment duration given.
pub open spec fn grows(before: TableVersion, after: TableVersion, segment: Option<i64>) -> bool {
    &&& after.levels == before.levels
    &&& segment.is_none() ==> after.memtables@.len() == before.memtables@.len()
    &&& after.sampling_mem.is_none() ==> before.sampling_mem.is_none()
    &&& after.flushed_sequence == before.flushed_sequence
    &&& before.memtables@.len() <= after.memtables@.len()
    &&& forall|k: int|
        0 <= k < before.memtables@.len() ==> {
            &&& (#[trigger] after.memtables@[k]).id == before.memtables@[k].id
            &&& after.memtables@[k].time_range == before.memtables@[k].time_range
            &&& after.memtables@[k].frozen == before.memtables@[k].frozen
            &&& forall|e: Entry|
                before.memtables@[k].entries@.contains(e) ==> after.memtables@[k].entries@.contains(
                    e,
                )
        }
    &&& before.sampling_mem matches Some(mem) ==> after.sampling_mem matches Some(taken)
        && taken.frozen == mem.frozen && forall|e: Entry|
        mem.entries@.contains(e) ==> taken.entries@.contains(e)
    &&& before.sampling_mem.is_none() && after.sampling_mem.is_some()
        ==> !after.sampling_mem->Some_0.frozen
}

proof fn to_multiset_contains_entry(after: Seq<Entry>, before: Seq<Entry>, entry: Entry)
    requires
        after.to_multiset() == before.to_multiset().insert(entry),
    ensures
        after.contains(entry),
        forall|e: Entry| before.contains(e) ==> after.contains(e),
{
    broadcast use vstd::multiset::group_multiset_axioms;

    after.to_multiset_ensures();
    before.to_multiset_ensures();
    assert(after.to_multiset().count(entry) > 0);
    assert forall|e: Entry| before.contains(e) implies after.contains(e) by {
        assert(before.to_multiset().count(e) > 0);
        assert(after.to_multiset().count(e) > 0);
    }
}

/// The greatest id among the files and `floor`.
pub open spec fn greatest_file_id(files: Seq<AddFile>, floor: FileId) -> FileId
    decreases files.len(),
{
    if files.len() == 0 {
        floor
    } else {
        let rest = greatest_file_id(files.drop_last(), floor);
        if files.last().file.id > rest {
            files.last().file.id
        } else {
            rest
        }
    }
}

/// The greatest sequence number among the files and `floor`.
pub open spec fn greatest_sequence(files: Seq<AddFile>, floor: SequenceNumber) -> SequenceNumber
    decreases files.len(),
{
    if files.len() == 0 {
        floor
    } else {
        let rest = greatest_sequence(files.drop_last(), floor);
        if files.last().file.meta.max_sequence > rest {
            files.last().file.meta.max_sequence
        } else {
            rest
        }
    }
}

/// The files stand on levels that tables have, and no two share an id.
pub open spec fn files_are_new(files: Seq<AddFile>) -> bool {
    &&& forall|k: int| 0 <= k < files.len() ==> (#[trigger] files[k]).level < MAX_LEVEL
    &&& forall|j: int, k: int|
        0 <= j < k < files.len() ==> (#[trigger] files[j]).file.id != (#[trigger] files[k]).file.id
}

/// What the manifest holds is the state of a table.
pub open spec fn is_recoverable(table_meta: AddTableMeta, version_meta: Option<TableVersionMeta>)
    -> bool {
    &&& table_meta.opts.wf()
    &&& version_meta matches Some(meta) ==> files_are_new(meta.files@)
}

/// No file has an id or a sequence number above the greatest.
pub proof fn lemma_greatest_bounds(
    files: Seq<AddFile>,
    k: int,
    id_floor: FileId,
    sequence_floor: SequenceNumber,
)
    requires
        0 <= k < files.len(),
    ensures
        files[k].file.id <= greatest_file_id(files, id_floor),
        files[k].file.meta.max_sequence <= greatest_sequence(files, sequence_floor),
    decreases files.len(),
{
    if k < files.len() - 1 {
        lemma_greatest_bounds(files.drop_last(), k, id_floor, sequence_floor);
        assert(files.drop_last()[k] == files[k]);
    }
}

/// The greatest is not below the floor.
pub proof fn lemma_greatest_floor(
    files: Seq<AddFile>,
    id_floor: FileId,
    sequence_floor: SequenceNumber,
)
    ensures
        id_floor <= greatest_file_id(files, id_floor),
        sequence_floor <= greatest_sequence(files, sequence_floor),
    decreases files.len(),
{
    if files.len() > 0 {
        lemma_greatest_floor(files.drop_last(), id_floor, sequence_floor);
    }
}

/// Whether the files are new to a table without files, with the greatest id
/// and the greatest sequence number among them and the floors given.
pub fn check_files(files: &Vec<AddFile>, id_floor: FileId, sequence_floor: SequenceNumber) -> (r: (
    bool,
    FileId,
    SequenceNumber,
))
    ensures
        r.0 == files_are_new(files@),
        r.1 == greatest_file_id(files@, id_floor),
        r.2 == greatest_sequence(files@, sequence_floor),
{
    let mut max_id = id_floor;
    let mut max_sequence = sequence_floor;
    let mut fresh = true;
    let mut k: usize = 0;
    while k < files.len()
        invariant
            k <= files@.len(),
            fresh == files_are_new(files@.take(k as int)),
            max_id == greatest_file_id(files@.take(k as int), id_floor),
            max_sequence == greatest_sequence(files@.take(k as int), sequence_floor),
        decreases files@.len() - k,
    {
        let ghost seen = files@.take(k as int);
        let ghost next = files@.take(k + 1);
        proof {
            assert(next.drop_last() =~= seen);
            assert(next.last() == files@[k as int]);
        }
        let add = &files[k];
        let mut unique = true;
        let mut j: usize = 0;
        while j < k
            invariant
                j <= k,
                k < files@.len(),
                *add == files@[k as int],
                unique == forall|i: int| 0 <= i < j
                    ==> (#[trigger] files@[i]).file.id != add.file.id,
            decreases k - j,
        {
            if files[j].file.id == add.file.id {
                unique = false;
            }
            j += 1;
        }
        let level_ok = (add.level as usize) < MAX_LEVEL;
        proof {
            if fresh && unique && level_ok {
                assert forall|i: int| 0 <= i < next.len() implies (#[trigger] next[i]).level
                    < MAX_LEVEL by {
                    if i < k {
                        assert(seen[i] == next[i]);
                    }
                }
                assert forall|a: int, b: int| 0 <= a < b < next.len()
                    implies (#[trigger] next[a]).file.id
                    != (#[trigger] next[b]).file.id by {
                    if b < k {
                        assert(seen[a] == next[a]);
                        assert(seen[b] == next[b]);
                    } else {
                        assert(files@[a].file.id != add.file.id);
                    }
                }
            } else if !fresh {
                if files_are_new(next) {
                    assert forall|i: int| 0 <= i < seen.len() implies (#[trigger] seen[i]).level
                        < MAX_LEVEL by {
                        assert(seen[i] == next[i]);
                    }
                    assert forall|a: int, b: int| 0 <= a < b < seen.len() implies (
                    #[trigger] seen[a]).file.id != (#[trigger] seen[b]).file.id by {
                        assert(seen[a] == next[a]);
                        assert(seen[b] == next[b]);
                    }
                }
            } else if !unique {
                let i = choose|i: int| 0 <= i < k && (#[trigger] files@[i]).file.id == add.file.id;
                assert(next[i].file.id == next[k as int].file.id);
            } else {
                assert(next[k as int].level >= MAX_LEVEL);
            }
        }
        fresh = fresh && unique && level_ok;
        if add.file.id > max_id {
            max_id = add.file.id;
        }
        if add.file.meta.max_sequence > max_sequence {
            max_sequence = add.file.meta.max_sequence;
        }
        k += 1;
    }
    proof {
        assert(files@.take(files@.len() as int) =~= files@);
    }
    (fresh, max_id, max_sequence)
}

/// The edit fits the table: the files it adds are new to the table, stand on
/// levels that tables have, and keep within the counters of the table, and so
/// does its flushed sequence number.
pub open spec fn edit_fits(table: TableData, edit: VersionEdit) -> bool {
    adds_fit(table, edit.files_to_add@, edit.flushed_sequence)
}

/// The files are new to the table, stand on levels that tables have, and keep
/// within the counters of the table, and so does the flushed sequence number.
pub open spec fn adds_fit(table: TableData, adds: Seq<AddFile>, flushed_sequence: SequenceNumber)
    -> bool {
    &&& files_are_new(adds)
    &&& forall|k: int|
        0 <= k < adds.len() ==> {
            &&& !version_has_file(table.version.levels@, (#[trigger] adds[k]).file.id)
            &&& adds[k].file.id <= table.last_file_id
            &&& adds[k].file.meta.max_sequence <= table.last_sequence
        }
    &&& flushed_sequence <= table.last_sequence
}

/// The greatest id and the greatest sequence number are those of a file, or
/// the floor.
pub proof fn lemma_greatest_is_attained(files: Seq<AddFile>)
    ensures
        greatest_file_id(files, 0) == 0 || exists|k: int|
            0 <= k < files.len() && (#[trigger] files[k]).file.id == greatest_file_id(files, 0),
        greatest_sequence(files, 0) == 0 || exists|k: int|
            0 <= k < files.len() && (#[trigger] files[k]).file.meta.max_sequence
                == greatest_sequence(files, 0),
    decreases files.len(),
{
    if files.len() > 0 {
        let rest = files.drop_last();
        lemma_greatest_is_attained(rest);
        if greatest_file_id(files, 0) != 0 {
            if files.last().file.id > greatest_file_id(rest, 0) {
                assert(files[files.len() - 1].file.id == greatest_file_id(files, 0));
            } else {
                let k = choose|k: int|
                    0 <= k < rest.len()
                        && (#[trigger] rest[k]).file.id == greatest_file_id(rest, 0);
                assert(files[k].file.id == greatest_file_id(files, 0));
            }
        }
        if greatest_sequence(files, 0) != 0 {
            if files.last().file.meta.max_sequence > greatest_sequence(rest, 0) {
                assert(files[files.len() - 1].file.meta.max_sequence == greatest_sequence(
                    files,
                    0,
                ));
            } else {
                let k = choose|k: int|
                    0 <= k < rest.len() && (#[trigger] rest[k]).file.meta.max_sequence
                        == greatest_sequence(rest, 0);
                assert(files[k].file.meta.max_sequence == greatest_sequence(files, 0));
            }
        }
    }
}

/// The memtables that are left of those of a table in order are in order.
proof fn lemma_kept_memtables(
    table: TableData,
    kept: Seq<MemTable>,
    test: spec_fn(MemTable) -> bool,
)
    requires
        table.wf(),
        kept == table.version.memtables@.filter(test),
    ensures
        forall|i: int|
            0 <= i < kept.len() ==> (#[trigger] kept[i]).id <= table.last_memtable_id
                && kept[i].last_sequence <= table.last_sequence,
        forall|i: int, j: int| 0 <= i < j < kept.len()
            ==> (#[trigger] kept[i]).id != (#[trigger] kept[j]).id,
    decreases table.version.memtables@.len(),
{
    let all = table.version.memtables@;
    assert forall|i: int| 0 <= i < kept.len() implies (#[trigger] kept[i]).id
        <= table.last_memtable_id && kept[i].last_sequence <= table.last_sequence by {
        assert(kept.contains(kept[i]));
        all.lemma_filter_contains_rev(test, kept[i]);
        let k = choose|k: int| 0 <= k < all.len() && all[k] == kept[i];
        assert(all[k].id <= table.last_memtable_id);
    }
    lemma_filter_keeps_distinct_ids(all, test);
}

/// What is left of memtables of distinct ids has distinct ids.
proof fn lemma_filter_keeps_distinct_ids(all: Seq<MemTable>, test: spec_fn(MemTable) -> bool)
    requires
        forall|i: int, j: int| 0 <= i < j < all.len()
            ==> (#[trigger] all[i]).id != (#[trigger] all[j]).id,
    ensures
        forall|i: int, j: int|
            0 <= i < j < all.filter(test).len() ==> (#[trigger] all.filter(test)[i]).id != (
            #[trigger] all.filter(test)[j]).id,
    decreases all.len(),
{
    reveal(Seq::filter);
    if all.len() > 0 {
        let rest = all.drop_last();
        assert forall|i: int, j: int| 0 <= i < j < rest.len() implies (#[trigger] rest[i]).id != (
        #[trigger] rest[j]).id by {
            assert(all[i].id != all[j].id);
        }
        lemma_filter_keeps_distinct_ids(rest, test);
        let kept = rest.filter(test);
        if test(all.last()) {
            let out = kept.push(all.last());
            assert forall|i: int, j: int| 0 <= i < j < out.len() implies (#[trigger] out[i]).id != (
            #[trigger] out[j]).id by {
                if j == kept.len() {
                    assert(kept.contains(kept[i]));
                    rest.lemma_filter_contains_rev(test, kept[i]);
                    let k = choose|k: int| 0 <= k < rest.len() && rest[k] == kept[i];
                    assert(all[k].id != all[all.len() - 1].id);
                } else {
                    assert(kept[i].id != kept[j].id);
                }
            }
        }
    }
}

/// From `before` to `after` the edit has been applied: the flushed memtables
/// have left the version, the files that the edit deletes have left their
/// levels, the files that it adds have entered theirs, and the flushed
/// sequence number has moved on, never back. `requests` asks the purger once
/// for each file that the version holds no more, unless the queue is closed.
pub open spec fn is_applied(
    before: TableData,
    after: TableData,
    edit: VersionEdit,
    requests: Seq<Request>,
) -> bool {
    &&& after == (TableData { version: after.version, ..before })
    &&& after.version.flushed_sequence == if edit.flushed_sequence
        > before.version.flushed_sequence {
        edit.flushed_sequence
    } else {
        before.version.flushed_sequence
    }
    &&& after.version.memtables@ == before.version.memtables@.filter(
        mem_id_not_in(edit.mems_to_remove@),
    )
    &&& after.version.sampling_mem == match before.version.sampling_mem {
        Some(mem) => if edit.mems_to_remove@.contains(mem.id) {
            None
        } else {
            Some(mem)
        },
        None => None,
    }
    &&& forall|l: int, f: FileHandle|
        0 <= l < MAX_LEVEL ==> (#[trigger] after.version.levels@[l].files@.contains(f) <==> ((
        before.version.levels@[l].files@.contains(f) && !edit.files_to_delete@.contains(
            (DeleteFile { level: l as u16, file_id: f.spec_id() }),
        )) || added_on(edit.files_to_add@, 0, l, f)))
    &&& before.purge_queue.closed ==> requests.len() == 0
    &&& requests.no_duplicates()
    &&& !before.purge_queue.closed ==> forall|request: Request|
        requests.contains(request) <==> exists|l: int, id: FileId|
            0 <= l < MAX_LEVEL && has_file_id((#[trigger] before.version.levels@[l]).files@, id)
                && edit.files_to_delete@.contains((DeleteFile { level: l as u16, file_id: id }))
                && request == #[trigger] purge_of(before.purge_queue, id)
}

/// The state of one table.
#[derive(Debug)]
pub struct TableData {
    pub id: TableId,
    pub name: String,
    pub space_id: SpaceId,
    pub shard_info: TableShardInfo,
    pub schema: Schema,
    pub opts: TableOptions,
    /// What reads see of the table.
    pub version: TableVersion,
    /// Sequence number of the last write.
    pub last_sequence: SequenceNumber,
    /// The greatest id given to a file of the table.
    pub last_file_id: FileId,
    /// The greatest id given to a memtable of the table.
    pub last_memtable_id: MemTableId,
    /// When the table was last flushed, in milliseconds.
    pub last_flush_time_ms: u64,
    pub dropped: bool,
    /// Whether a flush of the table is under way; no other may start.
    pub flush_in_flight: bool,
    /// Where the files of the table go when nothing refers to them any more.
    pub purge_queue: FilePurgeQueue,
}

impl TableData {
    /// No file of the version has an id above `last_file_id`.
    pub open spec fn file_ids_bounded(self) -> bool {
        forall|l: int, i: int|
            0 <= l < self.version.levels@.len()
                && 0 <= i < self.version.levels@[l].files@.len() ==> (
            #[trigger] self.version.levels@[l].files@[i]).spec_id() <= self.last_file_id
    }

    /// No memtable and no file holds a row of a write after the last, nor has
    /// the table been flushed further than it was written.
    pub open spec fn sequences_bounded(self) -> bool {
        &&& self.version.flushed_sequence <= self.last_sequence
        &&& forall|i: int|
            0 <= i < self.version.memtables@.len() ==> (
            #[trigger] self.version.memtables@[i]).last_sequence <= self.last_sequence
        &&& self.version.sampling_mem matches Some(mem) ==> mem.last_sequence <= self.last_sequence
        &&& forall|l: int, i: int|
            0 <= l < self.version.levels@.len()
                && 0 <= i < self.version.levels@[l].files@.len() ==> (
            #[trigger] self.version.levels@[l].files@[i]).meta.meta.max_sequence
                <= self.last_sequence
    }

    /// No two memtables share an id, and none has an id above
    /// `last_memtable_id`.
    pub open spec fn memtable_ids_in_order(self) -> bool {
        &&& forall|i: int|
            0 <= i < self.version.memtables@.len() ==> (#[trigger] self.version.memtables@[i]).id
                <= self.last_memtable_id
        &&& forall|i: int, j: int|
            0 <= i < j < self.version.memtables@.len() ==> (
            #[trigger] self.version.memtables@[i]).id != (#[trigger] self.version.memtables@[j]).id
        &&& self.version.sampling_mem matches Some(mem) ==> mem.id <= self.last_memtable_id
    }

    /// The version and the options are in order, and the counters of the
    /// table bound what the version holds.
    pub open spec fn wf(self) -> bool {
        &&& self.version.wf()
        &&& self.opts.wf()
        &&& self.file_ids_bounded()
        &&& self.sequences_bounded()
        &&& self.memtable_ids_in_order()
    }

    /// A table without rows.
    pub fn new(
        space_id: SpaceId,
        id: TableId,
        name: String,
        shard_id: ShardId,
        schema: Schema,
        opts: TableOptions,
    ) -> (table: TableData)
        requires
            opts.wf(),
        ensures
            table.id == id,
            table.name == name,
            table.space_id == space_id,
            table.shard_info.shard_id == shard_id,
            table.schema == schema,
            table.opts == opts,
            table.last_sequence == 0,
            table.last_file_id == 0,
            table.last_memtable_id == 0,
            !table.dropped,
            !table.flush_in_flight,
            table.version.memtables@.len() == 0,
            table.version.sampling_mem.is_none(),
            table.version.flushed_sequence == 0,
            forall|l: int| 0 <= l < MAX_LEVEL
                ==> (#[trigger] table.version.levels@[l]).files@.len() == 0,
            table.purge_queue == (FilePurgeQueue { space_id, table_id: id, closed: false }),
            table.wf(),
    {
        TableData {
            id,
            name,
            space_id,
            shard_info: TableShardInfo { shard_id },
            schema,
            opts,
            version: TableVersion::new(),
            last_sequence: 0,
            last_file_id: 0,
            last_memtable_id: 0,
            last_flush_time_ms: 0,
            dropped: false,
            flush_in_flight: false,
            purge_queue: FilePurgeQueue::new(space_id, id),
        }
    }

    pub fn table_location(&self) -> (location: TableLocation)
        ensures
            location == (TableLocation { id: self.id, shard_info: self.shard_info }),
    {
        TableLocation { id: self.id, shard_info: self.shard_info }
    }

    pub fn schema_version(&self) -> (version: Version)
        ensures
            version == self.schema.version,
    {
        self.schema.version
    }

    pub fn table_options(&self) -> (opts: TableOptions)
        ensures
            opts == self.opts,
    {
        self.opts
    }

    pub fn current_version(&self) -> (version: &TableVersion)
        ensures
            *version == self.version,
    {
        &self.version
    }

    pub fn last_sequence(&self) -> (sequence: SequenceNumber)
        ensures
            sequence == self.last_sequence,
    {
        self.last_sequence
    }

    /// Moves the sequence number of the last write on to `sequence`; it never
    /// moves back.
    pub fn set_last_sequence(&mut self, sequence: SequenceNumber)
        requires
            old(self).wf(),
        ensures
            final(self).wf(),
            final(self).last_sequence == if sequence > old(self).last_sequence {
                sequence
            } else {
                old(self).last_sequence
            },
            *final(self) == (TableData { last_sequence: final(self).last_sequence, ..*old(self) }),
    {
        if sequence > self.last_sequence {
            self.last_sequence = sequence;
        }
    }

    pub fn last_file_id(&self) -> (id: FileId)
        ensures
            id == self.last_file_id,
    {
        self.last_file_id
    }

    /// Moves the greatest file id on to `id`; it never moves back.
    pub fn set_last_file_id(&mut self, id: FileId)
        requires
            old(self).wf(),
        ensures
            final(self).wf(),
            final(self).last_file_id == if id > old(self).last_file_id {
                id
            } else {
                old(self).last_file_id
            },
            *final(self) == (TableData { last_file_id: final(self).last_file_id, ..*old(self) }),
    {
        if id > self.last_file_id {
            self.last_file_id = id;
        }
    }

    /// The id for the next file of the table: one above the greatest so far.
    /// None once the ids are used up.
    pub fn alloc_file_id(&mut self) -> (id: Option<FileId>)
        requires
            old(self).wf(),
        ensures
            final(self).wf(),
            match id {
                Some(id) => id == old(self).last_file_id + 1 && *final(self) == (TableData {
                    last_file_id: id,
                    ..*old(self)
                }),
                None => old(self).last_file_id == u64::MAX && *final(self) == *old(self),
            },
    {
        match self.last_file_id.checked_add(1) {
            Some(id) => {
                self.last_file_id = id;
                Some(id)
            },
            None => None,
        }
    }

    pub fn is_dropped(&self) -> (b: bool)
        ensures
            b == self.dropped,
    {
        self.dropped
    }

    /// Marks the table as dropped.
    pub fn set_dropped(&mut self)
        ensures
            *final(self) == (TableData { dropped: true, ..*old(self) }),
    {
        self.dropped = true;
    }

    /// Bytes that the memtables of the table account for, up to the greatest
    /// number of bytes there is.
    pub fn memtable_memory_usage(&self) -> (bytes: usize)
        ensures
            bytes == saturated(spec_memory_usage(self.version)),
    {
        let mut bytes: usize = match &self.version.sampling_mem {
            Some(mem) => mem.approximate_memory_usage(),
            None => 0,
        };
        let ghost start = bytes as int;
        let mut i: usize = 0;
        while i < self.version.memtables.len()
            invariant
                i <= self.version.memtables@.len(),
                start == saturated(
                    match self.version.sampling_mem {
                        Some(mem) => mem.entries@.len() * crate::memtable::ENTRY_SIZE,
                        None => 0,
                    },
                ),
                bytes == saturated(
                    (match self.version.sampling_mem {
                        Some(mem) => mem.entries@.len() * crate::memtable::ENTRY_SIZE,
                        None => 0,
                    }) + usage_of(self.version.memtables@.take(i as int)),
                ),
            decreases self.version.memtables@.len() - i,
        {
            proof {
                let mems = self.version.memtables@;
                assert(mems.take(i + 1).drop_last() =~= mems.take(i as int));
                lemma_usage_nonnegative(mems.take(i as int));
            }
            let more = self.version.memtables[i].approximate_memory_usage();
            bytes = match bytes.checked_add(more) {
                Some(sum) => sum,
                None => usize::MAX,
            };
            i += 1;
        }
        proof {
            assert(self.version.memtables@.take(self.version.memtables@.len() as int)
                =~= self.version.memtables@);
        }
        bytes
    }

    /// Number of rows that the memtables of the table hold, up to the
    /// greatest number there is.
    pub fn num_rows_in_memory(&self) -> (rows: usize)
        ensures
            rows == saturated(spec_num_rows(self.version)),
    {
        let mut rows: usize = match &self.version.sampling_mem {
            Some(mem) => mem.entries.len(),
            None => 0,
        };
        let mut i: usize = 0;
        while i < self.version.memtables.len()
            invariant
                i <= self.version.memtables@.len(),
                rows == saturated(
                    (match self.version.sampling_mem {
                        Some(mem) => mem.entries@.len(),
                        None => 0,
                    }) + count_of(self.version.memtables@.take(i as int)),
                ),
            decreases self.version.memtables@.len() - i,
        {
            proof {
                let mems = self.version.memtables@;
                assert(mems.take(i + 1).drop_last() =~= mems.take(i as int));
                lemma_count_nonnegative(mems.take(i as int));
            }
            rows = match rows.checked_add(self.version.memtables[i].entries.len()) {
                Some(sum) => sum,
                None => usize::MAX,
            };
            i += 1;
        }
        proof {
            assert(self.version.memtables@.take(self.version.memtables@.len() as int)
                =~= self.version.memtables@);
        }
        rows
    }

    /// Whether the memtables of the table have grown to its write buffer size.
    pub fn should_flush_table(&self) -> (b: bool)
        ensures
            b == (self.opts.write_buffer_size > 0 && saturated(spec_memory_usage(self.version))
                >= self.opts.write_buffer_size),
    {
        self.opts.write_buffer_size > 0 && self.memtable_memory_usage()
            >= self.opts.write_buffer_size as usize
    }

    /// Puts one row into the memtable of its time bucket, as written at
    /// `sequence`.
    pub fn put_row(&mut self, row: KeyedRow, sequence: SequenceNumber)
        requires
            old(self).wf(),
            old(self).version.write_error(row.key.timestamp,
                old(self).opts.segment_duration).is_none(),
            old(self).last_memtable_id < u64::MAX,
        ensures
            final(self).wf(),
            stored_rows(final(self).version) == stored_rows(old(self).version).insert(
                (Entry { key: row.key, sequence, value: row.value }),
            ),
            row_landed(
                final(self).version,
                (Entry { key: row.key, sequence, value: row.value }),
                old(self).opts.segment_duration,
            ),
            grows(old(self).version, final(self).version, old(self).opts.segment_duration),
            final(self).last_sequence == if sequence > old(self).last_sequence {
                sequence
            } else {
                old(self).last_sequence
            },
            old(self).last_memtable_id <= final(self).last_memtable_id <= old(self).last_memtable_id
                + 1,
            *final(self) == (TableData {
                version: final(self).version,
                last_sequence: final(self).last_sequence,
                last_memtable_id: final(self).last_memtable_id,
                ..*old(self)
            }),
    {
        broadcast use vstd::multiset::group_multiset_axioms;

        let ghost start = *self;
        let ghost entry = Entry { key: row.key, sequence, value: row.value };
        let new_id = self.last_memtable_id + 1;
        if sequence > self.last_sequence {
            self.last_sequence = sequence;
        }
        let target = self.version.memtable_for_write(
            row.key.timestamp,
            self.opts.segment_duration,
            new_id,
        );
        let ghost chosen = self.version;
        match target {
            Ok(MemTableForWrite::Sampling) => {
                match &mut self.version.sampling_mem {
                    Some(mem) => {
                        if mem.id == new_id {
                            self.last_memtable_id = new_id;
                        }
                        mem.put(row, sequence);
                    },
                    None => {},
                }
                proof {
                    let mem = self.version.sampling_mem->Some_0;
                    let before = chosen.sampling_mem->Some_0;
                    to_multiset_contains_entry(mem.entries@, before.entries@, entry);
                    assert(stored_rows(self.version) =~= stored_rows(start.version).insert(entry)) by {
                        if start.version.sampling_mem.is_none() {
                            before.entries@.to_multiset_ensures();
                            assert(before.entries@.to_multiset() =~= Multiset::<Entry>::empty());
                        }
                    }
                }
            },
            Ok(MemTableForWrite::Regular(k)) => {
                if self.version.memtables[k].id == new_id && k == self.version.memtables.len() - 1 {
                    self.last_memtable_id = new_id;
                }
                self.version.memtables[k].put(row, sequence);
                proof {
                    let mems = self.version.memtables@;
                    let before = chosen.memtables@;
                    assert forall|i: int| 0 <= i < mems.len() && i != k implies #[trigger] mems[i]
                        == before[i] by {}
                    to_multiset_contains_entry(mems[k as int].entries@, before[k as int].entries@,
                        entry);
                    lemma_rows_of_put(before, mems, k as int, entry);
                    if chosen.memtables != start.version.memtables {
                        assert(before =~= start.version.memtables@.push(before.last()));
                        lemma_rows_of_push_empty(start.version.memtables@, before.last());
                    }
                    assert(landed_in(mems[k as int], entry, self.opts.segment_duration->Some_0));
                    assert forall|i: int| 0 <= i < start.version.memtables@.len() implies (
                    #[trigger] mems[i]).id == start.version.memtables@[i].id && mems[i].time_range
                        == start.version.memtables@[i].time_range && mems[i].frozen
                        == start.version.memtables@[i].frozen && forall|e: Entry|
                        start.version.memtables@[i].entries@.contains(e)
                            ==> mems[i].entries@.contains(
                            e,
                        ) by {
                        if chosen.memtables != start.version.memtables {
                            assert(before.drop_last()[i] == start.version.memtables@[i]);
                        }
                        assert(before[i] == start.version.memtables@[i]);
                    }
                    assert forall|i: int, j: int| 0 <= i < j < mems.len() implies (
                    #[trigger] mems[i]).id != (#[trigger] mems[j]).id by {
                        assert(mems[i].id == before[i].id);
                        assert(mems[j].id == before[j].id);
                        if chosen.memtables != start.version.memtables {
                            if j == before.len() - 1 {
                                assert(before.drop_last()[i] == start.version.memtables@[i]);
                                assert(start.version.memtables@[i].id <= start.last_memtable_id);
                            } else {
                                assert(before.drop_last()[i] == start.version.memtables@[i]);
                                assert(before.drop_last()[j] == start.version.memtables@[j]);
                            }
                        }
                    }
                    assert forall|i: int| 0 <= i < mems.len() implies (#[trigger] mems[i]).id
                        <= self.last_memtable_id && mems[i].last_sequence <= self.last_sequence
                        && mems[i].wf() && !mems[i].sampling by {
                        assert(mems[i].id == before[i].id);
                        if chosen.memtables != start.version.memtables {
                            if i < before.len() - 1 {
                                assert(before.drop_last()[i] == start.version.memtables@[i]);
                            }
                        } else {
                            assert(before[i] == start.version.memtables@[i]);
                        }
                    }
                }
            },
            Err(_) => {},
        }
    }

    /// The table that the manifest recorded, with the files and the flushed
    /// sequence number of its version, without rows in memory. Its counters
    /// are set so that they bound what the version holds. None where what
    /// the manifest holds is not the state of a table: where the options are
    /// out of order, a file stands on a level that tables do not have, or two
    /// files share an id.
    pub fn recover_from_add(
        table_meta: AddTableMeta,
        version_meta: Option<TableVersionMeta>,
        shard_id: ShardId,
    ) -> (recovered: Option<TableData>)
        ensures
            match recovered {
                Some(table) => {
                    &&& is_recoverable(table_meta, version_meta)
                    &&& table.wf()
                    &&& table.id == table_meta.table_id
                    &&& table.name == table_meta.table_name
                    &&& table.space_id == table_meta.space_id
                    &&& table.shard_info.shard_id == shard_id
                    &&& table.schema == table_meta.schema
                    &&& table.opts == table_meta.opts
                    &&& !table.dropped
                    &&& !table.flush_in_flight
                    &&& table.version.memtables@.len() == 0
                    &&& table.version.sampling_mem.is_none()
                    &&& table.purge_queue == (FilePurgeQueue {
                        space_id: table_meta.space_id,
                        table_id: table_meta.table_id,
                        closed: false,
                    })
                    &&& match version_meta {
                        Some(meta) => {
                            &&& table.version.flushed_sequence == meta.flushed_sequence
                            &&& forall|l: int, f: FileHandle|
                                0 <= l < MAX_LEVEL ==> (
                                #[trigger] table.version.levels@[l].files@.contains(f)
                                    <==> added_on(
                                    meta.files@,
                                    0,
                                    l,
                                    f,
                                ))
                            &&& table.last_file_id == greatest_file_id(
                                meta.files@,
                                meta.max_file_id,
                            )
                            &&& table.last_sequence == greatest_sequence(
                                meta.files@,
                                meta.flushed_sequence,
                            )
                        },
                        None => {
                            &&& table.version.flushed_sequence == 0
                            &&& forall|l: int|
                                0 <= l < MAX_LEVEL ==> (
                                #[trigger] table.version.levels@[l]).files@.len() == 0
                            &&& table.last_file_id == 0
                            &&& table.last_sequence == 0
                        },
                    }
                },
                None => !is_recoverable(table_meta, version_meta),
            },
    {
        if !table_meta.opts.is_valid() {
            return None;
        }
        let AddTableMeta { space_id, table_id, table_name, schema, opts } = table_meta;
        let mut table = TableData::new(space_id, table_id, table_name, shard_id, schema, opts);
        match version_meta {
            Some(meta) => {
                let (fresh, max_id, max_sequence) = check_files(
                    &meta.files,
                    meta.max_file_id,
                    meta.flushed_sequence,
                );
                if !fresh {
                    return None;
                }
                proof {
                    assert forall|k: int| 0 <= k < meta.files@.len() implies !version_has_file(
                        table.version.levels@,
                        (#[trigger] meta.files@[k]).file.id,
                    ) by {
                        assert forall|l: int| 0 <= l < table.version.levels@.len()
                            implies !has_file_id(
                            (#[trigger] table.version.levels@[l]).files@,
                            meta.files@[k].file.id,
                        ) by {}
                    }
                }
                let ghost files = meta.files@;
                let ghost id_floor = meta.max_file_id;
                let ghost sequence_floor = meta.flushed_sequence;
                let ghost empty = table.version;
                table.version.apply_meta(meta);
                table.last_file_id = max_id;
                table.last_sequence = max_sequence;
                proof {
                    assert forall|l: int, f: FileHandle| 0 <= l < MAX_LEVEL implies (
                    #[trigger] table.version.levels@[l].files@.contains(f)
                        <==> added_on(files, 0, l, f)) by {
                        assert(!empty.levels@[l].files@.contains(f));
                    }
                    assert forall|l: int, i: int|
                        0 <= l < table.version.levels@.len() && 0 <= i
                            < table.version.levels@[l].files@.len() implies (
                    #[trigger] table.version.levels@[l].files@[i]).spec_id() <= table.last_file_id
                        && table.version.levels@[l].files@[i].meta.meta.max_sequence
                        <= table.last_sequence by {
                        let f = table.version.levels@[l].files@[i];
                        assert(table.version.levels@[l].files@.contains(f));
                        let k = choose|k: int|
                            0 <= k < files.len() && (#[trigger] files[k]).level == l
                                && crate::table::version::is_handle_of(
                                f,
                                files[k],
                            );
                        lemma_greatest_bounds(files, k, id_floor, sequence_floor);
                    }
                    lemma_greatest_floor(files, id_floor, sequence_floor);
                }
                Some(table)
            },
            None => Some(table),
        }
    }

    /// Whether the edit fits the table.
    pub fn check_edit(&self, edit: &VersionEdit) -> (fits: bool)
        requires
            self.wf(),
        ensures
            fits == edit_fits(*self, *edit),
    {
        let (fresh, max_id, max_sequence) = check_files(&edit.files_to_add, 0, 0);
        proof {
            lemma_greatest_floor(edit.files_to_add@, 0, 0);
            if max_id <= self.last_file_id && max_sequence <= self.last_sequence {
                assert forall|k: int| 0 <= k < edit.files_to_add@.len() implies (
                #[trigger] edit.files_to_add@[k]).file.id <= self.last_file_id
                    && edit.files_to_add@[k].file.meta.max_sequence <= self.last_sequence by {
                    lemma_greatest_bounds(edit.files_to_add@, k, 0, 0);
                }
            } else {
                lemma_greatest_is_attained(edit.files_to_add@);
            }
        }
        if !fresh || max_id > self.last_file_id || max_sequence > self.last_sequence
            || edit.flushed_sequence > self.last_sequence {
            return false;
        }
        let mut k: usize = 0;
        while k < edit.files_to_add.len()
            invariant
                k <= edit.files_to_add@.len(),
                forall|j: int|
                    0 <= j < k ==> !version_has_file(
                        self.version.levels@,
                        (#[trigger] edit.files_to_add@[j]).file.id,
                    ),
            decreases edit.files_to_add@.len() - k,
        {
            if self.version.has_file(edit.files_to_add[k].file.id) {
                return false;
            }
            k += 1;
        }
        true
    }

    /// Applies the outcome of a flush or of a compaction to the version of
    /// the table, in one step. Returns the requests to purge the files that
    /// the version holds no more. An edit that does not fit the table leaves
    /// it as it is.
    pub fn apply_version_edit(&mut self, edit: VersionEdit) -> (r: Option<Vec<Request>>)
        requires
            old(self).wf(),
        ensures
            final(self).wf(),
            match r {
                None => !edit_fits(*old(self), edit) && *final(self) == *old(self),
                Some(requests) => edit_fits(*old(self), edit) && is_applied(
                    *old(self),
                    *final(self),
                    edit,
                    requests@,
                ),
            },
    {
        if !self.check_edit(&edit) {
            return None;
        }
        let ghost start = *self;
        let ghost adds = edit.files_to_add@;
        let ghost deletes = edit.files_to_delete@;
        let removed = self.version.apply_edit(edit);
        let requests = self.purge_queue.push_files(&removed);
        proof {
            assert forall|l: int, i: int|
                0 <= l < self.version.levels@.len() && 0 <= i
                    < self.version.levels@[l].files@.len() implies (
            #[trigger] self.version.levels@[l].files@[i]).spec_id() <= self.last_file_id
                && self.version.levels@[l].files@[i].meta.meta.max_sequence
                <= self.last_sequence by {
                let f = self.version.levels@[l].files@[i];
                assert(self.version.levels@[l].files@.contains(f));
                if start.version.levels@[l].files@.contains(f) {
                    let j = choose|j: int|
                        0 <= j < start.version.levels@[l].files@.len()
                            && start.version.levels@[l].files@[j] == f;
                    assert(start.version.levels@[l].files@[j].spec_id() <= start.last_file_id);
                } else {
                    let k = choose|k: int|
                        0 <= k < adds.len() && 0 <= k && (#[trigger] adds[k]).level == l
                            && crate::table::version::is_handle_of(f, adds[k]);
                    assert(adds[k].file.id <= start.last_file_id);
                }
            }
            let kept = self.version.memtables@;
            let before = start.version.memtables@;
            let test = mem_id_not_in(edit.mems_to_remove@);
            lemma_kept_memtables(start, kept, test);
            assert(removed@.no_duplicates());
            assert(requests@.no_duplicates());
            if !start.purge_queue.closed {
                let queue = start.purge_queue;
                assert forall|request: Request|
                    requests@.contains(request) <==> exists|l: int, id: FileId|
                        0 <= l < MAX_LEVEL && has_file_id(
                            (#[trigger] start.version.levels@[l]).files@,
                            id,
                        ) && deletes.contains((DeleteFile { level: l as u16, file_id: id }))
                            && request == #[trigger] purge_of(queue, id) by {
                    if requests@.contains(request) {
                        let j = choose|j: int| 0 <= j < requests@.len() && requests@[j] == request;
                        let id = removed@[j];
                        assert(removed@.contains(id));
                        let l = choose|l: int|
                            0 <= l < MAX_LEVEL && has_file_id(
                                (#[trigger] start.version.levels@[l]).files@,
                                id,
                            ) && deletes.contains((DeleteFile { level: l as u16, file_id: id }));
                        assert(request == purge_of(queue, id));
                    }
                    if exists|l: int, id: FileId|
                        0 <= l < MAX_LEVEL && has_file_id(
                            (#[trigger] start.version.levels@[l]).files@,
                            id,
                        ) && deletes.contains((DeleteFile { level: l as u16, file_id: id }))
                            && request == #[trigger] purge_of(queue, id) {
                        let (l, id) = choose|l: int, id: FileId|
                            0 <= l < MAX_LEVEL && has_file_id(
                                (#[trigger] start.version.levels@[l]).files@,
                                id,
                            ) && deletes.contains((DeleteFile { level: l as u16, file_id: id }))
                                && request == #[trigger] purge_of(queue, id);
                        assert(removed@.contains(id));
                        let w = choose|w: int| 0 <= w < removed@.len() && removed@[w] == id;
                        assert(requests@[w] == request);
                    }
                }
            }
        }
        Some(requests)
    }
}

/// `bytes`, or the greatest number of bytes there is where `bytes` is above it.
pub open spec fn saturated(bytes: int) -> int {
    if bytes > usize::MAX {
        usize::MAX as int
    } else {
        bytes
    }
}

/// Bytes that the memtables account for.
pub open spec fn usage_of(mems: Seq<MemTable>) -> int
    decreases mems.len(),
{
    if mems.len() == 0 {
        0
    } else {
        usage_of(mems.drop_last()) + mems.last().entries@.len() * crate::memtable::ENTRY_SIZE
    }
}

/// Number of rows that the memtables hold.
pub open spec fn count_of(mems: Seq<MemTable>) -> int
    decreases mems.len(),
{
    if mems.len() == 0 {
        0
    } else {
        count_of(mems.drop_last()) + mems.last().entries@.len()
    }
}

/// Number of rows that the memtables of the version hold.
pub open spec fn spec_num_rows(version: TableVersion) -> int {
    (match version.sampling_mem {
        Some(mem) => mem.entries@.len(),
        None => 0,
    }) + count_of(version.memtables@)
}

proof fn lemma_count_nonnegative(mems: Seq<MemTable>)
    ensures
        count_of(mems) >= 0,
    decreases mems.len(),
{
    if mems.len() > 0 {
        lemma_count_nonnegative(mems.drop_last());
    }
}

/// Bytes that the memtables of the version account for.
pub open spec fn spec_memory_usage(version: TableVersion) -> int {
    (match version.sampling_mem {
        Some(mem) => mem.entries@.len() * crate::memtable::ENTRY_SIZE,
        None => 0,
    }) + usage_of(version.memtables@)
}

/// The memtables of a version account for no less than nothing.
pub proof fn lemma_memory_usage_nonnegative(version: TableVersion)
    ensures
        spec_memory_usage(version) >= 0,
{
    lemma_usage_nonnegative(version.memtables@);
}

proof fn lemma_usage_nonnegative(mems: Seq<MemTable>)
    ensures
        usage_of(mems) >= 0,
    decreases mems.len(),
{
    if mems.len() > 0 {
        lemma_usage_nonnegative(mems.drop_last());
    }
}

} // verus!
