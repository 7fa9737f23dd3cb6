//! The readable state of a table: its memtables and the files of its levels.

use crate::entry::KeyedRow;
use crate::memtable::{MemTable, MemTableId};
use crate::sst::file::{
    has_file_id, id_not_in, live_in_range, FileHandle, FileMeta, Level, LevelHandler,
};
use crate::time::{bucket_start, TimeRange, Timestamp};
use crate::types::{FileId, SequenceNumber};
use vstd::prelude::*;

verus! {

/// Number of levels of a table: level 0, whose files may overlap in time, and
/// level 1.
pub const MAX_LEVEL: usize = 2;

/// Why the version cannot take a write or an edit.
#[derive(Clone, Copy, Debug, PartialEq, Eq, Structural)]
pub enum Error {
    /// The time bucket of the row does not fit between the earliest and the
    /// latest timestamp, or the row is of the latest timestamp itself, which
    /// no time range holds.
    TimestampOverflow { timestamp: Timestamp },
    /// The sampling memtable waits to be flushed and takes no more rows.
    SamplingFrozen,
    /// The table has memtables of time buckets, yet no segment duration.
    MissingSegmentDuration,
    /// No more memtable ids are left to give out.
    MemTableIdsExhausted,
}

/// The memtable that takes a row.
#[derive(Clone, Copy, Debug, PartialEq, Eq, Structural)]
pub enum MemTableForWrite {
    /// The sampling memtable.
    Sampling,
    /// The memtable of the row's time bucket, by its index among the memtables.
    Regular(usize),
}

/// What a read sees of a table: borrowed memtables and handles to files.
#[derive(Debug)]
pub struct ReadView<'a> {
    pub sampling_mem: Option<&'a MemTable>,
    pub memtables: Vec<&'a MemTable>,
    /// The files of each level; the index is the level.
    pub leveled_ssts: Vec<Vec<FileHandle>>,
}

/// The memtables that the references point to.
pub open spec fn pointees(refs: Seq<&MemTable>) -> Seq<MemTable> {
    refs.map_values(|m: &MemTable| *m)
}

/// What the references point to.
pub open spec fn pointees_of<T>(refs: Seq<&T>) -> Seq<T> {
    refs.map_values(|r: &T| *r)
}

/// The test that a memtable's time bucket intersects `range`.
pub open spec fn mem_in_range(range: TimeRange) -> spec_fn(MemTable) -> bool {
    |m: MemTable| m.time_range.spec_intersect_with(range)
}

/// The test that a memtable's id is none of `ids`.
pub open spec fn mem_id_not_in(ids: Seq<MemTableId>) -> spec_fn(MemTable) -> bool {
    |m: MemTable| !ids.contains(m.id)
}

impl<'a> ReadView<'a> {
    /// A view of nothing, with one empty list of files for each level.
    pub fn new() -> (view: ReadView<'a>)
        ensures
            view.sampling_mem.is_none(),
            view.memtables@.len() == 0,
            view.leveled_ssts@.len() == MAX_LEVEL,
            forall|l: int| 0 <= l < MAX_LEVEL ==> (#[trigger] view.leveled_ssts@[l])@.len() == 0,
    {
        let mut leveled_ssts: Vec<Vec<FileHandle>> = Vec::new();
        leveled_ssts.push(Vec::new());
        leveled_ssts.push(Vec::new());
        ReadView { sampling_mem: None, memtables: Vec::new(), leveled_ssts }
    }

    pub fn contains_sampling(&self) -> (b: bool)
        ensures
            b == self.sampling_mem.is_some(),
    {
        self.sampling_mem.is_some()
    }
}

/// A file to add to a level.
#[derive(Debug)]
pub struct AddFile {
    pub level: Level,
    pub file: FileMeta,
}

/// A file to take out of a level.
#[derive(Clone, Copy, Debug, PartialEq, Eq, Structural)]
pub struct DeleteFile {
    pub level: Level,
    pub file_id: FileId,
}

/// A change of the version: the outcome of a flush or of a compaction.
#[derive(Debug)]
pub struct VersionEdit {
    /// Sequence number up to which the rows of the table are in files.
    pub flushed_sequence: SequenceNumber,
    /// Ids of the memtables whose rows are in the added files now.
    pub mems_to_remove: Vec<MemTableId>,
    pub files_to_add: Vec<AddFile>,
    pub files_to_delete: Vec<DeleteFile>,
}

/// The test that the edit does not take a file out of `level`.
pub open spec fn not_deleted_on(deletes: Seq<DeleteFile>, level: Level) -> spec_fn(
    FileHandle,
) -> bool {
    |f: FileHandle| !deletes.contains(DeleteFile { level, file_id: f.spec_id() })
}

/// `f` is the handle under which the file enters its level: not being
/// compacted.
pub open spec fn is_handle_of(f: FileHandle, add: AddFile) -> bool {
    *f.meta == add.file && !f.being_compacted
}

/// The file is one of `adds[from..]` and goes to `level`.
pub open spec fn added_on(adds: Seq<AddFile>, from: int, level: int, f: FileHandle) -> bool {
    exists|k: int|
        from <= k < adds.len() && 0 <= k && (#[trigger] adds[k]).level == level && is_handle_of(
            f,
            adds[k],
        )
}

/// The version has a file of that id on one of its levels.
pub open spec fn version_has_file(levels: Seq<LevelHandler>, id: FileId) -> bool {
    exists|l: int| 0 <= l < levels.len() && has_file_id((#[trigger] levels[l]).files@, id)
}

/// The files to add go to levels that the table has, and their ids are new:
/// no two are equal, and the version holds none of them.
pub open spec fn adds_are_new(adds: Seq<AddFile>, levels: Seq<LevelHandler>) -> bool {
    &&& forall|k: int| 0 <= k < adds.len() ==> (#[trigger] adds[k]).level < levels.len()
    &&& forall|k: int| 0 <= k < adds.len()
        ==> !version_has_file(levels, (#[trigger] adds[k]).file.id)
    &&& forall|j: int, k: int|
        0 <= j < k < adds.len() ==> (#[trigger] adds[j]).file.id != (#[trigger] adds[k]).file.id
}

/// What the manifest records of the version of a table.
#[derive(Debug)]
pub struct TableVersionMeta {
    pub flushed_sequence: SequenceNumber,
    pub files: Vec<AddFile>,
    /// The greatest id among the files.
    pub max_file_id: FileId,
}

impl TableVersionMeta {
    pub fn max_file_id_to_add(&self) -> (id: FileId)
        ensures
            id == self.max_file_id,
    {
        self.max_file_id
    }
}

/// The readable state of a table.
#[derive(Debug)]
pub struct TableVersion {
    /// The memtable of a table that has no segment duration yet.
    pub sampling_mem: Option<MemTable>,
    /// The memtables of the time buckets, those that take rows and those that
    /// wait to be flushed.
    pub memtables: Vec<MemTable>,
    /// The files of each level; the index is the level.
    pub levels: Vec<LevelHandler>,
    /// Sequence number up to which the rows of the table are in files.
    pub flushed_sequence: SequenceNumber,
}

impl TableVersion {
    /// No file stands on two levels.
    pub open spec fn files_on_one_level(self) -> bool {
        forall|l1: int, l2: int, i: int, j: int|
            0 <= l1 < l2 < self.levels@.len() && 0 <= i < self.levels@[l1].files@.len() && 0 <= j
                < self.levels@[l2].files@.len()
                    ==> (#[trigger] self.levels@[l1].files@[i]).spec_id()
                != (#[trigger] self.levels@[l2].files@[j]).spec_id()
    }

    /// The version has its levels in order, each with its files in order; no
    /// file stands on two levels; every memtable is in order, and a sampling
    /// memtable stands alone.
    pub open spec fn wf(self) -> bool {
        &&& self.levels@.len() == MAX_LEVEL
        &&& forall|l: int|
            0 <= l < self.levels@.len() ==> (#[trigger] self.levels@[l]).wf()
                && self.levels@[l].level
                == l
        &&& self.files_on_one_level()
        &&& forall|i: int|
            0 <= i < self.memtables@.len() ==> (#[trigger] self.memtables@[i]).wf()
                && !self.memtables@[i].sampling
        &&& match self.sampling_mem {
            Some(mem) => mem.wf() && mem.sampling && self.memtables@.len() == 0 && mem.time_range
                == (TimeRange {
                inclusive_start: Timestamp(i64::MIN),
                exclusive_end: Timestamp(i64::MAX),
            }),
            None => true,
        }
    }

    /// A version without memtables and files.
    pub fn new() -> (version: TableVersion)
        ensures
            version.sampling_mem.is_none(),
            version.memtables@.len() == 0,
            version.levels@.len() == MAX_LEVEL,
            forall|l: int| 0 <= l < MAX_LEVEL ==> (#[trigger] version.levels@[l]).files@.len() == 0,
            version.flushed_sequence == 0,
            version.wf(),
    {
        let mut levels: Vec<LevelHandler> = Vec::new();
        levels.push(LevelHandler::new(0));
        levels.push(LevelHandler::new(1));
        TableVersion { sampling_mem: None, memtables: Vec::new(), levels, flushed_sequence: 0 }
    }

    pub fn flushed_sequence(&self) -> (sequence: SequenceNumber)
        ensures
            sequence == self.flushed_sequence,
    {
        self.flushed_sequence
    }

    /// What a read of `time_range` sees: the sampling memtable, the memtables
    /// whose bucket intersects the range, and of each level the files whose
    /// time range does and that have not expired at `expire_time`, in key
    /// order.
    pub fn pick_read_view(&self, time_range: TimeRange, expire_time: Option<Timestamp>) -> (view:
        ReadView<'_>)
        requires
            self.wf(),
        ensures
            match view.sampling_mem {
                Some(mem) => self.sampling_mem == Some(*mem),
                None => self.sampling_mem.is_none(),
            },
            pointees(view.memtables@) == self.memtables@.filter(mem_in_range(time_range)),
            view.leveled_ssts@.len() == self.levels@.len(),
            forall|l: int|
                0 <= l < self.levels@.len() ==> (#[trigger] view.leveled_ssts@[l])@
                    == self.levels@[l].files@.filter(live_in_range(time_range, expire_time)),
    {
        let sampling_mem = match &self.sampling_mem {
            Some(mem) => Some(mem),
            None => None,
        };
        let mut memtables: Vec<&MemTable> = Vec::new();
        let mut i: usize = 0;
        while i < self.memtables.len()
            invariant
                i <= self.memtables@.len(),
                pointees(memtables@) == self.memtables@.take(i as int).filter(
                    mem_in_range(time_range),
                ),
            decreases self.memtables@.len() - i,
        {
            proof {
                self.memtables@.take(i as int).lemma_filter_push(
                    self.memtables@[i as int],
                    mem_in_range(time_range),
                );
                assert(self.memtables@.take(i as int).push(self.memtables@[i as int])
                    =~= self.memtables@.take(i + 1));
            }
            let ghost before = memtables@;
            if self.memtables[i].time_range().intersect_with(time_range) {
                memtables.push(&self.memtables[i]);
                proof {
                    assert(pointees(memtables@) =~= pointees(before).push(
                        self.memtables@[i as int],
                    ));
                }
            }
            i += 1;
        }
        proof {
            assert(self.memtables@.take(self.memtables@.len() as int) =~= self.memtables@);
        }
        let mut leveled_ssts: Vec<Vec<FileHandle>> = Vec::new();
        let mut l: usize = 0;
        while l < self.levels.len()
            invariant
                self.wf(),
                l <= self.levels@.len(),
                leveled_ssts@.len() == l,
                forall|k: int|
                    0 <= k < l ==> (#[trigger] leveled_ssts@[k])@ == self.levels@[k].files@.filter(
                        live_in_range(time_range, expire_time),
                    ),
            decreases self.levels@.len() - l,
        {
            let picked = self.levels[l].files.files_to_read(time_range, expire_time);
            leveled_ssts.push(picked);
            l += 1;
        }
        ReadView { sampling_mem, memtables, leveled_ssts }
    }

    /// Index of the memtable of that time bucket that still takes rows.
    fn find_memtable(&self, bucket: TimeRange) -> (found: Option<usize>)
        ensures
            match found {
                Some(i) => i < self.memtables@.len()
                    && self.memtables@[i as int].time_range == bucket
                    && !self.memtables@[i as int].frozen,
                None => forall|i: int|
                    0 <= i < self.memtables@.len() ==> !((#[trigger] self.memtables@[i]).time_range
                        == bucket && !self.memtables@[i].frozen),
            },
    {
        let mut i: usize = 0;
        while i < self.memtables.len()
            invariant
                i <= self.memtables@.len(),
                forall|j: int|
                    0 <= j < i ==> !((#[trigger] self.memtables@[j]).time_range == bucket
                        && !self.memtables@[j].frozen),
            decreases self.memtables@.len() - i,
        {
            let mem = &self.memtables[i];
            if mem.time_range.inclusive_start.0 == bucket.inclusive_start.0
                && mem.time_range.exclusive_end.0 == bucket.exclusive_end.0 && !mem.frozen {
                return Some(i);
            }
            i += 1;
        }
        None
    }

    /// The error that keeps a row of that time out of the version, if any.
    pub open spec fn write_error(
        self,
        timestamp: Timestamp,
        segment_duration: Option<i64>,
    ) -> Option<Error> {
        match self.sampling_mem {
            Some(mem) => if mem.frozen {
                Some(Error::SamplingFrozen)
            } else if timestamp.0 == i64::MAX {
                Some(Error::TimestampOverflow { timestamp })
            } else {
                None
            },
            None => match segment_duration {
                None => if self.memtables@.len() > 0 {
                    Some(Error::MissingSegmentDuration)
                } else if timestamp.0 == i64::MAX {
                    Some(Error::TimestampOverflow { timestamp })
                } else {
                    None
                },
                Some(d) => if bucket_start(timestamp.0 as int, d as int) < i64::MIN || bucket_start(
                    timestamp.0 as int,
                    d as int,
                ) + d > i64::MAX {
                    Some(Error::TimestampOverflow { timestamp })
                } else {
                    None
                },
            },
        }
    }

    /// Whether a row of that time can be written, without writing it.
    pub fn check_write(&self, timestamp: Timestamp, segment_duration: Option<i64>) -> (r: Result<
        (),
        Error,
    >)
        requires
            segment_duration matches Some(d) ==> d > 0,
        ensures
            match r {
                Ok(()) => self.write_error(timestamp, segment_duration).is_none(),
                Err(e) => self.write_error(timestamp, segment_duration) == Some(e),
            },
    {
        match &self.sampling_mem {
            Some(mem) => {
                if mem.frozen {
                    Err(Error::SamplingFrozen)
                } else if timestamp.0 == i64::MAX {
                    Err(Error::TimestampOverflow { timestamp })
                } else {
                    Ok(())
                }
            },
            None => match segment_duration {
                None => {
                    if self.memtables.len() > 0 {
                        Err(Error::MissingSegmentDuration)
                    } else if timestamp.0 == i64::MAX {
                        Err(Error::TimestampOverflow { timestamp })
                    } else {
                        Ok(())
                    }
                },
                Some(d) => match TimeRange::bucket_of(timestamp, d) {
                    Some(_) => Ok(()),
                    None => Err(Error::TimestampOverflow { timestamp }),
                },
            },
        }
    }

    /// The memtable that takes a row of that time. A table without segment
    /// duration writes into its sampling memtable; any other into the memtable
    /// of the row's time bucket, which starts at the greatest multiple of the
    /// segment duration that is not above the row's time. A memtable that does
    /// not exist yet is created under the id `new_id`.
    pub fn memtable_for_write(
        &mut self,
        timestamp: Timestamp,
        segment_duration: Option<i64>,
        new_id: MemTableId,
    ) -> (r: Result<MemTableForWrite, Error>)
        requires
            old(self).wf(),
            segment_duration matches Some(d) ==> d > 0,
        ensures
            final(self).wf(),
            final(self).levels == old(self).levels,
            final(self).flushed_sequence == old(self).flushed_sequence,
            match r {
                Err(e) => old(self).write_error(timestamp, segment_duration) == Some(e)
                    && *final(self) == *old(self),
                Ok(MemTableForWrite::Sampling) => {
                    &&& old(self).write_error(timestamp, segment_duration).is_none()
                    &&& final(self).memtables == old(self).memtables
                    &&& final(self).sampling_mem matches Some(mem) && !mem.frozen
                        && mem.time_range.spec_contains(timestamp)
                            && (match old(self).sampling_mem {
                        Some(before) => mem == before,
                        None => mem.id == new_id && mem.entries@.len() == 0 && mem.last_sequence
                            == 0,
                    })
                },
                Ok(MemTableForWrite::Regular(i)) => {
                    &&& old(self).write_error(timestamp, segment_duration).is_none()
                    &&& segment_duration matches Some(d) && final(self).sampling_mem.is_none()
                        && old(self).sampling_mem.is_none() && i < final(self).memtables@.len() && {
                        let mem = final(self).memtables@[i as int];
                        &&& !mem.frozen
                        &&& mem.time_range.inclusive_start.0 == bucket_start(
                            timestamp.0 as int,
                            d as int,
                        )
                        &&& mem.time_range.exclusive_end.0 == mem.time_range.inclusive_start.0 + d
                        &&& mem.time_range.spec_contains(timestamp)
                        &&& (final(self).memtables == old(self).memtables
                            || (final(self).memtables@.drop_last() == old(self).memtables@
                            && i == old(self).memtables@.len() && mem.id == new_id
                            && mem.entries@.len() == 0
                            && mem.last_sequence == 0))
                    }
                },
            },
    {
        match self.check_write(timestamp, segment_duration) {
            Ok(()) => {},
            Err(e) => {
                return Err(e);
            },
        }
        if self.sampling_mem.is_some() {
            return Ok(MemTableForWrite::Sampling);
        }
        match segment_duration {
            None => {
                self.sampling_mem = Some(MemTable::new(new_id, TimeRange::min_to_max(), true));
                Ok(MemTableForWrite::Sampling)
            },
            Some(d) => {
                let bucket = match TimeRange::bucket_of(timestamp, d) {
                    Some(bucket) => bucket,
                    None => {
                        return Err(Error::TimestampOverflow { timestamp });
                    },
                };
                match self.find_memtable(bucket) {
                    Some(i) => Ok(MemTableForWrite::Regular(i)),
                    None => {
                        let ghost before = self.memtables@;
                        let i = self.memtables.len();
                        self.memtables.push(MemTable::new(new_id, bucket, false));
                        proof {
                            assert(self.memtables@.drop_last() =~= before);
                            assert forall|k: int| 0 <= k < self.memtables@.len() implies (
                            #[trigger] self.memtables@[k]).wf() && !self.memtables@[k].sampling by {
                                if k < before.len() {
                                    assert(self.memtables@[k] == before[k]);
                                }
                            }
                        }
                        Ok(MemTableForWrite::Regular(i))
                    },
                }
            },
        }
    }

    /// Takes the memtables of the given ids out of the version.
    pub fn remove_memtables(&mut self, ids: &Vec<MemTableId>)
        requires
            old(self).wf(),
        ensures
            final(self).wf(),
            final(self).levels == old(self).levels,
            final(self).flushed_sequence == old(self).flushed_sequence,
            final(self).memtables@ == old(self).memtables@.filter(mem_id_not_in(ids@)),
            final(self).sampling_mem == match old(self).sampling_mem {
                Some(mem) => if ids@.contains(mem.id) {
                    None
                } else {
                    Some(mem)
                },
                None => None,
            },
    {
        let drop_sampling = match &self.sampling_mem {
            Some(mem) => contains_mem_id(ids, mem.id),
            None => false,
        };
        if drop_sampling {
            self.sampling_mem = None;
        }
        let ghost before = self.memtables@;
        let ghost start = *self;
        let ghost mut seen: int = 0;
        let mut i: usize = 0;
        while i < self.memtables.len()
            invariant
                self.levels == start.levels,
                self.flushed_sequence == start.flushed_sequence,
                self.sampling_mem == start.sampling_mem,
                0 <= seen <= before.len(),
                i <= self.memtables@.len(),
                self.memtables@.len() - i == before.len() - seen,
                self.memtables@.take(i as int) == before.take(seen).filter(mem_id_not_in(ids@)),
                self.memtables@.skip(i as int) == before.skip(seen),
            decreases self.memtables@.len() - i,
        {
            let ghost current = self.memtables@;
            proof {
                assert(current[i as int] == current.skip(i as int)[0]);
                assert(before[seen] == before.skip(seen)[0]);
                before.take(seen).lemma_filter_push(before[seen], mem_id_not_in(ids@));
                assert(before.take(seen).push(before[seen]) =~= before.take(seen + 1));
            }
            if contains_mem_id(ids, self.memtables[i].id) {
                self.memtables.remove(i);
                proof {
                    assert(self.memtables@.take(i as int) =~= current.take(i as int));
                    assert(self.memtables@.skip(i as int) =~= current.skip(i as int).drop_first());
                    assert(before.skip(seen).drop_first() =~= before.skip(seen + 1));
                }
            } else {
                proof {
                    assert(current.take(i + 1) =~= current.take(i as int).push(current[i as int]));
                    assert(current.skip(i + 1) =~= current.skip(i as int).drop_first());
                    assert(before.skip(seen).drop_first() =~= before.skip(seen + 1));
                }
                i += 1;
            }
            proof {
                seen = seen + 1;
            }
        }
        proof {
            assert(self.memtables@.take(i as int) =~= self.memtables@);
            assert(before.take(seen) =~= before);
            let kept = self.memtables@;
            assert forall|k: int| 0 <= k < kept.len() implies (#[trigger] kept[k]).wf()
                && !kept[k].sampling by {
                assert(kept.contains(kept[k]));
                before.lemma_filter_contains_rev(mem_id_not_in(ids@), kept[k]);
                let j = choose|j: int| 0 <= j < before.len() && before[j] == kept[k];
                assert(before[j].wf());
            }
        }
    }

    /// Takes the files that the deletes name out of their levels. Returns the
    /// ids of the files that the version held and holds no more, each once.
    pub fn delete_files(&mut self, deletes: &Vec<DeleteFile>) -> (removed: Vec<FileId>)
        requires
            old(self).wf(),
        ensures
            final(self).wf(),
            final(self).memtables == old(self).memtables,
            final(self).sampling_mem == old(self).sampling_mem,
            final(self).flushed_sequence == old(self).flushed_sequence,
            forall|l: int|
                0 <= l < MAX_LEVEL
                    ==> (#[trigger] final(self).levels@[l]).files@
                    == old(self).levels@[l].files@.filter(not_deleted_on(deletes@, l as Level)),
            forall|id: FileId|
                removed@.contains(id) <==> exists|l: int|
                    0 <= l < MAX_LEVEL && has_file_id((#[trigger] old(self).levels@[l]).files@, id)
                        && deletes@.contains((DeleteFile { level: l as Level, file_id: id })),
            removed@.no_duplicates(),
    {
        let ghost start = *self;
        let mut removed: Vec<FileId> = Vec::new();
        let mut l: usize = 0;
        while l < MAX_LEVEL
            invariant
                start.wf(),
                l <= MAX_LEVEL,
                self.levels@.len() == MAX_LEVEL,
                self.memtables == start.memtables,
                self.sampling_mem == start.sampling_mem,
                self.flushed_sequence == start.flushed_sequence,
                forall|k: int|
                    0 <= k < MAX_LEVEL ==> (#[trigger] self.levels@[k]).wf()
                        && self.levels@[k].level
                        == k,
                forall|k: int|
                    0 <= k < l
                        ==> (#[trigger] self.levels@[k]).files@ == start.levels@[k].files@.filter(
                        not_deleted_on(deletes@, k as Level),
                    ),
                forall|k: int| l <= k < MAX_LEVEL
                    ==> #[trigger] self.levels@[k] == start.levels@[k],
                removed@.no_duplicates(),
                forall|id: FileId|
                    removed@.contains(id) <==> exists|k: int|
                        0 <= k < l && has_file_id((#[trigger] start.levels@[k]).files@, id)
                            && deletes@.contains((DeleteFile { level: k as Level, file_id: id })),
            decreases MAX_LEVEL - l,
        {
            let ghost before = removed@;
            let ghost levels_before = self.levels@;
            proof {
                assert forall|id: FileId| removed@.contains(id) implies !has_file_id(
                    self.levels@[l as int].files@,
                    id,
                ) by {
                    let k = choose|k: int|
                        0 <= k < l && has_file_id((#[trigger] start.levels@[k]).files@, id)
                            && deletes@.contains((DeleteFile { level: k as Level, file_id: id }));
                    lemma_file_on_one_level(start, k, l as int, id);
                }
            }
            delete_on_level(&mut self.levels[l], deletes, &mut removed);
            proof {
                assert forall|k: int| 0 <= k < MAX_LEVEL && k != l
                    implies #[trigger] self.levels@[k]
                    == levels_before[k] by {}
                assert forall|id: FileId|
                    removed@.contains(id) <==> exists|k: int|
                        0 <= k < l + 1 && has_file_id((#[trigger] start.levels@[k]).files@, id)
                            && deletes@.contains((DeleteFile { level: k as Level,
                                file_id: id })) by {
                    if removed@.contains(id) {
                        if before.contains(id) {
                            let k = choose|k: int|
                                0 <= k < l && has_file_id((#[trigger] start.levels@[k]).files@, id)
                                    && deletes@.contains(
                                    (DeleteFile { level: k as Level, file_id: id }),
                                );
                            assert(0 <= k < l + 1);
                        } else {
                            assert(has_file_id(start.levels@[l as int].files@, id));
                        }
                    }
                }
            }
            l += 1;
        }
        proof {
            lemma_subsets_stay_apart(start, *self, deletes@);
        }
        removed
    }

    /// Puts the files into their levels.
    pub fn add_files(&mut self, adds: Vec<AddFile>)
        requires
            old(self).wf(),
            adds_are_new(adds@, old(self).levels@),
        ensures
            final(self).wf(),
            final(self).memtables == old(self).memtables,
            final(self).sampling_mem == old(self).sampling_mem,
            final(self).flushed_sequence == old(self).flushed_sequence,
            forall|l: int, f: FileHandle|
                0 <= l < MAX_LEVEL ==> (#[trigger] final(self).levels@[l].files@.contains(f) <==> (
                old(self).levels@[l].files@.contains(f) || added_on(adds@, 0, l, f))),
    {
        let ghost start = *self;
        let ghost all = adds@;
        let mut adds = adds;
        while adds.len() > 0
            invariant
                start.wf(),
                adds_are_new(all, start.levels@),
                adds@.len() <= all.len(),
                adds@ == all.take(adds@.len() as int),
                self.wf(),
                self.memtables == start.memtables,
                self.sampling_mem == start.sampling_mem,
                self.flushed_sequence == start.flushed_sequence,
                forall|l: int, f: FileHandle|
                    0 <= l < MAX_LEVEL ==> (#[trigger] self.levels@[l].files@.contains(f) <==> (
                    start.levels@[l].files@.contains(f)
                        || added_on(all, adds@.len() as int, l, f))),
            decreases adds@.len(),
        {
            let ghost n = adds@.len() as int;
            let ghost before = *self;
            let add = adds.pop().unwrap();
            proof {
                assert(add == all[n - 1]);
                assert(adds@ =~= all.take(n - 1));
            }
            let level = add.level as usize;
            let file = FileHandle::new(add.file);
            proof {
                assert(is_handle_of(file, all[n - 1]));
                lemma_new_file_is_apart(start, before, all, n, file);
            }
            self.levels[level].insert(file);
            proof {
                assert forall|k: int| 0 <= k < MAX_LEVEL && k != level
                    implies #[trigger] self.levels@[k]
                    == before.levels@[k] by {}
                assert forall|l: int, f: FileHandle| 0 <= l < MAX_LEVEL
                    implies (#[trigger] self.levels@[l].files@.contains(f)
                    <==> (start.levels@[l].files@.contains(
                    f,
                ) || added_on(all, n - 1, l, f))) by {
                    if added_on(all, n, l, f) {
                        let k = choose|k: int|
                            n <= k < all.len() && 0 <= k && (#[trigger] all[k]).level == l
                                && is_handle_of(f, all[k]);
                        assert(n - 1 <= k);
                    }
                    if added_on(all, n - 1, l, f) && !added_on(all, n, l, f) {
                        let k = choose|k: int|
                            n - 1 <= k < all.len() && 0 <= k && (#[trigger] all[k]).level == l
                                && is_handle_of(f, all[k]);
                        assert(k == n - 1);
                        assert(f.meta == file.meta);
                        assert(f == file);
                    }
                    if l == level {
                        if before.levels@[l].files@.contains(f) {
                            let i = choose|i: int|
                                0 <= i < before.levels@[l].files@.len()
                                    && before.levels@[l].files@[i]
                                    == f;
                            assert(before.levels@[l].files@[i].spec_id() != file.spec_id());
                        }
                        if f == file {
                            assert(all[n - 1].level == l);
                            assert(added_on(all, n - 1, l, f));
                        }
                    }
                }
                assert forall|l1: int, l2: int, i: int, j: int|
                    0 <= l1 < l2 < self.levels@.len() && 0 <= i < self.levels@[l1].files@.len() && 0
                        <= j < self.levels@[l2].files@.len() implies (
                #[trigger] self.levels@[l1].files@[i]).spec_id() != (
                #[trigger] self.levels@[l2].files@[j]).spec_id() by {
                    let f1 = self.levels@[l1].files@[i];
                    let f2 = self.levels@[l2].files@[j];
                    assert(self.levels@[l1].files@.contains(f1));
                    assert(self.levels@[l2].files@.contains(f2));
                    if f1 != file && f2 != file {
                        assert(before.levels@[l1].files@.contains(f1));
                        assert(before.levels@[l2].files@.contains(f2));
                        let a = choose|a: int|
                            0 <= a < before.levels@[l1].files@.len() && before.levels@[l1].files@[a]
                                == f1;
                        let b = choose|b: int|
                            0 <= b < before.levels@[l2].files@.len() && before.levels@[l2].files@[b]
                                == f2;
                        assert(before.levels@[l1].files@[a].spec_id()
                            != before.levels@[l2].files@[b].spec_id());
                    } else if f1 == file {
                        if f2 != file {
                            assert(before.levels@[l2].files@.contains(f2));
                            let b = choose|b: int|
                                0 <= b < before.levels@[l2].files@.len()
                                    && before.levels@[l2].files@[b] == f2;
                            assert(before.levels@[l2].files@[b].spec_id() != file.spec_id());
                        } else {
                            assert(l1 == level && l2 == level);
                        }
                    } else {
                        assert(before.levels@[l1].files@.contains(f1));
                        let a = choose|a: int|
                            0 <= a < before.levels@[l1].files@.len() && before.levels@[l1].files@[a]
                                == f1;
                        assert(before.levels@[l1].files@[a].spec_id() != file.spec_id());
                    }
                }
            }
        }
    }

    /// Applies the outcome of a flush or of a compaction in one step: the
    /// flushed memtables leave, the compacted files leave their levels, the
    /// new files enter theirs, and the flushed sequence number moves on, never
    /// back. Returns the ids of the files that the version holds no more.
    pub fn apply_edit(&mut self, edit: VersionEdit) -> (removed: Vec<FileId>)
        requires
            old(self).wf(),
            adds_are_new(edit.files_to_add@, old(self).levels@),
        ensures
            final(self).wf(),
            final(self).flushed_sequence == if edit.flushed_sequence > old(self).flushed_sequence {
                edit.flushed_sequence
            } else {
                old(self).flushed_sequence
            },
            final(self).flushed_sequence >= old(self).flushed_sequence,
            final(self).memtables@ == old(self).memtables@.filter(
                mem_id_not_in(edit.mems_to_remove@),
            ),
            final(self).sampling_mem == match old(self).sampling_mem {
                Some(mem) => if edit.mems_to_remove@.contains(mem.id) {
                    None
                } else {
                    Some(mem)
                },
                None => None,
            },
            forall|l: int, f: FileHandle|
                0 <= l < MAX_LEVEL ==> (#[trigger] final(self).levels@[l].files@.contains(f) <==> ((
                old(self).levels@[l].files@.contains(f) && !edit.files_to_delete@.contains(
                    (DeleteFile { level: l as Level, file_id: f.spec_id() }),
                )) || added_on(edit.files_to_add@, 0, l, f))),
            forall|id: FileId|
                removed@.contains(id) <==> exists|l: int|
                    0 <= l < MAX_LEVEL && has_file_id((#[trigger] old(self).levels@[l]).files@, id)
                        && edit.files_to_delete@.contains(
                        (DeleteFile { level: l as Level, file_id: id }),
                    ),
            removed@.no_duplicates(),
    {
        let ghost start = *self;
        let VersionEdit { flushed_sequence, mems_to_remove, files_to_add, files_to_delete } = edit;
        self.remove_memtables(&mems_to_remove);
        let removed = self.delete_files(&files_to_delete);
        let ghost pruned = *self;
        proof {
            assert forall|k: int| 0 <= k < files_to_add@.len() implies !version_has_file(
                self.levels@,
                (#[trigger] files_to_add@[k]).file.id,
            ) by {
                let id = files_to_add@[k].file.id;
                if version_has_file(self.levels@, id) {
                    let l = choose|l: int|
                        0 <= l < self.levels@.len() && has_file_id(
                            (#[trigger] self.levels@[l]).files@,
                            id,
                        );
                    let i = choose|i: int|
                        0 <= i < self.levels@[l].files@.len() && (
                        #[trigger] self.levels@[l].files@[i]).spec_id() == id;
                    let f = self.levels@[l].files@[i];
                    assert(self.levels@[l].files@.contains(f));
                    start.levels@[l].files@.lemma_filter_contains_rev(
                        not_deleted_on(files_to_delete@, l as Level),
                        f,
                    );
                    let j = choose|j: int|
                        0 <= j < start.levels@[l].files@.len() && start.levels@[l].files@[j] == f;
                    assert(has_file_id(start.levels@[l].files@, id));
                    assert(version_has_file(start.levels@, id));
                }
            }
        }
        self.add_files(files_to_add);
        if flushed_sequence > self.flushed_sequence {
            self.flushed_sequence = flushed_sequence;
        }
        proof {
            assert forall|l: int, f: FileHandle| 0 <= l < MAX_LEVEL implies (
            #[trigger] self.levels@[l].files@.contains(f) <==> ((start.levels@[l].files@.contains(f)
                && !files_to_delete@.contains(
                (DeleteFile { level: l as Level, file_id: f.spec_id() }),
            )) || added_on(files_to_add@, 0, l, f))) by {
                let pred = not_deleted_on(files_to_delete@, l as Level);
                assert(pruned.levels@[l].files@ == start.levels@[l].files@.filter(pred));
                if pruned.levels@[l].files@.contains(f) {
                    start.levels@[l].files@.lemma_filter_contains_rev(pred, f);
                    let i = choose|i: int|
                        0 <= i < pruned.levels@[l].files@.len() && pruned.levels@[l].files@[i] == f;
                    start.levels@[l].files@.lemma_filter_pred(pred, i);
                }
                if start.levels@[l].files@.contains(f) && pred(f) {
                    let i = choose|i: int|
                        0 <= i < start.levels@[l].files@.len() && start.levels@[l].files@[i] == f;
                    start.levels@[l].files@.lemma_filter_contains(pred, i);
                }
            }
        }
        removed
    }

    /// Installs the files and the flushed sequence number that the manifest
    /// recorded for the table.
    pub fn apply_meta(&mut self, meta: TableVersionMeta)
        requires
            old(self).wf(),
            adds_are_new(meta.files@, old(self).levels@),
        ensures
            final(self).wf(),
            final(self).flushed_sequence == if meta.flushed_sequence > old(self).flushed_sequence {
                meta.flushed_sequence
            } else {
                old(self).flushed_sequence
            },
            final(self).memtables == old(self).memtables,
            final(self).sampling_mem == old(self).sampling_mem,
            forall|l: int, f: FileHandle|
                0 <= l < MAX_LEVEL ==> (#[trigger] final(self).levels@[l].files@.contains(f) <==> (
                old(self).levels@[l].files@.contains(f) || added_on(meta.files@, 0, l, f))),
    {
        let TableVersionMeta { flushed_sequence, files, max_file_id } = meta;
        self.add_files(files);
        if flushed_sequence > self.flushed_sequence {
            self.flushed_sequence = flushed_sequence;
        }
    }

    /// Marks the files of the given ids on that level as being compacted, or
    /// as no longer being compacted.
    pub fn set_being_compacted(&mut self, level: usize, file_ids: &[FileId], value: bool)
        requires
            old(self).wf(),
            level < MAX_LEVEL,
        ensures
            final(self).wf(),
            final(self).memtables == old(self).memtables,
            final(self).sampling_mem == old(self).sampling_mem,
            final(self).flushed_sequence == old(self).flushed_sequence,
            forall|l: int|
                0 <= l < MAX_LEVEL && l != level
                    ==> #[trigger] final(self).levels@[l] == old(self).levels@[l],
            final(self).levels@[level as int].files@.len()
                == old(self).levels@[level as int].files@.len(),
            forall|i: int|
                0 <= i < old(self).levels@[level as int].files@.len() ==> (
                #[trigger] final(self).levels@[level as int].files@[i]).meta
                    == old(self).levels@[level as int].files@[i].meta
                    && final(self).levels@[level as int].files@[i].being_compacted
                    == if file_ids@.contains(
                    old(self).levels@[level as int].files@[i].spec_id(),
                ) {
                    value
                } else {
                    old(self).levels@[level as int].files@[i].being_compacted
                },
    {
        let ghost before = self.levels@;
        self.levels[level].files.set_being_compacted(file_ids, value);
        proof {
            let after = self.levels@;
            assert forall|l: int| 0 <= l < MAX_LEVEL && l != level implies #[trigger] after[l]
                == before[l] by {}
            assert forall|l1: int, l2: int, i: int, j: int|
                0 <= l1 < l2 < after.len() && 0 <= i < after[l1].files@.len() && 0 <= j
                    < after[l2].files@.len() implies (#[trigger] after[l1].files@[i]).spec_id() != (
            #[trigger] after[l2].files@[j]).spec_id() by {
                assert(before[l1].files@[i].spec_id() != before[l2].files@[j].spec_id());
                assert(after[l1].files@[i].meta == before[l1].files@[i].meta);
                assert(after[l2].files@[j].meta == before[l2].files@[j].meta);
            }
        }
    }

    /// Whether the version has a file of that id on one of its levels.
    pub fn has_file(&self, id: FileId) -> (b: bool)
        ensures
            b == version_has_file(self.levels@, id),
    {
        let mut l: usize = 0;
        while l < self.levels.len()
            invariant
                l <= self.levels@.len(),
                forall|k: int| 0 <= k < l ==> !has_file_id((#[trigger] self.levels@[k]).files@, id),
            decreases self.levels@.len() - l,
        {
            if self.levels[l].files.contains_id(id) {
                return true;
            }
            l += 1;
        }
        false
    }

    /// Takes all files out of the version. Returns their ids, each once, level
    /// after level, each level in key order.
    pub fn take_all_files(&mut self) -> (removed: Vec<FileId>)
        requires
            old(self).wf(),
        ensures
            final(self).wf(),
            final(self).memtables == old(self).memtables,
            final(self).sampling_mem == old(self).sampling_mem,
            final(self).flushed_sequence == old(self).flushed_sequence,
            forall|l: int| 0 <= l < MAX_LEVEL
                ==> (#[trigger] final(self).levels@[l]).files@.len() == 0,
            forall|id: FileId| removed@.contains(id) <==> version_has_file(old(self).levels@, id),
            removed@.no_duplicates(),
    {
        let mut removed: Vec<FileId> = Vec::new();
        let ghost levels = self.levels@;
        let ghost start = *self;
        let mut l: usize = 0;
        while l < self.levels.len()
            invariant
                levels == self.levels@,
                *self == start,
                start.wf(),
                l <= levels.len(),
                removed@.no_duplicates(),
                forall|id: FileId|
                    #![trigger removed@.contains(id)]
                    removed@.contains(id) <==> version_has_file(levels.take(l as int), id),
            decreases levels.len() - l,
        {
            let ghost done = removed@;
            let files = &self.levels[l].files.files;
            let mut i: usize = 0;
            while i < files.len()
                invariant
                    i <= files@.len(),
                    start.wf(),
                    l < start.levels@.len(),
                    levels == start.levels@,
                    files@ == start.levels@[l as int].files@,
                    removed@.no_duplicates(),
                    forall|id: FileId|
                        #![trigger done.contains(id)]
                        done.contains(id) <==> version_has_file(levels.take(l as int), id),
                    forall|id: FileId|
                        #![trigger removed@.contains(id)]
                        removed@.contains(id) <==> (done.contains(id) || has_file_id(
                            files@.take(i as int),
                            id,
                        )),
                decreases files@.len() - i,
            {
                let ghost before = removed@;
                removed.push(files[i].id());
                proof {
                    let seen = files@.take(i as int);
                    let next = files@.take(i + 1);
                    assert(next =~= seen.push(files@[i as int]));
                    let id_i = files@[i as int].spec_id();
                    assert(has_file_id(files@, id_i));
                    if done.contains(id_i) {
                        let k = choose|k: int|
                            0 <= k < levels.take(l as int).len() && has_file_id(
                                (#[trigger] levels.take(l as int)[k]).files@,
                                id_i,
                            );
                        assert(levels.take(l as int)[k] == levels[k]);
                        lemma_file_on_one_level(start, k, l as int, id_i);
                    }
                    if has_file_id(seen, id_i) {
                        let w = choose|w: int|
                            0 <= w < seen.len() && (#[trigger] seen[w]).spec_id() == id_i;
                        assert(files@[w].spec_id() == files@[i as int].spec_id());
                        assert(start.levels@[l as int].wf());
                    }
                    assert(!before.contains(id_i));
                    lemma_push_new(before, id_i);
                    assert forall|id: FileId|
                        #![trigger removed@.contains(id)]
                        removed@.contains(id) <==> (done.contains(id) || has_file_id(next, id)) by {
                        if removed@.contains(id) {
                            let j = choose|j: int| 0 <= j < removed@.len() && removed@[j] == id;
                            if j < before.len() {
                                assert(before[j] == id);
                                assert(before.contains(id));
                                if !done.contains(id) {
                                    let w = choose|w: int|
                                        0 <= w < seen.len() && (#[trigger] seen[w]).spec_id() == id;
                                    assert(next[w].spec_id() == id);
                                }
                            } else {
                                assert(next[i as int].spec_id() == id);
                            }
                        }
                        if done.contains(id) {
                            assert(before.contains(id));
                            let j = choose|j: int| 0 <= j < before.len() && before[j] == id;
                            assert(removed@[j] == id);
                        }
                        if has_file_id(next, id) {
                            let w = choose|w: int|
                                0 <= w < next.len() && (#[trigger] next[w]).spec_id() == id;
                            if w < i {
                                assert(seen[w].spec_id() == id);
                                assert(before.contains(id));
                                let j = choose|j: int| 0 <= j < before.len() && before[j] == id;
                                assert(removed@[j] == id);
                            } else {
                                assert(removed@[removed@.len() - 1] == id);
                            }
                        }
                    }
                }
                i += 1;
            }
            proof {
                assert(files@.take(files@.len() as int) =~= files@);
                let seen = levels.take(l as int);
                let next = levels.take(l + 1);
                assert(next =~= seen.push(levels[l as int]));
                assert forall|id: FileId|
                    #![trigger removed@.contains(id)]
                    removed@.contains(id) <==> version_has_file(next, id) by {
                    if version_has_file(seen, id) {
                        let w = choose|w: int|
                            0 <= w < seen.len() && has_file_id((#[trigger] seen[w]).files@, id);
                        assert(has_file_id(next[w].files@, id));
                    }
                    if has_file_id(files@, id) {
                        assert(has_file_id(next[l as int].files@, id));
                    }
                    if version_has_file(next, id) {
                        let w = choose|w: int|
                            0 <= w < next.len() && has_file_id((#[trigger] next[w]).files@, id);
                        if w < l {
                            assert(has_file_id(seen[w].files@, id));
                        }
                    }
                }
            }
            l += 1;
        }
        proof {
            assert(levels.take(levels.len() as int) =~= levels);
        }
        let mut levels: Vec<LevelHandler> = Vec::new();
        levels.push(LevelHandler::new(0));
        levels.push(LevelHandler::new(1));
        self.levels = levels;
        removed
    }
}

/// The id of the file that is next to enter is the id of no file that the
/// version holds by now.
proof fn lemma_new_file_is_apart(
    start: TableVersion,
    current: TableVersion,
    all: Seq<AddFile>,
    n: int,
    file: FileHandle,
)
    requires
        start.wf(),
        current.wf(),
        adds_are_new(all, start.levels@),
        1 <= n <= all.len(),
        is_handle_of(file, all[n - 1]),
        forall|l: int, f: FileHandle|
            0 <= l < MAX_LEVEL ==> (#[trigger] current.levels@[l].files@.contains(f) <==> (
            start.levels@[l].files@.contains(f) || added_on(all, n, l, f))),
    ensures
        forall|l: int, i: int|
            0 <= l < MAX_LEVEL && 0 <= i < current.levels@[l].files@.len() ==> (
            #[trigger] current.levels@[l].files@[i]).spec_id() != file.spec_id(),
        forall|l: int| 0 <= l < MAX_LEVEL
            ==> !has_file_id((#[trigger] current.levels@[l]).files@, file.spec_id()),
{
    assert forall|l: int, i: int|
        0 <= l < MAX_LEVEL && 0 <= i < current.levels@[l].files@.len() implies (
    #[trigger] current.levels@[l].files@[i]).spec_id() != file.spec_id() by {
        let f = current.levels@[l].files@[i];
        assert(current.levels@[l].files@.contains(f));
        if start.levels@[l].files@.contains(f) {
            let a = choose|a: int| 0 <= a < start.levels@[l].files@.len()
                && start.levels@[l].files@[a] == f;
            assert(has_file_id(start.levels@[l].files@, f.spec_id()));
            assert(version_has_file(start.levels@, f.spec_id()));
            assert(!version_has_file(start.levels@, all[n - 1].file.id));
        } else {
            let k = choose|k: int|
                n <= k < all.len() && 0 <= k && (#[trigger] all[k]).level == l
                    && is_handle_of(f, all[k]);
            assert(all[n - 1].file.id != all[k].file.id);
        }
    }
}

proof fn lemma_subsets_stay_apart(
    before: TableVersion,
    after: TableVersion,
    deletes: Seq<DeleteFile>,
)
    requires
        before.wf(),
        after.levels@.len() == MAX_LEVEL,
        forall|l: int|
            0 <= l < MAX_LEVEL
                ==> (#[trigger] after.levels@[l]).files@ == before.levels@[l].files@.filter(
                not_deleted_on(deletes, l as Level),
            ),
    ensures
        after.files_on_one_level(),
{
    assert forall|l1: int, l2: int, i: int, j: int|
        0 <= l1 < l2 < after.levels@.len() && 0 <= i < after.levels@[l1].files@.len() && 0 <= j
            < after.levels@[l2].files@.len()
                implies (#[trigger] after.levels@[l1].files@[i]).spec_id()
        != (#[trigger] after.levels@[l2].files@[j]).spec_id() by {
        let f1 = after.levels@[l1].files@[i];
        let f2 = after.levels@[l2].files@[j];
        assert(after.levels@[l1].files@.contains(f1));
        assert(after.levels@[l2].files@.contains(f2));
        before.levels@[l1].files@.lemma_filter_contains_rev(not_deleted_on(deletes, l1 as Level),
            f1);
        before.levels@[l2].files@.lemma_filter_contains_rev(not_deleted_on(deletes, l2 as Level),
            f2);
        let a = choose|a: int|
            0 <= a < before.levels@[l1].files@.len() && before.levels@[l1].files@[a] == f1;
        let b = choose|b: int|
            0 <= b < before.levels@[l2].files@.len() && before.levels@[l2].files@[b] == f2;
        assert(before.levels@[l1].files@[a].spec_id() != before.levels@[l2].files@[b].spec_id());
    }
}

/// The ids of the files that the deletes take out of `level`.
fn deleted_ids(deletes: &Vec<DeleteFile>, level: Level) -> (ids: Vec<FileId>)
    ensures
        forall|id: FileId|
            ids@.contains(id) <==> deletes@.contains((DeleteFile { level, file_id: id })),
{
    let mut ids: Vec<FileId> = Vec::new();
    let mut k: usize = 0;
    while k < deletes.len()
        invariant
            k <= deletes@.len(),
            forall|id: FileId|
                ids@.contains(id) <==> deletes@.take(k as int).contains(
                    (DeleteFile { level, file_id: id }),
                ),
        decreases deletes@.len() - k,
    {
        let ghost before = ids@;
        let ghost seen = deletes@.take(k as int);
        let ghost next = deletes@.take(k + 1);
        let d = deletes[k];
        if d.level == level {
            ids.push(d.file_id);
        }
        proof {
            assert(next =~= seen.push(d));
            assert forall|id: FileId| ids@.contains(id) <==> next.contains(
                (DeleteFile { level, file_id: id }),
            ) by {
                let target = DeleteFile { level, file_id: id };
                if ids@.contains(id) {
                    if before.contains(id) {
                        let j = choose|j: int| 0 <= j < seen.len() && seen[j] == target;
                        assert(next[j] == target);
                    } else {
                        let j = choose|j: int| 0 <= j < ids@.len() && ids@[j] == id;
                        if j < before.len() {
                            assert(before[j] == id);
                        }
                        assert(next[k as int] == target);
                    }
                }
                if next.contains(target) {
                    let j = choose|j: int| 0 <= j < next.len() && next[j] == target;
                    if j < k {
                        assert(seen[j] == target);
                        assert(before.contains(id));
                        let i = choose|i: int| 0 <= i < before.len() && before[i] == id;
                        assert(ids@[i] == id);
                    } else {
                        assert(ids@[ids@.len() - 1] == id);
                    }
                }
            }
        }
        k += 1;
    }
    proof {
        assert(deletes@.take(deletes@.len() as int) =~= deletes@);
    }
    ids
}

/// A file of one level of a version is on no other level.
proof fn lemma_file_on_one_level(version: TableVersion, l1: int, l2: int, id: FileId)
    requires
        version.files_on_one_level(),
        0 <= l1 < version.levels@.len(),
        0 <= l2 < version.levels@.len(),
        l1 != l2,
        has_file_id(version.levels@[l1].files@, id),
    ensures
        !has_file_id(version.levels@[l2].files@, id),
{
    if has_file_id(version.levels@[l2].files@, id) {
        let i = choose|i: int|
            0 <= i < version.levels@[l1].files@.len() && (
            #[trigger] version.levels@[l1].files@[i]).spec_id() == id;
        let j = choose|j: int|
            0 <= j < version.levels@[l2].files@.len() && (
            #[trigger] version.levels@[l2].files@[j]).spec_id() == id;
        if l1 < l2 {
            assert(version.levels@[l1].files@[i].spec_id()
                != version.levels@[l2].files@[j].spec_id());
        } else {
            assert(version.levels@[l2].files@[j].spec_id()
                != version.levels@[l1].files@[i].spec_id());
        }
    }
}

/// A list without repetitions has none after taking an id that it did not
/// hold.
proof fn lemma_push_new(ids: Seq<FileId>, id: FileId)
    requires
        ids.no_duplicates(),
        !ids.contains(id),
    ensures
        ids.push(id).no_duplicates(),
{
    let next = ids.push(id);
    assert forall|i: int, j: int| 0 <= i < next.len() && 0 <= j < next.len() && i != j
        implies next[i] != next[j] by {
        if i == ids.len() {
            assert(ids[j] == next[j]);
            assert(ids.contains(ids[j]));
        } else if j == ids.len() {
            assert(ids[i] == next[i]);
            assert(ids.contains(ids[i]));
        }
    }
}

/// Takes the files that the deletes name out of the level, and appends the ids
/// of those that it held to `removed`.
fn delete_on_level(handler: &mut LevelHandler, deletes: &Vec<DeleteFile>, removed: &mut Vec<FileId>)
    requires
        old(handler).wf(),
        old(removed)@.no_duplicates(),
        forall|id: FileId| old(removed)@.contains(id) ==> !has_file_id(old(handler).files@, id),
    ensures
        final(removed)@.no_duplicates(),
        final(handler).wf(),
        final(handler).level == old(handler).level,
        final(handler).files@ == old(handler).files@.filter(
            not_deleted_on(deletes@, old(handler).level),
        ),
        forall|id: FileId|
            final(removed)@.contains(id) <==> (old(removed)@.contains(id) || (has_file_id(
                old(handler).files@,
                id,
            ) && deletes@.contains((DeleteFile { level: old(handler).level, file_id: id })))),
{
    let level = handler.level;
    let ids = deleted_ids(deletes, level);
    let ghost files = handler.files@;
    let ghost start = removed@;
    let mut i: usize = 0;
    while i < handler.files.files.len()
        invariant
            handler.files@ == files,
            handler.wf(),
            i <= files.len(),
            removed@.no_duplicates(),
            forall|id: FileId| start.contains(id) ==> !has_file_id(files, id),
            forall|id: FileId|
                removed@.contains(id) <==> (start.contains(id) || (has_file_id(
                    files.take(i as int),
                    id,
                ) && ids@.contains(id))),
        decreases files.len() - i,
    {
        let ghost before = removed@;
        let id_i = handler.files.files[i].id();
        let hit = crate::sst::file::contains_file_id(ids.as_slice(), id_i);
        if hit {
            removed.push(id_i);
        }
        proof {
            let seen = files.take(i as int);
            let next = files.take(i + 1);
            assert(next =~= seen.push(files[i as int]));
            assert(has_file_id(files, id_i));
            if has_file_id(seen, id_i) {
                let w = choose|w: int|
                    0 <= w < seen.len() && (#[trigger] seen[w]).spec_id() == id_i;
                assert(files[w].spec_id() == files[i as int].spec_id());
            }
            assert(!before.contains(id_i));
            lemma_push_new(before, id_i);
            assert forall|id: FileId| removed@.contains(id) <==> (start.contains(id) || (
            has_file_id(next, id) && ids@.contains(id))) by {
                if removed@.contains(id) {
                    let j = choose|j: int| 0 <= j < removed@.len() && removed@[j] == id;
                    if j < before.len() {
                        assert(before[j] == id);
                        assert(before.contains(id));
                        if !start.contains(id) {
                            let w = choose|w: int|
                                0 <= w < seen.len() && (#[trigger] seen[w]).spec_id() == id;
                            assert(next[w].spec_id() == id);
                        }
                    } else {
                        assert(next[i as int].spec_id() == id);
                    }
                }
                if start.contains(id) {
                    assert(before.contains(id));
                    let j = choose|j: int| 0 <= j < before.len() && before[j] == id;
                    assert(removed@[j] == id);
                }
                if has_file_id(next, id) && ids@.contains(id) {
                    let w = choose|w: int| 0 <= w < next.len()
                        && (#[trigger] next[w]).spec_id() == id;
                    if w < i {
                        assert(seen[w].spec_id() == id);
                        assert(before.contains(id));
                        let j = choose|j: int| 0 <= j < before.len() && before[j] == id;
                        assert(removed@[j] == id);
                    } else {
                        assert(removed@[removed@.len() - 1] == id);
                    }
                }
            }
        }
        i += 1;
    }
    proof {
        assert(files.take(files.len() as int) =~= files);
        assert forall|id: FileId|
            removed@.contains(id) <==> (start.contains(id) || (has_file_id(files, id)
                && deletes@.contains((DeleteFile { level, file_id: id })))) by {
            assert(ids@.contains(id) <==> deletes@.contains((DeleteFile { level, file_id: id })));
        }
    }
    handler.remove_ssts(ids.as_slice());
    proof {
        assert(id_not_in(ids@) =~= not_deleted_on(deletes@, level));
    }
}

/// Whether `id` is one of `ids`.
pub fn contains_mem_id(ids: &Vec<MemTableId>, id: MemTableId) -> (b: bool)
    ensures
        b == ids@.contains(id),
{
    let mut i: usize = 0;
    while i < ids.len()
        invariant
            i <= ids@.len(),
            forall|j: int| 0 <= j < i ==> ids@[j] != id,
        decreases ids@.len() - i,
    {
        if ids[i] == id {
            return true;
        }
        i += 1;
    }
    false
}

} // verus!
