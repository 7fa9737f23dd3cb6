//! Descriptors of segment files, the time-keyed index of one level, and the
//! queue of files to delete.

use crate::key::{bytes_le, copy_key, key_lt};
use crate::proto::{SstMetaDataPb, TableSchemaPb, TimeRangePb};
use crate::schema::{stored_schema_error, Schema};
use crate::time::{TimeRange, Timestamp};
use crate::types::{FileId, SequenceNumber, SpaceId, TableId};
use std::sync::Arc;
use vstd::prelude::*;
use vstd::string::*;

verus! {

/// Number of a level; only level 0 holds files that overlap in time.
pub type Level = u16;

/// Error of a segment file.
#[derive(Clone, Copy, Debug, PartialEq, Eq, Structural)]
pub enum Error {
    /// The stored time range ends before it starts.
    ConvertTimeRange,
    /// The stored schema breaks a rule of schemas.
    ConvertTableSchema { source: crate::schema::Error },
    /// The purger's task could not be joined.
    StopPurger,
}

/// The postings of one value of a tag: the series that carry it.
#[derive(Debug, PartialEq, Eq)]
pub struct TagValuePostings {
    pub value: String,
    pub tsids: Vec<u64>,
}

/// The index of one tag: its values, each with its postings.
#[derive(Debug, PartialEq, Eq)]
pub struct TagIndex {
    pub tag: String,
    pub values: Vec<TagValuePostings>,
}

/// Index of a file by tag, then by value.
pub type IndexMap = Vec<TagIndex>;

/// Meta data of a segment file, immutable once created.
#[derive(Debug, PartialEq, Eq)]
pub struct SstMetaData {
    pub min_key: Vec<u8>,
    pub max_key: Vec<u8>,
    /// Time range of the rows of the file.
    pub time_range: TimeRange,
    /// Greatest sequence number among the rows of the file.
    pub max_sequence: SequenceNumber,
    pub schema: Schema,
    /// Size of the file in bytes.
    pub size: u64,
    /// Number of rows of the file.
    pub row_num: u64,
    pub index_map: IndexMap,
}

impl From<SstMetaData> for SstMetaDataPb {
    /// The same meta data, field by field; the time range by its bounds.
    fn from(src: SstMetaData) -> (target: SstMetaDataPb)
        ensures
            target.min_key == src.min_key,
            target.max_key == src.max_key,
            target.time_range == (TimeRangePb {
                start: src.time_range.inclusive_start.0,
                end: src.time_range.exclusive_end.0,
            }),
            target.max_sequence == src.max_sequence,
            target.schema.columns == src.schema.columns,
            target.schema.num_key_columns == crate::schema::stored_num_key_columns(
                src.schema.num_key_columns,
            ),
            target.schema.version == src.schema.version,
            target.size == src.size,
            target.row_num == src.row_num,
            target.index_map == src.index_map,
    {
        SstMetaDataPb {
            min_key: src.min_key,
            max_key: src.max_key,
            time_range: TimeRangePb {
                start: src.time_range.inclusive_start.0,
                end: src.time_range.exclusive_end.0,
            },
            max_sequence: src.max_sequence,
            schema: TableSchemaPb::from(src.schema),
            size: src.size,
            row_num: src.row_num,
            index_map: src.index_map,
        }
    }
}

impl vstd::std_specs::convert::FromSpecImpl<SstMetaData> for SstMetaDataPb {
    /// What the conversion returns is stated where it is defined.
    open spec fn obeys_from_spec() -> bool {
        false
    }

    open spec fn from_spec(src: SstMetaData) -> SstMetaDataPb {
        arbitrary()
    }
}

impl vstd::std_specs::convert::TryFromSpecImpl<SstMetaDataPb> for SstMetaData {
    /// What the conversion returns is stated where it is defined.
    open spec fn obeys_try_from_spec() -> bool {
        false
    }

    open spec fn try_from_spec(src: SstMetaDataPb) -> Result<SstMetaData, Error> {
        arbitrary()
    }
}

impl SstMetaData {
    /// Why the stored meta data is not the meta data of a file, if it is not:
    /// its time range ends before it starts, or its schema breaks a rule.
    pub open spec fn stored_error(src: SstMetaDataPb) -> Option<Error> {
        if src.time_range.start > src.time_range.end {
            Some(Error::ConvertTimeRange)
        } else {
            match stored_schema_error(src.schema) {
                Some(source) => Some(Error::ConvertTableSchema { source }),
                None => None,
            }
        }
    }
}

impl TryFrom<SstMetaDataPb> for SstMetaData {
    type Error = Error;

    /// The meta data that was stored, with its time range and its schema
    /// checked anew.
    fn try_from(src: SstMetaDataPb) -> (r: Result<SstMetaData, Error>)
        ensures
            match r {
                Ok(meta) => {
                    &&& SstMetaData::stored_error(src).is_none()
                    &&& meta.min_key == src.min_key
                    &&& meta.max_key == src.max_key
                    &&& meta.time_range == (TimeRange {
                        inclusive_start: Timestamp(src.time_range.start),
                        exclusive_end: Timestamp(src.time_range.end),
                    })
                    &&& meta.max_sequence == src.max_sequence
                    &&& meta.schema@.columns == src.schema.columns@
                    &&& meta.schema@.version == src.schema.version
                    &&& meta.schema@.wf()
                    &&& meta.size == src.size
                    &&& meta.row_num == src.row_num
                    &&& meta.index_map == src.index_map
                },
                Err(e) => SstMetaData::stored_error(src) == Some(e),
            },
    {
        let time_range = match TimeRange::new(
            Timestamp::new(src.time_range.start),
            Timestamp::new(src.time_range.end),
        ) {
            Some(range) => range,
            None => {
                return Err(Error::ConvertTimeRange);
            },
        };
        let schema = match Schema::try_from_pb(src.schema) {
            Ok(schema) => schema,
            Err(source) => {
                return Err(Error::ConvertTableSchema { source });
            },
        };
        Ok(
            SstMetaData {
                min_key: src.min_key,
                max_key: src.max_key,
                time_range,
                max_sequence: src.max_sequence,
                schema,
                size: src.size,
                row_num: src.row_num,
                index_map: src.index_map,
            },
        )
    }
}

/// Meta of a segment file, immutable once created.
#[derive(Debug, PartialEq, Eq)]
pub struct FileMeta {
    /// Id of the file.
    pub id: FileId,
    pub meta: SstMetaData,
}

impl FileMeta {
    pub fn intersect_with_time_range(&self, time_range: TimeRange) -> (b: bool)
        ensures
            b == self.meta.time_range.spec_intersect_with(time_range),
    {
        self.meta.time_range.intersect_with(time_range)
    }
}

/// A second owner of the same meta.
///
/// Calls `Arc::clone`, which hands out another pointer to the same
/// allocation: what it points to is what the argument points to.
#[verifier::external_body]
fn share_meta(meta: &Arc<FileMeta>) -> (shared: Arc<FileMeta>)
    ensures
        shared == *meta,
{
    Arc::clone(meta)
}

/// A reference to a segment file. Copies of a handle share the file's meta;
/// the mark that the file is being compacted belongs to each copy, and the copy
/// in the level's index is the one that counts.
#[derive(Debug, PartialEq, Eq)]
pub struct FileHandle {
    pub meta: Arc<FileMeta>,
    pub being_compacted: bool,
}

impl Clone for FileHandle {
    fn clone(&self) -> (copy: FileHandle)
        ensures
            copy == *self,
    {
        FileHandle { meta: share_meta(&self.meta), being_compacted: self.being_compacted }
    }
}

impl FileHandle {
    /// The id of the file.
    pub open spec fn spec_id(self) -> FileId {
        self.meta.id
    }

    /// The time range of the file.
    pub open spec fn spec_time_range(self) -> TimeRange {
        self.meta.meta.time_range
    }

    /// The key by which the index orders the file.
    pub open spec fn ord_key(self) -> FileOrdKey {
        FileOrdKey {
            exclusive_end: self.spec_time_range().exclusive_end,
            inclusive_start: self.spec_time_range().inclusive_start,
            file_id: self.spec_id(),
        }
    }

    /// A handle to the file that `meta` describes, not being compacted.
    pub fn new(meta: FileMeta) -> (h: FileHandle)
        ensures
            *h.meta == meta,
            !h.being_compacted,
    {
        FileHandle { meta: Arc::new(meta), being_compacted: false }
    }

    pub fn row_num(&self) -> (n: u64)
        ensures
            n == self.meta.meta.row_num,
    {
        self.meta.meta.row_num
    }

    pub fn id(&self) -> (id: FileId)
        ensures
            id == self.spec_id(),
    {
        self.meta.id
    }

    pub fn id_ref(&self) -> (id: &FileId)
        ensures
            *id == self.spec_id(),
    {
        &self.meta.id
    }

    pub fn intersect_with_time_range(&self, time_range: TimeRange) -> (b: bool)
        ensures
            b == self.spec_time_range().spec_intersect_with(time_range),
    {
        self.meta.intersect_with_time_range(time_range)
    }

    pub fn min_key(&self) -> (key: Vec<u8>)
        ensures
            key@ == self.meta.meta.min_key@,
    {
        copy_key(&self.meta.meta.min_key)
    }

    pub fn max_key(&self) -> (key: Vec<u8>)
        ensures
            key@ == self.meta.meta.max_key@,
    {
        copy_key(&self.meta.meta.max_key)
    }

    pub fn time_range(&self) -> (range: TimeRange)
        ensures
            range == self.spec_time_range(),
    {
        self.meta.meta.time_range
    }

    pub fn time_range_ref(&self) -> (range: &TimeRange)
        ensures
            *range == self.spec_time_range(),
    {
        &self.meta.meta.time_range
    }

    pub fn max_sequence(&self) -> (sequence: SequenceNumber)
        ensures
            sequence == self.meta.meta.max_sequence,
    {
        self.meta.meta.max_sequence
    }

    pub fn being_compacted(&self) -> (b: bool)
        ensures
            b == self.being_compacted,
    {
        self.being_compacted
    }

    pub fn size(&self) -> (size: u64)
        ensures
            size == self.meta.meta.size,
    {
        self.meta.meta.size
    }

    pub fn set_being_compacted(&mut self, value: bool)
        ensures
            final(self).being_compacted == value,
            final(self).meta == old(self).meta,
    {
        self.being_compacted = value;
    }
}

/// Orders files by end time, then start time, then id.
#[derive(Clone, Copy, Debug, PartialEq, Eq, Structural)]
pub struct FileOrdKey {
    pub exclusive_end: Timestamp,
    pub inclusive_start: Timestamp,
    pub file_id: FileId,
}

impl FileOrdKey {
    /// `self` sorts strictly before `other`.
    pub open spec fn spec_lt(self, other: FileOrdKey) -> bool {
        self.exclusive_end.0 < other.exclusive_end.0 || (self.exclusive_end.0
            == other.exclusive_end.0 && (self.inclusive_start.0 < other.inclusive_start.0 || (
        self.inclusive_start.0 == other.inclusive_start.0 && self.file_id < other.file_id)))
    }

    /// The least key among those of the files that end at `exclusive_end`.
    pub fn for_seek(exclusive_end: Timestamp) -> (key: FileOrdKey)
        ensures
            key.exclusive_end == exclusive_end,
            key.inclusive_start.0 == i64::MIN,
            key.file_id == 0,
    {
        FileOrdKey { exclusive_end, inclusive_start: Timestamp::min_value(), file_id: 0 }
    }

    pub fn key_of(file: &FileHandle) -> (key: FileOrdKey)
        ensures
            key == file.ord_key(),
    {
        FileOrdKey {
            exclusive_end: file.time_range().exclusive_end(),
            inclusive_start: file.time_range().inclusive_start(),
            file_id: file.id(),
        }
    }

    pub fn lt(&self, other: &FileOrdKey) -> (b: bool)
        ensures
            b == self.spec_lt(*other),
    {
        self.exclusive_end.0 < other.exclusive_end.0 || (self.exclusive_end.0
            == other.exclusive_end.0 && (self.inclusive_start.0 < other.inclusive_start.0 || (
        self.inclusive_start.0 == other.inclusive_start.0 && self.file_id < other.file_id)))
    }
}

/// The files stand in strictly ascending order of their keys.
pub open spec fn sorted_by_key(files: Seq<FileHandle>) -> bool {
    forall|i: int, j: int|
        0 <= i < j < files.len() ==> (#[trigger] files[i]).ord_key().spec_lt(
            (#[trigger] files[j]).ord_key(),
        )
}

/// No two files share an id.
pub open spec fn distinct_ids(files: Seq<FileHandle>) -> bool {
    forall|i: int, j: int|
        0 <= i < j < files.len()
            ==> (#[trigger] files[i]).spec_id() != (#[trigger] files[j]).spec_id()
}

/// Some file of `files` has the id.
pub open spec fn has_file_id(files: Seq<FileHandle>, id: FileId) -> bool {
    exists|i: int| 0 <= i < files.len() && (#[trigger] files[i]).spec_id() == id
}

/// The test that a file's time range intersects `range`.
pub open spec fn in_range(range: TimeRange) -> spec_fn(FileHandle) -> bool {
    |f: FileHandle| f.spec_time_range().spec_intersect_with(range)
}

/// The test that a file has expired at `expire_time`.
pub open spec fn expired_at(expire_time: Option<Timestamp>) -> spec_fn(FileHandle) -> bool {
    |f: FileHandle| f.spec_time_range().spec_is_expired(expire_time)
}

/// The test that a read of `range` takes a file: its time range intersects
/// `range`, and it has not expired at `expire_time`.
pub open spec fn live_in_range(range: TimeRange, expire_time: Option<Timestamp>) -> spec_fn(
    FileHandle,
) -> bool {
    |f: FileHandle|
        f.spec_time_range().spec_intersect_with(range) && !f.spec_time_range().spec_is_expired(
            expire_time,
        )
}

/// The test that a file's id is none of `ids`.
pub open spec fn id_not_in(ids: Seq<FileId>) -> spec_fn(FileHandle) -> bool {
    |f: FileHandle| !ids.contains(f.spec_id())
}

/// The files of one level, in ascending order of (end time, start time, id).
#[derive(Debug)]
pub struct FileHandleSet {
    pub files: Vec<FileHandle>,
}

impl View for FileHandleSet {
    type V = Seq<FileHandle>;

    open spec fn view(&self) -> Seq<FileHandle> {
        self.files@
    }
}

impl FileHandleSet {
    /// The files are in strict key order and no two share an id.
    pub open spec fn wf(self) -> bool {
        sorted_by_key(self@) && distinct_ids(self@)
    }

    /// An empty set.
    pub fn new() -> (set: FileHandleSet)
        ensures
            set@.len() == 0,
            set.wf(),
    {
        FileHandleSet { files: Vec::new() }
    }

    pub fn len(&self) -> (n: usize)
        ensures
            n == self@.len(),
    {
        self.files.len()
    }

    /// The file with the greatest key: the one that ends last.
    pub fn latest(&self) -> (file: Option<FileHandle>)
        ensures
            self@.len() == 0 ==> file.is_none(),
            self@.len() > 0 ==> file == Some(self@.last()),
    {
        let n = self.files.len();
        if n == 0 {
            None
        } else {
            Some(self.files[n - 1].clone())
        }
    }

    /// Index of the first file whose key is not below `key`.
    fn seek(&self, key: &FileOrdKey) -> (at: usize)
        requires
            self.wf(),
        ensures
            at <= self@.len(),
            forall|i: int| 0 <= i < at ==> (#[trigger] self@[i]).ord_key().spec_lt(*key),
            forall|i: int| at <= i < self@.len() ==> !(#[trigger] self@[i]).ord_key().spec_lt(*key),
    {
        let mut at: usize = 0;
        while at < self.files.len() && FileOrdKey::key_of(&self.files[at]).lt(key)
            invariant
                at <= self@.len(),
                forall|i: int| 0 <= i < at ==> (#[trigger] self@[i]).ord_key().spec_lt(*key),
            decreases self@.len() - at,
        {
            at += 1;
        }
        proof {
            assert forall|i: int| at <= i < self@.len()
                implies !(#[trigger] self@[i]).ord_key().spec_lt(
                *key,
            ) by {
                if at < i {
                    assert(self@[at as int].ord_key().spec_lt(self@[i].ord_key()));
                }
            }
        }
        at
    }

    /// The files whose time range intersects `time_range`, in key order.
    pub fn files_by_time_range(&self, time_range: TimeRange) -> (picked: Vec<FileHandle>)
        requires
            self.wf(),
        ensures
            picked@ == self@.filter(in_range(time_range)),
    {
        // Seek to the first file whose end time is not below the start of the range.
        let seek_key = FileOrdKey::for_seek(time_range.inclusive_start());
        let start = self.seek(&seek_key);
        let mut picked: Vec<FileHandle> = Vec::new();
        proof {
            self@.take(start as int).lemma_all_neg_filter_empty(in_range(time_range));
        }
        let mut i: usize = start;
        while i < self.files.len()
            invariant
                i <= self@.len(),
                picked@ == self@.take(i as int).filter(in_range(time_range)),
            decreases self@.len() - i,
        {
            proof {
                self@.take(i as int).lemma_filter_push(self@[i as int], in_range(time_range));
                assert(self@.take(i as int).push(self@[i as int]) =~= self@.take(i + 1));
            }
            if self.files[i].intersect_with_time_range(time_range) {
                picked.push(self.files[i].clone());
            }
            i += 1;
        }
        proof {
            assert(self@.take(self@.len() as int) =~= self@);
        }
        picked
    }

    /// The files that a read of `time_range` takes, in key order: those whose
    /// time range intersects `time_range` and that have not expired at
    /// `expire_time`.
    pub fn files_to_read(&self, time_range: TimeRange, expire_time: Option<Timestamp>) -> (picked:
        Vec<FileHandle>)
        requires
            self.wf(),
        ensures
            picked@ == self@.filter(live_in_range(time_range, expire_time)),
    {
        let ghost test = live_in_range(time_range, expire_time);
        let mut picked: Vec<FileHandle> = Vec::new();
        let mut i: usize = 0;
        while i < self.files.len()
            invariant
                i <= self@.len(),
                test == live_in_range(time_range, expire_time),
                picked@ == self@.take(i as int).filter(test),
            decreases self@.len() - i,
        {
            proof {
                self@.take(i as int).lemma_filter_push(self@[i as int], test);
                assert(self@.take(i as int).push(self@[i as int]) =~= self@.take(i + 1));
            }
            if self.files[i].intersect_with_time_range(time_range)
                && !self.files[i].time_range().is_expired(expire_time) {
                picked.push(self.files[i].clone());
            }
            i += 1;
        }
        proof {
            assert(self@.take(self@.len() as int) =~= self@);
        }
        picked
    }

    fn position_of_id(&self, id: FileId) -> (at: Option<usize>)
        ensures
            match at {
                Some(i) => i < self@.len() && self@[i as int].spec_id() == id,
                None => !has_file_id(self@, id),
            },
    {
        let mut i: usize = 0;
        while i < self.files.len()
            invariant
                i <= self@.len(),
                forall|j: int| 0 <= j < i ==> (#[trigger] self@[j]).spec_id() != id,
            decreases self@.len() - i,
        {
            if self.files[i].id() == id {
                return Some(i);
            }
            i += 1;
        }
        None
    }

    /// Whether the set holds a file of that id.
    pub fn contains_id(&self, id: FileId) -> (b: bool)
        ensures
            b == has_file_id(self@, id),
    {
        self.position_of_id(id).is_some()
    }

    /// Puts the file into the set, in place of any file of the same id.
    pub fn insert(&mut self, file: FileHandle)
        requires
            old(self).wf(),
        ensures
            final(self).wf(),
            forall|f: FileHandle|
                final(self)@.contains(f) <==> (f == file || (old(self)@.contains(f) && f.spec_id()
                    != file.spec_id())),
            final(self)@.len() == if has_file_id(old(self)@, file.spec_id()) {
                old(self)@.len()
            } else {
                old(self)@.len() + 1
            },
    {
        let ghost before = self@;
        match self.position_of_id(file.id()) {
            Some(at) => {
                self.files.remove(at);
                proof {
                    lemma_remove_keeps_order(before, at as int);
                }
            },
            None => {},
        }
        let ghost without = self@;
        let key = FileOrdKey::key_of(&file);
        let at = self.seek(&key);
        self.files.insert(at, file);
        proof {
            let after = self@;
            assert forall|i: int, j: int| 0 <= i < j < after.len()
                implies (#[trigger] after[i]).ord_key().spec_lt(
                (#[trigger] after[j]).ord_key(),
            ) && after[i].spec_id() != after[j].spec_id() by {
                let oi = if i < at { i } else { i - 1 };
                let oj = if j < at { j } else { j - 1 };
                if i != at as int && j != at as int {
                    assert(without[oi].ord_key().spec_lt(without[oj].ord_key()));
                    assert(without[oi].spec_id() != without[oj].spec_id());
                } else if i == at as int {
                    assert(!without[oj].ord_key().spec_lt(key));
                    assert(without[oj].spec_id() != file.spec_id());
                } else {
                    assert(without[oi].ord_key().spec_lt(key));
                    assert(without[oi].spec_id() != file.spec_id());
                }
            }
            assert forall|f: FileHandle| after.contains(f) <==> (f == file || (before.contains(f)
                && f.spec_id() != file.spec_id())) by {
                if after.contains(f) {
                    let i = choose|i: int| 0 <= i < after.len() && after[i] == f;
                    if i != at as int {
                        let oi = if i < at { i } else { i - 1 };
                        assert(without[oi] == f);
                        assert(without.contains(f));
                    }
                }
                if before.contains(f) && f.spec_id() != file.spec_id() {
                    assert(without.contains(f));
                    let i = choose|i: int| 0 <= i < without.len() && without[i] == f;
                    let ni = if i < at { i } else { i + 1 };
                    assert(after[ni] == f);
                }
                if f == file {
                    assert(after[at as int] == f);
                }
            }
        }
    }

    /// Takes the files of the given ids out of the set.
    pub fn remove_by_ids(&mut self, file_ids: &[FileId])
        requires
            old(self).wf(),
        ensures
            final(self).wf(),
            final(self)@ == old(self)@.filter(id_not_in(file_ids@)),
    {
        let ghost before = self@;
        let mut kept: Vec<FileHandle> = Vec::new();
        let mut i: usize = 0;
        while i < self.files.len()
            invariant
                self@ == before,
                i <= before.len(),
                kept@ == before.take(i as int).filter(id_not_in(file_ids@)),
            decreases before.len() - i,
        {
            proof {
                before.take(i as int).lemma_filter_push(before[i as int], id_not_in(file_ids@));
                assert(before.take(i as int).push(before[i as int]) =~= before.take(i + 1));
            }
            if !contains_file_id(file_ids, self.files[i].id()) {
                kept.push(self.files[i].clone());
            }
            i += 1;
        }
        proof {
            assert(before.take(before.len() as int) =~= before);
            lemma_filter_keeps_order(before, id_not_in(file_ids@));
        }
        self.files = kept;
    }

    /// Marks the files of the given ids as being compacted, or as no longer
    /// being compacted.
    pub fn set_being_compacted(&mut self, file_ids: &[FileId], value: bool)
        requires
            old(self).wf(),
        ensures
            final(self).wf(),
            final(self)@.len() == old(self)@.len(),
            forall|i: int|
                0 <= i < old(self)@.len()
                    ==> (#[trigger] final(self)@[i]).meta == old(self)@[i].meta
                    && final(self)@[i].being_compacted == if file_ids@.contains(
                    old(self)@[i].spec_id(),
                ) {
                    value
                } else {
                    old(self)@[i].being_compacted
                },
    {
        let ghost before = self@;
        let n = self.files.len();
        let mut i: usize = 0;
        while i < n
            invariant
                n == before.len(),
                self@.len() == n,
                i <= n,
                forall|k: int|
                    0 <= k < n ==> (#[trigger] self@[k]).meta == before[k].meta,
                forall|k: int|
                    0 <= k < i ==> (#[trigger] self@[k]).being_compacted == if file_ids@.contains(
                        before[k].spec_id(),
                    ) {
                        value
                    } else {
                        before[k].being_compacted
                    },
                forall|k: int| i <= k < n ==> #[trigger] self@[k] == before[k],
            decreases n - i,
        {
            let ghost current = self@;
            if contains_file_id(file_ids, self.files[i].id()) {
                self.files[i].set_being_compacted(value);
            }
            proof {
                assert forall|k: int| 0 <= k < n && k != i implies #[trigger] self@[k]
                    == current[k] by {}
            }
            i += 1;
        }
        proof {
            let after = self@;
            assert forall|a: int, b: int| 0 <= a < b < after.len()
                implies (#[trigger] after[a]).ord_key().spec_lt(
                (#[trigger] after[b]).ord_key(),
            ) && after[a].spec_id() != after[b].spec_id() by {
                assert(before[a].ord_key().spec_lt(before[b].ord_key()));
                assert(before[a].spec_id() != before[b].spec_id());
                assert(after[a].meta == before[a].meta);
                assert(after[b].meta == before[b].meta);
            }
        }
    }

    /// Appends the expired files to `expired_files`, in key order.
    pub fn collect_expired(
        &self,
        expire_time: Option<Timestamp>,
        expired_files: &mut Vec<FileHandle>,
    )
        requires
            self.wf(),
        ensures
            final(expired_files)@ == old(expired_files)@ + self@.filter(expired_at(expire_time)),
    {
        let ghost before = expired_files@;
        let mut i: usize = 0;
        // Files are sorted by end time first, so the expired files come first.
        while i < self.files.len() && self.files[i].time_range().is_expired(expire_time)
            invariant
                i <= self@.len(),
                expired_files@ == before + self@.take(i as int),
                forall|j: int|
                    0 <= j < i ==> (#[trigger] self@[j]).spec_time_range().spec_is_expired(
                        expire_time,
                    ),
            decreases self@.len() - i,
        {
            expired_files.push(self.files[i].clone());
            proof {
                assert(self@.take(i as int).push(self@[i as int]) =~= self@.take(i + 1));
                assert(expired_files@ =~= before + self@.take(i + 1));
            }
            i += 1;
        }
        proof {
            lemma_expired_prefix(self@, expire_time, i as int);
        }
    }

    /// Whether some file of the set has expired.
    pub fn has_expired_sst(&self, expire_time: Option<Timestamp>) -> (b: bool)
        requires
            self.wf(),
        ensures
            b == exists|i: int|
                0 <= i < self@.len() && (#[trigger] self@[i]).spec_time_range().spec_is_expired(
                    expire_time,
                ),
    {
        // Files are sorted by end time first, so the first file decides.
        if self.files.len() > 0 {
            let b = self.files[0].time_range().is_expired(expire_time);
            proof {
                if !b {
                    assert forall|i: int| 0 <= i < self@.len()
                        implies !(#[trigger] self@[i]).spec_time_range().spec_is_expired(
                    expire_time) by {
                        if i > 0 {
                            assert(self@[0].ord_key().spec_lt(self@[i].ord_key()));
                        }
                    }
                }
            }
            b
        } else {
            false
        }
    }
}

/// Whether `id` is one of `ids`.
pub fn contains_file_id(ids: &[FileId], id: FileId) -> (b: bool)
    ensures
        b == ids@.contains(id),
{
    let mut i: usize = 0;
    while i < ids.len()
        invariant
            i <= ids@.len(),
            forall|j: int| 0 <= j < i ==> ids@[j] != id,
        decreases ids@.len() - i,
    {
        if ids[i] == id {
            return true;
        }
        i += 1;
    }
    false
}

proof fn lemma_remove_keeps_order(files: Seq<FileHandle>, at: int)
    requires
        sorted_by_key(files),
        distinct_ids(files),
        0 <= at < files.len(),
    ensures
        sorted_by_key(files.remove(at)),
        distinct_ids(files.remove(at)),
        forall|f: FileHandle|
            files.remove(at).contains(f) <==> (files.contains(f)
                && f.spec_id() != files[at].spec_id()),
        !has_file_id(files.remove(at), files[at].spec_id()),
{
    let after = files.remove(at);
    assert forall|i: int, j: int| 0 <= i < j < after.len()
        implies (#[trigger] after[i]).ord_key().spec_lt(
        (#[trigger] after[j]).ord_key(),
    ) && after[i].spec_id() != after[j].spec_id() by {
        let oi = if i < at { i } else { i + 1 };
        let oj = if j < at { j } else { j + 1 };
        assert(files[oi].ord_key().spec_lt(files[oj].ord_key()));
        assert(files[oi].spec_id() != files[oj].spec_id());
    }
    assert forall|f: FileHandle| after.contains(f) <==> (files.contains(f) && f.spec_id()
        != files[at].spec_id()) by {
        if after.contains(f) {
            let i = choose|i: int| 0 <= i < after.len() && after[i] == f;
            let oi = if i < at { i } else { i + 1 };
            assert(files[oi] == f);
            if oi < at {
                assert(files[oi].spec_id() != files[at].spec_id());
            } else {
                assert(files[at].spec_id() != files[oi].spec_id());
            }
        }
        if files.contains(f) && f.spec_id() != files[at].spec_id() {
            let i = choose|i: int| 0 <= i < files.len() && files[i] == f;
            let ni = if i < at { i } else { i - 1 };
            assert(after[ni] == f);
        }
    }
    assert forall|i: int| 0 <= i < after.len() implies (#[trigger] after[i]).spec_id()
        != files[at].spec_id() by {
        assert(after.contains(after[i]));
    }
}

/// What is left of an ordered set of files after a filter is an ordered set.
pub proof fn lemma_filter_keeps_order(files: Seq<FileHandle>, pred: spec_fn(FileHandle) -> bool)
    requires
        sorted_by_key(files),
        distinct_ids(files),
    ensures
        sorted_by_key(files.filter(pred)),
        distinct_ids(files.filter(pred)),
    decreases files.len(),
{
    reveal(Seq::filter);
    if files.len() > 0 {
        let rest = files.drop_last();
        assert forall|i: int, j: int| 0 <= i < j < rest.len()
            implies (#[trigger] rest[i]).ord_key().spec_lt(
            (#[trigger] rest[j]).ord_key(),
        ) && rest[i].spec_id() != rest[j].spec_id() by {
            assert(files[i].ord_key().spec_lt(files[j].ord_key()));
            assert(files[i].spec_id() != files[j].spec_id());
        }
        lemma_filter_keeps_order(rest, pred);
        let kept = rest.filter(pred);
        if pred(files.last()) {
            let out = kept.push(files.last());
            assert forall|i: int, j: int| 0 <= i < j < out.len()
                implies (#[trigger] out[i]).ord_key().spec_lt(
                (#[trigger] out[j]).ord_key(),
            ) && out[i].spec_id() != out[j].spec_id() by {
                if j == kept.len() {
                    assert(kept.contains(kept[i]));
                    rest.lemma_filter_contains_rev(pred, kept[i]);
                    let k = choose|k: int| 0 <= k < rest.len() && rest[k] == kept[i];
                    assert(files[k].ord_key().spec_lt(files[files.len() - 1].ord_key()));
                    assert(files[k].spec_id() != files[files.len() - 1].spec_id());
                } else {
                    assert(kept[i].ord_key().spec_lt(kept[j].ord_key()));
                }
            }
        }
    }
}

proof fn lemma_expired_prefix(files: Seq<FileHandle>, expire_time: Option<Timestamp>, n: int)
    requires
        sorted_by_key(files),
        0 <= n <= files.len(),
        forall|j: int|
            0 <= j < n ==> (#[trigger] files[j]).spec_time_range().spec_is_expired(expire_time),
        n < files.len() ==> !files[n].spec_time_range().spec_is_expired(expire_time),
    ensures
        files.filter(expired_at(expire_time)) == files.take(n),
    decreases files.len(),
{
    reveal(Seq::filter);
    let pred = expired_at(expire_time);
    if files.len() == 0 {
        assert(files.take(n) =~= files);
    } else {
        let rest = files.drop_last();
        assert forall|i: int, j: int| 0 <= i < j < rest.len()
            implies (#[trigger] rest[i]).ord_key().spec_lt(
            (#[trigger] rest[j]).ord_key(),
        ) by {
            assert(files[i].ord_key().spec_lt(files[j].ord_key()));
        }
        if n == files.len() {
            lemma_expired_prefix(rest, expire_time, n - 1);
            assert(rest.take(n - 1) =~= rest);
            assert(rest.push(files.last()) =~= files.take(n));
        } else {
            assert(!pred(files.last())) by {
                if n < files.len() - 1 {
                    assert(files[n].ord_key().spec_lt(files[files.len() - 1].ord_key()));
                }
            }
            assert forall|j: int| 0 <= j < n
                implies (#[trigger] rest[j]).spec_time_range().spec_is_expired(
            expire_time) by {
                assert(rest[j] == files[j]);
            }
            lemma_expired_prefix(rest, expire_time, n);
            assert(rest.take(n) =~= files.take(n));
        }
    }
}

/// Manages the files of a single level.
#[derive(Debug)]
pub struct LevelHandler {
    pub level: Level,
    /// All files of the level.
    pub files: FileHandleSet,
}

impl LevelHandler {
    /// The level's number and its files are in order.
    pub open spec fn wf(self) -> bool {
        self.files.wf()
    }

    pub fn new(level: Level) -> (handler: LevelHandler)
        ensures
            handler.level == level,
            handler.files@.len() == 0,
            handler.wf(),
    {
        LevelHandler { level, files: FileHandleSet::new() }
    }

    /// Puts the file into the level, in place of any file of the same id.
    pub fn insert(&mut self, file: FileHandle)
        requires
            old(self).wf(),
        ensures
            final(self).wf(),
            final(self).level == old(self).level,
            forall|f: FileHandle|
                final(self).files@.contains(f) <==> (f == file || (old(self).files@.contains(f)
                    && f.spec_id() != file.spec_id())),
            final(self).files@.len() == if has_file_id(old(self).files@, file.spec_id()) {
                old(self).files@.len()
            } else {
                old(self).files@.len() + 1
            },
    {
        self.files.insert(file);
    }

    /// The file of the level that ends last.
    pub fn latest_sst(&self) -> (file: Option<FileHandle>)
        ensures
            self.files@.len() == 0 ==> file.is_none(),
            self.files@.len() > 0 ==> file == Some(self.files@.last()),
    {
        self.files.latest()
    }

    /// On level 0, the files whose time range intersects `time_range`, in key
    /// order; on the other levels nothing, their files are found by scanning.
    pub fn pick_ssts(&self, time_range: TimeRange) -> (picked: Vec<FileHandle>)
        requires
            self.wf(),
        ensures
            self.level == 0 ==> picked@ == self.files@.filter(in_range(time_range)),
            self.level != 0 ==> picked@.len() == 0,
    {
        if self.level == 0 {
            self.files.files_by_time_range(time_range)
        } else {
            Vec::new()
        }
    }

    /// Takes the files of the given ids out of the level.
    pub fn remove_ssts(&mut self, file_ids: &[FileId])
        requires
            old(self).wf(),
        ensures
            final(self).wf(),
            final(self).level == old(self).level,
            final(self).files@ == old(self).files@.filter(id_not_in(file_ids@)),
    {
        self.files.remove_by_ids(file_ids);
    }

    /// Walks the files of the level in key order.
    pub fn iter_ssts(&self) -> (iter: Iter)
        ensures
            iter.files@ == self.files@,
            iter.position == 0,
    {
        let mut files: Vec<FileHandle> = Vec::new();
        let mut i: usize = 0;
        while i < self.files.files.len()
            invariant
                i <= self.files@.len(),
                files@ == self.files@.take(i as int),
            decreases self.files@.len() - i,
        {
            files.push(self.files.files[i].clone());
            proof {
                assert(self.files@.take(i as int).push(self.files@[i as int]) =~= self.files@.take(
                    i + 1,
                ));
            }
            i += 1;
        }
        proof {
            assert(self.files@.take(self.files@.len() as int) =~= self.files@);
        }
        Iter { files, position: 0 }
    }

    /// Appends the expired files of the level to `expired_files`, in key order.
    pub fn collect_expired(
        &self,
        expire_time: Option<Timestamp>,
        expired_files: &mut Vec<FileHandle>,
    )
        requires
            self.wf(),
        ensures
            final(expired_files)@ == old(expired_files)@ + self.files@.filter(
                expired_at(expire_time),
            ),
    {
        self.files.collect_expired(expire_time, expired_files);
    }

    /// Whether some file of the level has expired.
    pub fn has_expired_sst(&self, expire_time: Option<Timestamp>) -> (b: bool)
        requires
            self.wf(),
        ensures
            b == exists|i: int|
                0 <= i < self.files@.len() && (
                #[trigger] self.files@[i]).spec_time_range().spec_is_expired(expire_time),
    {
        self.files.has_expired_sst(expire_time)
    }
}

/// A walk over the files of a level, in key order.
#[derive(Debug)]
pub struct Iter {
    pub files: Vec<FileHandle>,
    pub position: usize,
}

impl Iter {
    /// The next file of the walk, until all have been handed out.
    pub fn next(&mut self) -> (file: Option<FileHandle>)
        requires
            old(self).position <= old(self).files@.len(),
        ensures
            final(self).files == old(self).files,
            old(self).position < old(self).files@.len() ==> file == Some(
                old(self).files@[old(self).position as int],
            ) && final(self).position == old(self).position + 1,
            old(self).position == old(self).files@.len() ==> file.is_none() && final(self).position
                == old(self).position,
    {
        if self.position < self.files.len() {
            let file = self.files[self.position].clone();
            self.position = self.position + 1;
            Some(file)
        } else {
            None
        }
    }
}

/// The request to delete one file of a table.
#[derive(Clone, Copy, Debug, PartialEq, Eq, Structural)]
pub struct FilePurgeRequest {
    pub space_id: SpaceId,
    pub table_id: TableId,
    pub file_id: FileId,
}

/// What the purger is asked to do.
#[derive(Clone, Copy, Debug, PartialEq, Eq, Structural)]
pub enum Request {
    Purge(FilePurgeRequest),
    Exit,
}

/// Where the object of a segment file lies in the store: below its space, then
/// its table, under its own id.
#[derive(Clone, Copy, Debug, PartialEq, Eq, Structural)]
pub struct SstFilePath {
    pub space_id: SpaceId,
    pub table_id: TableId,
    pub file_id: FileId,
}

/// The text of one decimal digit.
pub open spec fn digit_text(d: int) -> Seq<char> {
    if d == 0 {
        "0"@
    } else if d == 1 {
        "1"@
    } else if d == 2 {
        "2"@
    } else if d == 3 {
        "3"@
    } else if d == 4 {
        "4"@
    } else if d == 5 {
        "5"@
    } else if d == 6 {
        "6"@
    } else if d == 7 {
        "7"@
    } else if d == 8 {
        "8"@
    } else {
        "9"@
    }
}

/// The number in decimal digits, without leading zeros.
pub open spec fn decimal_text(n: nat) -> Seq<char>
    decreases n,
{
    if n < 10 {
        digit_text(n as int)
    } else {
        decimal_text(n / 10) + digit_text((n % 10) as int)
    }
}

fn digit(d: u64) -> (text: &'static str)
    requires
        d < 10,
    ensures
        text@ == digit_text(d as int),
{
    if d == 0 {
        "0"
    } else if d == 1 {
        "1"
    } else if d == 2 {
        "2"
    } else if d == 3 {
        "3"
    } else if d == 4 {
        "4"
    } else if d == 5 {
        "5"
    } else if d == 6 {
        "6"
    } else if d == 7 {
        "7"
    } else if d == 8 {
        "8"
    } else {
        "9"
    }
}

/// The number in decimal digits.
pub fn decimal(n: u64) -> (text: String)
    ensures
        text@ == decimal_text(n as nat),
    decreases n,
{
    if n < 10 {
        String::from_str(digit(n))
    } else {
        let mut text = decimal(n / 10);
        text.append(digit(n % 10));
        text
    }
}

impl SstFilePath {
    /// The path as text: the ids of the space, of the table and of the file,
    /// in decimal digits, with a slash between them.
    pub open spec fn text(self) -> Seq<char> {
        decimal_text(self.space_id as nat) + "/"@ + decimal_text(self.table_id as nat) + "/"@
            + decimal_text(self.file_id as nat)
    }

    /// The path of the object of the file in the store.
    pub fn to_string(&self) -> (path: String)
        ensures
            path@ == self.text(),
    {
        let mut path = decimal(self.space_id as u64);
        path.append("/");
        path.append(decimal(self.table_id).as_str());
        path.append("/");
        path.append(decimal(self.file_id).as_str());
        path
    }
}

/// The queue of the files of one table that are to be deleted. A table has
/// one queue, and with it one mark that says whether it is closed: the queue
/// cannot be copied.
#[derive(Debug, PartialEq, Eq)]
pub struct FilePurgeQueue {
    pub space_id: SpaceId,
    pub table_id: TableId,
    pub closed: bool,
}

impl FilePurgeQueue {
    pub fn new(space_id: SpaceId, table_id: TableId) -> (queue: FilePurgeQueue)
        ensures
            queue == (FilePurgeQueue { space_id, table_id, closed: false }),
    {
        FilePurgeQueue { space_id, table_id, closed: false }
    }

    /// Closes the queue: every file pushed from now on is ignored, so that no
    /// file is deleted after the engine has been closed.
    pub fn close(&mut self)
        ensures
            *final(self) == (FilePurgeQueue { closed: true, ..*old(self) }),
    {
        self.closed = true;
    }

    /// The request to hand to the purger for a file that nothing refers to any
    /// more; none once the queue is closed.
    pub fn push_file(&self, file_id: FileId) -> (request: Option<Request>)
        ensures
            self.closed ==> request.is_none(),
            !self.closed ==> request == Some(
                Request::Purge(
                    FilePurgeRequest { space_id: self.space_id, table_id: self.table_id, file_id },
                ),
            ),
    {
        if self.closed {
            return None;
        }
        Some(
            Request::Purge(
                FilePurgeRequest { space_id: self.space_id, table_id: self.table_id, file_id },
            ),
        )
    }
}

/// The request to purge the file of that id of the queue's table.
pub open spec fn purge_of(queue: FilePurgeQueue, file_id: FileId) -> Request {
    Request::Purge(
        FilePurgeRequest { space_id: queue.space_id, table_id: queue.table_id, file_id },
    )
}

impl FilePurgeQueue {
    /// The requests to hand to the purger for files that nothing refers to
    /// any more, in the order of the files; none once the queue is closed.
    pub fn push_files(&self, file_ids: &Vec<FileId>) -> (requests: Vec<Request>)
        ensures
            self.closed ==> requests@.len() == 0,
            !self.closed ==> requests@ == file_ids@.map_values(|id: FileId| purge_of(*self, id)),
            file_ids@.no_duplicates() ==> requests@.no_duplicates(),
    {
        let mut requests: Vec<Request> = Vec::new();
        let mut i: usize = 0;
        while i < file_ids.len()
            invariant
                i <= file_ids@.len(),
                self.closed ==> requests@.len() == 0,
                !self.closed ==> requests@ == file_ids@.take(i as int).map_values(
                    |id: FileId| purge_of(*self, id),
                ),
            decreases file_ids@.len() - i,
        {
            match self.push_file(file_ids[i]) {
                Some(request) => {
                    requests.push(request);
                },
                None => {},
            }
            proof {
                if !self.closed {
                    assert(requests@ =~= file_ids@.take(i + 1).map_values(
                        |id: FileId| purge_of(*self, id),
                    ));
                }
            }
            i += 1;
        }
        proof {
            assert(file_ids@.take(file_ids@.len() as int) =~= file_ids@);
            if file_ids@.no_duplicates() && !self.closed {
                assert forall|a: int, b: int|
                    0 <= a < requests@.len() && 0 <= b < requests@.len() && a != b
                    implies requests@[a] != requests@[b] by {
                    assert(requests@[a] == purge_of(*self, file_ids@[a]));
                    assert(requests@[b] == purge_of(*self, file_ids@[b]));
                }
            }
        }
        requests
    }
}

/// What `FilePurger::stop` asks of its caller.
#[derive(Clone, Copy, Debug, PartialEq, Eq, Structural)]
pub struct StopPlan {
    /// The request to send to the purger's task.
    pub request: Request,
    /// Whether the task is still to be joined.
    pub join: bool,
}

/// What one run of the purger's loop over its requests comes to.
#[derive(Debug)]
pub struct PurgeRun {
    /// The objects to delete, in the order of their requests.
    pub deletes: Vec<SstFilePath>,
    /// Whether the run met `Exit`.
    pub exited: bool,
}

/// Index of the first `Exit` among the requests, or their number.
pub open spec fn first_exit(requests: Seq<Request>) -> int
    decreases requests.len(),
{
    if requests.len() == 0 {
        0
    } else if requests[0] is Exit {
        0
    } else {
        1 + first_exit(requests.drop_first())
    }
}

/// The object that a request asks to delete.
pub open spec fn path_of(request: Request) -> SstFilePath {
    match request {
        Request::Purge(r) => SstFilePath {
            space_id: r.space_id,
            table_id: r.table_id,
            file_id: r.file_id,
        },
        Request::Exit => SstFilePath { space_id: 0, table_id: 0, file_id: 0 },
    }
}

/// `first_exit` is the one index below which no request is `Exit` and at which
/// one is, or the requests end.
pub proof fn lemma_first_exit(requests: Seq<Request>)
    ensures
        0 <= first_exit(requests) <= requests.len(),
        forall|i: int| 0 <= i < first_exit(requests) ==> (#[trigger] requests[i]) is Purge,
        first_exit(requests) < requests.len() ==> requests[first_exit(requests)] is Exit,
    decreases requests.len(),
{
    if requests.len() > 0 && !(requests[0] is Exit) {
        let rest = requests.drop_first();
        lemma_first_exit(rest);
        assert forall|i: int| 0 <= i < first_exit(requests)
            implies (#[trigger] requests[i]) is Purge by {
            if i > 0 {
                assert(rest[i - 1] == requests[i]);
            }
        }
        if first_exit(requests) < requests.len() {
            assert(rest[first_exit(rest)] == requests[first_exit(requests)]);
        }
    }
}

/// The background purger of files.
#[derive(Clone, Copy, Debug, PartialEq, Eq, Structural)]
pub struct FilePurger {
    /// Whether the purger's task has been joined already.
    pub joined: bool,
}

impl FilePurger {
    /// A purger whose task has just been started.
    pub fn start() -> (purger: FilePurger)
        ensures
            !purger.joined,
    {
        FilePurger { joined: false }
    }

    /// Stops the purger: its task is sent `Exit`, and joined the first time.
    pub fn stop(&mut self) -> (plan: StopPlan)
        ensures
            plan.request == Request::Exit,
            plan.join == !old(self).joined,
            final(self).joined,
    {
        let join = !self.joined;
        self.joined = true;
        StopPlan { request: Request::Exit, join }
    }

    pub fn create_purge_queue(&self, space_id: SpaceId, table_id: TableId) -> (queue:
        FilePurgeQueue)
        ensures
            queue == (FilePurgeQueue { space_id, table_id, closed: false }),
    {
        FilePurgeQueue::new(space_id, table_id)
    }

    /// Runs the purger over the requests it has received: the object of every
    /// request is to be deleted, in order, up to the first `Exit`.
    pub fn purge_file_loop(requests: &Vec<Request>) -> (run: PurgeRun)
        ensures
            run.deletes@ == requests@.take(first_exit(requests@)).map_values(
                |r: Request| path_of(r),
            ),
            run.exited == (first_exit(requests@) < requests@.len()),
    {
        let mut deletes: Vec<SstFilePath> = Vec::new();
        let mut exited = false;
        let mut i: usize = 0;
        proof {
            lemma_first_exit(requests@);
        }
        while i < requests.len()
            invariant_except_break
                !exited,
            invariant
                i <= requests@.len(),
                i <= first_exit(requests@),
                deletes@ == requests@.take(i as int).map_values(|r: Request| path_of(r)),
                0 <= first_exit(requests@) <= requests@.len(),
                forall|k: int|
                    0 <= k < first_exit(requests@) ==> (#[trigger] requests@[k]) is Purge,
                first_exit(requests@) < requests@.len()
                    ==> requests@[first_exit(requests@)] is Exit,
            ensures
                i == first_exit(requests@),
                deletes@ == requests@.take(i as int).map_values(|r: Request| path_of(r)),
                exited == (i < requests@.len()),
            decreases requests@.len() - i,
        {
            match requests[i] {
                Request::Purge(purge_request) => {
                    deletes.push(
                        SstFilePath {
                            space_id: purge_request.space_id,
                            table_id: purge_request.table_id,
                            file_id: purge_request.file_id,
                        },
                    );
                    proof {
                        if i as int == first_exit(requests@) {
                            assert(requests@[i as int] is Exit);
                        }
                        assert(requests@.take(i + 1).map_values(|r: Request| path_of(r))
                            =~= requests@.take(i as int).map_values(|r: Request| path_of(r)).push(
                            path_of(requests@[i as int]),
                        ));
                    }
                },
                Request::Exit => {
                    exited = true;
                    break;
                },
            }
            i += 1;
        }
        PurgeRun { deletes, exited }
    }
}

/// The least start among the time ranges of the files.
pub open spec fn is_min_start(files: Seq<FileHandle>, start: Timestamp) -> bool {
    &&& exists|i: int|
        0 <= i < files.len() && (#[trigger] files[i]).spec_time_range().inclusive_start == start
    &&& forall|i: int|
        0 <= i < files.len()
            ==> start.0 <= (#[trigger] files[i]).spec_time_range().inclusive_start.0
}

/// The greatest end among the time ranges of the files.
pub open spec fn is_max_end(files: Seq<FileHandle>, end: Timestamp) -> bool {
    &&& exists|i: int|
        0 <= i < files.len() && (#[trigger] files[i]).spec_time_range().exclusive_end == end
    &&& forall|i: int|
        0 <= i < files.len() ==> (#[trigger] files[i]).spec_time_range().exclusive_end.0 <= end.0
}

/// The greatest of the files' greatest sequence numbers.
pub open spec fn is_max_sequence(files: Seq<FileHandle>, sequence: SequenceNumber) -> bool {
    &&& exists|i: int| 0 <= i < files.len()
        && (#[trigger] files[i]).meta.meta.max_sequence == sequence
    &&& forall|i: int| 0 <= i < files.len()
        ==> (#[trigger] files[i]).meta.meta.max_sequence <= sequence
}

/// The least of the files' least keys.
pub open spec fn is_min_key(files: Seq<FileHandle>, key: Seq<u8>) -> bool {
    &&& exists|i: int| 0 <= i < files.len() && (#[trigger] files[i]).meta.meta.min_key@ == key
    &&& forall|i: int| 0 <= i < files.len()
        ==> bytes_le(key, (#[trigger] files[i]).meta.meta.min_key@)
}

/// The greatest of the files' greatest keys.
pub open spec fn is_max_key(files: Seq<FileHandle>, key: Seq<u8>) -> bool {
    &&& exists|i: int| 0 <= i < files.len() && (#[trigger] files[i]).meta.meta.max_key@ == key
    &&& forall|i: int| 0 <= i < files.len()
        ==> bytes_le((#[trigger] files[i]).meta.meta.max_key@, key)
}

/// Some file's time range does not end before it starts; then the range from
/// the least start to the greatest end does not either.
pub open spec fn some_range_wf(files: Seq<FileHandle>) -> bool {
    exists|i: int| 0 <= i < files.len() && (#[trigger] files[i]).spec_time_range().wf()
}

/// The meta of the file that takes the place of `files`: it spans their keys
/// and time ranges and carries their greatest sequence number. Its size and
/// number of rows are not known yet and stand at 0, and it has no index.
pub fn merge_sst_meta(files: &[FileHandle], schema: Schema) -> (merged: SstMetaData)
    requires
        files@.len() > 0,
        some_range_wf(files@),
    ensures
        is_min_key(files@, merged.min_key@),
        is_max_key(files@, merged.max_key@),
        is_min_start(files@, merged.time_range.inclusive_start),
        is_max_end(files@, merged.time_range.exclusive_end),
        merged.time_range.wf(),
        is_max_sequence(files@, merged.max_sequence),
        merged.schema == schema,
        merged.size == 0,
        merged.row_num == 0,
        merged.index_map@.len() == 0,
{
    let mut min_key = files[0].min_key();
    let mut max_key = files[0].max_key();
    let mut time_range_start = files[0].time_range().inclusive_start();
    let mut time_range_end = files[0].time_range().exclusive_end();
    let mut max_sequence = files[0].max_sequence();
    proof {
        let first = files@.take(1);
        assert(first.len() == 1);
        assert(first[0] == files@[0]);
        assert(bytes_le(min_key@, first[0].meta.meta.min_key@));
        assert(bytes_le(first[0].meta.meta.max_key@, max_key@));
    }

    let mut i: usize = 1;
    while i < files.len()
        invariant
            1 <= i <= files@.len(),
            is_min_key(files@.take(i as int), min_key@),
            is_max_key(files@.take(i as int), max_key@),
            is_min_start(files@.take(i as int), time_range_start),
            is_max_end(files@.take(i as int), time_range_end),
            is_max_sequence(files@.take(i as int), max_sequence),
        decreases files@.len() - i,
    {
        let file = &files[i];
        let ghost seen = files@.take(i as int);
        let ghost next = files@.take(i + 1);
        let ghost old_min = min_key@;
        let ghost old_max = max_key@;
        let ghost w_min = choose|k: int| 0 <= k < seen.len()
            && (#[trigger] seen[k]).meta.meta.min_key@ == old_min;
        let ghost w_max = choose|k: int| 0 <= k < seen.len()
            && (#[trigger] seen[k]).meta.meta.max_key@ == old_max;
        let ghost w_start = choose|k: int| 0 <= k < seen.len()
            && (#[trigger] seen[k]).spec_time_range().inclusive_start == time_range_start;
        let ghost w_end = choose|k: int| 0 <= k < seen.len()
            && (#[trigger] seen[k]).spec_time_range().exclusive_end == time_range_end;
        let ghost w_seq = choose|k: int| 0 <= k < seen.len()
            && (#[trigger] seen[k]).meta.meta.max_sequence == max_sequence;
        let file_min = file.min_key();
        if key_lt(&file_min, &min_key) {
            min_key = file_min;
        }
        let file_max = file.max_key();
        if key_lt(&max_key, &file_max) {
            max_key = file_max;
        }
        let ghost changed_start = file.spec_time_range().inclusive_start.0 < time_range_start.0;
        if file.time_range().inclusive_start().0 < time_range_start.0 {
            time_range_start = file.time_range().inclusive_start();
        }
        let ghost changed_end = file.spec_time_range().exclusive_end.0 > time_range_end.0;
        if file.time_range().exclusive_end().0 > time_range_end.0 {
            time_range_end = file.time_range().exclusive_end();
        }
        let ghost changed_seq = file.meta.meta.max_sequence > max_sequence;
        if file.max_sequence() > max_sequence {
            max_sequence = file.max_sequence();
        }
        proof {
            assert(next.len() == i + 1);
            assert(next[i as int] == files@[i as int]);
            assert forall|k: int| 0 <= k < i implies #[trigger] next[k] == seen[k] by {}
            let fmin = files@[i as int].meta.meta.min_key@;
            let fmax = files@[i as int].meta.meta.max_key@;
            crate::key::lemma_bytes_le_order(fmin, old_min, fmin);
            crate::key::lemma_bytes_le_order(old_max, fmax, old_max);
            // least key
            assert(next[if min_key@ == old_min { w_min } else { i as int }].meta.meta.min_key@
                == min_key@);
            assert forall|k: int| 0 <= k < next.len() implies bytes_le(
                min_key@,
                (#[trigger] next[k]).meta.meta.min_key@,
            ) by {
                if k < i {
                    assert(bytes_le(old_min, seen[k].meta.meta.min_key@));
                    crate::key::lemma_bytes_le_order(min_key@, old_min, seen[k].meta.meta.min_key@);
                } else {
                    crate::key::lemma_bytes_le_order(min_key@, fmin, fmin);
                }
            }
            // greatest key
            assert(next[if max_key@ == old_max { w_max } else { i as int }].meta.meta.max_key@
                == max_key@);
            assert forall|k: int| 0 <= k < next.len() implies bytes_le(
                (#[trigger] next[k]).meta.meta.max_key@,
                max_key@,
            ) by {
                if k < i {
                    assert(bytes_le(seen[k].meta.meta.max_key@, old_max));
                    crate::key::lemma_bytes_le_order(seen[k].meta.meta.max_key@, old_max, max_key@);
                } else {
                    crate::key::lemma_bytes_le_order(fmax, max_key@, fmax);
                }
            }
            // start, end, sequence
            assert(next[if changed_start { i as int } else { w_start }].spec_time_range().inclusive_start == time_range_start);
            assert forall|k: int| 0 <= k < next.len()
                implies time_range_start.0
                <= (#[trigger] next[k]).spec_time_range().inclusive_start.0 by {
                if k < i {
                    assert(seen[k] == next[k]);
                }
            }
            assert(next[if changed_end { i as int } else { w_end }].spec_time_range().exclusive_end == time_range_end);
            assert forall|k: int| 0 <= k < next.len()
                implies (#[trigger] next[k]).spec_time_range().exclusive_end.0
                <= time_range_end.0 by {
                if k < i {
                    assert(seen[k] == next[k]);
                }
            }
            assert(next[if changed_seq { i as int } else { w_seq }].meta.meta.max_sequence
                == max_sequence);
            assert forall|k: int| 0 <= k < next.len()
                implies (#[trigger] next[k]).meta.meta.max_sequence <= max_sequence by {
                if k < i {
                    assert(seen[k] == next[k]);
                }
            }
        }
        i += 1;
    }
    proof {
        assert(files@.take(files@.len() as int) =~= files@);
        let w = choose|k: int| 0 <= k < files@.len()
            && (#[trigger] files@[k]).spec_time_range().wf();
        assert(time_range_start.0 <= files@[w].spec_time_range().inclusive_start.0);
        assert(files@[w].spec_time_range().exclusive_end.0 <= time_range_end.0);
    }

    SstMetaData {
        min_key,
        max_key,
        time_range: TimeRange { inclusive_start: time_range_start, exclusive_end: time_range_end },
        max_sequence,
        schema,
        // The size of the file and its number of rows are not known yet.
        size: 0,
        row_num: 0,
        index_map: Vec::new(),
    }
}


} // verus!
