//! The read path: what a read sees of a table, cut into time buckets, and the
//! streams of rows that are built from it.

use crate::entry::{all_entries, sorted_entries, views, Entry};
use crate::instance::Instance;
use crate::memtable::MemTable;
use crate::request::{PartitionedStreams, ReadRequest};
use crate::row_iter::chain::chain;
use crate::row_iter::dedup::{dedup, drawn_from, keeps_latest};
use crate::row_iter::merge::merge;
use crate::sst::file::FileHandle;
use crate::table::data::TableData;
use crate::table::version::{pointees, ReadView, TableVersion, MAX_LEVEL};
use crate::table_options::TableOptions;
use crate::time::{TimeRange, Timestamp};
use crate::types::{FileId, TableId};
use vstd::prelude::*;
use vstd::seq_lib::*;

verus! {

/// Why a read fails.
#[derive(Clone, Copy, Debug, PartialEq, Eq, Structural)]
pub enum Error {
    /// The table has been dropped.
    TableDropped { table_id: TableId },
    /// A memtable of the table could not be scanned.
    ScanMemTable { table_id: TableId, source: crate::memtable::Error },
    /// The rows of a file that the sorted read needs are not at hand.
    BuildMergeIterator { table_id: TableId },
    /// The rows of a file that the unsorted read needs are not at hand.
    BuildChainIterator { table_id: TableId },
}

/// Number of batches that a stream of a read may hold back.
pub const RECORD_BATCH_READ_BUF_SIZE: usize = 1000;

/// Whether a read of the table has to merge its sources in key order: where
/// the table drops overwritten rows, or the read asks for an order.
pub fn need_merge_sort_streams(table_options: &TableOptions, read_request: &ReadRequest) -> (b:
    bool)
    ensures
        b == (table_options.spec_need_dedup() || read_request.order.spec_is_in_order()),
{
    table_options.need_dedup() || read_request.order.is_in_order()
}

/// Number of the time bucket in which the file starts.
pub open spec fn file_bucket(f: FileHandle, segment: i64) -> int {
    f.spec_time_range().inclusive_start.0 as int / segment as int
}

/// Number of the time bucket in which the memtable starts.
pub open spec fn mem_bucket(m: MemTable, segment: i64) -> int {
    m.time_range.inclusive_start.0 as int / segment as int
}

/// The test that a file starts in the bucket.
pub open spec fn file_in_bucket(segment: i64, bucket: int) -> spec_fn(FileHandle) -> bool {
    |f: FileHandle| file_bucket(f, segment) == bucket
}

/// The test that a memtable starts in the bucket.
pub open spec fn mem_in_bucket(segment: i64, bucket: int) -> spec_fn(MemTable) -> bool {
    |m: MemTable| mem_bucket(m, segment) == bucket
}

/// One of the files starts in the bucket.
pub open spec fn bucket_among_files(files: Seq<FileHandle>, segment: i64, bucket: int) -> bool {
    exists|i: int| 0 <= i < files.len() && file_bucket(#[trigger] files[i], segment) == bucket
}

/// One of the files of one of the levels starts in the bucket.
pub open spec fn bucket_among_levels(
    leveled: Seq<Vec<FileHandle>>,
    segment: i64,
    bucket: int,
) -> bool {
    exists|l: int| 0 <= l < leveled.len()
        && bucket_among_files((#[trigger] leveled[l])@, segment, bucket)
}

/// One of the memtables starts in the bucket.
pub open spec fn bucket_among_mems(mems: Seq<&MemTable>, segment: i64, bucket: int) -> bool {
    exists|i: int| 0 <= i < mems.len() && mem_bucket(*#[trigger] mems[i], segment) == bucket
}

/// A file or a memtable of the view starts in the bucket.
pub open spec fn is_bucket_of(view: ReadView, segment: i64, bucket: int) -> bool {
    bucket_among_levels(view.leveled_ssts@, segment, bucket) || bucket_among_mems(
        view.memtables@,
        segment,
        bucket,
    )
}

/// The numbers ascend strictly.
pub open spec fn ascending(keys: Seq<i64>) -> bool {
    forall|i: int, j: int| 0 <= i < j < keys.len() ==> keys[i] < keys[j]
}

/// `part` is what `whole` holds of one time bucket: of each level the files
/// that start in the bucket, and the memtables that do, in their order; no
/// sampling memtable. It has a list of files for each level of a table.
pub open spec fn is_part_of(part: ReadView, whole: ReadView, segment: i64, bucket: int) -> bool {
    &&& part.sampling_mem.is_none()
    &&& pointees(part.memtables@)
        == pointees(whole.memtables@).filter(mem_in_bucket(segment, bucket))
    &&& part.leveled_ssts@.len() == MAX_LEVEL
    &&& forall|l: int|
        0 <= l < MAX_LEVEL
            ==> (#[trigger] part.leveled_ssts@[l])@ == if l < whole.leveled_ssts@.len() {
            whole.leveled_ssts@[l]@.filter(file_in_bucket(segment, bucket))
        } else {
            Seq::empty()
        }
}

/// `parts` cuts `whole` into its time buckets, in ascending order of the
/// buckets: one part for each bucket in which a file or a memtable of `whole`
/// starts.
pub open spec fn cut_by_buckets(parts: Seq<ReadView>, whole: ReadView, segment: i64, keys: Seq<i64>)
    -> bool {
    &&& ascending(keys)
    &&& forall|b: i64| keys.contains(b) <==> is_bucket_of(whole, segment, b as int)
    &&& parts.len() == keys.len()
    &&& forall|k: int|
        0 <= k < parts.len() ==> is_part_of(#[trigger] parts[k], whole, segment, keys[k] as int)
}

/// Puts the number into the ascending list, unless it is there.
fn insert_bucket(keys: &mut Vec<i64>, bucket: i64)
    requires
        ascending(old(keys)@),
    ensures
        ascending(final(keys)@),
        forall|b: i64| final(keys)@.contains(b) <==> (old(keys)@.contains(b) || b == bucket),
{
    let ghost before = keys@;
    let mut at: usize = 0;
    while at < keys.len() && keys[at] < bucket
        invariant
            keys@ == before,
            at <= before.len(),
            forall|i: int| 0 <= i < at ==> before[i] < bucket,
        decreases before.len() - at,
    {
        at += 1;
    }
    if at < keys.len() && keys[at] == bucket {
        proof {
            assert(before.contains(bucket));
        }
        return ;
    }
    keys.insert(at, bucket);
    proof {
        let after = keys@;
        assert forall|i: int, j: int| 0 <= i < j < after.len() implies after[i] < after[j] by {
            let oi = if i < at { i } else { i - 1 };
            let oj = if j < at { j } else { j - 1 };
            if i != at as int && j != at as int {
                assert(before[oi] < before[oj]);
            } else if i == at as int {
                if at < before.len() {
                    assert(before[at as int] <= before[oj]) by {
                        if at < oj {
                            assert(before[at as int] < before[oj]);
                        }
                    }
                }
            }
        }
        assert forall|b: i64| after.contains(b) <==> (before.contains(b) || b == bucket) by {
            if after.contains(b) {
                let i = choose|i: int| 0 <= i < after.len() && after[i] == b;
                if i != at as int {
                    let oi = if i < at { i } else { i - 1 };
                    assert(before[oi] == b);
                }
            }
            if before.contains(b) {
                let i = choose|i: int| 0 <= i < before.len() && before[i] == b;
                let ni = if i < at { i } else { i + 1 };
                assert(after[ni] == b);
            }
            if b == bucket {
                assert(after[at as int] == b);
            }
        }
    }
}

proof fn lemma_among_files_step(seen: Seq<FileHandle>, f: FileHandle, segment: i64, bucket: int)
    ensures
        bucket_among_files(seen.push(f), segment, bucket) <==> (bucket_among_files(
            seen,
            segment,
            bucket,
        ) || file_bucket(f, segment) == bucket),
{
    let next = seen.push(f);
    if bucket_among_files(seen, segment, bucket) {
        let w = choose|w: int| 0 <= w < seen.len()
            && file_bucket(#[trigger] seen[w], segment) == bucket;
        assert(file_bucket(next[w], segment) == bucket);
    }
    if file_bucket(f, segment) == bucket {
        assert(file_bucket(next[seen.len() as int], segment) == bucket);
    }
    if bucket_among_files(next, segment, bucket) {
        let w = choose|w: int| 0 <= w < next.len()
            && file_bucket(#[trigger] next[w], segment) == bucket;
        if w < seen.len() {
            assert(file_bucket(seen[w], segment) == bucket);
        }
    }
}

proof fn lemma_among_mems_step(seen: Seq<&MemTable>, m: &MemTable, segment: i64, bucket: int)
    ensures
        bucket_among_mems(seen.push(m), segment, bucket) <==> (bucket_among_mems(
            seen,
            segment,
            bucket,
        ) || mem_bucket(*m, segment) == bucket),
{
    let next = seen.push(m);
    if bucket_among_mems(seen, segment, bucket) {
        let w = choose|w: int| 0 <= w < seen.len()
            && mem_bucket(*#[trigger] seen[w], segment) == bucket;
        assert(mem_bucket(*next[w], segment) == bucket);
    }
    if mem_bucket(*m, segment) == bucket {
        assert(mem_bucket(*next[seen.len() as int], segment) == bucket);
    }
    if bucket_among_mems(next, segment, bucket) {
        let w = choose|w: int| 0 <= w < next.len()
            && mem_bucket(*#[trigger] next[w], segment) == bucket;
        if w < seen.len() {
            assert(mem_bucket(*seen[w], segment) == bucket);
        }
    }
}

proof fn lemma_among_levels_step(
    seen: Seq<Vec<FileHandle>>,
    files: Vec<FileHandle>,
    segment: i64,
    bucket: int,
)
    ensures
        bucket_among_levels(seen.push(files), segment, bucket) <==> (bucket_among_levels(
            seen,
            segment,
            bucket,
        ) || bucket_among_files(files@, segment, bucket)),
{
    let next = seen.push(files);
    if bucket_among_levels(seen, segment, bucket) {
        let w = choose|w: int|
            0 <= w < seen.len() && bucket_among_files((#[trigger] seen[w])@, segment, bucket);
        assert(bucket_among_files(next[w]@, segment, bucket));
    }
    if bucket_among_files(files@, segment, bucket) {
        assert(bucket_among_files(next[seen.len() as int]@, segment, bucket));
    }
    if bucket_among_levels(next, segment, bucket) {
        let w = choose|w: int|
            0 <= w < next.len() && bucket_among_files((#[trigger] next[w])@, segment, bucket);
        if w < seen.len() {
            assert(bucket_among_files(seen[w]@, segment, bucket));
        }
    }
}

/// The buckets in which the files and the memtables of the view start, in
/// ascending order.
fn collect_buckets(view: &ReadView, segment: i64) -> (keys: Vec<i64>)
    requires
        segment > 0,
    ensures
        ascending(keys@),
        forall|b: i64| #![trigger keys@.contains(b)] keys@.contains(b)
            <==> is_bucket_of(*view, segment, b as int),
{
    let mut keys: Vec<i64> = Vec::new();
    let ghost leveled = view.leveled_ssts@;
    let mut l: usize = 0;
    proof {
        assert forall|b: i64| !bucket_among_levels(leveled.take(0), segment, b as int) by {}
    }
    while l < view.leveled_ssts.len()
        invariant
            segment > 0,
            leveled == view.leveled_ssts@,
            l <= leveled.len(),
            ascending(keys@),
            forall|b: i64|
                #![trigger keys@.contains(b)]
                keys@.contains(b)
                    <==> bucket_among_levels(leveled.take(l as int), segment, b as int),
        decreases leveled.len() - l,
    {
        let files = &view.leveled_ssts[l];
        let ghost done = keys@;
        let mut i: usize = 0;
        proof {
            assert forall|b: i64| !bucket_among_files(files@.take(0), segment, b as int) by {}
        }
        while i < files.len()
            invariant
                segment > 0,
                i <= files@.len(),
                ascending(keys@),
                forall|b: i64|
                    #![trigger keys@.contains(b)]
                    keys@.contains(b) <==> (done.contains(b) || bucket_among_files(
                        files@.take(i as int),
                        segment,
                        b as int,
                    )),
            decreases files@.len() - i,
        {
            let ghost before = keys@;
            let bucket = files[i].time_range().inclusive_start().bucket_index(segment);
            insert_bucket(&mut keys, bucket);
            proof {
                let seen = files@.take(i as int);
                assert(files@.take(i + 1) =~= seen.push(files@[i as int]));
                assert(file_bucket(files@[i as int], segment) == bucket as int);
                assert forall|b: i64|
                    #![trigger keys@.contains(b)]
                    keys@.contains(b) <==> (done.contains(b) || bucket_among_files(
                        files@.take(i + 1),
                        segment,
                        b as int,
                    )) by {
                    lemma_among_files_step(seen, files@[i as int], segment, b as int);
                    assert(before.contains(b) <==> (done.contains(b) || bucket_among_files(
                        seen,
                        segment,
                        b as int,
                    )));
                    assert(keys@.contains(b) <==> (before.contains(b) || b == bucket));
                }
            }
            i += 1;
        }
        proof {
            assert(files@.take(files@.len() as int) =~= files@);
            let seen = leveled.take(l as int);
            assert(leveled.take(l + 1) =~= seen.push(leveled[l as int]));
            assert forall|b: i64|
                #![trigger keys@.contains(b)]
                keys@.contains(b) <==> bucket_among_levels(
                    leveled.take(l + 1),
                    segment,
                    b as int,
                ) by {
                lemma_among_levels_step(seen, leveled[l as int], segment, b as int);
                assert(done.contains(b) <==> bucket_among_levels(seen, segment, b as int));
            }
        }
        l += 1;
    }
    proof {
        assert(leveled.take(leveled.len() as int) =~= leveled);
    }
    let ghost done = keys@;
    let ghost mems = view.memtables@;
    let mut i: usize = 0;
    proof {
        assert forall|b: i64| !bucket_among_mems(mems.take(0), segment, b as int) by {}
    }
    while i < view.memtables.len()
        invariant
            segment > 0,
            mems == view.memtables@,
            i <= mems.len(),
            ascending(keys@),
            forall|b: i64|
                #![trigger keys@.contains(b)]
                keys@.contains(b) <==> (done.contains(b) || bucket_among_mems(
                    mems.take(i as int),
                    segment,
                    b as int,
                )),
        decreases mems.len() - i,
    {
        let ghost before = keys@;
        let bucket = view.memtables[i].time_range().inclusive_start().bucket_index(segment);
        insert_bucket(&mut keys, bucket);
        proof {
            let seen = mems.take(i as int);
            assert(mems.take(i + 1) =~= seen.push(mems[i as int]));
            assert(mem_bucket(*mems[i as int], segment) == bucket as int);
            assert forall|b: i64|
                #![trigger keys@.contains(b)]
                keys@.contains(b) <==> (done.contains(b) || bucket_among_mems(
                    mems.take(i + 1),
                    segment,
                    b as int,
                )) by {
                lemma_among_mems_step(seen, mems[i as int], segment, b as int);
                assert(before.contains(b) <==> (done.contains(b) || bucket_among_mems(
                    seen,
                    segment,
                    b as int,
                )));
                assert(keys@.contains(b) <==> (before.contains(b) || b == bucket));
            }
        }
        i += 1;
    }
    proof {
        assert(mems.take(mems.len() as int) =~= mems);
    }
    keys
}

/// What the view holds of one time bucket.
fn part_of<'a>(whole: &ReadView<'a>, segment: i64, bucket: i64) -> (part: ReadView<'a>)
    requires
        segment > 0,
        whole.leveled_ssts@.len() <= MAX_LEVEL,
    ensures
        is_part_of(part, *whole, segment, bucket as int),
{
    let mut memtables: Vec<&'a MemTable> = Vec::new();
    let ghost mems = pointees(whole.memtables@);
    let ghost in_bucket = mem_in_bucket(segment, bucket as int);
    let mut i: usize = 0;
    while i < whole.memtables.len()
        invariant
            segment > 0,
            mems == pointees(whole.memtables@),
            in_bucket == mem_in_bucket(segment, bucket as int),
            i <= mems.len(),
            pointees(memtables@) == mems.take(i as int).filter(in_bucket),
        decreases mems.len() - i,
    {
        proof {
            mems.take(i as int).lemma_filter_push(mems[i as int], in_bucket);
            assert(mems.take(i as int).push(mems[i as int]) =~= mems.take(i + 1));
        }
        let ghost before = memtables@;
        let mem: &'a MemTable = whole.memtables[i];
        if mem.time_range().inclusive_start().bucket_index(segment) == bucket {
            memtables.push(mem);
            proof {
                assert(pointees(memtables@) =~= pointees(before).push(mems[i as int]));
            }
        }
        i += 1;
    }
    proof {
        assert(mems.take(mems.len() as int) =~= mems);
    }
    let mut leveled_ssts: Vec<Vec<FileHandle>> = Vec::new();
    let ghost file_test = file_in_bucket(segment, bucket as int);
    let mut l: usize = 0;
    while l < MAX_LEVEL
        invariant
            segment > 0,
            file_test == file_in_bucket(segment, bucket as int),
            l <= MAX_LEVEL,
            leveled_ssts@.len() == l,
            forall|k: int|
                0 <= k < l ==> (#[trigger] leveled_ssts@[k])@ == if k < whole.leveled_ssts@.len() {
                    whole.leveled_ssts@[k]@.filter(file_test)
                } else {
                    Seq::empty()
                },
        decreases MAX_LEVEL - l,
    {
        let mut picked: Vec<FileHandle> = Vec::new();
        if l < whole.leveled_ssts.len() {
            let files = &whole.leveled_ssts[l];
            let mut i: usize = 0;
            while i < files.len()
                invariant
                    segment > 0,
                    file_test == file_in_bucket(segment, bucket as int),
                    i <= files@.len(),
                    picked@ == files@.take(i as int).filter(file_test),
                decreases files@.len() - i,
            {
                proof {
                    files@.take(i as int).lemma_filter_push(files@[i as int], file_test);
                    assert(files@.take(i as int).push(files@[i as int]) =~= files@.take(i + 1));
                }
                if files[i].time_range().inclusive_start().bucket_index(segment) == bucket {
                    picked.push(files[i].clone());
                }
                i += 1;
            }
            proof {
                assert(files@.take(files@.len() as int) =~= files@);
            }
        }
        leveled_ssts.push(picked);
        l += 1;
    }
    ReadView { sampling_mem: None, memtables, leveled_ssts }
}

impl Instance {
    /// Cuts what a read sees of a table into its time buckets, in ascending
    /// order of the buckets, so that each bucket can be read by itself: a
    /// file or a memtable goes to the bucket in which it starts. Where the
    /// table has no segment duration yet, or the read sees a sampling
    /// memtable, the whole is the one part. Files that have expired at
    /// `expire_time` are not seen.
    pub fn partition_ssts_and_memtables<'a>(
        &self,
        time_range: TimeRange,
        version: &'a TableVersion,
        table_options: &TableOptions,
        expire_time: Option<Timestamp>,
    ) -> (parts: Vec<ReadView<'a>>)
        requires
            version.wf(),
            table_options.wf(),
        ensures
            is_partition_of(
                parts@,
                *version,
                time_range,
                expire_time,
                table_options.segment_duration,
            ),
    {
        let read_view = version.pick_read_view(time_range, expire_time);
        let ghost whole = read_view;
        proof {
            assert(is_read_view_of(whole, *version, time_range, expire_time));
        }
        let segment_duration = match table_options.segment_duration {
            Some(v) => v,
            None => {
                // The segment duration is not known, the table may still be
                // sampling: the whole view is the one part.
                let mut parts: Vec<ReadView<'a>> = Vec::new();
                parts.push(read_view);
                proof {
                    assert(parts@ =~= seq![whole]);
                }
                return parts;
            },
        };
        if read_view.contains_sampling() {
            // The view holds a sampling memtable: the whole view is the one
            // part.
            let mut parts: Vec<ReadView<'a>> = Vec::new();
            parts.push(read_view);
            proof {
                assert(parts@ =~= seq![whole]);
            }
            return parts;
        }
        let keys = collect_buckets(&read_view, segment_duration);
        let mut parts: Vec<ReadView<'a>> = Vec::new();
        let mut k: usize = 0;
        while k < keys.len()
            invariant
                segment_duration > 0,
                read_view.leveled_ssts@.len() <= MAX_LEVEL,
                k <= keys@.len(),
                parts@.len() == k,
                forall|j: int|
                    0 <= j < k ==> is_part_of(
                        #[trigger] parts@[j],
                        read_view,
                        segment_duration,
                        keys@[j] as int,
                    ),
            decreases keys@.len() - k,
        {
            let part = part_of(&read_view, segment_duration, keys[k]);
            parts.push(part);
            k += 1;
        }
        proof {
            assert(cut_by_buckets(parts@, whole, segment_duration, keys@));
        }
        parts
    }
}

/// What the read sees is read as one part: the table has no segment duration,
/// or the read sees a sampling memtable.
pub open spec fn is_read_as_one(whole: ReadView, segment_duration: Option<i64>) -> bool {
    segment_duration.is_none() || whole.sampling_mem.is_some()
}

/// `parts` is what a read of `time_range` sees of the version when files
/// expire at `expire_time`, cut into time buckets of the segment duration,
/// unless it is read as one part.
pub open spec fn is_partition_of(
    parts: Seq<ReadView>,
    version: TableVersion,
    time_range: TimeRange,
    expire_time: Option<Timestamp>,
    segment_duration: Option<i64>,
) -> bool {
    exists|whole: ReadView|
        #![trigger whole.leveled_ssts]
        {
            &&& is_read_view_of(whole, version, time_range, expire_time)
            &&& if is_read_as_one(whole, segment_duration) {
                parts == seq![whole]
            } else {
                exists|keys: Seq<i64>|
                    cut_by_buckets(parts, whole, segment_duration.unwrap(), keys)
            }
        }
}

/// `view` is what a read of `time_range` sees of the version: the sampling
/// memtable, the memtables whose bucket intersects the range, and of each
/// level the files whose time range does and that have not expired at
/// `expire_time`.
pub open spec fn is_read_view_of(
    view: ReadView,
    version: TableVersion,
    time_range: TimeRange,
    expire_time: Option<Timestamp>,
) -> bool {
    &&& match view.sampling_mem {
        Some(mem) => version.sampling_mem == Some(*mem),
        None => version.sampling_mem.is_none(),
    }
    &&& pointees(view.memtables@) == version.memtables@.filter(
        crate::table::version::mem_in_range(time_range),
    )
    &&& view.leveled_ssts@.len() == version.levels@.len()
    &&& forall|l: int|
        0 <= l < version.levels@.len() ==> (#[trigger] view.leveled_ssts@[l])@
            == version.levels@[l].files@.filter(
            crate::sst::file::live_in_range(time_range, expire_time),
        )
}

/// The rows of one file, as the store handed them out.
#[derive(Debug)]
pub struct SstData {
    pub file_id: FileId,
    pub rows: Vec<Entry>,
}

/// The rows of the file of that id: those of the first entry of the store
/// that has the id.
pub open spec fn sst_rows(store: Seq<SstData>, id: FileId) -> Option<Seq<Entry>>
    decreases store.len(),
{
    if store.len() == 0 {
        None
    } else if store[0].file_id == id {
        Some(store[0].rows@)
    } else {
        sst_rows(store.drop_first(), id)
    }
}

/// The store holds the rows of every file of every level.
pub open spec fn store_covers(store: Seq<SstData>, leveled: Seq<Vec<FileHandle>>) -> bool {
    forall|l: int, i: int|
        0 <= l < leveled.len() && 0 <= i < leveled[l]@.len() ==> sst_rows(
            store,
            (#[trigger] leveled[l]@[i]).spec_id(),
        ).is_some()
}

/// The rows of each file, in the order of the files; no rows for a file that
/// the store does not hold.
pub open spec fn file_sources(files: Seq<FileHandle>, store: Seq<SstData>) -> Seq<Seq<Entry>> {
    files.map_values(
        |f: FileHandle|
            match sst_rows(store, f.spec_id()) {
                Some(rows) => rows,
                None => Seq::empty(),
            },
    )
}

/// The rows of each file of each level, level after level.
pub open spec fn level_sources(leveled: Seq<Vec<FileHandle>>, store: Seq<SstData>) -> Seq<
    Seq<Entry>,
>
    decreases leveled.len(),
{
    if leveled.len() == 0 {
        Seq::empty()
    } else {
        level_sources(leveled.drop_last(), store) + file_sources(leveled.last()@, store)
    }
}

/// The rows of each memtable, in the order of the memtables.
pub open spec fn mem_sources(mems: Seq<&MemTable>) -> Seq<Seq<Entry>> {
    mems.map_values(|m: &MemTable| m.entries@)
}

/// The sources that a read of the view draws from: the sampling memtable,
/// the memtables, then the files, level after level.
pub open spec fn view_sources(view: ReadView, store: Seq<SstData>) -> Seq<Seq<Entry>> {
    (match view.sampling_mem {
        Some(mem) => seq![mem.entries@],
        None => Seq::empty(),
    }) + mem_sources(view.memtables@) + level_sources(view.leveled_ssts@, store)
}

/// Index of the first entry of the store that has the id.
pub fn find_sst(store: &Vec<SstData>, id: FileId) -> (found: Option<usize>)
    ensures
        match found {
            Some(i) => i < store@.len() && sst_rows(store@, id) == Some(store@[i as int].rows@),
            None => sst_rows(store@, id).is_none(),
        },
{
    let mut i: usize = 0;
    proof {
        assert(store@.skip(0) =~= store@);
    }
    while i < store.len()
        invariant
            i <= store@.len(),
            sst_rows(store@, id) == sst_rows(store@.skip(i as int), id),
        decreases store@.len() - i,
    {
        proof {
            assert(store@.skip(i as int)[0] == store@[i as int]);
            assert(store@.skip(i as int).drop_first() =~= store@.skip(i + 1));
        }
        if store[i].file_id == id {
            return Some(i);
        }
        i += 1;
    }
    proof {
        assert(store@.skip(store@.len() as int).len() == 0);
    }
    None
}

/// The sources of the view, copied out of the memtables and the store. None
/// where the store lacks the rows of a file of the view.
fn collect_sources(view: &ReadView, store: &Vec<SstData>) -> (sources: Option<Vec<Vec<Entry>>>)
    ensures
        match sources {
            Some(sources) => store_covers(store@, view.leveled_ssts@) && views(sources@)
                == view_sources(*view, store@),
            None => !store_covers(store@, view.leveled_ssts@),
        },
{
    let mut sources: Vec<Vec<Entry>> = Vec::new();
    match view.sampling_mem {
        Some(mem) => {
            sources.push(mem.scan());
        },
        None => {},
    }
    let ghost head = views(sources@);
    proof {
        assert(head =~= (match view.sampling_mem {
            Some(mem) => seq![mem.entries@],
            None => Seq::empty(),
        }));
    }
    let ghost mems = view.memtables@;
    let mut i: usize = 0;
    while i < view.memtables.len()
        invariant
            mems == view.memtables@,
            i <= mems.len(),
            views(sources@) == head + mem_sources(mems.take(i as int)),
        decreases mems.len() - i,
    {
        let ghost before = sources@;
        sources.push(view.memtables[i].scan());
        proof {
            assert(views(sources@) =~= views(before).push(mems[i as int].entries@));
            assert(mem_sources(mems.take(i + 1)) =~= mem_sources(mems.take(i as int)).push(
                mems[i as int].entries@,
            ));
            assert(views(sources@) =~= head + mem_sources(mems.take(i + 1)));
        }
        i += 1;
    }
    proof {
        assert(mems.take(mems.len() as int) =~= mems);
    }
    let ghost head = views(sources@);
    let ghost leveled = view.leveled_ssts@;
    let mut l: usize = 0;
    while l < view.leveled_ssts.len()
        invariant
            leveled == view.leveled_ssts@,
            l <= leveled.len(),
            store_covers(store@, leveled.take(l as int)),
            views(sources@) == head + level_sources(leveled.take(l as int), store@),
        decreases leveled.len() - l,
    {
        let files = &view.leveled_ssts[l];
        let ghost done = views(sources@);
        let mut i: usize = 0;
        while i < files.len()
            invariant
                leveled == view.leveled_ssts@,
                l < leveled.len(),
                files@ == leveled[l as int]@,
                i <= files@.len(),
                forall|k: int|
                    0 <= k < i ==> sst_rows(store@, (#[trigger] files@[k]).spec_id()).is_some(),
                views(sources@) == done + file_sources(files@.take(i as int), store@),
            decreases files@.len() - i,
        {
            let ghost before = sources@;
            match find_sst(store, files[i].id()) {
                Some(at) => {
                    sources.push(crate::memtable::copy_entries(&store[at].rows));
                },
                None => {
                    proof {
                        assert(leveled[l as int]@[i as int] == files@[i as int]);
                    }
                    return None;
                },
            }
            proof {
                let rows = sst_rows(store@, files@[i as int].spec_id()).unwrap();
                assert(views(sources@) =~= views(before).push(rows));
                assert(file_sources(files@.take(i + 1), store@) =~= file_sources(
                    files@.take(i as int),
                    store@,
                ).push(rows));
                assert(views(sources@) =~= done + file_sources(files@.take(i + 1), store@));
            }
            i += 1;
        }
        proof {
            assert(files@.take(files@.len() as int) =~= files@);
            assert(leveled.take(l + 1).drop_last() =~= leveled.take(l as int));
            assert(leveled.take(l + 1).last() == leveled[l as int]);
            assert(views(sources@) =~= head + level_sources(leveled.take(l + 1), store@));
            assert forall|a: int, b: int|
                0 <= a < leveled.take(l + 1).len()
                    && 0 <= b < leveled.take(l + 1)[a]@.len() implies sst_rows(
                store@,
                (#[trigger] leveled.take(l + 1)[a]@[b]).spec_id(),
            ).is_some() by {
                if a < l {
                    assert(leveled.take(l as int)[a]@[b] == leveled.take(l + 1)[a]@[b]);
                }
            }
        }
        l += 1;
    }
    proof {
        assert(leveled.take(leveled.len() as int) =~= leveled);
    }
    Some(sources)
}

/// The rows in reverse order.
fn reversed(rows: Vec<Entry>) -> (out: Vec<Entry>)
    ensures
        out@ == rows@.reverse(),
{
    let mut out: Vec<Entry> = Vec::new();
    let n = rows.len();
    let mut i: usize = 0;
    while i < n
        invariant
            n == rows@.len(),
            i <= n,
            out@.len() == i,
            forall|k: int| 0 <= k < i ==> out@[k] == rows@[n - 1 - k],
        decreases n - i,
    {
        out.push(rows[n - 1 - i]);
        i += 1;
    }
    proof {
        assert(out@ =~= rows@.reverse());
    }
    out
}

/// What the sorted read of one part hands out, given the rows of all sources
/// of the part: rows of the sources only; and where every source is sorted,
/// each key once, in ascending order of the keys, with the row of its latest
/// write. A descending read hands the same rows out from the last to the
/// first.
pub open spec fn is_merged_read(out: Seq<Entry>, sources: Seq<Seq<Entry>>, reverse: bool) -> bool {
    let forward = if reverse {
        out.reverse()
    } else {
        out
    };
    &&& drawn_from(sources.flatten(), forward)
    &&& (forall|s: int| 0 <= s < sources.len() ==> sorted_entries(#[trigger] sources[s]))
        ==> keeps_latest(sources.flatten(), forward)
}

/// What holds of the rows left of a merged stream holds of them against any
/// stream of the same rows: the order of the stream does not matter.
pub proof fn lemma_keeps_latest_of_same_rows(merged: Seq<Entry>, all: Seq<Entry>, out: Seq<Entry>)
    requires
        merged.to_multiset() == all.to_multiset(),
    ensures
        drawn_from(merged, out) ==> drawn_from(all, out),
        keeps_latest(merged, out) ==> keeps_latest(all, out),
{
    broadcast use vstd::multiset::group_multiset_axioms;

    merged.to_multiset_ensures();
    all.to_multiset_ensures();
    if drawn_from(merged, out) {
        assert forall|i: int| 0 <= i < out.len() implies all.contains(#[trigger] out[i]) by {
            assert(merged.contains(out[i]));
            assert(merged.to_multiset().count(out[i]) > 0);
        }
    }
    if keeps_latest(merged, out) {
        assert forall|j: int| 0 <= j < all.len() implies crate::row_iter::dedup::holds_latest_of(
            out,
            #[trigger] all[j],
        ) by {
            assert(all.contains(all[j]));
            assert(all.to_multiset().count(all[j]) > 0);
            assert(merged.contains(all[j]));
            let k = choose|k: int| 0 <= k < merged.len() && merged[k] == all[j];
            assert(crate::row_iter::dedup::holds_latest_of(out, merged[k]));
        }
    }
}

impl Instance {
    /// The sorted streams of a read, one for each part of what the read sees:
    /// each is the merge of the sources of its part, without the rows that a
    /// later write of the same key has overwritten.
    pub fn build_merge_iters(
        &self,
        table_data: &TableData,
        parts: &Vec<ReadView>,
        request: &ReadRequest,
        store: &Vec<SstData>,
    ) -> (r: Result<Vec<Vec<Entry>>, Error>)
        ensures
            match r {
                Ok(iters) => {
                    &&& iters@.len() == parts@.len()
                    &&& forall|k: int|
                        0 <= k < parts@.len() ==> store_covers(
                            store@,
                            (#[trigger] parts@[k]).leveled_ssts@,
                        ) && is_merged_read(
                            iters@[k]@,
                            view_sources(parts@[k], store@),
                            request.order.spec_is_in_desc_order(),
                        )
                },
                Err(e) => e == (Error::BuildMergeIterator { table_id: table_data.id }) && exists|
                    k: int,
                |
                    0 <= k < parts@.len() && !store_covers(
                        store@,
                        (#[trigger] parts@[k]).leveled_ssts@,
                    ),
            },
    {
        let reverse = request.order.is_in_desc_order();
        let mut iters: Vec<Vec<Entry>> = Vec::new();
        let mut k: usize = 0;
        while k < parts.len()
            invariant
                k <= parts@.len(),
                reverse == request.order.spec_is_in_desc_order(),
                iters@.len() == k,
                forall|j: int|
                    0 <= j < k ==> store_covers(store@, (#[trigger] parts@[j]).leveled_ssts@)
                        && is_merged_read(iters@[j]@, view_sources(parts@[j], store@), reverse),
            decreases parts@.len() - k,
        {
            let sources = match collect_sources(&parts[k], store) {
                Some(sources) => sources,
                None => {
                    return Err(Error::BuildMergeIterator { table_id: table_data.id });
                },
            };
            let merged = merge(&sources);
            let out = dedup(&merged);
            proof {
                let all = view_sources(parts@[k as int], store@);
                assert(all_entries(sources@) == all.flatten());
                crate::row_iter::dedup::lemma_drawn_from(merged@);
                lemma_keeps_latest_of_same_rows(merged@, all.flatten(), out@);
                if forall|s: int| 0 <= s < all.len() ==> sorted_entries(#[trigger] all[s]) {
                    assert forall|s: int| 0 <= s < sources@.len() implies sorted_entries(
                        #[trigger] sources@[s]@,
                    ) by {
                        assert(views(sources@)[s] == sources@[s]@);
                    }
                    crate::row_iter::dedup::lemma_dedup_keeps_latest(merged@);
                }
            }
            let out = if reverse {
                let ghost forward = out@;
                let back = reversed(out);
                proof {
                    assert(back@.reverse() =~= forward);
                }
                back
            } else {
                out
            };
            iters.push(out);
            k += 1;
        }
        Ok(iters)
    }

    /// The unsorted streams of a read, one for each part of what the read
    /// sees: each hands out the rows of the sources of its part, source after
    /// source, every row exactly once.
    pub fn build_chain_iters(
        &self,
        table_data: &TableData,
        parts: &Vec<ReadView>,
        request: &ReadRequest,
        store: &Vec<SstData>,
    ) -> (r: Result<Vec<Vec<Entry>>, Error>)
        requires
            request.order is NoOrder,
        ensures
            match r {
                Ok(iters) => {
                    &&& iters@.len() == parts@.len()
                    &&& forall|k: int|
                        0 <= k < parts@.len() ==> store_covers(
                            store@,
                            (#[trigger] parts@[k]).leveled_ssts@,
                        ) && iters@[k]@ == view_sources(parts@[k], store@).flatten()
                },
                Err(e) => e == (Error::BuildChainIterator { table_id: table_data.id }) && exists|
                    k: int,
                |
                    0 <= k < parts@.len() && !store_covers(
                        store@,
                        (#[trigger] parts@[k]).leveled_ssts@,
                    ),
            },
    {
        let mut iters: Vec<Vec<Entry>> = Vec::new();
        let mut k: usize = 0;
        while k < parts.len()
            invariant
                k <= parts@.len(),
                iters@.len() == k,
                forall|j: int|
                    0 <= j < k ==> store_covers(store@, (#[trigger] parts@[j]).leveled_ssts@)
                        && iters@[j]@ == view_sources(parts@[j], store@).flatten(),
            decreases parts@.len() - k,
        {
            let sources = match collect_sources(&parts[k], store) {
                Some(sources) => sources,
                None => {
                    return Err(Error::BuildChainIterator { table_id: table_data.id });
                },
            };
            let out = chain(&sources);
            iters.push(out);
            k += 1;
        }
        Ok(iters)
    }
}

/// The streams of the parts are those of a read of the table: sorted where
/// the table drops overwritten rows or the read asks for an order, else
/// chained.
pub open spec fn are_iters_of(
    iters: Seq<Vec<Entry>>,
    table: TableData,
    request: ReadRequest,
    store: Seq<SstData>,
    parts: Seq<ReadView>,
) -> bool {
    &&& iters.len() == parts.len()
    &&& forall|k: int|
        0 <= k < parts.len() ==> store_covers(store, (#[trigger] parts[k]).leveled_ssts@)
            && if table.opts.spec_need_dedup() || request.order.spec_is_in_order() {
            is_merged_read(
                iters[k]@,
                view_sources(parts[k], store),
                request.order.spec_is_in_desc_order(),
            )
        } else {
            iters[k]@ == view_sources(parts[k], store).flatten()
        }
}

/// The streams of the lanes are those of the parts, dealt out in turn.
pub open spec fn are_lanes_of(
    streams: Seq<Vec<Entry>>,
    iters: Seq<Vec<Entry>>,
    request: ReadRequest,
) -> bool {
    &&& streams.len() == request.opts.read_parallelism
    &&& forall|k: int|
        0 <= k < request.opts.read_parallelism ==> (#[trigger] streams[k])@ == lane_iters(
            dealing_order(views(iters), request),
            request.opts.read_parallelism as int,
            k,
        ).flatten()
}

/// `r` is what a read of the parts comes to: the streams of the parts, dealt
/// out to the lanes of the read; or the error that the rows of a file are not
/// at hand.
pub open spec fn is_read_of(
    r: Result<PartitionedStreams, Error>,
    table: TableData,
    request: ReadRequest,
    store: Seq<SstData>,
    parts: Seq<ReadView>,
) -> bool {
    match r {
        Ok(streams) => exists|iters: Seq<Vec<Entry>>|
            #![trigger iters.len()]
            are_iters_of(iters, table, request, store, parts) && are_lanes_of(
                streams.streams@,
                iters,
                request,
            ),
        Err(e) => e == (if table.opts.spec_need_dedup() || request.order.spec_is_in_order() {
            Error::BuildMergeIterator { table_id: table.id }
        } else {
            Error::BuildChainIterator { table_id: table.id }
        }) && exists|k: int|
            0 <= k < parts.len() && !store_covers(store, (#[trigger] parts[k]).leveled_ssts@),
    }
}

/// `r` is what a read of the table at the time `now` comes to: for a table
/// that has been dropped the error that says so; else what a read of the
/// parts comes to that the read sees of the table, without the files that
/// have expired at `now`.
pub open spec fn is_table_read(
    r: Result<PartitionedStreams, Error>,
    table: TableData,
    request: ReadRequest,
    store: Seq<SstData>,
    now: Timestamp,
) -> bool {
    if table.dropped {
        r == Err::<PartitionedStreams, Error>(Error::TableDropped { table_id: table.id })
    } else {
        exists|parts: Seq<ReadView>|
            #![trigger parts.len()]
            is_partition_of(
                parts,
                table.version,
                request.time_range,
                table.opts.spec_expire_time(now),
                table.opts.segment_duration,
            ) && is_read_of(r, table, request, store, parts)
    }
}

/// The streams among `iters` that go to lane `lane` of `lanes`: those whose
/// index leaves the remainder `lane`, in their order.
pub open spec fn lane_iters(iters: Seq<Seq<Entry>>, lanes: int, lane: int) -> Seq<Seq<Entry>>
    decreases iters.len(),
{
    if iters.len() == 0 {
        Seq::empty()
    } else {
        let rest = lane_iters(iters.drop_last(), lanes, lane);
        if (iters.len() - 1) % lanes == lane {
            rest.push(iters.last())
        } else {
            rest
        }
    }
}

/// The order in which the streams of the parts are dealt out to the lanes: a
/// descending read on one lane starts with the last part.
pub open spec fn dealing_order(iters: Seq<Seq<Entry>>, request: ReadRequest) -> Seq<Seq<Entry>> {
    if request.opts.read_parallelism == 1 && request.order.spec_is_in_desc_order() {
        iters.reverse()
    } else {
        iters
    }
}

/// All rows of the streams, stream after stream.
pub fn iters_to_stream(collection: &Vec<Vec<Entry>>) -> (stream: Vec<Entry>)
    ensures
        stream@ == views(collection@).flatten(),
{
    chain(collection)
}

impl Instance {
    /// Deals the streams of the parts out to the lanes of the read, in turn:
    /// the stream of lane `k` hands out the streams number `k`, `k + lanes`,
    /// and so on, one after the other. A descending read on one lane starts
    /// with the last part.
    pub fn build_partitioned_streams(
        &self,
        request: &ReadRequest,
        partitioned_iters: Vec<Vec<Entry>>,
    ) -> (streams: PartitionedStreams)
        requires
            request.opts.read_parallelism > 0 || partitioned_iters@.len() == 0,
        ensures
            streams.streams@.len() == request.opts.read_parallelism,
            forall|k: int|
                0 <= k < request.opts.read_parallelism ==> (#[trigger] streams.streams@[k])@
                    == lane_iters(
                    dealing_order(views(partitioned_iters@), *request),
                    request.opts.read_parallelism as int,
                    k,
                ).flatten(),
    {
        let read_parallelism = request.opts.read_parallelism;
        let backwards = read_parallelism == 1 && request.order.is_in_desc_order();
        let n = partitioned_iters.len();
        let ghost ordered = dealing_order(views(partitioned_iters@), *request);
        let mut streams: Vec<Vec<Entry>> = Vec::new();
        let mut k: usize = 0;
        while k < read_parallelism
            invariant
                n == partitioned_iters@.len(),
                read_parallelism == request.opts.read_parallelism,
                backwards == (read_parallelism == 1 && request.order.spec_is_in_desc_order()),
                ordered == dealing_order(views(partitioned_iters@), *request),
                k <= read_parallelism,
                streams@.len() == k,
                forall|j: int|
                    0 <= j < k ==> (#[trigger] streams@[j])@ == lane_iters(
                        ordered,
                        read_parallelism as int,
                        j,
                    ).flatten(),
            decreases read_parallelism - k,
        {
            let mut lane: Vec<Vec<Entry>> = Vec::new();
            let mut i: usize = 0;
            while i < n
                invariant
                    n == partitioned_iters@.len(),
                    ordered.len() == n,
                    backwards ==> ordered == views(partitioned_iters@).reverse(),
                    !backwards ==> ordered == views(partitioned_iters@),
                    k < read_parallelism,
                    i <= n,
                    views(lane@)
                        == lane_iters(ordered.take(i as int), read_parallelism as int, k as int),
                decreases n - i,
            {
                proof {
                    assert(ordered.take(i + 1).drop_last() =~= ordered.take(i as int));
                    assert(ordered.take(i + 1).last() == ordered[i as int]);
                }
                if i % read_parallelism == k {
                    let at = if backwards {
                        n - 1 - i
                    } else {
                        i
                    };
                    let ghost before = lane@;
                    lane.push(crate::memtable::copy_entries(&partitioned_iters[at]));
                    proof {
                        assert(views(partitioned_iters@)[at as int]
                            == partitioned_iters@[at as int]@);
                        assert(views(lane@) =~= views(before).push(ordered[i as int]));
                    }
                }
                i += 1;
            }
            proof {
                assert(ordered.take(n as int) =~= ordered);
            }
            streams.push(iters_to_stream(&lane));
            k += 1;
        }
        PartitionedStreams { streams }
    }

    /// Reads the table at the time `now`. A table that has been dropped is
    /// not read. Else what the read sees of the table is cut into time
    /// buckets, each bucket is read by itself, sorted where the table drops
    /// overwritten rows or the read asks for an order, and the streams of the
    /// buckets are dealt out to as many lanes as the read asks for. No file
    /// is read that has expired at `now`.
    pub fn partitioned_read_from_table(
        &self,
        table_data: &TableData,
        request: &ReadRequest,
        store: &Vec<SstData>,
        now: Timestamp,
    ) -> (r: Result<PartitionedStreams, Error>)
        requires
            table_data.wf(),
            request.opts.read_parallelism > 0,
        ensures
            is_table_read(r, *table_data, *request, store@, now),
    {
        if table_data.is_dropped() {
            return Err(Error::TableDropped { table_id: table_data.id });
        }
        let table_options = table_data.table_options();
        let expire_time = table_options.expire_time(now);
        let parts = self.partition_ssts_and_memtables(
            request.time_range,
            table_data.current_version(),
            &table_options,
            expire_time,
        );
        if need_merge_sort_streams(&table_options, request) {
            match self.build_merge_iters(table_data, &parts, request, store) {
                Ok(merge_iters) => {
                    let ghost iters = merge_iters@;
                    let streams = self.build_partitioned_streams(request, merge_iters);
                    proof {
                        assert(are_iters_of(iters, *table_data, *request, store@, parts@));
                        assert(are_lanes_of(streams.streams@, iters, *request));
                        assert(iters.len() == parts@.len());
                        assert(is_read_of(
                            Ok(streams),
                            *table_data,
                            *request,
                            store@,
                            parts@,
                        ));
                        assert(parts@.len() >= 0);
                    }
                    Ok(streams)
                },
                Err(e) => {
                    proof {
                        assert(parts@.len() >= 0);
                    }
                    Err(e)
                },
            }
        } else {
            match self.build_chain_iters(table_data, &parts, request, store) {
                Ok(chain_iters) => {
                    let ghost iters = chain_iters@;
                    let streams = self.build_partitioned_streams(request, chain_iters);
                    proof {
                        assert(are_iters_of(iters, *table_data, *request, store@, parts@));
                        assert(are_lanes_of(streams.streams@, iters, *request));
                        assert(iters.len() == parts@.len());
                        assert(is_read_of(
                            Ok(streams),
                            *table_data,
                            *request,
                            store@,
                            parts@,
                        ));
                        assert(parts@.len() >= 0);
                    }
                    Ok(streams)
                },
                Err(e) => {
                    proof {
                        assert(parts@.len() >= 0);
                    }
                    Err(e)
                },
            }
        }
    }
}

} // verus!
