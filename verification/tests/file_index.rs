use analytic_engine::fixtures::build_schema;
use analytic_engine::proto::{SstMetaDataPb, TableSchemaPb, TimeRangePb};
use analytic_engine::schema;
use analytic_engine::sst::file::{
    contains_file_id, decimal, merge_sst_meta, Error, FileHandle, FileHandleSet, FileMeta,
    FileOrdKey, FilePurgeQueue, FilePurgeRequest, FilePurger, LevelHandler, Request, SstFilePath,
    SstMetaData, StopPlan,
};
use analytic_engine::time::{TimeRange, Timestamp};

fn range(start: i64, end: i64) -> TimeRange {
    TimeRange::new(Timestamp::new(start), Timestamp::new(end)).unwrap()
}

fn meta(id: u64, start: i64, end: i64) -> FileMeta {
    FileMeta {
        id,
        meta: SstMetaData {
            min_key: vec![id as u8],
            max_key: vec![id as u8, 9],
            time_range: range(start, end),
            max_sequence: id * 10,
            schema: build_schema(),
            size: 100 * id,
            row_num: id,
            index_map: Vec::new(),
        },
    }
}

fn file(id: u64, start: i64, end: i64) -> FileHandle {
    FileHandle::new(meta(id, start, end))
}

fn ids(files: &[FileHandle]) -> Vec<u64> {
    files.iter().map(|f| f.id()).collect()
}

fn set_of(files: Vec<FileHandle>) -> FileHandleSet {
    let mut set = FileHandleSet::new();
    for f in files {
        set.insert(f);
    }
    set
}

#[test]
fn a_handle_hands_out_what_its_meta_holds() {
    let mut handle = file(3, 10, 20);
    assert_eq!(handle.id(), 3);
    assert_eq!(*handle.id_ref(), 3);
    assert_eq!(handle.row_num(), 3);
    assert_eq!(handle.size(), 300);
    assert_eq!(handle.max_sequence(), 30);
    assert_eq!(handle.min_key(), vec![3]);
    assert_eq!(handle.max_key(), vec![3, 9]);
    assert_eq!(handle.time_range(), range(10, 20));
    assert_eq!(*handle.time_range_ref(), range(10, 20));
    assert!(handle.intersect_with_time_range(range(19, 30)));
    assert!(!handle.intersect_with_time_range(range(20, 30)));
    assert!(!handle.being_compacted());
    handle.set_being_compacted(true);
    assert!(handle.being_compacted());
    let copy = handle.clone();
    assert_eq!(copy, handle);
    assert!(meta(3, 10, 20).intersect_with_time_range(range(0, 11)));
    assert!(!meta(3, 10, 20).intersect_with_time_range(range(0, 10)));
}

#[test]
fn files_are_ordered_by_end_then_start_then_id() {
    let set = set_of(vec![
        file(5, 0, 30),
        file(1, 10, 20),
        file(4, 5, 20),
        file(2, 5, 20),
        file(3, 0, 10),
    ]);
    assert_eq!(ids(&set.files), [3, 2, 4, 1, 5]);
    assert_eq!(set.len(), 5);
    assert_eq!(set.latest().map(|f| f.id()), Some(5));
    assert_eq!(FileHandleSet::new().latest(), None);
}

#[test]
fn file_ord_key_orders_lexicographically() {
    let a = FileOrdKey::key_of(&file(7, 1, 9));
    assert_eq!(a.exclusive_end, Timestamp::new(9));
    assert_eq!(a.inclusive_start, Timestamp::new(1));
    assert_eq!(a.file_id, 7);
    let seek = FileOrdKey::for_seek(Timestamp::new(9));
    assert_eq!(seek.inclusive_start, Timestamp::min_value());
    assert_eq!(seek.file_id, 0);
    assert!(seek.lt(&a));
    assert!(!a.lt(&seek));
    assert!(!a.lt(&a));
    assert!(FileOrdKey::key_of(&file(7, 1, 9)).lt(&FileOrdKey::key_of(&file(8, 1, 9))));
    assert!(FileOrdKey::key_of(&file(9, 0, 9)).lt(&FileOrdKey::key_of(&file(8, 1, 9))));
    assert!(FileOrdKey::key_of(&file(9, 5, 8)).lt(&FileOrdKey::key_of(&file(8, 1, 9))));
}

#[test]
fn inserting_a_known_id_replaces_the_file() {
    let mut set = set_of(vec![file(1, 0, 10), file(2, 10, 20)]);
    set.insert(file(1, 30, 40));
    assert_eq!(ids(&set.files), [2, 1]);
    assert_eq!(set.files[1].time_range(), range(30, 40));
    assert!(set.contains_id(1));
    assert!(!set.contains_id(3));
}

#[test]
fn files_by_time_range_picks_the_intersecting_files_in_order() {
    let set = set_of(vec![file(1, 0, 10), file(2, 5, 15), file(3, 15, 25), file(4, 0, 40)]);
    assert_eq!(ids(&set.files_by_time_range(range(10, 15))), [2, 4]);
    assert_eq!(ids(&set.files_by_time_range(range(0, 1))), [1, 4]);
    assert_eq!(ids(&set.files_by_time_range(range(9, 16))), [1, 2, 3, 4]);
    assert_eq!(ids(&set.files_by_time_range(range(40, 50))), Vec::<u64>::new());
    assert_eq!(ids(&set.files_by_time_range(range(12, 12))), [2, 4]);
}

#[test]
fn remove_by_ids_takes_out_the_files_named() {
    let mut set = set_of(vec![file(1, 0, 10), file(2, 5, 15), file(3, 15, 25)]);
    set.remove_by_ids(&[3, 9, 1]);
    assert_eq!(ids(&set.files), [2]);
    set.remove_by_ids(&[]);
    assert_eq!(ids(&set.files), [2]);
    assert!(contains_file_id(&[4, 5], 5));
    assert!(!contains_file_id(&[4, 5], 6));
}

#[test]
fn collect_expired_appends_the_expired_files_only() {
    let set = set_of(vec![file(1, 0, 10), file(2, 5, 15), file(3, 15, 25), file(4, 0, 15)]);
    let mut expired = vec![file(9, 0, 1)];
    set.collect_expired(Some(Timestamp::new(15)), &mut expired);
    assert_eq!(ids(&expired), [9, 1, 4, 2]);
    let mut none = Vec::new();
    set.collect_expired(None, &mut none);
    assert!(none.is_empty());
    set.collect_expired(Some(Timestamp::new(9)), &mut none);
    assert!(none.is_empty());
    assert!(set.has_expired_sst(Some(Timestamp::new(10))));
    assert!(!set.has_expired_sst(Some(Timestamp::new(9))));
    assert!(!set.has_expired_sst(None));
    assert!(!FileHandleSet::new().has_expired_sst(Some(Timestamp::new(100))));
}

#[test]
fn set_being_compacted_marks_the_files_named() {
    let mut set = set_of(vec![file(1, 0, 10), file(2, 5, 15), file(3, 15, 25)]);
    set.set_being_compacted(&[1, 3], true);
    let marks: Vec<bool> = set.files.iter().map(|f| f.being_compacted()).collect();
    assert_eq!(marks, [true, false, true]);
    set.set_being_compacted(&[3], false);
    let marks: Vec<bool> = set.files.iter().map(|f| f.being_compacted()).collect();
    assert_eq!(marks, [true, false, false]);
}

#[test]
fn level_zero_picks_by_time_range() {
    let mut level = LevelHandler::new(0);
    assert!(level.pick_ssts(range(0, 100)).is_empty());
    assert_eq!(level.latest_sst(), None);
    level.insert(file(1, 0, 10));
    // A single file that does not meet the range stays where it is.
    assert!(level.pick_ssts(range(10, 20)).is_empty());
    assert_eq!(ids(&level.files.files), [1]);
    assert_eq!(ids(&level.pick_ssts(range(5, 20))), [1]);
    level.insert(file(2, 5, 20));
    assert_eq!(ids(&level.pick_ssts(range(9, 10))), [1, 2]);
    assert_eq!(level.latest_sst().map(|f| f.id()), Some(2));
    level.remove_ssts(&[1]);
    assert_eq!(ids(&level.files.files), [2]);
}

#[test]
fn other_levels_pick_nothing_by_time_range() {
    let mut level = LevelHandler::new(1);
    level.insert(file(1, 0, 10));
    assert!(level.pick_ssts(range(0, 100)).is_empty());
    let mut expired = Vec::new();
    level.collect_expired(Some(Timestamp::new(10)), &mut expired);
    assert_eq!(ids(&expired), [1]);
    assert!(level.has_expired_sst(Some(Timestamp::new(10))));
}

#[test]
fn iter_ssts_walks_the_files_in_key_order() {
    let mut level = LevelHandler::new(0);
    level.insert(file(2, 5, 20));
    level.insert(file(1, 0, 10));
    let mut iter = level.iter_ssts();
    assert_eq!(iter.next().map(|f| f.id()), Some(1));
    assert_eq!(iter.next().map(|f| f.id()), Some(2));
    assert_eq!(iter.next(), None);
    assert_eq!(iter.next(), None);
}

#[test]
fn merge_sst_meta_spans_the_files() {
    let files = vec![file(2, 10, 20), file(1, 5, 12), file(3, 11, 30)];
    let merged = merge_sst_meta(&files, build_schema());
    assert_eq!(merged.min_key, vec![1]);
    assert_eq!(merged.max_key, vec![3, 9]);
    assert_eq!(merged.time_range, range(5, 30));
    assert_eq!(merged.max_sequence, 30);
    assert_eq!(merged.schema, build_schema());
    assert_eq!(merged.size, 0);
    assert_eq!(merged.row_num, 0);
    assert!(merged.index_map.is_empty());
}

#[test]
fn merge_sst_meta_of_one_file_is_its_own_span() {
    let merged = merge_sst_meta(&[file(4, 7, 9)], build_schema());
    assert_eq!(merged.min_key, vec![4]);
    assert_eq!(merged.max_key, vec![4, 9]);
    assert_eq!(merged.time_range, range(7, 9));
    assert_eq!(merged.max_sequence, 40);
}

#[test]
fn a_purge_queue_ignores_files_once_closed() {
    let mut queue = FilePurgeQueue::new(3, 7);
    let request = Request::Purge(FilePurgeRequest { space_id: 3, table_id: 7, file_id: 11 });
    assert_eq!(queue.push_file(11), Some(request));
    assert_eq!(
        queue.push_files(&vec![11, 12]),
        vec![
            request,
            Request::Purge(FilePurgeRequest { space_id: 3, table_id: 7, file_id: 12 })
        ]
    );
    queue.close();
    assert!(queue.closed);
    assert_eq!(queue.push_file(11), None);
    assert!(queue.push_files(&vec![11, 12]).is_empty());
}

#[test]
fn the_purger_deletes_up_to_the_first_exit() {
    let purge = |file_id| Request::Purge(FilePurgeRequest { space_id: 1, table_id: 2, file_id });
    let run = FilePurger::purge_file_loop(&vec![purge(5), purge(6), Request::Exit, purge(7)]);
    assert_eq!(
        run.deletes,
        vec![
            SstFilePath { space_id: 1, table_id: 2, file_id: 5 },
            SstFilePath { space_id: 1, table_id: 2, file_id: 6 }
        ]
    );
    assert!(run.exited);
    let open = FilePurger::purge_file_loop(&vec![purge(5)]);
    assert_eq!(open.deletes.len(), 1);
    assert!(!open.exited);
    let empty = FilePurger::purge_file_loop(&vec![]);
    assert!(empty.deletes.is_empty());
    assert!(!empty.exited);
    let at_once = FilePurger::purge_file_loop(&vec![Request::Exit]);
    assert!(at_once.deletes.is_empty());
    assert!(at_once.exited);
}

#[test]
fn the_purger_is_joined_once() {
    let mut purger = FilePurger::start();
    assert_eq!(purger.create_purge_queue(1, 2), FilePurgeQueue::new(1, 2));
    assert_eq!(purger.stop(), StopPlan { request: Request::Exit, join: true });
    assert_eq!(purger.stop(), StopPlan { request: Request::Exit, join: false });
}

#[test]
fn a_file_path_names_space_table_and_file() {
    assert_eq!(SstFilePath { space_id: 12, table_id: 34, file_id: 56 }.to_string(), "12/34/56");
    assert_eq!(SstFilePath { space_id: 0, table_id: 0, file_id: 0 }.to_string(), "0/0/0");
    assert_eq!(
        SstFilePath { space_id: u32::MAX, table_id: u64::MAX, file_id: 1000 }.to_string(),
        "4294967295/18446744073709551615/1000"
    );
    assert_eq!(decimal(907), "907");
    assert_eq!(decimal(10), "10");
}

#[test]
fn meta_data_survives_being_stored() {
    let stored = SstMetaDataPb::from(meta(3, 10, 20).meta);
    assert_eq!(stored.time_range, TimeRangePb { start: 10, end: 20 });
    assert_eq!(stored.max_sequence, 30);
    assert_eq!(SstMetaData::try_from(stored), Ok(meta(3, 10, 20).meta));
}

#[test]
fn stored_meta_data_with_a_reversed_time_range_is_rejected() {
    let mut stored = SstMetaDataPb::from(meta(3, 10, 20).meta);
    stored.time_range = TimeRangePb { start: 21, end: 20 };
    // The time range is checked before the schema.
    stored.schema.num_key_columns = 0;
    assert_eq!(SstMetaData::try_from(stored), Err(Error::ConvertTimeRange));
}

#[test]
fn stored_meta_data_with_a_broken_schema_is_rejected() {
    let mut stored = SstMetaDataPb::from(meta(3, 10, 20).meta);
    stored.schema = TableSchemaPb { columns: Vec::new(), num_key_columns: 0, version: 1 };
    assert_eq!(
        SstMetaData::try_from(stored),
        Err(Error::ConvertTableSchema { source: schema::Error::MissingTimestampKey })
    );
}
