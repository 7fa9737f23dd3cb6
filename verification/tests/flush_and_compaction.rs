use analytic_engine::compaction::{pick, CompactionScheduler, CompactionTask, ScheduleOutcome};
use analytic_engine::config::ReadableSize;
use analytic_engine::entry::{encode_key, Entry, KeyedRow, PrimaryKey};
use analytic_engine::fixtures::build_schema;
use analytic_engine::instance::flush_compaction::{
    Compactor, Error, FlushDone, FlushPlan, FreezeOutcome, RetryDecision, FLUSH_BACKOFF_BASE_MS,
};
use analytic_engine::instance::open::{Config, OpenContext};
use analytic_engine::instance::read::SstData;
use analytic_engine::instance::{Flusher, Instance, RecoverMode};
use analytic_engine::manifest::AddTableMeta;
use analytic_engine::memtable::ENTRY_SIZE;
use analytic_engine::payload::RowGroup;
use analytic_engine::request::{ReadOptions, ReadOrder, ReadRequest};
use analytic_engine::sst::file::{FileHandle, FileMeta, FilePurgeRequest, Request, SstMetaData};
use analytic_engine::table::data::TableData;
use analytic_engine::table::version::{AddFile, DeleteFile, TableVersionMeta, VersionEdit};
use analytic_engine::table_options::{CompactionOptions, TableOptions, UpdateMode};
use analytic_engine::time::{TimeRange, Timestamp};

const HOUR: i64 = 3_600_000;
const DAY: i64 = 24 * HOUR;

fn row(pk: i64, ts: i64, value: u64) -> KeyedRow {
    KeyedRow { key: PrimaryKey { pk, timestamp: Timestamp::new(ts) }, value }
}

fn entry(pk: i64, ts: i64, sequence: u64, value: u64) -> Entry {
    Entry { key: PrimaryKey { pk, timestamp: Timestamp::new(ts) }, sequence, value }
}

fn range(start: i64, end: i64) -> TimeRange {
    TimeRange::new(Timestamp::new(start), Timestamp::new(end)).unwrap()
}

fn options(segment: Option<i64>, update_mode: UpdateMode) -> TableOptions {
    TableOptions {
        segment_duration: segment,
        update_mode,
        enable_ttl: true,
        ttl: 7 * DAY,
        write_buffer_size: 0,
        num_rows_per_row_group: 8192,
        arena_block_size: 2 << 20,
        compaction: CompactionOptions {
            l0_file_num_trigger: 2,
            l0_size_trigger: u64::MAX,
            max_pending: 2,
        },
    }
}

fn engine() -> Instance {
    Instance::open(OpenContext {
        config: Config {
            table_opts: TableOptions::default(),
            compaction: TableOptions::default().compaction,
            sst_meta_cache_cap: None,
            sst_background_read_parallelism: 8,
            scan_max_record_batches_in_flight: 1024,
            scan_batch_size: None,
            max_rows_in_write_queue: 0,
            db_write_buffer_size: 0,
            space_write_buffer_size: 0,
            replay_batch_size: 500,
            write_sst_max_buffer_size: ReadableSize::mb(10),
            max_retry_flush_limit: 2,
            max_bytes_per_write_batch: None,
            recover_mode: RecoverMode::TableBased,
        },
        has_meta_cache: false,
    })
}

fn table(opts: TableOptions) -> TableData {
    TableData::new(1, 100, "t".to_string(), 0, build_schema(), opts)
}

fn write(table: &mut TableData, rows: Vec<KeyedRow>) -> u64 {
    let group = RowGroup::new(table.schema_version(), rows);
    let plan = engine().prepare_write(table, &group).unwrap();
    Instance::write_to_memtable(table, plan.sequence, &group).unwrap();
    plan.sequence
}

fn read_at(
    table: &TableData,
    store: &Vec<SstData>,
    time_range: TimeRange,
    now: Timestamp,
) -> Vec<Entry> {
    let request = ReadRequest {
        request_id: 1,
        opts: ReadOptions { batch_size: 500, read_parallelism: 1 },
        time_range,
        order: ReadOrder::Asc,
    };
    let streams = engine().partitioned_read_from_table(table, &request, store, now).unwrap();
    streams.streams.into_iter().next().unwrap()
}

fn read_all(table: &TableData, store: &Vec<SstData>, time_range: TimeRange) -> Vec<Entry> {
    read_at(table, store, time_range, Timestamp::new(0))
}

fn copy_meta(meta: &FileMeta) -> FileMeta {
    FileMeta {
        id: meta.id,
        meta: SstMetaData {
            min_key: meta.meta.min_key.clone(),
            max_key: meta.meta.max_key.clone(),
            time_range: meta.meta.time_range,
            max_sequence: meta.meta.max_sequence,
            schema: meta.meta.schema.clone(),
            size: meta.meta.size,
            row_num: meta.meta.row_num,
            index_map: Vec::new(),
        },
    }
}

/// Writes the files of the plan into the store, as the engine's caller does.
fn write_files(store: &mut Vec<SstData>, plan: &FlushPlan) {
    for (add, rows) in plan.files_to_add.iter().zip(plan.rows.iter()) {
        store.push(SstData { file_id: add.file.id, rows: rows.clone() });
    }
}

fn flush(table: &mut TableData, store: &mut Vec<SstData>, suggested: Option<i64>) -> FlushDone {
    let sequence = match Flusher::freeze_memtables(table) {
        FreezeOutcome::Frozen(sequence) => sequence,
        other => panic!("nothing was frozen: {:?}", other),
    };
    let plan = Flusher::plan_flush(table, sequence).unwrap();
    write_files(store, &plan);
    Flusher::finish_flush(table, plan, suggested, 1234).unwrap()
}

fn level_ids(table: &TableData, level: usize) -> Vec<u64> {
    table.version.levels[level].files.files.iter().map(|f| f.id()).collect()
}

fn l0_file(id: u64, start: i64, end: i64, size: u64, max_sequence: u64) -> FileHandle {
    FileHandle::new(FileMeta {
        id,
        meta: SstMetaData {
            min_key: encode_key(&PrimaryKey { pk: id as i64, timestamp: Timestamp::new(start) }),
            max_key: encode_key(&PrimaryKey { pk: id as i64 + 10, timestamp: Timestamp::new(start) }),
            time_range: range(start, end),
            max_sequence,
            schema: build_schema(),
            size,
            row_num: 2,
            index_map: Vec::new(),
        },
    })
}

#[test]
fn flushing_a_table_without_memtables_changes_nothing() {
    let mut t = table(options(Some(HOUR), UpdateMode::Overwrite));
    t.last_sequence = 9;
    t.version.flushed_sequence = 4;
    assert_eq!(Flusher::freeze_memtables(&mut t), FreezeOutcome::NothingToFlush);
    assert_eq!(t.version.flushed_sequence(), 4);
    assert!(!t.flush_in_flight);
    assert_eq!(t.last_file_id(), 0);
}

#[test]
fn flushing_a_table_whose_memtables_hold_no_row_changes_nothing() {
    let mut t = table(options(Some(HOUR), UpdateMode::Overwrite));
    t.last_sequence = 9;
    t.version.flushed_sequence = 4;
    t.version.memtable_for_write(Timestamp::new(10), Some(HOUR), 1).unwrap();
    t.last_memtable_id = 1;
    assert_eq!(t.version.memtables.len(), 1);
    assert!(t.version.memtables[0].entries.is_empty());
    assert_eq!(Flusher::freeze_memtables(&mut t), FreezeOutcome::NothingToFlush);
    assert_eq!(t.version.flushed_sequence(), 4);
    assert!(!t.flush_in_flight);
    assert!(!t.version.memtables[0].frozen);
    assert_eq!(t.version.memtables.len(), 1);
    assert_eq!(t.last_file_id(), 0);
    // The same for a sampling memtable without rows.
    let mut sampling = table(options(None, UpdateMode::Overwrite));
    sampling.last_sequence = 3;
    sampling.version.memtable_for_write(Timestamp::new(10), None, 1).unwrap();
    sampling.last_memtable_id = 1;
    assert!(sampling.version.sampling_mem.is_some());
    assert_eq!(Flusher::freeze_memtables(&mut sampling), FreezeOutcome::NothingToFlush);
    assert_eq!(sampling.version.flushed_sequence(), 0);
    assert!(sampling.version.sampling_mem.is_some());
}

#[test]
fn only_one_flush_of_a_table_is_under_way() {
    let mut t = table(options(Some(HOUR), UpdateMode::Overwrite));
    write(&mut t, vec![row(1, 10, 1)]);
    assert_eq!(Flusher::freeze_memtables(&mut t), FreezeOutcome::Frozen(1));
    assert!(t.flush_in_flight);
    assert!(t.version.memtables.iter().all(|m| m.frozen));
    assert_eq!(Flusher::freeze_memtables(&mut t), FreezeOutcome::FlushInFlight);
    // A write during the flush goes into a new memtable.
    write(&mut t, vec![row(1, 11, 2)]);
    assert_eq!(t.version.memtables.iter().map(|m| m.frozen).collect::<Vec<_>>(), [true, false]);
    assert_eq!(Flusher::abort_flush(&mut t, 3), Error::FlushFailed { attempts: 3 });
    assert!(!t.flush_in_flight);
    assert!(t.version.memtables[0].frozen);
    assert_eq!(Flusher::freeze_memtables(&mut t), FreezeOutcome::Frozen(2));
}

#[test]
fn flush_and_reopen() {
    let mut t = table(options(Some(HOUR), UpdateMode::Overwrite));
    let rows: Vec<KeyedRow> = (0..10_000i64)
        .map(|i| row(i % 2_500, if i < 5_000 { i } else { HOUR + i }, i as u64))
        .collect();
    for chunk in rows.chunks(1_000) {
        write(&mut t, chunk.to_vec());
    }
    assert_eq!(t.last_sequence(), 10);
    let mut store = Vec::new();
    let sequence = match Flusher::freeze_memtables(&mut t) {
        FreezeOutcome::Frozen(sequence) => sequence,
        other => panic!("nothing was frozen: {:?}", other),
    };
    assert_eq!(sequence, 10);
    let plan = Flusher::plan_flush(&mut t, sequence).unwrap();
    assert_eq!(plan.flush_sequence, 10);
    assert_eq!(plan.mems_to_remove, vec![1, 2]);
    assert_eq!(plan.files_to_add.len(), 2);
    // Each file is aligned to its segment.
    assert!(plan.files_to_add.iter().all(|add| add.level == 0));
    assert_eq!(plan.files_to_add[0].file.meta.time_range, range(0, HOUR));
    assert_eq!(plan.files_to_add[1].file.meta.time_range, range(HOUR, 2 * HOUR));
    assert_eq!(plan.files_to_add.iter().map(|a| a.file.id).collect::<Vec<_>>(), [1, 2]);
    assert_eq!(plan.files_to_add.iter().map(|a| a.file.meta.row_num).collect::<Vec<_>>(), [5000, 5000]);
    assert_eq!(plan.files_to_add[0].file.meta.size, 5000 * ENTRY_SIZE as u64);
    assert_eq!(plan.files_to_add[0].file.meta.max_sequence, 5);
    assert_eq!(plan.files_to_add[1].file.meta.max_sequence, 10);
    assert_eq!(plan.files_to_add[0].file.meta.min_key, encode_key(&plan.rows[0][0].key));
    assert_eq!(plan.files_to_add[0].file.meta.max_key, encode_key(&plan.rows[0][4999].key));
    assert_eq!(plan.files_to_add[0].file.meta.schema, build_schema());
    write_files(&mut store, &plan);
    let manifest_files: Vec<AddFile> = plan
        .files_to_add
        .iter()
        .map(|add| AddFile { level: add.level, file: copy_meta(&add.file) })
        .collect();
    let done = Flusher::finish_flush(&mut t, plan, None, 77).unwrap();
    assert_eq!(done, FlushDone { mark_delete_up_to: 10 });
    assert_eq!(t.version.flushed_sequence(), 10);
    assert!(t.version.memtables.is_empty());
    assert_eq!(level_ids(&t, 0), [1, 2]);
    assert!(level_ids(&t, 1).is_empty());
    assert_eq!(t.last_flush_time_ms, 77);
    assert!(!t.flush_in_flight);
    let before = read_all(&t, &store, TimeRange::min_to_max());
    assert_eq!(before.len(), 10_000);

    // Close the engine, then reopen the table from the manifest; the log
    // holds nothing behind the flushed sequence number.
    let mut e = engine();
    assert_eq!(e.close().len(), 4);
    let reopened = TableData::recover_from_add(
        AddTableMeta {
            space_id: 1,
            table_id: 100,
            table_name: "t".to_string(),
            schema: build_schema(),
            opts: options(Some(HOUR), UpdateMode::Overwrite),
        },
        Some(TableVersionMeta { flushed_sequence: 10, files: manifest_files, max_file_id: 2 }),
        0,
    )
    .unwrap();
    let read = read_all(&reopened, &store, TimeRange::min_to_max());
    assert_eq!(read, before);
    // The rows come in key order within each segment.
    for bucket in read.chunks(5_000) {
        assert!(bucket.windows(2).all(|w| w[0].key.lt(&w[1].key)));
    }
    let mut values: Vec<u64> = read.iter().map(|e| e.value).collect();
    values.sort();
    assert_eq!(values, (0..10_000u64).collect::<Vec<_>>());
}

#[test]
fn a_flush_drops_overwritten_rows_where_the_table_does() {
    let mut store = Vec::new();
    let mut overwrite = table(options(Some(HOUR), UpdateMode::Overwrite));
    write(&mut overwrite, vec![row(1, 10, 1)]);
    write(&mut overwrite, vec![row(1, 10, 2), row(2, 10, 3)]);
    flush(&mut overwrite, &mut store, None);
    assert_eq!(store[0].rows, vec![entry(1, 10, 2, 2), entry(2, 10, 2, 3)]);
    let mut append = table(options(Some(HOUR), UpdateMode::Append));
    write(&mut append, vec![row(1, 10, 1)]);
    write(&mut append, vec![row(1, 10, 2)]);
    flush(&mut append, &mut store, None);
    assert_eq!(store[1].rows, vec![entry(1, 10, 2, 2), entry(1, 10, 1, 1)]);
}

#[test]
fn the_flushed_sequence_number_never_moves_back() {
    let mut store = Vec::new();
    let mut t = table(options(Some(HOUR), UpdateMode::Overwrite));
    write(&mut t, vec![row(1, 10, 1)]);
    write(&mut t, vec![row(1, 11, 2)]);
    assert_eq!(flush(&mut t, &mut store, None), FlushDone { mark_delete_up_to: 2 });
    assert_eq!(t.version.flushed_sequence(), 2);
    write(&mut t, vec![row(1, 12, 3)]);
    // A plan that claims an earlier sequence number leaves the number alone.
    assert_eq!(Flusher::freeze_memtables(&mut t), FreezeOutcome::Frozen(3));
    let plan = Flusher::plan_flush(&mut t, 1).unwrap();
    let done = Flusher::finish_flush(&mut t, plan, None, 0).unwrap();
    assert_eq!(done.mark_delete_up_to, 1);
    assert_eq!(t.version.flushed_sequence(), 2);
    assert!(done.mark_delete_up_to <= t.version.flushed_sequence());
}

#[test]
fn flushing_the_sampling_memtable_settles_the_segment_duration() {
    let mut store = Vec::new();
    let mut t = table(options(None, UpdateMode::Overwrite));
    write(&mut t, vec![row(1, 5 * HOUR + 3, 1), row(2, -7, 2), row(3, 40, 3)]);
    let done = flush(&mut t, &mut store, Some(2 * HOUR));
    assert_eq!(done.mark_delete_up_to, 1);
    assert!(t.version.sampling_mem.is_none());
    assert_eq!(t.opts.segment_duration, Some(2 * HOUR));
    assert_eq!(level_ids(&t, 0), [1]);
    // The one file spans the rows.
    assert_eq!(t.version.levels[0].files.files[0].time_range(), range(-7, 5 * HOUR + 4));
    write(&mut t, vec![row(4, 5 * HOUR + 3, 9)]);
    assert_eq!(t.version.memtables[0].time_range(), range(4 * HOUR, 6 * HOUR));
    // The file is read with the bucket in which it starts, the memtable with
    // its own.
    assert_eq!(
        read_all(&t, &store, TimeRange::min_to_max()),
        vec![entry(1, 5 * HOUR + 3, 1, 1), entry(2, -7, 1, 2), entry(3, 40, 1, 3), entry(
            4,
            5 * HOUR + 3,
            2,
            9
        )]
    );
}

#[test]
fn the_rows_sampled_suggest_the_segment_duration() {
    let day = 24 * HOUR;
    let suggest = |times: &[i64]| {
        let mut t = table(options(None, UpdateMode::Overwrite));
        if !times.is_empty() {
            write(&mut t, times.iter().map(|ts| row(*ts, *ts, 0)).collect());
        }
        Flusher::suggest_segment_duration(&t)
    };
    assert_eq!(suggest(&[]), None);
    assert_eq!(suggest(&[5]), Some(2 * HOUR));
    assert_eq!(suggest(&[-3, 2 * HOUR - 4]), Some(2 * HOUR));
    assert_eq!(suggest(&[0, 2 * HOUR]), Some(day));
    assert_eq!(suggest(&[day - 1, 0, 7]), Some(day));
    assert_eq!(suggest(&[0, day]), Some(7 * day));
    assert_eq!(suggest(&[7 * day, 0]), Some(30 * day));
    assert_eq!(suggest(&[i64::MIN, i64::MAX - 1]), Some(30 * day));
    // A table that has its segment duration samples no more.
    let mut settled = table(options(Some(HOUR), UpdateMode::Overwrite));
    write(&mut settled, vec![row(1, 1, 1)]);
    assert_eq!(Flusher::suggest_segment_duration(&settled), None);
    // The suggestion is taken when the sampling memtable is flushed.
    let mut store = Vec::new();
    let mut t = table(options(None, UpdateMode::Overwrite));
    write(&mut t, vec![row(1, 0, 1), row(2, 3 * HOUR, 2)]);
    let suggested = Flusher::suggest_segment_duration(&t);
    flush(&mut t, &mut store, suggested);
    assert_eq!(t.opts.segment_duration, Some(day));
}

#[test]
fn a_flush_that_writes_no_file_flushes_no_row() {
    let mut t = table(options(Some(HOUR), UpdateMode::Overwrite));
    write(&mut t, vec![row(1, 10, 1)]);
    let mut store = Vec::new();
    flush(&mut t, &mut store, None);
    assert_eq!(t.version.flushed_sequence(), 1);
    t.last_sequence = 9;
    let plan = FlushPlan {
        flush_sequence: 9,
        mems_to_remove: Vec::new(),
        files_to_add: Vec::new(),
        rows: Vec::new(),
    };
    let done = Flusher::finish_flush(&mut t, plan, None, 0).unwrap();
    assert_eq!(done.mark_delete_up_to, 1);
    assert_eq!(t.version.flushed_sequence(), 1);
    assert_eq!(level_ids(&t, 0), [1]);
}

#[test]
fn a_suggestion_that_is_no_span_of_time_is_passed_over() {
    let mut store = Vec::new();
    let mut t = table(options(None, UpdateMode::Overwrite));
    write(&mut t, vec![row(1, 1, 1)]);
    flush(&mut t, &mut store, Some(0));
    assert_eq!(t.opts.segment_duration, None);
    write(&mut t, vec![row(1, 2, 1)]);
    flush(&mut t, &mut store, None);
    assert_eq!(t.opts.segment_duration, None);
}

#[test]
fn a_plan_that_does_not_fit_the_table_is_turned_away() {
    let mut t = table(options(Some(HOUR), UpdateMode::Overwrite));
    write(&mut t, vec![row(1, 10, 1)]);
    assert_eq!(Flusher::freeze_memtables(&mut t), FreezeOutcome::Frozen(1));
    let plan = Flusher::plan_flush(&mut t, 1).unwrap();
    let again = FlushPlan {
        flush_sequence: 1,
        mems_to_remove: plan.mems_to_remove.clone(),
        files_to_add: plan
            .files_to_add
            .iter()
            .map(|add| AddFile { level: add.level, file: copy_meta(&add.file) })
            .collect(),
        rows: plan.rows.clone(),
    };
    assert!(Flusher::finish_flush(&mut t, plan, None, 0).is_ok());
    // The table holds the file already.
    assert_eq!(Flusher::finish_flush(&mut t, again, None, 0), Err(Error::StalePlan));
    let ahead = FlushPlan {
        flush_sequence: 99,
        mems_to_remove: Vec::new(),
        files_to_add: Vec::new(),
        rows: Vec::new(),
    };
    assert_eq!(Flusher::finish_flush(&mut t, ahead, None, 0), Err(Error::StalePlan));
    assert_eq!(t.version.flushed_sequence(), 1);
}

#[test]
fn used_up_file_ids_stop_a_flush() {
    let mut t = table(options(Some(HOUR), UpdateMode::Overwrite));
    write(&mut t, vec![row(1, 10, 1)]);
    t.last_file_id = u64::MAX - 1;
    assert_eq!(Flusher::freeze_memtables(&mut t), FreezeOutcome::Frozen(1));
    assert_eq!(Flusher::plan_flush(&mut t, 1).err(), Some(Error::FileIdsExhausted));
    assert_eq!(t.last_file_id(), u64::MAX - 1);
}

#[test]
fn a_failed_flush_is_tried_again_with_a_doubling_wait() {
    assert_eq!(FLUSH_BACKOFF_BASE_MS, 100);
    assert_eq!(Flusher::on_flush_failure(0, 3), RetryDecision::Retry { backoff_ms: 100 });
    assert_eq!(Flusher::on_flush_failure(1, 3), RetryDecision::Retry { backoff_ms: 200 });
    assert_eq!(Flusher::on_flush_failure(2, 3), RetryDecision::Retry { backoff_ms: 400 });
    assert_eq!(Flusher::on_flush_failure(3, 3), RetryDecision::GiveUp);
    assert_eq!(Flusher::on_flush_failure(0, 0), RetryDecision::GiveUp);
    assert_eq!(
        Flusher::on_flush_failure(70, usize::MAX),
        RetryDecision::Retry { backoff_ms: u64::MAX }
    );
}

#[test]
fn picking_from_an_empty_level_picks_nothing() {
    let t = table(options(Some(HOUR), UpdateMode::Overwrite));
    let task = pick(&t.version, &t.opts.compaction, None);
    assert!(task.inputs.is_empty());
    assert!(task.expired.is_empty());
}

#[test]
fn a_single_file_stays_in_place() {
    let mut t = table(options(Some(HOUR), UpdateMode::Overwrite));
    t.version.levels[0].insert(l0_file(1, 0, HOUR, 10, 1));
    let mut eager = t.opts.compaction;
    eager.l0_file_num_trigger = 1;
    eager.l0_size_trigger = 0;
    assert!(pick(&t.version, &eager, None).inputs.is_empty());
    // Nor are two files picked that do not overlap.
    t.version.levels[0].insert(l0_file(2, HOUR, 2 * HOUR, 10, 1));
    assert!(pick(&t.version, &eager, None).inputs.is_empty());
    assert_eq!(level_ids(&t, 0), [1, 2]);
}

#[test]
fn overlapping_files_are_picked_once_a_trigger_is_reached() {
    let mut t = table(options(Some(HOUR), UpdateMode::Overwrite));
    t.version.levels[0].insert(l0_file(1, 0, HOUR, 10, 1));
    t.version.levels[0].insert(l0_file(2, 10, HOUR, 10, 1));
    t.version.levels[0].insert(l0_file(3, HOUR, 2 * HOUR, 10, 1));
    let by_number = CompactionOptions { l0_file_num_trigger: 3, l0_size_trigger: u64::MAX, max_pending: 1 };
    let ids = |task: &CompactionTask| task.inputs.iter().map(|f| f.id()).collect::<Vec<_>>();
    assert_eq!(ids(&pick(&t.version, &by_number, None)), [1, 2]);
    let too_few = CompactionOptions { l0_file_num_trigger: 4, l0_size_trigger: 31, max_pending: 1 };
    assert!(pick(&t.version, &too_few, None).inputs.is_empty());
    let by_size = CompactionOptions { l0_file_num_trigger: 4, l0_size_trigger: 30, max_pending: 1 };
    assert_eq!(ids(&pick(&t.version, &by_size, None)), [1, 2]);
    // Files that are being compacted are left alone.
    t.version.set_being_compacted(0, &[2], true);
    assert!(pick(&t.version, &by_number, None).inputs.is_empty());
}

#[test]
fn compaction_correctness() {
    let mut store = Vec::new();
    let mut t = table(options(Some(HOUR), UpdateMode::Overwrite));
    t.opts.compaction.l0_file_num_trigger = 8;
    // Eight files of level 0 that overlap in [0, 1h).
    for i in 0..8i64 {
        write(&mut t, vec![row(1, 0, 10 + i as u64), row(100 + i, HOUR - 1, i as u64), row(50, i, 7)]);
        flush(&mut t, &mut store, None);
    }
    assert_eq!(level_ids(&t, 0), [1, 2, 3, 4, 5, 6, 7, 8]);
    let before = read_all(&t, &store, TimeRange::min_to_max());
    let task = pick(&t.version, &t.opts.compaction, None);
    assert_eq!(task.inputs.len(), 8);
    assert!(task.expired.is_empty());
    Compactor::start_compaction(&mut t, &task);
    assert!(t.version.levels[0].files.files.iter().all(|f| f.being_compacted()));
    assert!(pick(&t.version, &t.opts.compaction, None).inputs.is_empty());
    let plan = Compactor::plan_compaction(&mut t, &task, &store).unwrap();
    assert_eq!(plan.edit.files_to_add.len(), 1);
    let merged = &plan.edit.files_to_add[0];
    assert_eq!(merged.level, 1);
    assert_eq!(merged.file.id, 9);
    assert_eq!(merged.file.meta.time_range, range(0, HOUR));
    assert_eq!(merged.file.meta.max_sequence, 8);
    // 24 rows went in; the row of key (1, 0) was written eight times.
    assert_eq!(merged.file.meta.row_num, 17);
    assert_eq!(plan.rows.len(), 17);
    assert_eq!(plan.rows[0], entry(1, 0, 8, 17));
    assert_eq!(merged.file.meta.min_key, encode_key(&PrimaryKey { pk: 1, timestamp: Timestamp::new(0) }));
    assert_eq!(
        merged.file.meta.max_key,
        encode_key(&PrimaryKey { pk: 107, timestamp: Timestamp::new(HOUR - 1) })
    );
    assert_eq!(
        plan.edit.files_to_delete,
        (1..=8).map(|file_id| DeleteFile { level: 0, file_id }).collect::<Vec<_>>()
    );
    store.push(SstData { file_id: 9, rows: plan.rows.clone() });
    let purge = Compactor::finish_compaction(&mut t, plan.edit).unwrap();
    // The purger is asked to delete the eight files of level 0.
    assert_eq!(
        purge,
        (1..=8)
            .map(|file_id| Request::Purge(FilePurgeRequest { space_id: 1, table_id: 100, file_id }))
            .collect::<Vec<_>>()
    );
    assert!(level_ids(&t, 0).is_empty());
    assert_eq!(level_ids(&t, 1), [9]);
    assert!(!t.version.levels[1].files.files[0].being_compacted());
    assert_eq!(t.last_file_id(), 9);
    // Reads are the same before and after.
    assert_eq!(read_all(&t, &store, TimeRange::min_to_max()), before);
}

#[test]
fn an_append_table_keeps_every_row_through_a_compaction() {
    let mut store = Vec::new();
    let mut t = table(options(Some(HOUR), UpdateMode::Append));
    for i in 0..2u64 {
        write(&mut t, vec![row(1, 0, i)]);
        flush(&mut t, &mut store, None);
    }
    let task = pick(&t.version, &t.opts.compaction, None);
    let plan = Compactor::plan_compaction(&mut t, &task, &store).unwrap();
    assert_eq!(plan.rows, vec![entry(1, 0, 2, 1), entry(1, 0, 1, 0)]);
    assert_eq!(plan.edit.files_to_add[0].file.meta.row_num, 2);
}

#[test]
fn a_compaction_without_the_rows_of_an_input_fails_and_leaves_the_inputs() {
    let mut store = Vec::new();
    let mut t = table(options(Some(HOUR), UpdateMode::Overwrite));
    for i in 0..2u64 {
        write(&mut t, vec![row(1, 0, i)]);
        flush(&mut t, &mut store, None);
    }
    let task = pick(&t.version, &t.opts.compaction, None);
    Compactor::start_compaction(&mut t, &task);
    store.pop();
    assert_eq!(Compactor::plan_compaction(&mut t, &task, &store).err(), Some(Error::CompactionFailed));
    assert_eq!(Compactor::abort_compaction(&mut t, &task), Error::CompactionFailed);
    assert_eq!(level_ids(&t, 0), [1, 2]);
    assert!(t.version.levels[0].files.files.iter().all(|f| !f.being_compacted()));
    assert_eq!(t.last_file_id(), 2);
    assert_eq!(pick(&t.version, &t.opts.compaction, None).inputs.len(), 2);
}

#[test]
fn ttl_expiry() {
    let now = Timestamp::new(100 * DAY);
    let mut store = Vec::new();
    let mut t = table(options(Some(HOUR), UpdateMode::Overwrite));
    // A row that is eight days old, and one of today.
    write(&mut t, vec![row(1, now.0 - 8 * DAY, 1), row(2, now.0 - HOUR, 2)]);
    flush(&mut t, &mut store, None);
    assert_eq!(level_ids(&t, 0), [1, 2]);
    let expire_time = t.opts.expire_time(now);
    assert_eq!(expire_time, Some(Timestamp::new(93 * DAY)));
    assert!(t.version.levels[0].has_expired_sst(expire_time));
    // The scheduled pass schedules the expired file for deletion.
    let task = pick(&t.version, &t.opts.compaction, expire_time);
    assert!(task.inputs.is_empty());
    assert_eq!(task.expired, vec![DeleteFile { level: 0, file_id: 1 }]);
    // Before the compaction, no read at that time sees the file, whatever
    // its time range; a week earlier the file was read.
    assert_eq!(read_at(&t, &Vec::new(), TimeRange::new(now, now).unwrap(), now), Vec::new());
    assert_eq!(
        read_at(&t, &store, TimeRange::min_to_max(), now),
        vec![entry(2, now.0 - HOUR, 1, 2)]
    );
    let old_range = TimeRange::new(Timestamp::new(now.0 - 9 * DAY), Timestamp::new(now.0 - 7 * DAY));
    assert_eq!(read_at(&t, &store, old_range.unwrap(), now), Vec::new());
    assert_eq!(
        read_at(&t, &store, TimeRange::min_to_max(), Timestamp::new(now.0 - 7 * DAY)),
        vec![entry(1, now.0 - 8 * DAY, 1, 1), entry(2, now.0 - HOUR, 1, 2)]
    );
    let plan = Compactor::plan_compaction(&mut t, &task, &store).unwrap();
    assert!(plan.edit.files_to_add.is_empty());
    assert!(plan.rows.is_empty());
    let purge = Compactor::finish_compaction(&mut t, plan.edit).unwrap();
    // The object of the file is deleted.
    assert_eq!(
        purge,
        vec![Request::Purge(FilePurgeRequest { space_id: 1, table_id: 100, file_id: 1 })]
    );
    assert_eq!(level_ids(&t, 0), [2]);
    store.remove(0);
    assert_eq!(
        read_at(&t, &store, TimeRange::min_to_max(), now),
        vec![entry(2, now.0 - HOUR, 1, 2)]
    );
}

#[test]
fn rows_live_forever_without_a_time_to_live() {
    let mut opts = options(Some(HOUR), UpdateMode::Overwrite);
    opts.enable_ttl = false;
    assert_eq!(opts.expire_time(Timestamp::new(100 * DAY)), None);
    opts.enable_ttl = true;
    opts.ttl = i64::MAX;
    assert_eq!(opts.expire_time(Timestamp::new(-5)), Some(Timestamp::min_value()));
    assert!(opts.is_valid());
    assert!(opts.need_dedup());
    opts.ttl = -1;
    assert!(!opts.is_valid());
}

#[test]
fn an_edit_moves_files_between_levels_in_one_step() {
    let mut t = table(options(Some(HOUR), UpdateMode::Overwrite));
    t.last_file_id = 10;
    t.last_sequence = 10;
    t.version.levels[0].insert(l0_file(1, 0, HOUR, 1, 1));
    t.version.levels[0].insert(l0_file(2, 0, HOUR, 1, 1));
    let add = |id: u64, level: u16| AddFile {
        level,
        file: FileMeta { id, meta: SstMetaData::try_from(
            analytic_engine::proto::SstMetaDataPb::from(l0_meta(id)),
        ).unwrap() },
    };
    let edit = VersionEdit {
        flushed_sequence: 0,
        mems_to_remove: Vec::new(),
        files_to_add: vec![add(3, 1), add(4, 0)],
        files_to_delete: vec![
            DeleteFile { level: 0, file_id: 1 },
            DeleteFile { level: 1, file_id: 2 },
            DeleteFile { level: 0, file_id: 9 },
        ],
    };
    assert!(t.check_edit(&edit));
    let purge = t.apply_version_edit(edit).unwrap();
    assert_eq!(purge, vec![Request::Purge(FilePurgeRequest { space_id: 1, table_id: 100, file_id: 1 })]);
    assert_eq!(level_ids(&t, 0), [2, 4]);
    assert_eq!(level_ids(&t, 1), [3]);
    // A file that the table holds cannot enter again, on whatever level.
    let twice = VersionEdit {
        flushed_sequence: 0,
        mems_to_remove: Vec::new(),
        files_to_add: vec![add(3, 0)],
        files_to_delete: Vec::new(),
    };
    assert!(!t.check_edit(&twice));
    assert!(t.apply_version_edit(twice).is_none());
    assert_eq!(level_ids(&t, 0), [2, 4]);
    // Once the queue is closed, nothing is purged.
    t.purge_queue.close();
    let last = VersionEdit {
        flushed_sequence: 0,
        mems_to_remove: Vec::new(),
        files_to_add: Vec::new(),
        files_to_delete: vec![DeleteFile { level: 0, file_id: 2 }],
    };
    assert_eq!(t.apply_version_edit(last), Some(Vec::new()));
    assert_eq!(level_ids(&t, 0), [4]);
}

fn l0_meta(id: u64) -> SstMetaData {
    SstMetaData {
        min_key: Vec::new(),
        max_key: Vec::new(),
        time_range: range(0, HOUR),
        max_sequence: 1,
        schema: build_schema(),
        size: 1,
        row_num: 1,
        index_map: Vec::new(),
    }
    .with_size(id)
}

trait WithSize {
    fn with_size(self, size: u64) -> Self;
}

impl WithSize for SstMetaData {
    fn with_size(mut self, size: u64) -> Self {
        self.size = size;
        self
    }
}

#[test]
fn a_full_queue_turns_requests_away() {
    let mut scheduler = CompactionScheduler::new(2);
    assert_eq!(scheduler.schedule_table_compaction(1, false), ScheduleOutcome::Queued);
    assert_eq!(scheduler.schedule_table_compaction(2, true), ScheduleOutcome::Queued);
    assert_eq!(scheduler.schedule_table_compaction(3, false), ScheduleOutcome::Dropped);
    assert_eq!(scheduler.schedule_table_compaction(3, true), ScheduleOutcome::SchedulerBusy);
    // The manual request runs ahead of the scheduled one.
    assert_eq!(scheduler.next(), Some(2));
    assert_eq!(scheduler.schedule_table_compaction(4, true), ScheduleOutcome::Queued);
    assert_eq!(scheduler.next(), Some(4));
    assert_eq!(scheduler.next(), Some(1));
    assert_eq!(scheduler.next(), None);
    scheduler.stop_scheduler();
    assert_eq!(scheduler.schedule_table_compaction(5, false), ScheduleOutcome::Dropped);
    assert_eq!(scheduler.schedule_table_compaction(5, true), ScheduleOutcome::SchedulerBusy);
}

#[test]
fn manual_requests_keep_their_order_among_themselves() {
    let mut scheduler = CompactionScheduler::new(5);
    for (id, manual) in [(1, false), (2, true), (3, false), (4, true)] {
        assert_eq!(scheduler.schedule_table_compaction(id, manual), ScheduleOutcome::Queued);
    }
    assert_eq!(scheduler.pending, vec![2, 4, 1, 3]);
}
