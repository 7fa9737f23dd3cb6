use analytic_engine::config::ReadableSize;
use analytic_engine::entry::{Entry, KeyedRow, PrimaryKey};
use analytic_engine::fixtures::build_schema;
use analytic_engine::instance::engine::{build_space_id, Error};
use analytic_engine::instance::open::{
    bytes_to_usize, Config, OpenContext, OpenTableStep, ReplayOutcome,
    MAX_RECORD_BATCHES_IN_FLIGHT_WHEN_COMPACTION_READ,
};
use analytic_engine::instance::{
    create_sst_read_option, create_wal_location, Instance, IterOptions, ReadFrequency,
    RecoverMode, ScanOptions, ScanType, SstReadOptions,
};
use analytic_engine::manifest::{AddTableMeta, LoadRequest, TableManifestData};
use analytic_engine::payload::{ReadPayload, RowGroup};
use analytic_engine::request::{OpenTableRequest, ReadOptions, ReadOrder, ReadRequest};
use analytic_engine::space::{Space, SpaceContext};
use analytic_engine::sst::file::{FileMeta, SstMetaData};
use analytic_engine::table::data::{TableData, TableShardInfo};
use analytic_engine::table::version::{self, AddFile, TableVersionMeta};
use analytic_engine::table_options::{CompactionOptions, TableOptions, UpdateMode};
use analytic_engine::time::{TimeRange, Timestamp};
use analytic_engine::wal::{LogEntry, ReadBoundary, ReadContext, WalLocation};
use analytic_engine::memtable::ENTRY_SIZE;

const HOUR: i64 = 3_600_000;

fn row(pk: i64, ts: i64, value: u64) -> KeyedRow {
    KeyedRow { key: PrimaryKey { pk, timestamp: Timestamp::new(ts) }, value }
}

fn entry(pk: i64, ts: i64, sequence: u64, value: u64) -> Entry {
    Entry { key: PrimaryKey { pk, timestamp: Timestamp::new(ts) }, sequence, value }
}

fn options(write_buffer_size: u32) -> TableOptions {
    TableOptions {
        segment_duration: Some(HOUR),
        update_mode: UpdateMode::Overwrite,
        enable_ttl: false,
        ttl: 0,
        write_buffer_size,
        num_rows_per_row_group: 8192,
        arena_block_size: 2 << 20,
        compaction: CompactionOptions { l0_file_num_trigger: 2, l0_size_trigger: 0, max_pending: 4 },
    }
}

fn config() -> Config {
    Config {
        table_opts: TableOptions::default(),
        compaction: TableOptions::default().compaction,
        sst_meta_cache_cap: Some(1000),
        sst_background_read_parallelism: 8,
        scan_max_record_batches_in_flight: 1024,
        scan_batch_size: Some(250),
        max_rows_in_write_queue: 7,
        db_write_buffer_size: 11,
        space_write_buffer_size: 13,
        replay_batch_size: 500,
        write_sst_max_buffer_size: ReadableSize::mb(10),
        max_retry_flush_limit: 3,
        max_bytes_per_write_batch: Some(ReadableSize::kb(4)),
        recover_mode: RecoverMode::ShardBased,
    }
}

fn table(version: u32, opts: TableOptions) -> TableData {
    let mut schema = build_schema();
    schema.version = version;
    TableData::new(1, 100, "t".to_string(), 3, schema, opts)
}

fn write_entry(sequence: u64, schema_version: u32, rows: Vec<KeyedRow>) -> LogEntry {
    LogEntry {
        table_id: 100,
        sequence,
        payload: ReadPayload::Write { row_group: RowGroup::new(schema_version, rows) },
    }
}

fn stored(table: &TableData) -> Vec<Entry> {
    let mut rows: Vec<Entry> =
        table.version.memtables.iter().flat_map(|m| m.entries.iter().copied()).collect();
    rows.sort_by_key(|e| (e.key.pk, e.key.timestamp.0, e.sequence));
    rows
}

fn file(id: u64, level: u16, max_sequence: u64) -> AddFile {
    AddFile {
        level,
        file: FileMeta {
            id,
            meta: SstMetaData {
                min_key: Vec::new(),
                max_key: Vec::new(),
                time_range: TimeRange::new(Timestamp::new(0), Timestamp::new(HOUR)).unwrap(),
                max_sequence,
                schema: build_schema(),
                size: 1,
                row_num: 1,
                index_map: Vec::new(),
            },
        },
    }
}

fn open_request() -> OpenTableRequest {
    OpenTableRequest {
        catalog_name: "c".to_string(),
        schema_name: "s".to_string(),
        schema_id: 1,
        table_name: "t".to_string(),
        table_id: 100,
        shard_id: 3,
    }
}

fn manifest(opts: TableOptions, version_meta: Option<TableVersionMeta>) -> TableManifestData {
    TableManifestData {
        table_meta: AddTableMeta {
            space_id: 1,
            table_id: 100,
            table_name: "t".to_string(),
            schema: build_schema(),
            opts,
        },
        version_meta,
    }
}

#[test]
fn the_engine_opens_with_the_options_given() {
    let e = Instance::open(OpenContext { config: config(), has_meta_cache: true });
    assert!(e.space_store.spaces.spaces.is_empty());
    assert!(e.space_store.has_meta_cache);
    assert_eq!(e.table_opts, TableOptions::default());
    assert_eq!(e.max_rows_in_write_queue, 7);
    assert_eq!(e.db_write_buffer_size, 11);
    assert_eq!(e.space_write_buffer_size, 13);
    assert_eq!(e.replay_batch_size, 500);
    assert_eq!(e.write_sst_max_buffer_size, 10 << 20);
    assert_eq!(e.max_retry_flush_limit(), 3);
    assert_eq!(e.max_bytes_per_write_batch, Some(4096));
    assert_eq!(
        e.scan_options,
        ScanOptions { background_read_parallelism: 8, max_record_batches_in_flight: 1024 }
    );
    assert_eq!(e.iter_options, Some(IterOptions { batch_size: 250 }));
    assert_eq!(e.recover_mode, RecoverMode::ShardBased);
    assert!(!e.file_purger.joined);
    assert_eq!(e.make_flusher().write_sst_max_buffer_size, 10 << 20);
    assert_eq!(
        Instance::scan_options_for_compaction(),
        ScanOptions { background_read_parallelism: 1, max_record_batches_in_flight: 64 }
    );
    assert_eq!(MAX_RECORD_BATCHES_IN_FLIGHT_WHEN_COMPACTION_READ, 64);
    assert_eq!(bytes_to_usize(12), 12);
}

#[test]
fn a_query_reads_frequently_and_a_compaction_once() {
    assert_eq!(ReadFrequency::from(ScanType::Query), ReadFrequency::Frequent);
    assert_eq!(ReadFrequency::from(ScanType::Compaction), ReadFrequency::Once);
    let scan = ScanOptions { background_read_parallelism: 2, max_record_batches_in_flight: 3 };
    assert_eq!(
        create_sst_read_option(ScanType::Compaction, scan, 100, true, false),
        SstReadOptions {
            num_rows_per_row_group: 100,
            frequency: ReadFrequency::Once,
            scan_options: scan,
            reverse: true,
            has_meta_cache: false,
        }
    );
    assert_eq!(
        create_wal_location(9, TableShardInfo { shard_id: 4 }),
        WalLocation { region_id: 4, table_id: 9 }
    );
    assert_eq!(WalLocation::new(4, 9), WalLocation { region_id: 4, table_id: 9 });
    assert_eq!(build_space_id(17), 17);
}

#[test]
fn the_log_is_read_from_behind_the_flushed_sequence_number() {
    let mut t = table(1, options(0));
    t.last_sequence = 50;
    t.version.flushed_sequence = 42;
    let (context, read) = Instance::recover_table_from_wal(&t, 128);
    assert_eq!(context, ReadContext { batch_size: 128, timeout_ms: ReadContext::default().timeout_ms });
    assert_eq!(read.location, WalLocation { region_id: 3, table_id: 100 });
    assert_eq!(read.start, ReadBoundary::Excluded(42));
    assert_eq!(read.end, ReadBoundary::Max);
    assert!(!read.contains(0));
    assert!(!read.contains(42));
    assert!(read.contains(43));
    assert!(read.contains(u64::MAX));
}

#[test]
fn a_read_of_the_log_covers_what_lies_between_its_boundaries() {
    let location = WalLocation::new(1, 2);
    let read = |start, end| analytic_engine::wal::ReadRequest { location, start, end };
    let all = read(ReadBoundary::Min, ReadBoundary::Max);
    assert!(all.contains(0) && all.contains(7) && all.contains(u64::MAX));
    let closed = read(ReadBoundary::Included(3), ReadBoundary::Included(5));
    assert_eq!((2..=6).map(|s| closed.contains(s)).collect::<Vec<_>>(), [false, true, true, true, false]);
    let open = read(ReadBoundary::Excluded(3), ReadBoundary::Excluded(5));
    assert_eq!((2..=6).map(|s| open.contains(s)).collect::<Vec<_>>(), [false, false, true, false, false]);
    let last = read(ReadBoundary::Max, ReadBoundary::Max);
    assert!(last.contains(u64::MAX) && !last.contains(u64::MAX - 1));
    let first = read(ReadBoundary::Min, ReadBoundary::Min);
    assert!(first.contains(0) && !first.contains(1));
}

#[test]
fn replay_applies_the_writes_of_the_current_schema_version() {
    let mut t = table(1, options(0));
    let entries = vec![
        write_entry(5, 1, vec![row(1, 10, 1), row(2, 20, 2)]),
        LogEntry { table_id: 100, sequence: 6, payload: ReadPayload::AlterSchema { schema: build_schema() } },
        write_entry(7, 1, vec![row(1, 10, 3)]),
        LogEntry {
            table_id: 100,
            sequence: 8,
            payload: ReadPayload::AlterOptions { options: TableOptions::default() },
        },
    ];
    let outcome = Instance::replay_table_log_entries(&mut t, &entries);
    assert_eq!(
        outcome,
        Ok(ReplayOutcome { applied: 2, skipped: 0, flush_requested: false, done: false })
    );
    assert_eq!(stored(&t), vec![entry(1, 10, 5, 1), entry(1, 10, 7, 3), entry(2, 20, 5, 2)]);
    assert_eq!(t.last_sequence(), 8);
    assert_eq!(t.opts, options(0));
}

#[test]
fn replay_skip() {
    // The table is at version 2 of its schema; the log still holds writes
    // under version 1.
    let mut t = table(2, options(0));
    let entries = vec![
        write_entry(1, 1, vec![row(1, 10, 1)]),
        write_entry(2, 2, vec![row(2, 20, 2)]),
        write_entry(3, 1, vec![row(3, 30, 3)]),
        write_entry(4, 2, vec![row(4, 40, 4)]),
    ];
    let outcome = Instance::replay_table_log_entries(&mut t, &entries);
    assert_eq!(
        outcome,
        Ok(ReplayOutcome { applied: 2, skipped: 2, flush_requested: false, done: false })
    );
    assert_eq!(stored(&t), vec![entry(2, 20, 2, 2), entry(4, 40, 4, 4)]);
    assert_eq!(t.last_sequence(), 4);
}

#[test]
fn replay_passes_over_the_entries_of_other_tables() {
    let mut t = table(1, options(0));
    let other = |sequence: u64, schema_version: u32| LogEntry {
        table_id: 101,
        sequence,
        payload: ReadPayload::Write {
            row_group: RowGroup::new(schema_version, vec![row(9, 90, sequence)]),
        },
    };
    let entries = vec![
        write_entry(3, 1, vec![row(1, 10, 1)]),
        other(4, 1),
        other(40, 2),
        write_entry(5, 1, vec![row(2, 20, 2)]),
    ];
    let outcome = Instance::replay_table_log_entries(&mut t, &entries);
    assert_eq!(
        outcome,
        Ok(ReplayOutcome { applied: 2, skipped: 0, flush_requested: false, done: false })
    );
    assert_eq!(stored(&t), vec![entry(1, 10, 3, 1), entry(2, 20, 5, 2)]);
    assert_eq!(t.last_sequence(), 5);
}

#[test]
fn replayed_rows_stand_in_the_memtables_of_their_buckets() {
    let mut t = table(1, options(0));
    let entries = vec![
        write_entry(1, 1, vec![row(1, -1, 1), row(2, HOUR + 5, 2)]),
        write_entry(2, 1, vec![row(3, 2 * HOUR - 1, 3)]),
    ];
    Instance::replay_table_log_entries(&mut t, &entries).unwrap();
    let landed: Vec<(i64, i64, Vec<i64>)> = t
        .version
        .memtables
        .iter()
        .map(|m| {
            (
                m.time_range.inclusive_start.0,
                m.time_range.exclusive_end.0,
                m.entries.iter().map(|e| e.key.pk).collect(),
            )
        })
        .collect();
    assert_eq!(landed, vec![(-HOUR, 0, vec![1]), (HOUR, 2 * HOUR, vec![2, 3])]);
}

#[test]
fn a_failed_replay_notes_the_table_even_beside_one_of_its_name() {
    let mut space = Space::new(
        1,
        SpaceContext { catalog_name: "c".to_string(), schema_name: "s".to_string() },
        0,
    );
    space.insert_table(table(1, options(0)));
    let mut other = table(1, options(0));
    other.id = 101;
    let error = Error::ReadWal;
    assert_eq!(
        Instance::process_recover_table_command(&mut space, other, Err(error)),
        Err(error)
    );
    assert_eq!(space.open_failed_tables, vec!["t".to_string()]);
    assert_eq!(space.tables.len(), 1);
}

#[test]
fn replay_skips_writes_of_a_newer_schema_version_too() {
    let mut t = table(1, options(0));
    let outcome =
        Instance::replay_table_log_entries(&mut t, &vec![write_entry(9, 2, vec![row(1, 10, 1)])]);
    assert_eq!(
        outcome,
        Ok(ReplayOutcome { applied: 0, skipped: 1, flush_requested: false, done: false })
    );
    assert!(stored(&t).is_empty());
    assert_eq!(t.last_sequence(), 9);
}

#[test]
fn an_empty_batch_ends_the_replay() {
    let mut t = table(1, options(0));
    t.last_sequence = 4;
    let outcome = Instance::replay_table_log_entries(&mut t, &Vec::new());
    assert_eq!(
        outcome,
        Ok(ReplayOutcome { applied: 0, skipped: 0, flush_requested: false, done: true })
    );
    assert_eq!(t.last_sequence(), 4);
    // The table is as it was: no memtable has been made.
    assert!(t.version.memtables.is_empty() && t.version.sampling_mem.is_none());
    assert_eq!(t.last_memtable_id, 0);
}

#[test]
fn replay_asks_for_a_flush_once_the_write_buffer_is_full() {
    let mut t = table(1, options((2 * ENTRY_SIZE) as u32));
    let first = Instance::replay_table_log_entries(&mut t, &vec![write_entry(1, 1, vec![row(1, 10, 1)])]);
    assert_eq!(first.unwrap().flush_requested, false);
    let second = Instance::replay_table_log_entries(&mut t, &vec![write_entry(2, 1, vec![row(2, 10, 1)])]);
    assert_eq!(second.unwrap().flush_requested, true);
    // A batch that applies nothing asks for nothing.
    let third = Instance::replay_table_log_entries(&mut t, &vec![write_entry(3, 9, vec![row(3, 10, 1)])]);
    assert_eq!(third.unwrap().flush_requested, false);
}

#[test]
fn a_batch_is_replayed_whole_or_not_at_all() {
    let mut t = table(1, options(0));
    let entries = vec![
        write_entry(1, 1, vec![row(1, 10, 1)]),
        write_entry(2, 1, vec![row(2, i64::MIN, 2)]),
    ];
    assert_eq!(
        Instance::replay_table_log_entries(&mut t, &entries),
        Err(Error::ApplyMemTable {
            space_id: 1,
            table_id: 100,
            source: version::Error::TimestampOverflow { timestamp: Timestamp::new(i64::MIN) },
        })
    );
    assert!(stored(&t).is_empty());
    assert_eq!(t.last_sequence(), 0);
    // A stale write with the same flaw is skipped, not checked.
    let stale = vec![write_entry(1, 1, vec![row(1, 10, 1)]), write_entry(2, 7, vec![row(2, i64::MIN, 2)])];
    assert!(Instance::replay_table_log_entries(&mut t, &stale).is_ok());
}

#[test]
fn reopening_replays_every_write_and_reads_the_same() {
    let e = Instance::open(OpenContext { config: config(), has_meta_cache: false });
    let request = ReadRequest {
        request_id: 1,
        opts: ReadOptions { batch_size: 10, read_parallelism: 1 },
        time_range: TimeRange::min_to_max(),
        order: ReadOrder::Asc,
    };
    let mut before = table(1, options(0));
    let mut log = Vec::new();
    for (i, rows) in [
        vec![row(1, 10, 1), row(2, HOUR + 1, 2)],
        vec![row(1, 10, 3)],
        vec![row(3, -7, 4), row(2, HOUR + 1, 5)],
    ]
    .into_iter()
    .enumerate()
    {
        let group = RowGroup::new(1, rows.clone());
        let plan = e.prepare_write(&before, &group).unwrap();
        assert_eq!(plan.sequence, i as u64 + 1);
        log.push(write_entry(plan.sequence, 1, rows));
        Instance::write_to_memtable(&mut before, plan.sequence, &group).unwrap();
    }
    let mut after = TableData::recover_from_add(manifest(options(0), None).table_meta, None, 3).unwrap();
    for batch in log.chunks(2) {
        let batch: Vec<LogEntry> = batch
            .iter()
            .map(|entry| match &entry.payload {
                ReadPayload::Write { row_group } => {
                    write_entry(entry.sequence, row_group.schema_version, row_group.rows.clone())
                }
                _ => unreachable!(),
            })
            .collect();
        assert!(!Instance::replay_table_log_entries(&mut after, &batch).unwrap().done);
    }
    assert!(Instance::replay_table_log_entries(&mut after, &Vec::new()).unwrap().done);
    assert_eq!(after.last_sequence(), before.last_sequence());
    let read = |t: &TableData| e.partitioned_read_from_table(t, &request, &Vec::new(), Timestamp::new(0)).unwrap().streams;
    assert_eq!(read(&after), read(&before));
    assert_eq!(read(&after)[0], vec![entry(3, -7, 3, 4), entry(1, 10, 2, 3), entry(2, HOUR + 1, 3, 5)]);
}

#[test]
fn a_table_is_recovered_with_the_files_of_the_manifest() {
    let mut e = Instance::open(OpenContext { config: config(), has_meta_cache: false });
    let meta = TableVersionMeta {
        flushed_sequence: 40,
        files: vec![file(7, 0, 35), file(3, 1, 20), file(9, 0, 41)],
        max_file_id: 8,
    };
    assert_eq!(meta.max_file_id_to_add(), 8);
    let recovered =
        e.recover_table_meta_data(&open_request(), Some(manifest(options(0), Some(meta)))).unwrap().unwrap();
    assert_eq!((recovered.id, recovered.space_id, recovered.shard_info.shard_id), (100, 1, 3));
    assert_eq!(recovered.name, "t");
    assert_eq!(recovered.version.flushed_sequence(), 40);
    assert_eq!(recovered.last_file_id(), 9);
    assert_eq!(recovered.last_sequence(), 41);
    assert_eq!(recovered.schema_version(), 1);
    assert_eq!(recovered.table_options(), options(0));
    let ids = |level: usize| -> Vec<u64> {
        recovered.current_version().levels[level].files.files.iter().map(|f| f.id()).collect()
    };
    assert_eq!(ids(0), [7, 9]);
    assert_eq!(ids(1), [3]);
    assert!(recovered.version.has_file(3) && !recovered.version.has_file(4));
    // The space of the table has been opened.
    assert_eq!(e.space_store.spaces.spaces.len(), 1);
    assert_eq!(e.space_store.spaces.spaces[0].id, 1);
    assert_eq!(e.space_store.spaces.spaces[0].context.catalog_name, "c");
    assert_eq!(e.space_store.spaces.spaces[0].write_buffer_size, 13);
    assert!(e.space_store.spaces.spaces[0].tables.is_empty());
}

#[test]
fn nothing_is_recovered_where_the_manifest_holds_nothing() {
    let mut e = Instance::open(OpenContext { config: config(), has_meta_cache: false });
    assert!(e.recover_table_meta_data(&open_request(), None).unwrap().is_none());
    assert!(e.space_store.spaces.spaces.is_empty());
}

#[test]
fn a_manifest_with_two_files_of_one_id_is_rejected() {
    let mut e = Instance::open(OpenContext { config: config(), has_meta_cache: false });
    let meta = TableVersionMeta {
        flushed_sequence: 0,
        files: vec![file(7, 0, 1), file(7, 1, 1)],
        max_file_id: 7,
    };
    assert_eq!(
        e.recover_table_data(manifest(options(0), Some(meta)), &open_request()).err(),
        Some(Error::RecoverTableData { space_id: 1, table_id: 100 })
    );
    let beyond = TableVersionMeta { flushed_sequence: 0, files: vec![file(7, 2, 1)], max_file_id: 7 };
    assert!(e.recover_table_data(manifest(options(0), Some(beyond)), &open_request()).is_err());
    let mut broken = options(0);
    broken.segment_duration = Some(0);
    assert!(e.recover_table_data(manifest(broken, None), &open_request()).is_err());
    let mut negative = options(0);
    negative.ttl = -1;
    assert!(TableData::recover_from_add(manifest(negative, None).table_meta, None, 0).is_none());
}

#[test]
fn a_recovered_table_joins_its_space_or_is_noted_as_failed() {
    let context = SpaceContext { catalog_name: "c".to_string(), schema_name: "s".to_string() };
    let mut space = Space::new(1, context, 0);
    assert_eq!(
        Instance::do_open_table(&space, &open_request()),
        OpenTableStep::LoadManifest(LoadRequest { space_id: 1, table_id: 100, shard_id: 3 })
    );
    let failed = Instance::process_recover_table_command(
        &mut space,
        table(1, options(0)),
        Err(Error::ReadWal),
    );
    assert_eq!(failed, Err(Error::ReadWal));
    assert!(space.tables.is_empty());
    assert_eq!(space.open_failed_tables, vec!["t".to_string()]);
    // A later try may succeed.
    assert_eq!(
        Instance::process_recover_table_command(&mut space, table(1, options(0)), Ok(())),
        Ok(0)
    );
    assert_eq!(space.tables.len(), 1);
    assert_eq!(Instance::do_open_table(&space, &open_request()), OpenTableStep::AlreadyOpen(0));
    // A table that is open is handed out as it is, whatever the replay came to.
    let mut other = table(1, options(0));
    other.last_sequence = 77;
    assert_eq!(
        Instance::process_recover_table_command(&mut space, other, Err(Error::ReadWal)),
        Ok(0)
    );
    assert_eq!(space.tables[0].last_sequence(), 0);
    assert_eq!(space.open_failed_tables.len(), 1);
}
