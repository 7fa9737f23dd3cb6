use analytic_engine::config::ReadableSize;
use analytic_engine::entry::{Entry, KeyedRow, PrimaryKey};
use analytic_engine::fixtures::build_schema;
use analytic_engine::instance::open::{Config, OpenContext};
use analytic_engine::instance::write::{check_rows, Error, FlushTrigger, WritePlan, ROW_SIZE};
use analytic_engine::instance::{Instance, RecoverMode};
use analytic_engine::memtable::{copy_entries, MemTable, ENTRY_SIZE};
use analytic_engine::payload::RowGroup;
use analytic_engine::space::{Space, SpaceContext};
use analytic_engine::table::data::TableData;
use analytic_engine::table::version::{self, MemTableForWrite, TableVersion};
use analytic_engine::table_options::{CompactionOptions, TableOptions, UpdateMode};
use analytic_engine::time::{TimeRange, Timestamp};

const HOUR: i64 = 3_600_000;

fn row(pk: i64, ts: i64, value: u64) -> KeyedRow {
    KeyedRow { key: PrimaryKey { pk, timestamp: Timestamp::new(ts) }, value }
}

fn entry(pk: i64, ts: i64, sequence: u64, value: u64) -> Entry {
    Entry { key: PrimaryKey { pk, timestamp: Timestamp::new(ts) }, sequence, value }
}

fn options(segment: Option<i64>, write_buffer_size: u32) -> TableOptions {
    TableOptions {
        segment_duration: segment,
        update_mode: UpdateMode::Overwrite,
        enable_ttl: false,
        ttl: 0,
        write_buffer_size,
        num_rows_per_row_group: 8192,
        arena_block_size: 2 << 20,
        compaction: CompactionOptions { l0_file_num_trigger: 2, l0_size_trigger: 0, max_pending: 4 },
    }
}

fn config() -> Config {
    Config {
        table_opts: TableOptions::default(),
        compaction: TableOptions::default().compaction,
        sst_meta_cache_cap: None,
        sst_background_read_parallelism: 8,
        scan_max_record_batches_in_flight: 1024,
        scan_batch_size: None,
        max_rows_in_write_queue: 0,
        db_write_buffer_size: 0,
        space_write_buffer_size: 0,
        replay_batch_size: 500,
        write_sst_max_buffer_size: ReadableSize::mb(10),
        max_retry_flush_limit: 0,
        max_bytes_per_write_batch: None,
        recover_mode: RecoverMode::TableBased,
    }
}

fn engine(config: Config) -> Instance {
    Instance::open(OpenContext { config, has_meta_cache: false })
}

fn table(id: u64, name: &str, opts: TableOptions) -> TableData {
    TableData::new(1, id, name.to_string(), 0, build_schema(), opts)
}

#[test]
fn a_write_is_given_the_next_sequence_number() {
    let mut t = table(1, "t", options(Some(HOUR), 0));
    let group = RowGroup::new(1, vec![row(1, 1, 1), row(2, 2, 2)]);
    assert_eq!(group.num_rows(), 2);
    assert_eq!(group.schema_version(), 1);
    let e = engine(config());
    assert_eq!(e.prepare_write(&t, &group), Ok(WritePlan { sequence: 1, num_rows: 2 }));
    t.last_sequence = 41;
    assert_eq!(e.prepare_write(&t, &group), Ok(WritePlan { sequence: 42, num_rows: 2 }));
    t.last_sequence = u64::MAX;
    assert_eq!(e.prepare_write(&t, &group), Err(Error::SequenceExhausted));
}

#[test]
fn a_write_under_another_schema_version_is_rejected() {
    let t = table(1, "t", options(Some(HOUR), 0));
    let group = RowGroup::new(2, vec![row(1, 1, 1)]);
    assert_eq!(
        engine(config()).prepare_write(&t, &group),
        Err(Error::SchemaMismatch { expect: 1, given: 2 })
    );
}

#[test]
fn a_write_that_is_too_large_is_rejected() {
    let t = table(1, "t", options(Some(HOUR), 0));
    let mut limited = config();
    limited.max_bytes_per_write_batch = Some(ReadableSize(2 * ROW_SIZE as u64));
    let e = engine(limited);
    let two = RowGroup::new(1, vec![row(1, 1, 1), row(2, 2, 2)]);
    assert_eq!(e.prepare_write(&t, &two), Ok(WritePlan { sequence: 1, num_rows: 2 }));
    let three = RowGroup::new(1, vec![row(1, 1, 1), row(2, 2, 2), row(3, 3, 3)]);
    assert_eq!(
        e.prepare_write(&t, &three),
        Err(Error::TooLarge { size: 3 * ROW_SIZE, limit: 2 * ROW_SIZE })
    );
}

#[test]
fn a_write_to_a_dropped_table_is_rejected() {
    let mut t = table(1, "t", options(Some(HOUR), 0));
    t.set_dropped();
    assert!(t.is_dropped());
    // A dropped table is told before anything else.
    let group = RowGroup::new(9, vec![row(1, 1, 1)]);
    assert_eq!(engine(config()).prepare_write(&t, &group), Err(Error::TableDropped));
}

#[test]
fn a_row_lands_in_the_memtable_of_its_time_bucket() {
    let mut t = table(1, "t", options(Some(HOUR), 0));
    let group = RowGroup::new(
        1,
        vec![row(1, 2 * HOUR + 7, 1), row(2, 3 * HOUR - 1, 2), row(3, -1, 3), row(4, 0, 4)],
    );
    assert_eq!(Instance::write_to_memtable(&mut t, 5, &group), Ok(()));
    let buckets: Vec<(i64, i64, Vec<i64>)> = t
        .version
        .memtables
        .iter()
        .map(|m| {
            (
                m.time_range.inclusive_start.0,
                m.time_range.exclusive_end.0,
                m.entries.iter().map(|e| e.key.pk).collect(),
            )
        })
        .collect();
    assert_eq!(
        buckets,
        vec![(2 * HOUR, 3 * HOUR, vec![1, 2]), (-HOUR, 0, vec![3]), (0, HOUR, vec![4])]
    );
    assert!(t.version.sampling_mem.is_none());
    assert_eq!(t.last_sequence(), 5);
    assert_eq!(t.last_memtable_id, 3);
    assert!(t.version.memtables.iter().all(|m| m.last_sequence() == 5 && !m.frozen));
    assert_eq!(
        t.version.memtables.iter().map(|m| m.id()).collect::<Vec<_>>(),
        [1, 2, 3]
    );
}

#[test]
fn a_table_without_segment_duration_writes_into_its_sampling_memtable() {
    let mut t = table(1, "t", options(None, 0));
    let group = RowGroup::new(1, vec![row(1, 9 * HOUR, 1), row(2, -5, 2)]);
    assert_eq!(Instance::write_to_memtable(&mut t, 1, &group), Ok(()));
    assert!(t.version.memtables.is_empty());
    let sampling = t.version.sampling_mem.as_ref().unwrap();
    assert!(sampling.sampling);
    assert_eq!(sampling.time_range(), TimeRange::min_to_max());
    assert_eq!(sampling.scan(), vec![entry(1, 9 * HOUR, 1, 1), entry(2, -5, 1, 2)]);
}

#[test]
fn a_write_goes_in_whole_or_not_at_all() {
    let mut t = table(1, "t", options(Some(HOUR), 0));
    let bad = Timestamp::new(i64::MAX);
    let group = RowGroup::new(1, vec![row(1, 10, 1), row(2, i64::MAX, 2), row(3, i64::MIN, 3)]);
    assert_eq!(
        Instance::write_to_memtable(&mut t, 1, &group),
        Err(Error::MemTable { source: version::Error::TimestampOverflow { timestamp: bad } })
    );
    assert!(t.version.memtables.is_empty());
    assert_eq!(t.last_sequence(), 0);
    assert_eq!(
        check_rows(&t.version, &group.rows, Some(HOUR)),
        Err(version::Error::TimestampOverflow { timestamp: bad })
    );
    assert_eq!(check_rows(&t.version, &vec![row(1, 10, 1)], Some(HOUR)), Ok(()));
}

#[test]
fn the_latest_timestamp_finds_no_sampling_memtable() {
    let mut t = table(1, "t", options(None, 0));
    let group = RowGroup::new(1, vec![row(1, i64::MAX, 1)]);
    assert_eq!(
        Instance::write_to_memtable(&mut t, 1, &group),
        Err(Error::MemTable {
            source: version::Error::TimestampOverflow { timestamp: Timestamp::new(i64::MAX) }
        })
    );
    let earliest = RowGroup::new(1, vec![row(1, i64::MIN, 1)]);
    assert_eq!(Instance::write_to_memtable(&mut t, 1, &earliest), Ok(()));
}

#[test]
fn a_frozen_sampling_memtable_takes_no_rows() {
    let mut t = table(1, "t", options(None, 0));
    Instance::write_to_memtable(&mut t, 1, &RowGroup::new(1, vec![row(1, 1, 1)])).unwrap();
    t.version.sampling_mem.as_mut().unwrap().frozen = true;
    assert_eq!(
        Instance::write_to_memtable(&mut t, 2, &RowGroup::new(1, vec![row(1, 2, 1)])),
        Err(Error::MemTable { source: version::Error::SamplingFrozen })
    );
}

#[test]
fn memtables_of_buckets_need_a_segment_duration() {
    let mut t = table(1, "t", options(Some(HOUR), 0));
    Instance::write_to_memtable(&mut t, 1, &RowGroup::new(1, vec![row(1, 1, 1)])).unwrap();
    t.opts.segment_duration = None;
    assert_eq!(
        Instance::write_to_memtable(&mut t, 2, &RowGroup::new(1, vec![row(1, 2, 1)])),
        Err(Error::MemTable { source: version::Error::MissingSegmentDuration })
    );
}

#[test]
fn used_up_memtable_ids_are_reported() {
    let mut t = table(1, "t", options(Some(HOUR), 0));
    t.last_memtable_id = u64::MAX - 1;
    let group = RowGroup::new(1, vec![row(1, 1, 1), row(2, 2, 2)]);
    assert_eq!(
        Instance::write_to_memtable(&mut t, 1, &group),
        Err(Error::MemTable { source: version::Error::MemTableIdsExhausted })
    );
    assert_eq!(
        Instance::write_to_memtable(&mut t, 1, &RowGroup::new(1, vec![row(1, 1, 1)])),
        Ok(())
    );
}

#[test]
fn memtable_for_write_reuses_the_memtable_of_a_bucket() {
    let mut version = TableVersion::new();
    let first = version.memtable_for_write(Timestamp::new(10), Some(HOUR), 7);
    assert_eq!(first, Ok(MemTableForWrite::Regular(0)));
    assert_eq!(version.memtable_for_write(Timestamp::new(HOUR - 1), Some(HOUR), 8), first);
    assert_eq!(version.memtables.len(), 1);
    assert_eq!(version.memtables[0].id(), 7);
    version.memtables[0].frozen = true;
    assert_eq!(
        version.memtable_for_write(Timestamp::new(20), Some(HOUR), 9),
        Ok(MemTableForWrite::Regular(1))
    );
    assert_eq!(version.memtables[1].id(), 9);
    assert_eq!(version.check_write(Timestamp::new(i64::MIN), Some(HOUR)).is_err(), true);
    let mut sampling = TableVersion::new();
    assert_eq!(
        sampling.memtable_for_write(Timestamp::new(10), None, 1),
        Ok(MemTableForWrite::Sampling)
    );
    assert_eq!(sampling.flushed_sequence(), 0);
}

#[test]
fn a_memtable_keeps_its_rows_sorted() {
    let range = TimeRange::new(Timestamp::new(0), Timestamp::new(HOUR)).unwrap();
    let mut mem = MemTable::new(1, range, false);
    mem.put(row(2, 5, 20), 1);
    mem.put(row(1, 9, 10), 1);
    mem.put(row(2, 5, 21), 2);
    mem.put(row(1, 8, 11), 3);
    mem.put(row(2, 5, 22), 2);
    assert_eq!(
        mem.scan(),
        vec![
            entry(1, 8, 3, 11),
            entry(1, 9, 1, 10),
            entry(2, 5, 2, 22),
            entry(2, 5, 2, 21),
            entry(2, 5, 1, 20),
        ]
    );
    assert_eq!(mem.last_sequence(), 3);
    assert_eq!(mem.num_rows(), 5);
    assert_eq!(mem.approximate_memory_usage(), 5 * ENTRY_SIZE);
    assert_eq!(copy_entries(&mem.entries), mem.entries);
}

#[test]
fn the_sequence_number_of_the_last_write_never_moves_back() {
    let mut t = table(1, "t", options(Some(HOUR), 0));
    Instance::write_to_memtable(&mut t, 7, &RowGroup::new(1, vec![row(1, 1, 1)])).unwrap();
    assert_eq!(t.last_sequence(), 7);
    Instance::write_to_memtable(&mut t, 3, &RowGroup::new(1, vec![row(1, 2, 1)])).unwrap();
    assert_eq!(t.last_sequence(), 7);
    Instance::write_to_memtable(&mut t, 9, &RowGroup::new(1, Vec::new())).unwrap();
    assert_eq!(t.last_sequence(), 7);
    t.set_last_sequence(5);
    assert_eq!(t.last_sequence(), 7);
    t.set_last_sequence(8);
    assert_eq!(t.last_sequence(), 8);
    t.set_last_file_id(4);
    t.set_last_file_id(2);
    assert_eq!(t.last_file_id(), 4);
    assert_eq!(t.alloc_file_id(), Some(5));
    assert_eq!(t.last_file_id(), 5);
    t.last_file_id = u64::MAX;
    assert_eq!(t.alloc_file_id(), None);
}

#[test]
fn the_narrowest_full_write_buffer_triggers_the_flush() {
    let mut cfg = config();
    cfg.space_write_buffer_size = 3 * ENTRY_SIZE;
    cfg.db_write_buffer_size = 4 * ENTRY_SIZE;
    let mut e = engine(cfg);
    let context =
        || SpaceContext { catalog_name: "c".to_string(), schema_name: "s".to_string() };
    let s = e.open_space(1, context());
    assert_eq!(e.open_space(1, context()), s);
    let other = e.open_space(2, context());
    assert_eq!((s, other), (0, 1));
    let spaces = &mut e.space_store.spaces.spaces;
    spaces[0].insert_table(table(1, "a", options(Some(HOUR), (2 * ENTRY_SIZE) as u32)));
    spaces[0].insert_table(table(2, "b", options(Some(HOUR), 0)));
    let mut far = TableData::new(2, 3, "c".to_string(), 0, build_schema(), options(Some(HOUR), 0));
    far.space_id = 2;
    spaces[1].insert_table(far);
    assert_eq!(e.flush_trigger(0, 0), FlushTrigger::NoFlush);
    assert!(!e.should_flush_instance());

    let put = |e: &mut Instance, space: usize, table: usize, n: i64| {
        let t = &mut e.space_store.spaces.spaces[space].tables[table];
        let rows = (0..n).map(|i| row(i, i, 0)).collect();
        Instance::write_to_memtable(t, t.last_sequence + 1, &RowGroup::new(1, rows)).unwrap();
    };
    put(&mut e, 0, 0, 1);
    assert_eq!(e.flush_trigger(0, 0), FlushTrigger::NoFlush);
    put(&mut e, 0, 0, 1);
    assert_eq!(e.flush_trigger(0, 0), FlushTrigger::Table);
    assert!(e.space_store.spaces.spaces[0].tables[0].should_flush_table());
    assert_eq!(e.flush_trigger(0, 1), FlushTrigger::NoFlush);
    put(&mut e, 0, 1, 1);
    assert_eq!(e.flush_trigger(0, 1), FlushTrigger::Space);
    assert!(e.space_store.spaces.spaces[0].should_flush_space());
    assert_eq!(e.flush_trigger(1, 0), FlushTrigger::NoFlush);
    put(&mut e, 1, 0, 1);
    assert_eq!(e.flush_trigger(1, 0), FlushTrigger::Instance);
    assert!(e.should_flush_instance());
    assert_eq!(e.space_store.total_memory_usage_space(), 4 * ENTRY_SIZE);
    assert_eq!(e.space_store.spaces.spaces[0].memtable_memory_usage(), 3 * ENTRY_SIZE);
    assert_eq!(e.space_store.find_maximum_memory_usage_space().map(|s| s.id), Some(1));
    let mut tables = Vec::new();
    e.space_store.list_all_tables(&mut tables);
    assert_eq!(tables.iter().map(|t| t.id).collect::<Vec<_>>(), [1, 2, 3]);
    assert_eq!(e.get_space_by_read_lock(2).map(|s| s.id), Some(2));
    assert!(e.get_space_by_read_lock(3).is_none());
}

#[test]
fn a_write_waits_for_a_flush_only_when_the_memtables_are_full() {
    let mut cfg = config();
    cfg.max_rows_in_write_queue = 2;
    let e = engine(cfg);
    let mut t = table(1, "t", options(Some(HOUR), 0));
    assert_eq!(t.num_rows_in_memory(), 0);
    let rows = (0..4).map(|i| row(i, i * HOUR, 0)).collect();
    Instance::write_to_memtable(&mut t, 1, &RowGroup::new(1, rows)).unwrap();
    assert_eq!(t.num_rows_in_memory(), 4);
    // No flush is under way.
    assert!(!e.should_wait_for_flush(&t));
    t.flush_in_flight = true;
    // Four rows are not more than twice two.
    assert!(!e.should_wait_for_flush(&t));
    Instance::write_to_memtable(&mut t, 2, &RowGroup::new(1, vec![row(9, 9, 9)])).unwrap();
    assert_eq!(t.num_rows_in_memory(), 5);
    assert!(e.should_wait_for_flush(&t));
    t.flush_in_flight = false;
    assert!(!e.should_wait_for_flush(&t));
}

#[test]
fn the_table_to_flush_is_the_largest_under_pressure() {
    let mut cfg = config();
    cfg.space_write_buffer_size = 3 * ENTRY_SIZE;
    cfg.db_write_buffer_size = 6 * ENTRY_SIZE;
    let mut e = engine(cfg);
    let context =
        || SpaceContext { catalog_name: "c".to_string(), schema_name: "s".to_string() };
    e.open_space(1, context());
    e.open_space(2, context());
    let spaces = &mut e.space_store.spaces.spaces;
    assert_eq!(spaces[0].find_maximum_memory_usage_table(), None);
    spaces[0].insert_table(table(1, "a", options(Some(HOUR), (2 * ENTRY_SIZE) as u32)));
    spaces[0].insert_table(table(2, "b", options(Some(HOUR), 0)));
    spaces[0].insert_table(table(3, "c", options(Some(HOUR), 0)));
    // Among tables of equal usage the last is the largest.
    assert_eq!(spaces[0].find_maximum_memory_usage_table(), Some(2));
    let mut far = TableData::new(2, 4, "d".to_string(), 0, build_schema(), options(Some(HOUR), 0));
    far.space_id = 2;
    spaces[1].insert_table(far);
    spaces[1].write_buffer_size = 0;
    assert_eq!(e.table_to_flush(0, 0), None);

    let put = |e: &mut Instance, space: usize, table: usize, n: i64| {
        let t = &mut e.space_store.spaces.spaces[space].tables[table];
        let rows = (0..n).map(|i| row(i, i, 0)).collect();
        Instance::write_to_memtable(t, t.last_sequence + 1, &RowGroup::new(1, rows)).unwrap();
    };
    // The table's own write buffer is full: the table itself.
    put(&mut e, 0, 0, 2);
    assert_eq!(e.table_to_flush(0, 0), Some((0, 0)));
    assert_eq!(e.table_to_flush(0, 2), None);
    // That of the space: its largest table, not the one written to.
    put(&mut e, 0, 2, 1);
    assert_eq!(e.flush_trigger(0, 2), FlushTrigger::Space);
    assert_eq!(e.table_to_flush(0, 2), Some((0, 0)));
    assert_eq!(e.space_store.spaces.spaces[0].find_maximum_memory_usage_table(), Some(0));
    // That of the engine: the largest table of the largest space.
    assert_eq!(e.table_to_flush(1, 0), None);
    put(&mut e, 1, 0, 4);
    assert_eq!(e.flush_trigger(1, 0), FlushTrigger::Instance);
    assert_eq!(e.space_store.maximum_memory_usage_space_index(), Some(1));
    assert_eq!(e.table_to_flush(1, 0), Some((1, 0)));
    e.space_store.spaces.spaces[0].write_buffer_size = 0;
    put(&mut e, 0, 1, 4);
    assert_eq!(e.flush_trigger(1, 0), FlushTrigger::Instance);
    assert_eq!(e.table_to_flush(1, 0), Some((0, 1)));
}

#[test]
fn among_spaces_of_equal_usage_the_last_is_the_maximum() {
    let mut e = engine(config());
    assert!(e.space_store.find_maximum_memory_usage_space().is_none());
    for id in [5u32, 6, 7] {
        e.open_space(id, SpaceContext { catalog_name: "c".to_string(), schema_name: "s".to_string() });
    }
    assert_eq!(e.space_store.find_maximum_memory_usage_space().map(|s| s.id), Some(7));
    let mut t = TableData::new(6, 1, "a".to_string(), 0, build_schema(), options(Some(HOUR), 0));
    Instance::write_to_memtable(&mut t, 1, &RowGroup::new(1, vec![row(1, 1, 1)])).unwrap();
    e.space_store.spaces.spaces[1].insert_table(t);
    assert_eq!(e.space_store.find_maximum_memory_usage_space().map(|s| s.id), Some(6));
}

#[test]
fn a_space_finds_its_tables_by_name_and_by_id() {
    let mut space = Space::new(
        1,
        SpaceContext { catalog_name: "c".to_string(), schema_name: "s".to_string() },
        0,
    );
    space.insert_table(table(10, "a", options(None, 0)));
    space.insert_table(table(20, "b", options(None, 0)));
    assert_eq!(space.table_index("b"), Some(1));
    assert_eq!(space.table_index("c"), None);
    assert_eq!(space.find_table("a").map(|t| t.id), Some(10));
    assert!(space.find_table("").is_none());
    assert_eq!(space.table_index_by_id(20), Some(1));
    assert_eq!(space.find_table_by_id(10).map(|t| t.name.clone()), Some("a".to_string()));
    assert!(space.find_table_by_id(30).is_none());
    space.insert_open_failed_table("x".to_string());
    assert_eq!(space.open_failed_tables, vec!["x".to_string()]);
    assert!(!space.should_flush_space());
}
