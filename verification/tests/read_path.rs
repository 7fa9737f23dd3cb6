use analytic_engine::entry::{Entry, KeyedRow, PrimaryKey};
use analytic_engine::fixtures::build_schema;
use analytic_engine::instance::open::{Config, OpenContext};
use analytic_engine::instance::read::{
    iters_to_stream, need_merge_sort_streams, Error, SstData, RECORD_BATCH_READ_BUF_SIZE,
};
use analytic_engine::instance::{Instance, RecoverMode};
use analytic_engine::payload::RowGroup;
use analytic_engine::request::{ReadOptions, ReadOrder, ReadRequest};
use analytic_engine::row_iter::chain::{chain, ChainIterator};
use analytic_engine::row_iter::dedup::{dedup, DedupIterator};
use analytic_engine::row_iter::merge::{merge, MergeIterator};
use analytic_engine::sst::file::{FileHandle, FileMeta, SstMetaData};
use analytic_engine::table::data::TableData;
use analytic_engine::table_options::{CompactionOptions, TableOptions, UpdateMode};
use analytic_engine::time::{TimeRange, Timestamp};

const HOUR: i64 = 3_600_000;

fn entry(pk: i64, ts: i64, sequence: u64, value: u64) -> Entry {
    Entry { key: PrimaryKey { pk, timestamp: Timestamp::new(ts) }, sequence, value }
}

fn row(pk: i64, ts: i64, value: f64) -> KeyedRow {
    KeyedRow { key: PrimaryKey { pk, timestamp: Timestamp::new(ts) }, value: value.to_bits() }
}

fn options(segment: Option<i64>, update_mode: UpdateMode) -> TableOptions {
    TableOptions {
        segment_duration: segment,
        update_mode,
        enable_ttl: true,
        ttl: 7 * 24 * HOUR,
        write_buffer_size: 0,
        num_rows_per_row_group: 8192,
        arena_block_size: 2 << 20,
        compaction: CompactionOptions {
            l0_file_num_trigger: 2,
            l0_size_trigger: u64::MAX,
            max_pending: 4,
        },
    }
}

fn engine() -> Instance {
    Instance::open(OpenContext {
        config: Config {
            table_opts: TableOptions::default(),
            compaction: TableOptions::default().compaction,
            sst_meta_cache_cap: None,
            sst_background_read_parallelism: 8,
            scan_max_record_batches_in_flight: 1024,
            scan_batch_size: Some(500),
            max_rows_in_write_queue: 0,
            db_write_buffer_size: 0,
            space_write_buffer_size: 0,
            replay_batch_size: 500,
            write_sst_max_buffer_size: analytic_engine::config::ReadableSize::mb(10),
            max_retry_flush_limit: 0,
            max_bytes_per_write_batch: None,
            recover_mode: RecoverMode::TableBased,
        },
        has_meta_cache: false,
    })
}

fn table(opts: TableOptions) -> TableData {
    TableData::new(1, 1, "t".to_string(), 0, build_schema(), opts)
}

fn write(table: &mut TableData, rows: Vec<KeyedRow>) -> u64 {
    let group = RowGroup::new(table.schema_version(), rows);
    let plan = engine().prepare_write(table, &group).unwrap();
    Instance::write_to_memtable(table, plan.sequence, &group).unwrap();
    plan.sequence
}

fn request(order: ReadOrder, read_parallelism: usize) -> ReadRequest {
    ReadRequest {
        request_id: 1,
        opts: ReadOptions { batch_size: 500, read_parallelism },
        time_range: TimeRange::min_to_max(),
        order,
    }
}

fn read_all(table: &TableData, order: ReadOrder, store: &Vec<SstData>) -> Vec<Entry> {
    let streams = engine().partitioned_read_from_table(table, &request(order, 1), store, Timestamp::new(0)).unwrap();
    assert_eq!(streams.streams.len(), 1);
    streams.streams.into_iter().next().unwrap()
}

fn file_at(id: u64, start: i64, end: i64) -> FileHandle {
    FileHandle::new(FileMeta {
        id,
        meta: SstMetaData {
            min_key: Vec::new(),
            max_key: Vec::new(),
            time_range: TimeRange::new(Timestamp::new(start), Timestamp::new(end)).unwrap(),
            max_sequence: 0,
            schema: build_schema(),
            size: 0,
            row_num: 0,
            index_map: Vec::new(),
        },
    })
}

#[test]
fn merge_yields_ascending_keys_with_the_later_write_first() {
    let sources = vec![
        vec![entry(1, 100, 1, 10), entry(3, 0, 1, 30)],
        vec![entry(1, 100, 2, 11), entry(2, 50, 2, 20)],
        vec![],
        vec![entry(0, 9, 3, 1), entry(3, 0, 3, 31)],
    ];
    let merged = merge(&sources);
    assert_eq!(
        merged,
        vec![
            entry(0, 9, 3, 1),
            entry(1, 100, 2, 11),
            entry(1, 100, 1, 10),
            entry(2, 50, 2, 20),
            entry(3, 0, 3, 31),
            entry(3, 0, 1, 30),
        ]
    );
    assert_eq!(MergeIterator::new(sources).collect(), merged);
    assert!(merge(&vec![]).is_empty());
    assert!(merge(&vec![vec![], vec![]]).is_empty());
}

#[test]
fn merge_emits_every_row_of_unsorted_sources_too() {
    let sources = vec![vec![entry(3, 0, 1, 30), entry(1, 0, 1, 10)], vec![entry(2, 0, 1, 20)]];
    let mut merged = merge(&sources);
    assert_eq!(merged.len(), 3);
    merged.sort_by_key(|e| e.key.pk);
    assert_eq!(merged, vec![entry(1, 0, 1, 10), entry(2, 0, 1, 20), entry(3, 0, 1, 30)]);
}

#[test]
fn merge_takes_the_first_source_among_equal_rows() {
    let sources = vec![vec![entry(1, 0, 1, 10)], vec![entry(1, 0, 1, 99)]];
    assert_eq!(merge(&sources), vec![entry(1, 0, 1, 10), entry(1, 0, 1, 99)]);
}

#[test]
fn dedup_keeps_the_first_row_of_each_key() {
    let stream = vec![
        entry(0, 9, 3, 1),
        entry(1, 100, 2, 11),
        entry(1, 100, 1, 10),
        entry(1, 101, 1, 12),
        entry(3, 0, 3, 31),
        entry(3, 0, 1, 30),
    ];
    let kept = vec![entry(0, 9, 3, 1), entry(1, 100, 2, 11), entry(1, 101, 1, 12), entry(3, 0, 3, 31)];
    assert_eq!(dedup(&stream), kept);
    assert_eq!(DedupIterator::new(stream).collect(), kept);
    assert!(dedup(&vec![]).is_empty());
    assert_eq!(dedup(&vec![entry(1, 1, 1, 1)]), vec![entry(1, 1, 1, 1)]);
}

#[test]
fn chain_emits_each_row_once_in_source_order() {
    let sources = vec![vec![entry(3, 0, 1, 30), entry(1, 0, 1, 10)], vec![], vec![entry(1, 0, 2, 11)]];
    let out = vec![entry(3, 0, 1, 30), entry(1, 0, 1, 10), entry(1, 0, 2, 11)];
    assert_eq!(chain(&sources), out);
    assert_eq!(iters_to_stream(&sources), out);
    assert_eq!(ChainIterator::new(sources).collect(), out);
    assert!(chain(&vec![]).is_empty());
}

#[test]
fn merge_sort_is_needed_for_dedup_or_an_order() {
    let overwrite = options(None, UpdateMode::Overwrite);
    let append = options(None, UpdateMode::Append);
    assert!(need_merge_sort_streams(&overwrite, &request(ReadOrder::NoOrder, 1)));
    assert!(need_merge_sort_streams(&append, &request(ReadOrder::Asc, 1)));
    assert!(need_merge_sort_streams(&append, &request(ReadOrder::Desc, 1)));
    assert!(!need_merge_sort_streams(&append, &request(ReadOrder::NoOrder, 1)));
    assert_eq!(RECORD_BATCH_READ_BUF_SIZE, 1000);
    assert!(ReadOrder::NoOrder.is_out_of_order());
    assert!(ReadOrder::Asc.is_in_order() && !ReadOrder::Asc.is_in_desc_order());
    assert!(ReadOrder::Desc.is_in_desc_order());
}

#[test]
fn basic_write_read() {
    let mut t = table(options(Some(HOUR), UpdateMode::Overwrite));
    write(&mut t, vec![row(1, 100, 1.0), row(2, 200, 2.0)]);
    let store = Vec::new();
    let first = read_all(&t, ReadOrder::NoOrder, &store);
    assert_eq!(
        first.iter().map(|e| e.row()).collect::<Vec<_>>(),
        vec![row(1, 100, 1.0), row(2, 200, 2.0)]
    );
    write(&mut t, vec![row(1, 100, 9.0)]);
    let second = read_all(&t, ReadOrder::NoOrder, &store);
    assert_eq!(
        second.iter().map(|e| e.row()).collect::<Vec<_>>(),
        vec![row(1, 100, 9.0), row(2, 200, 2.0)]
    );
    assert_eq!(second[0].sequence, 2);
    assert_eq!(second[1].sequence, 1);
}

#[test]
fn read_returns_the_rows_of_a_write_with_distinct_keys() {
    let mut t = table(options(Some(HOUR), UpdateMode::Overwrite));
    let rows = vec![row(5, 3 * HOUR + 1, 5.0), row(1, 10, 1.0), row(3, HOUR, 3.0), row(1, 11, 1.5)];
    let sequence = write(&mut t, rows.clone());
    let read = read_all(&t, ReadOrder::Asc, &Vec::new());
    let mut expected: Vec<Entry> = rows.iter().map(|r| Entry::new(*r, sequence)).collect();
    expected.sort_by_key(|e| (e.key.timestamp.0 / HOUR, e.key.pk, e.key.timestamp.0));
    assert_eq!(read, expected);
}

#[test]
fn an_append_table_keeps_every_row_when_read_without_order() {
    let mut t = table(options(Some(HOUR), UpdateMode::Append));
    write(&mut t, vec![row(1, 100, 1.0)]);
    write(&mut t, vec![row(1, 100, 9.0)]);
    let read = read_all(&t, ReadOrder::NoOrder, &Vec::new());
    assert_eq!(read, vec![entry(1, 100, 2, 9.0f64.to_bits()), entry(1, 100, 1, 1.0f64.to_bits())]);
}

#[test]
fn a_descending_read_starts_with_the_last_bucket_and_the_greatest_key() {
    let mut t = table(options(Some(HOUR), UpdateMode::Overwrite));
    write(&mut t, vec![row(1, 10, 1.0), row(2, 20, 2.0), row(1, HOUR + 1, 3.0), row(2, HOUR, 4.0)]);
    let asc = read_all(&t, ReadOrder::Asc, &Vec::new());
    assert_eq!(
        asc.iter().map(|e| e.row()).collect::<Vec<_>>(),
        vec![row(1, 10, 1.0), row(2, 20, 2.0), row(1, HOUR + 1, 3.0), row(2, HOUR, 4.0)]
    );
    let desc = read_all(&t, ReadOrder::Desc, &Vec::new());
    let mut reversed = asc.clone();
    reversed.reverse();
    assert_eq!(desc, reversed);
}

#[test]
fn the_parts_of_a_read_are_dealt_out_to_its_lanes_in_turn() {
    let mut t = table(options(Some(HOUR), UpdateMode::Overwrite));
    write(
        &mut t,
        vec![row(1, 10, 1.0), row(1, HOUR, 2.0), row(1, 2 * HOUR, 3.0), row(1, 3 * HOUR, 4.0), row(1, 4 * HOUR, 5.0)],
    );
    let streams =
        engine().partitioned_read_from_table(&t, &request(ReadOrder::Desc, 2), &Vec::new(), Timestamp::new(0)).unwrap();
    assert_eq!(streams.streams.len(), 2);
    let times = |lane: usize| -> Vec<i64> {
        streams.streams[lane].iter().map(|e| e.key.timestamp.0).collect()
    };
    assert_eq!(times(0), [10, 2 * HOUR, 4 * HOUR]);
    assert_eq!(times(1), [HOUR, 3 * HOUR]);
    let wide =
        engine().partitioned_read_from_table(&t, &request(ReadOrder::NoOrder, 8), &Vec::new(), Timestamp::new(0)).unwrap();
    assert_eq!(wide.streams.len(), 8);
    assert_eq!(wide.streams.iter().map(|s| s.len()).collect::<Vec<_>>(), [1, 1, 1, 1, 1, 0, 0, 0]);
}

#[test]
fn build_partitioned_streams_reverses_only_a_single_descending_lane() {
    let iters = || vec![vec![entry(1, 0, 1, 1)], vec![entry(2, 0, 1, 2)], vec![entry(3, 0, 1, 3)]];
    let one = engine().build_partitioned_streams(&request(ReadOrder::Desc, 1), iters());
    assert_eq!(one.streams, vec![vec![entry(3, 0, 1, 3), entry(2, 0, 1, 2), entry(1, 0, 1, 1)]]);
    let asc = engine().build_partitioned_streams(&request(ReadOrder::Asc, 1), iters());
    assert_eq!(asc.streams, vec![vec![entry(1, 0, 1, 1), entry(2, 0, 1, 2), entry(3, 0, 1, 3)]]);
    let two = engine().build_partitioned_streams(&request(ReadOrder::Desc, 2), iters());
    assert_eq!(
        two.streams,
        vec![vec![entry(1, 0, 1, 1), entry(3, 0, 1, 3)], vec![entry(2, 0, 1, 2)]]
    );
    let none = engine().build_partitioned_streams(&request(ReadOrder::Asc, 0), Vec::new());
    assert!(none.streams.is_empty());
}

#[test]
fn a_read_is_cut_into_its_time_buckets() {
    let mut t = table(options(Some(HOUR), UpdateMode::Overwrite));
    write(&mut t, vec![row(1, 2 * HOUR + 5, 1.0), row(1, 10, 2.0), row(2, -1, 3.0)]);
    t.version.levels[0].insert(file_at(1, 0, HOUR));
    t.version.levels[1].insert(file_at(2, 2 * HOUR, 3 * HOUR));
    t.version.levels[0].insert(file_at(3, 5 * HOUR, 6 * HOUR));
    let parts = engine().partition_ssts_and_memtables(TimeRange::min_to_max(), &t.version, &t.opts, None);
    let shape: Vec<(Vec<i64>, Vec<u64>, Vec<u64>)> = parts
        .iter()
        .map(|p| {
            (
                p.memtables.iter().map(|m| m.time_range.inclusive_start.0).collect(),
                p.leveled_ssts[0].iter().map(|f| f.id()).collect(),
                p.leveled_ssts[1].iter().map(|f| f.id()).collect(),
            )
        })
        .collect();
    assert_eq!(
        shape,
        vec![
            (vec![-HOUR], vec![], vec![]),
            (vec![0], vec![1], vec![]),
            (vec![2 * HOUR], vec![], vec![2]),
            (vec![], vec![3], vec![]),
        ]
    );
    assert!(parts.iter().all(|p| !p.contains_sampling() && p.leveled_ssts.len() == 2));
}

#[test]
fn a_read_sees_only_what_meets_its_time_range() {
    let mut t = table(options(Some(HOUR), UpdateMode::Overwrite));
    write(&mut t, vec![row(1, 10, 1.0), row(1, HOUR + 10, 2.0)]);
    t.version.levels[0].insert(file_at(1, 0, HOUR));
    t.version.levels[1].insert(file_at(2, HOUR, 2 * HOUR));
    let range = TimeRange::new(Timestamp::new(HOUR), Timestamp::new(HOUR + 1)).unwrap();
    let view = t.version.pick_read_view(range, None);
    assert_eq!(view.memtables.len(), 1);
    assert_eq!(view.memtables[0].time_range.inclusive_start.0, HOUR);
    assert!(view.leveled_ssts[0].is_empty());
    assert_eq!(view.leveled_ssts[1].iter().map(|f| f.id()).collect::<Vec<_>>(), [2]);
}

#[test]
fn a_file_that_reaches_over_buckets_is_read_with_the_bucket_of_its_start() {
    let mut t = table(options(Some(HOUR), UpdateMode::Overwrite));
    write(&mut t, vec![row(1, HOUR + 5, 1.0)]);
    t.version.levels[0].insert(file_at(1, 10, 3 * HOUR));
    t.version.levels[0].insert(file_at(2, HOUR, 2 * HOUR));
    let parts =
        engine().partition_ssts_and_memtables(TimeRange::min_to_max(), &t.version, &t.opts, None);
    let shape: Vec<(usize, Vec<u64>)> = parts
        .iter()
        .map(|p| (p.memtables.len(), p.leveled_ssts[0].iter().map(|f| f.id()).collect()))
        .collect();
    assert_eq!(shape, vec![(0, vec![1]), (1, vec![2])]);
}

#[test]
fn a_read_sees_no_file_that_has_expired() {
    let mut t = table(options(Some(HOUR), UpdateMode::Overwrite));
    t.version.levels[0].insert(file_at(1, 0, HOUR));
    t.version.levels[0].insert(file_at(2, HOUR, 2 * HOUR));
    t.version.levels[1].insert(file_at(3, 0, HOUR));
    let ids = |expire: Option<i64>| -> Vec<Vec<u64>> {
        t.version
            .pick_read_view(TimeRange::min_to_max(), expire.map(Timestamp::new))
            .leveled_ssts
            .iter()
            .map(|level| level.iter().map(|f| f.id()).collect())
            .collect()
    };
    assert_eq!(ids(None), vec![vec![1, 2], vec![3]]);
    assert_eq!(ids(Some(HOUR - 1)), vec![vec![1, 2], vec![3]]);
    assert_eq!(ids(Some(HOUR)), vec![vec![2], vec![]]);
    assert_eq!(ids(Some(2 * HOUR)), vec![vec![], vec![]]);
    // The read of the table takes the expiry from the table's time to live.
    t.opts.enable_ttl = true;
    t.opts.ttl = HOUR;
    let store = vec![
        SstData { file_id: 1, rows: vec![entry(1, 5, 1, 10)] },
        SstData { file_id: 2, rows: vec![entry(2, HOUR + 5, 1, 20)] },
        SstData { file_id: 3, rows: vec![entry(3, 6, 1, 30)] },
    ];
    let read = |now: i64| {
        engine()
            .partitioned_read_from_table(&t, &request(ReadOrder::Asc, 1), &store, Timestamp::new(now))
            .unwrap()
            .streams
            .remove(0)
    };
    assert_eq!(read(2 * HOUR - 1).len(), 3);
    assert_eq!(read(2 * HOUR), vec![entry(2, HOUR + 5, 1, 20)]);
    assert_eq!(read(3 * HOUR), Vec::new());
}

#[test]
fn a_dropped_table_is_not_read() {
    let mut t = table(options(Some(HOUR), UpdateMode::Overwrite));
    write(&mut t, vec![row(1, 5, 1.0)]);
    t.set_dropped();
    let read = engine().partitioned_read_from_table(
        &t,
        &request(ReadOrder::Asc, 1),
        &Vec::new(),
        Timestamp::new(0),
    );
    assert_eq!(read.err(), Some(Error::TableDropped { table_id: t.id }));
}

#[test]
fn a_table_without_segment_duration_is_read_as_one_part() {
    let mut t = table(options(None, UpdateMode::Overwrite));
    write(&mut t, vec![row(2, 5 * HOUR, 2.0), row(1, 10, 1.0)]);
    let parts = engine().partition_ssts_and_memtables(TimeRange::min_to_max(), &t.version, &t.opts, None);
    assert_eq!(parts.len(), 1);
    assert!(parts[0].contains_sampling());
    let read = read_all(&t, ReadOrder::Asc, &Vec::new());
    assert_eq!(read.iter().map(|e| e.row()).collect::<Vec<_>>(), vec![row(1, 10, 1.0), row(2, 5 * HOUR, 2.0)]);
}

#[test]
fn a_read_fails_where_the_rows_of_a_file_are_missing() {
    let mut t = table(options(Some(HOUR), UpdateMode::Overwrite));
    t.version.levels[0].insert(file_at(1, 0, HOUR));
    let sorted = engine().partitioned_read_from_table(&t, &request(ReadOrder::Asc, 1), &Vec::new(), Timestamp::new(0));
    assert_eq!(sorted.err(), Some(Error::BuildMergeIterator { table_id: 1 }));
    t.opts.update_mode = UpdateMode::Append;
    let chained =
        engine().partitioned_read_from_table(&t, &request(ReadOrder::NoOrder, 1), &Vec::new(), Timestamp::new(0));
    assert_eq!(chained.err(), Some(Error::BuildChainIterator { table_id: 1 }));
    let store = vec![
        SstData { file_id: 1, rows: vec![entry(7, 5, 1, 70)] },
        SstData { file_id: 1, rows: vec![entry(8, 5, 1, 80)] },
    ];
    // The first entry of the store for a file is the one that counts.
    assert_eq!(read_all(&t, ReadOrder::NoOrder, &store), vec![entry(7, 5, 1, 70)]);
}

#[test]
fn rows_in_memory_overwrite_rows_in_files() {
    let mut t = table(options(Some(HOUR), UpdateMode::Overwrite));
    t.version.levels[0].insert(file_at(1, 0, HOUR));
    t.version.levels[1].insert(file_at(2, 0, HOUR));
    let store = vec![
        SstData { file_id: 1, rows: vec![entry(1, 5, 3, 13), entry(2, 5, 3, 23)] },
        SstData { file_id: 2, rows: vec![entry(1, 5, 1, 11), entry(3, 5, 1, 31)] },
    ];
    t.last_sequence = 3;
    write(&mut t, vec![KeyedRow { key: entry(2, 5, 0, 0).key, value: 24 }]);
    assert_eq!(
        read_all(&t, ReadOrder::Asc, &store),
        vec![entry(1, 5, 3, 13), entry(2, 5, 4, 24), entry(3, 5, 1, 31)]
    );
}
