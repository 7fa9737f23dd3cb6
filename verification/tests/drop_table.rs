use analytic_engine::config::ReadableSize;
use analytic_engine::entry::{Entry, KeyedRow, PrimaryKey};
use analytic_engine::fixtures::build_schema;
use analytic_engine::instance::drop::{DropOutcome, DropStep, Dropper};
use analytic_engine::instance::engine::Error;
use analytic_engine::instance::flush_compaction::FreezeOutcome;
use analytic_engine::instance::open::{Config, OpenContext};
use analytic_engine::instance::read::SstData;
use analytic_engine::instance::{Flusher, Instance, RecoverMode};
use analytic_engine::manifest::{DropTableMeta, MetaEdit, MetaUpdate};
use analytic_engine::payload::RowGroup;
use analytic_engine::request::{DropTableRequest, ReadOptions, ReadOrder, ReadRequest};
use analytic_engine::space::{Space, SpaceContext};
use analytic_engine::sst::file::{FilePurgeRequest, Request};
use analytic_engine::table::data::{TableData, TableShardInfo};
use analytic_engine::table_options::{CompactionOptions, TableOptions, UpdateMode};
use analytic_engine::time::{TimeRange, Timestamp};
use analytic_engine::wal::WalLocation;

const HOUR: i64 = 3_600_000;

fn options() -> TableOptions {
    TableOptions {
        segment_duration: Some(HOUR),
        update_mode: UpdateMode::Overwrite,
        enable_ttl: false,
        ttl: 0,
        write_buffer_size: 0,
        num_rows_per_row_group: 8192,
        arena_block_size: 2 << 20,
        compaction: CompactionOptions { l0_file_num_trigger: 2, l0_size_trigger: 0, max_pending: 4 },
    }
}

fn engine() -> Instance {
    Instance::open(OpenContext {
        config: Config {
            table_opts: TableOptions::default(),
            compaction: TableOptions::default().compaction,
            sst_meta_cache_cap: None,
            sst_background_read_parallelism: 8,
            scan_max_record_batches_in_flight: 1024,
            scan_batch_size: None,
            max_rows_in_write_queue: 0,
            db_write_buffer_size: 0,
            space_write_buffer_size: 0,
            replay_batch_size: 500,
            write_sst_max_buffer_size: ReadableSize::mb(10),
            max_retry_flush_limit: 0,
            max_bytes_per_write_batch: None,
            recover_mode: RecoverMode::TableBased,
        },
        has_meta_cache: false,
    })
}

fn space_with(names: &[&str]) -> Space {
    let mut space = Space::new(
        4,
        SpaceContext { catalog_name: "c".to_string(), schema_name: "s".to_string() },
        0,
    );
    for (i, name) in names.iter().enumerate() {
        space.insert_table(TableData::new(
            4,
            10 + i as u64,
            name.to_string(),
            6,
            build_schema(),
            options(),
        ));
    }
    space
}

fn request(table_name: &str) -> DropTableRequest {
    DropTableRequest {
        catalog_name: "c".to_string(),
        schema_name: "s".to_string(),
        schema_id: 4,
        table_name: table_name.to_string(),
    }
}

fn plan_index(step: DropStep) -> usize {
    match step {
        DropStep::Proceed(plan) => plan.table_index,
        other => panic!("nothing to drop: {:?}", other),
    }
}

#[test]
fn dropping_a_table_that_is_not_there_drops_nothing() {
    let space = space_with(&["a"]);
    assert!(matches!(Dropper::drop(&space, &request("b")), DropStep::NotFound));
    assert!(matches!(Dropper::drop(&space_with(&[]), &request("a")), DropStep::NotFound));
}

#[test]
fn a_drop_marks_the_whole_log_and_records_the_drop() {
    let space = space_with(&["a", "b"]);
    let plan = match Dropper::drop(&space, &request("b")) {
        DropStep::Proceed(plan) => plan,
        other => panic!("nothing to drop: {:?}", other),
    };
    assert_eq!(plan.table_index, 1);
    assert_eq!(plan.wal_location, WalLocation { region_id: 6, table_id: 11 });
    assert_eq!(plan.up_to, u64::MAX);
    assert_eq!(plan.edit.shard_info, TableShardInfo { shard_id: 6 });
    match plan.edit.meta_edit {
        MetaEdit::Update(MetaUpdate::DropTable(meta)) => assert_eq!(
            meta,
            DropTableMeta { space_id: 4, table_id: 11, table_name: "b".to_string() }
        ),
        other => panic!("no drop is recorded: {:?}", other),
    }
}

#[test]
fn drop_table_is_idempotent() {
    let mut space = space_with(&["a", "b"]);
    let index = plan_index(Dropper::drop(&space, &request("a")));
    let (dropped, purge) = Dropper::finish(&mut space, index, DropOutcome::Done);
    assert_eq!(dropped, Ok(true));
    assert!(purge.is_empty());
    assert!(space.tables[0].is_dropped());
    assert!(!space.tables[1].is_dropped());
    // The second call finds nothing to drop.
    assert!(matches!(Dropper::drop(&space, &request("a")), DropStep::AlreadyDropped));
    assert!(matches!(Dropper::drop(&space, &request("b")), DropStep::Proceed(_)));
}

#[test]
fn a_drop_that_fails_outside_leaves_the_table() {
    let mut space = space_with(&["a"]);
    let index = plan_index(Dropper::drop(&space, &request("a")));
    let (failed, purge) = Dropper::finish(&mut space, index, DropOutcome::ManifestFailed);
    assert_eq!(failed, Err(Error::WriteManifest { space_id: 4, table_id: 10 }));
    assert!(purge.is_empty());
    let (failed, _) = Dropper::finish(&mut space, index, DropOutcome::WalFailed);
    assert_eq!(failed, Err(Error::MarkWalDeleted { space_id: 4, table_id: 10 }));
    assert!(!space.tables[0].is_dropped());
    assert!(matches!(Dropper::drop(&space, &request("a")), DropStep::Proceed(_)));
}

#[test]
fn drop_concurrency() {
    let e = engine();
    let mut space = space_with(&["a"]);
    let mut store = Vec::new();
    // Rows in a file, and rows in memory.
    for (sequence, pk) in [(1u64, 1i64), (2, 2)] {
        let row = KeyedRow { key: PrimaryKey { pk, timestamp: Timestamp::new(10) }, value: pk as u64 };
        let table = &mut space.tables[0];
        Instance::write_to_memtable(table, sequence, &RowGroup::new(1, vec![row])).unwrap();
        if sequence == 1 {
            assert_eq!(Flusher::freeze_memtables(table), FreezeOutcome::Frozen(1));
            let plan = Flusher::plan_flush(table, 1).unwrap();
            store.push(SstData { file_id: plan.files_to_add[0].file.id, rows: plan.rows[0].clone() });
            Flusher::finish_flush(table, plan, None, 0).unwrap();
        }
    }
    // A long read starts: it holds what it sees of the table.
    let view = space.tables[0].version.pick_read_view(TimeRange::min_to_max(), None);
    let seen_files: Vec<u64> = view.leveled_ssts[0].iter().map(|f| f.id()).collect();
    let seen_rows: Vec<Entry> = view.memtables.iter().flat_map(|m| m.scan()).collect();
    assert_eq!(seen_files, [1]);
    assert_eq!(seen_rows.len(), 1);
    // Meanwhile the table is dropped.
    let index = plan_index(Dropper::drop(&space, &request("a")));
    let (dropped, purge) = Dropper::finish(&mut space, index, DropOutcome::Done);
    assert_eq!(dropped, Ok(true));
    // The read completes over what it saw.
    assert_eq!(store[0].file_id, seen_files[0]);
    assert_eq!(store[0].rows.len() + seen_rows.len(), 2);
    // No file remains, and the purger is asked to delete the object.
    let table = &space.tables[0];
    assert!(table.version.levels.iter().all(|level| level.files.len() == 0));
    assert_eq!(
        purge,
        vec![Request::Purge(FilePurgeRequest { space_id: 4, table_id: 10, file_id: 1 })]
    );
    // Further writes and reads are told that the table is dropped.
    let group = RowGroup::new(1, Vec::new());
    assert_eq!(e.prepare_write(table, &group), Err(analytic_engine::instance::write::Error::TableDropped));
    let read = ReadRequest {
        request_id: 1,
        opts: ReadOptions { batch_size: 1, read_parallelism: 1 },
        time_range: TimeRange::min_to_max(),
        order: ReadOrder::Asc,
    };
    let after = e.partitioned_read_from_table(table, &read, &Vec::new(), Timestamp::new(0));
    assert_eq!(
        after.err(),
        Some(analytic_engine::instance::read::Error::TableDropped { table_id: 10 })
    );
}

#[test]
fn a_closed_purge_queue_keeps_the_files_of_a_dropped_table() {
    let mut space = space_with(&["a"]);
    let table = &mut space.tables[0];
    let row = KeyedRow { key: PrimaryKey { pk: 1, timestamp: Timestamp::new(10) }, value: 1 };
    Instance::write_to_memtable(table, 1, &RowGroup::new(1, vec![row])).unwrap();
    assert_eq!(Flusher::freeze_memtables(table), FreezeOutcome::Frozen(1));
    let plan = Flusher::plan_flush(table, 1).unwrap();
    Flusher::finish_flush(table, plan, None, 0).unwrap();
    table.purge_queue.close();
    let (dropped, purge) = Dropper::finish(&mut space, 0, DropOutcome::Done);
    assert_eq!(dropped, Ok(true));
    assert!(purge.is_empty());
}
