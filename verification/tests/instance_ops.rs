use analytic_engine::config::ReadableSize;
use analytic_engine::instance::open::{Config, OpenContext};
use analytic_engine::instance::{
    CloseStep, Error, Instance, ManualOp, ManualOpOutcome, RecoverMode, TableFlushOptions,
};
use analytic_engine::request::FlushRequest;
use analytic_engine::sst::file::{Request, StopPlan};
use analytic_engine::table_options::TableOptions;

fn engine() -> Instance {
    Instance::open(OpenContext {
        config: Config {
            table_opts: TableOptions::default(),
            compaction: TableOptions::default().compaction,
            sst_meta_cache_cap: None,
            sst_background_read_parallelism: 8,
            scan_max_record_batches_in_flight: 1024,
            scan_batch_size: None,
            max_rows_in_write_queue: 0,
            db_write_buffer_size: 0,
            space_write_buffer_size: 0,
            replay_batch_size: 500,
            write_sst_max_buffer_size: ReadableSize::mb(10),
            max_retry_flush_limit: 5,
            max_bytes_per_write_batch: None,
            recover_mode: RecoverMode::TableBased,
        },
        has_meta_cache: false,
    })
}

#[test]
fn the_engine_shuts_down_in_order() {
    let mut e = engine();
    assert_eq!(
        e.close(),
        vec![
            CloseStep::StopFilePurger(StopPlan { request: Request::Exit, join: true }),
            CloseStep::StopScheduler,
            CloseStep::CloseSpaces,
            CloseStep::DropRuntimes,
        ]
    );
    // Closing again joins nothing.
    assert_eq!(
        e.close()[0],
        CloseStep::StopFilePurger(StopPlan { request: Request::Exit, join: false })
    );
}

#[test]
fn a_failed_step_of_the_shutdown_has_its_error() {
    let plan = StopPlan { request: Request::Exit, join: true };
    assert_eq!(
        Instance::close_error(CloseStep::StopFilePurger(plan)),
        Some(Error::StopFilePurger { source: analytic_engine::sst::file::Error::StopPurger })
    );
    assert_eq!(Instance::close_error(CloseStep::StopScheduler), Some(Error::StopScheduler));
    assert_eq!(Instance::close_error(CloseStep::CloseSpaces), None);
    assert_eq!(Instance::close_error(CloseStep::DropRuntimes), None);
}

#[test]
fn a_manual_flush_is_not_tried_again() {
    let e = engine();
    assert_eq!(
        e.manual_flush_table(FlushRequest { sync: true }),
        TableFlushOptions { res_sender: true, max_retry_flush_limit: 0 }
    );
    assert_eq!(
        e.manual_flush_table(FlushRequest { sync: false }),
        TableFlushOptions { res_sender: false, max_retry_flush_limit: 0 }
    );
}

#[test]
fn the_caller_of_a_synchronous_flush_is_told_how_it_ended() {
    let sync = FlushRequest { sync: true };
    let flush = |outcome| Instance::manual_flush_result(7, sync, outcome);
    assert_eq!(flush(ManualOpOutcome::Done), Ok(()));
    assert_eq!(
        flush(ManualOpOutcome::ScheduleFailed),
        Err(Error::ManualOp { op: ManualOp::Flush, table_id: 7 })
    );
    assert_eq!(
        flush(ManualOpOutcome::RecvFailed),
        Err(Error::RecvManualOpResult { op: ManualOp::Flush, table_id: 7 })
    );
    assert_eq!(
        flush(ManualOpOutcome::OpFailed),
        Err(Error::ManualOp { op: ManualOp::Flush, table_id: 7 })
    );
    let fire = FlushRequest { sync: false };
    assert_eq!(Instance::manual_flush_result(7, fire, ManualOpOutcome::OpFailed), Ok(()));
    assert_eq!(Instance::manual_flush_result(7, fire, ManualOpOutcome::RecvFailed), Ok(()));
    assert_eq!(Instance::manual_flush_result(7, fire, ManualOpOutcome::Scheduled), Ok(()));
    assert!(Instance::manual_flush_result(7, fire, ManualOpOutcome::ScheduleFailed).is_err());
}

#[test]
fn the_caller_of_a_manual_compaction_waits_for_its_result() {
    assert_eq!(Instance::manual_compact_table(7, ManualOpOutcome::Done), Ok(()));
    assert_eq!(
        Instance::manual_compact_table(7, ManualOpOutcome::OpFailed),
        Err(Error::ManualOp { op: ManualOp::Compact, table_id: 7 })
    );
    assert_eq!(
        Instance::manual_compact_table(7, ManualOpOutcome::RecvFailed),
        Err(Error::RecvManualOpResult { op: ManualOp::Compact, table_id: 7 })
    );
    assert_eq!(
        Instance::manual_compact_table(7, ManualOpOutcome::ScheduleFailed),
        Err(Error::SchedulerBusy { table_id: 7 })
    );
}
