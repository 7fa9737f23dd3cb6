//! Core of an analytic, time-series table engine: the time-keyed index of
//! segment files, the read planner and the recovery and drop protocols, stated
//! as verified functions over plain values.

pub mod column_schema;
pub mod compaction;
pub mod config;
pub mod datum;
pub mod entry;
pub mod fixtures;
pub mod guarantees;
pub mod instance;
pub mod key;
pub mod manifest;
pub mod memtable;
pub mod payload;
pub mod projected_schema;
pub mod proto;
pub mod record_batch;
pub mod request;
pub mod row;
pub mod row_iter;
pub mod schema;
pub mod setup;
pub mod space;
pub mod sst;
pub mod table;
pub mod table_options;
pub mod time;
pub mod types;
pub mod wal;
