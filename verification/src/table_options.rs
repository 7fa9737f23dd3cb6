//! Options of a table.

use crate::time::Timestamp;
use vstd::prelude::*;

verus! {

/// What a write does to an earlier row of the same primary key.
#[derive(Clone, Copy, Debug, PartialEq, Eq, Structural)]
pub enum UpdateMode {
    /// The later row takes the place of the earlier one.
    Overwrite,
    /// Both rows stay.
    Append,
}

/// When level 0 is compacted.
#[derive(Clone, Copy, Debug, PartialEq, Eq, Structural)]
pub struct CompactionOptions {
    /// Number of files on level 0 from which they are compacted.
    pub l0_file_num_trigger: usize,
    /// Total size of the files on level 0 from which they are compacted.
    pub l0_size_trigger: u64,
    /// Number of requests that may wait for the scheduler.
    pub max_pending: usize,
}

/// Options of a table.
#[derive(Clone, Copy, Debug, PartialEq, Eq, Structural)]
pub struct TableOptions {
    /// Width of the time buckets of memtables and files, in milliseconds;
    /// `None` while the table still samples its writes to choose one.
    pub segment_duration: Option<i64>,
    pub update_mode: UpdateMode,
    pub enable_ttl: bool,
    /// Time after which a row expires, in milliseconds.
    pub ttl: i64,
    /// Size of the memtables of the table, in bytes, from which it is flushed.
    pub write_buffer_size: u32,
    pub num_rows_per_row_group: usize,
    pub arena_block_size: u32,
    pub compaction: CompactionOptions,
}

impl TableOptions {
    /// The segment duration, where there is one, and the time to live are
    /// spans of time: the first is positive, the second not negative.
    pub open spec fn wf(self) -> bool {
        &&& match self.segment_duration {
            Some(d) => d > 0,
            None => true,
        }
        &&& self.ttl >= 0
    }

    /// Whether reads drop the rows that a later write has overwritten.
    pub open spec fn spec_need_dedup(self) -> bool {
        self.update_mode is Overwrite
    }

    /// The point of time at or before which a file must end to have expired at
    /// `now`: none where rows live forever.
    pub open spec fn spec_expire_time(self, now: Timestamp) -> Option<Timestamp> {
        if self.enable_ttl {
            Some(
                Timestamp(
                    if now.0 - self.ttl < i64::MIN {
                        i64::MIN
                    } else {
                        (now.0 - self.ttl) as i64
                    },
                ),
            )
        } else {
            None
        }
    }

    /// Whether the options are in order.
    pub fn is_valid(&self) -> (b: bool)
        ensures
            b == self.wf(),
    {
        let segment_ok = match self.segment_duration {
            Some(d) => d > 0,
            None => true,
        };
        segment_ok && self.ttl >= 0
    }

    pub fn need_dedup(&self) -> (b: bool)
        ensures
            b == self.spec_need_dedup(),
    {
        match self.update_mode {
            UpdateMode::Overwrite => true,
            UpdateMode::Append => false,
        }
    }

    pub fn expire_time(&self, now: Timestamp) -> (t: Option<Timestamp>)
        requires
            self.wf(),
        ensures
            t == self.spec_expire_time(now),
    {
        if self.enable_ttl {
            Some(now.saturating_sub_millis(self.ttl))
        } else {
            None
        }
    }
}

impl Default for TableOptions {
    /// No segment duration yet, overwriting writes, rows that live for seven
    /// days, a write buffer of 32 MiB, 8192 rows to the row group, arena blocks
    /// of 2 MiB, and compaction from 2 files or 2 GiB on level 0.
    fn default() -> (options: TableOptions)
        ensures
            options == (TableOptions {
                segment_duration: None,
                update_mode: UpdateMode::Overwrite,
                enable_ttl: true,
                ttl: 604800000,
                write_buffer_size: 33554432,
                num_rows_per_row_group: 8192,
                arena_block_size: 2097152,
                compaction: CompactionOptions {
                    l0_file_num_trigger: 2,
                    l0_size_trigger: 2147483648,
                    max_pending: 1024,
                },
            }),
            options.wf(),
    {
        TableOptions {
            segment_duration: None,
            update_mode: UpdateMode::Overwrite,
            enable_ttl: true,
            ttl: 604800000,
            write_buffer_size: 33554432,
            num_rows_per_row_group: 8192,
            arena_block_size: 2097152,
            compaction: CompactionOptions {
                l0_file_num_trigger: 2,
                l0_size_trigger: 2147483648,
                max_pending: 1024,
            },
        }
    }
}

} // verus!
