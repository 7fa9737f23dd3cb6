//! The sorted in-memory container of the rows of one time bucket.

use crate::entry::{sorted_entries, Entry, KeyedRow};
use crate::time::TimeRange;
use crate::types::SequenceNumber;
use vstd::prelude::*;
use vstd::seq_lib::*;

verus! {

/// Id of a memtable within its table.
pub type MemTableId = u64;

/// Bytes that a memtable accounts for each of its rows.
pub const ENTRY_SIZE: usize = 32;

/// Why a memtable cannot be read.
#[derive(Clone, Copy, Debug, PartialEq, Eq, Structural)]
pub enum Error {
    /// The rows of the memtable do not match the schema they are read with.
    InvalidRow,
}

/// A sorted, mutable container of rows in memory.
#[derive(Debug)]
pub struct MemTable {
    pub id: MemTableId,
    /// The rows, in ascending order of their keys; of the rows of one key the
    /// later write comes first.
    pub entries: Vec<Entry>,
    /// The time bucket of the rows.
    pub time_range: TimeRange,
    /// Sequence number of the last write into the memtable.
    pub last_sequence: SequenceNumber,
    /// Whether the memtable collects the first writes of a table that has no
    /// segment duration yet: its time bucket is the whole of time.
    pub sampling: bool,
    /// Whether the memtable waits to be flushed and takes no more rows.
    pub frozen: bool,
}

impl MemTable {
    /// The rows are sorted and lie in the time bucket, and none is of a later
    /// write than the last.
    pub open spec fn wf(self) -> bool {
        &&& sorted_entries(self.entries@)
        &&& self.time_range.wf()
        &&& forall|i: int|
            0 <= i < self.entries@.len() ==> (#[trigger] self.entries@[i]).sequence
                <= self.last_sequence && self.time_range.spec_contains(
                self.entries@[i].key.timestamp,
            )
    }

    /// The memtable takes rows of that time.
    pub open spec fn accepts(self, row: KeyedRow) -> bool {
        self.time_range.spec_contains(row.key.timestamp)
    }

    /// An empty memtable for the rows of `time_range`.
    pub fn new(id: MemTableId, time_range: TimeRange, sampling: bool) -> (mem: MemTable)
        requires
            time_range.wf(),
        ensures
            mem.id == id,
            mem.entries@.len() == 0,
            mem.time_range == time_range,
            mem.last_sequence == 0,
            mem.sampling == sampling,
            !mem.frozen,
            mem.wf(),
    {
        MemTable {
            id,
            entries: Vec::new(),
            time_range,
            last_sequence: 0,
            sampling,
            frozen: false,
        }
    }

    pub fn id(&self) -> (id: MemTableId)
        ensures
            id == self.id,
    {
        self.id
    }

    pub fn time_range(&self) -> (range: TimeRange)
        ensures
            range == self.time_range,
    {
        self.time_range
    }

    pub fn last_sequence(&self) -> (sequence: SequenceNumber)
        ensures
            sequence == self.last_sequence,
    {
        self.last_sequence
    }

    pub fn num_rows(&self) -> (n: usize)
        ensures
            n == self.entries@.len(),
    {
        self.entries.len()
    }

    /// Bytes that the memtable accounts for its rows, up to the greatest
    /// number of bytes there is.
    pub fn approximate_memory_usage(&self) -> (bytes: usize)
        ensures
            bytes == if self.entries@.len() * ENTRY_SIZE > usize::MAX {
                usize::MAX as int
            } else {
                self.entries@.len() * ENTRY_SIZE
            },
    {
        match self.entries.len().checked_mul(ENTRY_SIZE) {
            Some(bytes) => bytes,
            None => usize::MAX,
        }
    }

    /// Puts the row into the memtable as written at `sequence`. It comes to
    /// stand before the rows of its key that were written earlier or in the
    /// same write.
    pub fn put(&mut self, row: KeyedRow, sequence: SequenceNumber)
        requires
            old(self).wf(),
            old(self).accepts(row),
        ensures
            final(self).wf(),
            final(self).entries@.to_multiset() == old(self).entries@.to_multiset().insert(
                (Entry { key: row.key, sequence, value: row.value }),
            ),
            final(self).entries@.len() == old(self).entries@.len() + 1,
            final(self).last_sequence == if sequence > old(self).last_sequence {
                sequence
            } else {
                old(self).last_sequence
            },
            final(self).id == old(self).id,
            final(self).time_range == old(self).time_range,
            final(self).sampling == old(self).sampling,
            final(self).frozen == old(self).frozen,
    {
        let entry = Entry::new(row, sequence);
        let ghost before = self.entries@;
        let mut at: usize = 0;
        while at < self.entries.len() && !entry.le(&self.entries[at])
            invariant
                self.entries@ == before,
                at <= before.len(),
                forall|i: int| 0 <= i < at ==> !entry.spec_le(#[trigger] before[i]),
            decreases before.len() - at,
        {
            at += 1;
        }
        self.entries.insert(at, entry);
        if sequence > self.last_sequence {
            self.last_sequence = sequence;
        }
        proof {
            let after = self.entries@;
            to_multiset_insert(before, at as int, entry);
            assert forall|i: int, j: int| 0 <= i < j < after.len()
                implies (#[trigger] after[i]).spec_le(
                #[trigger] after[j],
            ) by {
                let oi = if i < at { i } else { i - 1 };
                let oj = if j < at { j } else { j - 1 };
                if i != at as int && j != at as int {
                    assert(before[oi].spec_le(before[oj]));
                } else if i == at as int {
                    if at < before.len() {
                        assert(entry.spec_le(before[at as int]));
                        if oj > at {
                            assert(before[at as int].spec_le(before[oj]));
                        }
                    }
                } else {
                    assert(!entry.spec_le(before[oi]));
                }
            }
            assert forall|i: int| 0 <= i < after.len() implies (#[trigger] after[i]).sequence
                <= self.last_sequence && self.time_range.spec_contains(
                after[i].key.timestamp,
            ) by {
                if i < at {
                    assert(after[i] == before[i]);
                } else if i > at {
                    assert(after[i] == before[i - 1]);
                }
            }
        }
    }

    /// The rows of the memtable, in their order.
    pub fn scan(&self) -> (rows: Vec<Entry>)
        ensures
            rows@ == self.entries@,
    {
        copy_entries(&self.entries)
    }
}

/// A copy of the rows.
pub fn copy_entries(entries: &Vec<Entry>) -> (copy: Vec<Entry>)
    ensures
        copy@ == entries@,
{
    let mut copy: Vec<Entry> = Vec::new();
    let mut i: usize = 0;
    while i < entries.len()
        invariant
            i <= entries@.len(),
            copy@ == entries@.take(i as int),
        decreases entries@.len() - i,
    {
        copy.push(entries[i]);
        proof {
            assert(entries@.take(i as int).push(entries@[i as int]) =~= entries@.take(i + 1));
        }
        i += 1;
    }
    proof {
        assert(entries@.take(entries@.len() as int) =~= entries@);
    }
    copy
}

} // verus!
