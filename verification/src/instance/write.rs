//! The write path: rows into memtables.

use crate::entry::{Entry, KeyedRow};
use crate::instance::Instance;
use crate::payload::RowGroup;
use crate::schema::Version;
use crate::table::data::{grows, row_landed, stamped, stored_rows, TableData};
use crate::table::version::TableVersion;
use crate::types::SequenceNumber;
use vstd::prelude::*;
use vstd::seq_lib::*;

verus! {

/// Why a write is turned away.
#[derive(Clone, Copy, Debug, PartialEq, Eq, Structural)]
pub enum Error {
    /// The rows were written under another version of the schema than the
    /// table has.
    SchemaMismatch { expect: Version, given: Version },
    /// The write is larger than a write may be.
    TooLarge { size: usize, limit: usize },
    /// The table has been dropped.
    TableDropped,
    /// No sequence number is left for the write.
    SequenceExhausted,
    /// A row finds no memtable.
    MemTable { source: crate::table::version::Error },
}

/// Bytes that a write accounts for each of its rows.
pub const ROW_SIZE: usize = 24;

/// Which of the write buffers has filled up, the narrowest first.
#[derive(Clone, Copy, Debug, PartialEq, Eq, Structural)]
pub enum FlushTrigger {
    /// None has: no flush is due.
    NoFlush,
    /// That of the table: the table is flushed.
    Table,
    /// That of the space: the table of the space with the largest memtables
    /// is flushed.
    Space,
    /// That of the engine: the table of the engine with the largest memtables
    /// is flushed.
    Instance,
}

/// What a write that may go ahead is given.
#[derive(Clone, Copy, Debug, PartialEq, Eq, Structural)]
pub struct WritePlan {
    /// The sequence number of the write: the next of its table.
    pub sequence: SequenceNumber,
    /// Number of rows that the write brings.
    pub num_rows: usize,
}

/// Bytes that a write of that many rows accounts for, up to the greatest
/// number of bytes there is.
pub open spec fn write_size(num_rows: nat) -> usize {
    if num_rows * ROW_SIZE > usize::MAX {
        usize::MAX
    } else {
        (num_rows * ROW_SIZE) as usize
    }
}

/// What a write is given, or why it is turned away: a write to a dropped table
/// first, then one under another version of the schema, then one that is too
/// large, then one that finds the sequence numbers used up.
pub open spec fn write_plan(limit: Option<usize>, table: TableData, row_group: RowGroup) -> Result<
    WritePlan,
    Error,
> {
    if table.dropped {
        Err(Error::TableDropped)
    } else if row_group.schema_version != table.schema.version {
        Err(
            Error::SchemaMismatch { expect: table.schema.version, given: row_group.schema_version },
        )
    } else if limit.is_some() && write_size(row_group.rows@.len()) > limit.unwrap() {
        Err(Error::TooLarge { size: write_size(row_group.rows@.len()), limit: limit.unwrap() })
    } else if table.last_sequence == u64::MAX {
        Err(Error::SequenceExhausted)
    } else {
        Ok(
            WritePlan {
                sequence: (table.last_sequence + 1) as u64,
                num_rows: row_group.rows@.len() as usize,
            },
        )
    }
}

/// The first row that finds no memtable, with the reason.
pub open spec fn first_row_error(version: TableVersion, rows: Seq<KeyedRow>, segment: Option<i64>)
    -> Option<crate::table::version::Error>
    decreases rows.len(),
{
    if rows.len() == 0 {
        None
    } else {
        match first_row_error(version, rows.drop_last(), segment) {
            Some(e) => Some(e),
            None => version.write_error(rows.last().key.timestamp, segment),
        }
    }
}

/// Why the rows cannot be put into the memtables of the table, if they cannot.
pub open spec fn rows_error(table: TableData, rows: Seq<KeyedRow>) -> Option<
    crate::table::version::Error,
> {
    if table.last_memtable_id + rows.len() > u64::MAX {
        Some(crate::table::version::Error::MemTableIdsExhausted)
    } else {
        first_row_error(table.version, rows, table.opts.segment_duration)
    }
}

/// Where no row finds an error, none of them does.
pub proof fn lemma_no_row_error(version: TableVersion, rows: Seq<KeyedRow>, segment: Option<i64>)
    requires
        first_row_error(version, rows, segment).is_none(),
    ensures
        forall|i: int|
            0 <= i < rows.len() ==> version.write_error(
                (#[trigger] rows[i]).key.timestamp,
                segment,
            ).is_none(),
    decreases rows.len(),
{
    if rows.len() > 0 {
        lemma_no_row_error(version, rows.drop_last(), segment);
        assert forall|i: int| 0 <= i < rows.len() implies version.write_error(
            (#[trigger] rows[i]).key.timestamp,
            segment,
        ).is_none() by {
            if i < rows.len() - 1 {
                assert(rows.drop_last()[i] == rows[i]);
            }
        }
    }
}

/// A write that a version can take, a version grown from it can take too.
pub proof fn lemma_grown_takes_writes(
    before: TableVersion,
    after: TableVersion,
    row: KeyedRow,
    segment: Option<i64>,
)
    requires
        grows(before, after, segment),
        before.wf(),
        after.wf(),
        segment matches Some(d) ==> d > 0,
        before.write_error(row.key.timestamp, segment).is_none(),
    ensures
        after.write_error(row.key.timestamp, segment).is_none(),
{
    if segment is Some {
        crate::time::lemma_bucket_start_bounds(
            row.key.timestamp.0 as int,
            segment->Some_0 as int,
        );
    }
}

/// A row that has landed in a version has landed in every version grown from
/// it.
pub proof fn lemma_landed_stays(
    before: TableVersion,
    after: TableVersion,
    entry: Entry,
    segment: Option<i64>,
)
    requires
        grows(before, after, segment),
        row_landed(before, entry, segment),
    ensures
        row_landed(after, entry, segment),
{
    if before.sampling_mem matches Some(mem) && mem.entries@.contains(entry) {
    } else {
        let d = segment->Some_0;
        let k = choose|k: int|
            0 <= k < before.memtables@.len() && crate::table::data::landed_in(
                #[trigger] before.memtables@[k],
                entry,
                d,
            );
        assert(crate::table::data::landed_in(after.memtables@[k], entry, d));
    }
}

/// Growth goes on: what has grown from a version that has grown from another
/// has grown from that other.
pub proof fn lemma_grows_transitive(
    a: TableVersion,
    b: TableVersion,
    c: TableVersion,
    segment: Option<i64>,
)
    requires
        grows(a, b, segment),
        grows(b, c, segment),
    ensures
        grows(a, c, segment),
{
    assert forall|k: int| 0 <= k < a.memtables@.len() implies {
        &&& (#[trigger] c.memtables@[k]).id == a.memtables@[k].id
        &&& c.memtables@[k].time_range == a.memtables@[k].time_range
        &&& c.memtables@[k].frozen == a.memtables@[k].frozen
        &&& forall|e: Entry|
            a.memtables@[k].entries@.contains(e) ==> c.memtables@[k].entries@.contains(e)
    } by {
        assert(b.memtables@[k].id == a.memtables@[k].id);
        assert(c.memtables@[k].id == b.memtables@[k].id);
        assert forall|e: Entry| a.memtables@[k].entries@.contains(e)
            implies c.memtables@[k].entries@.contains(
            e,
        ) by {
            assert(b.memtables@[k].entries@.contains(e));
        }
    }
    if a.sampling_mem is Some {
        let m = a.sampling_mem->Some_0;
        let mb = b.sampling_mem->Some_0;
        let mc = c.sampling_mem->Some_0;
        assert forall|e: Entry| m.entries@.contains(e) implies mc.entries@.contains(e) by {
            assert(mb.entries@.contains(e));
        }
    }
}

/// Whether every row finds a memtable in the version, without writing any.
pub fn check_rows(version: &TableVersion, rows: &Vec<KeyedRow>, segment: Option<i64>) -> (r: Result<
    (),
    crate::table::version::Error,
>)
    requires
        segment matches Some(d) ==> d > 0,
    ensures
        match r {
            Ok(()) => first_row_error(*version, rows@, segment).is_none(),
            Err(e) => first_row_error(*version, rows@, segment) == Some(e),
        },
{
    let n = rows.len();
    let mut i: usize = 0;
    while i < n
        invariant
            n == rows@.len(),
            segment matches Some(d) ==> d > 0,
            i <= n,
            first_row_error(*version, rows@.take(i as int), segment).is_none(),
        decreases n - i,
    {
        proof {
            assert(rows@.take(i + 1).drop_last() =~= rows@.take(i as int));
            assert(rows@.take(i + 1).last() == rows@[i as int]);
        }
        match version.check_write(rows[i].key.timestamp, segment) {
            Ok(()) => {},
            Err(source) => {
                proof {
                    lemma_first_error_stays(*version, rows@, segment, i + 1);
                }
                return Err(source);
            },
        }
        i += 1;
    }
    proof {
        assert(rows@.take(n as int) =~= rows@);
    }
    Ok(())
}

/// Rows that find a memtable in a version find one in every version grown
/// from it.
pub proof fn lemma_rows_still_fine(
    before: TableVersion,
    after: TableVersion,
    rows: Seq<KeyedRow>,
    segment: Option<i64>,
)
    requires
        grows(before, after, segment),
        before.wf(),
        after.wf(),
        segment matches Some(d) ==> d > 0,
        first_row_error(before, rows, segment).is_none(),
    ensures
        first_row_error(after, rows, segment).is_none(),
    decreases rows.len(),
{
    if rows.len() > 0 {
        lemma_rows_still_fine(before, after, rows.drop_last(), segment);
        lemma_grown_takes_writes(before, after, rows.last(), segment);
    }
}

impl Instance {
    /// Checks a write before it goes to the log: the rows must be of the
    /// table's version of the schema, and no more than a write may hold. The
    /// write is given the next sequence number of its table.
    pub fn prepare_write(&self, table: &TableData, row_group: &RowGroup) -> (r: Result<
        WritePlan,
        Error,
    >)
        ensures
            r == write_plan(self.max_bytes_per_write_batch, *table, *row_group),
    {
        if table.dropped {
            return Err(Error::TableDropped);
        }
        if row_group.schema_version != table.schema.version {
            return Err(
                Error::SchemaMismatch {
                    expect: table.schema.version,
                    given: row_group.schema_version,
                },
            );
        }
        match self.max_bytes_per_write_batch {
            Some(limit) => {
                let size = match row_group.rows.len().checked_mul(ROW_SIZE) {
                    Some(size) => size,
                    None => usize::MAX,
                };
                if size > limit {
                    return Err(Error::TooLarge { size, limit });
                }
            },
            None => {},
        }
        match table.last_sequence.checked_add(1) {
            Some(sequence) => Ok(WritePlan { sequence, num_rows: row_group.rows.len() }),
            None => Err(Error::SequenceExhausted),
        }
    }

    /// Whether a write to the table has to wait: a flush of the table is
    /// under way, and its memtables hold more than twice the rows that may
    /// wait to be written.
    pub fn should_wait_for_flush(&self, table: &TableData) -> (wait: bool)
        ensures
            wait == (table.flush_in_flight && crate::table::data::saturated(
                crate::table::data::spec_num_rows(table.version),
            ) > 2 * self.max_rows_in_write_queue),
    {
        if !table.flush_in_flight {
            return false;
        }
        match self.max_rows_in_write_queue.checked_mul(2) {
            Some(limit) => table.num_rows_in_memory() > limit,
            None => false,
        }
    }

    /// Puts the rows of a write into the memtables of the table, each into the
    /// memtable of its time bucket, as written at `sequence`. Either every row
    /// goes in or none does.
    pub fn write_to_memtable(table: &mut TableData, sequence: SequenceNumber, row_group: &RowGroup)
        -> (r: Result<(), Error>)
        requires
            old(table).wf(),
        ensures
            final(table).wf(),
            match r {
                Err(e) => rows_error(*old(table), row_group.rows@) matches Some(source) && e
                    == (Error::MemTable { source }) && *final(table) == *old(table),
                Ok(()) => {
                    &&& rows_error(*old(table), row_group.rows@).is_none()
                    &&& stored_rows(final(table).version) == stored_rows(old(table).version).add(
                        stamped(row_group.rows@, sequence).to_multiset(),
                    )
                    &&& forall|i: int|
                        0 <= i < row_group.rows@.len() ==> row_landed(
                            final(table).version,
                            #[trigger] stamped(row_group.rows@, sequence)[i],
                            old(table).opts.segment_duration,
                        )
                    &&& grows(
                        old(table).version,
                        final(table).version,
                        old(table).opts.segment_duration,
                    )
                    &&& final(table).last_sequence == if sequence > old(table).last_sequence
                        && row_group.rows@.len() > 0 {
                        sequence
                    } else {
                        old(table).last_sequence
                    }
                    &&& *final(table) == (TableData {
                        version: final(table).version,
                        last_sequence: final(table).last_sequence,
                        last_memtable_id: final(table).last_memtable_id,
                        ..*old(table)
                    })
                    &&& old(table).last_memtable_id <= final(table).last_memtable_id
                        <= old(table).last_memtable_id + row_group.rows@.len()
                },
            },
    {
        broadcast use vstd::multiset::group_multiset_axioms;

        let ghost start = *table;
        let ghost rows = row_group.rows@;
        let ghost segment = table.opts.segment_duration;
        let n = row_group.rows.len();
        if n as u64 > u64::MAX - table.last_memtable_id {
            return Err(
                Error::MemTable { source: crate::table::version::Error::MemTableIdsExhausted },
            );
        }
        match check_rows(&table.version, &row_group.rows, table.opts.segment_duration) {
            Ok(()) => {},
            Err(source) => {
                return Err(Error::MemTable { source });
            },
        }
        proof {
            assert(rows.take(n as int) =~= rows);
            lemma_no_row_error(table.version, rows, segment);
            assert(stamped(rows.take(0), sequence).to_multiset() =~= vstd::multiset::Multiset::<
                Entry,
            >::empty()) by {
                stamped(rows.take(0), sequence).to_multiset_ensures();
            }
        }
        let mut i: usize = 0;
        while i < n
            invariant
                n == rows.len(),
                rows == row_group.rows@,
                segment == start.opts.segment_duration,
                start.wf(),
                table.wf(),
                i <= n,
                start.last_memtable_id + n <= u64::MAX,
                start.last_memtable_id <= table.last_memtable_id <= start.last_memtable_id + i,
                forall|j: int|
                    0 <= j < rows.len() ==> table.version.write_error(
                        (#[trigger] rows[j]).key.timestamp,
                        segment,
                    ).is_none(),
                stored_rows(table.version) == stored_rows(start.version).add(
                    stamped(rows.take(i as int), sequence).to_multiset(),
                ),
                forall|j: int|
                    0 <= j < i ==> row_landed(
                        table.version,
                        #[trigger] stamped(rows, sequence)[j],
                        segment,
                    ),
                grows(start.version, table.version, segment),
                table.last_sequence == if sequence > start.last_sequence && i > 0 {
                    sequence
                } else {
                    start.last_sequence
                },
                *table == (TableData {
                    version: table.version,
                    last_sequence: table.last_sequence,
                    last_memtable_id: table.last_memtable_id,
                    ..start
                }),
            decreases n - i,
        {
            let ghost before = *table;
            let row = row_group.rows[i];
            let ghost entry = Entry { key: row.key, sequence, value: row.value };
            table.put_row(row, sequence);
            proof {
                assert(stamped(rows, sequence)[i as int] == entry);
                assert(stamped(rows.take(i + 1), sequence) =~= stamped(
                    rows.take(i as int),
                    sequence,
                ).push(entry));
                to_multiset_build(stamped(rows.take(i as int), sequence), entry);
                assert(stored_rows(table.version) =~= stored_rows(start.version).add(
                    stamped(rows.take(i + 1), sequence).to_multiset(),
                ));
                lemma_grows_transitive(start.version, before.version, table.version, segment);
                assert forall|j: int| 0 <= j < rows.len() implies table.version.write_error(
                    (#[trigger] rows[j]).key.timestamp,
                    segment,
                ).is_none() by {
                    lemma_grown_takes_writes(before.version, table.version, rows[j], segment);
                }
                assert forall|j: int| 0 <= j < i + 1 implies row_landed(
                    table.version,
                    #[trigger] stamped(rows, sequence)[j],
                    segment,
                ) by {
                    if j < i {
                        lemma_landed_stays(
                            before.version,
                            table.version,
                            stamped(rows, sequence)[j],
                            segment,
                        );
                    }
                }
            }
            i += 1;
        }
        proof {
            assert(rows.take(n as int) =~= rows);
        }
        Ok(())
    }

    /// Which write buffer a write has filled up, if any: that of its table
    /// first, then that of its space, then that of the engine.
    pub fn flush_trigger(&self, space_index: usize, table_index: usize) -> (trigger: FlushTrigger)
        requires
            space_index < self.space_store.spaces.spaces@.len(),
            table_index < self.space_store.spaces.spaces@[space_index as int].tables@.len(),
        ensures
            trigger == trigger_of(*self, space_index as int, table_index as int),
    {
        let space = &self.space_store.spaces.spaces[space_index];
        if space.tables[table_index].should_flush_table() {
            FlushTrigger::Table
        } else if space.should_flush_space() {
            FlushTrigger::Space
        } else if self.should_flush_instance() {
            FlushTrigger::Instance
        } else {
            FlushTrigger::NoFlush
        }
    }

    /// The table to flush after a write to the table at `table_index` of the
    /// space at `space_index`, as a space and a table in it: the table
    /// itself where its own write buffer has filled up; the table with the
    /// largest memtables of the space where that of the space has; where
    /// that of the engine has, the table with the largest memtables of the
    /// space that accounts for the most bytes.
    pub fn table_to_flush(&self, space_index: usize, table_index: usize) -> (flush: Option<
        (usize, usize),
    >)
        requires
            space_index < self.space_store.spaces.spaces@.len(),
            table_index < self.space_store.spaces.spaces@[space_index as int].tables@.len(),
        ensures
            is_table_to_flush(*self, space_index as int, table_index as int, flush),
    {
        match self.flush_trigger(space_index, table_index) {
            FlushTrigger::NoFlush => None,
            FlushTrigger::Table => Some((space_index, table_index)),
            FlushTrigger::Space => {
                match self.space_store.spaces.spaces[space_index].find_maximum_memory_usage_table() {
                    Some(at) => Some((space_index, at)),
                    None => None,
                }
            },
            FlushTrigger::Instance => {
                match self.space_store.maximum_memory_usage_space_index() {
                    Some(space) => {
                        match self.space_store.spaces.spaces[space].find_maximum_memory_usage_table() {
                            Some(at) => Some((space, at)),
                            None => None,
                        }
                    },
                    None => None,
                }
            },
        }
    }
}

/// Which write buffer has filled up after a write to the table at `table` of
/// the space at `space`: that of the table first, then that of the space,
/// then that of the engine.
pub open spec fn trigger_of(instance: Instance, space: int, table: int) -> FlushTrigger {
    let in_space = instance.space_store.spaces.spaces@[space];
    let written = in_space.tables@[table];
    if written.opts.write_buffer_size > 0 && crate::table::data::saturated(
        crate::table::data::spec_memory_usage(written.version),
    ) >= written.opts.write_buffer_size {
        FlushTrigger::Table
    } else if in_space.write_buffer_size > 0 && crate::instance::space_usage(in_space)
        >= in_space.write_buffer_size {
        FlushTrigger::Space
    } else if instance.db_write_buffer_size > 0 && crate::table::data::saturated(
        crate::instance::spaces_usage(instance.space_store.spaces.spaces@),
    ) >= instance.db_write_buffer_size {
        FlushTrigger::Instance
    } else {
        FlushTrigger::NoFlush
    }
}

/// `flush` is the table to flush after a write to the table at `table` of the
/// space at `space`.
pub open spec fn is_table_to_flush(
    instance: Instance,
    space: int,
    table: int,
    flush: Option<(usize, usize)>,
) -> bool {
    let spaces = instance.space_store.spaces.spaces@;
    match trigger_of(instance, space, table) {
        FlushTrigger::NoFlush => flush.is_none(),
        FlushTrigger::Table => flush == Some((space as usize, table as usize)),
        FlushTrigger::Space => match flush {
            Some(at) => at.0 == space && crate::space::is_largest_table(
                spaces[space].tables@,
                at.1 as int,
            ),
            None => false,
        },
        FlushTrigger::Instance => match flush {
            Some(at) => crate::instance::is_largest_space(spaces, at.0 as int)
                && crate::space::is_largest_table(spaces[at.0 as int].tables@, at.1 as int),
            None => exists|largest: int|
                crate::instance::is_largest_space(spaces, largest) && spaces[largest].tables@.len()
                    == 0,
        },
    }
}

/// The error of the first rows is the error of all rows.
pub proof fn lemma_first_error_stays(
    version: TableVersion,
    rows: Seq<KeyedRow>,
    segment: Option<i64>,
    n: int,
)
    requires
        0 <= n <= rows.len(),
        first_row_error(version, rows.take(n), segment).is_some(),
    ensures
        first_row_error(version, rows, segment) == first_row_error(version, rows.take(n), segment),
    decreases rows.len() - n,
{
    if n == rows.len() {
        assert(rows.take(n) =~= rows);
    } else {
        assert(rows.take(n + 1).drop_last() =~= rows.take(n));
        lemma_first_error_stays(version, rows, segment, n + 1);
    }
}

} // verus!
