//! Spaces: the namespaces of tables.

use crate::schema::str_equal;
use crate::table::data::{saturated, spec_memory_usage, TableData};
use crate::types::{SpaceId, TableId};
use vstd::prelude::*;
use vstd::string::*;

verus! {

/// The catalog and the schema that a space stands for.
#[derive(Debug, PartialEq, Eq)]
pub struct SpaceContext {
    pub catalog_name: String,
    pub schema_name: String,
}

/// Some table of `tables` has the name.
pub open spec fn has_table_named(tables: Seq<TableData>, name: Seq<char>) -> bool {
    exists|i: int| 0 <= i < tables.len() && (#[trigger] tables[i]).name@ == name
}

/// Some table of `tables` has the id.
pub open spec fn has_table_id(tables: Seq<TableData>, id: TableId) -> bool {
    exists|i: int| 0 <= i < tables.len() && (#[trigger] tables[i]).id == id
}

/// The table at `at` has the largest memtables of the tables; among several
/// such tables it is the last.
pub open spec fn is_largest_table(tables: Seq<TableData>, at: int) -> bool {
    &&& 0 <= at < tables.len()
    &&& forall|i: int|
        0 <= i <= at ==> saturated(spec_memory_usage((#[trigger] tables[i]).version)) <= saturated(
            spec_memory_usage(tables[at].version),
        )
    &&& forall|i: int|
        at < i < tables.len() ==> saturated(spec_memory_usage((#[trigger] tables[i]).version))
            < saturated(spec_memory_usage(tables[at].version))
}

/// Bytes that the memtables of the tables account for.
pub open spec fn tables_usage(tables: Seq<TableData>) -> int
    decreases tables.len(),
{
    if tables.len() == 0 {
        0
    } else {
        tables_usage(tables.drop_last()) + saturated(spec_memory_usage(tables.last().version))
    }
}

/// The memtables of the tables account for no less than nothing.
pub proof fn lemma_usage_nonnegative(tables: Seq<TableData>)
    ensures
        tables_usage(tables) >= 0,
    decreases tables.len(),
{
    if tables.len() > 0 {
        lemma_usage_nonnegative(tables.drop_last());
        crate::table::data::lemma_memory_usage_nonnegative(tables.last().version);
    }
}

/// A namespace of tables.
#[derive(Debug)]
pub struct Space {
    pub id: SpaceId,
    pub context: SpaceContext,
    pub tables: Vec<TableData>,
    /// Size of the memtables of the space, in bytes, from which one of its
    /// tables is flushed.
    pub write_buffer_size: usize,
    /// Names of the tables that could not be opened.
    pub open_failed_tables: Vec<String>,
}

impl Space {
    /// Every table is in order and belongs to the space; no two tables share
    /// a name or an id.
    pub open spec fn wf(self) -> bool {
        &&& forall|i: int|
            0 <= i < self.tables@.len() ==> (#[trigger] self.tables@[i]).wf()
                && self.tables@[i].space_id
                == self.id
        &&& forall|i: int, j: int|
            0 <= i < j < self.tables@.len() ==> (#[trigger] self.tables@[i]).name@ != (
            #[trigger] self.tables@[j]).name@ && self.tables@[i].id != self.tables@[j].id
    }

    pub fn new(id: SpaceId, context: SpaceContext, write_buffer_size: usize) -> (space: Space)
        ensures
            space.id == id,
            space.context == context,
            space.tables@.len() == 0,
            space.write_buffer_size == write_buffer_size,
            space.open_failed_tables@.len() == 0,
            space.wf(),
    {
        Space {
            id,
            context,
            tables: Vec::new(),
            write_buffer_size,
            open_failed_tables: Vec::new(),
        }
    }

    /// Index of the table of that name.
    pub fn table_index(&self, name: &str) -> (found: Option<usize>)
        ensures
            match found {
                Some(i) => i < self.tables@.len() && self.tables@[i as int].name@ == name@,
                None => !has_table_named(self.tables@, name@),
            },
    {
        let mut i: usize = 0;
        while i < self.tables.len()
            invariant
                i <= self.tables@.len(),
                forall|j: int| 0 <= j < i ==> (#[trigger] self.tables@[j]).name@ != name@,
            decreases self.tables@.len() - i,
        {
            if str_equal(self.tables[i].name.as_str(), name) {
                return Some(i);
            }
            i += 1;
        }
        None
    }

    /// The table of that name.
    pub fn find_table(&self, name: &str) -> (found: Option<&TableData>)
        ensures
            match found {
                Some(table) => exists|i: int|
                    0 <= i < self.tables@.len() && #[trigger] self.tables@[i] == *table
                        && table.name@
                        == name@,
                None => !has_table_named(self.tables@, name@),
            },
    {
        match self.table_index(name) {
            Some(i) => Some(&self.tables[i]),
            None => None,
        }
    }

    /// Index of the table of that id.
    pub fn table_index_by_id(&self, id: TableId) -> (found: Option<usize>)
        ensures
            match found {
                Some(i) => i < self.tables@.len() && self.tables@[i as int].id == id,
                None => !has_table_id(self.tables@, id),
            },
    {
        let mut i: usize = 0;
        while i < self.tables.len()
            invariant
                i <= self.tables@.len(),
                forall|j: int| 0 <= j < i ==> (#[trigger] self.tables@[j]).id != id,
            decreases self.tables@.len() - i,
        {
            if self.tables[i].id == id {
                return Some(i);
            }
            i += 1;
        }
        None
    }

    /// The table of that id.
    pub fn find_table_by_id(&self, id: TableId) -> (found: Option<&TableData>)
        ensures
            match found {
                Some(table) => exists|i: int|
                    0 <= i < self.tables@.len() && #[trigger] self.tables@[i] == *table && table.id
                        == id,
                None => !has_table_id(self.tables@, id),
            },
    {
        match self.table_index_by_id(id) {
            Some(i) => Some(&self.tables[i]),
            None => None,
        }
    }

    /// Takes the table into the space.
    pub fn insert_table(&mut self, table: TableData)
        requires
            old(self).wf(),
            table.wf(),
            table.space_id == old(self).id,
            !has_table_named(old(self).tables@, table.name@),
            !has_table_id(old(self).tables@, table.id),
        ensures
            final(self).wf(),
            final(self).tables@ == old(self).tables@.push(table),
            *final(self) == (Space { tables: final(self).tables, ..*old(self) }),
    {
        let ghost before = self.tables@;
        self.tables.push(table);
        proof {
            let after = self.tables@;
            assert forall|i: int, j: int| 0 <= i < j < after.len()
                implies (#[trigger] after[i]).name@
                != (#[trigger] after[j]).name@ && after[i].id != after[j].id by {
                if j < before.len() {
                    assert(before[i].name@ != before[j].name@);
                } else {
                    assert(before[i].name@ != table.name@);
                    assert(before[i].id != table.id);
                }
            }
        }
    }

    /// Notes that the table of that name could not be opened.
    pub fn insert_open_failed_table(&mut self, name: String)
        ensures
            final(self).open_failed_tables@ == old(self).open_failed_tables@.push(name),
            *final(self) == (Space {
                open_failed_tables: final(self).open_failed_tables,
                ..*old(self)
            }),
    {
        self.open_failed_tables.push(name);
    }

    /// Bytes that the memtables of the tables of the space account for, up to
    /// the greatest number of bytes there is.
    pub fn memtable_memory_usage(&self) -> (bytes: usize)
        ensures
            bytes == saturated(tables_usage(self.tables@)),
    {
        let mut bytes: usize = 0;
        let mut i: usize = 0;
        while i < self.tables.len()
            invariant
                i <= self.tables@.len(),
                bytes == saturated(tables_usage(self.tables@.take(i as int))),
            decreases self.tables@.len() - i,
        {
            proof {
                assert(self.tables@.take(i + 1).drop_last() =~= self.tables@.take(i as int));
                lemma_usage_nonnegative(self.tables@.take(i as int));
                crate::table::data::lemma_memory_usage_nonnegative(self.tables@[i as int].version);
            }
            let more = self.tables[i].memtable_memory_usage();
            bytes = match bytes.checked_add(more) {
                Some(sum) => sum,
                None => usize::MAX,
            };
            i += 1;
        }
        proof {
            assert(self.tables@.take(self.tables@.len() as int) =~= self.tables@);
        }
        bytes
    }

    /// Where the table with the largest memtables stands; among several such
    /// tables the last.
    pub fn find_maximum_memory_usage_table(&self) -> (found: Option<usize>)
        ensures
            match found {
                None => self.tables@.len() == 0,
                Some(at) => is_largest_table(self.tables@, at as int),
            },
    {
        let n = self.tables.len();
        if n == 0 {
            return None;
        }
        let mut best: usize = 0;
        let mut best_usage = self.tables[0].memtable_memory_usage();
        let mut i: usize = 1;
        while i < n
            invariant
                n == self.tables@.len(),
                1 <= i <= n,
                best < i,
                best_usage == saturated(spec_memory_usage(self.tables@[best as int].version)),
                forall|k: int|
                    0 <= k <= best ==> saturated(
                        spec_memory_usage((#[trigger] self.tables@[k]).version),
                    ) <= best_usage,
                forall|k: int|
                    best < k < i ==> saturated(
                        spec_memory_usage((#[trigger] self.tables@[k]).version),
                    ) < best_usage,
            decreases n - i,
        {
            let usage = self.tables[i].memtable_memory_usage();
            if usage >= best_usage {
                best = i;
                best_usage = usage;
            }
            i += 1;
        }
        Some(best)
    }

    /// Whether the memtables of the space have grown to its write buffer size.
    pub fn should_flush_space(&self) -> (b: bool)
        ensures
            b == (self.write_buffer_size > 0 && saturated(tables_usage(self.tables@))
                >= self.write_buffer_size),
    {
        self.write_buffer_size > 0 && self.memtable_memory_usage() >= self.write_buffer_size
    }
}

/// Some space of `spaces` has the id.
pub open spec fn has_space(spaces: Seq<Space>, id: SpaceId) -> bool {
    exists|i: int| 0 <= i < spaces.len() && (#[trigger] spaces[i]).id == id
}

/// All spaces of the engine.
#[derive(Debug)]
pub struct Spaces {
    pub spaces: Vec<Space>,
}

impl Spaces {
    /// Every space is in order, and no two share an id.
    pub open spec fn wf(self) -> bool {
        &&& forall|i: int| 0 <= i < self.spaces@.len() ==> (#[trigger] self.spaces@[i]).wf()
        &&& forall|i: int, j: int|
            0 <= i < j < self.spaces@.len() ==> (#[trigger] self.spaces@[i]).id != (
            #[trigger] self.spaces@[j]).id
    }

    pub fn new() -> (spaces: Spaces)
        ensures
            spaces.spaces@.len() == 0,
            spaces.wf(),
    {
        Spaces { spaces: Vec::new() }
    }

    /// Index of the space of that id.
    pub fn index_of(&self, id: SpaceId) -> (found: Option<usize>)
        ensures
            match found {
                Some(i) => i < self.spaces@.len() && self.spaces@[i as int].id == id,
                None => !has_space(self.spaces@, id),
            },
    {
        let mut i: usize = 0;
        while i < self.spaces.len()
            invariant
                i <= self.spaces@.len(),
                forall|j: int| 0 <= j < i ==> (#[trigger] self.spaces@[j]).id != id,
            decreases self.spaces@.len() - i,
        {
            if self.spaces[i].id == id {
                return Some(i);
            }
            i += 1;
        }
        None
    }

    /// The space of that id.
    pub fn get_by_id(&self, id: SpaceId) -> (found: Option<&Space>)
        ensures
            match found {
                Some(space) => exists|i: int|
                    0 <= i < self.spaces@.len() && #[trigger] self.spaces@[i] == *space && space.id
                        == id,
                None => !has_space(self.spaces@, id),
            },
    {
        match self.index_of(id) {
            Some(i) => Some(&self.spaces[i]),
            None => None,
        }
    }

    /// Takes the space in.
    pub fn insert(&mut self, space: Space)
        requires
            old(self).wf(),
            space.wf(),
            !has_space(old(self).spaces@, space.id),
        ensures
            final(self).wf(),
            final(self).spaces@ == old(self).spaces@.push(space),
    {
        let ghost before = self.spaces@;
        self.spaces.push(space);
        proof {
            let after = self.spaces@;
            assert forall|i: int, j: int| 0 <= i < j < after.len() implies (#[trigger] after[i]).id
                != (#[trigger] after[j]).id by {
                if j < before.len() {
                    assert(before[i].id != before[j].id);
                } else {
                    assert(before[i].id != space.id);
                }
            }
        }
    }
}

} // verus!
