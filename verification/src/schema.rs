//! Schema of a table: its columns, of which the first are the primary key.

use crate::column_schema::{ColumnId, ColumnSchema, COLUMN_ID_UNINIT};
use crate::datum::DatumKind;
use crate::proto::TableSchemaPb;
use vstd::prelude::*;
use vstd::string::*;

verus! {

/// Version of a table's schema; it grows with every change of the schema.
pub type Version = u32;

/// Name of the column that holds the id of a time series.
pub const TSID_COLUMN: &'static str = "tsid";

/// Why a schema cannot be built.
#[derive(Clone, Copy, Debug, PartialEq, Eq, Structural)]
pub enum Error {
    /// The schema already has a column of that name.
    ColumnNameExists,
    /// The schema already has a column of that id.
    ColumnIdExists { id: ColumnId },
    /// The column's kind cannot be part of a key.
    KeyColumnType { kind: DatumKind },
    /// A key column cannot be nullable.
    NullKeyColumn,
    /// The key already has a timestamp column.
    TimestampKeyExists,
    /// The key has no timestamp column.
    MissingTimestampKey,
    /// No more column ids are left to give out.
    ColumnIdExhausted,
}

/// Some column of `columns` has the name.
pub open spec fn has_name(columns: Seq<ColumnSchema>, name: Seq<char>) -> bool {
    exists|i: int| 0 <= i < columns.len() && (#[trigger] columns[i]).name@ == name
}

/// Some column of `columns` has the id.
pub open spec fn has_id(columns: Seq<ColumnSchema>, id: ColumnId) -> bool {
    exists|i: int| 0 <= i < columns.len() && (#[trigger] columns[i]).id == id
}

/// No two columns share a name or an id.
pub open spec fn distinct_columns(columns: Seq<ColumnSchema>) -> bool {
    forall|i: int, j: int|
        0 <= i < j < columns.len()
            ==> (#[trigger] columns[i]).name@ != (#[trigger] columns[j]).name@
            && columns[i].id != columns[j].id
}

/// Index of the first column of that name, if there is one.
pub open spec fn index_of_name(columns: Seq<ColumnSchema>, name: Seq<char>) -> Option<int> {
    if has_name(columns, name) {
        Some(
            choose|i: int|
                0 <= i < columns.len() && (#[trigger] columns[i]).name@ == name && forall|j: int|
                    0 <= j < i ==> (#[trigger] columns[j]).name@ != name,
        )
    } else {
        None
    }
}

/// Schema of a table.
#[derive(Debug, PartialEq, Eq)]
pub struct Schema {
    pub columns: Vec<ColumnSchema>,
    pub num_key_columns: usize,
    pub timestamp_index: usize,
    pub tsid_index: Option<usize>,
    pub version: Version,
}

/// What a schema holds, with its columns as a sequence.
pub struct SchemaView {
    pub columns: Seq<ColumnSchema>,
    pub num_key_columns: nat,
    pub timestamp_index: nat,
    pub tsid_index: Option<nat>,
    pub version: Version,
}

impl View for Schema {
    type V = SchemaView;

    open spec fn view(&self) -> SchemaView {
        SchemaView {
            columns: self.columns@,
            num_key_columns: self.num_key_columns as nat,
            timestamp_index: self.timestamp_index as nat,
            tsid_index: match self.tsid_index {
                Some(i) => Some(i as nat),
                None => None,
            },
            version: self.version,
        }
    }
}

impl SchemaView {
    /// The key columns come first, hold no nullable column and exactly the
    /// timestamp column at `timestamp_index` among their timestamp columns; no
    /// two columns share a name or an id; `tsid_index` is where the first
    /// column named `tsid` stands.
    pub open spec fn wf(self) -> bool {
        &&& self.num_key_columns <= self.columns.len()
        &&& self.timestamp_index < self.num_key_columns
        &&& self.columns[self.timestamp_index as int].data_type is Timestamp
        &&& forall|i: int|
            0 <= i < self.num_key_columns ==> {
                &&& !(#[trigger] self.columns[i]).is_nullable
                &&& self.columns[i].data_type.spec_is_key_kind()
                &&& (self.columns[i].data_type is Timestamp ==> i == self.timestamp_index)
            }
        &&& distinct_columns(self.columns)
        &&& match self.tsid_index {
            Some(i) => index_of_name(self.columns, TSID_COLUMN@) == Some(i as int),
            None => !has_name(self.columns, TSID_COLUMN@),
        }
    }
}

impl Clone for Schema {
    fn clone(&self) -> (copy: Schema)
        ensures
            copy@ == self@,
    {
        Schema {
            columns: clone_columns(&self.columns),
            num_key_columns: self.num_key_columns,
            timestamp_index: self.timestamp_index,
            tsid_index: self.tsid_index,
            version: self.version,
        }
    }
}

/// A copy of the columns.
pub fn clone_columns(columns: &Vec<ColumnSchema>) -> (copy: Vec<ColumnSchema>)
    ensures
        copy@ == columns@,
{
    let mut copy: Vec<ColumnSchema> = Vec::new();
    let mut i: usize = 0;
    while i < columns.len()
        invariant
            i <= columns.len(),
            copy@ == columns@.take(i as int),
        decreases columns.len() - i,
    {
        copy.push(columns[i].clone());
        proof {
            assert(columns@.take(i as int).push(columns@[i as int]) =~= columns@.take(i + 1));
        }
        i += 1;
    }
    proof {
        assert(columns@.take(columns.len() as int) =~= columns@);
    }
    copy
}

/// Index of the first column of that name.
fn find_name(columns: &Vec<ColumnSchema>, name: &str) -> (found: Option<usize>)
    ensures
        match found {
            Some(i) => index_of_name(columns@, name@) == Some(i as int),
            None => !has_name(columns@, name@),
        },
{
    let mut i: usize = 0;
    while i < columns.len()
        invariant
            i <= columns.len(),
            forall|j: int| 0 <= j < i ==> (#[trigger] columns@[j]).name@ != name@,
        decreases columns.len() - i,
    {
        if str_equal(columns[i].name.as_str(), name) {
            proof {
                assert(has_name(columns@, name@));
                let k = index_of_name(columns@, name@).unwrap();
                assert(k == i) by {
                    if k < i {
                        assert(columns@[k].name@ != name@);
                    } else if k > i {
                        assert(columns@[i as int].name@ == name@);
                    }
                }
            }
            return Some(i);
        }
        i += 1;
    }
    None
}

/// Whether the two hold the same text.
pub fn str_equal(a: &str, b: &str) -> (eq: bool)
    ensures
        eq == (a@ == b@),
{
    let n = a.unicode_len();
    if n != b.unicode_len() {
        return false;
    }
    let mut i: usize = 0;
    while i < n
        invariant
            n == a@.len(),
            n == b@.len(),
            i <= n,
            forall|j: int| 0 <= j < i ==> a@[j] == b@[j],
        decreases n - i,
    {
        if a.get_char(i) != b.get_char(i) {
            return false;
        }
        i += 1;
    }
    proof {
        assert(a@ =~= b@);
    }
    true
}

fn find_id(columns: &Vec<ColumnSchema>, id: ColumnId) -> (found: bool)
    ensures
        found == has_id(columns@, id),
{
    let mut i: usize = 0;
    while i < columns.len()
        invariant
            i <= columns.len(),
            forall|j: int| 0 <= j < i ==> (#[trigger] columns@[j]).id != id,
        decreases columns.len() - i,
    {
        if columns[i].id == id {
            return true;
        }
        i += 1;
    }
    false
}

impl Schema {
    pub fn num_columns(&self) -> (n: usize)
        ensures
            n == self@.columns.len(),
    {
        self.columns.len()
    }

    pub fn num_key_columns(&self) -> (n: usize)
        ensures
            n == self@.num_key_columns,
    {
        self.num_key_columns
    }

    pub fn timestamp_index(&self) -> (i: usize)
        ensures
            i == self@.timestamp_index,
    {
        self.timestamp_index
    }

    pub fn index_of_tsid(&self) -> (i: Option<usize>)
        ensures
            i == self.tsid_index,
    {
        self.tsid_index
    }

    pub fn version(&self) -> (v: Version)
        ensures
            v == self@.version,
    {
        self.version
    }

    pub fn column(&self, i: usize) -> (c: &ColumnSchema)
        requires
            i < self@.columns.len(),
        ensures
            *c == self@.columns[i as int],
    {
        &self.columns[i]
    }

    /// Index of the column of that name.
    pub fn index_of(&self, name: &str) -> (found: Option<usize>)
        ensures
            match found {
                Some(i) => index_of_name(self@.columns, name@) == Some(i as int),
                None => !has_name(self@.columns, name@),
            },
    {
        find_name(&self.columns, name)
    }
}

/// `after` is `before` with `placed` put in at index `at`.
pub open spec fn placed_at(
    before: Seq<ColumnSchema>,
    after: Seq<ColumnSchema>,
    at: int,
    placed: ColumnSchema,
) -> bool {
    &&& 0 <= at <= before.len()
    &&& after.len() == before.len() + 1
    &&& after[at] == placed
    &&& forall|i: int| 0 <= i < at ==> #[trigger] after[i] == before[i]
    &&& forall|i: int| at < i < after.len() ==> #[trigger] after[i] == before[i - 1]
}

proof fn lemma_placed_keeps_distinct(
    before: Seq<ColumnSchema>,
    after: Seq<ColumnSchema>,
    at: int,
    placed: ColumnSchema,
)
    requires
        placed_at(before, after, at, placed),
        distinct_columns(before),
        !has_name(before, placed.name@),
        !has_id(before, placed.id),
    ensures
        distinct_columns(after),
{
    assert forall|i: int, j: int| 0 <= i < j < after.len() implies (#[trigger] after[i]).name@
        != (#[trigger] after[j]).name@ && after[i].id != after[j].id by {
        let oi = if i < at { i } else { i - 1 };
        let oj = if j < at { j } else { j - 1 };
        if i != at && j != at {
            assert(after[i] == before[oi]);
            assert(after[j] == before[oj]);
            assert(before[oi].name@ != before[oj].name@ && before[oi].id != before[oj].id);
        } else if i == at {
            assert(after[j] == before[oj]);
            assert(before[oj].name@ != placed.name@);
            assert(before[oj].id != placed.id);
        } else {
            assert(after[i] == before[oi]);
            assert(before[oi].name@ != placed.name@);
            assert(before[oi].id != placed.id);
        }
    }
}

proof fn lemma_placed_keeps_key_rules(
    before: Builder,
    after: Builder,
    at: int,
    placed: ColumnSchema,
)
    requires
        before.wf(),
        placed_at(before.columns@, after.columns@, at, placed),
        distinct_columns(after.columns@),
        placed.id <= after.max_column_id,
        before.max_column_id <= after.max_column_id,
        at >= before.num_key_columns,
        after.num_key_columns == before.num_key_columns || (at == before.num_key_columns
            && after.num_key_columns == at + 1 && !placed.is_nullable
            && placed.data_type.spec_is_key_kind() && (placed.data_type is Timestamp
            ==> before.timestamp_index.is_none())),
        after.timestamp_index == if after.num_key_columns != before.num_key_columns
            && placed.data_type is Timestamp {
            Some(at as usize)
        } else {
            before.timestamp_index
        },
    ensures
        after.wf(),
{
    let b = before.columns@;
    let a = after.columns@;
    assert forall|i: int| 0 <= i < after.num_key_columns implies {
        &&& !(#[trigger] a[i]).is_nullable
        &&& a[i].data_type.spec_is_key_kind()
        &&& (a[i].data_type is Timestamp ==> after.timestamp_index == Some(i as usize))
    } by {
        if i < at {
            assert(a[i] == b[i]);
            assert(!b[i].is_nullable);
        }
    }
    assert forall|i: int| 0 <= i < a.len() implies (#[trigger] a[i]).id
        <= after.max_column_id by {
        if i < at {
            assert(a[i] == b[i]);
            assert(b[i].id <= before.max_column_id);
        } else if i > at {
            assert(a[i] == b[i - 1]);
            assert(b[i - 1].id <= before.max_column_id);
        }
    }
    match after.timestamp_index {
        Some(t) => {
            if t < at {
                assert(a[t as int] == b[t as int]);
            }
        },
        None => {},
    }
}

/// Collects the columns of a schema, key columns first.
#[derive(Debug)]
pub struct Builder {
    pub columns: Vec<ColumnSchema>,
    pub num_key_columns: usize,
    pub timestamp_index: Option<usize>,
    pub version: Version,
    pub auto_increment_column_id: bool,
    pub max_column_id: ColumnId,
}

impl Builder {
    /// The key columns stand first and obey the rules of a key; no two columns
    /// share a name or an id, and no id is above `max_column_id`.
    pub open spec fn wf(self) -> bool {
        &&& self.num_key_columns <= self.columns@.len()
        &&& match self.timestamp_index {
            Some(t) => t < self.num_key_columns && self.columns@[t as int].data_type is Timestamp,
            None => true,
        }
        &&& forall|i: int|
            0 <= i < self.num_key_columns ==> {
                &&& !(#[trigger] self.columns@[i]).is_nullable
                &&& self.columns@[i].data_type.spec_is_key_kind()
                &&& (self.columns@[i].data_type is Timestamp ==> self.timestamp_index == Some(
                    i as usize,
                ))
            }
        &&& distinct_columns(self.columns@)
        &&& forall|i: int|
            0 <= i < self.columns@.len() ==> (#[trigger] self.columns@[i]).id <= self.max_column_id
    }

    /// The id that the builder gives the column: the next free one where ids
    /// are given out and the column has none, else the column's own.
    pub open spec fn assigned_id(self, column: ColumnSchema) -> int {
        if self.auto_increment_column_id && column.id == COLUMN_ID_UNINIT {
            self.max_column_id + 1
        } else {
            column.id as int
        }
    }

    /// The first rule that the column breaks, for a key column or a normal one.
    pub open spec fn column_error(self, column: ColumnSchema, is_key: bool) -> Option<Error> {
        if self.assigned_id(column) > u32::MAX {
            Some(Error::ColumnIdExhausted)
        } else if has_name(self.columns@, column.name@) {
            Some(Error::ColumnNameExists)
        } else if is_key && !column.data_type.spec_is_key_kind() {
            Some(Error::KeyColumnType { kind: column.data_type })
        } else if has_id(self.columns@, self.assigned_id(column) as u32) {
            Some(Error::ColumnIdExists { id: self.assigned_id(column) as u32 })
        } else if is_key && column.is_nullable {
            Some(Error::NullKeyColumn)
        } else if is_key && column.data_type is Timestamp && self.timestamp_index.is_some() {
            Some(Error::TimestampKeyExists)
        } else {
            None
        }
    }

    /// The builder after the column has joined its key or its normal columns
    /// under the given id.
    pub open spec fn with_column(
        self,
        after: Builder,
        column: ColumnSchema,
        is_key: bool,
    ) -> bool {
        let id = self.assigned_id(column) as u32;
        let placed = ColumnSchema { id, ..column };
        &&& after.version == self.version
        &&& after.auto_increment_column_id == self.auto_increment_column_id
        &&& after.max_column_id == if id > self.max_column_id {
            id
        } else {
            self.max_column_id
        }
        &&& if is_key {
            &&& after.columns@ == self.columns@.insert(self.num_key_columns as int, placed)
            &&& after.num_key_columns == self.num_key_columns + 1
            &&& after.timestamp_index == if column.data_type is Timestamp {
                Some(self.num_key_columns)
            } else {
                self.timestamp_index
            }
        } else {
            &&& after.columns@ == self.columns@.push(placed)
            &&& after.num_key_columns == self.num_key_columns
            &&& after.timestamp_index == self.timestamp_index
        }
    }

    /// A builder without columns, at version 1, that gives out no ids.
    pub fn new() -> (b: Builder)
        ensures
            b.columns@.len() == 0,
            b.num_key_columns == 0,
            b.timestamp_index.is_none(),
            b.version == 1,
            !b.auto_increment_column_id,
            b.max_column_id == COLUMN_ID_UNINIT,
            b.wf(),
    {
        Builder {
            columns: Vec::new(),
            num_key_columns: 0,
            timestamp_index: None,
            version: 1,
            auto_increment_column_id: false,
            max_column_id: COLUMN_ID_UNINIT,
        }
    }

    /// Whether columns without an id are given the next free one.
    pub fn auto_increment_column_id(self, enable: bool) -> (b: Builder)
        ensures
            b == (Builder { auto_increment_column_id: enable, ..self }),
    {
        let mut b = self;
        b.auto_increment_column_id = enable;
        b
    }

    pub fn version(self, version: Version) -> (b: Builder)
        ensures
            b == (Builder { version, ..self }),
    {
        let mut b = self;
        b.version = version;
        b
    }

    fn check_column(&self, column: &ColumnSchema, is_key: bool) -> (r: Result<ColumnId, Error>)
        requires
            self.wf(),
        ensures
            match r {
                Ok(id) => self.column_error(*column, is_key).is_none() && id == self.assigned_id(
                    *column,
                ),
                Err(e) => self.column_error(*column, is_key) == Some(e),
            },
    {
        let id = if self.auto_increment_column_id && column.id == COLUMN_ID_UNINIT {
            match self.max_column_id.checked_add(1) {
                Some(id) => id,
                None => {
                    return Err(Error::ColumnIdExhausted);
                },
            }
        } else {
            column.id
        };
        if find_name(&self.columns, column.name.as_str()).is_some() {
            return Err(Error::ColumnNameExists);
        }
        if is_key && !column.data_type.is_key_kind() {
            return Err(Error::KeyColumnType { kind: column.data_type });
        }
        if find_id(&self.columns, id) {
            return Err(Error::ColumnIdExists { id });
        }
        if is_key && column.is_nullable {
            return Err(Error::NullKeyColumn);
        }
        if is_key && column.data_type.is_timestamp() && self.timestamp_index.is_some() {
            return Err(Error::TimestampKeyExists);
        }
        Ok(id)
    }

    /// Adds a column to the end of the primary key. The first timestamp column
    /// of the key is the table's timestamp column.
    pub fn add_key_column(self, column: ColumnSchema) -> (r: Result<Builder, Error>)
        requires
            self.wf(),
        ensures
            match r {
                Ok(b) => self.column_error(column, true).is_none() && self.with_column(
                    b,
                    column,
                    true,
                ) && b.wf(),
                Err(e) => self.column_error(column, true) == Some(e),
            },
    {
        let id = match self.check_column(&column, true) {
            Ok(id) => id,
            Err(e) => {
                return Err(e);
            },
        };
        let mut b = self;
        let mut placed = column;
        placed.id = id;
        if placed.data_type.is_timestamp() {
            b.timestamp_index = Some(b.num_key_columns);
        }
        if id > b.max_column_id {
            b.max_column_id = id;
        }
        let at = b.num_key_columns;
        b.columns.insert(at, placed);
        let n = b.columns.len();
        assert(at < n);
        b.num_key_columns = at + 1;
        proof {
            lemma_placed_keeps_distinct(self.columns@, b.columns@, at as int, placed);
            lemma_placed_keeps_key_rules(self, b, at as int, placed);
        }
        Ok(b)
    }

    /// Adds a column behind all others.
    pub fn add_normal_column(self, column: ColumnSchema) -> (r: Result<Builder, Error>)
        requires
            self.wf(),
        ensures
            match r {
                Ok(b) => self.column_error(column, false).is_none() && self.with_column(
                    b,
                    column,
                    false,
                ) && b.wf(),
                Err(e) => self.column_error(column, false) == Some(e),
            },
    {
        let id = match self.check_column(&column, false) {
            Ok(id) => id,
            Err(e) => {
                return Err(e);
            },
        };
        let mut b = self;
        let mut placed = column;
        placed.id = id;
        if id > b.max_column_id {
            b.max_column_id = id;
        }
        b.columns.push(placed);
        proof {
            lemma_placed_keeps_distinct(
                self.columns@,
                b.columns@,
                self.columns@.len() as int,
                placed,
            );
            lemma_placed_keeps_key_rules(self, b, self.columns@.len() as int, placed);
        }
        Ok(b)
    }

    /// The schema of the columns collected so far. Its key must hold a
    /// timestamp column.
    pub fn build(self) -> (r: Result<Schema, Error>)
        requires
            self.wf(),
        ensures
            match r {
                Ok(schema) => {
                    &&& self.timestamp_index == Some(schema.timestamp_index)
                    &&& schema@.columns == self.columns@
                    &&& schema@.num_key_columns == self.num_key_columns
                    &&& schema@.version == self.version
                    &&& schema@.wf()
                },
                Err(e) => e == Error::MissingTimestampKey && self.timestamp_index.is_none(),
            },
    {
        let timestamp_index = match self.timestamp_index {
            Some(t) => t,
            None => {
                return Err(Error::MissingTimestampKey);
            },
        };
        let tsid_index = find_name(&self.columns, TSID_COLUMN);
        Ok(
            Schema {
                columns: self.columns,
                num_key_columns: self.num_key_columns,
                timestamp_index,
                tsid_index,
                version: self.version,
            },
        )
    }
}

/// One of the first `num_key_columns` columns is a timestamp column.
pub open spec fn has_timestamp_key(columns: Seq<ColumnSchema>, num_key_columns: int) -> bool {
    exists|j: int|
        0 <= j < columns.len() && j < num_key_columns
            && (#[trigger] columns[j]).data_type is Timestamp
}

/// The first rule that the column breaks as the next column behind `before`.
pub open spec fn next_column_error(
    before: Seq<ColumnSchema>,
    num_key_columns: int,
    column: ColumnSchema,
) -> Option<Error> {
    let is_key = before.len() < num_key_columns;
    if has_name(before, column.name@) {
        Some(Error::ColumnNameExists)
    } else if is_key && !column.data_type.spec_is_key_kind() {
        Some(Error::KeyColumnType { kind: column.data_type })
    } else if has_id(before, column.id) {
        Some(Error::ColumnIdExists { id: column.id })
    } else if is_key && column.is_nullable {
        Some(Error::NullKeyColumn)
    } else if is_key && column.data_type is Timestamp
        && has_timestamp_key(before, num_key_columns) {
        Some(Error::TimestampKeyExists)
    } else {
        None
    }
}

/// The first rule that the first `n` columns break, taken one after the
/// other.
pub open spec fn first_column_error(columns: Seq<ColumnSchema>, num_key_columns: int, n: int)
    -> Option<Error>
    decreases n,
{
    if n <= 0 {
        None
    } else {
        match first_column_error(columns, num_key_columns, n - 1) {
            Some(e) => Some(e),
            None => next_column_error(columns.take(n - 1), num_key_columns, columns[n - 1]),
        }
    }
}

/// Why the stored schema is not the schema of a table, if it is not: the
/// first rule that a column breaks, or that the key has no timestamp column.
pub open spec fn stored_schema_error(pb: TableSchemaPb) -> Option<Error> {
    match first_column_error(pb.columns@, pb.num_key_columns as int, pb.columns@.len() as int) {
        Some(e) => Some(e),
        None => if has_timestamp_key(pb.columns@, pb.num_key_columns as int) {
            None
        } else {
            Some(Error::MissingTimestampKey)
        },
    }
}

proof fn lemma_column_error_stays(columns: Seq<ColumnSchema>, num_key_columns: int, n: int)
    requires
        0 <= n <= columns.len(),
        first_column_error(columns, num_key_columns, n).is_some(),
    ensures
        first_column_error(columns, num_key_columns, columns.len() as int) == first_column_error(
            columns,
            num_key_columns,
            n,
        ),
    decreases columns.len() - n,
{
    if n < columns.len() {
        lemma_column_error_stays(columns, num_key_columns, n + 1);
    }
}

impl Schema {
    /// The schema that was stored, with its rules checked anew.
    pub fn try_from_pb(pb: TableSchemaPb) -> (r: Result<Schema, Error>)
        ensures
            match r {
                Ok(schema) => {
                    &&& stored_schema_error(pb).is_none()
                    &&& schema@.columns == pb.columns@
                    &&& schema@.num_key_columns == if pb.num_key_columns <= pb.columns@.len() {
                        pb.num_key_columns as nat
                    } else {
                        pb.columns@.len()
                    }
                    &&& schema@.version == pb.version
                    &&& schema@.wf()
                },
                Err(e) => stored_schema_error(pb) == Some(e),
            },
    {
        let ghost columns = pb.columns@;
        let ghost num_key = pb.num_key_columns as int;
        let mut builder = Builder::new().version(pb.version);
        let n = pb.columns.len();
        let mut i: usize = 0;
        while i < n
            invariant
                n == columns.len(),
                columns == pb.columns@,
                num_key == pb.num_key_columns as int,
                i <= n,
                builder.wf(),
                builder.columns@ == columns.take(i as int),
                builder.num_key_columns == if i <= num_key {
                    i as int
                } else {
                    num_key
                },
                !builder.auto_increment_column_id,
                builder.version == pb.version,
                builder.timestamp_index.is_some() <==> has_timestamp_key(
                    columns.take(i as int),
                    num_key,
                ),
                first_column_error(columns, num_key, i as int).is_none(),
            decreases n - i,
        {
            let column = pb.columns[i].clone();
            let ghost before = builder;
            let ghost seen = columns.take(i as int);
            proof {
                assert(column == columns[i as int]);
                assert(before.assigned_id(column) == column.id);
                assert(before.column_error(column, i < num_key) == next_column_error(
                    seen,
                    num_key,
                    column,
                ));
            }
            let added = if (i as u64) < pb.num_key_columns as u64 {
                builder.add_key_column(column)
            } else {
                builder.add_normal_column(column)
            };
            builder = match added {
                Ok(b) => b,
                Err(e) => {
                    proof {
                        lemma_column_error_stays(columns, num_key, i + 1);
                    }
                    return Err(e);
                },
            };
            proof {
                let next = columns.take(i + 1);
                let placed = ColumnSchema { id: column.id, ..column };
                assert(placed == column);
                assert(next =~= seen.push(column));
                if i < num_key {
                    assert(seen.insert(i as int, column) =~= seen.push(column));
                }
                assert(builder.columns@ == next);
                if has_timestamp_key(next, num_key) {
                    let j = choose|j: int|
                        0 <= j < next.len() && j < num_key
                            && (#[trigger] next[j]).data_type is Timestamp;
                    if j < i {
                        assert(seen[j].data_type is Timestamp);
                    }
                }
                if has_timestamp_key(seen, num_key) {
                    let j = choose|j: int|
                        0 <= j < seen.len() && j < num_key
                            && (#[trigger] seen[j]).data_type is Timestamp;
                    assert(next[j].data_type is Timestamp);
                }
                if i < num_key && column.data_type is Timestamp {
                    assert(next[i as int].data_type is Timestamp);
                }
            }
            i += 1;
        }
        proof {
            assert(columns.take(n as int) =~= columns);
        }
        builder.build()
    }
}

/// The number of key columns as it is stored: up to the greatest number that
/// is stored.
pub open spec fn stored_num_key_columns(num_key_columns: usize) -> u32 {
    if num_key_columns > u32::MAX {
        u32::MAX
    } else {
        num_key_columns as u32
    }
}

impl From<Schema> for TableSchemaPb {
    /// The columns and the version of the schema, with the number of its key
    /// columns.
    fn from(schema: Schema) -> (pb: TableSchemaPb)
        ensures
            pb.columns == schema.columns,
            pb.num_key_columns == stored_num_key_columns(schema.num_key_columns),
            pb.version == schema.version,
    {
        let num_key_columns = if schema.num_key_columns > u32::MAX as usize {
            u32::MAX
        } else {
            schema.num_key_columns as u32
        };
        TableSchemaPb { columns: schema.columns, num_key_columns, version: schema.version }
    }
}

impl vstd::std_specs::convert::FromSpecImpl<Schema> for TableSchemaPb {
    /// What the conversion returns is stated where it is defined.
    open spec fn obeys_from_spec() -> bool {
        false
    }

    open spec fn from_spec(schema: Schema) -> TableSchemaPb {
        arbitrary()
    }
}

} // verus!
