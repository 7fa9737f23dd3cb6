//! A schema with the columns that a read asks for.

use crate::column_schema::ColumnSchema;
use crate::schema::Schema;
use vstd::prelude::*;

verus! {

/// Why a projection cannot be made.
#[derive(Clone, Copy, Debug, PartialEq, Eq, Structural)]
pub enum Error {
    /// The projection names a column that the schema does not have.
    InvalidProjectionIndex { index: usize },
}

/// The columns of a record batch: all key columns of the table, then the
/// columns that the projection asks for.
#[derive(Debug, PartialEq, Eq)]
pub struct RecordSchemaWithKey {
    pub columns: Vec<ColumnSchema>,
    pub num_key_columns: usize,
}

impl RecordSchemaWithKey {
    pub fn num_columns(&self) -> (n: usize)
        ensures
            n == self.columns@.len(),
    {
        self.columns.len()
    }
}

/// For each column of a record batch, the index of the column in the rows
/// that the batch is filled from.
#[derive(Debug, PartialEq, Eq)]
pub struct RowProjector {
    pub source_projection: Vec<usize>,
}

/// A schema with the columns that a read asks for; all columns where it asks
/// for none in particular.
#[derive(Debug, PartialEq, Eq)]
pub struct ProjectedSchema {
    pub schema: Schema,
    pub projection: Option<Vec<usize>>,
}

/// The first index of the projection that names no column of the schema.
pub open spec fn first_invalid(projection: Seq<usize>, num_columns: nat) -> Option<usize>
    decreases projection.len(),
{
    if projection.len() == 0 {
        None
    } else if projection[0] >= num_columns {
        Some(projection[0])
    } else {
        first_invalid(projection.drop_first(), num_columns)
    }
}

/// Where no index is invalid, every index names a column.
pub proof fn lemma_all_valid(projection: Seq<usize>, num_columns: nat)
    requires
        first_invalid(projection, num_columns).is_none(),
    ensures
        forall|i: int| 0 <= i < projection.len() ==> projection[i] < num_columns,
    decreases projection.len(),
{
    if projection.len() > 0 {
        lemma_all_valid(projection.drop_first(), num_columns);
        assert forall|i: int| 0 <= i < projection.len() implies projection[i] < num_columns by {
            if i > 0 {
                assert(projection.drop_first()[i - 1] == projection[i]);
            }
        }
    }
}

/// The indexes of the columns of a record batch in the rows of the schema:
/// the key columns first, then the projected columns that are no key columns,
/// in the order of the projection.
pub open spec fn source_indexes(num_key_columns: nat, projection: Seq<usize>) -> Seq<usize> {
    Seq::new(num_key_columns, |i: int| i as usize) + projection.filter(
        |p: usize| p >= num_key_columns,
    )
}

impl ProjectedSchema {
    /// The projection names only columns of the schema.
    pub open spec fn wf(self) -> bool {
        match self.projection {
            Some(projection) => forall|i: int|
                0 <= i < projection@.len() ==> projection@[i] < self.schema@.columns.len(),
            None => true,
        }
    }

    /// The indexes of the columns of a record batch of this projection.
    pub open spec fn spec_source_indexes(self) -> Seq<usize> {
        match self.projection {
            Some(projection) => source_indexes(self.schema@.num_key_columns, projection@),
            None => Seq::new(self.schema@.columns.len(), |i: int| i as usize),
        }
    }

    pub fn new(schema: Schema, projection: Option<Vec<usize>>) -> (r: Result<
        ProjectedSchema,
        Error,
    >)
        ensures
            match r {
                Ok(projected) => projected.schema == schema && projected.projection == projection
                    && projected.wf(),
                Err(e) => projection matches Some(p) && first_invalid(
                    p@,
                    schema@.columns.len(),
                ) == Some(e->index),
            },
    {
        match &projection {
            Some(p) => {
                let mut i: usize = 0;
                proof {
                    assert(p@.skip(0) =~= p@);
                }
                while i < p.len()
                    invariant
                        projection == Some(*p),
                        i <= p@.len(),
                        first_invalid(p@, schema@.columns.len()) == first_invalid(
                            p@.skip(i as int),
                            schema@.columns.len(),
                        ),
                    decreases p@.len() - i,
                {
                    proof {
                        assert(p@.skip(i as int)[0] == p@[i as int]);
                        assert(p@.skip(i as int).drop_first() =~= p@.skip(i + 1));
                    }
                    if p[i] >= schema.num_columns() {
                        return Err(Error::InvalidProjectionIndex { index: p[i] });
                    }
                    i += 1;
                }
                proof {
                    assert(p@.skip(p@.len() as int).len() == 0);
                    lemma_all_valid(p@, schema@.columns.len());
                }
            },
            None => {},
        }
        Ok(ProjectedSchema { schema, projection })
    }

    pub fn is_all_projection(&self) -> (b: bool)
        ensures
            b == self.projection.is_none(),
    {
        self.projection.is_none()
    }

    /// For each column of a record batch of this projection, its index in the
    /// rows of the schema.
    pub fn try_project_with_key(&self) -> (projector: RowProjector)
        requires
            self.wf(),
            self.schema@.num_key_columns <= self.schema@.columns.len(),
        ensures
            projector.source_projection@ == self.spec_source_indexes(),
            forall|i: int|
                0 <= i < projector.source_projection@.len() ==> projector.source_projection@[i]
                    < self.schema@.columns.len(),
    {
        let mut indexes: Vec<usize> = Vec::new();
        match &self.projection {
            Some(p) => {
                let num_key = self.schema.num_key_columns();
                let mut i: usize = 0;
                while i < num_key
                    invariant
                        num_key == self.schema@.num_key_columns,
                        num_key <= self.schema@.columns.len(),
                        i <= num_key,
                        indexes@ == Seq::new(i as nat, |k: int| k as usize),
                    decreases num_key - i,
                {
                    indexes.push(i);
                    proof {
                        assert(indexes@ =~= Seq::new((i + 1) as nat, |k: int| k as usize));
                    }
                    i += 1;
                }
                let ghost keys = indexes@;
                let ghost test = |p: usize| p >= num_key;
                let mut i: usize = 0;
                while i < p.len()
                    invariant
                        self.wf(),
                        self.projection == Some(*p),
                        num_key == self.schema@.num_key_columns,
                        test == (|p: usize| p >= num_key),
                        i <= p@.len(),
                        indexes@ == keys + p@.take(i as int).filter(test),
                        forall|k: int|
                            0 <= k < indexes@.len() ==> indexes@[k] < self.schema@.columns.len(),
                    decreases p@.len() - i,
                {
                    proof {
                        p@.take(i as int).lemma_filter_push(p@[i as int], test);
                        assert(p@.take(i as int).push(p@[i as int]) =~= p@.take(i + 1));
                    }
                    let ghost before = indexes@;
                    if p[i] >= num_key {
                        indexes.push(p[i]);
                    }
                    proof {
                        assert(indexes@ =~= keys + p@.take(i + 1).filter(test));
                        let whole = self.projection->Some_0;
                        assert(whole@[i as int] < self.schema@.columns.len());
                        assert forall|k: int| 0 <= k < indexes@.len() implies indexes@[k]
                            < self.schema@.columns.len() by {
                            if k < before.len() {
                                assert(indexes@[k] == before[k]);
                            }
                        }
                    }
                    i += 1;
                }
                proof {
                    assert(p@.take(p@.len() as int) =~= p@);
                    assert(test =~= (|p: usize| p >= self.schema@.num_key_columns));
                }
            },
            None => {
                let n = self.schema.num_columns();
                let mut i: usize = 0;
                while i < n
                    invariant
                        n == self.schema@.columns.len(),
                        i <= n,
                        indexes@ == Seq::new(i as nat, |k: int| k as usize),
                    decreases n - i,
                {
                    indexes.push(i);
                    proof {
                        assert(indexes@ =~= Seq::new((i + 1) as nat, |k: int| k as usize));
                    }
                    i += 1;
                }
            },
        }
        RowProjector { source_projection: indexes }
    }

    /// The columns of a record batch of this projection.
    pub fn to_record_schema_with_key(&self) -> (record_schema: RecordSchemaWithKey)
        requires
            self.wf(),
            self.schema@.num_key_columns <= self.schema@.columns.len(),
        ensures
            record_schema.num_key_columns == self.schema@.num_key_columns,
            record_schema.columns@ == self.spec_source_indexes().map_values(
                |i: usize| self.schema@.columns[i as int],
            ),
    {
        let projector = self.try_project_with_key();
        let ghost indexes = projector.source_projection@;
        let mut columns: Vec<ColumnSchema> = Vec::new();
        let mut i: usize = 0;
        while i < projector.source_projection.len()
            invariant
                indexes == projector.source_projection@,
                i <= indexes.len(),
                forall|k: int| 0 <= k < indexes.len() ==> indexes[k] < self.schema@.columns.len(),
                columns@ == indexes.take(i as int).map_values(
                    |i: usize| self.schema@.columns[i as int],
                ),
            decreases indexes.len() - i,
        {
            columns.push(self.schema.column(projector.source_projection[i]).clone());
            proof {
                assert(columns@ =~= indexes.take(i + 1).map_values(
                    |i: usize| self.schema@.columns[i as int],
                ));
            }
            i += 1;
        }
        proof {
            assert(indexes.take(indexes.len() as int) =~= indexes);
        }
        RecordSchemaWithKey { columns, num_key_columns: self.schema.num_key_columns() }
    }
}

} // verus!
