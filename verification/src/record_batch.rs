//! Batches of rows, held column by column.

use crate::datum::{Datum, DatumView};
use crate::projected_schema::{RecordSchemaWithKey, RowProjector};
use crate::row::{datum_views, Row};
use vstd::prelude::*;

verus! {

/// Why a row cannot join a batch.
#[derive(Clone, Copy, Debug, PartialEq, Eq, Structural)]
pub enum Error {
    /// The row has no datum at an index that the projection asks for.
    MissingColumn { index: usize },
}

/// Every column holds `rows` datums.
pub open spec fn columns_of_len(columns: Seq<Vec<Datum>>, rows: nat) -> bool {
    forall|j: int| 0 <= j < columns.len() ==> (#[trigger] columns[j])@.len() == rows
}

/// A batch of rows with the key columns of their table, held column by
/// column.
#[derive(Debug, PartialEq, Eq)]
pub struct RecordBatchWithKey {
    pub schema_with_key: RecordSchemaWithKey,
    pub columns: Vec<Vec<Datum>>,
    pub num_rows: usize,
}

impl RecordBatchWithKey {
    /// The batch has a column for each column of its schema, and each column
    /// a datum for each row.
    pub open spec fn wf(self) -> bool {
        &&& self.columns@.len() == self.schema_with_key.columns@.len()
        &&& columns_of_len(self.columns@, self.num_rows as nat)
    }

    /// The datum of column `j` in row `i`.
    pub open spec fn cell(self, j: int, i: int) -> DatumView {
        self.columns@[j]@[i]@
    }

    pub fn num_rows(&self) -> (n: usize)
        ensures
            n == self.num_rows,
    {
        self.num_rows
    }

    pub fn num_columns(&self) -> (n: usize)
        ensures
            n == self.columns@.len(),
    {
        self.columns.len()
    }

    /// The datums of column `j`, row by row.
    pub fn column(&self, j: usize) -> (column: &Vec<Datum>)
        requires
            j < self.columns@.len(),
        ensures
            *column == self.columns@[j as int],
    {
        &self.columns[j]
    }
}

/// Collects the rows of a batch.
#[derive(Debug)]
pub struct RecordBatchWithKeyBuilder {
    pub schema_with_key: RecordSchemaWithKey,
    pub columns: Vec<Vec<Datum>>,
    pub num_rows: usize,
}

impl RecordBatchWithKeyBuilder {
    /// The builder has a column for each column of its schema, and each
    /// column a datum for each row.
    pub open spec fn wf(self) -> bool {
        &&& self.columns@.len() == self.schema_with_key.columns@.len()
        &&& columns_of_len(self.columns@, self.num_rows as nat)
    }

    /// A builder without rows. The capacity is a hint only.
    pub fn with_capacity(schema_with_key: RecordSchemaWithKey, capacity: usize) -> (builder:
        RecordBatchWithKeyBuilder)
        ensures
            builder.schema_with_key == schema_with_key,
            builder.num_rows == 0,
            builder.wf(),
    {
        let n = schema_with_key.num_columns();
        let mut columns: Vec<Vec<Datum>> = Vec::new();
        let mut j: usize = 0;
        while j < n
            invariant
                j <= n,
                columns@.len() == j,
                columns_of_len(columns@, 0),
            decreases n - j,
        {
            columns.push(Vec::new());
            j += 1;
        }
        RecordBatchWithKeyBuilder { schema_with_key, columns, num_rows: 0 }
    }

    /// The first column of the batch whose datum the row lacks.
    pub open spec fn missing_index(row: Seq<DatumView>, projection: Seq<usize>) -> Option<usize>
        decreases projection.len(),
    {
        if projection.len() == 0 {
            None
        } else if projection[0] >= row.len() {
            Some(projection[0])
        } else {
            Self::missing_index(row, projection.drop_first())
        }
    }

    /// Appends the row to the batch: each column of the batch takes the datum
    /// that the projection names for it.
    pub fn append_projected_row(&mut self, row: &Row, projector: &RowProjector) -> (r: Result<
        (),
        Error,
    >)
        requires
            old(self).wf(),
            projector.source_projection@.len() == old(self).columns@.len(),
            old(self).num_rows < usize::MAX,
        ensures
            final(self).wf(),
            final(self).schema_with_key == old(self).schema_with_key,
            match r {
                Ok(()) => {
                    &&& Self::missing_index(row@, projector.source_projection@).is_none()
                    &&& final(self).num_rows == old(self).num_rows + 1
                    &&& forall|j: int|
                        0 <= j < old(self).columns@.len() ==> projector.source_projection@[j]
                            < row@.len() && datum_views((#[trigger] final(self).columns@[j])@)
                            == datum_views(old(self).columns@[j]@).push(
                            row@[projector.source_projection@[j] as int],
                        )
                },
                Err(e) => Self::missing_index(row@, projector.source_projection@) == Some(
                    e->index,
                ) && *final(self) == *old(self),
            },
    {
        let n = self.columns.len();
        let ghost projection = projector.source_projection@;
        let mut j: usize = 0;
        proof {
            assert(projection.skip(0) =~= projection);
        }
        while j < n
            invariant
                *self == *old(self),
                self.wf(),
                n == projection.len(),
                projection == projector.source_projection@,
                j <= n,
                Self::missing_index(row@, projection) == Self::missing_index(
                    row@,
                    projection.skip(j as int),
                ),
                forall|k: int| 0 <= k < j ==> projection[k] < row@.len(),
            decreases n - j,
        {
            proof {
                assert(projection.skip(j as int)[0] == projection[j as int]);
                assert(projection.skip(j as int).drop_first() =~= projection.skip(j + 1));
            }
            if projector.source_projection[j] >= row.num_columns() {
                return Err(Error::MissingColumn { index: projector.source_projection[j] });
            }
            j += 1;
        }
        proof {
            assert(projection.skip(n as int).len() == 0);
        }
        let ghost start = self.columns@;
        let rows = self.num_rows;
        let mut j: usize = 0;
        while j < n
            invariant
                n == projection.len(),
                n == start.len(),
                self.columns@.len() == n,
                projection == projector.source_projection@,
                forall|k: int| 0 <= k < n ==> projection[k] < row@.len(),
                columns_of_len(start, rows as nat),
                j <= n,
                forall|k: int|
                    0 <= k < j ==> datum_views((#[trigger] self.columns@[k])@) == datum_views(
                        start[k]@,
                    ).push(row@[projection[k] as int]),
                forall|k: int| j <= k < n ==> #[trigger] self.columns@[k] == start[k],
                self.schema_with_key == old(self).schema_with_key,
                self.num_rows == rows,
            decreases n - j,
        {
            let ghost before = self.columns@;
            let datum = row.get(projector.source_projection[j]).clone();
            self.columns[j].push(datum);
            proof {
                assert forall|k: int| 0 <= k < n && k != j implies #[trigger] self.columns@[k]
                    == before[k] by {}
                assert(datum_views(self.columns@[j as int]@) =~= datum_views(start[j as int]@).push(
                    row@[projection[j as int] as int],
                ));
            }
            j += 1;
        }
        self.num_rows = rows + 1;
        proof {
            assert forall|k: int| 0 <= k < self.columns@.len() implies (
            #[trigger] self.columns@[k])@.len() == rows + 1 by {
                assert(datum_views(self.columns@[k]@).len() == datum_views(start[k]@).len() + 1);
                assert(start[k]@.len() == rows);
            }
        }
        Ok(())
    }

    /// The batch of the rows collected so far.
    pub fn build(self) -> (batch: RecordBatchWithKey)
        requires
            self.wf(),
        ensures
            batch.schema_with_key == self.schema_with_key,
            batch.columns == self.columns,
            batch.num_rows == self.num_rows,
            batch.wf(),
    {
        RecordBatchWithKey {
            schema_with_key: self.schema_with_key,
            columns: self.columns,
            num_rows: self.num_rows,
        }
    }
}

} // verus!
