//! Rows of datums.

use crate::datum::{Datum, DatumView};
use crate::schema::SchemaView;
use vstd::prelude::*;

verus! {

/// One row: a datum for each column.
#[derive(Debug, PartialEq, Eq)]
pub struct Row {
    pub cols: Vec<Datum>,
}

/// What each datum holds.
pub open spec fn datum_views(datums: Seq<Datum>) -> Seq<DatumView> {
    datums.map_values(|d: Datum| d@)
}

impl View for Row {
    type V = Seq<DatumView>;

    open spec fn view(&self) -> Seq<DatumView> {
        datum_views(self.cols@)
    }
}

/// The row has a datum for each column of the schema, of the kind of the
/// column; a null only where the column is nullable.
pub open spec fn row_matches(row: Seq<DatumView>, schema: SchemaView) -> bool {
    &&& row.len() == schema.columns.len()
    &&& forall|j: int|
        0 <= j < row.len() ==> if (#[trigger] row[j]) is Null {
            schema.columns[j].is_nullable
        } else {
            row[j].kind() == schema.columns[j].data_type
        }
}

impl Row {
    pub fn from_datums(datums: Vec<Datum>) -> (row: Row)
        ensures
            row.cols == datums,
    {
        Row { cols: datums }
    }

    pub fn num_columns(&self) -> (n: usize)
        ensures
            n == self@.len(),
    {
        self.cols.len()
    }

    /// The datum of column `i`.
    pub fn get(&self, i: usize) -> (datum: &Datum)
        requires
            i < self@.len(),
        ensures
            datum@ == self@[i as int],
    {
        &self.cols[i]
    }
}

impl Clone for Row {
    fn clone(&self) -> (copy: Row)
        ensures
            copy@ == self@,
    {
        let mut cols: Vec<Datum> = Vec::new();
        let mut i: usize = 0;
        while i < self.cols.len()
            invariant
                i <= self.cols@.len(),
                datum_views(cols@) == datum_views(self.cols@).take(i as int),
            decreases self.cols@.len() - i,
        {
            let ghost before = cols@;
            cols.push(self.cols[i].clone());
            proof {
                assert(datum_views(cols@) =~= datum_views(before).push(self.cols@[i as int]@));
                assert(datum_views(self.cols@).take(i + 1) =~= datum_views(self.cols@).take(
                    i as int,
                ).push(self.cols@[i as int]@));
            }
            i += 1;
        }
        proof {
            assert(datum_views(self.cols@).take(self.cols@.len() as int) =~= datum_views(
                self.cols@,
            ));
        }
        Row { cols }
    }
}

} // verus!
