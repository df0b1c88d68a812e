//! Rows together with the schema they were produced under.

use crate::catalog::{columns_view, ColumnModel, ColumnRef};
use crate::types::{share, Datum, ValueRef};
use vstd::prelude::*;

verus! {

/// The value that identifies a row: its primary key.
pub type TupleId = ValueRef;

/// A row: the primary-key value if it has one, its columns, and one value
/// per column.
#[derive(Clone, Debug, PartialEq, Eq)]
pub struct Tuple {
    pub id: Option<TupleId>,
    pub columns: Vec<ColumnRef>,
    pub values: Vec<ValueRef>,
}

/// The model of a row.
pub struct TupleModel {
    pub id: Option<Datum>,
    pub columns: Seq<ColumnModel>,
    pub values: Seq<Datum>,
}

/// The models of a list of values.
pub open spec fn values_view(values: Seq<ValueRef>) -> Seq<Datum> {
    values.map_values(|v: ValueRef| v@)
}

/// The model of an optional value.
pub open spec fn option_view(value: Option<ValueRef>) -> Option<Datum> {
    match value {
        Some(v) => Some(v@),
        None => None,
    }
}

/// The models of a list of rows.
pub open spec fn tuples_view(tuples: Seq<Tuple>) -> Seq<TupleModel> {
    tuples.map_values(|t: Tuple| t@)
}

impl View for Tuple {
    type V = TupleModel;

    open spec fn view(&self) -> TupleModel {
        TupleModel {
            id: option_view(self.id),
            columns: columns_view(self.columns@),
            values: values_view(self.values@),
        }
    }
}

/// Whether the values are a row of the columns: there is one value per
/// column, every value is well formed, and the type of every value can be
/// cast to the declared type of its column.
pub open spec fn fits_columns(values: Seq<Datum>, columns: Seq<ColumnModel>) -> bool {
    &&& columns.len() == values.len()
    &&& forall|i: int|
        0 <= i < values.len() ==> {
            &&& (#[trigger] values[i]).wf()
            &&& values[i].ty.castable_to(columns[i].datatype())
        }
}

impl TupleModel {
    /// A row is well formed when its values are a row of its columns.
    pub open spec fn wf(self) -> bool {
        fits_columns(self.values, self.columns)
    }
}

/// New handles to the same values.
pub fn share_values(values: &Vec<ValueRef>) -> (r: Vec<ValueRef>)
    ensures
        r@ == values@,
{
    let mut out: Vec<ValueRef> = Vec::with_capacity(values.len());
    let mut i: usize = 0;
    while i < values.len()
        invariant
            i <= values.len(),
            out@ == values@.take(i as int),
        decreases values.len() - i,
    {
        out.push(share(&values[i]));
        assert(out@ =~= values@.take(i as int + 1));
        i = i + 1;
    }
    assert(values@.take(values.len() as int) =~= values@);
    out
}

/// New handles to the same columns.
pub fn share_columns(columns: &Vec<ColumnRef>) -> (r: Vec<ColumnRef>)
    ensures
        r@ == columns@,
{
    let mut out: Vec<ColumnRef> = Vec::with_capacity(columns.len());
    let mut i: usize = 0;
    while i < columns.len()
        invariant
            i <= columns.len(),
            out@ == columns@.take(i as int),
        decreases columns.len() - i,
    {
        out.push(share(&columns[i]));
        assert(out@ =~= columns@.take(i as int + 1));
        i = i + 1;
    }
    assert(columns@.take(columns.len() as int) =~= columns@);
    out
}

impl Tuple {
    /// A row that shares its columns and values with this one.
    pub fn duplicate(&self) -> (r: Tuple)
        ensures
            r@ == self@,
    {
        let id = match &self.id {
            Some(v) => Some(share(v)),
            None => None,
        };
        Tuple { id, columns: share_columns(&self.columns), values: share_values(&self.values) }
    }
}

} // verus!
