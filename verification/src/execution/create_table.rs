//! The operator that creates a table.

use crate::catalog::{columns_of, ColumnCatalog, TableName};
use crate::errors::{ExecutorError, StorageError};
use crate::storage::{creatable, model_of, table_created, Storage};
use crate::tuple::Tuple;
use vstd::prelude::*;

verus! {

/// The name and the columns of a table to create.
#[derive(Debug, PartialEq, Eq)]
pub struct CreateTableOperator {
    pub table_name: TableName,
    pub columns: Vec<ColumnCatalog>,
}

/// The creation of a table.
#[derive(Debug)]
pub struct CreateTable {
    pub op: CreateTableOperator,
}

impl From<CreateTableOperator> for CreateTable {
    /// The creation of the table the operator describes.
    fn from(op: CreateTableOperator) -> (r: CreateTable) {
        CreateTable { op }
    }
}

impl vstd::std_specs::convert::FromSpecImpl<CreateTableOperator> for CreateTable {
    open spec fn obeys_from_spec() -> bool {
        true
    }

    open spec fn from_spec(op: CreateTableOperator) -> CreateTable {
        CreateTable { op }
    }
}

/// What the creation of a table does to a store.
///
/// If the operator yields, it yields no rows, the store could take the
/// table, and it has gained it: an empty table of that name with those
/// columns, each given the next free identifier. If the operator fails,
/// the store is unchanged. On a store that obeys its model the operator
/// yields exactly when the store can take the table, and fails as the
/// store does otherwise: with `TableExists` if the store has a table of
/// that name, and with `InvalidSchema` if not.
pub open spec fn created<S: Storage>(
    before: S,
    after: S,
    op: CreateTableOperator,
    r: Result<Vec<Tuple>, ExecutorError>,
) -> bool {
    let wanted = creatable(model_of(before), op.table_name@, columns_of(op.columns@));
    &&& r matches Ok(rows) ==> {
        &&& rows.len() == 0
        &&& wanted is Ok
        &&& table_created(
            model_of(before),
            model_of(after),
            op.table_name@,
            columns_of(op.columns@),
        )
    }
    &&& r is Err ==> model_of(after) == model_of(before)
    &&& S::obeys_model() ==> match wanted {
        Ok(_) => r is Ok,
        Err(e) => r == Err::<Vec<Tuple>, ExecutorError>(ExecutorError::StorageError(e)),
    }
}

impl CreateTable {
    /// Runs the operator; see [`Self::_execute`].
    pub fn execute<S: Storage>(self, storage: &mut S) -> (r: Result<Vec<Tuple>, ExecutorError>)
        requires
            old(storage).wf(),
        ensures
            final(storage).wf(),
            created(*old(storage), *final(storage), self.op, r),
    {
        self._execute(storage)
    }

    /// Creates the table in the store and puts out no rows; see
    /// [`created`]. A failure of the store is the failure of the operator.
    pub fn _execute<S: Storage>(self, storage: &mut S) -> (r: Result<Vec<Tuple>, ExecutorError>)
        requires
            old(storage).wf(),
        ensures
            final(storage).wf(),
            created(*old(storage), *final(storage), self.op, r),
    {
        let CreateTableOperator { table_name, columns } = self.op;
        match storage.create_table(table_name, columns) {
            Err(e) => Err(ExecutorError::StorageError(e)),
            Ok(_) => Ok(Vec::new()),
        }
    }
}

} // verus!
