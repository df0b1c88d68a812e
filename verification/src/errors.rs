//! Error kinds of the storage layer and of the operators.

use crate::types::TypeError;
use vstd::prelude::*;

verus! {

/// Failures of the table store.
#[derive(Clone, Copy, Debug, PartialEq, Eq, Structural)]
pub enum StorageError {
    /// A table of that name already exists.
    TableExists,
    /// No table of that name exists.
    TableNotFound,
    /// The column list of a new table does not declare exactly one primary
    /// key column.
    InvalidSchema,
    /// A row with the same primary key is present and may not be replaced.
    DuplicatePrimaryKey,
    /// A unique index already maps the key to another row.
    DuplicateUniqueKey,
    /// A `NULL` was given for a column that does not admit it.
    NotNullViolation,
    /// An expression of a projection could not be evaluated.
    TypeError(TypeError),
}

/// Failures of an operator.
#[derive(Clone, Copy, Debug, PartialEq, Eq, Structural)]
pub enum ExecutorError {
    TypeError(TypeError),
    StorageError(StorageError),
    /// A predicate evaluated to a value that is not a Boolean.
    NonBooleanPredicate,
}

} // verus!
