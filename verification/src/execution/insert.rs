//! The insert operator: every row of its input is brought into the layout
//! of the target table and appended to it, the unique indexes are brought
//! up to date, and the whole is committed at once.

use crate::catalog::{
    columns_view, find_table, lemma_find_table_from, ColumnId, ColumnModel, TableCatalog,
    TableModel, TableName,
};
use crate::errors::{ExecutorError, StorageError};
use crate::storage::model::TableData;
use crate::storage::{Index, IndexModel, Storage, Transaction};
use crate::tuple::{share_columns, tuples_view, values_view, Tuple, TupleId, TupleModel};
use crate::types::{share, DataValue, Datum, ValueRef};
use std::collections::HashMap;
use std::sync::Arc;
use vstd::prelude::*;
use vstd::std_specs::hash::group_hash_axioms;

verus! {

/// What to insert into, and whether rows may replace rows.
#[derive(Debug, PartialEq, Eq)]
pub struct InsertOperator {
    pub table_name: TableName,
    pub is_overwrite: bool,
}

/// The insert of the rows of an input into a table.
#[derive(Debug)]
pub struct Insert {
    pub table_name: TableName,
    pub input: Vec<Tuple>,
    pub is_overwrite: bool,
}

/// How many positions of a row have both a column and a value.
pub open spec fn width(t: TupleModel) -> int {
    if t.columns.len() <= t.values.len() {
        t.columns.len() as int
    } else {
        t.values.len() as int
    }
}

/// The value a row provides for the column `id` among its first `n`
/// positions: the value at the last of them whose column is `id`.
pub open spec fn provided_upto(t: TupleModel, id: ColumnId, n: int) -> Option<Datum>
    decreases n,
{
    if n <= 0 {
        None
    } else if t.columns[n - 1].id == Some(id) {
        Some(t.values[n - 1])
    } else {
        provided_upto(t, id, n - 1)
    }
}

/// The value a row provides for a column of the target table.
pub open spec fn provided(t: TupleModel, c: ColumnModel) -> Option<Datum> {
    match c.id {
        Some(id) => provided_upto(t, id, width(t)),
        None => None,
    }
}

/// The value of a row for a column of the target table: what the row
/// provides, or `NULL` if it provides nothing, cast to the type of the
/// column. A `NULL` for a column that does not admit it fails with
/// `NotNullViolation`, and a value that cannot be cast fails with the
/// failure of the cast.
pub open spec fn target_value(c: ColumnModel, t: TupleModel) -> Result<Datum, ExecutorError> {
    let v = match provided(t, c) {
        Some(v) => v,
        None => Datum::null(c.datatype()),
    };
    if v.is_null() && !c.nullable {
        Err(ExecutorError::StorageError(StorageError::NotNullViolation))
    } else {
        match v.cast(c.datatype()) {
            Ok(x) => Ok(x),
            Err(e) => Err(ExecutorError::TypeError(e)),
        }
    }
}

/// The values of a row for the first `n` columns of the target table, or
/// the failure of the first column that has one.
pub open spec fn target_values(cols: Seq<ColumnModel>, t: TupleModel, n: int) -> Result<
    Seq<Datum>,
    ExecutorError,
>
    decreases n,
{
    if n <= 0 {
        Ok(Seq::empty())
    } else {
        match target_values(cols, t, n - 1) {
            Err(e) => Err(e),
            Ok(values) => match target_value(cols[n - 1], t) {
                Err(e) => Err(e),
                Ok(v) => Ok(values.push(v)),
            },
        }
    }
}

/// The row in the layout of the target table: it has the columns of the
/// table, one value per column, and is identified by the value of the
/// primary-key column.
pub open spec fn reconstruct(table: TableModel, t: TupleModel) -> Result<TupleModel, ExecutorError> {
    match target_values(table.columns, t, table.columns.len() as int) {
        Err(e) => Err(e),
        Ok(values) => Ok(
            TupleModel {
                id: Some(values[table.primary_index()]),
                columns: table.columns,
                values,
            },
        ),
    }
}

/// The key of the unique index over the column at position `p` for a
/// value.
pub open spec fn unique_key(table: TableModel, p: int, v: Datum) -> IndexModel {
    IndexModel { id: (table.first_id + p) as u32, column_values: seq![v] }
}

/// An entry that is to be made in a unique index: the key, and the row
/// that has it.
pub struct PendingModel {
    pub key: IndexModel,
    pub tuple_id: Datum,
}

/// The entries a row asks for in the unique indexes over the first `n`
/// columns: one for every unique column in which the row is not `NULL`.
pub open spec fn unique_entries(table: TableModel, row: TupleModel, n: int) -> Seq<PendingModel>
    decreases n,
{
    if n <= 0 {
        Seq::empty()
    } else if table.columns[n - 1].desc.is_unique && !row.values[n - 1].is_null() {
        unique_entries(table, row, n - 1).push(
            PendingModel { key: unique_key(table, n - 1, row.values[n - 1]), tuple_id: row.id->Some_0 },
        )
    } else {
        unique_entries(table, row, n - 1)
    }
}

/// The contents of the target table and the index entries that are to be
/// made, while rows are inserted.
pub struct InsertProgress {
    pub data: TableData,
    pub pending: Seq<PendingModel>,
}

/// The progress after one more row of the input: the row is brought into
/// the layout of the table and appended, and the index entries it asks for
/// are noted.
pub open spec fn insert_step(
    table: TableModel,
    progress: InsertProgress,
    t: TupleModel,
    is_overwrite: bool,
) -> Result<InsertProgress, ExecutorError> {
    match reconstruct(table, t) {
        Err(e) => Err(e),
        Ok(row) => match progress.data.append(row, is_overwrite) {
            Err(e) => Err(ExecutorError::StorageError(e)),
            Ok(data) => Ok(
                InsertProgress {
                    data,
                    pending: progress.pending + unique_entries(
                        table,
                        row,
                        table.columns.len() as int,
                    ),
                },
            ),
        },
    }
}

/// The progress after every row of the input, or the first failure.
pub open spec fn insert_all(
    table: TableModel,
    data: TableData,
    input: Seq<TupleModel>,
    is_overwrite: bool,
) -> Result<InsertProgress, ExecutorError>
    decreases input.len(),
{
    if input.len() == 0 {
        Ok(InsertProgress { data, pending: Seq::empty() })
    } else {
        match insert_all(table, data, input.drop_last(), is_overwrite) {
            Err(e) => Err(e),
            Ok(progress) => insert_step(table, progress, input.last(), is_overwrite),
        }
    }
}

/// The contents after the noted index entries are made, in order; or the
/// first failure to make one.
pub open spec fn flush(data: TableData, pending: Seq<PendingModel>) -> Result<
    TableData,
    ExecutorError,
>
    decreases pending.len(),
{
    if pending.len() == 0 {
        Ok(data)
    } else {
        match flush(data, pending.drop_last()) {
            Err(e) => Err(e),
            Ok(before) => match before.add_index(
                pending.last().key,
                seq![pending.last().tuple_id],
                true,
            ) {
                Err(e) => Err(ExecutorError::StorageError(e)),
                Ok(after) => Ok(after),
            },
        }
    }
}

/// The contents of the target table after the insert of an input: every
/// row is appended, then every index entry is made.
pub open spec fn insert(
    table: TableModel,
    data: TableData,
    input: Seq<TupleModel>,
    is_overwrite: bool,
) -> Result<TableData, ExecutorError> {
    match insert_all(table, data, input, is_overwrite) {
        Err(e) => Err(e),
        Ok(progress) => flush(progress.data, progress.pending),
    }
}

/// A row in the layout of a table has one value per column of the table.
pub proof fn lemma_target_values_len(cols: Seq<ColumnModel>, t: TupleModel, n: int)
    requires
        0 <= n,
        target_values(cols, t, n) is Ok,
    ensures
        target_values(cols, t, n)->Ok_0.len() == n,
    decreases n,
{
    if n > 0 {
        lemma_target_values_len(cols, t, n - 1);
    }
}

proof fn lemma_target_values_error(cols: Seq<ColumnModel>, t: TupleModel, n: int, m: int)
    requires
        0 <= n <= m,
        target_values(cols, t, n) is Err,
    ensures
        target_values(cols, t, m) == target_values(cols, t, n),
    decreases m - n,
{
    if n < m {
        lemma_target_values_error(cols, t, n, m - 1);
    }
}

proof fn lemma_insert_all_error(
    table: TableModel,
    data: TableData,
    input: Seq<TupleModel>,
    n: int,
    is_overwrite: bool,
)
    requires
        0 <= n <= input.len(),
        insert_all(table, data, input.take(n), is_overwrite) is Err,
    ensures
        insert_all(table, data, input, is_overwrite) == insert_all(
            table,
            data,
            input.take(n),
            is_overwrite,
        ),
    decreases input.len() - n,
{
    if n < input.len() {
        assert(input.take(n + 1).drop_last() =~= input.take(n));
        lemma_insert_all_error(table, data, input, n + 1, is_overwrite);
    } else {
        assert(input.take(n) =~= input);
    }
}

proof fn lemma_flush_error(data: TableData, pending: Seq<PendingModel>, n: int)
    requires
        0 <= n <= pending.len(),
        flush(data, pending.take(n)) is Err,
    ensures
        flush(data, pending) == flush(data, pending.take(n)),
    decreases pending.len() - n,
{
    if n < pending.len() {
        assert(pending.take(n + 1).drop_last() =~= pending.take(n));
        lemma_flush_error(data, pending, n + 1);
    } else {
        assert(pending.take(n) =~= pending);
    }
}

/// An index entry that is to be made.
struct Pending {
    column: ColumnId,
    tuple_id: TupleId,
    value: ValueRef,
}

impl View for Pending {
    type V = PendingModel;

    closed spec fn view(&self) -> PendingModel {
        PendingModel {
            key: IndexModel { id: self.column, column_values: seq![self.value@] },
            tuple_id: self.tuple_id@,
        }
    }
}

spec fn pending_view(pending: Seq<Pending>) -> Seq<PendingModel> {
    pending.map_values(|p: Pending| p@)
}

/// The model of the outcome of an operation that yields a row.
pub open spec fn row_result(r: Result<Tuple, ExecutorError>) -> Result<TupleModel, ExecutorError> {
    match r {
        Ok(t) => Ok(t@),
        Err(e) => Err(e),
    }
}

impl From<(InsertOperator, Vec<Tuple>)> for Insert {
    /// The insert of an input under an operator.
    fn from(v: (InsertOperator, Vec<Tuple>)) -> (r: Insert) {
        let (InsertOperator { table_name, is_overwrite }, input) = v;
        Insert { table_name, input, is_overwrite }
    }
}

impl vstd::std_specs::convert::FromSpecImpl<(InsertOperator, Vec<Tuple>)> for Insert {
    open spec fn obeys_from_spec() -> bool {
        true
    }

    open spec fn from_spec(v: (InsertOperator, Vec<Tuple>)) -> Insert {
        Insert { table_name: v.0.table_name, input: v.1, is_overwrite: v.0.is_overwrite }
    }
}

impl Insert {
    /// The row in the layout of the table; see [`reconstruct`].
    pub fn reconstruct(table: &TableCatalog, tuple: &Tuple) -> (r: Result<Tuple, ExecutorError>)
        requires
            table@.wf(),
        ensures
            row_result(r) == reconstruct(table@, tuple@),
    {
        broadcast use group_hash_axioms;

        let n = if tuple.columns.len() <= tuple.values.len() {
            tuple.columns.len()
        } else {
            tuple.values.len()
        };
        let mut tuple_map: HashMap<ColumnId, ValueRef> = HashMap::new();
        let mut i: usize = 0;
        while i < n
            invariant
                i <= n,
                n == width(tuple@),
                forall|id: ColumnId|
                    provided_upto(tuple@, id, i as int) == if tuple_map@.contains_key(id) {
                        Some(tuple_map@[id]@)
                    } else {
                        None
                    },
            decreases n - i,
        {
            assert(tuple@.columns[i as int] == tuple.columns@[i as int]@);
            assert(tuple@.values[i as int] == tuple.values@[i as int]@);
            let ghost before = tuple_map@;
            if let Some(col_id) = tuple.columns[i].id {
                tuple_map.insert(col_id, share(&tuple.values[i]));
            }
            proof {
                assert forall|id: ColumnId|
                    provided_upto(tuple@, id, i as int + 1) == if tuple_map@.contains_key(id) {
                        Some(tuple_map@[id]@)
                    } else {
                        None
                    } by {
                    assert(provided_upto(tuple@, id, i as int) == if before.contains_key(id) {
                        Some(before[id]@)
                    } else {
                        None
                    });
                }
            }
            i = i + 1;
        }
        let columns = table.all_columns();
        let (primary, _) = table.primary_key();
        let ghost cols = table@.columns;
        let mut values: Vec<ValueRef> = Vec::with_capacity(columns.len());
        let mut p: usize = 0;
        assert(values_view(values@) =~= Seq::empty());
        while p < columns.len()
            invariant
                p <= columns.len(),
                values.len() == p,
                primary < columns.len(),
                cols == table@.columns,
                cols == columns_view(columns@),
                forall|id: ColumnId|
                    provided_upto(tuple@, id, width(tuple@)) == if tuple_map@.contains_key(id) {
                        Some(tuple_map@[id]@)
                    } else {
                        None
                    },
                target_values(cols, tuple@, p as int) matches Ok(vs) && vs == values_view(values@),
            decreases columns.len() - p,
        {
            let col = &columns[p];
            assert(cols[p as int] == col@);
            let given = match col.id {
                Some(id) => tuple_map.get(&id),
                None => None,
            };
            let value: ValueRef = match given {
                Some(v) => share(v),
                None => Arc::new(DataValue::none(col.datatype())),
            };
            assert(value@ == match provided(tuple@, col@) {
                Some(v) => v,
                None => Datum::null(col@.datatype()),
            });
            if value.is_null() && !col.nullable {
                proof {
                    lemma_target_values_error(cols, tuple@, p as int + 1, cols.len() as int);
                }
                return Err(ExecutorError::StorageError(StorageError::NotNullViolation));
            }
            match value.cast(col.datatype()) {
                Err(e) => {
                    proof {
                        lemma_target_values_error(cols, tuple@, p as int + 1, cols.len() as int);
                    }
                    return Err(ExecutorError::TypeError(e));
                },
                Ok(v) => {
                    let ghost prev = values_view(values@);
                    values.push(Arc::new(v));
                    assert(values_view(values@) =~= prev.push(v@));
                },
            }
            p = p + 1;
        }
        assert(values_view(values@)[primary as int] == values@[primary as int]@);
        let id = share(&values[primary]);
        Ok(Tuple { id: Some(id), columns: share_columns(columns), values })
    }

    /// Notes the index entries a row in the layout of the table asks for.
    fn note_unique(table: &TableCatalog, row: &Tuple, pending: &mut Vec<Pending>)
        requires
            table@.wf(),
            row@.columns == table@.columns,
            row@.values.len() == table@.columns.len(),
            row@.id is Some,
        ensures
            pending_view(final(pending)@) == pending_view(old(pending)@) + unique_entries(
                table@,
                row@,
                table@.columns.len() as int,
            ),
    {
        let ghost before = pending_view(pending@);
        let columns = table.all_columns();
        let mut p: usize = 0;
        assert(pending_view(pending@) =~= before + unique_entries(table@, row@, 0));
        while p < columns.len()
            invariant
                p <= columns.len(),
                table@.wf(),
                columns_view(columns@) == table@.columns,
                row@.values.len() == table@.columns.len(),
                row@.id is Some,
                columns.len() == row.values.len(),
                pending_view(pending@) == before + unique_entries(table@, row@, p as int),
            decreases columns.len() - p,
        {
            let col = &columns[p];
            assert(table@.columns[p as int] == col@);
            assert(row@.values[p as int] == row.values@[p as int]@);
            if col.desc.is_unique && !row.values[p].is_null() {
                match (&col.id, &row.id) {
                    (Some(column), Some(tuple_id)) => {
                        let ghost prev = pending_view(pending@);
                        let entry = Pending {
                            column: *column,
                            tuple_id: share(tuple_id),
                            value: share(&row.values[p]),
                        };
                        pending.push(entry);
                        proof {
                            assert(entry@.key == unique_key(table@, p as int, row@.values[p as int]));
                            assert(pending_view(pending@) =~= prev.push(entry@));
                            assert(before + unique_entries(table@, row@, p as int + 1) =~= (before
                                + unique_entries(table@, row@, p as int)).push(entry@));
                        }
                    },
                    _ => {
                        assert(false);
                    },
                }
            }
            p = p + 1;
        }
    }

    /// Runs the insert; see [`Self::_execute`].
    pub fn execute<S: Storage>(self, storage: &mut S) -> (r: Result<Vec<Tuple>, ExecutorError>)
        requires
            old(storage).wf(),
        ensures
            final(storage).wf(),
            inserted(*old(storage), *final(storage), self, r),
    {
        self._execute(storage)
    }

    /// Runs the insert: if the store has the table, a transaction on it
    /// takes every row of the input in the layout of the table, then every
    /// entry of its unique indexes, and is committed. The first failure
    /// ends the insert and nothing is committed. The operator puts out no
    /// rows. See [`inserted`].
    pub fn _execute<S: Storage>(self, storage: &mut S) -> (r: Result<Vec<Tuple>, ExecutorError>)
        requires
            old(storage).wf(),
        ensures
            final(storage).wf(),
            inserted(*old(storage), *final(storage), self, r),
    {
        let Insert { table_name, input, is_overwrite } = self;
        let ghost rows = tuples_view(input@);
        let ghost obeys = stores_obey::<S>();
        proof {
            storage.lemma_wf();
            lemma_find_table_from(storage.catalog(), table_name@, 0);
        }
        let mut transaction = match storage.transaction(&table_name) {
            Some(t) => t,
            None => {
                return Ok(Vec::new());
            },
        };
        let ghost start = transaction.contents();
        let ghost found = find_table(storage.catalog(), table_name@)->Some_0;
        let mut pending: Vec<Pending> = Vec::new();
        {
            let table_catalog = match storage.table(&table_name) {
                Some(t) => t,
                None => {
                    return Ok(Vec::new());
                },
            };
            let ghost table = table_catalog@;

            let mut k: usize = 0;
            assert(rows.take(0) =~= Seq::empty());
            assert(pending_view(pending@) =~= Seq::empty());
            while k < input.len()
                invariant
                    k <= input.len(),
                    rows == tuples_view(input@),
                    rows == tuples_view(self.input@),
                    table_name@ == self.table_name@,
                    is_overwrite == self.is_overwrite,
                    obeys == stores_obey::<S>(),
                    *storage == *old(storage),
                    storage.wf(),
                    find_table(storage.catalog(), table_name@) == Some(found),
                    table == storage.catalog()[found],
                    start == storage.data()[found],
                    table == table_catalog@,
                    table.wf(),
                    transaction.contents().wf(),
                    transaction.table_name() == table_name@,
                    insert_all(table, start, rows.take(k as int), is_overwrite) == Ok::<
                        InsertProgress,
                        ExecutorError,
                    >(
                        InsertProgress {
                            data: transaction.contents(),
                            pending: pending_view(pending@),
                        },
                    ),
                decreases input.len() - k,
            {
                proof {
                    assert(rows.take(k as int + 1).drop_last() =~= rows.take(k as int));
                    assert(rows.take(k as int + 1).last() == input@[k as int]@);
                }
                let row = match Insert::reconstruct(table_catalog, &input[k]) {
                    Err(e) => {
                        proof {
                            lemma_insert_all_error(table, start, rows, k as int + 1, is_overwrite);
                        }
                        return Err(e);
                    },
                    Ok(row) => row,
                };
                proof {
                    table.lemma_primary_index();
                    lemma_target_values_len(
                        table.columns,
                        input@[k as int]@,
                        table.columns.len() as int,
                    );
                }
                Insert::note_unique(table_catalog, &row, &mut pending);
                match transaction.append(row, is_overwrite) {
                    Err(e) => {
                        proof {
                            if obeys {
                                lemma_insert_all_error(
                                    table,
                                    start,
                                    rows,
                                    k as int + 1,
                                    is_overwrite,
                                );
                            }
                        }
                        return Err(ExecutorError::StorageError(e));
                    },
                    Ok(()) => {},
                }
                k = k + 1;
            }
            assert(rows.take(input.len() as int) =~= rows);
            let ghost appended = transaction.contents();
            let ghost noted = pending_view(pending@);

            let mut j: usize = 0;
            assert(noted.take(0) =~= Seq::empty());
            while j < pending.len()
                invariant
                    j <= pending.len(),
                    rows == tuples_view(self.input@),
                    table_name@ == self.table_name@,
                    is_overwrite == self.is_overwrite,
                    obeys == stores_obey::<S>(),
                    *storage == *old(storage),
                    storage.wf(),
                    find_table(storage.catalog(), table_name@) == Some(found),
                    table == storage.catalog()[found],
                    start == storage.data()[found],
                    table == table_catalog@,
                    table.wf(),
                    noted == pending_view(pending@),
                    transaction.contents().wf(),
                    transaction.table_name() == table_name@,
                    flush(appended, noted.take(j as int)) == Ok::<TableData, ExecutorError>(
                        transaction.contents(),
                    ),
                    insert_all(table, start, rows, is_overwrite) == Ok::<
                        InsertProgress,
                        ExecutorError,
                    >(InsertProgress { data: appended, pending: noted }),
                decreases pending.len() - j,
            {
                let entry = &pending[j];
                proof {
                    assert(noted.take(j as int + 1).drop_last() =~= noted.take(j as int));
                    assert(noted.take(j as int + 1).last() == entry@);
                }
                let mut column_values: Vec<ValueRef> = Vec::new();
                column_values.push(share(&entry.value));
                let mut tuple_ids: Vec<TupleId> = Vec::new();
                tuple_ids.push(share(&entry.tuple_id));
                let index = Index { id: entry.column, column_values };
                proof {
                    assert(index@.column_values =~= seq![entry.value@]);
                    assert(values_view(tuple_ids@) =~= seq![entry.tuple_id@]);
                }
                match transaction.add_index(index, tuple_ids, true) {
                    Err(e) => {
                        proof {
                            if obeys {
                                lemma_flush_error(appended, noted, j as int + 1);
                            }
                        }
                        return Err(ExecutorError::StorageError(e));
                    },
                    Ok(()) => {},
                }
                j = j + 1;
            }
            assert(noted.take(pending.len() as int) =~= noted);
        }
        match storage.commit(transaction) {
            Err(e) => Err(ExecutorError::StorageError(e)),
            Ok(()) => Ok(Vec::new()),
        }
    }
}

/// Whether a store and its transactions fail only where their models
/// fail.
pub open spec fn stores_obey<S: Storage>() -> bool {
    S::obeys_model() && <S::TransactionType as Transaction>::obeys_model()
}

/// What an insert does to a store.
///
/// The tables of the store are unchanged. If the store has no table of
/// that name, the operator yields no rows and the store is unchanged. If it
/// has, and the operator yields, it yields no rows and the contents of the
/// table are those that [`insert`] gives; if the operator fails, the store
/// is unchanged. On a store that obeys its model the operator yields
/// exactly when [`insert`] does, and fails as [`insert`] does otherwise.
pub open spec fn inserted<S: Storage>(
    before: S,
    after: S,
    op: Insert,
    r: Result<Vec<Tuple>, ExecutorError>,
) -> bool {
    &&& after.catalog() == before.catalog()
    &&& after.room() == before.room()
    &&& match find_table(before.catalog(), op.table_name@) {
        None => r matches Ok(rows) && rows.len() == 0 && after.data() == before.data(),
        Some(i) => {
            let model = insert(
                before.catalog()[i],
                before.data()[i],
                tuples_view(op.input@),
                op.is_overwrite,
            );
            &&& r matches Ok(rows) ==> rows.len() == 0 && model is Ok && after.data()
                == before.data().update(i, model->Ok_0)
            &&& r is Err ==> after.data() == before.data()
            &&& stores_obey::<S>() ==> match model {
                Ok(_) => r is Ok,
                Err(e) => r == Err::<Vec<Tuple>, ExecutorError>(e),
            }
        },
    }
}

} // verus!
