//! What operators ask of a table store: the traits a store, its
//! transactions and its scans implement, with the contracts the operators
//! rely on; and the projection of a row.
//!
//! A store may always fail for reasons of its own. Its contracts therefore
//! say what holds when an operation succeeds and when it fails, and a store
//! that declares that it obeys its model promises, beyond that, to fail
//! only where the model fails.

pub mod laws;
pub mod memory;
pub mod model;

use crate::catalog::{
    columns_of, count_primary, find_table, with_ids, ColumnCatalog, ColumnDesc, ColumnModel,
    ColumnRef, IndexId, IndexMeta, TableCatalog, TableModel, TableName,
};
use crate::errors::StorageError;
use crate::expression::{exprs_view, ExprModel, ScalarExpression};
use crate::storage::model::{ranges_view, step_result, ConstantBinary, ScanModel, TableData};
use crate::tuple::{values_view, Tuple, TupleId, TupleModel};
use crate::types::{share, Datum, ValueRef};
use std::sync::Arc;
use vstd::prelude::*;

verus! {

/// How many rows a scan skips and how many it yields at most.
pub type Bounds = (Option<usize>, Option<usize>);

/// The expressions a scan evaluates on every row.
pub type Projections = Vec<ScalarExpression>;

/// A key of an index: the values of the indexed columns.
#[derive(Debug, PartialEq, Eq)]
pub struct Index {
    pub id: IndexId,
    pub column_values: Vec<ValueRef>,
}

/// The model of a key of an index.
pub struct IndexModel {
    pub id: IndexId,
    pub column_values: Seq<Datum>,
}

impl View for Index {
    type V = IndexModel;

    open spec fn view(&self) -> IndexModel {
        IndexModel { id: self.id, column_values: values_view(self.column_values@) }
    }
}

/// The column under which a projection puts out the value of an
/// expression: a column reference keeps its column, a positional reference
/// takes the column at its position of the row, an alias names a new
/// nullable column of its type, and any other expression yields a new
/// nullable column without a name.
pub open spec fn output_column(e: ExprModel, t: TupleModel) -> ColumnModel {
    match e {
        ExprModel::ColumnRef(c) => c,
        ExprModel::InputRef { index, .. } if index < t.columns.len() => t.columns[index as int],
        ExprModel::Alias { alias, .. } => ColumnModel {
            id: None,
            name: alias,
            nullable: true,
            desc: ColumnDesc {
                column_datatype: e.return_type(),
                is_primary: false,
                is_unique: false,
            },
        },
        _ => ColumnModel {
            id: None,
            name: Seq::empty(),
            nullable: true,
            desc: ColumnDesc {
                column_datatype: e.return_type(),
                is_primary: false,
                is_unique: false,
            },
        },
    }
}

/// The values of the projections on a row, or the first failure among
/// them.
pub open spec fn project_values(projections: Seq<ExprModel>, t: TupleModel) -> Result<
    Seq<Datum>,
    StorageError,
>
    decreases projections.len(),
{
    if projections.len() == 0 {
        Ok(Seq::empty())
    } else {
        match project_values(projections.drop_last(), t) {
            Err(e) => Err(e),
            Ok(values) => match projections.last().eval(t) {
                Err(e) => Err(StorageError::TypeError(e)),
                Ok(v) => Ok(values.push(v)),
            },
        }
    }
}

/// The projection of a row: it keeps the identity of the row and has one
/// column and one value per projection.
pub open spec fn project(projections: Seq<ExprModel>, t: TupleModel) -> Result<
    TupleModel,
    StorageError,
> {
    match project_values(projections, t) {
        Err(e) => Err(e),
        Ok(values) => Ok(
            TupleModel {
                id: t.id,
                columns: Seq::new(projections.len(), |i: int| output_column(projections[i], t)),
                values,
            },
        ),
    }
}

/// A limit after one more row is yielded.
pub open spec fn decremented(limit: Option<usize>) -> Option<usize> {
    match limit {
        Some(n) if n > 0 => Some((n - 1) as usize),
        _ => limit,
    }
}

/// The model of the outcome of an operation that yields a row.
pub open spec fn tuple_result(r: Result<Tuple, StorageError>) -> Result<TupleModel, StorageError> {
    match r {
        Ok(t) => Ok(t@),
        Err(e) => Err(e),
    }
}

proof fn lemma_project_values_error(projections: Seq<ExprModel>, n: int, t: TupleModel)
    requires
        0 <= n <= projections.len(),
        project_values(projections.take(n), t) is Err,
    ensures
        project_values(projections, t) == project_values(projections.take(n), t),
    decreases projections.len() - n,
{
    if n < projections.len() {
        assert(projections.take(n + 1).drop_last() =~= projections.take(n));
        lemma_project_values_error(projections, n + 1, t);
    } else {
        assert(projections.take(n) =~= projections);
    }
}

/// Executable form of [`output_column`].
fn output_column_of(expr: &ScalarExpression, tuple: &Tuple) -> (r: ColumnRef)
    ensures
        r@ == output_column(expr@, tuple@),
{
    match expr {
        ScalarExpression::ColumnRef(c) => share(c),
        ScalarExpression::InputRef { index, .. } => {
            if *index < tuple.columns.len() {
                assert(tuple@.columns[*index as int] == tuple.columns@[*index as int]@);
                share(&tuple.columns[*index])
            } else {
                Arc::new(
                    ColumnCatalog::new(
                        String::new(),
                        true,
                        ColumnDesc::new(expr.return_type(), false, false),
                    ),
                )
            }
        },
        ScalarExpression::Alias { alias, .. } => Arc::new(
            ColumnCatalog::new(
                alias.clone(),
                true,
                ColumnDesc::new(expr.return_type(), false, false),
            ),
        ),
        _ => Arc::new(
            ColumnCatalog::new(
                String::new(),
                true,
                ColumnDesc::new(expr.return_type(), false, false),
            ),
        ),
    }
}

/// Projects a row and counts it against the limit: on success the limit, if
/// there is one above zero, is one less; on failure it is unchanged.
pub fn tuple_projection(limit: &mut Option<usize>, projections: &Projections, tuple: Tuple) -> (r:
    Result<Tuple, StorageError>)
    ensures
        tuple_result(r) == project(exprs_view(projections@), tuple@),
        *final(limit) == if r is Ok {
            decremented(*old(limit))
        } else {
            *old(limit)
        },
{
    let ghost exprs = exprs_view(projections@);
    let mut columns: Vec<ColumnRef> = Vec::with_capacity(projections.len());
    let mut values: Vec<ValueRef> = Vec::with_capacity(projections.len());
    let mut i: usize = 0;
    assert(values_view(values@) =~= Seq::empty());
    while i < projections.len()
        invariant
            i <= projections.len(),
            exprs == exprs_view(projections@),
            *limit == *old(limit),
            columns.len() == i,
            forall|j: int| 0 <= j < i ==> (#[trigger] columns@[j])@ == output_column(exprs[j], tuple@),
            project_values(exprs.take(i as int), tuple@) matches Ok(vs) && vs == values_view(
                values@,
            ),
        decreases projections.len() - i,
    {
        proof {
            assert(exprs.take(i as int + 1).drop_last() =~= exprs.take(i as int));
            assert(exprs.take(i as int + 1).last() == projections@[i as int]@);
        }
        match projections[i].eval_column(&tuple) {
            Err(e) => {
                proof {
                    lemma_project_values_error(exprs, i as int + 1, tuple@);
                }
                return Err(StorageError::TypeError(e));
            },
            Ok(v) => {
                let ghost prev = values_view(values@);
                values.push(v);
                assert(values_view(values@) =~= prev.push(v@));
            },
        }
        columns.push(output_column_of(&projections[i], &tuple));
        i = i + 1;
    }
    assert(exprs.take(projections.len() as int) =~= exprs);
    match limit {
        Some(num) => {
            if *num > 0 {
                *num = *num - 1;
            }
        },
        None => {},
    }
    let out = Tuple { id: tuple.id, columns, values };
    proof {
        assert(out@.columns =~= Seq::new(exprs.len(), |i: int| output_column(exprs[i], tuple@)));
    }
    Ok(out)
}

/// The values of a projection are the values of its expressions, in
/// order.
pub proof fn lemma_project_values(projections: Seq<ExprModel>, t: TupleModel)
    requires
        project_values(projections, t) is Ok,
    ensures
        project_values(projections, t)->Ok_0.len() == projections.len(),
        forall|k: int|
            0 <= k < projections.len() ==> (#[trigger] projections[k]).eval(t) is Ok
                && project_values(projections, t)->Ok_0[k] == projections[k].eval(t)->Ok_0,
    decreases projections.len(),
{
    if projections.len() > 0 {
        let init = projections.drop_last();
        lemma_project_values(init, t);
        assert forall|k: int| 0 <= k < projections.len() implies (#[trigger] projections[k]).eval(t)
            is Ok && project_values(projections, t)->Ok_0[k] == projections[k].eval(t)->Ok_0 by {
            if k < init.len() {
                assert(init[k] == projections[k]);
            }
        }
    }
}

/// The projection of a well-formed row by well-typed expressions that fit
/// the row is a well-formed row.
pub proof fn lemma_project_wf(projections: Seq<ExprModel>, t: TupleModel)
    requires
        t.wf(),
        forall|k: int|
            0 <= k < projections.len() ==> (#[trigger] projections[k]).well_typed()
                && projections[k].fits(t),
        project(projections, t) is Ok,
    ensures
        project(projections, t)->Ok_0.wf(),
{
    lemma_project_values(projections, t);
    let out = project(projections, t)->Ok_0;
    assert forall|k: int| 0 <= k < out.values.len() implies (#[trigger] out.values[k]).wf()
        && out.values[k].ty.castable_to(out.columns[k].datatype()) by {
        let e = projections[k];
        crate::expression_laws::lemma_eval_type(e, t);
    }
}

/// The offset of a scan with the given bounds.
pub open spec fn offset_of(bounds: Bounds) -> usize {
    match bounds.0 {
        Some(n) => n,
        None => 0usize,
    }
}

/// A scan of rows.
pub trait Iter {
    /// Whether a step of the scan fails only where its model fails.
    spec fn obeys_model() -> bool;

    /// What the scan has left to do.
    spec fn scan(&self) -> ScanModel;

    /// The next row of the scan; see [`ScanModel::next`] and
    /// [`ScanModel::stepped`]. A step that fails where the model does not
    /// says nothing of the scan.
    fn next_tuple(&mut self) -> (r: Result<Option<Tuple>, StorageError>)
        ensures
            r is Ok || Self::obeys_model() ==> step_result(r) == old(self).scan().next() && final(self).scan() == old(self).scan().stepped(),
    ;
}

/// Whether an operation on the contents of a table went as its model says:
/// if it succeeded, the contents are those of the model; if it failed, the
/// contents are unchanged; and a store that obeys its model succeeds and
/// fails exactly as the model does.
pub open spec fn went_as(
    model: Result<TableData, StorageError>,
    before: TableData,
    after: TableData,
    r: Result<(), StorageError>,
    obeys: bool,
) -> bool {
    &&& r is Ok ==> model == Ok::<TableData, StorageError>(after)
    &&& r is Err ==> after == before
    &&& obeys ==> match model {
        Ok(_) => r is Ok,
        Err(e) => r == Err::<(), StorageError>(e),
    }
}

/// A transaction on one table: a working copy of the contents of the
/// table, seen by nobody else until it is committed.
pub trait Transaction: Sized {
    type IterType<'a>: Iter where Self: 'a;

    type IndexIterType<'a>: Iter where Self: 'a;

    /// Whether the operations of the transaction fail only where their
    /// model fails.
    spec fn obeys_model() -> bool;

    /// The contents of the working copy.
    spec fn contents(&self) -> TableData;

    /// The name of the table the transaction is on.
    spec fn table_name(&self) -> Seq<char>;

    /// A scan of the rows: it skips as many rows as the first bound says,
    /// yields at most as many as the second bound says, and applies the
    /// projections to every row it yields.
    fn read(&self, bounds: Bounds, projection: Projections) -> (r: Result<
        Self::IterType<'_>,
        StorageError,
    >)
        ensures
            r matches Ok(iter) ==> iter.scan() == (ScanModel {
                rest: self.contents().rows,
                offset: offset_of(bounds),
                limit: bounds.1,
                projections: exprs_view(projection@),
            }),
            Self::obeys_model() ==> r is Ok,
    ;

    /// A scan of the rows that the index lists under a value in one of the
    /// ranges, in the order of the table.
    fn read_by_index(
        &self,
        bounds: Bounds,
        projection: Projections,
        index_meta: &IndexMeta,
        binaries: Vec<ConstantBinary>,
    ) -> (r: Result<Self::IndexIterType<'_>, StorageError>)
        ensures
            r matches Ok(iter) ==> iter.scan() == (ScanModel {
                rest: self.contents().selected(
                    index_meta.id,
                    ranges_view(binaries@),
                    self.contents().rows.len() as int,
                ),
                offset: offset_of(bounds),
                limit: bounds.1,
                projections: exprs_view(projection@),
            }),
            Self::obeys_model() ==> r is Ok,
    ;

    /// Enters rows in an index under a key; see [`TableData::add_index`].
    fn add_index(&mut self, index: Index, tuple_ids: Vec<TupleId>, is_unique: bool) -> (r: Result<
        (),
        StorageError,
    >)
        requires
            old(self).contents().wf(),
        ensures
            final(self).contents().wf(),
            final(self).table_name() == old(self).table_name(),
            went_as(
                old(self).contents().add_index(index@, values_view(tuple_ids@), is_unique),
                old(self).contents(),
                final(self).contents(),
                r,
                Self::obeys_model(),
            ),
    ;

    /// Removes the entry of a key from its index, if there is one.
    fn del_index(&mut self, index: &Index) -> (r: Result<(), StorageError>)
        requires
            old(self).contents().wf(),
        ensures
            final(self).contents().wf(),
            final(self).table_name() == old(self).table_name(),
            went_as(
                Ok(old(self).contents().del_index(index@)),
                old(self).contents(),
                final(self).contents(),
                r,
                Self::obeys_model(),
            ),
    ;

    /// Appends a row; see [`TableData::append`].
    fn append(&mut self, tuple: Tuple, is_overwrite: bool) -> (r: Result<(), StorageError>)
        requires
            old(self).contents().wf(),
        ensures
            final(self).contents().wf(),
            final(self).table_name() == old(self).table_name(),
            went_as(
                old(self).contents().append(tuple@, is_overwrite),
                old(self).contents(),
                final(self).contents(),
                r,
                Self::obeys_model(),
            ),
    ;

    /// Deletes the row identified by `tuple_id`, if there is one.
    fn delete(&mut self, tuple_id: TupleId) -> (r: Result<(), StorageError>)
        requires
            old(self).contents().wf(),
        ensures
            final(self).contents().wf(),
            final(self).table_name() == old(self).table_name(),
            went_as(
                Ok(old(self).contents().delete(tuple_id@)),
                old(self).contents(),
                final(self).contents(),
                r,
                Self::obeys_model(),
            ),
    ;
}

/// A table store: a catalog of tables and the contents of every table.
pub trait Storage: Sized {
    type TransactionType: Transaction;

    /// Whether the operations of the store fail only where their model
    /// fails.
    spec fn obeys_model() -> bool;

    /// The invariant of the store.
    spec fn wf(&self) -> bool;

    /// The tables of the store, in the order of their creation.
    spec fn catalog(&self) -> Seq<TableModel>;

    /// The contents of the tables, in the order of the catalog.
    spec fn data(&self) -> Seq<TableData>;

    /// How many more columns the store can give an identifier to.
    spec fn room(&self) -> nat;

    /// What the invariant says: every table has contents, every table and
    /// its contents are well formed, and no two tables have the same
    /// name.
    proof fn lemma_wf(&self)
        requires
            self.wf(),
        ensures
            self.data().len() == self.catalog().len(),
            forall|i: int| 0 <= i < self.catalog().len() ==> (#[trigger] self.catalog()[i]).wf(),
            forall|i: int| 0 <= i < self.data().len() ==> (#[trigger] self.data()[i]).wf(),
            forall|i: int, j: int|
                0 <= i < j < self.catalog().len() ==> (#[trigger] self.catalog()[i]).name != (
                #[trigger] self.catalog()[j]).name,
    ;

    /// Creates an empty table and returns its name; see [`creatable`] and
    /// [`table_created`]. A failure changes nothing.
    fn create_table(&mut self, table_name: TableName, columns: Vec<ColumnCatalog>) -> (r: Result<
        TableName,
        StorageError,
    >)
        requires
            old(self).wf(),
        ensures
            final(self).wf(),
            r matches Ok(name) ==> ({
                &&& name@ == table_name@
                &&& creatable(
                    (StoreModel {
                        catalog: old(self).catalog(),
                        data: old(self).data(),
                        room: old(self).room(),
                    }),
                    table_name@,
                    columns_of(columns@),
                ) is Ok
                &&& table_created(
                    (StoreModel {
                        catalog: old(self).catalog(),
                        data: old(self).data(),
                        room: old(self).room(),
                    }),
                    (StoreModel {
                        catalog: final(self).catalog(),
                        data: final(self).data(),
                        room: final(self).room(),
                    }),
                    table_name@,
                    columns_of(columns@),
                )
            }),
            r is Err ==> final(self).catalog() == old(self).catalog() && final(self).data() == old(self).data() && final(self).room() == old(self).room(),
            Self::obeys_model() ==> match creatable(
                (StoreModel {
                    catalog: old(self).catalog(),
                    data: old(self).data(),
                    room: old(self).room(),
                }),
                table_name@,
                columns_of(columns@),
            ) {
                Ok(_) => r is Ok,
                Err(e) => r == Err::<TableName, StorageError>(e),
            },
    ;

    /// Drops the table called `name` and its contents, if there is one.
    fn drop_table(&mut self, name: &String) -> (r: Result<(), StorageError>)
        requires
            old(self).wf(),
        ensures
            final(self).wf(),
            final(self).room() == old(self).room(),
            r is Ok ==> match find_table(old(self).catalog(), name@) {
                Some(i) => final(self).catalog() == old(self).catalog().remove(i) && final(self).data() == old(self).data().remove(i),
                None => final(self).catalog() == old(self).catalog() && final(self).data() == old(self).data(),
            },
            r is Err ==> final(self).catalog() == old(self).catalog() && final(self).data() == old(self).data(),
            Self::obeys_model() ==> r is Ok,
    ;

    /// Drops the rows and the index entries of the table called `name`, if
    /// there is one, and keeps the table.
    fn drop_data(&mut self, name: &String) -> (r: Result<(), StorageError>)
        requires
            old(self).wf(),
        ensures
            final(self).wf(),
            final(self).catalog() == old(self).catalog(),
            final(self).room() == old(self).room(),
            r is Ok ==> match find_table(old(self).catalog(), name@) {
                Some(i) => final(self).data() == old(self).data().update(i, TableData::empty()),
                None => final(self).data() == old(self).data(),
            },
            r is Err ==> final(self).data() == old(self).data(),
            Self::obeys_model() ==> r is Ok,
    ;

    /// A transaction on the table called `name`, if there is one: a
    /// working copy of its contents.
    fn transaction(&self, name: &String) -> (r: Option<Self::TransactionType>)
        requires
            self.wf(),
        ensures
            match find_table(self.catalog(), name@) {
                Some(i) => r matches Some(t) && t.contents() == self.data()[i] && t.contents().wf()
                    && t.table_name() == name@,
                None => r is None,
            },
    ;

    /// The metadata of the table called `name`, if there is one.
    fn table(&self, name: &String) -> (r: Option<&TableCatalog>)
        ensures
            match find_table(self.catalog(), name@) {
                Some(i) => r matches Some(t) && t@ == self.catalog()[i],
                None => r is None,
            },
    ;

    /// The names of the tables, in the order of their creation.
    fn show_tables(&self) -> (r: Result<Vec<String>, StorageError>)
        ensures
            r matches Ok(names) ==> (names.len() == self.catalog().len() && forall|i: int|
                0 <= i < names.len() ==> (#[trigger] names@[i])@ == self.catalog()[i].name),
            Self::obeys_model() ==> r is Ok,
    ;

    /// Makes the contents of a transaction the contents of its table. It
    /// fails with `TableNotFound`, and changes nothing, if the store has
    /// no table of that name any more.
    fn commit(&mut self, transaction: Self::TransactionType) -> (r: Result<(), StorageError>)
        requires
            old(self).wf(),
            transaction.contents().wf(),
        ensures
            final(self).wf(),
            final(self).catalog() == old(self).catalog(),
            final(self).room() == old(self).room(),
            r is Ok ==> (find_table(old(self).catalog(), transaction.table_name()) matches Some(i)
                && final(self).data() == old(self).data().update(i, transaction.contents())),
            r is Err ==> final(self).data() == old(self).data(),
            Self::obeys_model() ==> match find_table(
                old(self).catalog(),
                transaction.table_name(),
            ) {
                Some(_) => r is Ok,
                None => r == Err::<(), StorageError>(StorageError::TableNotFound),
            },
    ;
}

/// The model of a store.
pub struct StoreModel {
    /// The tables, in the order of their creation.
    pub catalog: Seq<TableModel>,
    /// The contents of the tables, in the order of the catalog.
    pub data: Seq<TableData>,
    /// How many more columns can be given an identifier.
    pub room: nat,
}

/// The model of a store.
pub open spec fn model_of<S: Storage>(store: S) -> StoreModel {
    StoreModel { catalog: store.catalog(), data: store.data(), room: store.room() }
}

/// Whether a store can take a new table: the name of the table, or why it
/// cannot. It fails with `TableExists` if the store has a table of that
/// name, and otherwise with `InvalidSchema` unless exactly one column is
/// the primary key and the store has identifiers left for the columns.
pub open spec fn creatable(store: StoreModel, name: Seq<char>, columns: Seq<ColumnModel>) -> Result<
    Seq<char>,
    StorageError,
> {
    if find_table(store.catalog, name) is Some {
        Err(StorageError::TableExists)
    } else if count_primary(columns, columns.len() as int) != 1 || columns.len() > store.room {
        Err(StorageError::InvalidSchema)
    } else {
        Ok(name)
    }
}

/// Whether `after` is `before` with a new, empty table of the given name
/// and columns at the end; the columns are given the next free
/// identifiers.
pub open spec fn table_created(
    before: StoreModel,
    after: StoreModel,
    name: Seq<char>,
    columns: Seq<ColumnModel>,
) -> bool {
    &&& after.catalog.len() == before.catalog.len() + 1
    &&& after.catalog.drop_last() == before.catalog
    &&& after.catalog.last().name == name
    &&& after.catalog.last().first_id == u32::MAX - before.room
    &&& after.catalog.last().columns == with_ids(columns, after.catalog.last().first_id)
    &&& after.room == before.room - columns.len()
    &&& after.data == before.data.push(TableData::empty())
}

} // verus!
