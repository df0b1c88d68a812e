//! A table store that keeps everything in memory.
//!
//! A transaction is a working copy of one table. What it changes is seen by
//! nobody else until it is committed, and committing consumes it.

use crate::catalog::{
    columns_of, count_primary, find_table, lemma_find_table_from, with_ids, ColumnCatalog, IndexId,
    IndexMeta, RootCatalog, TableCatalog, TableModel, TableName,
};
use crate::errors::StorageError;
use crate::expression::exprs_view;
use crate::storage::model::{
    at_least, entry_lists, find_entry, find_entry_from, find_row, find_row_from, in_range,
    in_ranges, lemma_find_entry_from, lemma_find_row_from, listed, ranges_view, step_result,
    ConstantBinary, IndexEntryModel, ScanModel, TableData,
};
use crate::storage::{tuple_projection, Bounds, Index, Iter, Projections, Storage, Transaction};
use crate::tuple::{option_view, share_values, tuples_view, values_view, Tuple, TupleId, TupleModel};
use crate::types::{DataValue, ValueRef};
use crate::value_compute::value_lt;
use vstd::prelude::*;

verus! {

/// An entry of an index: a key and the rows that have it.
#[derive(Debug)]
pub struct IndexEntry {
    pub index: Index,
    pub tuple_ids: Vec<TupleId>,
}

impl View for IndexEntry {
    type V = IndexEntryModel;

    open spec fn view(&self) -> IndexEntryModel {
        IndexEntryModel { key: self.index@, tuple_ids: values_view(self.tuple_ids@) }
    }
}

/// The models of a list of index entries.
pub open spec fn entries_view(entries: Seq<IndexEntry>) -> Seq<IndexEntryModel> {
    entries.map_values(|e: IndexEntry| e@)
}

/// Whether two optional values are the same.
fn same_id(a: &Option<ValueRef>, b: &Option<ValueRef>) -> (r: bool)
    ensures
        r == (option_view(*a) == option_view(*b)),
{
    match (a, b) {
        (None, None) => true,
        (Some(x), Some(y)) => x.same(y),
        _ => false,
    }
}

/// Whether two lists of values are the same.
fn same_values(a: &Vec<ValueRef>, b: &Vec<ValueRef>) -> (r: bool)
    ensures
        r == (values_view(a@) == values_view(b@)),
{
    if a.len() != b.len() {
        return false;
    }
    let mut i: usize = 0;
    while i < a.len()
        invariant
            i <= a.len(),
            a.len() == b.len(),
            forall|j: int| 0 <= j < i ==> a@[j]@ == b@[j]@,
        decreases a.len() - i,
    {
        if !a[i].same(&b[i]) {
            assert(values_view(a@)[i as int] != values_view(b@)[i as int]);
            return false;
        }
        i = i + 1;
    }
    assert(values_view(a@) =~= values_view(b@));
    true
}

/// Whether two keys of an index are the same.
fn same_key(a: &Index, b: &Index) -> (r: bool)
    ensures
        r == (a@ == b@),
{
    a.id == b.id && same_values(&a.column_values, &b.column_values)
}

/// A transaction on one table of a [`MemStorage`]: a working copy of the
/// contents of the table.
#[derive(Debug)]
pub struct MemTable {
    name: TableName,
    tuples: Vec<Tuple>,
    indexes: Vec<IndexEntry>,
}

impl View for MemTable {
    type V = TableData;

    closed spec fn view(&self) -> TableData {
        TableData { rows: tuples_view(self.tuples@), entries: entries_view(self.indexes@) }
    }
}

impl MemTable {
    /// The name of the table the transaction is on.
    pub closed spec fn table_name(&self) -> Seq<char> {
        self.name@
    }

    /// The empty contents of a table called `name`.
    fn empty(name: TableName) -> (r: MemTable)
        ensures
            r@ == TableData::empty(),
            r@.wf(),
            r.table_name() == name@,
    {
        let r = MemTable { name, tuples: Vec::new(), indexes: Vec::new() };
        proof {
            assert(r@.rows =~= Seq::empty());
            assert(r@.entries =~= Seq::empty());
        }
        r
    }

    /// A copy of the contents.
    fn duplicate(&self) -> (r: MemTable)
        ensures
            r@ == self@,
            r.table_name() == self.table_name(),
    {
        let mut tuples: Vec<Tuple> = Vec::with_capacity(self.tuples.len());
        let mut i: usize = 0;
        while i < self.tuples.len()
            invariant
                i <= self.tuples.len(),
                tuples.len() == i,
                forall|j: int| 0 <= j < i ==> (#[trigger] tuples@[j])@ == self.tuples@[j]@,
            decreases self.tuples.len() - i,
        {
            tuples.push(self.tuples[i].duplicate());
            i = i + 1;
        }
        let mut indexes: Vec<IndexEntry> = Vec::with_capacity(self.indexes.len());
        let mut k: usize = 0;
        while k < self.indexes.len()
            invariant
                k <= self.indexes.len(),
                indexes.len() == k,
                forall|j: int| 0 <= j < k ==> (#[trigger] indexes@[j])@ == self.indexes@[j]@,
            decreases self.indexes.len() - k,
        {
            let entry = &self.indexes[k];
            indexes.push(
                IndexEntry {
                    index: Index {
                        id: entry.index.id,
                        column_values: share_values(&entry.index.column_values),
                    },
                    tuple_ids: share_values(&entry.tuple_ids),
                },
            );
            k = k + 1;
        }
        let r = MemTable { name: self.name.clone(), tuples, indexes };
        proof {
            assert(r@.rows =~= self@.rows);
            assert(r@.entries =~= self@.entries);
        }
        r
    }

    /// The number of rows.
    pub fn len(&self) -> (r: usize)
        ensures
            r == self@.rows.len(),
    {
        self.tuples.len()
    }

    /// The position of the row identified by `id`.
    fn position(&self, id: &Option<ValueRef>) -> (r: Option<usize>)
        ensures
            match r {
                Some(i) => find_row(self@.rows, option_view(*id)) == Some(i as int) && i
                    < self.tuples.len(),
                None => find_row(self@.rows, option_view(*id)) is None,
            },
    {
        let mut i: usize = 0;
        while i < self.tuples.len()
            invariant
                i <= self.tuples.len(),
                find_row(self@.rows, option_view(*id)) == find_row_from(
                    self@.rows,
                    option_view(*id),
                    i as int,
                ),
            decreases self.tuples.len() - i,
        {
            assert(self@.rows[i as int] == self.tuples@[i as int]@);
            if same_id(&self.tuples[i].id, id) {
                return Some(i);
            }
            i = i + 1;
        }
        None
    }

    /// The position of the entry that has the key.
    fn entry_position(&self, key: &Index) -> (r: Option<usize>)
        ensures
            match r {
                Some(i) => find_entry(self@.entries, key@) == Some(i as int) && i
                    < self.indexes.len(),
                None => find_entry(self@.entries, key@) is None,
            },
    {
        let mut i: usize = 0;
        while i < self.indexes.len()
            invariant
                i <= self.indexes.len(),
                find_entry(self@.entries, key@) == find_entry_from(self@.entries, key@, i as int),
            decreases self.indexes.len() - i,
        {
            assert(self@.entries[i as int] == self.indexes@[i as int]@);
            if same_key(&self.indexes[i].index, key) {
                return Some(i);
            }
            i = i + 1;
        }
        None
    }

    /// A scan of the rows: it skips as many rows as the first bound says,
    /// yields at most as many as the second bound says, and applies the
    /// projections to every row it yields.
    pub fn read(&self, bounds: Bounds, projection: Projections) -> (r: Result<
        MemTraction<'_>,
        StorageError,
    >)
        ensures
            r matches Ok(iter) && iter@ == (ScanModel {
                rest: self@.rows,
                offset: match bounds.0 {
                    Some(n) => n,
                    None => 0usize,
                },
                limit: bounds.1,
                projections: exprs_view(projection@),
            }),
    {
        let iter = MemTraction {
            offset: match bounds.0 {
                Some(n) => n,
                None => 0,
            },
            limit: bounds.1,
            projections: projection,
            tuples: &self.tuples,
            position: 0,
        };
        assert(iter@.rest =~= self@.rows);
        Ok(iter)
    }

    /// Appends a row; see [`TableData::append`]. A failed append leaves the
    /// contents unchanged.
    pub fn append(&mut self, tuple: Tuple, is_overwrite: bool) -> (r: Result<(), StorageError>)
        requires
            old(self)@.wf(),
        ensures
            final(self)@.wf(),
            final(self).table_name() == old(self).table_name(),
            match old(self)@.append(tuple@, is_overwrite) {
                Ok(data) => r is Ok && final(self)@ == data,
                Err(e) => r == Err::<(), StorageError>(e) && final(self)@ == old(self)@,
            },
    {
        let ghost before = self@;
        proof {
            lemma_find_row_from(before.rows, tuple@.id, 0);
        }
        match self.position(&tuple.id) {
            Some(i) => {
                if !is_overwrite {
                    return Err(StorageError::DuplicatePrimaryKey);
                }
                self.tuples.set(i, tuple);
                proof {
                    assert(self@.rows =~= before.rows.update(i as int, tuple@));
                    assert(self@.entries == before.entries);
                }
            },
            None => {
                self.tuples.push(tuple);
                proof {
                    assert(self@.rows =~= before.rows.push(tuple@));
                    assert(self@.entries == before.entries);
                }
            },
        }
        Ok(())
    }

    /// Deletes the row identified by `tuple_id`, if there is one.
    pub fn delete(&mut self, tuple_id: TupleId) -> (r: Result<(), StorageError>)
        requires
            old(self)@.wf(),
        ensures
            r is Ok,
            final(self)@.wf(),
            final(self).table_name() == old(self).table_name(),
            final(self)@ == old(self)@.delete(tuple_id@),
    {
        let ghost before = self@;
        let id = Some(tuple_id);
        match self.position(&id) {
            Some(i) => {
                self.tuples.remove(i);
                proof {
                    assert(self@.rows =~= before.rows.remove(i as int));
                    assert(self@.entries == before.entries);
                    assert forall|a: int, b: int| 0 <= a < b < self@.rows.len() implies (
                    #[trigger] self@.rows[a]).id != (#[trigger] self@.rows[b]).id by {
                        let x = if a < i {
                            a
                        } else {
                            a + 1
                        };
                        let y = if b < i {
                            b
                        } else {
                            b + 1
                        };
                        assert(self@.rows[a] == before.rows[x]);
                        assert(self@.rows[b] == before.rows[y]);
                    }
                }
            },
            None => {},
        }
        Ok(())
    }

    /// Enters rows in an index under a key; see [`TableData::add_index`]. A
    /// failure leaves the contents unchanged.
    pub fn add_index(&mut self, index: Index, tuple_ids: Vec<TupleId>, is_unique: bool) -> (r:
        Result<(), StorageError>)
        requires
            old(self)@.wf(),
        ensures
            final(self)@.wf(),
            final(self).table_name() == old(self).table_name(),
            match old(self)@.add_index(index@, values_view(tuple_ids@), is_unique) {
                Ok(data) => r is Ok && final(self)@ == data,
                Err(e) => r == Err::<(), StorageError>(e) && final(self)@ == old(self)@,
            },
    {
        let ghost before = self@;
        let ghost key = index@;
        proof {
            lemma_find_entry_from(before.entries, key, 0);
        }
        match self.entry_position(&index) {
            None => {
                self.indexes.push(IndexEntry { index, tuple_ids });
                proof {
                    assert(self@.entries =~= before.entries.push(
                        IndexEntryModel { key, tuple_ids: values_view(tuple_ids@) },
                    ));
                    assert(self@.rows == before.rows);
                }
                Ok(())
            },
            Some(i) => {
                if !is_unique {
                    let mut merged = share_values(&self.indexes[i].tuple_ids);
                    let ghost first = values_view(merged@);
                    let mut more = tuple_ids;
                    let ghost second = values_view(more@);
                    merged.append(&mut more);
                    assert(values_view(merged@) =~= first + second);
                    self.indexes.set(i, IndexEntry { index, tuple_ids: merged });
                    proof {
                        assert(self@.entries =~= before.entries.update(
                            i as int,
                            IndexEntryModel { key, tuple_ids: first + second },
                        ));
                        assert(self@.rows == before.rows);
                    }
                    Ok(())
                } else if same_values(&self.indexes[i].tuple_ids, &tuple_ids) {
                    Ok(())
                } else {
                    Err(StorageError::DuplicateUniqueKey)
                }
            },
        }
    }

    /// Removes the entry of a key from its index, if there is one.
    pub fn del_index(&mut self, index: &Index) -> (r: Result<(), StorageError>)
        requires
            old(self)@.wf(),
        ensures
            r is Ok,
            final(self)@.wf(),
            final(self).table_name() == old(self).table_name(),
            final(self)@ == old(self)@.del_index(index@),
    {
        let ghost before = self@;
        match self.entry_position(index) {
            Some(i) => {
                self.indexes.remove(i);
                proof {
                    assert(self@.entries =~= before.entries.remove(i as int));
                    assert(self@.rows == before.rows);
                    assert forall|a: int, b: int| 0 <= a < b < self@.entries.len() implies (
                    #[trigger] self@.entries[a]).key != (#[trigger] self@.entries[b]).key by {
                        let x = if a < i {
                            a
                        } else {
                            a + 1
                        };
                        let y = if b < i {
                            b
                        } else {
                            b + 1
                        };
                        assert(self@.entries[a] == before.entries[x]);
                        assert(self@.entries[b] == before.entries[y]);
                    }
                }
            },
            None => {},
        }
        Ok(())
    }

    /// Makes the contents of the transaction the contents of its table.
    /// Fails with `TableNotFound`, and changes nothing, if the store has no
    /// table of that name any more.
    pub fn commit(self, storage: &mut MemStorage) -> (r: Result<(), StorageError>)
        requires
            old(storage).wf(),
            self@.wf(),
        ensures
            final(storage).wf(),
            final(storage).catalog() == old(storage).catalog(),
            final(storage).room() == old(storage).room(),
            match find_table(old(storage).catalog(), self.table_name()) {
                Some(i) => r is Ok && final(storage).data() == old(storage).data().update(i, self@),
                None => r == Err::<(), StorageError>(StorageError::TableNotFound) && final(storage).data() == old(storage).data(),
            },
    {
        let ghost before = storage.data();
        let ghost tables = storage.tables@;
        proof {
            lemma_find_table_from(storage.root@, self.name@, 0);
        }
        match storage.root.table_position(&self.name) {
            Some(i) => {
                let ghost data = self@;
                storage.tables.set(i, self);
                proof {
                    assert(storage.data() =~= before.update(i as int, data));
                    assert forall|k: int| 0 <= k < storage.tables.len() implies (
                    #[trigger] storage.tables@[k])@.wf() && storage.tables@[k].table_name()
                        == storage.root@[k].name by {
                        if k != i {
                            assert(storage.tables@[k] == tables[k]);
                        }
                    }
                }
                Ok(())
            },
            None => Err(StorageError::TableNotFound),
        }
    }
}

/// A scan of a [`MemTable`].
pub struct MemTraction<'a> {
    offset: usize,
    limit: Option<usize>,
    projections: Projections,
    tuples: &'a Vec<Tuple>,
    position: usize,
}

impl<'a> View for MemTraction<'a> {
    type V = ScanModel;

    closed spec fn view(&self) -> ScanModel {
        ScanModel {
            rest: if self.position <= self.tuples.len() {
                tuples_view(self.tuples@).skip(self.position as int)
            } else {
                Seq::empty()
            },
            offset: self.offset,
            limit: self.limit,
            projections: exprs_view(self.projections@),
        }
    }
}

impl<'a> MemTraction<'a> {
    /// The next row of the scan; see [`ScanModel::next`] and
    /// [`ScanModel::stepped`].
    pub fn next_tuple(&mut self) -> (r: Result<Option<Tuple>, StorageError>)
        ensures
            step_result(r) == old(self)@.next(),
            final(self)@ == old(self)@.stepped(),
    {
        let ghost before = self@;
        let ghost rows = tuples_view(self.tuples@);
        if self.position > self.tuples.len() {
            self.position = self.tuples.len();
        }
        assert(self@.rest =~= before.rest);
        if self.offset > self.tuples.len() - self.position {
            self.position = self.tuples.len();
        } else {
            self.position = self.position + self.offset;
        }
        self.offset = 0;
        assert(self@.rest =~= before.skipped());
        if let Some(num) = self.limit {
            if num == 0 {
                return Ok(None);
            }
        }
        if self.position >= self.tuples.len() {
            return Ok(None);
        }
        let tuple = self.tuples[self.position].duplicate();
        assert(tuple@ == before.skipped()[0]);
        self.position = self.position + 1;
        assert(self@.rest =~= before.skipped().skip(1));
        match tuple_projection(&mut self.limit, &self.projections, tuple) {
            Ok(t) => Ok(Some(t)),
            Err(e) => Err(e),
        }
    }
}

/// A table store in memory: the catalog and, for every table of it, the
/// contents of the table.
#[derive(Debug)]
pub struct MemStorage {
    root: RootCatalog,
    tables: Vec<MemTable>,
}

/// The contents of a list of tables.
pub open spec fn data_view(tables: Seq<MemTable>) -> Seq<TableData> {
    tables.map_values(|t: MemTable| t@)
}

impl MemStorage {
    /// The tables of the store, in the order of their creation.
    pub closed spec fn catalog(&self) -> Seq<TableModel> {
        self.root@
    }

    /// The contents of the tables, in the order of the catalog.
    pub closed spec fn data(&self) -> Seq<TableData> {
        data_view(self.tables@)
    }

    /// The invariant of the store: the catalog is well formed, and every
    /// table of it has contents that are well formed.
    pub closed spec fn wf(&self) -> bool {
        &&& self.root.wf()
        &&& self.tables.len() == self.root@.len()
        &&& forall|i: int|
            0 <= i < self.tables.len() ==> (#[trigger] self.tables@[i])@.wf() && self.tables@[i].table_name()
                == self.root@[i].name
    }

    /// What the invariant says of the catalog and of the contents.
    pub proof fn lemma_wf(&self)
        requires
            self.wf(),
        ensures
            self.data().len() == self.catalog().len(),
            forall|i: int| 0 <= i < self.catalog().len() ==> (#[trigger] self.catalog()[i]).wf(),
            forall|i: int| 0 <= i < self.data().len() ==> (#[trigger] self.data()[i]).wf(),
            forall|i: int, j: int|
                0 <= i < j < self.catalog().len() ==> (#[trigger] self.catalog()[i]).name != (
                #[trigger] self.catalog()[j]).name,
    {
        self.root.lemma_wf();
        assert forall|i: int| 0 <= i < self.data().len() implies (#[trigger] self.data()[i]).wf() by {
            assert(self.data()[i] == self.tables@[i]@);
        }
    }

    /// A store without tables.
    pub fn new() -> (r: MemStorage)
        ensures
            r.wf(),
            r.catalog() == Seq::<TableModel>::empty(),
            r.data() == Seq::<TableData>::empty(),
            r.room() == u32::MAX,
    {
        let r = MemStorage { root: RootCatalog::new(), tables: Vec::new() };
        assert(r.data() =~= Seq::empty());
        r
    }

    /// The store with its catalog replaced by `root`: it has the tables of
    /// `root`, and all of them are empty.
    pub fn root(self, root: RootCatalog) -> (r: MemStorage)
        requires
            root.wf(),
        ensures
            r.wf(),
            r.catalog() == root@,
            r.room() == root.room(),
            r.data().len() == root@.len(),
            forall|i: int| 0 <= i < r.data().len() ==> (#[trigger] r.data()[i]) == TableData::empty(),
    {
        let mut tables: Vec<MemTable> = Vec::with_capacity(root.len());
        let mut i: usize = 0;
        while i < root.len()
            invariant
                i <= root@.len(),
                tables.len() == i,
                forall|j: int|
                    0 <= j < i ==> {
                        &&& (#[trigger] tables@[j])@ == TableData::empty()
                        &&& tables@[j]@.wf()
                        &&& tables@[j].table_name() == root@[j].name
                    },
            decreases root@.len() - i,
        {
            tables.push(MemTable::empty(root.table_at(i).name().clone()));
            i = i + 1;
        }
        let r = MemStorage { root, tables };
        proof {
            assert forall|i: int| 0 <= i < r.data().len() implies (#[trigger] r.data()[i])
                == TableData::empty() by {
                assert(r.data()[i] == r.tables@[i]@);
            }
        }
        r
    }

    /// Creates an empty table and returns its name. Fails with
    /// `TableExists` if the store has a table of that name, and otherwise
    /// with `InvalidSchema` unless exactly one column is the primary key and
    /// the catalog has identifiers left for the columns. A failure changes
    /// nothing.
    pub fn create_table(&mut self, table_name: TableName, columns: Vec<ColumnCatalog>) -> (r:
        Result<TableName, StorageError>)
        requires
            old(self).wf(),
        ensures
            final(self).wf(),
            match r {
                Ok(name) => {
                    &&& name@ == table_name@
                    &&& find_table(old(self).catalog(), table_name@) is None
                    &&& count_primary(columns_of(columns@), columns.len() as int) == 1
                    &&& columns.len() <= old(self).room()
                    &&& final(self).catalog().len() == old(self).catalog().len() + 1
                    &&& final(self).catalog().drop_last() == old(self).catalog()
                    &&& final(self).catalog().last().name == table_name@
                    &&& final(self).catalog().last().first_id == u32::MAX - old(self).room()
                    &&& final(self).catalog().last().columns == with_ids(
                        columns_of(columns@),
                        final(self).catalog().last().first_id,
                    )
                    &&& final(self).room() == old(self).room() - columns.len()
                    &&& final(self).data() == old(self).data().push(TableData::empty())
                },
                Err(e) => {
                    &&& final(self).catalog() == old(self).catalog()
                    &&& final(self).data() == old(self).data()
                    &&& final(self).room() == old(self).room()
                    &&& if find_table(old(self).catalog(), table_name@) is Some {
                        e == StorageError::TableExists
                    } else {
                        &&& e == StorageError::InvalidSchema
                        &&& (count_primary(columns_of(columns@), columns.len() as int) != 1
                            || columns.len() > old(self).room())
                    }
                },
            },
    {
        let ghost before = self.data();
        let name = table_name.clone();
        let table_id = match self.root.add_table(table_name, columns) {
            Err(e) => {
                return Err(e);
            },
            Ok(id) => id,
        };
        self.tables.push(MemTable::empty(name));
        proof {
            assert(self.data() =~= before.push(TableData::empty()));
            assert forall|i: int| 0 <= i < self.tables.len() implies (#[trigger] self.tables@[i])@.wf()
                && self.tables@[i].table_name() == self.root@[i].name by {
                if i < before.len() {
                    assert(self.root@[i] == self.root@.drop_last()[i]);
                }
            }
        }
        Ok(table_id)
    }

    /// How many more columns the catalog can give an identifier to.
    pub closed spec fn room(&self) -> nat {
        self.root.room()
    }

    /// Drops the table called `name` and its contents, if there is one.
    pub fn drop_table(&mut self, name: &String) -> (r: Result<(), StorageError>)
        requires
            old(self).wf(),
        ensures
            r is Ok,
            final(self).wf(),
            final(self).room() == old(self).room(),
            match find_table(old(self).catalog(), name@) {
                Some(i) => final(self).catalog() == old(self).catalog().remove(i) && final(self).data() == old(self).data().remove(i),
                None => final(self).catalog() == old(self).catalog() && final(self).data() == old(self).data(),
            },
    {
        let ghost before = self.data();
        let ghost tables = self.tables@;
        let ghost catalog = self.root@;
        match self.root.table_position(name) {
            Some(i) => {
                self.root.remove_at(i);
                self.tables.remove(i);
                proof {
                    assert(self.data() =~= before.remove(i as int));
                    assert forall|k: int| 0 <= k < self.tables.len() implies (
                    #[trigger] self.tables@[k])@.wf() && self.tables@[k].table_name()
                        == self.root@[k].name by {
                        if k < i {
                            assert(self.tables@[k] == tables[k]);
                            assert(self.root@[k] == catalog[k]);
                        } else {
                            assert(self.tables@[k] == tables[k + 1]);
                            assert(self.root@[k] == catalog[k + 1]);
                        }
                    }
                }
            },
            None => {},
        }
        Ok(())
    }

    /// Drops the rows and the index entries of the table called `name`, if
    /// there is one, and keeps the table.
    pub fn drop_data(&mut self, name: &String) -> (r: Result<(), StorageError>)
        requires
            old(self).wf(),
        ensures
            r is Ok,
            final(self).wf(),
            final(self).catalog() == old(self).catalog(),
            final(self).room() == old(self).room(),
            match find_table(old(self).catalog(), name@) {
                Some(i) => final(self).data() == old(self).data().update(i, TableData::empty()),
                None => final(self).data() == old(self).data(),
            },
    {
        let ghost before = self.data();
        match self.root.table_position(name) {
            Some(i) => {
                self.tables.set(i, MemTable::empty(self.root.table_at(i).name().clone()));
                proof {
                    assert(self.data() =~= before.update(i as int, TableData::empty()));
                }
            },
            None => {},
        }
        Ok(())
    }

    /// A transaction on the table called `name`, if there is one: a working
    /// copy of its contents.
    pub fn transaction(&self, name: &String) -> (r: Option<MemTable>)
        requires
            self.wf(),
        ensures
            match find_table(self.catalog(), name@) {
                Some(i) => r matches Some(t) && t@ == self.data()[i] && t@.wf() && t.table_name()
                    == name@,
                None => r is None,
            },
    {
        proof {
            lemma_find_table_from(self.root@, name@, 0);
        }
        match self.root.table_position(name) {
            Some(i) => {
                assert(self.data()[i as int] == self.tables@[i as int]@);
                Some(self.tables[i].duplicate())
            },
            None => None,
        }
    }

    /// The metadata of the table called `name`, if there is one.
    pub fn table(&self, name: &String) -> (r: Option<&TableCatalog>)
        ensures
            match find_table(self.catalog(), name@) {
                Some(i) => r matches Some(t) && t@ == self.catalog()[i],
                None => r is None,
            },
    {
        self.root.get_table(name)
    }

    /// The names of the tables, in the order of their creation.
    pub fn show_tables(&self) -> (r: Result<Vec<String>, StorageError>)
        ensures
            r matches Ok(names) && names.len() == self.catalog().len() && forall|i: int|
                0 <= i < names.len() ==> (#[trigger] names@[i])@ == self.catalog()[i].name,
    {
        let mut names: Vec<String> = Vec::with_capacity(self.root.len());
        let mut i: usize = 0;
        while i < self.root.len()
            invariant
                i <= self.root@.len(),
                names.len() == i,
                forall|j: int| 0 <= j < i ==> (#[trigger] names@[j])@ == self.root@[j].name,
            decreases self.root@.len() - i,
        {
            names.push(self.root.table_at(i).name().clone());
            i = i + 1;
        }
        Ok(names)
    }
}

fn at_least_exec(a: &DataValue, b: &DataValue) -> (r: bool)
    ensures
        r == at_least(a@, b@),
{
    a.logical_type() == b.logical_type() && !a.is_null() && !b.is_null() && !value_lt(a, b)
}

fn in_range_exec(range: &ConstantBinary, v: &DataValue) -> (r: bool)
    ensures
        r == in_range(range@, v@),
{
    if v.is_null() {
        return false;
    }
    match range {
        ConstantBinary::Eq(x) => v.same(x),
        ConstantBinary::Scope { min, max } => {
            let above = match min {
                Some(low) => at_least_exec(v, low),
                None => true,
            };
            let below = match max {
                Some(high) => at_least_exec(high, v),
                None => true,
            };
            above && below
        },
    }
}

fn in_ranges_exec(ranges: &Vec<ConstantBinary>, v: &DataValue) -> (r: bool)
    ensures
        r == in_ranges(ranges_view(ranges@), v@),
{
    let mut k: usize = 0;
    while k < ranges.len()
        invariant
            k <= ranges.len(),
            forall|j: int| 0 <= j < k ==> !in_range(#[trigger] ranges_view(ranges@)[j], v@),
        decreases ranges.len() - k,
    {
        assert(ranges_view(ranges@)[k as int] == ranges@[k as int]@);
        if in_range_exec(&ranges[k], v) {
            return true;
        }
        k = k + 1;
    }
    false
}

fn entry_lists_exec(
    entry: &IndexEntry,
    index: IndexId,
    ranges: &Vec<ConstantBinary>,
    id: &Option<ValueRef>,
) -> (r: bool)
    ensures
        r == entry_lists(entry@, index, ranges_view(ranges@), option_view(*id)),
{
    if entry.index.id != index || entry.index.column_values.len() != 1 {
        return false;
    }
    assert(entry@.key.column_values[0] == entry.index.column_values@[0]@);
    if !in_ranges_exec(ranges, &entry.index.column_values[0]) {
        return false;
    }
    let wanted = match id {
        Some(v) => v,
        None => {
            return false;
        },
    };
    let mut j: usize = 0;
    while j < entry.tuple_ids.len()
        invariant
            j <= entry.tuple_ids.len(),
            option_view(*id) == Some(wanted@),
            entry@.key.id == index,
            entry@.key.column_values.len() == 1,
            in_ranges(ranges_view(ranges@), entry@.key.column_values[0]),
            forall|i: int| 0 <= i < j ==> Some(wanted@) != Some(#[trigger] entry@.tuple_ids[i]),
        decreases entry.tuple_ids.len() - j,
    {
        assert(entry@.tuple_ids[j as int] == entry.tuple_ids@[j as int]@);
        if entry.tuple_ids[j].same(wanted) {
            return true;
        }
        j = j + 1;
    }
    false
}

/// A scan of the rows of a [`MemTable`] that an index lists.
pub struct IndexIter<'a> {
    offset: usize,
    limit: Option<usize>,
    projections: Projections,
    tuples: Vec<&'a Tuple>,
    position: usize,
}

/// The models of the rows a list of references points to.
pub open spec fn refs_view(tuples: Seq<&Tuple>) -> Seq<TupleModel> {
    tuples.map_values(|t: &Tuple| t@)
}

impl<'a> View for IndexIter<'a> {
    type V = ScanModel;

    closed spec fn view(&self) -> ScanModel {
        ScanModel {
            rest: if self.position <= self.tuples.len() {
                refs_view(self.tuples@).skip(self.position as int)
            } else {
                Seq::empty()
            },
            offset: self.offset,
            limit: self.limit,
            projections: exprs_view(self.projections@),
        }
    }
}

impl<'a> IndexIter<'a> {
    /// The next row of the scan; see [`ScanModel::next`] and
    /// [`ScanModel::stepped`].
    pub fn next_tuple(&mut self) -> (r: Result<Option<Tuple>, StorageError>)
        ensures
            step_result(r) == old(self)@.next(),
            final(self)@ == old(self)@.stepped(),
    {
        let ghost before = self@;
        if self.position > self.tuples.len() {
            self.position = self.tuples.len();
        }
        assert(self@.rest =~= before.rest);
        if self.offset > self.tuples.len() - self.position {
            self.position = self.tuples.len();
        } else {
            self.position = self.position + self.offset;
        }
        self.offset = 0;
        assert(self@.rest =~= before.skipped());
        if let Some(num) = self.limit {
            if num == 0 {
                return Ok(None);
            }
        }
        if self.position >= self.tuples.len() {
            return Ok(None);
        }
        let tuple = self.tuples[self.position].duplicate();
        assert(tuple@ == before.skipped()[0]);
        self.position = self.position + 1;
        assert(self@.rest =~= before.skipped().skip(1));
        match tuple_projection(&mut self.limit, &self.projections, tuple) {
            Ok(t) => Ok(Some(t)),
            Err(e) => Err(e),
        }
    }
}

impl MemTable {
    /// Whether some entry of the index lists the row under a value that
    /// lies in one of the ranges.
    fn lists(&self, index: IndexId, ranges: &Vec<ConstantBinary>, id: &Option<ValueRef>) -> (r:
        bool)
        ensures
            r == listed(self@.entries, index, ranges_view(ranges@), option_view(*id)),
    {
        let mut k: usize = 0;
        while k < self.indexes.len()
            invariant
                k <= self.indexes.len(),
                forall|j: int|
                    0 <= j < k ==> !entry_lists(
                        #[trigger] self@.entries[j],
                        index,
                        ranges_view(ranges@),
                        option_view(*id),
                    ),
            decreases self.indexes.len() - k,
        {
            assert(self@.entries[k as int] == self.indexes@[k as int]@);
            if entry_lists_exec(&self.indexes[k], index, ranges, id) {
                return true;
            }
            k = k + 1;
        }
        false
    }

    /// A scan of the rows that the index `index_meta` lists under a value
    /// in one of the ranges, in the order of the table; the bounds and the
    /// projections apply to it as they do to [`Self::read`].
    pub fn read_by_index(
        &self,
        bounds: Bounds,
        projection: Projections,
        index_meta: &IndexMeta,
        binaries: Vec<ConstantBinary>,
    ) -> (r: Result<IndexIter<'_>, StorageError>)
        ensures
            r matches Ok(iter) && iter@ == (ScanModel {
                rest: self@.selected(
                    index_meta.id,
                    ranges_view(binaries@),
                    self@.rows.len() as int,
                ),
                offset: match bounds.0 {
                    Some(n) => n,
                    None => 0usize,
                },
                limit: bounds.1,
                projections: exprs_view(projection@),
            }),
    {
        let ghost ranges = ranges_view(binaries@);
        let mut tuples: Vec<&Tuple> = Vec::new();
        let mut i: usize = 0;
        assert(refs_view(tuples@) =~= self@.selected(index_meta.id, ranges, 0));
        while i < self.tuples.len()
            invariant
                i <= self.tuples.len(),
                ranges == ranges_view(binaries@),
                refs_view(tuples@) == self@.selected(index_meta.id, ranges, i as int),
            decreases self.tuples.len() - i,
        {
            assert(self@.rows[i as int] == self.tuples@[i as int]@);
            if self.lists(index_meta.id, &binaries, &self.tuples[i].id) {
                let ghost prev = refs_view(tuples@);
                tuples.push(&self.tuples[i]);
                assert(refs_view(tuples@) =~= prev.push(self.tuples@[i as int]@));
            }
            i = i + 1;
        }
        let iter = IndexIter {
            offset: match bounds.0 {
                Some(n) => n,
                None => 0,
            },
            limit: bounds.1,
            projections: projection,
            tuples,
            position: 0,
        };
        assert(iter@.rest =~= self@.selected(index_meta.id, ranges, self@.rows.len() as int));
        Ok(iter)
    }
}

impl<'a> Iter for MemTraction<'a> {
    open spec fn obeys_model() -> bool {
        true
    }

    open spec fn scan(&self) -> ScanModel {
        self@
    }

    fn next_tuple(&mut self) -> (r: Result<Option<Tuple>, StorageError>) {
        MemTraction::next_tuple(self)
    }
}

impl<'a> Iter for IndexIter<'a> {
    open spec fn obeys_model() -> bool {
        true
    }

    open spec fn scan(&self) -> ScanModel {
        self@
    }

    fn next_tuple(&mut self) -> (r: Result<Option<Tuple>, StorageError>) {
        IndexIter::next_tuple(self)
    }
}

impl Transaction for MemTable {
    type IterType<'a> = MemTraction<'a>;

    type IndexIterType<'a> = IndexIter<'a>;

    open spec fn obeys_model() -> bool {
        true
    }

    open spec fn contents(&self) -> TableData {
        self@
    }

    open spec fn table_name(&self) -> Seq<char> {
        MemTable::table_name(self)
    }

    fn read(&self, bounds: Bounds, projection: Projections) -> (r: Result<
        MemTraction<'_>,
        StorageError,
    >) {
        MemTable::read(self, bounds, projection)
    }

    fn read_by_index(
        &self,
        bounds: Bounds,
        projection: Projections,
        index_meta: &IndexMeta,
        binaries: Vec<ConstantBinary>,
    ) -> (r: Result<IndexIter<'_>, StorageError>) {
        MemTable::read_by_index(self, bounds, projection, index_meta, binaries)
    }

    fn add_index(&mut self, index: Index, tuple_ids: Vec<TupleId>, is_unique: bool) -> (r: Result<
        (),
        StorageError,
    >) {
        MemTable::add_index(self, index, tuple_ids, is_unique)
    }

    fn del_index(&mut self, index: &Index) -> (r: Result<(), StorageError>) {
        MemTable::del_index(self, index)
    }

    fn append(&mut self, tuple: Tuple, is_overwrite: bool) -> (r: Result<(), StorageError>) {
        MemTable::append(self, tuple, is_overwrite)
    }

    fn delete(&mut self, tuple_id: TupleId) -> (r: Result<(), StorageError>) {
        MemTable::delete(self, tuple_id)
    }
}

impl Storage for MemStorage {
    type TransactionType = MemTable;

    open spec fn obeys_model() -> bool {
        true
    }

    open spec fn wf(&self) -> bool {
        MemStorage::wf(self)
    }

    open spec fn catalog(&self) -> Seq<TableModel> {
        MemStorage::catalog(self)
    }

    open spec fn data(&self) -> Seq<TableData> {
        MemStorage::data(self)
    }

    open spec fn room(&self) -> nat {
        MemStorage::room(self)
    }

    proof fn lemma_wf(&self) {
        MemStorage::lemma_wf(self);
    }

    fn create_table(&mut self, table_name: TableName, columns: Vec<ColumnCatalog>) -> (r: Result<
        TableName,
        StorageError,
    >) {
        MemStorage::create_table(self, table_name, columns)
    }

    fn drop_table(&mut self, name: &String) -> (r: Result<(), StorageError>) {
        MemStorage::drop_table(self, name)
    }

    fn drop_data(&mut self, name: &String) -> (r: Result<(), StorageError>) {
        MemStorage::drop_data(self, name)
    }

    fn transaction(&self, name: &String) -> (r: Option<MemTable>) {
        MemStorage::transaction(self, name)
    }

    fn table(&self, name: &String) -> (r: Option<&TableCatalog>) {
        MemStorage::table(self, name)
    }

    fn show_tables(&self) -> (r: Result<Vec<String>, StorageError>) {
        MemStorage::show_tables(self)
    }

    fn commit(&mut self, transaction: MemTable) -> (r: Result<(), StorageError>) {
        transaction.commit(self)
    }
}

} // verus!
