//! Tables, columns and index metadata.

use crate::errors::StorageError;
use crate::types::LogicalType;
use std::sync::Arc;
use vstd::prelude::*;

verus! {

/// Identifies a column among the columns of all tables of a catalog.
pub type ColumnId = u32;

/// Identifies an index; a unique index over one column is identified by
/// that column.
pub type IndexId = u32;

/// The name of a table.
pub type TableName = String;

/// The declared properties of a column.
#[derive(Clone, Copy, Debug, PartialEq, Eq, Hash, Structural)]
pub struct ColumnDesc {
    pub column_datatype: LogicalType,
    pub is_primary: bool,
    pub is_unique: bool,
}

impl ColumnDesc {
    /// The description of a column of the given type.
    pub fn new(column_datatype: LogicalType, is_primary: bool, is_unique: bool) -> (r: ColumnDesc)
        ensures
            r == (ColumnDesc { column_datatype, is_primary, is_unique }),
    {
        ColumnDesc { column_datatype, is_primary, is_unique }
    }
}

/// A column: its identity once a table owns it, its name and its
/// description.
#[derive(Clone, Debug, PartialEq, Eq, Hash)]
pub struct ColumnCatalog {
    pub id: Option<ColumnId>,
    pub name: String,
    pub nullable: bool,
    pub desc: ColumnDesc,
}

/// A shared, immutable column.
pub type ColumnRef = Arc<ColumnCatalog>;

/// The model of a column.
pub struct ColumnModel {
    pub id: Option<ColumnId>,
    pub name: Seq<char>,
    pub nullable: bool,
    pub desc: ColumnDesc,
}

impl ColumnModel {
    /// The declared type of the column.
    pub open spec fn datatype(self) -> LogicalType {
        self.desc.column_datatype
    }

    /// The same column with its nullability replaced.
    pub open spec fn with_nullable(self, nullable: bool) -> ColumnModel {
        ColumnModel { nullable, ..self }
    }
}

impl View for ColumnCatalog {
    type V = ColumnModel;

    open spec fn view(&self) -> ColumnModel {
        ColumnModel { id: self.id, name: self.name@, nullable: self.nullable, desc: self.desc }
    }
}

/// The models of a list of columns.
pub open spec fn columns_view(cols: Seq<ColumnRef>) -> Seq<ColumnModel> {
    cols.map_values(|c: ColumnRef| c@)
}

/// The position of the first column at or after `start` that is called
/// `name`.
pub open spec fn find_column_from(cols: Seq<ColumnModel>, name: Seq<char>, start: int) -> Option<
    int,
>
    decreases cols.len() - start,
{
    if start < 0 || start >= cols.len() {
        None
    } else if cols[start].name == name {
        Some(start)
    } else {
        find_column_from(cols, name, start + 1)
    }
}

/// The position of the first column called `name`.
pub open spec fn find_column(cols: Seq<ColumnModel>, name: Seq<char>) -> Option<int> {
    find_column_from(cols, name, 0)
}

/// What [`find_column_from`] finds is the first match at or after `start`;
/// it finds nothing exactly when there is none.
pub proof fn lemma_find_column_from(cols: Seq<ColumnModel>, name: Seq<char>, start: int)
    requires
        0 <= start,
    ensures
        match find_column_from(cols, name, start) {
            Some(i) => start <= i < cols.len() && cols[i].name == name && forall|j: int|
                start <= j < i ==> cols[j].name != name,
            None => forall|j: int| start <= j < cols.len() ==> cols[j].name != name,
        },
    decreases cols.len() - start,
{
    if start < cols.len() && cols[start].name != name {
        lemma_find_column_from(cols, name, start + 1);
    }
}

impl ColumnCatalog {
    /// A column that no table owns yet.
    pub fn new(name: String, nullable: bool, desc: ColumnDesc) -> (r: ColumnCatalog)
        ensures
            r@ == (ColumnModel { id: None, name: name@, nullable, desc }),
    {
        ColumnCatalog { id: None, name, nullable, desc }
    }

    /// The declared type of the column.
    pub fn datatype(&self) -> (r: &LogicalType)
        ensures
            *r == self@.datatype(),
    {
        &self.desc.column_datatype
    }

    /// A copy of the column with its nullability replaced.
    pub fn with_nullable(&self, nullable: bool) -> (r: ColumnCatalog)
        ensures
            r@ == self@.with_nullable(nullable),
    {
        ColumnCatalog { id: self.id, name: self.name.clone(), nullable, desc: self.desc }
    }
}

/// Metadata of an index over columns of one table.
#[derive(Clone, Debug, PartialEq, Eq)]
pub struct IndexMeta {
    pub id: IndexId,
    pub column_ids: Vec<ColumnId>,
    pub is_unique: bool,
}

/// The model of an index's metadata.
pub struct IndexMetaModel {
    pub id: IndexId,
    pub column_ids: Seq<ColumnId>,
    pub is_unique: bool,
}

impl View for IndexMeta {
    type V = IndexMetaModel;

    open spec fn view(&self) -> IndexMetaModel {
        IndexMetaModel { id: self.id, column_ids: self.column_ids@, is_unique: self.is_unique }
    }
}

/// The models of a list of index metadata.
pub open spec fn indexes_view(indexes: Seq<IndexMeta>) -> Seq<IndexMetaModel> {
    indexes.map_values(|m: IndexMeta| m@)
}

/// The model of a table's metadata.
pub struct TableModel {
    pub name: Seq<char>,
    /// The identifier of the first column; the others follow it.
    pub first_id: ColumnId,
    pub columns: Seq<ColumnModel>,
    pub indexes: Seq<IndexMetaModel>,
}

/// The number of primary-key columns among the first `n` columns.
pub open spec fn count_primary(cols: Seq<ColumnModel>, n: int) -> int
    decreases n,
{
    if n <= 0 {
        0
    } else {
        count_primary(cols, n - 1) + if cols[n - 1].desc.is_primary {
            1int
        } else {
            0int
        }
    }
}

/// Among columns with at most one primary key, any two primary-key columns
/// are the same column.
pub proof fn lemma_single_primary(cols: Seq<ColumnModel>, n: int, i: int, j: int)
    requires
        count_primary(cols, n) <= 1,
        0 <= i < n,
        0 <= j < n,
        cols[i].desc.is_primary,
        cols[j].desc.is_primary,
    ensures
        i == j,
    decreases n,
{
    lemma_count_primary_bounds(cols, n - 1);
    if i < n - 1 && j < n - 1 {
        lemma_single_primary(cols, n - 1, i, j);
    } else if i < n - 1 {
        lemma_count_primary_positive(cols, n - 1, i);
    } else if j < n - 1 {
        lemma_count_primary_positive(cols, n - 1, j);
    }
}

proof fn lemma_count_primary_bounds(cols: Seq<ColumnModel>, n: int)
    ensures
        0 <= count_primary(cols, n),
    decreases n,
{
    if n > 0 {
        lemma_count_primary_bounds(cols, n - 1);
    }
}

proof fn lemma_count_primary_positive(cols: Seq<ColumnModel>, n: int, i: int)
    requires
        0 <= i < n,
        cols[i].desc.is_primary,
    ensures
        count_primary(cols, n) >= 1,
    decreases n,
{
    lemma_count_primary_bounds(cols, n - 1);
    if i < n - 1 {
        lemma_count_primary_positive(cols, n - 1, i);
    }
}

proof fn lemma_primary_exists(cols: Seq<ColumnModel>, n: int)
    requires
        count_primary(cols, n) >= 1,
    ensures
        exists|i: int| 0 <= i < n && cols[i].desc.is_primary,
    decreases n,
{
    if n > 0 && !cols[n - 1].desc.is_primary {
        lemma_primary_exists(cols, n - 1);
        let i = choose|i: int| 0 <= i < n - 1 && cols[i].desc.is_primary;
        assert(0 <= i < n && cols[i].desc.is_primary);
    }
}

proof fn lemma_count_primary_ext(a: Seq<ColumnModel>, b: Seq<ColumnModel>, n: int)
    requires
        n <= a.len(),
        n <= b.len(),
        forall|i: int| 0 <= i < n ==> a[i].desc == b[i].desc,
    ensures
        count_primary(a, n) == count_primary(b, n),
    decreases n,
{
    if n > 0 {
        lemma_count_primary_ext(a, b, n - 1);
    }
}

/// The metadata of the unique index over the single column `col`; the index
/// is identified by the column it covers.
pub open spec fn unique_index_on(col: ColumnId) -> IndexMetaModel {
    IndexMetaModel { id: col, column_ids: seq![col], is_unique: true }
}

/// The columns as a table owns them: they are identified by consecutive
/// numbers from `first_id` on.
pub open spec fn with_ids(cols: Seq<ColumnModel>, first_id: ColumnId) -> Seq<ColumnModel> {
    Seq::new(cols.len(), |i: int| ColumnModel { id: Some((first_id + i) as u32), ..cols[i] })
}

impl TableModel {
    /// The invariant of a table: its columns are identified by consecutive
    /// numbers, exactly one column is the primary key, and the indexes are
    /// the unique single-column indexes of the unique columns, in the order
    /// of the columns.
    pub open spec fn wf(self) -> bool {
        &&& self.first_id + self.columns.len() <= u32::MAX
        &&& forall|i: int|
            0 <= i < self.columns.len() ==> (#[trigger] self.columns[i]).id == Some(
                (self.first_id + i) as u32,
            )
        &&& count_primary(self.columns, self.columns.len() as int) == 1
        &&& forall|k: int|
            0 <= k < self.indexes.len() ==> {
                let m = #[trigger] self.indexes[k];
                &&& self.owns(m.id)
                &&& self.columns[m.id - self.first_id].desc.is_unique
                &&& m == unique_index_on(m.id)
            }
        &&& forall|c: int|
            0 <= c < self.columns.len() && (#[trigger] self.columns[c]).desc.is_unique
                ==> self.indexes.contains(unique_index_on((self.first_id + c) as u32))
        &&& forall|a: int, b: int|
            0 <= a < b < self.indexes.len() ==> (#[trigger] self.indexes[a]).id < (
            #[trigger] self.indexes[b]).id
    }

    /// Whether `col` identifies a column of this table.
    pub open spec fn owns(self, col: ColumnId) -> bool {
        self.first_id <= col < self.first_id + self.columns.len()
    }

    /// Whether `i` is the position of the primary-key column.
    pub open spec fn is_primary_index(self, i: int) -> bool {
        0 <= i < self.columns.len() && self.columns[i].desc.is_primary
    }

    /// The position of the primary-key column.
    pub open spec fn primary_index(self) -> int {
        choose|i: int| self.is_primary_index(i)
    }

    /// The unique index over column `col`, if that column is unique.
    pub open spec fn unique_index_of(self, col: ColumnId) -> Option<IndexMetaModel> {
        if self.owns(col) && self.columns[col - self.first_id].desc.is_unique {
            Some(unique_index_on(col))
        } else {
            None
        }
    }

    /// A well-formed table has a primary-key column, and only one.
    pub proof fn lemma_primary_index(self)
        requires
            self.wf(),
        ensures
            self.is_primary_index(self.primary_index()),
            forall|i: int| self.is_primary_index(i) ==> i == self.primary_index(),
    {
        let n = self.columns.len() as int;
        lemma_primary_exists(self.columns, n);
        let w = choose|i: int| 0 <= i < n && self.columns[i].desc.is_primary;
        assert(self.is_primary_index(w));
        assert forall|i: int| self.is_primary_index(i) implies i == self.primary_index() by {
            lemma_single_primary(self.columns, n, i, self.primary_index());
        }
    }
}

/// The metadata of a table.
#[derive(Debug, PartialEq, Eq)]
pub struct TableCatalog {
    name: TableName,
    first_id: ColumnId,
    columns: Vec<ColumnRef>,
    indexes: Vec<IndexMeta>,
}

impl View for TableCatalog {
    type V = TableModel;

    closed spec fn view(&self) -> TableModel {
        TableModel {
            name: self.name@,
            first_id: self.first_id,
            columns: columns_view(self.columns@),
            indexes: indexes_view(self.indexes@),
        }
    }
}

/// The models of columns that no table owns.
pub open spec fn columns_of(cols: Seq<ColumnCatalog>) -> Seq<ColumnModel> {
    cols.map_values(|c: ColumnCatalog| c@)
}

impl TableCatalog {
    /// The metadata of a new table called `name` with the given columns, in
    /// their order, identified by consecutive numbers from `first_id` on.
    /// Fails with `InvalidSchema` unless exactly one of the columns is the
    /// primary key and the identifiers fit.
    pub fn new(name: TableName, columns: Vec<ColumnCatalog>, first_id: ColumnId) -> (r: Result<
        TableCatalog,
        StorageError,
    >)
        ensures
            match r {
                Ok(t) => {
                    &&& t@.wf()
                    &&& t@.name == name@
                    &&& t@.first_id == first_id
                    &&& t@.columns == with_ids(columns_of(columns@), first_id)
                    &&& count_primary(columns_of(columns@), columns.len() as int) == 1
                },
                Err(e) => {
                    &&& e == StorageError::InvalidSchema
                    &&& (count_primary(columns_of(columns@), columns.len() as int) != 1
                        || first_id + columns.len() > u32::MAX)
                },
            },
    {
        if columns.len() > (u32::MAX - first_id) as usize {
            return Err(StorageError::InvalidSchema);
        }
        let ghost given = columns_of(columns@);
        let mut owned: Vec<ColumnRef> = Vec::new();
        let mut indexes: Vec<IndexMeta> = Vec::new();
        let mut primaries: usize = 0;
        let mut i: usize = 0;
        while i < columns.len()
            invariant
                i <= columns.len(),
                first_id + columns.len() <= u32::MAX,
                given == columns_of(columns@),
                owned.len() == i,
                primaries == count_primary(given, i as int),
                primaries <= i,
                forall|j: int|
                    0 <= j < i ==> (#[trigger] owned@[j])@ == (ColumnModel {
                        id: Some((first_id + j) as u32),
                        ..given[j]
                    }),
                forall|k: int|
                    0 <= k < indexes.len() ==> {
                        let m = (#[trigger] indexes@[k])@;
                        &&& first_id <= m.id < first_id + i
                        &&& given[m.id - first_id].desc.is_unique
                        &&& m == unique_index_on(m.id)
                    },
                forall|c: int|
                    0 <= c < i && (#[trigger] given[c]).desc.is_unique ==> indexes_view(
                        indexes@,
                    ).contains(unique_index_on((first_id + c) as u32)),
                forall|a: int, b: int|
                    0 <= a < b < indexes.len() ==> (#[trigger] indexes@[a]).id < (
                    #[trigger] indexes@[b]).id,
            decreases columns.len() - i,
        {
            let col = &columns[i];
            let id: u32 = first_id + i as u32;
            if col.desc.is_primary {
                primaries = primaries + 1;
            }
            let ghost before = indexes_view(indexes@);
            if col.desc.is_unique {
                let mut column_ids: Vec<ColumnId> = Vec::new();
                column_ids.push(id);
                indexes.push(IndexMeta { id, column_ids, is_unique: true });
                proof {
                    let last = indexes.len() - 1;
                    assert(indexes@[last]@.column_ids =~= seq![id]);
                    assert(indexes_view(indexes@)[last] == unique_index_on(id));
                }
            }
            proof {
                let after = indexes_view(indexes@);
                assert forall|c: int|
                    0 <= c < i + 1 && (#[trigger] given[c]).desc.is_unique implies after.contains(
                    unique_index_on((first_id + c) as u32),
                ) by {
                    if c < i {
                        let k = choose|k: int|
                            0 <= k < before.len() && before[k] == unique_index_on(
                                (first_id + c) as u32,
                            );
                        assert(after[k] == unique_index_on((first_id + c) as u32));
                    } else {
                        assert(after[after.len() - 1] == unique_index_on((first_id + c) as u32));
                    }
                }
            }
            owned.push(
                Arc::new(
                    ColumnCatalog {
                        id: Some(id),
                        name: col.name.clone(),
                        nullable: col.nullable,
                        desc: col.desc,
                    },
                ),
            );
            i = i + 1;
        }
        if primaries != 1 {
            return Err(StorageError::InvalidSchema);
        }
        let table = TableCatalog { name, first_id, columns: owned, indexes };
        proof {
            assert(table@.columns =~= with_ids(given, first_id));
            lemma_count_primary_ext(table@.columns, given, given.len() as int);
            assert forall|k: int| 0 <= k < table@.indexes.len() implies {
                let m = #[trigger] table@.indexes[k];
                &&& table@.owns(m.id)
                &&& table@.columns[m.id - first_id].desc.is_unique
                &&& m == unique_index_on(m.id)
            } by {
                assert(table@.indexes[k] == table.indexes@[k]@);
            }
            assert forall|a: int, b: int| 0 <= a < b < table@.indexes.len() implies (
            #[trigger] table@.indexes[a]).id < (#[trigger] table@.indexes[b]).id by {
                assert(table@.indexes[a] == table.indexes@[a]@);
                assert(table@.indexes[b] == table.indexes@[b]@);
            }
        }
        Ok(table)
    }

    /// The name of the table.
    pub fn name(&self) -> (r: &TableName)
        ensures
            r@ == self@.name,
    {
        &self.name
    }

    /// The columns in their declared order.
    pub fn all_columns(&self) -> (r: &Vec<ColumnRef>)
        ensures
            columns_view(r@) == self@.columns,
    {
        &self.columns
    }

    /// The first column called `name`.
    pub fn get_column_by_name(&self, name: &String) -> (r: Option<&ColumnRef>)
        ensures
            match r {
                Some(c) => find_column(self@.columns, name@) matches Some(i) && c@
                    == self@.columns[i],
                None => find_column(self@.columns, name@) is None,
            },
    {
        let mut i: usize = 0;
        while i < self.columns.len()
            invariant
                i <= self.columns.len(),
                find_column(self@.columns, name@) == find_column_from(
                    self@.columns,
                    name@,
                    i as int,
                ),
            decreases self.columns.len() - i,
        {
            if self.columns[i].name == *name {
                return Some(&self.columns[i]);
            }
            i = i + 1;
        }
        None
    }

    /// The identifier of the first column called `name`.
    pub fn get_column_id_by_name(&self, name: &String) -> (r: Option<ColumnId>)
        requires
            self@.wf(),
        ensures
            match r {
                Some(id) => find_column(self@.columns, name@) == Some(id - self@.first_id),
                None => find_column(self@.columns, name@) is None,
            },
    {
        proof {
            lemma_find_column_from(self@.columns, name@, 0);
        }
        match self.get_column_by_name(name) {
            Some(c) => c.id,
            None => None,
        }
    }

    /// The unique index over column `col`, if that column is unique.
    pub fn get_unique_index(&self, col: ColumnId) -> (r: Option<&IndexMeta>)
        requires
            self@.wf(),
        ensures
            match r {
                Some(m) => self@.unique_index_of(col) == Some(m@),
                None => self@.unique_index_of(col) is None,
            },
    {
        let mut k: usize = 0;
        while k < self.indexes.len()
            invariant
                k <= self.indexes.len(),
                self@.wf(),
                forall|j: int| 0 <= j < k ==> (#[trigger] self@.indexes[j]).id != col,
            decreases self.indexes.len() - k,
        {
            assert(self@.indexes[k as int] == self.indexes@[k as int]@);
            if self.indexes[k].id == col {
                return Some(&self.indexes[k]);
            }
            k = k + 1;
        }
        proof {
            if self@.unique_index_of(col) is Some {
                let m = unique_index_on(col);
                assert(self@.columns[col - self@.first_id].desc.is_unique);
                assert(self@.indexes.contains(m));
                let j = choose|j: int| 0 <= j < self@.indexes.len() && self@.indexes[j] == m;
                assert(self@.indexes[j].id == col);
            }
        }
        None
    }

    /// The position of the primary-key column, and that column.
    pub fn primary_key(&self) -> (r: (usize, &ColumnRef))
        requires
            self@.wf(),
        ensures
            r.0 == self@.primary_index(),
            self@.is_primary_index(r.0 as int),
            r.1@ == self@.columns[r.0 as int],
    {
        proof {
            self@.lemma_primary_index();
        }
        let mut i: usize = 0;
        while i < self.columns.len()
            invariant
                i <= self.columns.len(),
                self@.is_primary_index(self@.primary_index()),
                forall|j: int| self@.is_primary_index(j) ==> j == self@.primary_index(),
                forall|j: int| 0 <= j < i ==> !self@.columns[j].desc.is_primary,
            decreases self.columns.len() - i,
        {
            if self.columns[i].desc.is_primary {
                assert(self@.is_primary_index(i as int));
                return (i, &self.columns[i]);
            }
            i = i + 1;
        }
        proof {
            assert(false);
        }
        (0, &self.columns[0])
    }
}

/// The models of a list of tables.
pub open spec fn tables_view(tables: Seq<TableCatalog>) -> Seq<TableModel> {
    tables.map_values(|t: TableCatalog| t@)
}

/// The position of the table called `name`, searched from `start` on.
pub open spec fn find_table_from(tables: Seq<TableModel>, name: Seq<char>, start: int) -> Option<int>
    decreases tables.len() - start,
{
    if start < 0 || start >= tables.len() {
        None
    } else if tables[start].name == name {
        Some(start)
    } else {
        find_table_from(tables, name, start + 1)
    }
}

/// The position of the table called `name`.
pub open spec fn find_table(tables: Seq<TableModel>, name: Seq<char>) -> Option<int> {
    find_table_from(tables, name, 0)
}

/// What [`find_table_from`] finds is the first table of that name at or
/// after `start`; it finds nothing exactly when there is none.
pub proof fn lemma_find_table_from(tables: Seq<TableModel>, name: Seq<char>, start: int)
    requires
        0 <= start,
    ensures
        match find_table_from(tables, name, start) {
            Some(i) => start <= i < tables.len() && tables[i].name == name && forall|j: int|
                start <= j < i ==> tables[j].name != name,
            None => forall|j: int| start <= j < tables.len() ==> tables[j].name != name,
        },
    decreases tables.len() - start,
{
    if start < tables.len() && tables[start].name != name {
        lemma_find_table_from(tables, name, start + 1);
    }
}

/// The invariant of a catalog: every table is well formed, no two tables
/// have the same name, and every column identifier in use is below `next`.
pub open spec fn catalog_wf(tables: Seq<TableModel>, next: ColumnId) -> bool {
    &&& forall|i: int| 0 <= i < tables.len() ==> (#[trigger] tables[i]).wf()
    &&& forall|i: int, j: int|
        0 <= i < j < tables.len() ==> (#[trigger] tables[i]).name != (#[trigger] tables[j]).name
    &&& forall|i: int|
        0 <= i < tables.len() ==> (#[trigger] tables[i]).first_id + tables[i].columns.len() <= next
    &&& forall|i: int, j: int|
        0 <= i < j < tables.len() ==> (#[trigger] tables[i]).first_id + tables[i].columns.len()
            <= (#[trigger] tables[j]).first_id
}

/// The tables of a database, in the order of their creation.
#[derive(Debug, PartialEq, Eq)]
pub struct RootCatalog {
    tables: Vec<TableCatalog>,
    next_column_id: ColumnId,
}

impl View for RootCatalog {
    type V = Seq<TableModel>;

    closed spec fn view(&self) -> Seq<TableModel> {
        tables_view(self.tables@)
    }
}

impl RootCatalog {
    /// The invariant of the catalog; see [`catalog_wf`].
    pub closed spec fn wf(&self) -> bool {
        catalog_wf(self@, self.next_column_id)
    }

    /// In a well-formed catalog every table is well formed and no two tables
    /// have the same name.
    pub proof fn lemma_wf(&self)
        requires
            self.wf(),
        ensures
            forall|i: int| 0 <= i < self@.len() ==> (#[trigger] self@[i]).wf(),
            forall|i: int, j: int|
                0 <= i < j < self@.len() ==> (#[trigger] self@[i]).name != (#[trigger] self@[j]).name,
    {
    }

    /// A catalog without tables.
    pub fn new() -> (r: RootCatalog)
        ensures
            r.wf(),
            r@ == Seq::<TableModel>::empty(),
            r.room() == u32::MAX,
    {
        let r = RootCatalog { tables: Vec::new(), next_column_id: 0 };
        assert(r@ =~= Seq::empty());
        r
    }

    /// The number of tables.
    pub fn len(&self) -> (r: usize)
        ensures
            r == self@.len(),
    {
        self.tables.len()
    }

    /// The position of the table called `name`.
    pub fn table_position(&self, name: &String) -> (r: Option<usize>)
        ensures
            match r {
                Some(i) => find_table(self@, name@) == Some(i as int) && i < self@.len(),
                None => find_table(self@, name@) is None,
            },
    {
        let mut i: usize = 0;
        while i < self.tables.len()
            invariant
                i <= self.tables.len(),
                find_table(self@, name@) == find_table_from(self@, name@, i as int),
            decreases self.tables.len() - i,
        {
            assert(self@[i as int] == self.tables@[i as int]@);
            if self.tables[i].name == *name {
                return Some(i);
            }
            i = i + 1;
        }
        None
    }

    /// The table at a position.
    pub fn table_at(&self, i: usize) -> (r: &TableCatalog)
        requires
            i < self@.len(),
        ensures
            r@ == self@[i as int],
    {
        &self.tables[i]
    }

    /// The table called `name`.
    pub fn get_table(&self, name: &String) -> (r: Option<&TableCatalog>)
        ensures
            match r {
                Some(t) => find_table(self@, name@) matches Some(i) && t@ == self@[i],
                None => find_table(self@, name@) is None,
            },
    {
        match self.table_position(name) {
            Some(i) => Some(&self.tables[i]),
            None => None,
        }
    }

    /// How many more columns the catalog can give an identifier to.
    pub closed spec fn room(&self) -> nat {
        (u32::MAX - self.next_column_id) as nat
    }

    /// Adds a table called `table_name` with the given columns and returns
    /// its name. Fails with `TableExists` if the catalog has a table of that
    /// name, and otherwise with `InvalidSchema` unless exactly one column is
    /// the primary key and the catalog has identifiers left for the columns.
    pub fn add_table(&mut self, table_name: TableName, columns: Vec<ColumnCatalog>) -> (r: Result<
        TableName,
        StorageError,
    >)
        requires
            old(self).wf(),
        ensures
            final(self).wf(),
            match r {
                Ok(name) => {
                    &&& name@ == table_name@
                    &&& find_table(old(self)@, table_name@) is None
                    &&& count_primary(columns_of(columns@), columns.len() as int) == 1
                    &&& columns.len() <= old(self).room()
                    &&& final(self)@.len() == old(self)@.len() + 1
                    &&& final(self)@.drop_last() == old(self)@
                    &&& final(self)@.last().name == table_name@
                    &&& final(self)@.last().first_id == u32::MAX - old(self).room()
                    &&& final(self)@.last().columns == with_ids(
                        columns_of(columns@),
                        final(self)@.last().first_id,
                    )
                    &&& final(self).room() == old(self).room() - columns.len()
                },
                Err(e) => {
                    &&& final(self)@ == old(self)@
                    &&& final(self).room() == old(self).room()
                    &&& if find_table(old(self)@, table_name@) is Some {
                        e == StorageError::TableExists
                    } else {
                        &&& e == StorageError::InvalidSchema
                        &&& (count_primary(columns_of(columns@), columns.len() as int) != 1
                            || columns.len() > old(self).room())
                    }
                },
            },
    {
        if self.table_position(&table_name).is_some() {
            return Err(StorageError::TableExists);
        }
        let width = columns.len();
        let result = table_name.clone();
        let table = match TableCatalog::new(table_name, columns, self.next_column_id) {
            Err(e) => {
                return Err(e);
            },
            Ok(t) => t,
        };
        let ghost before = self@;
        proof {
            lemma_find_table_from(before, result@, 0);
        }
        self.tables.push(table);
        self.next_column_id = self.next_column_id + width as u32;
        proof {
            assert(self@.drop_last() =~= before);
            assert forall|i: int| 0 <= i < self@.len() implies (#[trigger] self@[i]).wf() by {
                if i < before.len() {
                    assert(self@[i] == before[i]);
                }
            }
            assert forall|i: int, j: int| 0 <= i < j < self@.len() implies (#[trigger] self@[i]).name
                != (#[trigger] self@[j]).name by {
                assert(self@[i] == before[i]);
                if j < before.len() {
                    assert(self@[j] == before[j]);
                }
            }
            assert forall|i: int| 0 <= i < self@.len() implies (#[trigger] self@[i]).first_id
                + self@[i].columns.len() <= self.next_column_id by {
                if i < before.len() {
                    assert(self@[i] == before[i]);
                }
            }
            assert forall|i: int, j: int| 0 <= i < j < self@.len() implies (#[trigger] self@[i]).first_id
                + self@[i].columns.len() <= (#[trigger] self@[j]).first_id by {
                assert(self@[i] == before[i]);
                if j < before.len() {
                    assert(self@[j] == before[j]);
                }
            }
        }
        Ok(result)
    }

    /// Removes the table at a position. The identifiers of its columns are
    /// not given out again.
    pub fn remove_at(&mut self, i: usize)
        requires
            old(self).wf(),
            i < old(self)@.len(),
        ensures
            final(self).wf(),
            final(self)@ == old(self)@.remove(i as int),
            final(self).room() == old(self).room(),
    {
        let ghost before = self@;
        self.tables.remove(i);
        proof {
            assert(self@ =~= before.remove(i as int));
            assert forall|a: int| 0 <= a < self@.len() implies (#[trigger] self@[a]).wf() && self@[a].first_id
                + self@[a].columns.len() <= self.next_column_id by {
                if a < i {
                    assert(self@[a] == before[a]);
                } else {
                    assert(self@[a] == before[a + 1]);
                }
            }
            assert forall|a: int, b: int| 0 <= a < b < self@.len() implies (#[trigger] self@[a]).name
                != (#[trigger] self@[b]).name && self@[a].first_id + self@[a].columns.len()
                <= self@[b].first_id by {
                let x = if a < i {
                    a
                } else {
                    a + 1
                };
                let y = if b < i {
                    b
                } else {
                    b + 1
                };
                assert(self@[a] == before[x]);
                assert(self@[b] == before[y]);
            }
        }
    }
}

} // verus!
