//! The model of a table store: what a table holds, what the operations of
//! a transaction do to it, and what a scan yields.

use crate::catalog::IndexId;
use crate::errors::StorageError;
use crate::expression::ExprModel;
use crate::storage::{decremented, project, IndexModel};
use crate::tuple::{option_view, Tuple, TupleModel};
use crate::types::{Datum, ValueRef};
use crate::value_compute::payload_lt;
use vstd::prelude::*;

verus! {

/// The model of an entry of an index.
pub struct IndexEntryModel {
    pub key: IndexModel,
    pub tuple_ids: Seq<Datum>,
}

/// What a table holds: its rows in the order of their insertion, and the
/// entries of its indexes.
pub struct TableData {
    pub rows: Seq<TupleModel>,
    pub entries: Seq<IndexEntryModel>,
}

/// The position of the first row at or after `start` that is identified by
/// `id`.
pub open spec fn find_row_from(rows: Seq<TupleModel>, id: Option<Datum>, start: int) -> Option<int>
    decreases rows.len() - start,
{
    if start < 0 || start >= rows.len() {
        None
    } else if rows[start].id == id {
        Some(start)
    } else {
        find_row_from(rows, id, start + 1)
    }
}

/// The position of the row identified by `id`.
pub open spec fn find_row(rows: Seq<TupleModel>, id: Option<Datum>) -> Option<int> {
    find_row_from(rows, id, 0)
}

/// What [`find_row_from`] finds is the first row with that identifier at or
/// after `start`; it finds nothing exactly when there is none.
pub proof fn lemma_find_row_from(rows: Seq<TupleModel>, id: Option<Datum>, start: int)
    requires
        0 <= start,
    ensures
        match find_row_from(rows, id, start) {
            Some(i) => start <= i < rows.len() && rows[i].id == id && forall|j: int|
                start <= j < i ==> rows[j].id != id,
            None => forall|j: int| start <= j < rows.len() ==> rows[j].id != id,
        },
    decreases rows.len() - start,
{
    if start < rows.len() && rows[start].id != id {
        lemma_find_row_from(rows, id, start + 1);
    }
}

/// The position of the first entry at or after `start` that has the key.
pub open spec fn find_entry_from(entries: Seq<IndexEntryModel>, key: IndexModel, start: int) -> Option<
    int,
>
    decreases entries.len() - start,
{
    if start < 0 || start >= entries.len() {
        None
    } else if entries[start].key == key {
        Some(start)
    } else {
        find_entry_from(entries, key, start + 1)
    }
}

/// The position of the entry that has the key.
pub open spec fn find_entry(entries: Seq<IndexEntryModel>, key: IndexModel) -> Option<int> {
    find_entry_from(entries, key, 0)
}

/// What [`find_entry_from`] finds is the first entry with that key at or
/// after `start`; it finds nothing exactly when there is none.
pub proof fn lemma_find_entry_from(entries: Seq<IndexEntryModel>, key: IndexModel, start: int)
    requires
        0 <= start,
    ensures
        match find_entry_from(entries, key, start) {
            Some(i) => start <= i < entries.len() && entries[i].key == key && forall|j: int|
                start <= j < i ==> entries[j].key != key,
            None => forall|j: int| start <= j < entries.len() ==> entries[j].key != key,
        },
    decreases entries.len() - start,
{
    if start < entries.len() && entries[start].key != key {
        lemma_find_entry_from(entries, key, start + 1);
    }
}

impl TableData {
    /// A table without rows.
    pub open spec fn empty() -> TableData {
        TableData { rows: Seq::empty(), entries: Seq::empty() }
    }

    /// The invariant of a table's contents: no two rows have the same
    /// identifier and no two index entries have the same key.
    pub open spec fn wf(self) -> bool {
        &&& forall|i: int, j: int|
            0 <= i < j < self.rows.len() ==> (#[trigger] self.rows[i]).id != (
            #[trigger] self.rows[j]).id
        &&& forall|i: int, j: int|
            0 <= i < j < self.entries.len() ==> (#[trigger] self.entries[i]).key != (
            #[trigger] self.entries[j]).key
    }

    /// The contents after a row is appended: a row with a new identifier is
    /// added at the end; a row whose identifier is present replaces the row
    /// that has it, in place, if rows may be overwritten; otherwise the
    /// append fails with `DuplicatePrimaryKey`.
    pub open spec fn append(self, t: TupleModel, is_overwrite: bool) -> Result<
        TableData,
        StorageError,
    > {
        match find_row(self.rows, t.id) {
            None => Ok(TableData { rows: self.rows.push(t), ..self }),
            Some(i) => if is_overwrite {
                Ok(TableData { rows: self.rows.update(i, t), ..self })
            } else {
                Err(StorageError::DuplicatePrimaryKey)
            },
        }
    }

    /// The contents after the row identified by `id` is deleted.
    pub open spec fn delete(self, id: Datum) -> TableData {
        match find_row(self.rows, Some(id)) {
            None => self,
            Some(i) => TableData { rows: self.rows.remove(i), ..self },
        }
    }

    /// The contents after rows are entered in an index under a key.
    ///
    /// A key that has no entry gets one. A key that has an entry keeps it in
    /// a unique index if the rows are those of the entry, and fails with
    /// `DuplicateUniqueKey` if they are not; in any other index the rows
    /// are added to the entry.
    pub open spec fn add_index(self, key: IndexModel, tuple_ids: Seq<Datum>, is_unique: bool) -> Result<
        TableData,
        StorageError,
    > {
        match find_entry(self.entries, key) {
            None => Ok(
                TableData { entries: self.entries.push(IndexEntryModel { key, tuple_ids }), ..self },
            ),
            Some(i) => if !is_unique {
                Ok(
                    TableData {
                        entries: self.entries.update(
                            i,
                            IndexEntryModel {
                                key,
                                tuple_ids: self.entries[i].tuple_ids + tuple_ids,
                            },
                        ),
                        ..self
                    },
                )
            } else if self.entries[i].tuple_ids == tuple_ids {
                Ok(self)
            } else {
                Err(StorageError::DuplicateUniqueKey)
            },
        }
    }

    /// The contents after the entry of a key is removed from its index.
    pub open spec fn del_index(self, key: IndexModel) -> TableData {
        match find_entry(self.entries, key) {
            None => self,
            Some(i) => TableData { entries: self.entries.remove(i), ..self },
        }
    }
}

/// What a scan has left to do.
pub struct ScanModel {
    /// The rows the scan has not visited.
    pub rest: Seq<TupleModel>,
    /// How many rows it still skips.
    pub offset: usize,
    /// How many rows it still yields at most.
    pub limit: Option<usize>,
    pub projections: Seq<ExprModel>,
}

impl ScanModel {
    /// The rows left once the rows to skip are skipped.
    pub open spec fn skipped(self) -> Seq<TupleModel> {
        if self.offset <= self.rest.len() {
            self.rest.skip(self.offset as int)
        } else {
            Seq::empty()
        }
    }

    /// Whether the scan yields nothing more: its limit is used up or it has
    /// visited every row.
    pub open spec fn done(self) -> bool {
        self.limit == Some(0usize) || self.skipped().len() == 0
    }

    /// The scan after its next step: the rows to skip are skipped, and if
    /// the scan is not done, one more row is visited.
    pub open spec fn stepped(self) -> ScanModel {
        if self.done() {
            ScanModel { rest: self.skipped(), offset: 0, ..self }
        } else {
            ScanModel {
                rest: self.skipped().skip(1),
                offset: 0,
                limit: if project(self.projections, self.skipped()[0]) is Ok {
                    decremented(self.limit)
                } else {
                    self.limit
                },
                ..self
            }
        }
    }

    /// What the next step yields: nothing if the scan is done, else the
    /// projection of the row it visits.
    pub open spec fn next(self) -> Result<Option<TupleModel>, StorageError> {
        if self.done() {
            Ok(None)
        } else {
            match project(self.projections, self.skipped()[0]) {
                Ok(t) => Ok(Some(t)),
                Err(e) => Err(e),
            }
        }
    }
}

/// The model of the outcome of a step of a scan.
pub open spec fn step_result(r: Result<Option<Tuple>, StorageError>) -> Result<
    Option<TupleModel>,
    StorageError,
> {
    match r {
        Ok(Some(t)) => Ok(Some(t@)),
        Ok(None) => Ok(None),
        Err(e) => Err(e),
    }
}

/// A range of values of an indexed column.
#[derive(Debug, PartialEq, Eq)]
pub enum ConstantBinary {
    /// The one value.
    Eq(ValueRef),
    /// The values from `min` to `max`, both included; an absent bound does
    /// not bound.
    Scope { min: Option<ValueRef>, max: Option<ValueRef> },
}

/// The model of a range of values.
pub enum RangeModel {
    Eq(Datum),
    Scope { min: Option<Datum>, max: Option<Datum> },
}

impl View for ConstantBinary {
    type V = RangeModel;

    open spec fn view(&self) -> RangeModel {
        match self {
            ConstantBinary::Eq(v) => RangeModel::Eq(v@),
            ConstantBinary::Scope { min, max } => RangeModel::Scope {
                min: option_view(*min),
                max: option_view(*max),
            },
        }
    }
}

/// The models of a list of ranges.
pub open spec fn ranges_view(ranges: Seq<ConstantBinary>) -> Seq<RangeModel> {
    ranges.map_values(|b: ConstantBinary| b@)
}

/// Whether `a` and `b` are values of one type, neither is `NULL`, and `a`
/// is not ordered before `b`.
pub open spec fn at_least(a: Datum, b: Datum) -> bool {
    &&& a.ty == b.ty
    &&& a.payload is Some
    &&& b.payload is Some
    &&& !payload_lt(a.payload->Some_0, b.payload->Some_0)
}

/// Whether a value lies in a range. `NULL` lies in no range, and a value
/// lies between bounds of its own type only.
pub open spec fn in_range(range: RangeModel, v: Datum) -> bool {
    match range {
        RangeModel::Eq(x) => !v.is_null() && v == x,
        RangeModel::Scope { min, max } => {
            &&& !v.is_null()
            &&& min matches Some(low) ==> at_least(v, low)
            &&& max matches Some(high) ==> at_least(high, v)
        },
    }
}

/// Whether a value lies in one of the ranges.
pub open spec fn in_ranges(ranges: Seq<RangeModel>, v: Datum) -> bool {
    exists|k: int| 0 <= k < ranges.len() && in_range(#[trigger] ranges[k], v)
}

/// Whether an entry of the index `index` over one column lists the row
/// identified by `id` under a value that lies in one of the ranges.
pub open spec fn entry_lists(
    entry: IndexEntryModel,
    index: IndexId,
    ranges: Seq<RangeModel>,
    id: Option<Datum>,
) -> bool {
    &&& entry.key.id == index
    &&& entry.key.column_values.len() == 1
    &&& in_ranges(ranges, entry.key.column_values[0])
    &&& exists|j: int| 0 <= j < entry.tuple_ids.len() && id == Some(#[trigger] entry.tuple_ids[j])
}

/// Whether some entry of the index lists the row under a value that lies
/// in one of the ranges.
pub open spec fn listed(
    entries: Seq<IndexEntryModel>,
    index: IndexId,
    ranges: Seq<RangeModel>,
    id: Option<Datum>,
) -> bool {
    exists|k: int| 0 <= k < entries.len() && entry_lists(#[trigger] entries[k], index, ranges, id)
}

impl TableData {
    /// Those of the first `n` rows that the index lists under a value in
    /// one of the ranges, in the order of the table.
    pub open spec fn selected(self, index: IndexId, ranges: Seq<RangeModel>, n: int) -> Seq<
        TupleModel,
    >
        decreases n,
    {
        if n <= 0 {
            Seq::empty()
        } else if listed(self.entries, index, ranges, self.rows[n - 1].id) {
            self.selected(index, ranges, n - 1).push(self.rows[n - 1])
        } else {
            self.selected(index, ranges, n - 1)
        }
    }
}

} // verus!
