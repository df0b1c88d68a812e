//! Laws of the insert operator: what it commits keeps the values of every
//! unique column distinct.

use crate::catalog::{ColumnId, ColumnModel, TableModel};
use crate::execution::insert::{
    flush, insert, insert_all, lemma_target_values_len, provided, provided_upto, reconstruct,
    target_value, target_values, unique_entries, unique_key, width, PendingModel,
};
use crate::expression::{column_position_from, ExprModel};
use crate::expression_laws::lemma_column_position_from;
use crate::storage::{project, project_values};
use crate::types::lemma_cast_result;
use crate::storage::model::{
    find_entry, find_row, lemma_find_entry_from, lemma_find_row_from, IndexEntryModel, TableData,
};
use crate::tuple::TupleModel;
use vstd::prelude::*;

verus! {

/// The entry of one row under a key of a unique index.
pub open spec fn entry_of(note: PendingModel) -> IndexEntryModel {
    IndexEntryModel { key: note.key, tuple_ids: seq![note.tuple_id] }
}

/// What a row asks of the unique index over the column at position `p`:
/// the entry of the row under its value in that column, if the column is
/// unique and the value is not `NULL`.
pub open spec fn wanted(table: TableModel, r: TupleModel, p: int) -> Option<PendingModel> {
    if 0 <= p < table.columns.len() && p < r.values.len() && table.columns[p].desc.is_unique
        && !r.values[p].is_null() {
        Some(PendingModel { key: unique_key(table, p, r.values[p]), tuple_id: r.id->Some_0 })
    } else {
        None
    }
}

/// Whether a row is entered in every unique index that it has a value
/// for.
pub open spec fn row_indexed(table: TableModel, r: TupleModel, entries: Seq<IndexEntryModel>) -> bool {
    &&& r.id is Some
    &&& forall|p: int|
        (#[trigger] wanted(table, r, p)) is Some ==> entries.contains(
            entry_of(wanted(table, r, p)->Some_0),
        )
}

/// Whether every entry a row asks of the unique indexes is noted.
pub open spec fn row_noted(table: TableModel, r: TupleModel, pending: Seq<PendingModel>) -> bool {
    &&& r.id is Some
    &&& forall|p: int|
        (#[trigger] wanted(table, r, p)) is Some ==> pending.contains(wanted(table, r, p)->Some_0)
}

/// Whether every row of a table is entered in every unique index that it
/// has a value for.
pub open spec fn indexed(table: TableModel, data: TableData) -> bool {
    forall|i: int| 0 <= i < data.rows.len() ==> row_indexed(table, #[trigger] data.rows[i], data.entries)
}

/// Whether no two rows of a table have the same value in a unique column,
/// unless it is `NULL`.
pub open spec fn unique_held(table: TableModel, data: TableData) -> bool {
    forall|i: int, j: int, p: int|
        0 <= i < j < data.rows.len() && (#[trigger] wanted(table, data.rows[i], p)) is Some && (
        #[trigger] wanted(table, data.rows[j], p)) is Some ==> data.rows[i].values[p]
            != data.rows[j].values[p]
}

/// In a table whose rows are all entered in its unique indexes, no two
/// rows have the same value in a unique column, unless it is `NULL`.
pub proof fn lemma_indexed_unique(table: TableModel, data: TableData)
    requires
        data.wf(),
        indexed(table, data),
    ensures
        unique_held(table, data),
{
    assert forall|i: int, j: int, p: int|
        0 <= i < j < data.rows.len() && (#[trigger] wanted(table, data.rows[i], p)) is Some && (
        #[trigger] wanted(table, data.rows[j], p)) is Some implies data.rows[i].values[p]
        != data.rows[j].values[p] by {
        let a = data.rows[i];
        let b = data.rows[j];
        if a.values[p] == b.values[p] {
            let ea = entry_of(wanted(table, a, p)->Some_0);
            let eb = entry_of(wanted(table, b, p)->Some_0);
            assert(row_indexed(table, a, data.entries));
            assert(row_indexed(table, b, data.entries));
            let ka = choose|k: int| 0 <= k < data.entries.len() && data.entries[k] == ea;
            let kb = choose|k: int| 0 <= k < data.entries.len() && data.entries[k] == eb;
            assert(data.entries[ka].key == data.entries[kb].key);
            assert(ka == kb);
            assert(ea.tuple_ids[0] == eb.tuple_ids[0]);
            assert(a.id == b.id);
        }
    }
}

/// The entries a row asks for cover every unique column among the first
/// `n` in which it is not `NULL`.
proof fn lemma_unique_entries_cover(table: TableModel, r: TupleModel, n: int, p: int)
    requires
        0 <= p < n <= table.columns.len(),
        n <= r.values.len(),
        wanted(table, r, p) is Some,
    ensures
        unique_entries(table, r, n).contains(wanted(table, r, p)->Some_0),
    decreases n,
{
    let all = unique_entries(table, r, n);
    if p == n - 1 {
        assert(all[all.len() - 1] == wanted(table, r, p)->Some_0);
    } else {
        lemma_unique_entries_cover(table, r, n - 1, p);
        let rest = unique_entries(table, r, n - 1);
        let k = choose|k: int| 0 <= k < rest.len() && rest[k] == wanted(table, r, p)->Some_0;
        assert(all[k] == rest[k]);
    }
}

/// Appending a row keeps the contents of a table well formed.
pub proof fn lemma_append_wf(data: TableData, t: TupleModel, is_overwrite: bool)
    requires
        data.wf(),
        data.append(t, is_overwrite) is Ok,
    ensures
        data.append(t, is_overwrite)->Ok_0.wf(),
{
    lemma_find_row_from(data.rows, t.id, 0);
    let after = data.append(t, is_overwrite)->Ok_0;
    assert forall|i: int, j: int| 0 <= i < j < after.rows.len() implies (#[trigger] after.rows[i]).id
        != (#[trigger] after.rows[j]).id by {
        match find_row(data.rows, t.id) {
            None => {
                if j < data.rows.len() {
                    assert(after.rows[i] == data.rows[i]);
                    assert(after.rows[j] == data.rows[j]);
                } else {
                    assert(after.rows[i] == data.rows[i]);
                }
            },
            Some(k) => {
                assert(after.rows[i].id == data.rows[i].id);
                assert(after.rows[j].id == data.rows[j].id);
            },
        }
    }
}

/// While rows are inserted the index entries of the table are unchanged,
/// its contents stay well formed, and every row of it is entered in the
/// unique indexes or has its entries noted.
proof fn lemma_insert_all_inv(
    table: TableModel,
    data: TableData,
    input: Seq<TupleModel>,
    is_overwrite: bool,
)
    requires
        table.wf(),
        data.wf(),
        indexed(table, data),
        insert_all(table, data, input, is_overwrite) is Ok,
    ensures
        ({
            let progress = insert_all(table, data, input, is_overwrite)->Ok_0;
            &&& progress.data.wf()
            &&& progress.data.entries == data.entries
            &&& forall|k: int|
                0 <= k < progress.data.rows.len() ==> row_indexed(
                    table,
                    #[trigger] progress.data.rows[k],
                    data.entries,
                ) || row_noted(table, progress.data.rows[k], progress.pending)
        }),
    decreases input.len(),
{
    if input.len() > 0 {
        lemma_insert_all_inv(table, data, input.drop_last(), is_overwrite);
        let before = insert_all(table, data, input.drop_last(), is_overwrite)->Ok_0;
        let after = insert_all(table, data, input, is_overwrite)->Ok_0;
        let row = reconstruct(table, input.last())->Ok_0;
        let n = table.columns.len() as int;
        lemma_target_values_len(table.columns, input.last(), n);
        lemma_append_wf(before.data, row, is_overwrite);
        lemma_find_row_from(before.data.rows, row.id, 0);
        let noted = unique_entries(table, row, n);
        assert(row_noted(table, row, after.pending)) by {
            assert forall|p: int| (#[trigger] wanted(table, row, p)) is Some implies after.pending.contains(
                wanted(table, row, p)->Some_0,
            ) by {
                lemma_unique_entries_cover(table, row, n, p);
                let k = choose|k: int| 0 <= k < noted.len() && noted[k] == wanted(table, row, p)->Some_0;
                assert(after.pending[before.pending.len() + k] == noted[k]);
            }
        }
        assert forall|k: int| 0 <= k < after.data.rows.len() implies row_indexed(
            table,
            #[trigger] after.data.rows[k],
            data.entries,
        ) || row_noted(table, after.data.rows[k], after.pending) by {
            let r = after.data.rows[k];
            if r != row {
                assert(k < before.data.rows.len() && r == before.data.rows[k]);
                if !row_indexed(table, r, data.entries) {
                    assert(row_noted(table, r, before.pending));
                    assert forall|p: int| (#[trigger] wanted(table, r, p)) is Some implies after.pending.contains(
                        wanted(table, r, p)->Some_0,
                    ) by {
                        let x = wanted(table, r, p)->Some_0;
                        let i = choose|i: int| 0 <= i < before.pending.len() && before.pending[i] == x;
                        assert(after.pending[i] == x);
                    }
                }
            }
        }
    }
}

/// Making the noted entries keeps the rows of a table, keeps its contents
/// well formed, keeps every entry it had, and makes every noted entry.
proof fn lemma_flush_inv(data: TableData, pending: Seq<PendingModel>)
    requires
        data.wf(),
        flush(data, pending) is Ok,
    ensures
        ({
            let after = flush(data, pending)->Ok_0;
            &&& after.wf()
            &&& after.rows == data.rows
            &&& forall|k: int|
                0 <= k < data.entries.len() ==> after.entries.contains(#[trigger] data.entries[k])
            &&& forall|k: int|
                0 <= k < pending.len() ==> after.entries.contains(entry_of(#[trigger] pending[k]))
        }),
    decreases pending.len(),
{
    if pending.len() > 0 {
        let init = pending.drop_last();
        lemma_flush_inv(data, init);
        let before = flush(data, init)->Ok_0;
        let after = flush(data, pending)->Ok_0;
        let note = pending.last();
        lemma_find_entry_from(before.entries, note.key, 0);
        match find_entry(before.entries, note.key) {
            None => {
                assert(after.entries[after.entries.len() - 1] == entry_of(note));
                assert forall|i: int, j: int| 0 <= i < j < after.entries.len() implies (
                #[trigger] after.entries[i]).key != (#[trigger] after.entries[j]).key by {
                    assert(after.entries[i] == before.entries[i]);
                    if j < before.entries.len() {
                        assert(after.entries[j] == before.entries[j]);
                    }
                }
            },
            Some(i) => {
                assert(before.entries[i] == entry_of(note));
            },
        }
        assert forall|k: int| 0 <= k < data.entries.len() implies after.entries.contains(
            #[trigger] data.entries[k],
        ) by {
            let i = choose|i: int| 0 <= i < before.entries.len() && before.entries[i] == data.entries[k];
            assert(after.entries[i] == data.entries[k]);
        }
        assert forall|k: int| 0 <= k < pending.len() implies after.entries.contains(
            entry_of(#[trigger] pending[k]),
        ) by {
            if k < init.len() {
                assert(init[k] == pending[k]);
                let i = choose|i: int|
                    0 <= i < before.entries.len() && before.entries[i] == entry_of(init[k]);
                assert(after.entries[i] == entry_of(pending[k]));
            } else {
                let i = choose|i: int| 0 <= i < after.entries.len() && after.entries[i] == entry_of(note);
                assert(after.entries[i] == entry_of(pending[k]));
            }
        }
    }
}

/// If every row of a table is entered in its unique indexes, then after an
/// insert that succeeds the same holds, and so no two rows of the table
/// have the same value in a unique column, unless it is `NULL`.
pub proof fn lemma_insert_keeps_unique(
    table: TableModel,
    data: TableData,
    input: Seq<TupleModel>,
    is_overwrite: bool,
)
    requires
        table.wf(),
        data.wf(),
        indexed(table, data),
        insert(table, data, input, is_overwrite) is Ok,
    ensures
        insert(table, data, input, is_overwrite)->Ok_0.wf(),
        indexed(table, insert(table, data, input, is_overwrite)->Ok_0),
        unique_held(table, insert(table, data, input, is_overwrite)->Ok_0),
{
    lemma_insert_all_inv(table, data, input, is_overwrite);
    let progress = insert_all(table, data, input, is_overwrite)->Ok_0;
    lemma_flush_inv(progress.data, progress.pending);
    let after = insert(table, data, input, is_overwrite)->Ok_0;
    assert forall|i: int| 0 <= i < after.rows.len() implies row_indexed(
        table,
        #[trigger] after.rows[i],
        after.entries,
    ) by {
        let r = after.rows[i];
        assert(r == progress.data.rows[i]);
        assert forall|p: int| (#[trigger] wanted(table, r, p)) is Some implies after.entries.contains(
            entry_of(wanted(table, r, p)->Some_0),
        ) by {
            let x = wanted(table, r, p)->Some_0;
            if row_indexed(table, r, data.entries) {
                let k = choose|k: int| 0 <= k < data.entries.len() && data.entries[k] == entry_of(x);
                assert(after.entries.contains(progress.data.entries[k]));
            } else {
                let k = choose|k: int| 0 <= k < progress.pending.len() && progress.pending[k] == x;
                assert(after.entries.contains(entry_of(progress.pending[k])));
            }
        }
    }
    lemma_indexed_unique(table, after);
}

/// A table without rows has every row entered in its unique indexes.
pub proof fn lemma_empty_indexed(table: TableModel)
    ensures
        indexed(table, TableData::empty()),
{
}

/// What a row provides for a column is one of its values.
proof fn lemma_provided_upto(t: TupleModel, id: ColumnId, n: int)
    requires
        0 <= n <= width(t),
        provided_upto(t, id, n) is Some,
    ensures
        exists|j: int| 0 <= j < n && t.values[j] == provided_upto(t, id, n)->Some_0,
    decreases n,
{
    if n > 0 {
        if t.columns[n - 1].id == Some(id) {
            assert(t.values[n - 1] == provided_upto(t, id, n)->Some_0);
        } else {
            lemma_provided_upto(t, id, n - 1);
            let j = choose|j: int| 0 <= j < n - 1 && t.values[j] == provided_upto(t, id, n - 1)->Some_0;
            assert(0 <= j < n && t.values[j] == provided_upto(t, id, n)->Some_0);
        }
    }
}

proof fn lemma_target_values_typed(cols: Seq<ColumnModel>, t: TupleModel, n: int)
    requires
        0 <= n <= cols.len(),
        forall|j: int| 0 <= j < width(t) ==> (#[trigger] t.values[j]).wf(),
        target_values(cols, t, n) is Ok,
    ensures
        target_values(cols, t, n)->Ok_0.len() == n,
        forall|p: int|
            0 <= p < n ==> {
                let v = #[trigger] target_values(cols, t, n)->Ok_0[p];
                &&& v.wf()
                &&& v.ty == cols[p].datatype()
                &&& v.is_null() ==> cols[p].nullable
            },
    decreases n,
{
    if n > 0 {
        lemma_target_values_typed(cols, t, n - 1);
        let c = cols[n - 1];
        let given = match provided(t, c) {
            Some(v) => v,
            None => crate::types::Datum::null(c.datatype()),
        };
        if provided(t, c) is Some {
            lemma_provided_upto(t, c.id->Some_0, width(t));
        }
        lemma_cast_result(given, c.datatype());
    }
}

/// A row in the layout of a table is well formed: it has the columns of
/// the table and one value per column, every value has the type of its
/// column, and a value is `NULL` only in a column that admits it.
pub proof fn lemma_reconstruct_wf(table: TableModel, t: TupleModel)
    requires
        forall|j: int| 0 <= j < width(t) ==> (#[trigger] t.values[j]).wf(),
        reconstruct(table, t) is Ok,
    ensures
        reconstruct(table, t)->Ok_0.wf(),
        reconstruct(table, t)->Ok_0.columns == table.columns,
        forall|p: int|
            0 <= p < table.columns.len() ==> {
                let v = #[trigger] reconstruct(table, t)->Ok_0.values[p];
                &&& v.ty == table.columns[p].datatype()
                &&& v.is_null() ==> table.columns[p].nullable
            },
{
    lemma_target_values_typed(table.columns, t, table.columns.len() as int);
}

/// The projection that yields every column of a table: one reference per
/// column, in the order of the table.
pub open spec fn full_projection(cols: Seq<ColumnModel>) -> Seq<ExprModel> {
    cols.map_values(|c: ColumnModel| ExprModel::ColumnRef(c))
}

/// In a well-formed table a column is found at its own position.
proof fn lemma_column_at_its_position(table: TableModel, k: int)
    requires
        table.wf(),
        0 <= k < table.columns.len(),
    ensures
        column_position_from(table.columns, table.columns[k], 0) == Some(k),
{
    let cols = table.columns;
    lemma_column_position_from(cols, cols[k], 0);
    let found = column_position_from(cols, cols[k], 0);
    assert(cols[k].denotes(cols[k]));
    assert(found is Some);
    assert(cols[found->Some_0].id == Some((table.first_id + found->Some_0) as u32));
    assert(cols[k].id == Some((table.first_id + k) as u32));
}

proof fn lemma_full_projection_values(table: TableModel, row: TupleModel, n: int)
    requires
        table.wf(),
        row.columns == table.columns,
        row.values.len() == table.columns.len(),
        0 <= n <= table.columns.len(),
    ensures
        project_values(full_projection(table.columns).take(n), row) == Ok::<
            Seq<crate::types::Datum>,
            crate::errors::StorageError,
        >(row.values.take(n)),
    decreases n,
{
    let all = full_projection(table.columns);
    if n == 0 {
        assert(row.values.take(0) =~= Seq::empty());
    } else {
        lemma_full_projection_values(table, row, n - 1);
        lemma_column_at_its_position(table, n - 1);
        assert(all.take(n).drop_last() =~= all.take(n - 1));
        assert(all.take(n).last() == ExprModel::ColumnRef(table.columns[n - 1]));
        assert(row.values.take(n) =~= row.values.take(n - 1).push(row.values[n - 1]));
    }
}

/// A row in the layout of a table is read back as it is by the projection
/// that yields every column of the table.
pub proof fn lemma_full_projection(table: TableModel, row: TupleModel)
    requires
        table.wf(),
        row.columns == table.columns,
        row.values.len() == table.columns.len(),
    ensures
        project(full_projection(table.columns), row) == Ok::<
            TupleModel,
            crate::errors::StorageError,
        >(row),
{
    let all = full_projection(table.columns);
    lemma_full_projection_values(table, row, table.columns.len() as int);
    assert(all.take(table.columns.len() as int) =~= all);
    assert(row.values.take(table.columns.len() as int) =~= row.values);
    let out = project(all, row)->Ok_0;
    assert(out.columns =~= row.columns);
}

/// What is inserted is what is read back: the row that an insert stores
/// for a row of its input has the values of that row cast to the types of
/// the columns, and the projection that yields every column of the table
/// yields exactly the stored row.
pub proof fn lemma_round_trip(table: TableModel, t: TupleModel)
    requires
        table.wf(),
        reconstruct(table, t) is Ok,
    ensures
        project(full_projection(table.columns), reconstruct(table, t)->Ok_0) == Ok::<
            TupleModel,
            crate::errors::StorageError,
        >(reconstruct(table, t)->Ok_0),
        forall|p: int|
            0 <= p < table.columns.len() ==> Ok::<crate::types::Datum, crate::errors::ExecutorError>(
                #[trigger] reconstruct(table, t)->Ok_0.values[p],
            ) == target_value(table.columns[p], t),
{
    let n = table.columns.len() as int;
    lemma_target_values_len(table.columns, t, n);
    lemma_full_projection(table, reconstruct(table, t)->Ok_0);
    lemma_target_values_each(table.columns, t, n);
}

proof fn lemma_target_values_each(cols: Seq<ColumnModel>, t: TupleModel, n: int)
    requires
        0 <= n <= cols.len(),
        target_values(cols, t, n) is Ok,
    ensures
        target_values(cols, t, n)->Ok_0.len() == n,
        forall|p: int|
            0 <= p < n ==> Ok::<crate::types::Datum, crate::errors::ExecutorError>(
                #[trigger] target_values(cols, t, n)->Ok_0[p],
            ) == target_value(cols[p], t),
    decreases n,
{
    if n > 0 {
        lemma_target_values_each(cols, t, n - 1);
    }
}

} // verus!
