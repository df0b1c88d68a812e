//! Laws of a scan: the rows it yields until it ends are the projections of
//! the rows of its window.

use crate::errors::StorageError;
use crate::expression::ExprModel;
use crate::storage::model::ScanModel;
use crate::storage::project;
use crate::tuple::TupleModel;
use vstd::prelude::*;

verus! {

/// The rows that a scan of `rows` visits: what is left once `offset` rows
/// are skipped, and of that no more than `limit` rows.
pub open spec fn window(rows: Seq<TupleModel>, offset: usize, limit: Option<usize>) -> Seq<
    TupleModel,
> {
    let rest = if offset <= rows.len() {
        rows.skip(offset as int)
    } else {
        Seq::empty()
    };
    match limit {
        Some(n) if n < rest.len() => rest.take(n as int),
        _ => rest,
    }
}

/// The projections of the rows, in order, or the failure of the first row
/// whose projection fails.
pub open spec fn project_all(projections: Seq<ExprModel>, rows: Seq<TupleModel>) -> Result<
    Seq<TupleModel>,
    StorageError,
>
    decreases rows.len(),
{
    if rows.len() == 0 {
        Ok(Seq::empty())
    } else {
        match project(projections, rows[0]) {
            Err(e) => Err(e),
            Ok(t) => match project_all(projections, rows.skip(1)) {
                Err(e) => Err(e),
                Ok(rest) => Ok(seq![t] + rest),
            },
        }
    }
}

/// The rows a scan yields if it is stepped until it yields nothing, or the
/// first failure of a step.
pub open spec fn drain(scan: ScanModel) -> Result<Seq<TupleModel>, StorageError>
    decreases scan.skipped().len(),
{
    if scan.done() {
        Ok(Seq::empty())
    } else {
        match scan.next() {
            Err(e) => Err(e),
            Ok(None) => Ok(Seq::empty()),
            Ok(Some(t)) => match drain(scan.stepped()) {
                Err(e) => Err(e),
                Ok(rest) => Ok(seq![t] + rest),
            },
        }
    }
}

/// A scan that is stepped until it yields nothing, or until a step fails,
/// yields the projections of the rows of its window.
pub proof fn lemma_scan_yields_window(scan: ScanModel)
    ensures
        drain(scan) == project_all(scan.projections, window(scan.rest, scan.offset, scan.limit)),
    decreases scan.skipped().len(),
{
    let rows = window(scan.rest, scan.offset, scan.limit);
    if scan.done() {
        assert(rows.len() == 0);
    } else {
        let next = scan.stepped();
        let first = scan.skipped()[0];
        assert(rows[0] == first);
        assert(next.skipped() =~= scan.skipped().skip(1));
        if project(scan.projections, first) is Ok {
            lemma_scan_yields_window(next);
            assert(window(next.rest, next.offset, next.limit) =~= rows.skip(1));
        }
    }
}

} // verus!
