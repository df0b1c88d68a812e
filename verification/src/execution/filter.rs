//! The filter of a physical plan: it keeps the rows of its input on which
//! a predicate is true.

use crate::errors::ExecutorError;
use crate::execution::hash_join::rows_result;
use crate::expression::{ExprModel, ScalarExpression};
use crate::tuple::{tuples_view, Tuple, TupleModel};
use crate::types::{DataValue, LogicalType, Payload};
use vstd::prelude::*;

verus! {

/// A node of a physical plan.
#[derive(Debug)]
pub enum PhysicalOperator {
    /// Rows that are given as they are.
    Values(Vec<Tuple>),
    Filter(PhysicalFilter),
}

/// A filter and the plan of its input.
#[derive(Debug)]
pub struct PhysicalFilter {
    pub predicate: ScalarExpression,
    pub input: Box<PhysicalOperator>,
}

/// The rows among `rows` on which the predicate is true, in their order.
/// A predicate that fails on a row, or yields a value that is not a
/// Boolean, fails the whole; the first such row decides.
pub open spec fn filter_rows(predicate: ExprModel, rows: Seq<TupleModel>) -> Result<
    Seq<TupleModel>,
    ExecutorError,
>
    decreases rows.len(),
{
    if rows.len() == 0 {
        Ok(Seq::empty())
    } else {
        match filter_rows(predicate, rows.drop_last()) {
            Err(e) => Err(e),
            Ok(kept) => match predicate.eval(rows.last()) {
                Err(e) => Err(ExecutorError::TypeError(e)),
                Ok(v) => if v.ty != LogicalType::Boolean {
                    Err(ExecutorError::NonBooleanPredicate)
                } else if v.payload == Some(Payload::Bool(true)) {
                    Ok(kept.push(rows.last()))
                } else {
                    Ok(kept)
                },
            },
        }
    }
}

/// The rows a plan yields.
pub open spec fn run(plan: PhysicalOperator) -> Result<Seq<TupleModel>, ExecutorError>
    decreases plan,
{
    match plan {
        PhysicalOperator::Values(rows) => Ok(tuples_view(rows@)),
        PhysicalOperator::Filter(filter) => match run(*filter.input) {
            Err(e) => Err(e),
            Ok(rows) => filter_rows(filter.predicate@, rows),
        },
    }
}

proof fn lemma_filter_rows_error(predicate: ExprModel, rows: Seq<TupleModel>, n: int)
    requires
        0 <= n <= rows.len(),
        filter_rows(predicate, rows.take(n)) is Err,
    ensures
        filter_rows(predicate, rows) == filter_rows(predicate, rows.take(n)),
    decreases rows.len() - n,
{
    if n < rows.len() {
        assert(rows.take(n + 1).drop_last() =~= rows.take(n));
        lemma_filter_rows_error(predicate, rows, n + 1);
    } else {
        assert(rows.take(n) =~= rows);
    }
}

/// Every row a filter keeps is a row of its input.
pub proof fn lemma_filter_rows_subset(predicate: ExprModel, rows: Seq<TupleModel>)
    requires
        filter_rows(predicate, rows) is Ok,
    ensures
        filter_rows(predicate, rows)->Ok_0.len() <= rows.len(),
        forall|k: int|
            0 <= k < filter_rows(predicate, rows)->Ok_0.len() ==> rows.contains(
                #[trigger] filter_rows(predicate, rows)->Ok_0[k],
            ),
    decreases rows.len(),
{
    if rows.len() > 0 {
        let init = rows.drop_last();
        lemma_filter_rows_subset(predicate, init);
        let kept = filter_rows(predicate, init)->Ok_0;
        let all = filter_rows(predicate, rows)->Ok_0;
        assert forall|k: int| 0 <= k < all.len() implies rows.contains(#[trigger] all[k]) by {
            if k < kept.len() {
                let i = choose|i: int| 0 <= i < init.len() && init[i] == kept[k];
                assert(rows[i] == all[k]);
            } else {
                assert(rows[rows.len() - 1] == all[k]);
            }
        }
    }
}

/// A filter keeps rows well formed: every row it yields is well formed if
/// every row of its input is.
pub proof fn lemma_filter_rows_wf(predicate: ExprModel, rows: Seq<TupleModel>)
    requires
        forall|i: int| 0 <= i < rows.len() ==> (#[trigger] rows[i]).wf(),
        filter_rows(predicate, rows) is Ok,
    ensures
        forall|k: int|
            0 <= k < filter_rows(predicate, rows)->Ok_0.len() ==> (#[trigger] filter_rows(
                predicate,
                rows,
            )->Ok_0[k]).wf(),
{
    lemma_filter_rows_subset(predicate, rows);
    let kept = filter_rows(predicate, rows)->Ok_0;
    assert forall|k: int| 0 <= k < kept.len() implies (#[trigger] kept[k]).wf() by {
        let i = choose|i: int| 0 <= i < rows.len() && rows[i] == kept[k];
        assert(rows[i].wf());
    }
}

impl PhysicalOperator {
    /// The rows the plan yields; see [`run`].
    pub fn execute(&self) -> (r: Result<Vec<Tuple>, ExecutorError>)
        ensures
            rows_result(r) == run(*self),
        decreases self,
    {
        match self {
            PhysicalOperator::Values(rows) => {
                let mut out: Vec<Tuple> = Vec::with_capacity(rows.len());
                let mut i: usize = 0;
                while i < rows.len()
                    invariant
                        i <= rows.len(),
                        out.len() == i,
                        forall|j: int| 0 <= j < i ==> (#[trigger] out@[j])@ == rows@[j]@,
                    decreases rows.len() - i,
                {
                    out.push(rows[i].duplicate());
                    i = i + 1;
                }
                assert(tuples_view(out@) =~= tuples_view(rows@));
                Ok(out)
            },
            PhysicalOperator::Filter(filter) => filter.execute(),
        }
    }
}

impl PhysicalFilter {
    /// The rows of the input on which the predicate is true; see
    /// [`filter_rows`].
    pub fn execute(&self) -> (r: Result<Vec<Tuple>, ExecutorError>)
        ensures
            rows_result(r) == run(PhysicalOperator::Filter(*self)),
        decreases self,
    {
        let input = match self.input.execute() {
            Err(e) => {
                return Err(e);
            },
            Ok(rows) => rows,
        };
        let ghost rows = tuples_view(input@);
        let mut out: Vec<Tuple> = Vec::new();
        let mut i: usize = 0;
        assert(rows.take(0) =~= Seq::empty());
        assert(tuples_view(out@) =~= Seq::empty());
        while i < input.len()
            invariant
                i <= input.len(),
                rows == tuples_view(input@),
                run(*self.input) == Ok::<Seq<TupleModel>, ExecutorError>(rows),
                filter_rows(self.predicate@, rows.take(i as int)) matches Ok(kept) && kept
                    == tuples_view(out@),
            decreases input.len() - i,
        {
            proof {
                assert(rows.take(i as int + 1).drop_last() =~= rows.take(i as int));
                assert(rows.take(i as int + 1).last() == input@[i as int]@);
            }
            match self.predicate.eval_column(&input[i]) {
                Err(e) => {
                    proof {
                        lemma_filter_rows_error(self.predicate@, rows, i as int + 1);
                    }
                    return Err(ExecutorError::TypeError(e));
                },
                Ok(v) => match &*v {
                    DataValue::Boolean(Some(true)) => {
                        let ghost prev = tuples_view(out@);
                        out.push(input[i].duplicate());
                        assert(tuples_view(out@) =~= prev.push(input@[i as int]@));
                    },
                    DataValue::Boolean(_) => {},
                    _ => {
                        proof {
                            lemma_filter_rows_error(self.predicate@, rows, i as int + 1);
                        }
                        return Err(ExecutorError::NonBooleanPredicate);
                    },
                },
            }
            i = i + 1;
        }
        assert(rows.take(input.len() as int) =~= rows);
        Ok(out)
    }
}

} // verus!
