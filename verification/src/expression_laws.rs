//! Laws of evaluation: the value of a well-typed expression has the type
//! the expression declares.

use crate::catalog::ColumnModel;
use crate::expression::{column_position_from, ExprModel};
use crate::tuple::TupleModel;
use crate::types::LogicalType;
use vstd::prelude::*;

verus! {

impl ExprModel {
    /// Whether the expression can be trusted on a row: every constant of
    /// it is well formed, every column of the row that a column reference
    /// denotes has the type of the reference, and every position of the row
    /// that a positional reference points to has the type of the
    /// reference.
    pub open spec fn fits(self, t: TupleModel) -> bool
        decreases self,
    {
        match self {
            ExprModel::Constant(v) => v.wf(),
            ExprModel::ColumnRef(c) => forall|i: int|
                0 <= i < t.columns.len() && c.denotes(#[trigger] t.columns[i])
                    ==> t.columns[i].datatype() == c.datatype(),
            ExprModel::InputRef { index, ty } => index < t.columns.len() ==> t.columns[index as int].datatype()
                == ty,
            ExprModel::Alias { expr, .. } => expr.fits(t),
            ExprModel::Binary { left_expr, right_expr, .. } => left_expr.fits(t) && right_expr.fits(
                t,
            ),
            ExprModel::Unary { expr, .. } => expr.fits(t),
            ExprModel::AggCall { .. } => true,
        }
    }
}

/// What [`column_position_from`] finds is a position at or after `start`
/// whose column is the one looked for.
pub proof fn lemma_column_position_from(cols: Seq<ColumnModel>, col: ColumnModel, start: int)
    requires
        0 <= start,
    ensures
        match column_position_from(cols, col, start) {
            Some(i) => start <= i < cols.len() && col.denotes(cols[i]),
            None => forall|j: int| start <= j < cols.len() ==> !col.denotes(cols[j]),
        },
    decreases cols.len() - start,
{
    if start < cols.len() && !col.denotes(cols[start]) {
        lemma_column_position_from(cols, col, start + 1);
    }
}

/// Casts compose: what can be cast to a type can be cast to every type
/// that type can be cast to.
pub proof fn lemma_castable_transitive(a: LogicalType, b: LogicalType, c: LogicalType)
    requires
        a.castable_to(b),
        b.castable_to(c),
    ensures
        a.castable_to(c),
{
}

/// Promotion is monotone: the common type of two types can be cast to the
/// common type of any two types they can be cast to.
pub proof fn lemma_lub_monotone(a: LogicalType, b: LogicalType, x: LogicalType, y: LogicalType)
    requires
        a.castable_to(x),
        b.castable_to(y),
        a.lub(b) is Ok,
        x.lub(y) is Ok,
    ensures
        a.lub(b)->Ok_0.castable_to(x.lub(y)->Ok_0),
{
}

/// The value of a well-typed expression on a well-formed row it fits is
/// well formed, and its type can be cast to the type the expression
/// declares.
pub proof fn lemma_eval_type(e: ExprModel, t: TupleModel)
    requires
        e.well_typed(),
        e.fits(t),
        t.wf(),
        e.eval(t) is Ok,
    ensures
        e.eval(t)->Ok_0.wf(),
        e.eval(t)->Ok_0.ty.castable_to(e.return_type()),
    decreases e,
{
    match e {
        ExprModel::ColumnRef(c) => {
            lemma_column_position_from(t.columns, c, 0);
        },
        ExprModel::Alias { expr, .. } => {
            lemma_eval_type(*expr, t);
        },
        ExprModel::Binary { op, left_expr, right_expr, ty } => {
            lemma_eval_type(*left_expr, t);
            lemma_eval_type(*right_expr, t);
            let a = left_expr.eval(t)->Ok_0;
            let b = right_expr.eval(t)->Ok_0;
            crate::value_compute::lemma_binary_op_type(op, a, b);
            if op.is_arithmetic() {
                lemma_lub_monotone(a.ty, b.ty, left_expr.return_type(), right_expr.return_type());
            }
        },
        ExprModel::Unary { op, expr, ty } => {
            lemma_eval_type(*expr, t);
        },
        _ => {},
    }
}

} // verus!
