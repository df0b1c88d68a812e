//! Typed scalar expressions and their evaluation against a row.

use crate::catalog::{ColumnModel, ColumnRef};
use crate::tuple::{Tuple, TupleModel};
use crate::types::{share, DataValue, Datum, LogicalType, TypeError, ValueRef};
use crate::value_compute::{
    binary_op, binary_op_spec, unary_op, unary_op_spec, BinaryOperator, UnaryOperator,
};
use std::sync::Arc;
use vstd::prelude::*;

verus! {

/// The aggregate functions.
#[derive(Clone, Copy, Debug, PartialEq, Eq, Hash, Structural)]
pub enum AggKind {
    Count,
    Sum,
    Min,
    Max,
    Avg,
}

/// A scalar expression whose names are resolved and whose operators carry
/// the type of their result.
#[derive(Debug, PartialEq, Eq)]
#[allow(inconsistent_fields)]
pub enum ScalarExpression {
    Constant(ValueRef),
    ColumnRef(ColumnRef),
    /// The value at a position of the row.
    InputRef { index: usize, ty: LogicalType },
    Alias { expr: Box<ScalarExpression>, alias: String },
    Binary {
        op: BinaryOperator,
        left_expr: Box<ScalarExpression>,
        right_expr: Box<ScalarExpression>,
        ty: LogicalType,
    },
    Unary { op: UnaryOperator, expr: Box<ScalarExpression>, ty: LogicalType },
    AggCall { distinct: bool, kind: AggKind, args: Vec<ScalarExpression>, ty: LogicalType },
}

/// The model of a scalar expression.
#[allow(inconsistent_fields)]
pub enum ExprModel {
    Constant(Datum),
    ColumnRef(ColumnModel),
    InputRef { index: nat, ty: LogicalType },
    Alias { expr: Box<ExprModel>, alias: Seq<char> },
    Binary { op: BinaryOperator, left_expr: Box<ExprModel>, right_expr: Box<ExprModel>, ty: LogicalType },
    Unary { op: UnaryOperator, expr: Box<ExprModel>, ty: LogicalType },
    AggCall { distinct: bool, kind: AggKind, args: Seq<ExprModel>, ty: LogicalType },
}

/// The model of an expression.
pub open spec fn expr_model(e: ScalarExpression) -> ExprModel
    decreases e,
{
    match e {
        ScalarExpression::Constant(v) => ExprModel::Constant(v@),
        ScalarExpression::ColumnRef(c) => ExprModel::ColumnRef(c@),
        ScalarExpression::InputRef { index, ty } => ExprModel::InputRef { index: index as nat, ty },
        ScalarExpression::Alias { expr, alias } => ExprModel::Alias {
            expr: Box::new(expr_model(*expr)),
            alias: alias@,
        },
        ScalarExpression::Binary { op, left_expr, right_expr, ty } => ExprModel::Binary {
            op,
            left_expr: Box::new(expr_model(*left_expr)),
            right_expr: Box::new(expr_model(*right_expr)),
            ty,
        },
        ScalarExpression::Unary { op, expr, ty } => ExprModel::Unary {
            op,
            expr: Box::new(expr_model(*expr)),
            ty,
        },
        ScalarExpression::AggCall { distinct, kind, args, ty } => ExprModel::AggCall {
            distinct,
            kind,
            args: Seq::new(
                args.len() as nat,
                |i: int|
                    if 0 <= i < args.len() {
                        expr_model(args@[i])
                    } else {
                        ExprModel::Constant(Datum::null(LogicalType::SqlNull))
                    },
            ),
            ty,
        },
    }
}

impl View for ScalarExpression {
    type V = ExprModel;

    open spec fn view(&self) -> ExprModel {
        expr_model(*self)
    }
}

/// The models of a list of expressions.
pub open spec fn exprs_view(exprs: Seq<ScalarExpression>) -> Seq<ExprModel> {
    exprs.map_values(|e: ScalarExpression| e@)
}

impl ColumnModel {
    /// Whether `other` is this column: a column that a table owns is known
    /// by its identifier, any other column by its name.
    pub open spec fn denotes(self, other: ColumnModel) -> bool {
        match self.id {
            Some(_) => other.id == self.id,
            None => other.id is None && other.name == self.name,
        }
    }
}

/// The first position at or after `start` whose column is `col`.
pub open spec fn column_position_from(cols: Seq<ColumnModel>, col: ColumnModel, start: int) -> Option<
    int,
>
    decreases cols.len() - start,
{
    if start < 0 || start >= cols.len() {
        None
    } else if col.denotes(cols[start]) {
        Some(start)
    } else {
        column_position_from(cols, col, start + 1)
    }
}

impl ExprModel {
    /// The type of the values the expression yields.
    pub open spec fn return_type(self) -> LogicalType
        decreases self,
    {
        match self {
            ExprModel::Constant(v) => v.ty,
            ExprModel::ColumnRef(c) => c.datatype(),
            ExprModel::InputRef { ty, .. } => ty,
            ExprModel::Alias { expr, .. } => expr.return_type(),
            ExprModel::Binary { ty, .. } => ty,
            ExprModel::Unary { ty, .. } => ty,
            ExprModel::AggCall { ty, .. } => ty,
        }
    }

    /// The value of the expression on a row.
    ///
    /// A constant is its value. A column reference is the value at the first
    /// position of the row that holds that column, and the `NULL` of the
    /// column's type if the row does not hold it. A positional reference is
    /// the value at that position, and the `NULL` of its type beyond the end
    /// of the row. An alias is its inner expression. An operator is applied
    /// to the values of its operands, and the first failure among them is
    /// the failure of the whole. An aggregate call has no value on a single
    /// row: it fails with `InvalidType`.
    pub open spec fn eval(self, t: TupleModel) -> Result<Datum, TypeError>
        decreases self,
    {
        match self {
            ExprModel::Constant(v) => Ok(v),
            ExprModel::ColumnRef(c) => match column_position_from(t.columns, c, 0) {
                Some(i) if i < t.values.len() => Ok(t.values[i]),
                _ => Ok(Datum::null(c.datatype())),
            },
            ExprModel::InputRef { index, ty } => if index < t.values.len() {
                Ok(t.values[index as int])
            } else {
                Ok(Datum::null(ty))
            },
            ExprModel::Alias { expr, .. } => expr.eval(t),
            ExprModel::Binary { op, left_expr, right_expr, .. } => match left_expr.eval(t) {
                Err(e) => Err(e),
                Ok(a) => match right_expr.eval(t) {
                    Err(e) => Err(e),
                    Ok(b) => binary_op_spec(op, a, b),
                },
            },
            ExprModel::Unary { op, expr, .. } => match expr.eval(t) {
                Err(e) => Err(e),
                Ok(a) => unary_op_spec(op, a),
            },
            ExprModel::AggCall { .. } => Err(TypeError::InvalidType),
        }
    }
}

/// The model of the outcome of an evaluation.
pub open spec fn shared_result(r: Result<ValueRef, TypeError>) -> Result<Datum, TypeError> {
    match r {
        Ok(v) => Ok(v@),
        Err(e) => Err(e),
    }
}

impl ExprModel {
    /// Whether every operator of the expression carries the type its
    /// operands give it: an arithmetic operator the common type of its
    /// operands, a comparison, a logical operator and `NOT` the Boolean
    /// type, a sign the type of its operand, `COUNT` the integer type and
    /// any other aggregate the type of its first argument.
    pub open spec fn well_typed(self) -> bool
        decreases self,
    {
        match self {
            ExprModel::Alias { expr, .. } => expr.well_typed(),
            ExprModel::Binary { op, left_expr, right_expr, ty } => {
                &&& left_expr.well_typed()
                &&& right_expr.well_typed()
                &&& if op.is_arithmetic() {
                    left_expr.return_type().lub(right_expr.return_type()) == Ok::<
                        LogicalType,
                        TypeError,
                    >(ty)
                } else {
                    ty == LogicalType::Boolean
                }
            },
            ExprModel::Unary { op, expr, ty } => {
                &&& expr.well_typed()
                &&& if op == UnaryOperator::Not {
                    ty == LogicalType::Boolean
                } else {
                    ty == expr.return_type()
                }
            },
            ExprModel::AggCall { kind, args, ty, .. } => {
                &&& args.len() > 0
                &&& forall|i: int| 0 <= i < args.len() ==> (#[trigger] args[i]).well_typed()
                &&& if kind == AggKind::Count {
                    ty == LogicalType::Integer
                } else {
                    ty == args[0].return_type()
                }
            },
            _ => true,
        }
    }
}

impl ScalarExpression {
    /// A copy of the expression that shares its values and columns.
    pub fn duplicate(&self) -> (r: ScalarExpression)
        ensures
            r@ == self@,
        decreases self,
    {
        match self {
            ScalarExpression::Constant(v) => ScalarExpression::Constant(share(v)),
            ScalarExpression::ColumnRef(c) => ScalarExpression::ColumnRef(share(c)),
            ScalarExpression::InputRef { index, ty } => ScalarExpression::InputRef {
                index: *index,
                ty: *ty,
            },
            ScalarExpression::Alias { expr, alias } => ScalarExpression::Alias {
                expr: Box::new(expr.duplicate()),
                alias: alias.clone(),
            },
            ScalarExpression::Binary { op, left_expr, right_expr, ty } => ScalarExpression::Binary {
                op: *op,
                left_expr: Box::new(left_expr.duplicate()),
                right_expr: Box::new(right_expr.duplicate()),
                ty: *ty,
            },
            ScalarExpression::Unary { op, expr, ty } => ScalarExpression::Unary {
                op: *op,
                expr: Box::new(expr.duplicate()),
                ty: *ty,
            },
            ScalarExpression::AggCall { distinct, kind, args, ty } => {
                let mut copies: Vec<ScalarExpression> = Vec::with_capacity(args.len());
                let mut i: usize = 0;
                while i < args.len()
                    invariant
                        i <= args.len(),
                        copies.len() == i,
                        *self == (ScalarExpression::AggCall {
                            distinct: *distinct,
                            kind: *kind,
                            args: *args,
                            ty: *ty,
                        }),
                        forall|j: int| 0 <= j < i ==> (#[trigger] copies@[j])@ == args@[j]@,
                    decreases args.len() - i,
                {
                    proof {
                        vstd::std_specs::vec::axiom_vec_index_decreases(*args, i as int);
                        assert(self->args == *args);
                        assert(decreases_to!(*self => self->args));
                        assert(decreases_to!(*self => args[i as int]));
                    }
                    copies.push(args[i].duplicate());
                    i = i + 1;
                }
                let r = ScalarExpression::AggCall {
                    distinct: *distinct,
                    kind: *kind,
                    args: copies,
                    ty: *ty,
                };
                assert(r@->AggCall_args =~= self@->AggCall_args);
                r
            },
        }
    }

    /// The type of the values the expression yields.
    pub fn return_type(&self) -> (r: LogicalType)
        ensures
            r == self@.return_type(),
        decreases self,
    {
        match self {
            ScalarExpression::Constant(v) => v.logical_type(),
            ScalarExpression::ColumnRef(c) => *c.datatype(),
            ScalarExpression::InputRef { ty, .. } => *ty,
            ScalarExpression::Alias { expr, .. } => expr.return_type(),
            ScalarExpression::Binary { ty, .. } => *ty,
            ScalarExpression::Unary { ty, .. } => *ty,
            ScalarExpression::AggCall { ty, .. } => *ty,
        }
    }

    /// The value of the expression on a row; see [`ExprModel::eval`].
    pub fn eval_column(&self, tuple: &Tuple) -> (r: Result<ValueRef, TypeError>)
        ensures
            shared_result(r) == self@.eval(tuple@),
        decreases self,
    {
        match self {
            ScalarExpression::Constant(v) => Ok(share(v)),
            ScalarExpression::ColumnRef(c) => {
                let mut i: usize = 0;
                while i < tuple.columns.len()
                    invariant
                        i <= tuple.columns.len(),
                        self@ == ExprModel::ColumnRef(c@),
                        column_position_from(tuple@.columns, c@, 0) == column_position_from(
                            tuple@.columns,
                            c@,
                            i as int,
                        ),
                    decreases tuple.columns.len() - i,
                {
                    let other = &tuple.columns[i];
                    assert(tuple@.columns[i as int] == other@);
                    let found = match c.id {
                        Some(id) => match other.id {
                            Some(o) => o == id,
                            None => false,
                        },
                        None => other.id.is_none() && other.name == c.name,
                    };
                    if found {
                        assert(column_position_from(tuple@.columns, c@, 0) == Some(i as int));
                        if i < tuple.values.len() {
                            assert(tuple@.values[i as int] == tuple.values@[i as int]@);
                            return Ok(share(&tuple.values[i]));
                        } else {
                            return Ok(Arc::new(DataValue::none(c.datatype())));
                        }
                    }
                    i = i + 1;
                }
                Ok(Arc::new(DataValue::none(c.datatype())))
            },
            ScalarExpression::InputRef { index, ty } => if *index < tuple.values.len() {
                assert(tuple@.values[*index as int] == tuple.values@[*index as int]@);
                Ok(share(&tuple.values[*index]))
            } else {
                Ok(Arc::new(DataValue::none(ty)))
            },
            ScalarExpression::Alias { expr, .. } => expr.eval_column(tuple),
            ScalarExpression::Binary { op, left_expr, right_expr, .. } => {
                match left_expr.eval_column(tuple) {
                    Err(e) => Err(e),
                    Ok(a) => match right_expr.eval_column(tuple) {
                        Err(e) => Err(e),
                        Ok(b) => match binary_op(op, &a, &b) {
                            Ok(v) => Ok(Arc::new(v)),
                            Err(e) => Err(e),
                        },
                    },
                }
            },
            ScalarExpression::Unary { op, expr, .. } => match expr.eval_column(tuple) {
                Err(e) => Err(e),
                Ok(a) => match unary_op(op, &a) {
                    Ok(v) => Ok(Arc::new(v)),
                    Err(e) => Err(e),
                },
            },
            ScalarExpression::AggCall { .. } => Err(TypeError::InvalidType),
        }
    }
}

} // verus!
