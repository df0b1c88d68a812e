//! Binding of scalar expressions.

use crate::binder::{
    AliasModel, AstBinaryOperator, AstUnaryOperator, BindError, BindErrorModel, Binder,
    ContextModel, Expr, Function, FunctionArg, Ident,
};
use crate::catalog::{find_column, find_table, ColumnRef, TableModel};
use crate::expression::{exprs_view, AggKind, ExprModel, ScalarExpression};
use crate::storage::Storage;
use crate::types::{share, DataValue, Datum, LogicalType, TypeError};
use crate::value_compute::UnaryOperator;
use itertools::Itertools;
use std::sync::Arc;
use vstd::prelude::*;
use vstd::string::StringExecFns;

verus! {

/// The lower-case form of a text, as the standard library computes it.
pub uninterp spec fn lowercase(s: Seq<char>) -> Seq<char>;

/// `str::to_lowercase` of the standard library: the lower-case form of a
/// text is a function of the text.
#[verifier::external_body]
pub(crate) fn fold_case(s: &String) -> (r: String)
    ensures
        r@ == lowercase(s@),
{
    s.to_lowercase()
}

/// The texts of a list of strings.
pub open spec fn strings_view(strings: Seq<String>) -> Seq<Seq<char>> {
    strings.map_values(|s: String| s@)
}

/// The parts with the separator between every two of them.
pub open spec fn joined(parts: Seq<Seq<char>>, separator: Seq<char>) -> Seq<char>
    decreases parts.len(),
{
    if parts.len() == 0 {
        Seq::empty()
    } else if parts.len() == 1 {
        parts[0]
    } else {
        joined(parts.drop_last(), separator) + separator + parts.last()
    }
}

/// The parts with a dot between every two of them.
pub open spec fn dotted(parts: Seq<Seq<char>>) -> Seq<char> {
    joined(parts, seq!['.'])
}

/// `Itertools::join` of the `itertools` crate: the elements in order, with
/// the separator between every two of them.
#[verifier::external_body]
pub(crate) fn join_names(parts: &Vec<String>, separator: &str) -> (r: String)
    ensures
        r@ == joined(strings_view(parts@), separator@),
{
    parts.iter().join(separator)
}

/// The first of the tables at or after `start` that has a column called
/// `column`.
pub open spec fn first_table_with(tables: Seq<TableModel>, column: Seq<char>, start: int) -> Option<
    int,
>
    decreases tables.len() - start,
{
    if start < 0 || start >= tables.len() {
        None
    } else if find_column(tables[start].columns, column) is Some {
        Some(start)
    } else {
        first_table_with(tables, column, start + 1)
    }
}

/// The first of the aliases at or after `start` that is called `name`.
pub open spec fn find_alias_from(aliases: Seq<AliasModel>, name: Seq<char>, start: int) -> Option<
    int,
>
    decreases aliases.len() - start,
{
    if start < 0 || start >= aliases.len() {
        None
    } else if aliases[start].name == name {
        Some(start)
    } else {
        find_alias_from(aliases, name, start + 1)
    }
}

/// The column called `column` of the table called `table`.
pub open spec fn resolve_qualified(ctx: ContextModel, table: Seq<char>, column: Seq<char>) -> Result<
    ExprModel,
    BindErrorModel,
> {
    match find_table(ctx.catalog, table) {
        None => Err(BindErrorModel::InvalidTable(table)),
        Some(i) => match find_column(ctx.catalog[i].columns, column) {
            None => Err(BindErrorModel::InvalidColumn(column)),
            Some(j) => Ok(ExprModel::ColumnRef(ctx.catalog[i].columns[j])),
        },
    }
}

/// What a column name without a table stands for: the column of that name
/// of the one table of the statement that has it; `AmbiguousColumn` if
/// more than one table has it; and if none has it, the alias of that name,
/// or `InvalidColumn` if there is no such alias.
pub open spec fn resolve_unqualified(ctx: ContextModel, column: Seq<char>) -> Result<
    ExprModel,
    BindErrorModel,
> {
    match first_table_with(ctx.tables, column, 0) {
        Some(i) => if first_table_with(ctx.tables, column, i + 1) is Some {
            Err(BindErrorModel::AmbiguousColumn(column))
        } else {
            Ok(
                ExprModel::ColumnRef(
                    ctx.tables[i].columns[find_column(ctx.tables[i].columns, column)->Some_0],
                ),
            )
        },
        None => match find_alias_from(ctx.aliases, column, 0) {
            Some(k) => Ok(ExprModel::Alias { expr: Box::new(ctx.aliases[k].expr), alias: column }),
            None => Err(BindErrorModel::InvalidColumn(column)),
        },
    }
}

/// What a chain of case-folded names stands for.
///
/// One name is a column; it is looked up in `default_table` if there is
/// one. Two names are a table and a column, and three names a schema, a
/// table and a column. Anything else fails with `InvalidColumn` of the
/// names joined by dots.
pub open spec fn resolve_column(
    ctx: ContextModel,
    names: Seq<Seq<char>>,
    default_table: Option<Seq<char>>,
) -> Result<ExprModel, BindErrorModel> {
    if names.len() == 1 {
        match default_table {
            Some(table) => resolve_qualified(ctx, table, names[0]),
            None => resolve_unqualified(ctx, names[0]),
        }
    } else if names.len() == 2 {
        resolve_qualified(ctx, names[0], names[1])
    } else if names.len() == 3 {
        resolve_qualified(ctx, names[1], names[2])
    } else {
        Err(BindErrorModel::InvalidColumn(dotted(names)))
    }
}

/// The case-folded names of a chain of identifiers.
pub open spec fn folded_names(idents: Seq<Ident>) -> Seq<Seq<char>> {
    idents.map_values(|i: Ident| lowercase(i.value@))
}

/// The aggregate function a case-folded name stands for.
pub open spec fn agg_kind_of(name: Seq<char>) -> Option<AggKind> {
    if name == "count"@ {
        Some(AggKind::Count)
    } else if name == "sum"@ {
        Some(AggKind::Sum)
    } else if name == "min"@ {
        Some(AggKind::Min)
    } else if name == "max"@ {
        Some(AggKind::Max)
    } else if name == "avg"@ {
        Some(AggKind::Avg)
    } else {
        None
    }
}

/// The constant that stands for `*` as the argument of an aggregate.
pub open spec fn wildcard() -> ExprModel {
    ExprModel::Constant(Datum::text("*"@))
}

/// The bound form of a binary operator on bound operands: an arithmetic
/// operator has the common type of its operands, and fails if they have
/// none; any other operator is Boolean. An operator the engine has no
/// meaning for fails with `UnsupportedExpr`.
pub open spec fn bound_binary(op: AstBinaryOperator, left: ExprModel, right: ExprModel) -> Result<
    ExprModel,
    BindErrorModel,
> {
    match op {
        AstBinaryOperator::Unsupported => Err(BindErrorModel::UnsupportedExpr),
        AstBinaryOperator::Known(op) => if op.is_arithmetic() {
            match left.return_type().lub(right.return_type()) {
                Err(e) => Err(BindErrorModel::TypeError(e)),
                Ok(ty) => Ok(
                    ExprModel::Binary {
                        op,
                        left_expr: Box::new(left),
                        right_expr: Box::new(right),
                        ty,
                    },
                ),
            }
        } else {
            Ok(
                ExprModel::Binary {
                    op,
                    left_expr: Box::new(left),
                    right_expr: Box::new(right),
                    ty: LogicalType::Boolean,
                },
            )
        },
    }
}

/// The bound form of a unary operator on a bound operand: `NOT` is
/// Boolean, and a sign has the type of its operand. An operator the engine
/// has no meaning for fails with `UnsupportedExpr`.
pub open spec fn bound_unary(op: AstUnaryOperator, expr: ExprModel) -> Result<
    ExprModel,
    BindErrorModel,
> {
    match op {
        AstUnaryOperator::Unsupported => Err(BindErrorModel::UnsupportedExpr),
        AstUnaryOperator::Known(op) => Ok(
            ExprModel::Unary {
                op,
                expr: Box::new(expr),
                ty: if op == UnaryOperator::Not {
                    LogicalType::Boolean
                } else {
                    expr.return_type()
                },
            },
        ),
    }
}

/// The bound form of a call of the aggregate with the case-folded name
/// `name` on bound arguments: `count` yields an integer and any other
/// aggregate a value of the type of its first argument. A name that is not
/// an aggregate, and a call without arguments, fail with
/// `UnsupportedExpr`.
pub open spec fn bound_agg(name: Seq<char>, distinct: bool, args: Seq<ExprModel>) -> Result<
    ExprModel,
    BindErrorModel,
> {
    match agg_kind_of(name) {
        None => Err(BindErrorModel::UnsupportedExpr),
        Some(kind) => if args.len() == 0 {
            Err(BindErrorModel::UnsupportedExpr)
        } else {
            Ok(
                ExprModel::AggCall {
                    distinct,
                    kind,
                    args,
                    ty: if kind == AggKind::Count {
                        LogicalType::Integer
                    } else {
                        args[0].return_type()
                    },
                },
            )
        },
    }
}

/// The bound form of a parsed expression.
///
/// Identifiers are case-folded and resolved; see [`resolve_column`]. A
/// literal is a constant. Operands are bound from left to right and the
/// first failure among them is the failure of the whole; see
/// [`bound_binary`], [`bound_unary`] and [`bound_agg`] for the operators.
/// An expression the engine has no meaning for fails with
/// `UnsupportedExpr`.
pub open spec fn bind(ctx: ContextModel, e: Expr) -> Result<ExprModel, BindErrorModel>
    decreases e, 0nat, 0nat,
{
    match e {
        Expr::Identifier(ident) => resolve_column(ctx, seq![lowercase(ident.value@)], None),
        Expr::CompoundIdentifier(idents) => resolve_column(ctx, folded_names(idents@), None),
        Expr::BinaryOp { left, op, right } => match bind(ctx, *left) {
            Err(e) => Err(e),
            Ok(l) => match bind(ctx, *right) {
                Err(e) => Err(e),
                Ok(r) => bound_binary(op, l, r),
            },
        },
        Expr::UnaryOp { op, expr } => match bind(ctx, *expr) {
            Err(e) => Err(e),
            Ok(x) => bound_unary(op, x),
        },
        Expr::Value(v) => Ok(ExprModel::Constant(v@)),
        Expr::Function(f) => bind_function(ctx, f),
        Expr::Nested(inner) => bind(ctx, *inner),
        Expr::Unsupported => Err(BindErrorModel::UnsupportedExpr),
    }
}

/// The bound form of a function call: its arguments are bound in order,
/// then the call itself; see [`bound_agg`].
pub open spec fn bind_function(ctx: ContextModel, f: Function) -> Result<ExprModel, BindErrorModel>
    decreases f, 2nat, 0nat,
{
    match bind_args(ctx, f, f.args.len() as nat) {
        Err(e) => Err(e),
        Ok(args) => bound_agg(lowercase(f.name@), f.distinct, args),
    }
}

/// The bound forms of the first `n` arguments of a function call, or the
/// first failure among them: an expression is bound, `*` is the wildcard
/// constant, and a wildcard with a table fails with `UnsupportedExpr`.
pub open spec fn bind_args(ctx: ContextModel, f: Function, n: nat) -> Result<
    Seq<ExprModel>,
    BindErrorModel,
>
    decreases f, 1nat, n,
{
    if n == 0 || n > f.args.len() {
        Ok(Seq::empty())
    } else {
        match bind_args(ctx, f, (n - 1) as nat) {
            Err(e) => Err(e),
            Ok(args) => match f.args@[n - 1] {
                FunctionArg::Expr(e) => match bind(ctx, e) {
                    Err(e) => Err(e),
                    Ok(x) => Ok(args.push(x)),
                },
                FunctionArg::Wildcard => Ok(args.push(wildcard())),
                FunctionArg::QualifiedWildcard => Err(BindErrorModel::UnsupportedExpr),
            },
        }
    }
}

/// The model of the outcome of a binding.
pub open spec fn bind_result(r: Result<ScalarExpression, BindError>) -> Result<
    ExprModel,
    BindErrorModel,
> {
    match r {
        Ok(e) => Ok(e@),
        Err(e) => Err(e@),
    }
}

proof fn lemma_bind_args_error(ctx: ContextModel, f: Function, n: nat, m: nat)
    requires
        n <= m <= f.args.len(),
        bind_args(ctx, f, n) is Err,
    ensures
        bind_args(ctx, f, m) == bind_args(ctx, f, n),
    decreases m - n,
{
    if n < m {
        lemma_bind_args_error(ctx, f, n, (m - 1) as nat);
    }
}

impl<'a, S: Storage> Binder<'a, S> {
    /// The constant that stands for `*` as the argument of an aggregate.
    pub fn wildcard_expr() -> (r: ScalarExpression)
        ensures
            r@ == wildcard(),
    {
        ScalarExpression::Constant(Arc::new(DataValue::Utf8(Some(String::from_str("*")))))
    }

    /// The bound form of a parsed expression; see [`bind`].
    pub fn bind_expr(&self, expr: &Expr) -> (r: Result<ScalarExpression, BindError>)
        ensures
            bind_result(r) == bind(self.context@, *expr),
        decreases expr,
    {
        match expr {
            Expr::Identifier(ident) => {
                let mut names: Vec<String> = Vec::new();
                names.push(fold_case(&ident.value));
                assert(strings_view(names@) =~= seq![lowercase(ident.value@)]);
                self.bind_column_ref(&names, None)
            },
            Expr::CompoundIdentifier(idents) => self.bind_column_ref_from_identifiers(
                idents.as_slice(),
                None,
            ),
            Expr::BinaryOp { left, op, right } => {
                let left_expr = match self.bind_expr(left) {
                    Err(e) => {
                        return Err(e);
                    },
                    Ok(l) => l,
                };
                let right_expr = match self.bind_expr(right) {
                    Err(e) => {
                        return Err(e);
                    },
                    Ok(r) => r,
                };
                Self::bind_binary_op_internal(left_expr, right_expr, op)
            },
            Expr::UnaryOp { op, expr } => {
                let bound = match self.bind_expr(expr) {
                    Err(e) => {
                        return Err(e);
                    },
                    Ok(x) => x,
                };
                Self::bind_unary_op_internal(bound, op)
            },
            Expr::Value(v) => Ok(ScalarExpression::Constant(Arc::new(v.duplicate()))),
            Expr::Function(func) => self.bind_agg_call(func),
            Expr::Nested(inner) => self.bind_expr(inner),
            Expr::Unsupported => Err(BindError::UnsupportedExpr),
        }
    }

    /// What a chain of identifiers stands for: the identifiers are
    /// case-folded and resolved; see [`resolve_column`].
    pub fn bind_column_ref_from_identifiers(
        &self,
        idents: &[Ident],
        bind_table_name: Option<&String>,
    ) -> (r: Result<ScalarExpression, BindError>)
        ensures
            bind_result(r) == resolve_column(
                self.context@,
                folded_names(idents@),
                match bind_table_name {
                    Some(t) => Some(t@),
                    None => None,
                },
            ),
    {
        let mut names: Vec<String> = Vec::with_capacity(idents.len());
        let mut i: usize = 0;
        while i < idents.len()
            invariant
                i <= idents.len(),
                names.len() == i,
                forall|j: int| 0 <= j < i ==> (#[trigger] names@[j])@ == lowercase(idents@[j].value@),
            decreases idents.len() - i,
        {
            names.push(fold_case(&idents[i].value));
            i = i + 1;
        }
        assert(strings_view(names@) =~= folded_names(idents@));
        self.bind_column_ref(&names, bind_table_name)
    }

    /// What a chain of case-folded names stands for; see
    /// [`resolve_column`].
    pub fn bind_column_ref(&self, names: &Vec<String>, bind_table_name: Option<&String>) -> (r:
        Result<ScalarExpression, BindError>)
        ensures
            bind_result(r) == resolve_column(
                self.context@,
                strings_view(names@),
                match bind_table_name {
                    Some(t) => Some(t@),
                    None => None,
                },
            ),
    {
        let (table_name, column_name): (Option<&String>, &String) = if names.len() == 1 {
            (None, &names[0])
        } else if names.len() == 2 {
            (Some(&names[0]), &names[1])
        } else if names.len() == 3 {
            (Some(&names[1]), &names[2])
        } else {
            proof {
                reveal_strlit(".");
                assert("."@ =~= seq!['.']);
            }
            return Err(BindError::InvalidColumn(join_names(names, ".")));
        };
        let table = match table_name {
            Some(t) => Some(t),
            None => bind_table_name,
        };
        match table {
            Some(table) => self.bind_qualified(table, column_name),
            None => self.bind_unqualified(column_name),
        }
    }

    /// The column called `column` of the table called `table`.
    fn bind_qualified(&self, table: &String, column: &String) -> (r: Result<
        ScalarExpression,
        BindError,
    >)
        ensures
            bind_result(r) == resolve_qualified(self.context@, table@, column@),
    {
        let table_catalog = match self.context.storage.table(table) {
            None => {
                return Err(BindError::InvalidTable(table.clone()));
            },
            Some(t) => t,
        };
        match table_catalog.get_column_by_name(column) {
            None => Err(BindError::InvalidColumn(column.clone())),
            Some(c) => Ok(ScalarExpression::ColumnRef(share(c))),
        }
    }

    /// What a column name without a table stands for; see
    /// [`resolve_unqualified`].
    fn bind_unqualified(&self, column: &String) -> (r: Result<ScalarExpression, BindError>)
        ensures
            bind_result(r) == resolve_unqualified(self.context@, column@),
    {
        let ghost tables = self.context@.tables;
        let mut got_column: Option<&ColumnRef> = None;
        let ghost mut hit: int = -1;
        let mut i: usize = 0;
        while i < self.context.bind_table.len()
            invariant
                i <= self.context.bind_table.len(),
                tables == self.context@.tables,
                tables.len() == self.context.bind_table.len(),
                match got_column {
                    None => first_table_with(tables, column@, 0) == first_table_with(
                        tables,
                        column@,
                        i as int,
                    ),
                    Some(c) => {
                        &&& 0 <= hit < i
                        &&& first_table_with(tables, column@, 0) == Some(hit)
                        &&& first_table_with(tables, column@, hit + 1) == first_table_with(
                            tables,
                            column@,
                            i as int,
                        )
                        &&& find_column(tables[hit].columns, column@) matches Some(j) && c@
                            == tables[hit].columns[j]
                    },
                },
            decreases self.context.bind_table.len() - i,
        {
            assert(tables[i as int] == self.context.bind_table@[i as int].table@);
            if let Some(c) = self.context.bind_table[i].table.get_column_by_name(column) {
                if got_column.is_some() {
                    return Err(BindError::AmbiguousColumn(column.clone()));
                }
                got_column = Some(c);
                proof {
                    hit = i as int;
                }
            }
            i = i + 1;
        }
        match got_column {
            Some(c) => Ok(ScalarExpression::ColumnRef(share(c))),
            None => {
                let ghost aliases = self.context@.aliases;
                let mut k: usize = 0;
                while k < self.context.aliases.len()
                    invariant
                        k <= self.context.aliases.len(),
                        aliases == self.context@.aliases,
                        first_table_with(self.context@.tables, column@, 0) is None,
                        find_alias_from(aliases, column@, 0) == find_alias_from(
                            aliases,
                            column@,
                            k as int,
                        ),
                    decreases self.context.aliases.len() - k,
                {
                    let alias = &self.context.aliases[k];
                    assert(aliases[k as int] == (AliasModel { name: alias.name@, expr: alias.expr@ }));
                    if alias.name == *column {
                        return Ok(
                            ScalarExpression::Alias {
                                expr: Box::new(alias.expr.duplicate()),
                                alias: column.clone(),
                            },
                        );
                    }
                    k = k + 1;
                }
                Err(BindError::InvalidColumn(column.clone()))
            },
        }
    }

    /// The bound form of a binary operator on bound operands; see
    /// [`bound_binary`].
    pub fn bind_binary_op_internal(
        left_expr: ScalarExpression,
        right_expr: ScalarExpression,
        op: &AstBinaryOperator,
    ) -> (r: Result<ScalarExpression, BindError>)
        ensures
            bind_result(r) == bound_binary(*op, left_expr@, right_expr@),
    {
        let op = match op {
            AstBinaryOperator::Unsupported => {
                return Err(BindError::UnsupportedExpr);
            },
            AstBinaryOperator::Known(op) => *op,
        };
        let ty = if op.arithmetic() {
            match LogicalType::max_logical_type(&left_expr.return_type(), &right_expr.return_type()) {
                Err(e) => {
                    return Err(BindError::TypeError(e));
                },
                Ok(ty) => ty,
            }
        } else {
            LogicalType::Boolean
        };
        Ok(
            ScalarExpression::Binary {
                op,
                left_expr: Box::new(left_expr),
                right_expr: Box::new(right_expr),
                ty,
            },
        )
    }

    /// The bound form of a unary operator on a bound operand; see
    /// [`bound_unary`].
    pub fn bind_unary_op_internal(expr: ScalarExpression, op: &AstUnaryOperator) -> (r: Result<
        ScalarExpression,
        BindError,
    >)
        ensures
            bind_result(r) == bound_unary(*op, expr@),
    {
        let op = match op {
            AstUnaryOperator::Unsupported => {
                return Err(BindError::UnsupportedExpr);
            },
            AstUnaryOperator::Known(op) => *op,
        };
        let ty = if let UnaryOperator::Not = op {
            LogicalType::Boolean
        } else {
            expr.return_type()
        };
        Ok(ScalarExpression::Unary { op, expr: Box::new(expr), ty })
    }

    /// The bound form of a call of the aggregate with the case-folded name
    /// `name` on bound arguments; see [`bound_agg`].
    pub fn bind_agg(name: &String, distinct: bool, args: Vec<ScalarExpression>) -> (r: Result<
        ScalarExpression,
        BindError,
    >)
        ensures
            bind_result(r) == bound_agg(name@, distinct, exprs_view(args@)),
    {
        let kind = if *name == String::from_str("count") {
            AggKind::Count
        } else if *name == String::from_str("sum") {
            AggKind::Sum
        } else if *name == String::from_str("min") {
            AggKind::Min
        } else if *name == String::from_str("max") {
            AggKind::Max
        } else if *name == String::from_str("avg") {
            AggKind::Avg
        } else {
            return Err(BindError::UnsupportedExpr);
        };
        if args.len() == 0 {
            return Err(BindError::UnsupportedExpr);
        }
        let ty = match kind {
            AggKind::Count => LogicalType::Integer,
            _ => args[0].return_type(),
        };
        let r = ScalarExpression::AggCall { distinct, kind, args, ty };
        assert(r@->AggCall_args =~= exprs_view(args@));
        Ok(r)
    }

    /// The bound form of a function call; see [`bind_function`].
    pub fn bind_agg_call(&self, func: &Function) -> (r: Result<ScalarExpression, BindError>)
        ensures
            bind_result(r) == bind_function(self.context@, *func),
        decreases func,
    {
        let ghost ctx = self.context@;
        let mut args: Vec<ScalarExpression> = Vec::with_capacity(func.args.len());
        let mut i: usize = 0;
        assert(exprs_view(args@) =~= Seq::empty());
        while i < func.args.len()
            invariant
                i <= func.args.len(),
                ctx == self.context@,
                bind_args(ctx, *func, i as nat) matches Ok(bound) && bound == exprs_view(args@),
            decreases func.args.len() - i,
        {
            proof {
                vstd::std_specs::vec::axiom_vec_index_decreases(func.args, i as int);
                assert(decreases_to!(*func => func.args));
            }
            let ghost prev = exprs_view(args@);
            match &func.args[i] {
                FunctionArg::Expr(expr) => match self.bind_expr(expr) {
                    Err(e) => {
                        proof {
                            lemma_bind_args_error(
                                ctx,
                                *func,
                                (i + 1) as nat,
                                func.args.len() as nat,
                            );
                        }
                        return Err(e);
                    },
                    Ok(x) => {
                        args.push(x);
                        assert(exprs_view(args@) =~= prev.push(x@));
                    },
                },
                FunctionArg::Wildcard => {
                    let x = Self::wildcard_expr();
                    args.push(x);
                    assert(exprs_view(args@) =~= prev.push(x@));
                },
                FunctionArg::QualifiedWildcard => {
                    proof {
                        lemma_bind_args_error(ctx, *func, (i + 1) as nat, func.args.len() as nat);
                    }
                    return Err(BindError::UnsupportedExpr);
                },
            }
            i = i + 1;
        }
        Self::bind_agg(&fold_case(&func.name), func.distinct, args)
    }
}

} // verus!
