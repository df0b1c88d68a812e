//! Laws of the binder: how a column name without a table is resolved, and
//! what holds of every expression that was bound.

use crate::binder::expr::{
    bind, bind_args, bind_function, find_alias_from, first_table_with, resolve_unqualified,
};
use crate::binder::{AliasModel, BindErrorModel, ContextModel, Expr, Function, FunctionArg};
use crate::catalog::{find_column, TableModel};
use crate::expression::ExprModel;
use vstd::prelude::*;

verus! {

/// What [`first_table_with`] finds is the first table at or after `start`
/// that has the column; it finds nothing exactly when there is none.
pub proof fn lemma_first_table_with(tables: Seq<TableModel>, column: Seq<char>, start: int)
    requires
        0 <= start,
    ensures
        match first_table_with(tables, column, start) {
            Some(i) => start <= i < tables.len() && find_column(tables[i].columns, column)
                is Some && forall|j: int|
                start <= j < i ==> find_column(tables[j].columns, column) is None,
            None => forall|j: int|
                start <= j < tables.len() ==> find_column(tables[j].columns, column) is None,
        },
    decreases tables.len() - start,
{
    if start < tables.len() && find_column(tables[start].columns, column) is None {
        lemma_first_table_with(tables, column, start + 1);
    }
}

/// A column name that exactly one table of the statement has stands for
/// the column of that name of that table.
pub proof fn lemma_resolve_single(ctx: ContextModel, column: Seq<char>, i: int)
    requires
        0 <= i < ctx.tables.len(),
        find_column(ctx.tables[i].columns, column) is Some,
        forall|j: int|
            0 <= j < ctx.tables.len() && j != i ==> find_column(ctx.tables[j].columns, column)
                is None,
    ensures
        resolve_unqualified(ctx, column) == Ok::<ExprModel, BindErrorModel>(
            ExprModel::ColumnRef(
                ctx.tables[i].columns[find_column(ctx.tables[i].columns, column)->Some_0],
            ),
        ),
{
    lemma_first_table_with(ctx.tables, column, 0);
    lemma_first_table_with(ctx.tables, column, i + 1);
}

/// A column name that two tables of the statement have is ambiguous.
pub proof fn lemma_resolve_ambiguous(ctx: ContextModel, column: Seq<char>, i: int, j: int)
    requires
        0 <= i < j < ctx.tables.len(),
        find_column(ctx.tables[i].columns, column) is Some,
        find_column(ctx.tables[j].columns, column) is Some,
    ensures
        resolve_unqualified(ctx, column) == Err::<ExprModel, BindErrorModel>(
            BindErrorModel::AmbiguousColumn(column),
        ),
{
    lemma_first_table_with(ctx.tables, column, 0);
    let first = first_table_with(ctx.tables, column, 0)->Some_0;
    lemma_first_table_with(ctx.tables, column, first + 1);
}

/// Binding the same expression against the same context twice yields
/// expressions of the same type.
pub proof fn lemma_rebinding_stable(ctx: ContextModel, e: Expr, first: ExprModel, second: ExprModel)
    requires
        bind(ctx, e) == Ok::<ExprModel, BindErrorModel>(first),
        bind(ctx, e) == Ok::<ExprModel, BindErrorModel>(second),
    ensures
        first == second,
        first.return_type() == second.return_type(),
{
}

/// Whether every alias of the context stands for a well-typed expression.
pub open spec fn aliases_well_typed(ctx: ContextModel) -> bool {
    forall|k: int| 0 <= k < ctx.aliases.len() ==> (#[trigger] ctx.aliases[k]).expr.well_typed()
}

/// Every bound expression is well typed: each of its operators carries the
/// type that its operands give it.
pub proof fn lemma_bind_well_typed(ctx: ContextModel, e: Expr)
    requires
        aliases_well_typed(ctx),
        bind(ctx, e) is Ok,
    ensures
        bind(ctx, e)->Ok_0.well_typed(),
    decreases e, 0nat, 0nat,
{
    reveal_with_fuel(bind, 2);
    reveal_with_fuel(ExprModel::well_typed, 2);
    match e {
        Expr::BinaryOp { left, op, right } => {
            assert(bind(ctx, *left) is Ok);
            assert(bind(ctx, *right) is Ok);
            lemma_bind_well_typed(ctx, *left);
            lemma_bind_well_typed(ctx, *right);
        },
        Expr::UnaryOp { op, expr } => {
            assert(bind(ctx, *expr) is Ok);
            lemma_bind_well_typed(ctx, *expr);
        },
        Expr::Function(f) => {
            assert(bind(ctx, e) == bind_function(ctx, f));
            assert(bind_args(ctx, f, f.args.len() as nat) is Ok);
            lemma_bind_args_well_typed(ctx, f, f.args.len() as nat);
        },
        Expr::Nested(inner) => {
            lemma_bind_well_typed(ctx, *inner);
        },
        Expr::Identifier(ident) => {
            lemma_resolved_well_typed(ctx, e);
        },
        Expr::CompoundIdentifier(idents) => {
            lemma_resolved_well_typed(ctx, e);
        },
        _ => {},
    }
}

proof fn lemma_resolved_well_typed(ctx: ContextModel, e: Expr)
    requires
        aliases_well_typed(ctx),
        e is Identifier || e is CompoundIdentifier,
        bind(ctx, e) is Ok,
    ensures
        bind(ctx, e)->Ok_0.well_typed(),
{
    reveal_with_fuel(ExprModel::well_typed, 2);
    let bound = bind(ctx, e)->Ok_0;
    if bound is Alias {
        let name = bound->alias;
        lemma_find_alias_from(ctx.aliases, name, 0);
        let k = find_alias_from(ctx.aliases, name, 0)->Some_0;
        assert(ctx.aliases[k].expr.well_typed());
    }
}

/// What [`find_alias_from`] finds is an alias of that name at or after
/// `start`.
pub proof fn lemma_find_alias_from(aliases: Seq<AliasModel>, name: Seq<char>, start: int)
    requires
        0 <= start,
    ensures
        match find_alias_from(aliases, name, start) {
            Some(k) => start <= k < aliases.len() && aliases[k].name == name,
            None => forall|j: int| start <= j < aliases.len() ==> aliases[j].name != name,
        },
    decreases aliases.len() - start,
{
    if start < aliases.len() && aliases[start].name != name {
        lemma_find_alias_from(aliases, name, start + 1);
    }
}

proof fn lemma_bind_args_well_typed(ctx: ContextModel, f: Function, n: nat)
    requires
        aliases_well_typed(ctx),
        n <= f.args.len(),
        bind_args(ctx, f, n) is Ok,
    ensures
        bind_args(ctx, f, n)->Ok_0.len() == n,
        forall|i: int|
            0 <= i < bind_args(ctx, f, n)->Ok_0.len() ==> (#[trigger] bind_args(
                ctx,
                f,
                n,
            )->Ok_0[i]).well_typed(),
    decreases f, 1nat, n,
{
    if n > 0 {
        lemma_bind_args_well_typed(ctx, f, (n - 1) as nat);
        match f.args@[n - 1] {
            FunctionArg::Expr(e) => {
                lemma_bind_well_typed(ctx, e);
            },
            _ => {},
        }
    }
}

} // verus!
