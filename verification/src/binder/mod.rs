//! The binder: it resolves the names of a parsed expression against the
//! catalog and gives every operator its type.

pub mod expr;
pub mod laws;

use crate::catalog::{TableCatalog, TableModel};
use crate::execution::hash_join::JoinType;
use crate::expression::{ExprModel, ScalarExpression};
use crate::storage::Storage;
use crate::types::{DataValue, TypeError};
use crate::value_compute::{BinaryOperator, UnaryOperator};
use vstd::prelude::*;

verus! {

/// A name in a parsed expression.
#[derive(Clone, Debug, PartialEq, Eq)]
pub struct Ident {
    pub value: String,
}

/// A binary operator of a parsed expression.
#[derive(Clone, Copy, Debug, PartialEq, Eq, Structural)]
pub enum AstBinaryOperator {
    Known(BinaryOperator),
    /// An operator the engine has no meaning for.
    Unsupported,
}

/// A unary operator of a parsed expression.
#[derive(Clone, Copy, Debug, PartialEq, Eq, Structural)]
pub enum AstUnaryOperator {
    Known(UnaryOperator),
    /// An operator the engine has no meaning for.
    Unsupported,
}

/// An argument of a function call.
#[derive(Debug, PartialEq, Eq)]
pub enum FunctionArg {
    Expr(Expr),
    /// `*`
    Wildcard,
    /// `table.*`
    QualifiedWildcard,
}

/// A function call of a parsed expression.
#[derive(Debug, PartialEq, Eq)]
pub struct Function {
    pub name: String,
    pub args: Vec<FunctionArg>,
    pub distinct: bool,
}

/// A parsed expression.
#[derive(Debug, PartialEq, Eq)]
pub enum Expr {
    /// `column`
    Identifier(Ident),
    /// `table.column` or `schema.table.column`
    CompoundIdentifier(Vec<Ident>),
    BinaryOp { left: Box<Expr>, op: AstBinaryOperator, right: Box<Expr> },
    UnaryOp { op: AstUnaryOperator, expr: Box<Expr> },
    /// A literal.
    Value(DataValue),
    Function(Function),
    /// An expression in parentheses.
    Nested(Box<Expr>),
    /// Any expression the engine has no meaning for.
    Unsupported,
}

/// Why an expression could not be bound.
#[derive(Clone, Debug, PartialEq, Eq)]
pub enum BindError {
    InvalidTable(String),
    InvalidColumn(String),
    AmbiguousColumn(String),
    UnsupportedExpr,
    /// The operands of an arithmetic operator have no common type.
    TypeError(TypeError),
}

/// The model of a [`BindError`].
pub enum BindErrorModel {
    InvalidTable(Seq<char>),
    InvalidColumn(Seq<char>),
    AmbiguousColumn(Seq<char>),
    UnsupportedExpr,
    TypeError(TypeError),
}

impl View for BindError {
    type V = BindErrorModel;

    open spec fn view(&self) -> BindErrorModel {
        match self {
            BindError::InvalidTable(n) => BindErrorModel::InvalidTable(n@),
            BindError::InvalidColumn(n) => BindErrorModel::InvalidColumn(n@),
            BindError::AmbiguousColumn(n) => BindErrorModel::AmbiguousColumn(n@),
            BindError::UnsupportedExpr => BindErrorModel::UnsupportedExpr,
            BindError::TypeError(e) => BindErrorModel::TypeError(*e),
        }
    }
}

/// A table that the statement being bound refers to.
pub struct BoundTable<'a> {
    pub alias: String,
    pub table: &'a TableCatalog,
    pub join_type: Option<JoinType>,
}

/// An alias of the projection of the statement being bound.
pub struct BoundAlias {
    pub name: String,
    pub expr: ScalarExpression,
}

/// The model of an alias of a projection.
pub struct AliasModel {
    pub name: Seq<char>,
    pub expr: ExprModel,
}

/// What names are resolved against.
pub struct BinderContext<'a, S: Storage> {
    /// The store whose catalog names are resolved against.
    pub storage: &'a S,
    /// The tables the statement refers to.
    pub bind_table: Vec<BoundTable<'a>>,
    /// The aliases of the projection of the statement.
    pub aliases: Vec<BoundAlias>,
}

/// The model of what names are resolved against.
pub struct ContextModel {
    /// The tables of the store.
    pub catalog: Seq<TableModel>,
    /// The tables the statement refers to.
    pub tables: Seq<TableModel>,
    /// The aliases of the projection of the statement.
    pub aliases: Seq<AliasModel>,
}

/// The models of the tables a statement refers to.
pub open spec fn bound_tables_view(tables: Seq<BoundTable>) -> Seq<TableModel> {
    tables.map_values(|t: BoundTable| t.table@)
}

/// The models of the aliases of a projection.
pub open spec fn aliases_view(aliases: Seq<BoundAlias>) -> Seq<AliasModel> {
    aliases.map_values(|a: BoundAlias| AliasModel { name: a.name@, expr: a.expr@ })
}

impl<'a, S: Storage> View for BinderContext<'a, S> {
    type V = ContextModel;

    open spec fn view(&self) -> ContextModel {
        ContextModel {
            catalog: self.storage.catalog(),
            tables: bound_tables_view(self.bind_table@),
            aliases: aliases_view(self.aliases@),
        }
    }
}

/// Binds the expressions of one statement.
pub struct Binder<'a, S: Storage> {
    pub context: BinderContext<'a, S>,
}

impl<'a, S: Storage> Binder<'a, S> {
    /// A binder that resolves names against the store; the statement
    /// refers to no table yet and its projection has no alias.
    pub fn new(storage: &'a S) -> (r: Binder<'a, S>)
        ensures
            r.context@ == (ContextModel {
                catalog: storage.catalog(),
                tables: Seq::empty(),
                aliases: Seq::empty(),
            }),
    {
        let r = Binder {
            context: BinderContext { storage, bind_table: Vec::new(), aliases: Vec::new() },
        };
        proof {
            assert(r.context@.tables =~= Seq::empty());
            assert(r.context@.aliases =~= Seq::empty());
        }
        r
    }
}

} // verus!
