use kip_sql::binder::{
    AstBinaryOperator, AstUnaryOperator, BindError, Binder, BinderContext, BoundAlias, BoundTable,
    Expr, Function, FunctionArg, Ident,
};
use kip_sql::catalog::{ColumnCatalog, ColumnDesc};
use kip_sql::expression::{AggKind, ScalarExpression};
use kip_sql::storage::memory::MemStorage;
use kip_sql::tuple::Tuple;
use kip_sql::types::{DataValue, LogicalType, TypeError};
use kip_sql::value_compute::{BinaryOperator, UnaryOperator};
use std::sync::Arc;

fn col(name: &str, ty: LogicalType, primary: bool) -> ColumnCatalog {
    ColumnCatalog::new(name.to_string(), !primary, ColumnDesc::new(ty, primary, false))
}

fn storage() -> MemStorage {
    let mut storage = MemStorage::new();
    storage
        .create_table(
            "t1".to_string(),
            vec![
                col("c1", LogicalType::Integer, true),
                col("c2", LogicalType::Bigint, false),
                col("shared", LogicalType::Varchar, false),
            ],
        )
        .unwrap();
    storage
        .create_table(
            "t2".to_string(),
            vec![
                col("c4", LogicalType::Integer, true),
                col("c5", LogicalType::Decimal, false),
                col("shared", LogicalType::Varchar, false),
            ],
        )
        .unwrap();
    storage
}

fn binder<'a>(storage: &'a MemStorage, tables: &[&str]) -> Binder<'a, MemStorage> {
    let mut binder = Binder::new(storage);
    for name in tables {
        binder.context.bind_table.push(BoundTable {
            alias: name.to_string(),
            table: storage.table(&name.to_string()).unwrap(),
            join_type: None,
        });
    }
    binder
}

fn ident(name: &str) -> Expr {
    Expr::Identifier(Ident { value: name.to_string() })
}

fn compound(names: &[&str]) -> Expr {
    Expr::CompoundIdentifier(names.iter().map(|n| Ident { value: n.to_string() }).collect())
}

fn literal(v: DataValue) -> Expr {
    Expr::Value(v)
}

fn binary(left: Expr, op: BinaryOperator, right: Expr) -> Expr {
    Expr::BinaryOp { left: Box::new(left), op: AstBinaryOperator::Known(op), right: Box::new(right) }
}

fn column_name(e: &ScalarExpression) -> String {
    match e {
        ScalarExpression::ColumnRef(c) => c.name.clone(),
        other => panic!("not a column: {:?}", other),
    }
}

#[test]
fn type_promotion_of_integer_plus_decimal() {
    let storage = storage();
    let binder = binder(&storage, &[]);
    let e = binary(
        literal(DataValue::Int32(Some(1))),
        BinaryOperator::Plus,
        literal(DataValue::Decimal(Some(25000))),
    );
    let bound = binder.bind_expr(&e).unwrap();
    match &bound {
        ScalarExpression::Binary { op, ty, .. } => {
            assert_eq!(*op, BinaryOperator::Plus);
            assert_eq!(*ty, LogicalType::Decimal);
        }
        other => panic!("not a binary expression: {:?}", other),
    }
    assert_eq!(bound.return_type(), LogicalType::Decimal);
    let empty = Tuple { id: None, columns: vec![], values: vec![] };
    assert_eq!(bound.eval_column(&empty), Ok(Arc::new(DataValue::Decimal(Some(35000)))));
}

#[test]
fn rebinding_gives_the_same_expression() {
    let storage = storage();
    let binder = binder(&storage, &["t1", "t2"]);
    let e = binary(
        binary(ident("c1"), BinaryOperator::Multiply, ident("c5")),
        BinaryOperator::Gt,
        Expr::Nested(Box::new(ident("c2"))),
    );
    let first = binder.bind_expr(&e).unwrap();
    let second = binder.bind_expr(&e).unwrap();
    assert_eq!(first, second);
    assert_eq!(first.return_type(), second.return_type());
    assert_eq!(first.return_type(), LogicalType::Boolean);
}

#[test]
fn unqualified_column_of_one_table() {
    let storage = storage();
    let binder = binder(&storage, &["t1", "t2"]);
    let bound = binder.bind_expr(&ident("c5")).unwrap();
    assert_eq!(column_name(&bound), "c5");
    assert_eq!(bound.return_type(), LogicalType::Decimal);
    let wanted = storage.table(&"t2".to_string()).unwrap().get_column_by_name(&"c5".to_string());
    assert_eq!(bound, ScalarExpression::ColumnRef(wanted.unwrap().clone()));
}

#[test]
fn unqualified_column_of_two_tables_is_ambiguous() {
    let storage = storage();
    let binder = binder(&storage, &["t1", "t2"]);
    assert_eq!(
        binder.bind_expr(&ident("shared")),
        Err(BindError::AmbiguousColumn("shared".to_string()))
    );
    let only_one = self::binder(&storage, &["t2"]);
    assert_eq!(column_name(&only_one.bind_expr(&ident("shared")).unwrap()), "shared");
}

#[test]
fn unknown_column_falls_back_to_alias() {
    let storage = storage();
    let mut binder = binder(&storage, &["t1"]);
    assert_eq!(
        binder.bind_expr(&ident("total")),
        Err(BindError::InvalidColumn("total".to_string()))
    );
    binder.context.aliases.push(BoundAlias {
        name: "total".to_string(),
        expr: ScalarExpression::Constant(Arc::new(DataValue::Int32(Some(9)))),
    });
    assert_eq!(
        binder.bind_expr(&ident("total")),
        Ok(ScalarExpression::Alias {
            expr: Box::new(ScalarExpression::Constant(Arc::new(DataValue::Int32(Some(9))))),
            alias: "total".to_string(),
        })
    );
    binder.context.aliases.push(BoundAlias {
        name: "c1".to_string(),
        expr: ScalarExpression::Constant(Arc::new(DataValue::Int32(Some(0)))),
    });
    assert_eq!(column_name(&binder.bind_expr(&ident("c1")).unwrap()), "c1");
}

#[test]
fn identifiers_are_case_folded() {
    let storage = storage();
    let binder = binder(&storage, &["t1"]);
    assert_eq!(column_name(&binder.bind_expr(&ident("C1")).unwrap()), "c1");
    assert_eq!(column_name(&binder.bind_expr(&compound(&["T2", "C4"])).unwrap()), "c4");
    assert_eq!(
        binder.bind_expr(&ident("Nope")),
        Err(BindError::InvalidColumn("nope".to_string()))
    );
}

#[test]
fn qualified_column() {
    let storage = storage();
    let binder = binder(&storage, &[]);
    assert_eq!(column_name(&binder.bind_expr(&compound(&["t1", "shared"])).unwrap()), "shared");
    assert_eq!(
        binder.bind_expr(&compound(&["t2", "c5"])).unwrap().return_type(),
        LogicalType::Decimal
    );
    assert_eq!(column_name(&binder.bind_expr(&compound(&["main", "t2", "c4"])).unwrap()), "c4");
    assert_eq!(
        binder.bind_expr(&compound(&["t3", "c1"])),
        Err(BindError::InvalidTable("t3".to_string()))
    );
    assert_eq!(
        binder.bind_expr(&compound(&["t1", "c4"])),
        Err(BindError::InvalidColumn("c4".to_string()))
    );
}

#[test]
fn too_long_a_chain_is_an_invalid_column() {
    let storage = storage();
    let binder = binder(&storage, &["t1"]);
    assert_eq!(
        binder.bind_expr(&compound(&["A", "b", "C", "d"])),
        Err(BindError::InvalidColumn("a.b.c.d".to_string()))
    );
    assert_eq!(
        binder.bind_expr(&compound(&[])),
        Err(BindError::InvalidColumn("".to_string()))
    );
}

#[test]
fn default_table_of_a_single_name() {
    let storage = storage();
    let binder = binder(&storage, &["t1", "t2"]);
    let idents = vec![Ident { value: "Shared".to_string() }];
    let bound = binder
        .bind_column_ref_from_identifiers(&idents, Some(&"t2".to_string()))
        .unwrap();
    let wanted =
        storage.table(&"t2".to_string()).unwrap().get_column_by_name(&"shared".to_string());
    assert_eq!(bound, ScalarExpression::ColumnRef(wanted.unwrap().clone()));
    assert_eq!(
        binder.bind_column_ref(&vec!["c1".to_string()], Some(&"t9".to_string())),
        Err(BindError::InvalidTable("t9".to_string()))
    );
}

#[test]
fn binary_operators_get_their_type() {
    let storage = storage();
    let binder = binder(&storage, &["t1", "t2"]);
    let arithmetic = binder
        .bind_expr(&binary(ident("c1"), BinaryOperator::Minus, ident("c2")))
        .unwrap();
    assert_eq!(arithmetic.return_type(), LogicalType::Bigint);
    for op in [
        BinaryOperator::Gt,
        BinaryOperator::Lt,
        BinaryOperator::GtEq,
        BinaryOperator::LtEq,
        BinaryOperator::Eq,
        BinaryOperator::NotEq,
        BinaryOperator::And,
        BinaryOperator::Or,
        BinaryOperator::Xor,
    ] {
        let bound = binder.bind_expr(&binary(ident("c1"), op, ident("shared")));
        assert_eq!(bound.is_err(), true);
        let bound = binder.bind_expr(&binary(ident("c1"), op, ident("c5"))).unwrap();
        assert_eq!(bound.return_type(), LogicalType::Boolean);
    }
    assert_eq!(
        binder.bind_expr(&binary(ident("c1"), BinaryOperator::Plus, compound(&["t1", "shared"]))),
        Err(BindError::TypeError(TypeError::TypeMismatch))
    );
    assert_eq!(
        binder.bind_expr(&Expr::BinaryOp {
            left: Box::new(ident("c1")),
            op: AstBinaryOperator::Unsupported,
            right: Box::new(ident("c2")),
        }),
        Err(BindError::UnsupportedExpr)
    );
    assert_eq!(
        binder.bind_expr(&Expr::BinaryOp {
            left: Box::new(ident("missing")),
            op: AstBinaryOperator::Unsupported,
            right: Box::new(ident("c2")),
        }),
        Err(BindError::InvalidColumn("missing".to_string()))
    );
}

#[test]
fn unary_operators_get_their_type() {
    let storage = storage();
    let binder = binder(&storage, &["t1"]);
    let not = binder
        .bind_expr(&Expr::UnaryOp {
            op: AstUnaryOperator::Known(UnaryOperator::Not),
            expr: Box::new(ident("c2")),
        })
        .unwrap();
    assert_eq!(not.return_type(), LogicalType::Boolean);
    let minus = binder
        .bind_expr(&Expr::UnaryOp {
            op: AstUnaryOperator::Known(UnaryOperator::Minus),
            expr: Box::new(ident("c2")),
        })
        .unwrap();
    assert_eq!(minus.return_type(), LogicalType::Bigint);
    assert_eq!(
        binder.bind_expr(&Expr::UnaryOp {
            op: AstUnaryOperator::Unsupported,
            expr: Box::new(ident("c2")),
        }),
        Err(BindError::UnsupportedExpr)
    );
}

#[test]
fn aggregate_calls() {
    let storage = storage();
    let binder = binder(&storage, &["t1"]);
    let count = binder
        .bind_expr(&Expr::Function(Function {
            name: "COUNT".to_string(),
            args: vec![FunctionArg::Wildcard],
            distinct: false,
        }))
        .unwrap();
    assert_eq!(
        count,
        ScalarExpression::AggCall {
            distinct: false,
            kind: AggKind::Count,
            args: vec![ScalarExpression::Constant(Arc::new(DataValue::Utf8(Some(
                "*".to_string()
            ))))],
            ty: LogicalType::Integer,
        }
    );
    let cases = [
        ("sum", AggKind::Sum),
        ("Min", AggKind::Min),
        ("MAX", AggKind::Max),
        ("avg", AggKind::Avg),
    ];
    for (name, kind) in cases {
        let bound = binder
            .bind_expr(&Expr::Function(Function {
                name: name.to_string(),
                args: vec![FunctionArg::Expr(ident("c2")), FunctionArg::Expr(ident("c1"))],
                distinct: true,
            }))
            .unwrap();
        match &bound {
            ScalarExpression::AggCall { distinct, kind: k, args, ty } => {
                assert!(*distinct);
                assert_eq!(*k, kind);
                assert_eq!(args.len(), 2);
                assert_eq!(column_name(&args[0]), "c2");
                assert_eq!(*ty, LogicalType::Bigint);
            }
            other => panic!("not an aggregate: {:?}", other),
        }
    }
    let count_column = binder
        .bind_expr(&Expr::Function(Function {
            name: "count".to_string(),
            args: vec![FunctionArg::Expr(ident("shared"))],
            distinct: false,
        }))
        .unwrap();
    assert_eq!(count_column.return_type(), LogicalType::Integer);
}

#[test]
fn unsupported_calls_and_expressions() {
    let storage = storage();
    let binder = binder(&storage, &["t1"]);
    let call = |name: &str, args: Vec<FunctionArg>| {
        binder.bind_expr(&Expr::Function(Function { name: name.to_string(), args, distinct: false }))
    };
    assert_eq!(call("median", vec![FunctionArg::Expr(ident("c1"))]), Err(BindError::UnsupportedExpr));
    assert_eq!(call("sum", vec![]), Err(BindError::UnsupportedExpr));
    assert_eq!(call("sum", vec![FunctionArg::QualifiedWildcard]), Err(BindError::UnsupportedExpr));
    assert_eq!(
        call("median", vec![FunctionArg::Expr(ident("missing"))]),
        Err(BindError::InvalidColumn("missing".to_string()))
    );
    assert_eq!(binder.bind_expr(&Expr::Unsupported), Err(BindError::UnsupportedExpr));
}

#[test]
fn wildcard_is_the_star_constant() {
    assert_eq!(
        Binder::<MemStorage>::wildcard_expr(),
        ScalarExpression::Constant(Arc::new(DataValue::Utf8(Some("*".to_string()))))
    );
}

#[test]
fn context_of_a_new_binder_is_empty() {
    let storage = storage();
    let binder = Binder::new(&storage);
    let BinderContext { bind_table, aliases, .. } = binder.context;
    assert!(bind_table.is_empty());
    assert!(aliases.is_empty());
}
