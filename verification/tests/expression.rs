use kip_sql::catalog::{ColumnCatalog, ColumnDesc, ColumnRef};
use kip_sql::expression::{AggKind, ScalarExpression};
use kip_sql::tuple::Tuple;
use kip_sql::types::{DataValue, LogicalType, TypeError, ValueRef};
use kip_sql::value_compute::{BinaryOperator, UnaryOperator};
use std::sync::Arc;

fn column(name: &str, id: Option<u32>, ty: LogicalType) -> ColumnRef {
    let mut c = ColumnCatalog::new(name.to_string(), true, ColumnDesc::new(ty, false, false));
    c.id = id;
    Arc::new(c)
}

fn int32(v: i32) -> ValueRef {
    Arc::new(DataValue::Int32(Some(v)))
}

fn constant(v: DataValue) -> ScalarExpression {
    ScalarExpression::Constant(Arc::new(v))
}

fn row() -> Tuple {
    Tuple {
        id: None,
        columns: vec![
            column("a", Some(7), LogicalType::Integer),
            column("b", Some(8), LogicalType::Integer),
            column("c", None, LogicalType::Integer),
        ],
        values: vec![int32(10), int32(20), int32(30)],
    }
}

#[test]
fn constant_evaluates_to_itself() {
    let e = constant(DataValue::Utf8(Some("x".to_string())));
    assert_eq!(e.eval_column(&row()), Ok(Arc::new(DataValue::Utf8(Some("x".to_string())))));
    assert_eq!(e.return_type(), LogicalType::Varchar);
}

#[test]
fn column_ref_is_found_by_identifier() {
    let e = ScalarExpression::ColumnRef(column("renamed", Some(8), LogicalType::Integer));
    assert_eq!(e.eval_column(&row()), Ok(int32(20)));
    assert_eq!(e.return_type(), LogicalType::Integer);
}

#[test]
fn column_ref_without_identifier_is_found_by_name() {
    let e = ScalarExpression::ColumnRef(column("c", None, LogicalType::Integer));
    assert_eq!(e.eval_column(&row()), Ok(int32(30)));
    let named_like_owned = ScalarExpression::ColumnRef(column("a", None, LogicalType::Integer));
    assert_eq!(named_like_owned.eval_column(&row()), Ok(Arc::new(DataValue::Int32(None))));
}

#[test]
fn column_ref_that_is_absent_is_null_of_its_type() {
    let e = ScalarExpression::ColumnRef(column("z", Some(99), LogicalType::Bigint));
    assert_eq!(e.eval_column(&row()), Ok(Arc::new(DataValue::Int64(None))));
}

#[test]
fn column_ref_takes_the_first_position() {
    let t = Tuple {
        id: None,
        columns: vec![
            column("a", Some(1), LogicalType::Integer),
            column("a", Some(1), LogicalType::Integer),
        ],
        values: vec![int32(1), int32(2)],
    };
    let e = ScalarExpression::ColumnRef(column("a", Some(1), LogicalType::Integer));
    assert_eq!(e.eval_column(&t), Ok(int32(1)));
}

#[test]
fn input_ref_is_positional() {
    let e = ScalarExpression::InputRef { index: 2, ty: LogicalType::Integer };
    assert_eq!(e.eval_column(&row()), Ok(int32(30)));
    let beyond = ScalarExpression::InputRef { index: 3, ty: LogicalType::Varchar };
    assert_eq!(beyond.eval_column(&row()), Ok(Arc::new(DataValue::Utf8(None))));
    assert_eq!(beyond.return_type(), LogicalType::Varchar);
}

#[test]
fn alias_forwards() {
    let e = ScalarExpression::Alias {
        expr: Box::new(ScalarExpression::InputRef { index: 0, ty: LogicalType::Integer }),
        alias: "first".to_string(),
    };
    assert_eq!(e.eval_column(&row()), Ok(int32(10)));
    assert_eq!(e.return_type(), LogicalType::Integer);
}

#[test]
fn operators_evaluate_their_operands() {
    let sum = ScalarExpression::Binary {
        op: BinaryOperator::Plus,
        left_expr: Box::new(ScalarExpression::InputRef { index: 0, ty: LogicalType::Integer }),
        right_expr: Box::new(ScalarExpression::Binary {
            op: BinaryOperator::Multiply,
            left_expr: Box::new(ScalarExpression::InputRef { index: 1, ty: LogicalType::Integer }),
            right_expr: Box::new(constant(DataValue::Int32(Some(3)))),
            ty: LogicalType::Integer,
        }),
        ty: LogicalType::Integer,
    };
    assert_eq!(sum.eval_column(&row()), Ok(int32(70)));
    let negated = ScalarExpression::Unary {
        op: UnaryOperator::Minus,
        expr: Box::new(sum),
        ty: LogicalType::Integer,
    };
    assert_eq!(negated.eval_column(&row()), Ok(int32(-70)));
    assert_eq!(negated.return_type(), LogicalType::Integer);
}

#[test]
fn the_first_failing_operand_decides() {
    let e = ScalarExpression::Binary {
        op: BinaryOperator::Plus,
        left_expr: Box::new(ScalarExpression::Binary {
            op: BinaryOperator::Divide,
            left_expr: Box::new(constant(DataValue::Int32(Some(1)))),
            right_expr: Box::new(constant(DataValue::Int32(Some(0)))),
            ty: LogicalType::Integer,
        }),
        right_expr: Box::new(ScalarExpression::Unary {
            op: UnaryOperator::Not,
            expr: Box::new(constant(DataValue::Int32(Some(1)))),
            ty: LogicalType::Boolean,
        }),
        ty: LogicalType::Integer,
    };
    assert_eq!(e.eval_column(&row()), Err(TypeError::DivisionByZero));
}

#[test]
fn aggregate_has_no_value_on_a_row() {
    let e = ScalarExpression::AggCall {
        distinct: false,
        kind: AggKind::Sum,
        args: vec![ScalarExpression::InputRef { index: 0, ty: LogicalType::Integer }],
        ty: LogicalType::Integer,
    };
    assert_eq!(e.eval_column(&row()), Err(TypeError::InvalidType));
    assert_eq!(e.return_type(), LogicalType::Integer);
}

#[test]
fn duplicate_is_equal() {
    let e = ScalarExpression::AggCall {
        distinct: true,
        kind: AggKind::Count,
        args: vec![
            ScalarExpression::Alias {
                expr: Box::new(ScalarExpression::ColumnRef(column("a", Some(7), LogicalType::Integer))),
                alias: "x".to_string(),
            },
            constant(DataValue::Boolean(None)),
        ],
        ty: LogicalType::Integer,
    };
    assert_eq!(e.duplicate(), e);
}
