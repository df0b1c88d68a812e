use kip_sql::catalog::{ColumnCatalog, ColumnDesc, ColumnRef};
use kip_sql::errors::ExecutorError;
use kip_sql::execution::hash_join::{HashJoin, JoinCondition, JoinOperator, JoinType};
use kip_sql::expression::ScalarExpression;
use kip_sql::tuple::Tuple;
use kip_sql::types::{DataValue, LogicalType, ValueRef};
use std::sync::Arc;

fn build_integers(ints: Vec<Option<i32>>) -> Vec<ValueRef> {
    ints.into_iter().map(|value| Arc::new(DataValue::Int32(value))).collect()
}

fn build_rows(columns: &Vec<ColumnRef>, rows: Vec<Vec<Option<i32>>>) -> Vec<Tuple> {
    rows.into_iter()
        .map(|row| Tuple { id: None, columns: columns.clone(), values: build_integers(row) })
        .collect()
}

fn build_join_values() -> (Vec<(ScalarExpression, ScalarExpression)>, Vec<Tuple>, Vec<Tuple>) {
    let desc = ColumnDesc::new(LogicalType::Integer, false, false);

    let t1_columns = vec![
        Arc::new(ColumnCatalog::new("c1".to_string(), true, desc.clone())),
        Arc::new(ColumnCatalog::new("c2".to_string(), true, desc.clone())),
        Arc::new(ColumnCatalog::new("c3".to_string(), true, desc.clone())),
    ];

    let t2_columns = vec![
        Arc::new(ColumnCatalog::new("c4".to_string(), true, desc.clone())),
        Arc::new(ColumnCatalog::new("c5".to_string(), true, desc.clone())),
        Arc::new(ColumnCatalog::new("c6".to_string(), true, desc.clone())),
    ];

    let on_keys = vec![(
        ScalarExpression::ColumnRef(t1_columns[0].clone()),
        ScalarExpression::ColumnRef(t2_columns[0].clone()),
    )];

    let values_t1 = build_rows(
        &t1_columns,
        vec![
            vec![Some(0), Some(2), Some(4)],
            vec![Some(1), Some(3), Some(5)],
            vec![Some(3), Some(5), Some(7)],
        ],
    );

    let values_t2 = build_rows(
        &t2_columns,
        vec![
            vec![Some(0), Some(2), Some(4)],
            vec![Some(1), Some(3), Some(5)],
            vec![Some(4), Some(6), Some(8)],
            vec![Some(1), Some(1), Some(1)],
        ],
    );

    (on_keys, values_t1, values_t2)
}

fn run_join(join_type: JoinType) -> Result<Vec<Tuple>, ExecutorError> {
    let (keys, left, right) = build_join_values();
    let op = JoinOperator { on: JoinCondition::On { on: keys, filter: None }, join_type };
    let executor = HashJoin::from((op, left, right));
    assert!(executor.is_runnable());
    executor.execute()
}

#[test]
fn test_inner_join() {
    let tuples = run_join(JoinType::Inner).unwrap();

    assert_eq!(tuples.len(), 3);

    assert_eq!(tuples[0].values, build_integers(vec![Some(0), Some(2), Some(4), Some(0), Some(2), Some(4)]));
    assert_eq!(tuples[1].values, build_integers(vec![Some(1), Some(3), Some(5), Some(1), Some(3), Some(5)]));
    assert_eq!(tuples[2].values, build_integers(vec![Some(1), Some(3), Some(5), Some(1), Some(1), Some(1)]));
}

#[test]
fn test_left_join() {
    let tuples = run_join(JoinType::Left).unwrap();

    assert_eq!(tuples.len(), 4);

    assert_eq!(tuples[0].values, build_integers(vec![Some(0), Some(2), Some(4), Some(0), Some(2), Some(4)]));
    assert_eq!(tuples[1].values, build_integers(vec![Some(1), Some(3), Some(5), Some(1), Some(3), Some(5)]));
    assert_eq!(tuples[2].values, build_integers(vec![Some(1), Some(3), Some(5), Some(1), Some(1), Some(1)]));
    assert_eq!(tuples[3].values, build_integers(vec![Some(3), Some(5), Some(7), None, None, None]));
}

#[test]
fn test_right_join() {
    let tuples = run_join(JoinType::Right).unwrap();

    assert_eq!(tuples.len(), 4);

    assert_eq!(tuples[0].values, build_integers(vec![Some(0), Some(2), Some(4), Some(0), Some(2), Some(4)]));
    assert_eq!(tuples[1].values, build_integers(vec![Some(1), Some(3), Some(5), Some(1), Some(3), Some(5)]));
    assert_eq!(tuples[2].values, build_integers(vec![None, None, None, Some(4), Some(6), Some(8)]));
    assert_eq!(tuples[3].values, build_integers(vec![Some(1), Some(3), Some(5), Some(1), Some(1), Some(1)]));
}

#[test]
fn test_full_join() {
    let tuples = run_join(JoinType::Full).unwrap();

    assert_eq!(tuples.len(), 5);

    assert_eq!(tuples[0].values, build_integers(vec![Some(0), Some(2), Some(4), Some(0), Some(2), Some(4)]));
    assert_eq!(tuples[1].values, build_integers(vec![Some(1), Some(3), Some(5), Some(1), Some(3), Some(5)]));
    assert_eq!(tuples[2].values, build_integers(vec![None, None, None, Some(4), Some(6), Some(8)]));
    assert_eq!(tuples[3].values, build_integers(vec![Some(1), Some(3), Some(5), Some(1), Some(1), Some(1)]));
    assert_eq!(tuples[4].values, build_integers(vec![Some(3), Some(5), Some(7), None, None, None]));
}

use kip_sql::execution::filter::{PhysicalFilter, PhysicalOperator};
use kip_sql::execution::hash_join::{joins_nullable, HashJoinState};
use kip_sql::types::TypeError;
use kip_sql::value_compute::BinaryOperator;

fn column(name: &str) -> ColumnRef {
    Arc::new(ColumnCatalog::new(
        name.to_string(),
        false,
        ColumnDesc::new(LogicalType::Integer, false, false),
    ))
}

fn column_ref(name: &str) -> ScalarExpression {
    ScalarExpression::ColumnRef(column(name))
}

fn gt(left: ScalarExpression, right: ScalarExpression) -> ScalarExpression {
    ScalarExpression::Binary {
        op: BinaryOperator::Gt,
        left_expr: Box::new(left),
        right_expr: Box::new(right),
        ty: LogicalType::Boolean,
    }
}

fn run_filtered(join_type: JoinType, filter: ScalarExpression) -> Result<Vec<Vec<ValueRef>>, ExecutorError> {
    let (keys, left, right) = build_join_values();
    let op = JoinOperator { on: JoinCondition::On { on: keys, filter: Some(filter) }, join_type };
    let rows = HashJoin::from((op, left, right))._execute()?;
    Ok(rows.into_iter().map(|t| t.values).collect())
}

fn c2_above_c5() -> ScalarExpression {
    gt(column_ref("c2"), column_ref("c5"))
}

#[test]
fn inner_join_drops_rows_that_fail_the_filter() {
    assert_eq!(
        run_filtered(JoinType::Inner, c2_above_c5()),
        Ok(vec![build_integers(vec![Some(1), Some(3), Some(5), Some(1), Some(1), Some(1)])])
    );
}

#[test]
fn left_join_pads_the_right_half_of_rows_that_fail_the_filter() {
    assert_eq!(
        run_filtered(JoinType::Left, c2_above_c5()),
        Ok(vec![
            build_integers(vec![Some(0), Some(2), Some(4), None, None, None]),
            build_integers(vec![Some(1), Some(3), Some(5), None, None, None]),
            build_integers(vec![Some(1), Some(3), Some(5), Some(1), Some(1), Some(1)]),
            build_integers(vec![Some(3), Some(5), Some(7), None, None, None]),
        ])
    );
}

#[test]
fn right_join_pads_the_left_half_of_rows_that_fail_the_filter() {
    assert_eq!(
        run_filtered(JoinType::Right, c2_above_c5()),
        Ok(vec![
            build_integers(vec![None, None, None, Some(0), Some(2), Some(4)]),
            build_integers(vec![None, None, None, Some(1), Some(3), Some(5)]),
            build_integers(vec![None, None, None, Some(4), Some(6), Some(8)]),
            build_integers(vec![Some(1), Some(3), Some(5), Some(1), Some(1), Some(1)]),
        ])
    );
}

#[test]
fn full_join_ignores_the_filter() {
    let unfiltered: Vec<Vec<ValueRef>> =
        run_join(JoinType::Full).unwrap().into_iter().map(|t| t.values).collect();
    assert_eq!(run_filtered(JoinType::Full, c2_above_c5()), Ok(unfiltered.clone()));
    assert_eq!(
        run_filtered(JoinType::Full, ScalarExpression::Constant(Arc::new(DataValue::Int32(Some(1))))),
        Ok(unfiltered)
    );
}

#[test]
fn a_filter_that_is_not_boolean_fails_the_join() {
    assert_eq!(
        run_filtered(JoinType::Inner, column_ref("c2")),
        Err(ExecutorError::NonBooleanPredicate)
    );
    assert_eq!(
        run_filtered(JoinType::Left, ScalarExpression::Constant(Arc::new(DataValue::Null))),
        Err(ExecutorError::NonBooleanPredicate)
    );
    let division = ScalarExpression::Binary {
        op: BinaryOperator::Divide,
        left_expr: Box::new(column_ref("c2")),
        right_expr: Box::new(column_ref("c4")),
        ty: LogicalType::Integer,
    };
    assert_eq!(
        run_filtered(JoinType::Right, gt(division, column_ref("c5"))),
        Err(ExecutorError::TypeError(TypeError::DivisionByZero))
    );
}

#[test]
fn a_null_filter_counts_as_false() {
    let null = ScalarExpression::Constant(Arc::new(DataValue::Boolean(None)));
    assert_eq!(run_filtered(JoinType::Inner, null), Ok(vec![]));
    let yes = ScalarExpression::Constant(Arc::new(DataValue::Boolean(Some(true))));
    assert_eq!(run_filtered(JoinType::Inner, yes).unwrap().len(), 3);
}

#[test]
fn a_key_that_cannot_be_evaluated_fails_the_join() {
    let (_, left, right) = build_join_values();
    let bad = ScalarExpression::Unary {
        op: kip_sql::value_compute::UnaryOperator::Not,
        expr: Box::new(column_ref("c4")),
        ty: LogicalType::Boolean,
    };
    let op = JoinOperator {
        on: JoinCondition::On { on: vec![(column_ref("c1"), bad)], filter: None },
        join_type: JoinType::Inner,
    };
    assert_eq!(
        HashJoin::from((op, left, right)).execute(),
        Err(ExecutorError::TypeError(TypeError::InvalidType))
    );
}

#[test]
fn join_with_an_empty_side() {
    let (keys, left, _) = build_join_values();
    let op = JoinOperator { on: JoinCondition::On { on: keys, filter: None }, join_type: JoinType::Left };
    let rows = HashJoin::from((op, left, vec![])).execute().unwrap();
    assert_eq!(rows.len(), 3);
    assert_eq!(rows[0].values, build_integers(vec![Some(0), Some(2), Some(4)]));
    assert_eq!(rows[0].columns.len(), 3);

    let (keys, _, right) = build_join_values();
    let op = JoinOperator { on: JoinCondition::On { on: keys, filter: None }, join_type: JoinType::Right };
    let rows = HashJoin::from((op, vec![], right)).execute().unwrap();
    assert_eq!(rows.len(), 4);
    assert_eq!(rows[3].values, build_integers(vec![Some(1), Some(1), Some(1)]));

    let (keys, _, right) = build_join_values();
    let op = JoinOperator { on: JoinCondition::On { on: keys, filter: None }, join_type: JoinType::Inner };
    assert_eq!(HashJoin::from((op, vec![], right)).execute().unwrap().len(), 0);
}

#[test]
fn join_columns_are_forced_nullable_by_side() {
    assert_eq!(joins_nullable(&JoinType::Inner), (false, false));
    assert_eq!(joins_nullable(&JoinType::Left), (false, true));
    assert_eq!(joins_nullable(&JoinType::Right), (true, false));
    assert_eq!(joins_nullable(&JoinType::Full), (true, true));
    for (join_type, nullable) in [
        (JoinType::Inner, [false, false]),
        (JoinType::Left, [false, true]),
        (JoinType::Right, [true, false]),
        (JoinType::Full, [true, true]),
    ] {
        let rows = run_join(join_type).unwrap();
        for row in rows.iter() {
            let names: Vec<&str> = row.columns.iter().map(|c| c.name.as_str()).collect();
            assert_eq!(names, vec!["c1", "c2", "c3", "c4", "c5", "c6"]);
            let flags: Vec<bool> = row.columns.iter().map(|c| c.nullable).collect();
            let n = nullable;
            assert_eq!(flags, vec![n[0], n[0], n[0], n[1], n[1], n[1]]);
            assert_eq!(row.id, None);
            assert_eq!(row.columns.len(), row.values.len());
            for (column, value) in row.columns.iter().zip(row.values.iter()) {
                assert_eq!(value.logical_type(), *column.datatype());
                assert_eq!(value.cast(column.datatype()).as_ref(), Ok(value.as_ref()));
            }
        }
    }
}

#[test]
fn columns_filling_appends_with_the_forced_nullability() {
    let tuple = Tuple { id: None, columns: vec![column("a"), column("b")], values: vec![] };
    let mut join_columns = vec![column("z")];
    HashJoin::columns_filling(&tuple, &mut join_columns, true);
    let seen: Vec<(&str, bool)> =
        join_columns.iter().map(|c| (c.name.as_str(), c.nullable)).collect();
    assert_eq!(seen, vec![("z", false), ("a", true), ("b", true)]);
}

#[test]
fn hash_row_depends_on_the_key_values_only() {
    let (_, left, right) = build_join_values();
    let left_key = vec![column_ref("c1")];
    let right_key = vec![column_ref("c4")];
    let l0 = HashJoin::hash_row(&left_key, &left[0]).unwrap();
    let l1 = HashJoin::hash_row(&left_key, &left[1]).unwrap();
    let r0 = HashJoin::hash_row(&right_key, &right[0]).unwrap();
    let r3 = HashJoin::hash_row(&right_key, &right[3]).unwrap();
    assert_eq!(l0, r0);
    assert_eq!(l1, r3);
    assert_ne!(l0, l1);
    assert_eq!(l0, HashJoin::hash_row(&left_key, &left[0]).unwrap());
    let both = vec![column_ref("c1"), column_ref("c2")];
    assert_ne!(HashJoin::hash_row(&both, &left[0]).unwrap(), l0);
    let failing = vec![ScalarExpression::Unary {
        op: kip_sql::value_compute::UnaryOperator::Not,
        expr: Box::new(column_ref("c1")),
        ty: LogicalType::Boolean,
    }];
    assert_eq!(HashJoin::hash_row(&failing, &left[0]), Err(TypeError::InvalidType));
}

#[test]
fn inner_join_does_not_depend_on_the_build_side() {
    let (_, left, right) = build_join_values();
    let mut forward: Vec<Vec<ValueRef>> = run_join(JoinType::Inner)
        .unwrap()
        .into_iter()
        .map(|t| {
            let mut swapped = t.values[3..].to_vec();
            swapped.extend_from_slice(&t.values[..3]);
            swapped
        })
        .collect();
    let op = JoinOperator {
        on: JoinCondition::On { on: vec![(column_ref("c4"), column_ref("c1"))], filter: None },
        join_type: JoinType::Inner,
    };
    let mut backward: Vec<Vec<ValueRef>> = HashJoin::from((op, right, left))
        .execute()
        .unwrap()
        .into_iter()
        .map(|t| t.values)
        .collect();
    let key = |row: &Vec<ValueRef>| format!("{:?}", row);
    forward.sort_by_key(key);
    backward.sort_by_key(key);
    assert_eq!(forward, backward);
    assert_eq!(forward.len(), 3);
}

#[test]
fn full_join_counts_matches_and_unmatched_rows() {
    let inner = run_join(JoinType::Inner).unwrap().len();
    let full = run_join(JoinType::Full).unwrap().len();
    let unmatched_left = 1;
    let unmatched_right = 1;
    assert_eq!(full, inner + unmatched_left + unmatched_right);
}

#[test]
fn join_fed_row_by_row() {
    let (_, left, right) = build_join_values();
    let mut join =
        HashJoinState::new(vec![column_ref("c1")], vec![column_ref("c4")], None, JoinType::Full);
    assert!(!join.probing());
    assert_eq!(join.len(), 0);
    for tuple in left {
        assert_eq!(join.build(tuple), Ok(()));
    }
    assert_eq!(join.len(), 3);
    let mut per_row = vec![];
    for tuple in right {
        per_row.push(join.probe(tuple).unwrap().len());
        assert!(join.probing());
    }
    assert_eq!(per_row, vec![1, 1, 1, 1]);
    let tail = join.finish();
    assert_eq!(tail.len(), 1);
    assert_eq!(tail[0].values, build_integers(vec![Some(3), Some(5), Some(7), None, None, None]));
}

#[test]
fn rows_with_the_same_key_share_a_bucket() {
    let columns = vec![column("k"), column("v")];
    let rows = |pairs: Vec<(i32, i32)>| -> Vec<Tuple> {
        pairs
            .into_iter()
            .map(|(k, v)| Tuple {
                id: None,
                columns: columns.clone(),
                values: build_integers(vec![Some(k), Some(v)]),
            })
            .collect()
    };
    let left = rows(vec![(1, 10), (2, 20), (1, 11), (1, 12)]);
    let right_columns = vec![column("rk"), column("rv")];
    let right: Vec<Tuple> = vec![(1, 100), (3, 300), (1, 101)]
        .into_iter()
        .map(|(k, v)| Tuple {
            id: None,
            columns: right_columns.clone(),
            values: build_integers(vec![Some(k), Some(v)]),
        })
        .collect();
    let op = JoinOperator {
        on: JoinCondition::On { on: vec![(column_ref("k"), column_ref("rk"))], filter: None },
        join_type: JoinType::Full,
    };
    let out: Vec<Vec<ValueRef>> =
        HashJoin::from((op, left, right)).execute().unwrap().into_iter().map(|t| t.values).collect();
    assert_eq!(
        out,
        vec![
            build_integers(vec![Some(1), Some(10), Some(1), Some(100)]),
            build_integers(vec![Some(1), Some(11), Some(1), Some(100)]),
            build_integers(vec![Some(1), Some(12), Some(1), Some(100)]),
            build_integers(vec![None, None, Some(3), Some(300)]),
            build_integers(vec![Some(1), Some(10), Some(1), Some(101)]),
            build_integers(vec![Some(1), Some(11), Some(1), Some(101)]),
            build_integers(vec![Some(1), Some(12), Some(1), Some(101)]),
            build_integers(vec![Some(2), Some(20), None, None]),
        ]
    );
}

#[test]
fn operators_that_cannot_run_are_told_apart() {
    let (keys, left, right) = build_join_values();
    let cross = HashJoin::from((
        JoinOperator { on: JoinCondition::On { on: keys, filter: None }, join_type: JoinType::Cross },
        left,
        right,
    ));
    assert!(!cross.is_runnable());
    let unconditioned = HashJoin::from((
        JoinOperator { on: JoinCondition::Unconditioned, join_type: JoinType::Inner },
        vec![],
        vec![],
    ));
    assert!(!unconditioned.is_runnable());
}

#[test]
fn filter_keeps_the_rows_on_which_the_predicate_is_true() {
    let (_, left, _) = build_join_values();
    let plan = PhysicalOperator::Filter(PhysicalFilter {
        predicate: gt(
            column_ref("c2"),
            ScalarExpression::Constant(Arc::new(DataValue::Int32(Some(2)))),
        ),
        input: Box::new(PhysicalOperator::Filter(PhysicalFilter {
            predicate: gt(
                ScalarExpression::Constant(Arc::new(DataValue::Int32(Some(7)))),
                column_ref("c3"),
            ),
            input: Box::new(PhysicalOperator::Values(left)),
        })),
    });
    let rows: Vec<Vec<ValueRef>> =
        plan.execute().unwrap().into_iter().map(|t| t.values).collect();
    assert_eq!(rows, vec![build_integers(vec![Some(1), Some(3), Some(5)])]);
}

#[test]
fn filter_with_a_bad_predicate_fails() {
    let (_, left, _) = build_join_values();
    let not_boolean = PhysicalFilter {
        predicate: column_ref("c1"),
        input: Box::new(PhysicalOperator::Values(left)),
    };
    assert_eq!(not_boolean.execute(), Err(ExecutorError::NonBooleanPredicate));
    let empty = PhysicalFilter {
        predicate: column_ref("c1"),
        input: Box::new(PhysicalOperator::Values(vec![])),
    };
    assert_eq!(empty.execute(), Ok(vec![]));
}
