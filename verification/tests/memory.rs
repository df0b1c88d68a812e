use kip_sql::catalog::{ColumnCatalog, ColumnDesc, ColumnRef};
use kip_sql::errors::StorageError;
use kip_sql::expression::ScalarExpression;
use kip_sql::storage::memory::{MemStorage, MemTable};
use kip_sql::tuple::Tuple;
use kip_sql::types::{DataValue, LogicalType};
use std::sync::Arc;

fn data_filling(columns: Vec<ColumnRef>, table: &mut MemTable) -> Result<(), StorageError> {
    table.append(
        Tuple {
            id: Some(Arc::new(DataValue::Int32(Some(1)))),
            columns: columns.clone(),
            values: vec![
                Arc::new(DataValue::Int32(Some(1))),
                Arc::new(DataValue::Boolean(Some(true))),
            ],
        },
        false,
    )?;
    table.append(
        Tuple {
            id: Some(Arc::new(DataValue::Int32(Some(2)))),
            columns: columns.clone(),
            values: vec![
                Arc::new(DataValue::Int32(Some(2))),
                Arc::new(DataValue::Boolean(Some(false))),
            ],
        },
        false,
    )?;

    Ok(())
}

#[test]
fn test_in_memory_storage_works_with_data() {
    let mut storage = MemStorage::new();
    let columns = vec![
        Arc::new(ColumnCatalog::new(
            "c1".to_string(),
            false,
            ColumnDesc::new(LogicalType::Integer, true, false),
        )),
        Arc::new(ColumnCatalog::new(
            "c2".to_string(),
            false,
            ColumnDesc::new(LogicalType::Boolean, false, false),
        )),
    ];

    let source_columns: Vec<ColumnCatalog> =
        columns.iter().map(|col_ref| ColumnCatalog::clone(&col_ref)).collect();

    let table_id = storage.create_table("test".to_string(), source_columns).unwrap();

    let table_catalog = storage.table(&"test".to_string());
    assert!(table_catalog.is_some());
    assert!(table_catalog.unwrap().get_column_id_by_name(&"c1".to_string()).is_some());

    let mut transaction = storage.transaction(&table_id).unwrap();
    data_filling(columns, &mut transaction).unwrap();

    let mut iter = transaction
        .read(
            (Some(1), Some(1)),
            vec![ScalarExpression::InputRef { index: 0, ty: LogicalType::Integer }],
        )
        .unwrap();

    let option_1 = iter.next_tuple().unwrap();
    let tuple = option_1.unwrap();
    assert_eq!(tuple.id, Some(Arc::new(DataValue::Int32(Some(2)))));
    assert_eq!(tuple.values, vec![Arc::new(DataValue::Int32(Some(2)))]);

    let option_2 = iter.next_tuple().unwrap();
    assert_eq!(option_2, None);
}

fn column(name: &str, ty: LogicalType, primary: bool, unique: bool) -> ColumnCatalog {
    ColumnCatalog::new(name.to_string(), !primary, ColumnDesc::new(ty, primary, unique))
}

fn sample_columns() -> Vec<ColumnCatalog> {
    vec![
        column("c1", LogicalType::Integer, true, false),
        column("c2", LogicalType::Boolean, false, false),
    ]
}

fn row(table: &kip_sql::catalog::TableCatalog, id: i32, flag: bool) -> Tuple {
    Tuple {
        id: Some(Arc::new(DataValue::Int32(Some(id)))),
        columns: table.all_columns().clone(),
        values: vec![
            Arc::new(DataValue::Int32(Some(id))),
            Arc::new(DataValue::Boolean(Some(flag))),
        ],
    }
}

fn scan(table: &MemTable, bounds: (Option<usize>, Option<usize>)) -> Vec<i32> {
    let mut iter = table
        .read(bounds, vec![ScalarExpression::InputRef { index: 0, ty: LogicalType::Integer }])
        .unwrap();
    let mut ids = vec![];
    while let Some(tuple) = iter.next_tuple().unwrap() {
        match tuple.values[0].as_ref() {
            DataValue::Int32(Some(v)) => ids.push(*v),
            other => panic!("unexpected value {:?}", other),
        }
    }
    ids
}

#[test]
fn create_table_refuses_duplicates_and_bad_schemas() {
    let mut storage = MemStorage::new();
    assert_eq!(storage.create_table("t".to_string(), sample_columns()), Ok("t".to_string()));
    assert_eq!(
        storage.create_table("t".to_string(), sample_columns()),
        Err(StorageError::TableExists)
    );
    assert_eq!(
        storage.create_table(
            "no_key".to_string(),
            vec![column("a", LogicalType::Integer, false, false)]
        ),
        Err(StorageError::InvalidSchema)
    );
    assert_eq!(
        storage.create_table(
            "two_keys".to_string(),
            vec![
                column("a", LogicalType::Integer, true, false),
                column("b", LogicalType::Integer, true, false)
            ]
        ),
        Err(StorageError::InvalidSchema)
    );
    assert_eq!(storage.create_table("empty".to_string(), vec![]), Err(StorageError::InvalidSchema));
    assert_eq!(storage.show_tables(), Ok(vec!["t".to_string()]));
}

#[test]
fn column_identifiers_are_distinct_across_tables() {
    let mut storage = MemStorage::new();
    storage.create_table("a".to_string(), sample_columns()).unwrap();
    storage.create_table("b".to_string(), sample_columns()).unwrap();
    let a = storage.table(&"a".to_string()).unwrap();
    let b = storage.table(&"b".to_string()).unwrap();
    let ids: Vec<Option<u32>> = a
        .all_columns()
        .iter()
        .chain(b.all_columns().iter())
        .map(|c| c.id)
        .collect();
    assert_eq!(ids, vec![Some(0), Some(1), Some(2), Some(3)]);
    assert_eq!(a.get_column_id_by_name(&"c2".to_string()), Some(1));
    assert_eq!(b.get_column_id_by_name(&"c2".to_string()), Some(3));
    assert_eq!(b.get_column_id_by_name(&"zz".to_string()), None);
    assert_eq!(a.name(), "a");
    assert_eq!(b.primary_key().0, 0);
}

#[test]
fn unique_columns_have_an_index() {
    let mut storage = MemStorage::new();
    storage
        .create_table(
            "t".to_string(),
            vec![
                column("id", LogicalType::Integer, true, false),
                column("plain", LogicalType::Integer, false, false),
                column("email", LogicalType::Varchar, false, true),
            ],
        )
        .unwrap();
    let table = storage.table(&"t".to_string()).unwrap();
    assert!(table.get_unique_index(0).is_none());
    assert!(table.get_unique_index(1).is_none());
    let meta = table.get_unique_index(2).unwrap();
    assert_eq!(meta.id, 2);
    assert_eq!(meta.column_ids, vec![2]);
    assert!(meta.is_unique);
    assert!(table.get_unique_index(3).is_none());
}

#[test]
fn drop_table_is_idempotent() {
    let mut storage = MemStorage::new();
    storage.create_table("a".to_string(), sample_columns()).unwrap();
    storage.create_table("b".to_string(), sample_columns()).unwrap();
    assert_eq!(storage.drop_table(&"a".to_string()), Ok(()));
    assert_eq!(storage.drop_table(&"a".to_string()), Ok(()));
    assert!(storage.table(&"a".to_string()).is_none());
    assert!(storage.transaction(&"a".to_string()).is_none());
    assert!(storage.table(&"b".to_string()).is_some());
    assert_eq!(storage.show_tables(), Ok(vec!["b".to_string()]));
    assert_eq!(storage.create_table("a".to_string(), sample_columns()), Ok("a".to_string()));
    assert_eq!(storage.show_tables(), Ok(vec!["b".to_string(), "a".to_string()]));
}

#[test]
fn transactions_are_isolated_until_commit() {
    let mut storage = MemStorage::new();
    storage.create_table("t".to_string(), sample_columns()).unwrap();
    let mut first = storage.transaction(&"t".to_string()).unwrap();
    let one = row(storage.table(&"t".to_string()).unwrap(), 1, true);
    first.append(one, false).unwrap();
    assert_eq!(first.len(), 1);
    let second = storage.transaction(&"t".to_string()).unwrap();
    assert_eq!(second.len(), 0);
    assert_eq!(first.commit(&mut storage), Ok(()));
    assert_eq!(second.len(), 0);
    let third = storage.transaction(&"t".to_string()).unwrap();
    assert_eq!(scan(&third, (None, None)), vec![1]);
}

#[test]
fn commit_to_a_dropped_table_fails() {
    let mut storage = MemStorage::new();
    storage.create_table("t".to_string(), sample_columns()).unwrap();
    let transaction = storage.transaction(&"t".to_string()).unwrap();
    storage.drop_table(&"t".to_string()).unwrap();
    assert_eq!(transaction.commit(&mut storage), Err(StorageError::TableNotFound));
    assert_eq!(storage.show_tables(), Ok(vec![]));
}

#[test]
fn drop_data_keeps_the_schema() {
    let mut storage = MemStorage::new();
    storage.create_table("t".to_string(), sample_columns()).unwrap();
    let mut transaction = storage.transaction(&"t".to_string()).unwrap();
    transaction.append(row(storage.table(&"t".to_string()).unwrap(), 1, true), false).unwrap();
    transaction.commit(&mut storage).unwrap();
    assert_eq!(storage.transaction(&"t".to_string()).unwrap().len(), 1);
    assert_eq!(storage.drop_data(&"t".to_string()), Ok(()));
    assert_eq!(storage.drop_data(&"missing".to_string()), Ok(()));
    assert!(storage.table(&"t".to_string()).is_some());
    assert_eq!(storage.transaction(&"t".to_string()).unwrap().len(), 0);
}

#[test]
fn append_replaces_only_when_overwriting() {
    let mut storage = MemStorage::new();
    storage.create_table("t".to_string(), sample_columns()).unwrap();
    let table = storage.table(&"t".to_string()).unwrap();
    let mut transaction = storage.transaction(&"t".to_string()).unwrap();
    transaction.append(row(table, 1, true), false).unwrap();
    transaction.append(row(table, 2, true), false).unwrap();
    transaction.append(row(table, 3, true), false).unwrap();
    assert_eq!(
        transaction.append(row(table, 2, false), false),
        Err(StorageError::DuplicatePrimaryKey)
    );
    assert_eq!(transaction.len(), 3);
    assert_eq!(transaction.append(row(table, 2, false), true), Ok(()));
    assert_eq!(transaction.len(), 3);
    assert_eq!(scan(&transaction, (None, None)), vec![1, 2, 3]);
    let mut flags = transaction
        .read((Some(1), Some(1)), vec![ScalarExpression::InputRef { index: 1, ty: LogicalType::Boolean }])
        .unwrap();
    assert_eq!(
        flags.next_tuple().unwrap().unwrap().values,
        vec![Arc::new(DataValue::Boolean(Some(false)))]
    );
}

#[test]
fn delete_removes_the_row() {
    let mut storage = MemStorage::new();
    storage.create_table("t".to_string(), sample_columns()).unwrap();
    let table = storage.table(&"t".to_string()).unwrap();
    let mut transaction = storage.transaction(&"t".to_string()).unwrap();
    for id in 1..=4 {
        transaction.append(row(table, id, true), false).unwrap();
    }
    assert_eq!(transaction.delete(Arc::new(DataValue::Int32(Some(2)))), Ok(()));
    assert_eq!(transaction.delete(Arc::new(DataValue::Int32(Some(9)))), Ok(()));
    assert_eq!(transaction.delete(Arc::new(DataValue::Int64(Some(3)))), Ok(()));
    assert_eq!(scan(&transaction, (None, None)), vec![1, 3, 4]);
}

#[test]
fn scan_honours_offset_and_limit() {
    let mut storage = MemStorage::new();
    storage.create_table("t".to_string(), sample_columns()).unwrap();
    let table = storage.table(&"t".to_string()).unwrap();
    let mut transaction = storage.transaction(&"t".to_string()).unwrap();
    for id in 1..=5 {
        transaction.append(row(table, id, true), false).unwrap();
    }
    assert_eq!(scan(&transaction, (None, None)), vec![1, 2, 3, 4, 5]);
    assert_eq!(scan(&transaction, (Some(2), None)), vec![3, 4, 5]);
    assert_eq!(scan(&transaction, (None, Some(2))), vec![1, 2]);
    assert_eq!(scan(&transaction, (Some(1), Some(3))), vec![2, 3, 4]);
    assert_eq!(scan(&transaction, (Some(4), Some(3))), vec![5]);
    assert_eq!(scan(&transaction, (Some(5), None)), Vec::<i32>::new());
    assert_eq!(scan(&transaction, (Some(usize::MAX), None)), Vec::<i32>::new());
    assert_eq!(scan(&transaction, (None, Some(0))), Vec::<i32>::new());
    let mut iter = transaction.read((None, Some(1)), vec![]).unwrap();
    assert!(iter.next_tuple().unwrap().is_some());
    assert_eq!(iter.next_tuple(), Ok(None));
    assert_eq!(iter.next_tuple(), Ok(None));
}

#[test]
fn projection_names_its_columns() {
    let mut storage = MemStorage::new();
    storage.create_table("t".to_string(), sample_columns()).unwrap();
    let table = storage.table(&"t".to_string()).unwrap();
    let mut transaction = storage.transaction(&"t".to_string()).unwrap();
    transaction.append(row(table, 7, true), false).unwrap();
    let c2 = table.get_column_by_name(&"c2".to_string()).unwrap().clone();
    let mut iter = transaction
        .read(
            (None, None),
            vec![
                ScalarExpression::ColumnRef(c2.clone()),
                ScalarExpression::InputRef { index: 0, ty: LogicalType::Integer },
                ScalarExpression::Alias {
                    expr: Box::new(ScalarExpression::InputRef { index: 0, ty: LogicalType::Integer }),
                    alias: "renamed".to_string(),
                },
                ScalarExpression::Constant(Arc::new(DataValue::Utf8(Some("k".to_string())))),
            ],
        )
        .unwrap();
    let tuple = iter.next_tuple().unwrap().unwrap();
    assert_eq!(tuple.id, Some(Arc::new(DataValue::Int32(Some(7)))));
    assert_eq!(
        tuple.values,
        vec![
            Arc::new(DataValue::Boolean(Some(true))),
            Arc::new(DataValue::Int32(Some(7))),
            Arc::new(DataValue::Int32(Some(7))),
            Arc::new(DataValue::Utf8(Some("k".to_string()))),
        ]
    );
    let names: Vec<&str> = tuple.columns.iter().map(|c| c.name.as_str()).collect();
    assert_eq!(names, vec!["c2", "c1", "renamed", ""]);
    assert_eq!(tuple.columns.len(), tuple.values.len());
    for (column, value) in tuple.columns.iter().zip(tuple.values.iter()) {
        assert_eq!(value.logical_type(), *column.datatype());
    }
    assert_eq!(tuple.columns[0], c2);
    assert_eq!(tuple.columns[2].id, None);
    assert!(tuple.columns[2].nullable);
    assert_eq!(*tuple.columns[3].datatype(), LogicalType::Varchar);
}

#[test]
fn a_failing_projection_fails_the_step_only() {
    let mut storage = MemStorage::new();
    storage.create_table("t".to_string(), sample_columns()).unwrap();
    let table = storage.table(&"t".to_string()).unwrap();
    let mut transaction = storage.transaction(&"t".to_string()).unwrap();
    transaction.append(row(table, 0, true), false).unwrap();
    transaction.append(row(table, 5, true), false).unwrap();
    let mut iter = transaction
        .read(
            (None, Some(1)),
            vec![ScalarExpression::Binary {
                op: kip_sql::value_compute::BinaryOperator::Divide,
                left_expr: Box::new(ScalarExpression::Constant(Arc::new(DataValue::Int32(Some(10))))),
                right_expr: Box::new(ScalarExpression::InputRef { index: 0, ty: LogicalType::Integer }),
                ty: LogicalType::Integer,
            }],
        )
        .unwrap();
    assert_eq!(
        iter.next_tuple(),
        Err(StorageError::TypeError(kip_sql::types::TypeError::DivisionByZero))
    );
    assert_eq!(
        iter.next_tuple().unwrap().unwrap().values,
        vec![Arc::new(DataValue::Int32(Some(2)))]
    );
    assert_eq!(iter.next_tuple(), Ok(None));
}

#[test]
fn unique_index_refuses_another_row() {
    let mut storage = MemStorage::new();
    storage.create_table("t".to_string(), sample_columns()).unwrap();
    let mut transaction = storage.transaction(&"t".to_string()).unwrap();
    let key = |v: i32| kip_sql::storage::Index {
        id: 1,
        column_values: vec![Arc::new(DataValue::Int32(Some(v)))],
    };
    let id = |v: i32| vec![Arc::new(DataValue::Int32(Some(v)))];
    assert_eq!(transaction.add_index(key(10), id(1), true), Ok(()));
    assert_eq!(transaction.add_index(key(10), id(1), true), Ok(()));
    assert_eq!(transaction.add_index(key(10), id(2), true), Err(StorageError::DuplicateUniqueKey));
    assert_eq!(transaction.add_index(key(11), id(2), true), Ok(()));
    assert_eq!(transaction.add_index(key(11), id(3), false), Ok(()));
    assert_eq!(transaction.add_index(key(11), id(2), true), Err(StorageError::DuplicateUniqueKey));
    assert_eq!(transaction.del_index(&key(10)), Ok(()));
    assert_eq!(transaction.del_index(&key(10)), Ok(()));
    assert_eq!(transaction.add_index(key(10), id(2), true), Ok(()));
    let other_index = kip_sql::storage::Index {
        id: 2,
        column_values: vec![Arc::new(DataValue::Int32(Some(10)))],
    };
    assert_eq!(transaction.add_index(other_index, id(5), true), Ok(()));
}

#[test]
fn root_replaces_the_catalog_with_empty_tables() {
    let mut root = kip_sql::catalog::RootCatalog::new();
    assert_eq!(root.add_table("x".to_string(), sample_columns()), Ok("x".to_string()));
    assert_eq!(root.add_table("x".to_string(), sample_columns()), Err(StorageError::TableExists));
    assert_eq!(root.len(), 1);
    let mut before = MemStorage::new();
    before.create_table("old".to_string(), sample_columns()).unwrap();
    let storage = before.root(root);
    assert_eq!(storage.show_tables(), Ok(vec!["x".to_string()]));
    assert!(storage.table(&"old".to_string()).is_none());
    assert_eq!(storage.transaction(&"x".to_string()).unwrap().len(), 0);
}
