use kip_sql::catalog::{ColumnCatalog, ColumnDesc, ColumnRef, TableCatalog};
use kip_sql::errors::{ExecutorError, StorageError};
use kip_sql::execution::create_table::{CreateTable, CreateTableOperator};
use kip_sql::execution::insert::{Insert, InsertOperator};
use kip_sql::expression::ScalarExpression;
use kip_sql::storage::memory::MemStorage;
use kip_sql::tuple::Tuple;
use kip_sql::types::{DataValue, LogicalType, TypeError, ValueRef};
use std::sync::Arc;

fn column(name: &str, ty: LogicalType, primary: bool, unique: bool, nullable: bool) -> ColumnCatalog {
    ColumnCatalog::new(name.to_string(), nullable, ColumnDesc::new(ty, primary, unique))
}

fn create(storage: &mut MemStorage, name: &str, columns: Vec<ColumnCatalog>) {
    let created = CreateTable::from(CreateTableOperator { table_name: name.to_string(), columns })
        .execute(storage);
    assert_eq!(created, Ok(vec![]));
}

fn people(storage: &mut MemStorage) {
    create(
        storage,
        "people",
        vec![
            column("id", LogicalType::Integer, true, false, false),
            column("email", LogicalType::Varchar, false, true, true),
            column("age", LogicalType::Smallint, false, false, true),
        ],
    );
}

fn insert(
    storage: &mut MemStorage,
    table: &str,
    input: Vec<Tuple>,
    is_overwrite: bool,
) -> Result<Vec<Tuple>, ExecutorError> {
    Insert::from((InsertOperator { table_name: table.to_string(), is_overwrite }, input))
        .execute(storage)
}

fn columns_of(table: &TableCatalog, names: &[&str]) -> Vec<ColumnRef> {
    names.iter().map(|n| table.get_column_by_name(&n.to_string()).unwrap().clone()).collect()
}

fn person(storage: &MemStorage, id: i32, email: Option<&str>, age: Option<i32>) -> Tuple {
    let table = storage.table(&"people".to_string()).unwrap();
    Tuple {
        id: None,
        columns: columns_of(table, &["id", "email", "age"]),
        values: vec![
            Arc::new(DataValue::Int32(Some(id))),
            Arc::new(DataValue::Utf8(email.map(|e| e.to_string()))),
            Arc::new(DataValue::Int32(age)),
        ],
    }
}

fn all_rows(storage: &MemStorage, table: &str) -> Vec<(Option<ValueRef>, Vec<ValueRef>)> {
    let transaction = storage.transaction(&table.to_string()).unwrap();
    let width = storage.table(&table.to_string()).unwrap().all_columns().len();
    let projection = storage
        .table(&table.to_string())
        .unwrap()
        .all_columns()
        .iter()
        .take(width)
        .map(|c| ScalarExpression::ColumnRef(c.clone()))
        .collect();
    let mut iter = transaction.read((None, None), projection).unwrap();
    let mut rows = vec![];
    while let Some(tuple) = iter.next_tuple().unwrap() {
        rows.push((tuple.id, tuple.values));
    }
    rows
}

fn int32(v: i32) -> ValueRef {
    Arc::new(DataValue::Int32(Some(v)))
}

fn text(v: &str) -> ValueRef {
    Arc::new(DataValue::Utf8(Some(v.to_string())))
}

#[test]
fn insert_then_scan_with_projection() {
    let mut storage = MemStorage::new();
    create(
        &mut storage,
        "test",
        vec![
            column("c1", LogicalType::Integer, true, false, false),
            column("c2", LogicalType::Boolean, false, false, true),
        ],
    );
    let columns = storage.table(&"test".to_string()).unwrap().all_columns().clone();
    let rows = vec![
        Tuple {
            id: None,
            columns: columns.clone(),
            values: vec![int32(1), Arc::new(DataValue::Boolean(Some(true)))],
        },
        Tuple {
            id: None,
            columns: columns.clone(),
            values: vec![int32(2), Arc::new(DataValue::Boolean(Some(false)))],
        },
    ];
    assert_eq!(insert(&mut storage, "test", rows, false), Ok(vec![]));

    let transaction = storage.transaction(&"test".to_string()).unwrap();
    let mut iter = transaction
        .read((Some(1), Some(1)), vec![ScalarExpression::ColumnRef(columns[0].clone())])
        .unwrap();
    let tuple = iter.next_tuple().unwrap().unwrap();
    assert_eq!(tuple.id, Some(int32(2)));
    assert_eq!(tuple.values, vec![int32(2)]);
    assert_eq!(iter.next_tuple(), Ok(None));
}

#[test]
fn inserted_rows_come_back_cast_to_the_declared_types() {
    let mut storage = MemStorage::new();
    people(&mut storage);
    let rows = vec![
        person(&storage, 1, Some("a@x"), Some(30)),
        person(&storage, 2, None, None),
    ];
    assert_eq!(insert(&mut storage, "people", rows, false), Ok(vec![]));
    assert_eq!(
        all_rows(&storage, "people"),
        vec![
            (Some(int32(1)), vec![int32(1), text("a@x"), Arc::new(DataValue::Int16(Some(30)))]),
            (
                Some(int32(2)),
                vec![int32(2), Arc::new(DataValue::Utf8(None)), Arc::new(DataValue::Int16(None))]
            ),
        ]
    );
}

#[test]
fn columns_are_matched_by_identifier_and_missing_ones_are_null() {
    let mut storage = MemStorage::new();
    people(&mut storage);
    let table = storage.table(&"people".to_string()).unwrap();
    let reordered = Tuple {
        id: None,
        columns: columns_of(table, &["age", "id"]),
        values: vec![Arc::new(DataValue::Int64(Some(41))), Arc::new(DataValue::Int8(Some(7)))],
    };
    let row = Insert::reconstruct(table, &reordered).unwrap();
    assert_eq!(row.id, Some(int32(7)));
    assert_eq!(row.columns.len(), row.values.len());
    for (column, value) in row.columns.iter().zip(row.values.iter()) {
        assert_eq!(value.logical_type(), *column.datatype());
    }
    assert_eq!(
        row.values,
        vec![int32(7), Arc::new(DataValue::Utf8(None)), Arc::new(DataValue::Int16(Some(41)))]
    );
    assert_eq!(&row.columns, table.all_columns());

    let repeated = Tuple {
        id: None,
        columns: columns_of(table, &["id", "id"]),
        values: vec![int32(1), int32(2)],
    };
    assert_eq!(Insert::reconstruct(table, &repeated).unwrap().id, Some(int32(2)));

    let stranger = Tuple {
        id: None,
        columns: vec![
            Arc::new(column("id", LogicalType::Integer, true, false, false)),
            table.get_column_by_name(&"id".to_string()).unwrap().clone(),
        ],
        values: vec![int32(100), int32(3), int32(4)],
    };
    assert_eq!(Insert::reconstruct(table, &stranger).unwrap().id, Some(int32(3)));
}

#[test]
fn null_in_a_column_that_refuses_it() {
    let mut storage = MemStorage::new();
    people(&mut storage);
    let table = storage.table(&"people".to_string()).unwrap();
    let without_key = Tuple {
        id: None,
        columns: columns_of(table, &["email"]),
        values: vec![text("a@x")],
    };
    assert_eq!(
        Insert::reconstruct(table, &without_key),
        Err(ExecutorError::StorageError(StorageError::NotNullViolation))
    );
    let rows = vec![person(&storage, 1, Some("a@x"), None), without_key];
    assert_eq!(
        insert(&mut storage, "people", rows, false),
        Err(ExecutorError::StorageError(StorageError::NotNullViolation))
    );
    assert_eq!(all_rows(&storage, "people"), vec![]);
}

#[test]
fn value_that_cannot_be_cast() {
    let mut storage = MemStorage::new();
    people(&mut storage);
    let too_old = person(&storage, 1, Some("a@x"), Some(40000));
    assert_eq!(
        insert(&mut storage, "people", vec![too_old], false),
        Err(ExecutorError::TypeError(TypeError::CastFail))
    );
    let table = storage.table(&"people".to_string()).unwrap();
    let wrong_type = Tuple {
        id: None,
        columns: columns_of(table, &["id", "email"]),
        values: vec![int32(1), int32(5)],
    };
    assert_eq!(
        insert(&mut storage, "people", vec![wrong_type], false),
        Err(ExecutorError::TypeError(TypeError::CastFail))
    );
    assert_eq!(all_rows(&storage, "people"), vec![]);
}

#[test]
fn the_first_failing_column_decides() {
    let mut storage = MemStorage::new();
    people(&mut storage);
    let table = storage.table(&"people".to_string()).unwrap();
    let both_wrong = Tuple {
        id: None,
        columns: columns_of(table, &["email", "age"]),
        values: vec![int32(5), int32(40000)],
    };
    assert_eq!(
        Insert::reconstruct(table, &both_wrong),
        Err(ExecutorError::StorageError(StorageError::NotNullViolation))
    );
    let cast_first = Tuple {
        id: None,
        columns: columns_of(table, &["id", "email", "age"]),
        values: vec![int32(1), int32(5), int32(40000)],
    };
    assert_eq!(
        Insert::reconstruct(table, &cast_first),
        Err(ExecutorError::TypeError(TypeError::CastFail))
    );
}

#[test]
fn duplicate_primary_key_commits_nothing() {
    let mut storage = MemStorage::new();
    people(&mut storage);
    let first = vec![person(&storage, 1, Some("a@x"), None)];
    assert_eq!(insert(&mut storage, "people", first, false), Ok(vec![]));
    let second = vec![person(&storage, 2, Some("b@x"), None), person(&storage, 1, Some("c@x"), None)];
    assert_eq!(
        insert(&mut storage, "people", second, false),
        Err(ExecutorError::StorageError(StorageError::DuplicatePrimaryKey))
    );
    assert_eq!(all_rows(&storage, "people").len(), 1);
}

#[test]
fn overwrite_replaces_in_place() {
    let mut storage = MemStorage::new();
    people(&mut storage);
    let first = vec![
        person(&storage, 1, Some("a@x"), Some(1)),
        person(&storage, 2, Some("b@x"), Some(2)),
    ];
    assert_eq!(insert(&mut storage, "people", first, false), Ok(vec![]));
    let second = vec![person(&storage, 1, Some("a@x"), Some(99)), person(&storage, 3, None, None)];
    assert_eq!(insert(&mut storage, "people", second, true), Ok(vec![]));
    let rows = all_rows(&storage, "people");
    let ids: Vec<Option<ValueRef>> = rows.iter().map(|r| r.0.clone()).collect();
    assert_eq!(ids, vec![Some(int32(1)), Some(int32(2)), Some(int32(3))]);
    assert_eq!(rows[0].1[2], Arc::new(DataValue::Int16(Some(99))));
}

#[test]
fn unique_column_keeps_its_values_distinct() {
    let mut storage = MemStorage::new();
    people(&mut storage);
    let first = vec![
        person(&storage, 1, Some("a@x"), None),
        person(&storage, 2, None, None),
        person(&storage, 3, None, None),
    ];
    assert_eq!(insert(&mut storage, "people", first, false), Ok(vec![]));
    let clash = vec![person(&storage, 4, Some("d@x"), None), person(&storage, 5, Some("a@x"), None)];
    assert_eq!(
        insert(&mut storage, "people", clash, false),
        Err(ExecutorError::StorageError(StorageError::DuplicateUniqueKey))
    );
    assert_eq!(all_rows(&storage, "people").len(), 3);
    let clash_within = vec![
        person(&storage, 6, Some("e@x"), None),
        person(&storage, 7, Some("e@x"), None),
    ];
    assert_eq!(
        insert(&mut storage, "people", clash_within, false),
        Err(ExecutorError::StorageError(StorageError::DuplicateUniqueKey))
    );
    let fine = vec![person(&storage, 8, Some("f@x"), None), person(&storage, 1, Some("a@x"), Some(5))];
    assert_eq!(insert(&mut storage, "people", fine, true), Ok(vec![]));
    let rows = all_rows(&storage, "people");
    for (i, a) in rows.iter().enumerate() {
        for b in rows.iter().skip(i + 1) {
            assert!(a.1[1].is_null() || b.1[1].is_null() || a.1[1] != b.1[1]);
        }
    }
    assert_eq!(rows.len(), 4);
}

#[test]
fn insert_into_a_missing_table_does_nothing() {
    let mut storage = MemStorage::new();
    people(&mut storage);
    let rows = vec![person(&storage, 1, None, None)];
    assert_eq!(insert(&mut storage, "nowhere", rows, false), Ok(vec![]));
    assert_eq!(all_rows(&storage, "people"), vec![]);
    assert_eq!(storage.show_tables(), Ok(vec!["people".to_string()]));
}

#[test]
fn create_table_operator_reports_the_store_failure() {
    let mut storage = MemStorage::new();
    people(&mut storage);
    let again = CreateTable::from(CreateTableOperator {
        table_name: "people".to_string(),
        columns: vec![column("id", LogicalType::Integer, true, false, false)],
    })
    .execute(&mut storage);
    assert_eq!(again, Err(ExecutorError::StorageError(StorageError::TableExists)));
    let keyless = CreateTable::from(CreateTableOperator {
        table_name: "keyless".to_string(),
        columns: vec![column("a", LogicalType::Integer, false, false, true)],
    })
    ._execute(&mut storage);
    assert_eq!(keyless, Err(ExecutorError::StorageError(StorageError::InvalidSchema)));
    assert_eq!(storage.show_tables(), Ok(vec!["people".to_string()]));
}

fn seek(storage: &MemStorage, ranges: Vec<kip_sql::storage::model::ConstantBinary>) -> Vec<i32> {
    let table = storage.table(&"people".to_string()).unwrap();
    let email = table.get_column_id_by_name(&"email".to_string()).unwrap();
    let meta = table.get_unique_index(email).unwrap();
    let transaction = storage.transaction(&"people".to_string()).unwrap();
    let id = table.get_column_by_name(&"id".to_string()).unwrap().clone();
    let mut iter = transaction
        .read_by_index((None, None), vec![ScalarExpression::ColumnRef(id)], meta, ranges)
        .unwrap();
    let mut ids = vec![];
    while let Some(tuple) = iter.next_tuple().unwrap() {
        match tuple.values[0].as_ref() {
            DataValue::Int32(Some(v)) => ids.push(*v),
            other => panic!("unexpected value {:?}", other),
        }
    }
    ids
}

#[test]
fn read_by_index_yields_the_rows_the_index_lists() {
    let mut storage = MemStorage::new();
    people(&mut storage);
    let rows = vec![
        person(&storage, 1, Some("d@x"), None),
        person(&storage, 2, Some("b@x"), None),
        person(&storage, 3, None, None),
        person(&storage, 4, Some("a@x"), None),
        person(&storage, 5, Some("c@x"), None),
    ];
    assert_eq!(insert(&mut storage, "people", rows, false), Ok(vec![]));
    let eq = |v: &str| kip_sql::storage::model::ConstantBinary::Eq(text(v));
    let scope = |min: Option<&str>, max: Option<&str>| {
        kip_sql::storage::model::ConstantBinary::Scope { min: min.map(text), max: max.map(text) }
    };
    assert_eq!(seek(&storage, vec![eq("b@x")]), vec![2]);
    assert_eq!(seek(&storage, vec![eq("zz")]), Vec::<i32>::new());
    assert_eq!(seek(&storage, vec![eq("a@x"), eq("d@x")]), vec![1, 4]);
    assert_eq!(seek(&storage, vec![scope(Some("b@x"), Some("c@x"))]), vec![2, 5]);
    assert_eq!(seek(&storage, vec![scope(Some("c@x"), None)]), vec![1, 5]);
    assert_eq!(seek(&storage, vec![scope(None, Some("a@x"))]), vec![4]);
    assert_eq!(seek(&storage, vec![scope(None, None)]), vec![1, 2, 4, 5]);
    assert_eq!(seek(&storage, vec![scope(Some("d@x"), Some("a@x"))]), Vec::<i32>::new());
    assert_eq!(seek(&storage, vec![]), Vec::<i32>::new());
    assert_eq!(
        seek(&storage, vec![kip_sql::storage::model::ConstantBinary::Eq(int32(1))]),
        Vec::<i32>::new()
    );
    assert_eq!(
        seek(
            &storage,
            vec![kip_sql::storage::model::ConstantBinary::Scope { min: Some(int32(0)), max: None }]
        ),
        Vec::<i32>::new()
    );
    assert_eq!(
        seek(
            &storage,
            vec![kip_sql::storage::model::ConstantBinary::Eq(Arc::new(DataValue::Utf8(None)))]
        ),
        Vec::<i32>::new()
    );
}
