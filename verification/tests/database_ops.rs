use std::collections::BTreeMap;

use relkv::database::{apply_add_index, check_field_against_column, pk_lookup_key,
    plan_insert_with_schema, plan_table_write, record_from_row_bytes, row_id_from_value};
use relkv::errors::SqlLayerError;
use relkv::index::Index;
use relkv::keys::{index_key, row_key, table_key, table_meta_key};
use relkv::record::{Column, Columns, Record};
use relkv::table::{Field, FieldType, Table};
use relkv::table_metadata::TableMetadata;

type Store = BTreeMap<Vec<u8>, Vec<u8>>;

fn person_table() -> Table {
    let mut table = Table::new("Person".to_string(), vec!["name".to_string()]);
    table.add_field(Field::new("name".to_string(), FieldType::String));
    table.add_field(Field::new("age".to_string(), FieldType::Int));
    table.add_field(Field::new("height".to_string(), FieldType::Float));
    table.add_field(Field::new("is_married".to_string(), FieldType::Bool));
    table.add_field(Field::new("photo".to_string(), FieldType::Bytes));
    table
}

fn create_table(store: &mut Store, root: &Vec<u8>, table: &Table) -> Result<(), SqlLayerError> {
    let (key, value) = plan_table_write(root, table)?;
    store.insert(key, value);
    Ok(())
}

fn get_table(store: &Store, root: &Vec<u8>, name: &String) -> Result<Option<Table>, SqlLayerError> {
    match store.get(&table_key(root, name)) {
        None => Ok(None),
        Some(bytes) => Ok(Some(Table::from_bytes(bytes)?)),
    }
}

fn add_index(
    store: &mut Store,
    root: &Vec<u8>,
    name: &String,
    index: &Index,
) -> Result<(), SqlLayerError> {
    let table = get_table(store, root, name)?;
    let table = apply_add_index(name, table, index)?;
    let (key, value) = plan_table_write(root, &table)?;
    store.insert(key, value);
    Ok(())
}

fn insert(
    store: &mut Store,
    root: &Vec<u8>,
    name: &String,
    record: &Record,
) -> Result<(), SqlLayerError> {
    let table = get_table(store, root, name)?;
    let meta_bytes = match &table {
        Some(_) => store.get(&table_meta_key(root, name)).cloned(),
        None => None,
    };
    // no plan: the table is unknown and the insert is a silent no-op
    if let Some(plan) = plan_insert_with_schema(root, name, table.as_ref(), meta_bytes.as_ref(), record)? {
        for (key, value) in plan.writes {
            store.insert(key, value);
        }
    }
    Ok(())
}

fn get_record_by_pk(
    store: &Store,
    root: &Vec<u8>,
    name: &String,
    pk: &Columns,
) -> Result<Option<Record>, SqlLayerError> {
    let pk_entry = match store.get(&pk_lookup_key(root, name, pk)) {
        None => return Ok(None),
        Some(value) => value,
    };
    let row_id = row_id_from_value(pk_entry)?;
    let payload = match store.get(&row_key(root, name, row_id)) {
        None => return Ok(None),
        Some(value) => value,
    };
    Ok(Some(record_from_row_bytes(payload)?))
}

fn john_record() -> Record {
    Record {
        columns: vec![
            Column::String("John".to_string()),
            Column::Int(20),
            Column::Float((20.5f64).to_bits()),
            Column::Bool(true),
            Column::Bytes(b"arbitrary data".to_vec()),
        ],
    }
}

#[test]
fn test_database() {
    let mut store = Store::new();
    let root: Vec<u8> = Vec::new();
    let table = person_table();
    create_table(&mut store, &root, &table).expect("Unable to create table");
    let found_table = get_table(&store, &root, &"Person".to_string()).expect("Unable to get table");
    assert_eq!(found_table, Some(table));
}

#[test]
fn test_insert_record() {
    let mut store = Store::new();
    let root: Vec<u8> = Vec::new();
    let name = "Person".to_string();
    create_table(&mut store, &root, &person_table()).expect("Unable to create table");
    let record = john_record();
    insert(&mut store, &root, &name, &record).expect("Unable to insert record");
    let found_record = get_record_by_pk(
        &store,
        &root,
        &name,
        &Columns::new(vec![Column::String("John".to_string())]),
    )
    .expect("Unable to get record");
    assert_eq!(found_record, Some(record));
}

#[test]
fn insert_multiple_records() {
    let mut store = Store::new();
    let root: Vec<u8> = Vec::new();
    let name = "Person".to_string();
    create_table(&mut store, &root, &person_table()).expect("Unable to create table");

    for i in 0..10 {
        let record = Record {
            columns: vec![
                Column::String(format!("John {}", i)),
                Column::Int(i),
                Column::Float((i as f64).to_bits()),
                Column::Bool(i % 2 == 0),
                Column::Bytes(b"arbitrary data".to_vec()),
            ],
        };
        insert(&mut store, &root, &name, &record).expect("Unable to insert record");
    }

    for i in 0..10 {
        let expected = Record {
            columns: vec![
                Column::String(format!("John {}", i)),
                Column::Int(i),
                Column::Float((i as f64).to_bits()),
                Column::Bool(i % 2 == 0),
                Column::Bytes(b"arbitrary data".to_vec()),
            ],
        };
        let found = get_record_by_pk(
            &store,
            &root,
            &name,
            &Columns::new(vec![Column::String(format!("John {}", i))]),
        )
        .expect("Unable to get record");
        assert_eq!(found, Some(expected));
    }

    let meta_bytes = store.get(&table_meta_key(&root, &name)).expect("metadata missing");
    let meta = TableMetadata::from_bytes(meta_bytes).expect("metadata malformed");
    assert_eq!(meta.max_row_id, 10);
}

#[test]
fn test_retrieve_row_by_index() {
    let mut store = Store::new();
    let root: Vec<u8> = Vec::new();
    let name = "Person".to_string();
    create_table(&mut store, &root, &person_table()).expect("Unable to create table");

    let index = &Index::new("idx_age".to_string(), vec!["age".to_string()]);
    add_index(&mut store, &root, &name, index).expect("Unable to add index");

    let found = get_table(&store, &root, &name)
        .expect("Unable to get table")
        .expect("table missing");
    assert_eq!(found.indexes.len(), 1);
    assert_eq!(found.indexes[0].name(), "idx_age");
    assert_eq!(found.indexes[0].fields(), &vec!["age".to_string()]);

    let record = john_record();
    insert(&mut store, &root, &name, &record).expect("Unable to insert record");

    // the insert wrote an Index-prefixed entry keyed by the packed age,
    // holding the assigned row id
    let entry_key = index_key(&root, &name, &vec![Column::Int(20)]);
    let entry = store.get(&entry_key).expect("index entry missing");
    assert_eq!(row_id_from_value(entry).expect("bad row id"), 0);
}

#[test]
fn row_ids_are_contiguous_from_zero() {
    let mut store = Store::new();
    let root: Vec<u8> = Vec::new();
    let name = "Person".to_string();
    create_table(&mut store, &root, &person_table()).expect("Unable to create table");
    for i in 0..3 {
        let record = Record {
            columns: vec![
                Column::String(format!("p{}", i)),
                Column::Int(i),
                Column::Float(0),
                Column::Bool(false),
                Column::Bytes(vec![]),
            ],
        };
        insert(&mut store, &root, &name, &record).expect("Unable to insert record");
        // the row payload of id i must exist right after the i-th insert
        assert!(store.contains_key(&row_key(&root, &name, i)));
    }
}

#[test]
fn test_type_mismatch() {
    let mut store = Store::new();
    let root: Vec<u8> = Vec::new();
    let name = "Person".to_string();
    create_table(&mut store, &root, &person_table()).expect("Unable to create table");
    let keys_before: Vec<Vec<u8>> = store.keys().cloned().collect();

    let record = Record {
        columns: vec![
            Column::String("John".to_string()),
            Column::String("twenty".to_string()),
            Column::Float((20.5f64).to_bits()),
            Column::Bool(true),
            Column::Bytes(vec![]),
        ],
    };
    let err = insert(&mut store, &root, &name, &record).unwrap_err();
    assert_eq!(
        err,
        SqlLayerError::MismatchedColumnType("Int".to_string(), "String".to_string())
    );
    // the failed insert left no Row, PrimaryKey, Index, or TableMeta entry
    let keys_after: Vec<Vec<u8>> = store.keys().cloned().collect();
    assert_eq!(keys_before, keys_after);
}

#[test]
fn test_missing_column() {
    let mut store = Store::new();
    let root: Vec<u8> = Vec::new();
    let name = "Person".to_string();
    create_table(&mut store, &root, &person_table()).expect("Unable to create table");
    let keys_before: Vec<Vec<u8>> = store.keys().cloned().collect();

    // the primary key is the "name" column; an empty record cannot supply it
    let record = Record { columns: vec![] };
    let err = insert(&mut store, &root, &name, &record).unwrap_err();
    assert_eq!(err, SqlLayerError::MissingColumn("name".to_string()));
    let keys_after: Vec<Vec<u8>> = store.keys().cloned().collect();
    assert_eq!(keys_before, keys_after);
}

#[test]
fn null_columns_do_not_participate_in_validation() {
    // a NULL paired with any schema field type passes the check
    assert!(check_field_against_column(&FieldType::Int, &Column::Null).is_ok());
    assert!(check_field_against_column(&FieldType::String, &Column::Null).is_ok());
    assert!(check_field_against_column(&FieldType::Int, &Column::String("x".to_string())).is_err());

    let mut store = Store::new();
    let root: Vec<u8> = Vec::new();
    let name = "Person".to_string();
    create_table(&mut store, &root, &person_table()).expect("Unable to create table");
    let record = Record {
        columns: vec![
            Column::String("NoAge".to_string()),
            Column::Null,
            Column::Float((1.5f64).to_bits()),
            Column::Null,
            Column::Bytes(vec![7]),
        ],
    };
    insert(&mut store, &root, &name, &record).expect("Unable to insert record with NULLs");
    let found = get_record_by_pk(
        &store,
        &root,
        &name,
        &Columns::new(vec![Column::String("NoAge".to_string())]),
    )
    .expect("Unable to get record");
    // the NULL columns were stored as absent slots and read back as NULL
    assert_eq!(found, Some(record));
}

#[test]
fn distinct_tuples_get_distinct_keys() {
    let root: Vec<u8> = vec![9];
    let name = "T".to_string();
    // near-colliding tuples: a 0x00 inside a value must not run into the
    // element terminator or the next element
    let k1 = pk_lookup_key(
        &root,
        &name,
        &Columns::new(vec![Column::String("a".to_string()), Column::Int(1)]),
    );
    let k2 = pk_lookup_key(
        &root,
        &name,
        &Columns::new(vec![Column::String("a\u{0}".to_string()), Column::Int(1)]),
    );
    let k3 = pk_lookup_key(
        &root,
        &name,
        &Columns::new(vec![Column::Bytes(vec![0]), Column::Int(1)]),
    );
    let k4 = pk_lookup_key(&root, &name, &Columns::new(vec![Column::Bytes(vec![]), Column::Int(1)]));
    let k5 = pk_lookup_key(&root, &name, &Columns::new(vec![Column::Null, Column::Int(1)]));
    let k6 = pk_lookup_key(&root, &name, &Columns::new(vec![Column::Int(256), Column::Int(1)]));
    let k7 = pk_lookup_key(&root, &name, &Columns::new(vec![Column::Int(257), Column::Int(1)]));
    let keys = [k1, k2, k3, k4, k5, k6, k7];
    for i in 0..keys.len() {
        for j in 0..keys.len() {
            if i != j {
                assert_ne!(keys[i], keys[j], "{} vs {}", i, j);
            }
        }
    }
    // and the same row id under two tables, or two row ids under one table,
    // never share a key
    assert_ne!(row_key(&root, &"A".to_string(), 0), row_key(&root, &"B".to_string(), 0));
    assert_ne!(row_key(&root, &name, 0), row_key(&root, &name, 1));
}

#[test]
fn insert_into_unknown_table_is_a_no_op() {
    let mut store = Store::new();
    let root: Vec<u8> = Vec::new();
    insert(&mut store, &root, &"Ghost".to_string(), &john_record()).expect("no-op expected");
    assert!(store.is_empty());
}

#[test]
fn add_index_on_unknown_table_fails() {
    let mut store = Store::new();
    let root: Vec<u8> = Vec::new();
    let index = Index::new("idx".to_string(), vec!["age".to_string()]);
    let err = add_index(&mut store, &root, &"Ghost".to_string(), &index).unwrap_err();
    assert_eq!(err, SqlLayerError::TableNotFound("Ghost".to_string()));
}

#[test]
fn tables_do_not_share_keys() {
    let mut store = Store::new();
    let root: Vec<u8> = Vec::new();
    let mut a = person_table();
    a.name = "A".to_string();
    let mut b = person_table();
    b.name = "B".to_string();
    create_table(&mut store, &root, &a).unwrap();
    create_table(&mut store, &root, &b).unwrap();
    let na = "A".to_string();
    let nb = "B".to_string();
    insert(&mut store, &root, &na, &john_record()).unwrap();
    insert(&mut store, &root, &nb, &john_record()).unwrap();
    // both tables hold their own schema, metadata, primary-key entry and row
    assert_eq!(store.len(), 8);
    let got_a = get_record_by_pk(
        &store,
        &root,
        &na,
        &Columns::new(vec![Column::String("John".to_string())]),
    )
    .unwrap();
    assert_eq!(got_a, Some(john_record()));
}
