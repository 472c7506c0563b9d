use relkv::index::Index;
use relkv::table::{Field, FieldType, Table};

fn person_table() -> Table {
    let mut table = Table::new(
        "Person".to_string(),
        vec!["firstname".to_string(), "lastname".to_string()],
    );
    table.add_field(Field::new("lastname".to_string(), FieldType::String));
    table.add_field(Field::new("firstname".to_string(), FieldType::String));
    table.add_field(Field::new("age".to_string(), FieldType::Int));
    table.add_field(Field::new("height".to_string(), FieldType::Float));
    table.add_field(Field::new("is_married".to_string(), FieldType::Bool));
    table.add_field(Field::new("photo".to_string(), FieldType::Bytes));
    table
}

#[test]
fn test_schema() {
    let table = person_table();
    let bytes = table.to_bytes().expect("Failed to serialize table");
    let deserialized_table = Table::from_bytes(&bytes).expect("Unable to deserialize table");
    assert_eq!(table, deserialized_table);
}

#[test]
fn schema_with_indexes_round_trips() {
    let mut table = person_table();
    table.add_index(&Index::new(
        "idx_age".to_string(),
        vec!["age".to_string()],
    ));
    table.add_index(&Index::new(
        "idx_name".to_string(),
        vec!["lastname".to_string(), "firstname".to_string()],
    ));
    let bytes = table.to_bytes().unwrap();
    let back = Table::from_bytes(&bytes).unwrap();
    assert_eq!(table, back);
}

#[test]
fn schema_rejects_garbage() {
    assert!(Table::from_bytes(b"not a schema").is_err());
    assert!(Table::from_bytes(b"").is_err());
}

#[test]
fn get_field_pos_finds_first_match() {
    let table = person_table();
    assert_eq!(table.get_field_pos(&"lastname".to_string()), Some(0));
    assert_eq!(table.get_field_pos(&"age".to_string()), Some(2));
    assert_eq!(table.get_field_pos(&"salary".to_string()), None);
}

#[test]
fn well_formedness_checks_the_invariants() {
    let mut table = person_table();
    table.add_index(&Index::new("idx_age".to_string(), vec!["age".to_string()]));
    assert!(table.is_well_formed());

    let empty_pk = Table::new("T".to_string(), vec![]);
    assert!(!empty_pk.is_well_formed());

    let mut dup = Table::new("T".to_string(), vec!["a".to_string()]);
    dup.add_field(Field::new("a".to_string(), FieldType::Int));
    dup.add_field(Field::new("a".to_string(), FieldType::Bool));
    assert!(!dup.is_well_formed());

    let mut missing_pk = Table::new("T".to_string(), vec!["ghost".to_string()]);
    missing_pk.add_field(Field::new("a".to_string(), FieldType::Int));
    assert!(!missing_pk.is_well_formed());

    let mut missing_ix = Table::new("T".to_string(), vec!["a".to_string()]);
    missing_ix.add_field(Field::new("a".to_string(), FieldType::Int));
    missing_ix.add_index(&Index::new("idx".to_string(), vec!["ghost".to_string()]));
    assert!(!missing_ix.is_well_formed());
}

#[test]
fn index_accessors() {
    let index = Index::new("idx_age".to_string(), vec!["age".to_string()]);
    assert_eq!(index.name(), "idx_age");
    assert_eq!(index.fields(), &vec!["age".to_string()]);
}
