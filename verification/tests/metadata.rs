use relkv::table_metadata::TableMetadata;

#[test]
fn test_table_metadata() {
    let mut metadata = TableMetadata::new("Person".to_string());
    metadata.increment_max_row_id();
    let bytes = metadata.to_bytes().unwrap();
    let metadata = TableMetadata::from_bytes(&bytes).unwrap();
    assert_eq!(metadata.name, "Person");
    assert_eq!(metadata.max_row_id, 1);
}

#[test]
fn metadata_starts_empty() {
    let metadata = TableMetadata::new("Person".to_string());
    assert_eq!(metadata.get_current_row_id(), 0);
    let bytes = metadata.to_bytes().unwrap();
    let back = TableMetadata::from_bytes(&bytes).unwrap();
    assert_eq!(back, metadata);
}

#[test]
fn metadata_rejects_garbage() {
    assert!(TableMetadata::from_bytes(b"junk").is_err());
    assert!(TableMetadata::from_bytes(b"").is_err());
}

#[test]
fn metadata_rejects_trailing_bytes() {
    let metadata = TableMetadata::new("Person".to_string());
    let mut bytes = metadata.to_bytes().unwrap();
    bytes.push(0);
    assert!(TableMetadata::from_bytes(&bytes).is_err());
}
