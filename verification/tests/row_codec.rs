use relkv::record::{Column as RecordColumn, Record};
use relkv::row::{Column, Row};

fn sample_row() -> Row {
    let mut row = Row::new();
    row.add_column(Column::new_string("John".to_string()));
    row.add_column(Column::new_int(20));
    row.add_column(Column::new_float((20.5f64).to_bits()));
    row.add_column(Column::new_bool(true));
    row.add_column(Column::new_bytes(b"arbitrary data".to_vec()));
    row
}

#[test]
fn test_row() {
    let row = sample_row();
    let bytes = row.to_bytes().expect("Failed to serialize row");
    let deserialized_row = Row::from_bytes(&bytes).expect("Unable to deserialize row");
    assert_eq!(row, deserialized_row);
}

#[test]
fn null_columns_survive_round_trip() {
    let mut row = Row::new();
    row.add_null_column();
    row.add_column(Column::new_int(7));
    row.add_null_column();
    let bytes = row.to_bytes().unwrap();
    let back = Row::from_bytes(&bytes).unwrap();
    assert_eq!(row, back);
    assert_eq!(back.columns[0], None);
    assert_eq!(back.columns[2], None);
}

#[test]
fn row_rejects_garbage() {
    assert!(Row::from_bytes(b"\x01\x02\x03").is_err());
}

#[test]
fn row_rejects_trailing_bytes() {
    let mut bytes = sample_row().to_bytes().unwrap();
    bytes.push(9);
    assert!(Row::from_bytes(&bytes).is_err());
}

#[test]
fn test_convert_row_to_record() {
    let mut row = Row::new();
    row.add_column(Column::new_string("John".to_string()));
    row.add_column(Column::new_int(20));
    row.add_column(Column::new_float((20.5f64).to_bits()));
    row.add_column(Column::new_bool(true));
    row.add_column(Column::new_bytes(b"arbitrary data".to_vec()));

    let record = Record::from_row(&row);
    assert_eq!(record.columns.len(), 5);
    assert_eq!(
        record,
        Record {
            columns: vec![
                RecordColumn::String("John".to_string()),
                RecordColumn::Int(20),
                RecordColumn::Float((20.5f64).to_bits()),
                RecordColumn::Bool(true),
                RecordColumn::Bytes(b"arbitrary data".to_vec()),
            ]
        }
    )
}

#[test]
fn record_to_row_and_back_is_identity() {
    let record = Record {
        columns: vec![
            RecordColumn::String("Ada".to_string()),
            RecordColumn::Null,
            RecordColumn::Float((-3.75f64).to_bits()),
            RecordColumn::Bytes(vec![0, 255, 0]),
            RecordColumn::Bool(false),
            RecordColumn::Int(-42),
        ],
    };
    let row = record.to_row();
    assert_eq!(row.columns[1], None);
    let back = Record::from_row(&row);
    assert_eq!(back, record);
}

#[test]
fn is_null_sees_every_member() {
    let mut c = Column::new_int(1);
    assert!(!c.is_null());
    c.column_int = None;
    assert!(c.is_null());
    assert!(!Column::new_string(String::new()).is_null());
    assert!(!Column::new_float(0).is_null());
    assert!(!Column::new_bool(false).is_null());
    assert!(!Column::new_bytes(vec![]).is_null());
}
