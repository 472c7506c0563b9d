//! The keys the library builds must agree byte for byte with the ordered
//! tuple codec of the KV engine: the same elements packed by the codec
//! directly must reproduce each key.

use relkv::keys::{index_key, pk_key, row_key, table_key, table_meta_key};
use relkv::database::row_id_from_value;
use relkv::record::Column;

fn packed(parts: Vec<Vec<u8>>) -> Vec<u8> {
    let mut out = Vec::new();
    for p in parts {
        out.extend(p);
    }
    out
}

#[test]
fn table_key_matches_tuple_codec() {
    let root = vec![0xaau8, 0xbb];
    let key = table_key(&root, &"Person".to_string());
    let expect = packed(vec![
        root.clone(),
        foundationdb_tuple::pack(&1u64),
        foundationdb_tuple::pack(&"Person"),
    ]);
    assert_eq!(key, expect);
}

#[test]
fn table_meta_key_matches_tuple_codec() {
    let root: Vec<u8> = Vec::new();
    let key = table_meta_key(&root, &"Person".to_string());
    let expect = packed(vec![
        foundationdb_tuple::pack(&2u64),
        foundationdb_tuple::pack(&"Person"),
    ]);
    assert_eq!(key, expect);
}

#[test]
fn row_key_matches_tuple_codec() {
    let root: Vec<u8> = Vec::new();
    for id in [0i64, 1, 20, -7, i64::MAX, i64::MIN, 256, -256] {
        let key = row_key(&root, &"Person".to_string(), id);
        let expect = packed(vec![
            foundationdb_tuple::pack(&3u64),
            foundationdb_tuple::pack(&"Person"),
            foundationdb_tuple::pack(&id),
        ]);
        assert_eq!(key, expect, "row id {}", id);
    }
}

#[test]
fn pk_key_matches_tuple_codec_for_each_variant() {
    let root: Vec<u8> = Vec::new();
    let name = "T".to_string();
    for f in [20.5f64, -3.75, 0.0, -0.0, 1.0e300] {
        let key = pk_key(&root, &name, &vec![Column::Float(f.to_bits())]);
        let expect = packed(vec![
            foundationdb_tuple::pack(&4u64),
            foundationdb_tuple::pack(&"T"),
            foundationdb_tuple::pack(&f),
        ]);
        assert_eq!(key, expect, "float {}", f);
    }
    let key = pk_key(
        &root,
        &name,
        &vec![
            Column::String("Jo\u{0}hn \u{263a}".to_string()),
            Column::Int(-42),
            Column::Bool(true),
            Column::Bytes(vec![0, 1, 0xff, 0]),
        ],
    );
    let expect = packed(vec![
        foundationdb_tuple::pack(&4u64),
        foundationdb_tuple::pack(&"T"),
        foundationdb_tuple::pack(&"Jo\u{0}hn \u{263a}"),
        foundationdb_tuple::pack(&-42i64),
        foundationdb_tuple::pack(&true),
        foundationdb_tuple::pack(&foundationdb_tuple::Bytes::from(
            vec![0u8, 1, 0xff, 0].as_slice(),
        )),
    ]);
    assert_eq!(key, expect);
}

#[test]
fn null_column_packs_as_tuple_null() {
    // inside a packed tuple a NULL column is the codec's nested empty tuple
    let root: Vec<u8> = Vec::new();
    let name = "T".to_string();
    let key = index_key(&root, &name, &vec![Column::Null]);
    let expect = packed(vec![
        foundationdb_tuple::pack(&5u64),
        foundationdb_tuple::pack(&"T"),
        foundationdb_tuple::pack(&vec![()]),
    ]);
    assert_eq!(key, expect);
}

#[test]
fn row_id_value_round_trips_through_tuple_codec() {
    for id in [0i64, 5, -5, i64::MAX, i64::MIN] {
        let packed_id = foundationdb_tuple::pack(&id);
        assert_eq!(row_id_from_value(&packed_id).unwrap(), id);
        let unpacked: i64 = foundationdb_tuple::unpack(&packed_id).unwrap();
        assert_eq!(unpacked, id);
    }
}

#[test]
fn row_id_value_rejects_garbage() {
    assert!(row_id_from_value(&vec![0xfeu8, 0xff]).is_err());
}
