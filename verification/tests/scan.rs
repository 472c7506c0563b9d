use std::collections::BTreeMap;
use std::ops::Bound;

use relkv::storage::{next_full_scan_start, MAX_SCAN_SIZE};

type Store = BTreeMap<Vec<u8>, Vec<u8>>;

/// A bounded range read over the ordered store, capped like the KV facade's
/// `scan`.
fn scan(store: &Store, start: &[u8], end: &[u8]) -> Vec<(Vec<u8>, Vec<u8>)> {
    store
        .range::<[u8], _>((Bound::Included(start), Bound::Excluded(end)))
        .take(MAX_SCAN_SIZE)
        .map(|(k, v)| (k.clone(), v.clone()))
        .collect()
}

/// The facade's `full_scan`: bounded scans chained by extending the last
/// key with a single 0xFF byte, until a page comes back empty.
fn full_scan(store: &Store, start: &[u8], end: &[u8]) -> Vec<(Vec<u8>, Vec<u8>)> {
    let mut out = Vec::new();
    let mut start = start.to_vec();
    loop {
        let kvs = scan(store, &start, end);
        if kvs.is_empty() {
            break;
        }
        if let Some(kv) = kvs.last() {
            start = next_full_scan_start(&kv.0);
        }
        for kv in kvs {
            out.push(kv);
        }
    }
    out
}

fn keyed(i: u64) -> Vec<u8> {
    foundationdb_tuple::pack(&("key", i))
}

#[test]
fn test_scan() {
    let mut store = Store::new();
    store.insert(b"key1".to_vec(), b"value1".to_vec());
    store.insert(b"key2".to_vec(), b"value2".to_vec());
    store.insert(b"key3".to_vec(), b"value3".to_vec());
    let result = scan(&store, b"key1", b"key3");
    assert_eq!(result.len(), 2);
}

#[test]
fn test_bigger_than_max_scan() {
    let mut store = Store::new();
    for i in 0..(MAX_SCAN_SIZE as u64) + 1 {
        store.insert(keyed(i), format!("value{}", i).into_bytes());
    }
    let start = keyed(0);
    let end = keyed(100);
    let result = scan(&store, &start, &end);
    assert_eq!(result.len(), MAX_SCAN_SIZE);
}

#[test]
fn test_full_scan() {
    let mut store = Store::new();
    for i in 0..100u64 {
        store.insert(keyed(i), format!("value{}", i).into_bytes());
    }
    let start = keyed(0);
    let end = keyed(100);
    let result = full_scan(&store, &start, &end);
    assert_eq!(result.len(), 100);
    // ascending key order, without duplication or omission
    for w in result.windows(2) {
        assert!(w[0].0 < w[1].0);
    }
    for i in 0..100u64 {
        assert_eq!(result[i as usize].0, keyed(i));
    }
}
