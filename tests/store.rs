use wasmiot_orchestrator::store::{decimal_string, KeyValueStore, KeyValueStoreError};

#[test]
fn store_upserts_reads_and_deletes() {
    let mut s: KeyValueStore<u32> = KeyValueStore::new();
    assert_eq!(s.upsert(Some("a"), 1).ok().unwrap().id, "a");
    assert_eq!(s.upsert(Some("b"), 2).ok().unwrap().id, "b");
    assert_eq!(s.upsert(Some("a"), 3).ok().unwrap().id, "a");
    assert_eq!(s.read(None).ok().unwrap(), vec![&3, &2]);
    assert_eq!(s.read(Some("b")).ok().unwrap(), vec![&2]);
    assert!(s.read(Some("c")).ok().unwrap().is_empty());
    assert_eq!(s.delete(Some("c")), Err(KeyValueStoreError::NotFound));
    assert_eq!(s.delete(Some("a")), Ok(()));
    assert_eq!(s.read(None).ok().unwrap(), vec![&2]);
    assert_eq!(s.delete(None), Ok(()));
    assert_eq!(s.len(), 0);
}

#[test]
fn store_generates_fresh_identities() {
    let mut s: KeyValueStore<u32> = KeyValueStore::new();
    assert_eq!(s.upsert(Some("1"), 10).ok().unwrap().id, "1");
    assert_eq!(s.upsert(None, 20).ok().unwrap().id, "0");
    assert_eq!(s.upsert(None, 30).ok().unwrap().id, "2");
    assert_eq!(s.len(), 3);
    assert_eq!(s.read(Some("2")).ok().unwrap(), vec![&30]);
}

#[test]
fn decimal_notation() {
    assert_eq!(decimal_string(0), "0");
    assert_eq!(decimal_string(7), "7");
    assert_eq!(decimal_string(1234), "1234");
    assert_eq!(decimal_string(u64::MAX), "18446744073709551615");
}
