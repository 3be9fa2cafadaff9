use kv_store::codec::{decode_snapshot, snapshot_string};
use kv_store::KeyValueStore;

fn s(text: &str) -> String {
    text.to_string()
}

#[test]
fn snapshot_of_empty_store_has_exact_shape() {
    let store = decode_snapshot("{\"data\":{},\"created_at\":5,\"updated_at\":9}").unwrap();
    assert_eq!(store.len(), 0);
    assert_eq!(store.created_at(), 5);
    assert_eq!(store.updated_at(), 9);
    assert_eq!(
        snapshot_string(&store),
        "{\"data\":{},\"created_at\":5,\"updated_at\":9}"
    );
}

#[test]
fn snapshot_with_entries_has_exact_shape() {
    let text = "{\"data\":{\"a\":\"1\",\"b\":\"2\"},\"created_at\":0,\"updated_at\":0}";
    let store = decode_snapshot(text).unwrap();
    assert_eq!(store.len(), 2);
    assert_eq!(store.get(&s("a")), Some(s("1")));
    assert_eq!(store.get(&s("b")), Some(s("2")));
    assert_eq!(snapshot_string(&store), text);
}

#[test]
fn save_then_load_round_trips_mutations() {
    let mut store = KeyValueStore::new();
    store.set(s("alpha"), s("one"));
    store.set(s("beta"), s("two"));
    store.set(s("alpha"), s("three"));
    store.delete(&s("beta"));
    store.set(s("gamma"), s("four"));
    let text = snapshot_string(&store);
    let loaded = decode_snapshot(&text).unwrap();
    assert_eq!(loaded.len(), store.len());
    let mut keys = store.keys();
    keys.sort();
    let mut loaded_keys = loaded.keys();
    loaded_keys.sort();
    assert_eq!(keys, loaded_keys);
    for key in keys {
        assert_eq!(loaded.get(&key), store.get(&key));
    }
    assert_eq!(loaded.created_at(), store.created_at());
    assert_eq!(loaded.updated_at(), store.updated_at());
}

#[test]
fn escaped_characters_round_trip() {
    let mut store = KeyValueStore::new();
    store.set(s("quote\"key"), s("back\\slash"));
    store.set(s("line\nbreak"), s("tab\there\rret"));
    let text = snapshot_string(&store);
    let loaded = decode_snapshot(&text).unwrap();
    assert_eq!(loaded.get(&s("quote\"key")), Some(s("back\\slash")));
    assert_eq!(loaded.get(&s("line\nbreak")), Some(s("tab\there\rret")));
}

#[test]
fn escaping_writes_the_expected_text() {
    let store = decode_snapshot(
        "{\"data\":{\"a\\\"b\":\"c\\\\d\\ne\"},\"created_at\":1,\"updated_at\":2}",
    )
    .unwrap();
    assert_eq!(store.get(&s("a\"b")), Some(s("c\\d\ne")));
    assert_eq!(
        snapshot_string(&store),
        "{\"data\":{\"a\\\"b\":\"c\\\\d\\ne\"},\"created_at\":1,\"updated_at\":2}"
    );
}

#[test]
fn malformed_documents_are_rejected() {
    assert!(decode_snapshot("").is_none());
    assert!(decode_snapshot("{\"data\":{}").is_none());
    assert!(decode_snapshot("{\"data\":{},\"created_at\":5,\"updated_at\":9} ").is_none());
    assert!(decode_snapshot("{\"data\":{},\"created_at\":,\"updated_at\":9}").is_none());
    assert!(decode_snapshot("{\"data\":{\"a\":1},\"created_at\":5,\"updated_at\":9}").is_none());
    assert!(decode_snapshot("not json at all").is_none());
}

#[test]
fn repeated_keys_are_rejected() {
    assert!(decode_snapshot(
        "{\"data\":{\"a\":\"1\",\"a\":\"2\"},\"created_at\":0,\"updated_at\":0}"
    )
    .is_none());
}

#[test]
fn backwards_timestamps_are_rejected() {
    assert!(decode_snapshot("{\"data\":{},\"created_at\":9,\"updated_at\":5}").is_none());
}

#[test]
fn oversized_timestamps_are_rejected() {
    assert!(decode_snapshot(
        "{\"data\":{},\"created_at\":99999999999999999999,\"updated_at\":99999999999999999999}"
    )
    .is_none());
    let max = "{\"data\":{},\"created_at\":18446744073709551615,\"updated_at\":18446744073709551615}";
    let store = decode_snapshot(max).unwrap();
    assert_eq!(store.created_at(), u64::MAX);
    assert_eq!(snapshot_string(&store), max);
}
