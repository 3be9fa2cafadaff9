use kv_store::Database;
use kv_store::KeyValueStore;

fn s(text: &str) -> String {
    text.to_string()
}

#[test]
fn set_then_get_returns_value() {
    let mut store = KeyValueStore::new();
    assert_eq!(store.set(s("k"), s("v")), None);
    assert_eq!(store.get(&s("k")), Some(s("v")));
}

#[test]
fn set_twice_returns_previous_value() {
    let mut store = KeyValueStore::new();
    assert_eq!(store.set(s("k"), s("v1")), None);
    assert_eq!(store.set(s("k"), s("v2")), Some(s("v1")));
    assert_eq!(store.get(&s("k")), Some(s("v2")));
    assert_eq!(store.len(), 1);
}

#[test]
fn get_absent_returns_none() {
    let store = KeyValueStore::new();
    assert_eq!(store.get(&s("missing")), None);
}

#[test]
fn delete_present_returns_value() {
    let mut store = KeyValueStore::new();
    store.set(s("k"), s("v"));
    assert_eq!(store.delete(&s("k")), Some(s("v")));
    assert_eq!(store.get(&s("k")), None);
    assert_eq!(store.len(), 0);
}

#[test]
fn delete_absent_returns_none_and_refreshes_timestamp() {
    let mut store = KeyValueStore::new();
    let before = store.updated_at();
    assert_eq!(store.delete(&s("missing")), None);
    assert!(store.updated_at() >= before);
    assert!(store.updated_at() >= store.created_at());
}

#[test]
fn contains_tracks_membership() {
    let mut store = KeyValueStore::new();
    assert!(!store.contains(&s("k")));
    store.set(s("k"), s("v"));
    assert!(store.contains(&s("k")));
    store.delete(&s("k"));
    assert!(!store.contains(&s("k")));
    store.set(s("k"), s("v"));
    store.clear();
    assert!(!store.contains(&s("k")));
}

#[test]
fn len_counts_distinct_keys_and_clear_zeroes_it() {
    let mut store = KeyValueStore::new();
    store.set(s("a"), s("1"));
    store.set(s("b"), s("2"));
    store.set(s("a"), s("3"));
    assert_eq!(store.len(), 2);
    store.clear();
    assert_eq!(store.len(), 0);
    assert_eq!(store.keys().len(), 0);
}

#[test]
fn keys_lists_every_present_key() {
    let mut store = KeyValueStore::new();
    store.set(s("a"), s("1"));
    store.set(s("b"), s("2"));
    store.set(s("c"), s("3"));
    store.delete(&s("b"));
    let mut keys = store.keys();
    keys.sort();
    assert_eq!(keys, vec![s("a"), s("c")]);
}

#[test]
fn timestamps_start_equal_and_never_decrease() {
    let mut store = KeyValueStore::new();
    assert_eq!(store.created_at(), store.updated_at());
    let created = store.created_at();
    let mut last = store.updated_at();
    store.set(s("a"), s("1"));
    assert!(store.updated_at() >= last);
    last = store.updated_at();
    store.delete(&s("a"));
    assert!(store.updated_at() >= last);
    last = store.updated_at();
    store.clear();
    assert!(store.updated_at() >= last);
    assert_eq!(store.created_at(), created);
}

#[test]
fn default_store_is_empty() {
    let store = KeyValueStore::default();
    assert_eq!(store.len(), 0);
}

fn exercise_backend<D: Database<String, String>>(db: &mut D) {
    assert_eq!(db.set(s("x"), s("1")), None);
    assert!(db.contains(&s("x")));
    assert_eq!(db.get(&s("x")), Some(s("1")));
    assert_eq!(db.len(), 1);
    assert_eq!(db.delete(&s("x")), Some(s("1")));
    db.clear();
    assert_eq!(db.len(), 0);
}

#[test]
fn store_serves_as_database_backend() {
    let mut store = KeyValueStore::new();
    exercise_backend(&mut store);
}
