use host_bridge::store::HostStore;
use host_bridge::text::{is_blank, sort_entries, str_eq};

#[test]
fn store_eviction_is_deterministic() {
    let mut store = HostStore::new(2);
    store.set("a".to_string(), "1".to_string());
    store.set("b".to_string(), "2".to_string());
    store.set("c".to_string(), "3".to_string());
    assert!(store.get("a").is_none());
    assert_eq!(store.get("b"), Some("2".to_string()));
    assert_eq!(store.get("c"), Some("3".to_string()));
}

#[test]
fn list_dir_sorting_is_deterministic() {
    let entries = vec!["beta".to_string(), "alpha".to_string()];
    let entries = sort_entries(entries);
    assert_eq!(entries, vec!["alpha".to_string(), "beta".to_string()]);
}

#[test]
fn set_then_get_round_trips() {
    let mut store = HostStore::new(10);
    store.set("k".to_string(), "v".to_string());
    assert_eq!(store.get("k"), Some("v".to_string()));
}

#[test]
fn get_on_missing_key_is_none() {
    let store = HostStore::new(10);
    assert!(store.get("nope").is_none());
}

#[test]
fn update_keeps_size_and_eviction_position() {
    let mut store = HostStore::new(2);
    store.set("a".to_string(), "1".to_string());
    store.set("b".to_string(), "2".to_string());
    // Overwriting "a" must not evict anything and must not refresh its age.
    store.set("a".to_string(), "9".to_string());
    assert_eq!(store.get("a"), Some("9".to_string()));
    assert_eq!(store.get("b"), Some("2".to_string()));
    // A new key evicts "a": it is the oldest by first insertion, even though
    // it was updated most recently. FIFO, not LRU.
    store.set("c".to_string(), "3".to_string());
    assert!(store.get("a").is_none());
    assert_eq!(store.get("b"), Some("2".to_string()));
    assert_eq!(store.get("c"), Some("3".to_string()));
}

#[test]
fn capacity_zero_keeps_only_latest_key() {
    let mut store = HostStore::new(0);
    store.set("a".to_string(), "1".to_string());
    assert_eq!(store.get("a"), Some("1".to_string()));
    store.set("b".to_string(), "2".to_string());
    assert!(store.get("a").is_none());
    assert_eq!(store.get("b"), Some("2".to_string()));
}

#[test]
fn eviction_follows_insertion_order_many_keys() {
    let mut store = HostStore::new(3);
    for (k, v) in [("k1", "1"), ("k2", "2"), ("k3", "3"), ("k4", "4")] {
        store.set(k.to_string(), v.to_string());
    }
    assert!(store.get("k1").is_none());
    assert_eq!(store.get("k2"), Some("2".to_string()));
    assert_eq!(store.get("k3"), Some("3".to_string()));
    assert_eq!(store.get("k4"), Some("4".to_string()));
}

#[test]
fn sort_entries_handles_empty_and_duplicates() {
    assert_eq!(sort_entries(Vec::new()), Vec::<String>::new());
    let sorted = sort_entries(vec![
        "b".to_string(),
        "a".to_string(),
        "b".to_string(),
        "aa".to_string(),
    ]);
    assert_eq!(
        sorted,
        vec!["a".to_string(), "aa".to_string(), "b".to_string(), "b".to_string()]
    );
}

#[test]
fn blank_detection_covers_whitespace_kinds() {
    assert!(is_blank(""));
    assert!(is_blank("   "));
    assert!(is_blank("\t\r\n"));
    assert!(!is_blank(" x "));
}

#[test]
fn str_eq_compares_contents() {
    assert!(str_eq("abc", "abc"));
    assert!(!str_eq("abc", "abd"));
    assert!(!str_eq("abc", "abcd"));
    assert!(str_eq("", ""));
}
