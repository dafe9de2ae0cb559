use dcache::cache::Cache;

#[test]
fn put_then_get_returns_value() {
    let mut cache = Cache::new();
    cache.put(&"a".to_string(), &"1".to_string(), 60, 1000);
    assert_eq!(cache.get(&"a".to_string()), Some("1".to_string()));
}

#[test]
fn get_missing_key_is_none() {
    let cache = Cache::new();
    assert_eq!(cache.get(&"missing".to_string()), None);
}

#[test]
fn key_exists_reports_live_entry() {
    let mut cache = Cache::new();
    assert!(!cache.key_exists(&"a".to_string()));
    cache.put(&"a".to_string(), &"1".to_string(), 60, 1000);
    assert!(cache.key_exists(&"a".to_string()));
}

#[test]
fn put_overwrites_value() {
    let mut cache = Cache::new();
    cache.put(&"a".to_string(), &"1".to_string(), 60, 1000);
    cache.put(&"a".to_string(), &"2".to_string(), 60, 1001);
    assert_eq!(cache.get(&"a".to_string()), Some("2".to_string()));
}

#[test]
fn reap_removes_only_due_entries() {
    let mut cache = Cache::new();
    cache.put(&"short".to_string(), &"s".to_string(), 5, 0);
    cache.put(&"long".to_string(), &"l".to_string(), 10, 0);
    cache.reap_expired(7);
    assert!(!cache.key_exists(&"short".to_string()));
    assert!(cache.key_exists(&"long".to_string()));
    cache.reap_expired(11);
    assert!(!cache.key_exists(&"long".to_string()));
}

#[test]
fn reap_keeps_entry_due_exactly_at_sweep_time() {
    let mut cache = Cache::new();
    cache.put(&"a".to_string(), &"1".to_string(), 60, 1000);
    cache.reap_expired(1060);
    assert!(cache.key_exists(&"a".to_string()));
    cache.reap_expired(1061);
    assert!(!cache.key_exists(&"a".to_string()));
}

#[test]
fn overwrite_refreshes_ttl() {
    let mut cache = Cache::new();
    cache.put(&"a".to_string(), &"old".to_string(), 5, 0);
    cache.put(&"a".to_string(), &"new".to_string(), 100, 0);
    // The first put's expiry no longer applies: one entry, the second's.
    cache.reap_expired(50);
    assert_eq!(cache.get(&"a".to_string()), Some("new".to_string()));
    cache.reap_expired(101);
    assert!(!cache.key_exists(&"a".to_string()));
}

#[test]
fn reap_on_empty_cache_is_harmless() {
    let mut cache = Cache::new();
    cache.reap_expired(12345);
    assert!(!cache.key_exists(&"a".to_string()));
}
