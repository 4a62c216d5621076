use npm_package_explorer::cache::Cache;

#[test]
fn value_is_read_back_within_default_window() {
    let mut cache: Cache<String> = Cache::new(15000);
    cache.set("k".into(), "v".into(), 1000);
    let hit = cache.get("k", None, 1000 + 15000).unwrap();
    assert_eq!(hit.value, "v");
    assert_eq!(hit.updated, 1000);
}

#[test]
fn value_is_missed_after_default_window() {
    let mut cache: Cache<String> = Cache::new(15000);
    cache.set("k".into(), "v".into(), 1000);
    assert!(cache.get("k", None, 1000 + 15001).is_none());
}

#[test]
fn shorter_window_misses_while_default_hits() {
    let mut cache: Cache<u32> = Cache::new(15000);
    cache.set("k".into(), 7, 0);
    assert!(cache.get("k", Some(100), 5000).is_none());
    assert_eq!(cache.get("k", None, 5000).unwrap().value, 7);
}

#[test]
fn absent_key_misses() {
    let cache: Cache<u32> = Cache::new(15000);
    assert!(cache.get("k", None, 0).is_none());
}

#[test]
fn set_overwrites_and_refreshes() {
    let mut cache: Cache<u32> = Cache::new(10);
    cache.set("k".into(), 1, 0);
    cache.set("k".into(), 2, 100);
    let hit = cache.get("k", None, 105).unwrap();
    assert_eq!(hit.value, 2);
    assert_eq!(hit.updated, 100);
}

#[test]
fn stale_entry_stays_readable_with_wider_window() {
    let mut cache: Cache<u32> = Cache::new(10);
    cache.set("k".into(), 1, 0);
    assert!(cache.get("k", None, 50).is_none());
    assert_eq!(cache.get("k", Some(60), 50).unwrap().value, 1);
}

#[test]
fn clock_going_back_counts_as_fresh() {
    let mut cache: Cache<u32> = Cache::new(0);
    cache.set("k".into(), 3, 100);
    assert_eq!(cache.get("k", None, 50).unwrap().value, 3);
}

#[test]
fn keys_are_independent() {
    let mut cache: Cache<u32> = Cache::new(100);
    cache.set("a".into(), 1, 0);
    cache.set("b".into(), 2, 0);
    assert_eq!(cache.get("a", None, 1).unwrap().value, 1);
    assert_eq!(cache.get("b", None, 1).unwrap().value, 2);
    assert_eq!(cache.peek("b", None, 1).unwrap().value, 2);
}
