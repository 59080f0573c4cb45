use scoria_core::cache::{ceil_millis, LRUCache};

#[test]
fn test_basic_lru() {
    let mut cache = LRUCache::new(2, None);

    cache.insert("a", 1, None);
    cache.insert("b", 2, None);

    assert_eq!(cache.get(&"a"), Some(&mut 1));

    cache.insert("c", 3, None);

    assert_eq!(cache.get(&"b"), None); // b should be evicted
    assert_eq!(cache.get(&"a"), Some(&mut 1));
    assert_eq!(cache.get(&"c"), Some(&mut 3));
}

#[test]
fn test_ttl_expiration() {
    let mut cache = LRUCache::new(3, Some(1000));

    cache.insert_at("1", "a", None, 0);
    cache.insert_at("2", "b", Some(500), 0);

    assert_eq!(cache.get_at("1", 1000), Some(&mut "a"));
    assert_eq!(cache.get_at("2", 600), None);
    assert_eq!(cache.get_at("1", 1001), None);
    assert_eq!(cache.size(), 0);
}

#[test]
fn test_custom_ttl_override() {
    let mut cache = LRUCache::new(2, Some(1000));

    cache.insert_at("a", 1, Some(3000), 0);
    cache.insert_at("b", 2, None, 0); // default 1s

    assert_eq!(cache.get_at("a", 2000), Some(&mut 1));
    assert_eq!(cache.get_at("b", 2000), None);
}

#[test]
fn ttl_boundary_is_inclusive() {
    let mut cache = LRUCache::new(1, None);
    cache.insert_at("k", 7u32, Some(500), 100);
    assert_eq!(cache.get_at("k", 600), Some(&mut 7));
    assert_eq!(cache.get_at("k", 601), None);
}

#[test]
fn capacity_holds_after_many_inserts() {
    let mut cache = LRUCache::new(3, None);
    let keys = ["a", "b", "c", "d", "e", "f", "a", "c", "g"];
    for (i, k) in keys.iter().enumerate() {
        cache.insert_at(k, i, None, i as u64);
        assert!(cache.size() <= cache.capacity());
    }
    assert_eq!(cache.size(), 3);
    assert_eq!(cache.get_at("g", 10), Some(&mut 8));
    assert_eq!(cache.get_at("c", 10), Some(&mut 7));
    assert_eq!(cache.get_at("a", 10), Some(&mut 6));
    assert_eq!(cache.get_at("f", 10), None);
}

#[test]
fn zero_capacity_holds_nothing() {
    let mut cache = LRUCache::new(0, None);
    assert_eq!(cache.insert("a", 1, None), None);
    assert_eq!(cache.size(), 0);
    assert_eq!(cache.get(&"a"), None);
}

#[test]
fn insert_returns_prior_live_value() {
    let mut cache = LRUCache::new(2, None);
    assert_eq!(cache.insert_at("a", 1, Some(10), 0), None);
    assert_eq!(cache.insert_at("a", 2, Some(10), 5), Some(1));
    assert_eq!(cache.insert_at("a", 3, None, 100), None); // the prior entry had expired
    assert_eq!(cache.get_at("a", 1000), Some(&mut 3));
    assert_eq!(cache.size(), 1);
}

#[test]
fn expired_entries_leave_before_lru_eviction() {
    let mut cache = LRUCache::new(2, None);
    cache.insert_at("old", 1, None, 0);
    cache.insert_at("short", 2, Some(5), 0);
    cache.insert_at("new", 3, None, 10);
    assert_eq!(cache.get_at("old", 10), Some(&mut 1));
    assert_eq!(cache.get_at("new", 10), Some(&mut 3));
}

#[test]
fn peek_does_not_refresh_recency() {
    let mut cache = LRUCache::new(2, None);
    cache.insert_at("a", 1, None, 0);
    cache.insert_at("b", 2, None, 1);
    assert_eq!(cache.peek_at("a", 2), Some(&1));
    cache.insert_at("c", 3, None, 3);
    assert_eq!(cache.get_at("a", 4), None);
    assert_eq!(cache.get_at("b", 4), Some(&mut 2));
}

#[test]
fn value_can_be_updated_in_place() {
    let mut cache = LRUCache::new(2, None);
    cache.insert("a", 1, None);
    if let Some(v) = cache.get(&"a") {
        *v = 10;
    }
    assert_eq!(cache.get(&"a"), Some(&mut 10));
    assert_eq!(cache.size(), 1);
}

#[test]
fn clock_readings_round_up() {
    assert_eq!(ceil_millis(0), 0);
    assert_eq!(ceil_millis(1), 1);
    assert_eq!(ceil_millis(1_000_000), 1);
    assert_eq!(ceil_millis(1_000_001), 2);
    assert_eq!(ceil_millis(u128::MAX), u64::MAX);
}
