use cached_dns::addr::IpAddress;
use cached_dns::cache::LruCache;

fn v4(a: u8, b: u8, c: u8, d: u8) -> Vec<IpAddress> {
    vec![IpAddress::V4(a, b, c, d)]
}

#[test]
fn empty_cache_has_nothing() {
    let mut cache = LruCache::new(4);
    assert_eq!(cache.len(), 0);
    assert_eq!(cache.capacity(), 4);
    assert!(!cache.contains_key(&"a".to_string()));
    assert_eq!(cache.get(&"a".to_string()), None);
}

#[test]
fn insert_then_get_returns_stored_list() {
    let mut cache = LruCache::new(4);
    cache.insert("a".to_string(), v4(1, 1, 1, 1));
    assert_eq!(cache.len(), 1);
    assert!(cache.contains_key(&"a".to_string()));
    assert_eq!(cache.get(&"a".to_string()), Some(v4(1, 1, 1, 1)));
}

#[test]
fn get_preserves_resolver_order() {
    let mut cache = LruCache::new(2);
    let addrs = vec![
        IpAddress::V4(9, 9, 9, 9),
        IpAddress::V4(1, 1, 1, 1),
        IpAddress::V6(0, 0, 0, 0, 0, 0, 0, 1),
    ];
    cache.insert("host".to_string(), addrs.clone());
    assert_eq!(cache.get(&"host".to_string()), Some(addrs));
}

#[test]
fn capacity_is_never_exceeded() {
    let mut cache = LruCache::new(3);
    for i in 0..10 {
        cache.insert(format!("host{}", i), v4(10, 0, 0, i));
        assert!(cache.len() <= 3);
    }
    assert_eq!(cache.len(), 3);
}

#[test]
fn oldest_key_is_evicted_without_reads() {
    let mut cache = LruCache::new(3);
    cache.insert("k1".to_string(), v4(1, 1, 1, 1));
    cache.insert("k2".to_string(), v4(2, 2, 2, 2));
    cache.insert("k3".to_string(), v4(3, 3, 3, 3));
    cache.insert("k4".to_string(), v4(4, 4, 4, 4));
    assert!(!cache.contains_key(&"k1".to_string()));
    assert!(cache.contains_key(&"k2".to_string()));
    assert!(cache.contains_key(&"k3".to_string()));
    assert!(cache.contains_key(&"k4".to_string()));
}

#[test]
fn read_refreshes_recency() {
    let mut cache = LruCache::new(2);
    cache.insert("k1".to_string(), v4(1, 1, 1, 1));
    cache.insert("k2".to_string(), v4(2, 2, 2, 2));
    assert_eq!(cache.get(&"k1".to_string()), Some(v4(1, 1, 1, 1)));
    cache.insert("k3".to_string(), v4(3, 3, 3, 3));
    assert!(cache.contains_key(&"k1".to_string()));
    assert!(!cache.contains_key(&"k2".to_string()));
    assert!(cache.contains_key(&"k3".to_string()));
}

#[test]
fn reinsert_replaces_value_and_refreshes() {
    let mut cache = LruCache::new(2);
    cache.insert("k1".to_string(), v4(1, 1, 1, 1));
    cache.insert("k2".to_string(), v4(2, 2, 2, 2));
    cache.insert("k1".to_string(), v4(9, 9, 9, 9));
    assert_eq!(cache.len(), 2);
    assert_eq!(cache.get(&"k1".to_string()), Some(v4(9, 9, 9, 9)));
    // k1 was refreshed by the re-insert, so a third key evicts k2
    cache.insert("k3".to_string(), v4(3, 3, 3, 3));
    assert!(cache.contains_key(&"k1".to_string()));
    assert!(!cache.contains_key(&"k2".to_string()));
}

#[test]
fn miss_evicts_nothing() {
    let mut cache = LruCache::new(2);
    cache.insert("k1".to_string(), v4(1, 1, 1, 1));
    cache.insert("k2".to_string(), v4(2, 2, 2, 2));
    assert_eq!(cache.get(&"absent".to_string()), None);
    assert_eq!(cache.len(), 2);
    assert!(cache.contains_key(&"k1".to_string()));
    assert!(cache.contains_key(&"k2".to_string()));
}
