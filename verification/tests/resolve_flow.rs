use cached_dns::addr::IpAddress;
use cached_dns::dns::{after_miss, DnsLruCache, ResolveError, DEFAULT_DNS_CACHE_CAPACITY};

fn v4(a: u8, b: u8, c: u8, d: u8) -> Vec<IpAddress> {
    vec![IpAddress::V4(a, b, c, d)]
}

/// A stand-in for the external blocking resolver of the concrete scenario.
fn scripted_resolver(host: &str) -> Result<Vec<IpAddress>, ResolveError> {
    match host {
        "a" => Ok(v4(1, 1, 1, 1)),
        "b" => Ok(v4(2, 2, 2, 2)),
        "c" => Ok(v4(3, 3, 3, 3)),
        _ => Err(ResolveError),
    }
}

/// One resolve call against the shared state, with the background insertion
/// applied synchronously right away ("wait for the async insert").
fn resolve_and_wait(state: &mut DnsLruCache, host: &str) -> Option<Vec<IpAddress>> {
    let key = host.to_string();
    if let Some(found) = state.lookup(&key) {
        return Some(found);
    }
    let action = after_miss(scripted_resolver(host));
    if let Some(to_cache) = action.to_cache {
        state.insert(key, to_cache);
    }
    action.reply
}

#[test]
fn new_state_is_empty_with_zero_counters() {
    let state = DnsLruCache::new(2);
    assert_eq!(state.len(), 0);
    assert_eq!(state.capacity(), 2);
    assert_eq!(state.totally_matched(), 0);
    assert_eq!(state.totally_missed(), 0);
}

#[test]
fn default_capacity_is_usable() {
    let state = DnsLruCache::new(DEFAULT_DNS_CACHE_CAPACITY);
    assert_eq!(state.capacity(), 65536);
    assert_eq!(state.len(), 0);
}

#[test]
fn one_miss_then_one_hit_counts_once_each() {
    let mut state = DnsLruCache::new(4);
    assert_eq!(state.lookup(&"x".to_string()), None);
    assert_eq!(state.totally_missed(), 1);
    assert_eq!(state.totally_matched(), 0);
    state.insert("x".to_string(), v4(8, 8, 8, 8));
    assert_eq!(state.lookup(&"x".to_string()), Some(v4(8, 8, 8, 8)));
    assert_eq!(state.totally_missed(), 1);
    assert_eq!(state.totally_matched(), 1);
}

#[test]
fn insertion_leaves_counters_alone() {
    let mut state = DnsLruCache::new(4);
    state.insert("x".to_string(), v4(8, 8, 8, 8));
    assert_eq!(state.totally_matched(), 0);
    assert_eq!(state.totally_missed(), 0);
}

#[test]
fn successful_miss_replies_and_schedules_the_same_list() {
    let action = after_miss(Ok(v4(7, 7, 7, 7)));
    assert_eq!(action.reply, Some(v4(7, 7, 7, 7)));
    assert_eq!(action.to_cache, Some(v4(7, 7, 7, 7)));
}

#[test]
fn failed_resolution_is_never_cached() {
    let mut state = DnsLruCache::new(2);
    // first attempt: miss, resolver fails, nothing is scheduled
    assert_eq!(state.lookup(&"h".to_string()), None);
    let action = after_miss(scripted_resolver("h"));
    assert_eq!(action.reply, None);
    assert_eq!(action.to_cache, None);
    assert_eq!(state.len(), 0);
    // a retry misses again, so the external resolver would be consulted anew
    assert_eq!(state.lookup(&"h".to_string()), None);
    assert_eq!(state.totally_missed(), 2);
    assert!(!state.contains_key(&"h".to_string()));
}

#[test]
fn reply_is_ready_before_the_insertion_job_runs() {
    let mut state = DnsLruCache::new(2);
    assert_eq!(state.lookup(&"a".to_string()), None);
    let action = after_miss(scripted_resolver("a"));
    // the caller's answer is complete while the insertion is still pending
    assert_eq!(action.reply, Some(v4(1, 1, 1, 1)));
    assert!(!state.contains_key(&"a".to_string()));
    // the delayed job runs much later and only then populates the cache
    state.insert("a".to_string(), action.to_cache.unwrap());
    assert!(state.contains_key(&"a".to_string()));
}

#[test]
fn concrete_two_entry_scenario() {
    let mut state = DnsLruCache::new(2);
    assert_eq!(resolve_and_wait(&mut state, "a"), Some(v4(1, 1, 1, 1)));
    assert_eq!(resolve_and_wait(&mut state, "b"), Some(v4(2, 2, 2, 2)));
    assert_eq!(resolve_and_wait(&mut state, "a"), Some(v4(1, 1, 1, 1)));
    assert_eq!(state.totally_matched(), 1);
    assert_eq!(state.totally_missed(), 2);
    assert_eq!(resolve_and_wait(&mut state, "c"), Some(v4(3, 3, 3, 3)));
    // "b" was least recently used, since "a" was just hit
    assert!(state.contains_key(&"a".to_string()));
    assert!(state.contains_key(&"c".to_string()));
    assert!(!state.contains_key(&"b".to_string()));
    assert_eq!(state.len(), 2);
}
