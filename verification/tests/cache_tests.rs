use conreg::cache::{LocalCache, TTL_MISSING, TTL_NONE};
use conreg::value::{value_eq, ConfigValue};

#[test]
fn set_get_and_remove() {
    let mut cache = LocalCache::new();
    cache.set("k", ConfigValue::Str("v".to_string()), None, 100);
    let got = cache.get("k", 100).unwrap();
    assert!(value_eq(&got, &ConfigValue::Str("v".to_string())));
    cache.remove("k");
    assert!(cache.get("k", 100).is_none());
}

#[test]
fn entries_expire_lazily() {
    let mut cache = LocalCache::new();
    cache.set("k", ConfigValue::Int(1), Some(10), 100);
    assert!(cache.get("k", 109).is_some());
    assert!(cache.get("k", 110).is_none(), "expired at creation + ttl");
    // the expired entry was dropped from the store
    assert_eq!(cache.entries.len(), 0);
}

#[test]
fn ttl_reports_the_stored_value_or_absence() {
    let mut cache = LocalCache::new();
    assert_eq!(cache.ttl_of("k", 100), TTL_MISSING);
    cache.set("k", ConfigValue::Int(1), None, 100);
    assert_eq!(cache.ttl_of("k", 100), TTL_NONE);
    cache.set("k", ConfigValue::Int(1), Some(30), 100);
    assert_eq!(cache.ttl_of("k", 100), 30);
    assert_eq!(cache.ttl_of("k", 200), TTL_MISSING);
}

#[test]
fn counters_increment_from_zero() {
    let mut cache = LocalCache::new();
    assert_eq!(cache.increment("c", 5, 100), Ok(5));
    assert_eq!(cache.increment("c", 2, 100), Ok(7));
    assert_eq!(cache.increment("c", -10, 100), Ok(-3));
    cache.set("s", ConfigValue::Str("x".to_string()), None, 100);
    assert!(cache.increment("s", 1, 100).is_err());
}

#[test]
fn ratelimit_exceeds_past_the_limit() {
    let mut cache = LocalCache::new();
    assert_eq!(cache.ratelimit("r", 2, 60, 100), Ok(false));
    assert_eq!(cache.ttl_of("r", 100), 60, "the window starts on first use");
    assert_eq!(cache.ratelimit("r", 2, 60, 101), Ok(false));
    assert_eq!(cache.ratelimit("r", 2, 60, 102), Ok(true), "count 3 > limit 2");
    // the window started with the first call, so the counter resets after it
    assert_eq!(cache.ratelimit("r", 2, 60, 161), Ok(false));
}

#[test]
fn locks_are_free_on_a_single_node() {
    let mut cache = LocalCache::new();
    assert!(cache.lock("job", 30).is_ok());
    assert!(cache.unlock("job").is_ok());
    assert_eq!(cache.entries.len(), 0);
}

#[test]
fn contains_key_sees_only_live_entries() {
    let mut cache = LocalCache::new();
    cache.set("k", ConfigValue::Bool(true), Some(5), 100);
    assert!(cache.contains_key("k", 104));
    assert!(!cache.contains_key("k", 105));
}
