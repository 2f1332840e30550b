use nadir::cache::{CacheError, EvictionCache};
use nadir::model::Message;

fn msg(id: &str, body: &str) -> Message {
    Message {
        id: id.to_owned(),
        counter: None,
        tags: Vec::new(),
        body: body.to_owned(),
        time: None,
    }
}

fn keys(cache: &EvictionCache) -> Vec<String> {
    cache.iter_by_recency().iter().map(|e| e.0.clone()).collect()
}

#[test]
fn put_evicts_least_recently_used() {
    // A capacity-3 cache that receives puts for a, b, c, d holds b, c, d
    // from least- to most-recently used; a was evicted.
    let mut cache = EvictionCache::new(3).unwrap();
    assert!(cache.put("a".to_owned(), msg("a", "1")).is_none());
    assert!(cache.put("b".to_owned(), msg("b", "2")).is_none());
    assert!(cache.put("c".to_owned(), msg("c", "3")).is_none());
    let evicted = cache.put("d".to_owned(), msg("d", "4"));
    assert_eq!(evicted.unwrap().0, "a");
    assert_eq!(keys(&cache), vec!["b".to_owned(), "c".to_owned(), "d".to_owned()]);
}

#[test]
fn put_existing_key_keeps_size_and_refreshes_recency() {
    let mut cache = EvictionCache::new(3).unwrap();
    cache.put("a".to_owned(), msg("a", "1"));
    cache.put("b".to_owned(), msg("b", "2"));
    cache.put("c".to_owned(), msg("c", "3"));
    let evicted = cache.put("a".to_owned(), msg("a", "updated"));
    assert!(evicted.is_none());
    assert_eq!(cache.len(), 3);
    assert_eq!(keys(&cache), vec!["b".to_owned(), "c".to_owned(), "a".to_owned()]);
    let entries = cache.iter_by_recency();
    assert_eq!(entries[2].1.body, "updated");
}

#[test]
fn cache_holds_most_recently_touched_keys() {
    // After any sequence of puts the cache holds the three most recently
    // touched distinct keys, ordered by their last touch.
    let mut cache = EvictionCache::new(3).unwrap();
    for key in ["a", "b", "c", "a", "d", "b", "e", "a"] {
        cache.put(key.to_owned(), msg(key, ""));
    }
    // Distinct keys by last touch: d, b, e, a; the last three survive.
    assert_eq!(keys(&cache), vec!["b".to_owned(), "e".to_owned(), "a".to_owned()]);
}

#[test]
fn new_with_zero_capacity_fails() {
    match EvictionCache::new(0) {
        Err(CacheError::ZeroCapacity) => {}
        _ => panic!("a zero capacity must be rejected"),
    }
}

#[test]
fn resize_to_zero_fails_without_mutating() {
    let mut cache = EvictionCache::new(2).unwrap();
    cache.put("a".to_owned(), msg("a", "1"));
    cache.put("b".to_owned(), msg("b", "2"));
    assert_eq!(cache.resize(0), Err(CacheError::ZeroCapacity));
    assert_eq!(cache.capacity(), 2);
    assert_eq!(keys(&cache), vec!["a".to_owned(), "b".to_owned()]);
    // Failing twice changes nothing either.
    assert_eq!(cache.resize(0), Err(CacheError::ZeroCapacity));
    assert_eq!(cache.capacity(), 2);
    assert_eq!(keys(&cache), vec!["a".to_owned(), "b".to_owned()]);
}

#[test]
fn resize_shrink_evicts_least_recent() {
    let mut cache = EvictionCache::new(4).unwrap();
    cache.put("a".to_owned(), msg("a", "1"));
    cache.put("b".to_owned(), msg("b", "2"));
    cache.put("c".to_owned(), msg("c", "3"));
    assert_eq!(cache.resize(1), Ok(()));
    assert_eq!(cache.capacity(), 1);
    assert_eq!(keys(&cache), vec!["c".to_owned()]);
}

#[test]
fn resize_grow_keeps_everything() {
    let mut cache = EvictionCache::new(2).unwrap();
    cache.put("a".to_owned(), msg("a", "1"));
    cache.put("b".to_owned(), msg("b", "2"));
    assert_eq!(cache.resize(10), Ok(()));
    assert_eq!(cache.capacity(), 10);
    assert_eq!(keys(&cache), vec!["a".to_owned(), "b".to_owned()]);
}

#[test]
fn remove_returns_value_and_tolerates_absent() {
    let mut cache = EvictionCache::new(2).unwrap();
    cache.put("a".to_owned(), msg("a", "body-a"));
    let removed = cache.remove(&"a".to_owned());
    assert_eq!(removed.unwrap().body, "body-a");
    assert!(cache.remove(&"a".to_owned()).is_none());
    assert_eq!(cache.len(), 0);
}

#[test]
fn contains_and_clear() {
    let mut cache = EvictionCache::new(2).unwrap();
    cache.put("a".to_owned(), msg("a", "1"));
    assert!(cache.contains(&"a".to_owned()));
    assert!(!cache.contains(&"z".to_owned()));
    cache.clear();
    assert_eq!(cache.len(), 0);
    assert_eq!(cache.capacity(), 2);
}
