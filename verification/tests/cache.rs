//! Query cache and cache key behaviour.

use memory_core::cache_key::{
    CacheKey, CacheMetrics, ComplexityLevel, Episode, TaskContext,
    DEFAULT_CACHE_TTL_SECS, DEFAULT_MAX_ENTRIES,
};
use memory_core::cache_key::normalize_tags;
use memory_core::query_cache::QueryCache;
use std::time::Duration;

fn create_test_episode(id: &str) -> Episode {
    Episode {
        episode_id: id.to_string(),
        task_description: "test task".to_string(),
        start_time: 0,
    }
}

fn hit_rate(m: &CacheMetrics) -> f64 {
    let total = m.hits + m.misses;
    if total == 0 {
        0.0
    } else {
        m.hits as f64 / total as f64
    }
}

#[test]
fn cache_test_cache_hit() {
    let mut cache = QueryCache::new();
    let key = CacheKey::new("test query".to_string());
    let episodes = vec![create_test_episode("ep1")];

    assert!(cache.get(&key).is_none());
    cache.put(key.clone(), episodes.clone());

    let result = cache.get(&key);
    assert!(result.is_some());
    assert_eq!(result.unwrap().len(), 1);

    let metrics = cache.metrics();
    assert_eq!(metrics.hits, 1);
    assert_eq!(metrics.misses, 1);
    assert_eq!(hit_rate(&metrics), 0.5);
}

#[test]
fn tests_test_cache_hit() {
    let mut cache = QueryCache::new();
    let key = CacheKey::new("test query".to_string());
    let episodes = vec![create_test_episode("ep1")];

    assert!(cache.get(&key).is_none());
    cache.put(key.clone(), episodes.clone());

    let result = cache.get(&key);
    assert!(result.is_some());
    assert_eq!(result.unwrap().len(), 1);

    let metrics = cache.metrics();
    assert_eq!(metrics.hits, 1);
    assert_eq!(metrics.misses, 1);
    assert_eq!(hit_rate(&metrics), 0.5);
}

fn check_cache_invalidation() {
    let mut cache = QueryCache::new();
    let key1 = CacheKey::new("query1".to_string());
    let key2 = CacheKey::new("query2".to_string());

    cache.put(key1.clone(), vec![create_test_episode("ep1")]);
    cache.put(key2.clone(), vec![create_test_episode("ep2")]);
    assert_eq!(cache.size(), 2);

    cache.invalidate_all();

    assert_eq!(cache.size(), 0);
    assert!(cache.get(&key1).is_none());
    assert!(cache.get(&key2).is_none());

    let metrics = cache.metrics();
    assert_eq!(metrics.invalidations, 2);
}

#[test]
fn cache_test_cache_invalidation() {
    check_cache_invalidation();
}

#[test]
fn tests_test_cache_invalidation() {
    check_cache_invalidation();
}

fn check_lru_eviction() {
    let mut cache = QueryCache::with_capacity_and_ttl(2, Duration::from_secs(DEFAULT_CACHE_TTL_SECS));

    let key1 = CacheKey::new("query1".to_string());
    let key2 = CacheKey::new("query2".to_string());
    let key3 = CacheKey::new("query3".to_string());

    cache.put(key1.clone(), vec![create_test_episode("ep1")]);
    cache.put(key2.clone(), vec![create_test_episode("ep2")]);
    assert_eq!(cache.size(), 2);

    cache.put(key3.clone(), vec![create_test_episode("ep3")]);

    assert_eq!(cache.size(), 2);
    assert!(cache.get(&key1).is_none());
    assert!(cache.get(&key2).is_some());
    assert!(cache.get(&key3).is_some());

    let metrics = cache.metrics();
    assert_eq!(metrics.evictions, 1);
}

#[test]
fn cache_test_lru_eviction() {
    check_lru_eviction();
}

#[test]
fn tests_test_lru_eviction() {
    check_lru_eviction();
}

fn check_cache_key_with_filters() {
    let key1 = CacheKey::new("test".to_string())
        .with_domain(Some("web".to_string()))
        .with_task_type(Some("api".to_string()))
        .with_limit(5);

    let key2 = CacheKey::new("test".to_string())
        .with_domain(Some("web".to_string()))
        .with_task_type(Some("api".to_string()))
        .with_limit(5);

    let key3 = CacheKey::new("test".to_string())
        .with_domain(Some("data".to_string()))
        .with_task_type(Some("api".to_string()))
        .with_limit(5);

    assert_eq!(key1.compute_hash(), key2.compute_hash());
    assert_ne!(key1.compute_hash(), key3.compute_hash());
}

#[test]
fn cache_test_cache_key_with_filters() {
    check_cache_key_with_filters();
}

#[test]
fn tests_test_cache_key_with_filters() {
    check_cache_key_with_filters();
}

fn check_metrics_effectiveness() {
    let mut cache = QueryCache::new();
    let key = CacheKey::new("test".to_string());
    let episodes = vec![create_test_episode("ep1")];

    cache.put(key.clone(), episodes);
    for _ in 0..10 {
        let _ = cache.get(&key);
    }

    let metrics = cache.metrics();
    assert!(metrics.is_effective());
    assert!(hit_rate(&metrics) > 0.9);
}

#[test]
fn cache_test_metrics_effectiveness() {
    check_metrics_effectiveness();
}

#[test]
fn tests_test_metrics_effectiveness() {
    check_metrics_effectiveness();
}

fn check_domain_based_invalidation() {
    let mut cache = QueryCache::new();

    let key_web = CacheKey::new("query1".to_string()).with_domain(Some("web-api".to_string()));
    let key_data = CacheKey::new("query2".to_string()).with_domain(Some("data-processing".to_string()));
    let key_no_domain = CacheKey::new("query3".to_string());

    cache.put(key_web.clone(), vec![create_test_episode("ep1")]);
    cache.put(key_data.clone(), vec![create_test_episode("ep2")]);
    cache.put(key_no_domain.clone(), vec![create_test_episode("ep3")]);
    assert_eq!(cache.size(), 3);

    cache.invalidate_domain("web-api");

    assert!(cache.get(&key_web).is_none());
    assert!(cache.get(&key_data).is_some());
    assert!(cache.get(&key_no_domain).is_some());

    assert_eq!(cache.size(), 3);
    assert_eq!(cache.effective_size(), 2);

    let metrics = cache.metrics();
    assert_eq!(metrics.invalidations, 1);
}

#[test]
fn cache_test_domain_based_invalidation() {
    check_domain_based_invalidation();
}

#[test]
fn tests_test_domain_based_invalidation() {
    check_domain_based_invalidation();
}

fn check_domain_invalidation_multiple_entries() {
    let mut cache = QueryCache::new();

    let key1 = CacheKey::new("query1".to_string()).with_domain(Some("web-api".to_string()));
    let key2 = CacheKey::new("query2".to_string()).with_domain(Some("web-api".to_string()));
    let key3 = CacheKey::new("query3".to_string()).with_domain(Some("data".to_string()));

    cache.put(key1.clone(), vec![create_test_episode("ep1")]);
    cache.put(key2.clone(), vec![create_test_episode("ep2")]);
    cache.put(key3.clone(), vec![create_test_episode("ep3")]);
    assert_eq!(cache.size(), 3);

    cache.invalidate_domain("web-api");

    assert!(cache.get(&key1).is_none());
    assert!(cache.get(&key2).is_none());
    assert!(cache.get(&key3).is_some());

    assert_eq!(cache.size(), 3);
    assert_eq!(cache.effective_size(), 1);

    let metrics = cache.metrics();
    assert_eq!(metrics.invalidations, 2);
}

#[test]
fn cache_test_domain_invalidation_multiple_entries() {
    check_domain_invalidation_multiple_entries();
}

#[test]
fn tests_test_domain_invalidation_multiple_entries() {
    check_domain_invalidation_multiple_entries();
}

fn check_domain_invalidation_nonexistent() {
    let mut cache = QueryCache::new();
    let key = CacheKey::new("query".to_string()).with_domain(Some("web-api".to_string()));

    cache.put(key.clone(), vec![create_test_episode("ep1")]);
    cache.invalidate_domain("nonexistent-domain");

    assert!(cache.get(&key).is_some());
    assert_eq!(cache.size(), 1);

    let metrics = cache.metrics();
    assert_eq!(metrics.invalidations, 0);
}

#[test]
fn cache_test_domain_invalidation_nonexistent() {
    check_domain_invalidation_nonexistent();
}

#[test]
fn tests_test_domain_invalidation_nonexistent() {
    check_domain_invalidation_nonexistent();
}

fn check_domain_invalidation_empty_cache() {
    let mut cache = QueryCache::new();

    cache.invalidate_domain("any-domain");

    assert_eq!(cache.size(), 0);
    let metrics = cache.metrics();
    assert_eq!(metrics.invalidations, 0);
}

#[test]
fn cache_test_domain_invalidation_empty_cache() {
    check_domain_invalidation_empty_cache();
}

#[test]
fn tests_test_domain_invalidation_empty_cache() {
    check_domain_invalidation_empty_cache();
}

fn check_invalidate_all_clears_domain_index() {
    let mut cache = QueryCache::new();

    let key_web = CacheKey::new("query1".to_string()).with_domain(Some("web-api".to_string()));
    let key_data = CacheKey::new("query2".to_string()).with_domain(Some("data".to_string()));

    cache.put(key_web.clone(), vec![create_test_episode("ep1")]);
    cache.put(key_data.clone(), vec![create_test_episode("ep2")]);
    assert_eq!(cache.size(), 2);

    cache.invalidate_all();
    assert_eq!(cache.size(), 0);

    cache.put(key_web.clone(), vec![create_test_episode("ep3")]);
    assert_eq!(cache.size(), 1);

    cache.invalidate_domain("web-api");

    assert_eq!(cache.size(), 1);
    assert_eq!(cache.effective_size(), 0);
    assert!(cache.get(&key_web).is_none());
}

#[test]
fn cache_test_invalidate_all_clears_domain_index() {
    check_invalidate_all_clears_domain_index();
}

#[test]
fn tests_test_invalidate_all_clears_domain_index() {
    check_invalidate_all_clears_domain_index();
}

#[test]
fn new_cache_is_empty_with_default_capacity() {
    let cache = QueryCache::new();
    assert!(cache.is_empty());
    assert_eq!(cache.size(), 0);
    assert_eq!(cache.metrics().capacity, DEFAULT_MAX_ENTRIES);
}

#[test]
fn put_after_domain_invalidation_makes_entry_visible_again() {
    let mut cache = QueryCache::new();
    let key = CacheKey::new("q".to_string()).with_domain(Some("web".to_string()));
    cache.put(key.clone(), vec![create_test_episode("ep1")]);
    cache.invalidate_domain("web");
    assert!(cache.get(&key).is_none());
    cache.put(key.clone(), vec![create_test_episode("ep2"), create_test_episode("ep3")]);
    let got = cache.get(&key).expect("entry visible after put");
    assert_eq!(got.len(), 2);
    assert_eq!(got[0].episode_id, "ep2");
    assert_eq!(cache.effective_size(), 1);
}

#[test]
fn clear_metrics_resets_counters_and_keeps_capacity() {
    let mut cache = QueryCache::with_capacity_and_ttl(5, Duration::from_secs(60));
    let key = CacheKey::new("q".to_string());
    cache.put(key.clone(), vec![create_test_episode("ep1")]);
    let _ = cache.get(&key);
    cache.clear_metrics();
    let m = cache.metrics();
    assert_eq!(m.hits, 0);
    assert_eq!(m.misses, 0);
    assert_eq!(m.evictions, 0);
    assert_eq!(m.invalidations, 0);
    assert_eq!(m.size, 0);
    assert_eq!(cache.size(), 1);
    assert_eq!(m.capacity, 5);
}

#[test]
fn metrics_without_lookups_are_not_effective() {
    let cache = QueryCache::new();
    assert!(!cache.metrics().is_effective());
}

#[test]
fn metrics_effective_at_exactly_forty_percent() {
    let m = CacheMetrics { hits: 2, misses: 3, evictions: 0, invalidations: 0, size: 0, capacity: 1 };
    assert!(m.is_effective());
    let m = CacheMetrics { hits: 1, misses: 2, evictions: 0, invalidations: 0, size: 0, capacity: 1 };
    assert!(!m.is_effective());
}

#[test]
fn reputting_same_key_does_not_evict() {
    let mut cache = QueryCache::with_capacity_and_ttl(1, Duration::from_secs(60));
    let key = CacheKey::new("q".to_string());
    cache.put(key.clone(), vec![create_test_episode("ep1")]);
    cache.put(key.clone(), vec![create_test_episode("ep2")]);
    assert_eq!(cache.metrics().evictions, 0);
    assert_eq!(cache.size(), 1);
    assert_eq!(cache.get(&key).unwrap()[0].episode_id, "ep2");
}

#[test]
fn key_filters_are_trimmed_and_empty_filters_dropped() {
    let a = CacheKey::new("q".to_string()).with_domain(Some("  web ".to_string()));
    let b = CacheKey::new("q".to_string()).with_domain(Some("web".to_string()));
    assert_eq!(a.domain, Some("web".to_string()));
    assert_eq!(a.compute_hash(), b.compute_hash());
    let c = CacheKey::new("q".to_string()).with_domain(Some("   ".to_string()));
    assert_eq!(c.domain, None);
}

#[test]
fn tags_are_normalized_sorted_and_deduplicated() {
    let tags = normalize_tags(vec![
        " b ".to_string(),
        "a".to_string(),
        "".to_string(),
        "b".to_string(),
    ]);
    assert_eq!(tags, vec!["a".to_string(), "b".to_string()]);
    let k1 = CacheKey::new("q".to_string()).with_tags(vec!["x".to_string(), "y".to_string()]);
    let k2 = CacheKey::new("q".to_string()).with_tags(vec!["y".to_string(), "x".to_string(), "x".to_string()]);
    assert_eq!(k1.compute_hash(), k2.compute_hash());
}

#[test]
fn task_context_fields_reach_the_key() {
    let ctx = TaskContext {
        domain: "web".to_string(),
        language: Some("rust".to_string()),
        framework: None,
        complexity: ComplexityLevel::Complex,
        tags: vec!["api".to_string()],
    };
    let k = CacheKey::new("q".to_string()).with_task_context(&ctx);
    assert_eq!(k.domain, Some("web".to_string()));
    assert_eq!(k.language, Some("rust".to_string()));
    assert_eq!(k.framework, None);
    assert_eq!(k.complexity, Some("Complex".to_string()));
    assert_eq!(k.tags, vec!["api".to_string()]);
}

#[test]
fn default_key_limit_is_ten() {
    let k = CacheKey::new("q".to_string());
    assert_eq!(k.limit, 10);
    let k = k.with_time_range(Some(1), Some(2));
    assert_eq!(k.time_start, Some(1));
    assert_eq!(k.time_end, Some(2));
}

#[test]
fn evicted_marked_entry_leaves_no_mark_behind() {
    let mut cache = QueryCache::with_capacity_and_ttl(1, Duration::from_secs(60));
    let ka = CacheKey::new("a".to_string()).with_domain(Some("d".to_string()));
    cache.put(ka, vec![create_test_episode("ep1")]);
    cache.invalidate_domain("d");
    assert_eq!(cache.effective_size(), 0);
    let kb = CacheKey::new("b".to_string());
    cache.put(kb.clone(), vec![create_test_episode("ep2")]);
    assert_eq!(cache.size(), 1);
    assert_eq!(cache.effective_size(), 1);
    assert!(cache.get(&kb).is_some());
}

#[test]
fn zero_ttl_entries_never_hit() {
    let mut cache = QueryCache::with_capacity_and_ttl(4, Duration::from_secs(0));
    let key = CacheKey::new("q".to_string());
    cache.put(key.clone(), vec![create_test_episode("ep1")]);
    assert!(cache.get(&key).is_none());
    assert_eq!(cache.metrics().evictions, 1);
    assert_eq!(cache.size(), 0);
}

#[test]
fn finish_lookup_decides_expiry_from_elapsed_time() {
    let mut cache = QueryCache::with_capacity_and_ttl(4, Duration::from_secs(1));
    let key = CacheKey::new("q".to_string());
    cache.put(key.clone(), vec![create_test_episode("ep1")]);
    assert!(cache.finish_lookup(&key, 999_999_999).is_some());
    assert_eq!(cache.metrics().hits, 1);
    assert!(cache.finish_lookup(&key, 1_000_000_000).is_none());
    assert_eq!(cache.metrics().misses, 1);
    assert_eq!(cache.size(), 0);
}
