use client_core::HttpCache;
use client_core::Priority;
use client_core::RequestQueue;

fn create_test_queue() -> RequestQueue {
    RequestQueue::new(":memory:").unwrap()
}

#[test]
fn test_enqueue_dequeue() {
    let mut queue = create_test_queue();

    let id = queue
        .enqueue("GET", "https://api.test.com/users", "{}", None, Priority::Normal, false, None)
        .unwrap();

    assert!(!id.is_empty());
    assert_eq!(queue.size().unwrap(), 1);

    let req = queue.dequeue(50).unwrap().unwrap();
    assert_eq!(req.url, "https://api.test.com/users");
    assert_eq!(req.method, "GET");
}

#[test]
fn test_priority_ordering() {
    let mut queue = create_test_queue();

    queue.enqueue("GET", "https://low.com", "{}", None, Priority::Low, false, None).unwrap();
    queue.enqueue("POST", "https://critical.com", "{}", Some("{\"amount\":100}"), Priority::Critical, false, None).unwrap();
    queue.enqueue("GET", "https://normal.com", "{}", None, Priority::Normal, false, None).unwrap();

    let req = queue.dequeue(100).unwrap().unwrap();
    assert_eq!(req.url, "https://critical.com");
}

#[test]
fn test_quality_gating() {
    let mut queue = create_test_queue();

    queue.enqueue("GET", "https://low.com", "{}", None, Priority::Low, false, None).unwrap();

    let req = queue.dequeue(20).unwrap();
    assert!(req.is_none());

    let req = queue.dequeue(60).unwrap();
    assert!(req.is_some());
}

#[test]
fn test_quality_gate_boundary() {
    let mut queue = create_test_queue();
    queue.enqueue("GET", "https://low.com", "{}", None, Priority::Low, false, None).unwrap();
    assert!(queue.dequeue(49).unwrap().is_none());
    assert!(queue.dequeue(50).unwrap().is_some());
}

#[test]
fn test_complete() {
    let mut queue = create_test_queue();

    let id = queue.enqueue("GET", "https://test.com", "{}", None, Priority::Normal, false, None).unwrap();
    assert_eq!(queue.size().unwrap(), 1);

    queue.complete(&id).unwrap();
    assert_eq!(queue.size().unwrap(), 0);
}

#[test]
fn test_fail_and_retry() {
    let mut queue = create_test_queue();

    let id = queue.enqueue("GET", "https://test.com", "{}", None, Priority::Normal, false, None).unwrap();

    let will_retry = queue.fail(&id).unwrap();
    assert!(will_retry);
    assert_eq!(queue.size().unwrap(), 1);
}

#[test]
fn test_fail_max_retries_removes() {
    let mut queue = create_test_queue();

    let id = queue.enqueue("GET", "https://test.com", "{}", None, Priority::Low, false, None).unwrap();

    let will_retry = queue.fail(&id).unwrap();
    assert!(!will_retry);
    assert_eq!(queue.size().unwrap(), 0);
}

#[test]
fn test_critical_never_dropped_on_fail() {
    let mut queue = create_test_queue();
    let id = queue.enqueue("POST", "https://pay.com", "{}", None, Priority::Critical, false, None).unwrap();
    for _ in 0..20 {
        assert!(queue.fail_at(&id, 1_000).unwrap());
        assert_eq!(queue.size().unwrap(), 1);
    }
}

#[test]
fn test_backoff_schedule() {
    let mut queue = create_test_queue();
    let id = queue
        .enqueue_at("GET", "https://x.com", "{}", None, Priority::Normal, false, None, 1_000)
        .unwrap();
    assert!(queue.fail_at(&id, 10_000).unwrap());
    let pending = queue.list_pending(10).unwrap();
    assert_eq!(pending[0].next_attempt_at, 10_000 + 4_000);
    assert!(queue.fail_at(&id, 20_000).unwrap());
    let pending = queue.list_pending(10).unwrap();
    assert_eq!(pending[0].next_attempt_at, 20_000 + 8_000);
}

#[test]
fn mod_test_cancel_by_tag() {
    let mut queue = create_test_queue();

    queue.enqueue("GET", "https://a.com", "{}", None, Priority::Normal, false, Some("batch-1")).unwrap();
    queue.enqueue("GET", "https://b.com", "{}", None, Priority::Normal, false, Some("batch-1")).unwrap();
    queue.enqueue("GET", "https://c.com", "{}", None, Priority::Normal, false, Some("batch-2")).unwrap();

    let cancelled = queue.cancel_by_tag("batch-1").unwrap();
    assert_eq!(cancelled, 2);
    assert_eq!(queue.size().unwrap(), 1);
}

#[test]
fn mod_test_clear() {
    let mut queue = create_test_queue();

    queue.enqueue("GET", "https://a.com", "{}", None, Priority::Normal, false, None).unwrap();
    queue.enqueue("GET", "https://b.com", "{}", None, Priority::High, false, None).unwrap();

    queue.clear().unwrap();
    assert_eq!(queue.size().unwrap(), 0);
}

#[test]
fn test_list_pending() {
    let mut queue = create_test_queue();

    queue.enqueue("GET", "https://a.com", "{}", None, Priority::Low, false, None).unwrap();
    queue.enqueue("POST", "https://b.com", "{}", Some("body"), Priority::High, false, None).unwrap();

    let pending = queue.list_pending(10).unwrap();
    assert_eq!(pending.len(), 2);
    assert_eq!(pending[0].url, "https://b.com");
}

#[test]
fn test_size_by_priority() {
    let mut queue = create_test_queue();

    queue.enqueue("GET", "https://a.com", "{}", None, Priority::Low, false, None).unwrap();
    queue.enqueue("GET", "https://b.com", "{}", None, Priority::High, false, None).unwrap();
    queue.enqueue("GET", "https://c.com", "{}", None, Priority::High, false, None).unwrap();

    assert_eq!(queue.size_by_priority(Priority::Low).unwrap(), 1);
    assert_eq!(queue.size_by_priority(Priority::High).unwrap(), 2);
    assert_eq!(queue.size_by_priority(Priority::Critical).unwrap(), 0);
}

fn create_test_cache() -> HttpCache {
    HttpCache::new(":memory:", 10 * 1024 * 1024).unwrap()
}

#[test]
fn test_put_and_get() {
    let mut cache = create_test_cache();

    cache.put("GET", "https://api.test.com/users", 200, "{}", "{\"users\":[]}", 300, None, None).unwrap();

    let result = cache.get("GET", "https://api.test.com/users").unwrap();
    assert!(result.is_some());

    let entry = result.unwrap();
    assert_eq!(entry.status_code, 200);
    assert_eq!(entry.body, "{\"users\":[]}");
}

#[test]
fn test_cache_miss() {
    let mut cache = create_test_cache();
    let result = cache.get("GET", "https://nonexistent.com").unwrap();
    assert!(result.is_none());
}

#[test]
fn test_cache_key_uniqueness() {
    let key1 = HttpCache::generate_key("GET", "https://api.com/users");
    let key2 = HttpCache::generate_key("POST", "https://api.com/users");
    let key3 = HttpCache::generate_key("GET", "https://api.com/posts");

    assert_ne!(key1, key2);
    assert_ne!(key1, key3);
}

#[test]
fn test_invalidate() {
    let mut cache = create_test_cache();

    cache.put("GET", "https://api.com/data", 200, "{}", "data", 300, None, None).unwrap();
    assert!(cache.get("GET", "https://api.com/data").unwrap().is_some());

    cache.invalidate("GET", "https://api.com/data").unwrap();
    assert!(cache.get("GET", "https://api.com/data").unwrap().is_none());
}

#[test]
fn cache_test_clear() {
    let mut cache = create_test_cache();

    cache.put("GET", "https://a.com", 200, "{}", "a", 300, None, None).unwrap();
    cache.put("GET", "https://b.com", 200, "{}", "b", 300, None, None).unwrap();

    cache.clear().unwrap();

    let stats = cache.stats().unwrap();
    assert_eq!(stats.total_entries, 0);
}

#[test]
fn cache_test_stats() {
    let mut cache = create_test_cache();

    cache.put("GET", "https://a.com", 200, "{}", "response-body", 300, None, None).unwrap();

    cache.get("GET", "https://a.com").unwrap();
    cache.get("GET", "https://nonexistent.com").unwrap();

    let stats = cache.stats().unwrap();
    assert_eq!(stats.total_entries, 1);
    assert_eq!(stats.hit_count, 1);
    assert_eq!(stats.miss_count, 1);
    assert_eq!(stats.hit_rate_permille, 500);
}

#[test]
fn test_etag_storage() {
    let mut cache = create_test_cache();

    cache.put(
        "GET", "https://api.com/data", 200, "{}",
        "data", 300,
        Some("\"abc123\""),
        Some("Wed, 01 Jan 2025 00:00:00 GMT"),
    ).unwrap();

    let entry = cache.get("GET", "https://api.com/data").unwrap().unwrap();
    assert_eq!(entry.etag, Some("\"abc123\"".to_string()));
    assert_eq!(entry.last_modified, Some("Wed, 01 Jan 2025 00:00:00 GMT".to_string()));
}

#[test]
fn test_overwrite_existing() {
    let mut cache = create_test_cache();

    cache.put("GET", "https://api.com/data", 200, "{}", "old-data", 300, None, None).unwrap();
    cache.put("GET", "https://api.com/data", 200, "{}", "new-data", 300, None, None).unwrap();

    let entry = cache.get("GET", "https://api.com/data").unwrap().unwrap();
    assert_eq!(entry.body, "new-data");
}

#[test]
fn test_eviction_respects_budget() {
    let mut cache = HttpCache::new(":memory:", 100).unwrap();
    cache.put_at("GET", "https://a.com", 200, "{}", &"x".repeat(60), 300, None, None, 1_000).unwrap();
    cache.put_at("GET", "https://b.com", 200, "{}", &"y".repeat(60), 300, None, None, 2_000).unwrap();
    let stats = cache.stats().unwrap();
    assert!(stats.total_size_bytes <= 100);
    assert!(cache.get_at("GET", "https://b.com", 3_000).unwrap().is_some());
}

#[test]
fn test_eviction_prefers_least_recently_read() {
    let mut cache = HttpCache::new(":memory:", 100).unwrap();
    cache.put_at("GET", "https://a.com", 200, "{}", &"a".repeat(40), 300, None, None, 1_000).unwrap();
    cache.put_at("GET", "https://b.com", 200, "{}", &"b".repeat(40), 300, None, None, 2_000).unwrap();
    assert!(cache.get_at("GET", "https://a.com", 3_000).unwrap().is_some());
    cache.put_at("GET", "https://c.com", 200, "{}", &"c".repeat(40), 300, None, None, 4_000).unwrap();
    assert!(cache.get_at("GET", "https://a.com", 5_000).unwrap().is_some());
    assert!(cache.get_at("GET", "https://b.com", 5_000).unwrap().is_none());
    assert!(cache.get_at("GET", "https://c.com", 5_000).unwrap().is_some());
}
