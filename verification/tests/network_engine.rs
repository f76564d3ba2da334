use client_core::NetworkConfig;
use client_core::RajeevNetwork;

fn create_test_network() -> RajeevNetwork {
    RajeevNetwork::new(NetworkConfig {
        app_id: "test-app".to_string(),
        db_dir: ":memory:".to_string(),
        max_cache_bytes: 10 * 1024 * 1024,
        enable_queue: true,
        enable_cache: true,
        auto_compress: true,
    })
    .unwrap()
}

#[test]
fn test_update_and_get_status() {
    let mut network = create_test_network();

    network.update_status("4g", 25000, 40, false);
    let status = network.get_status();

    assert!(status.is_online);
    assert_eq!(status.downlink_kbps, 25000);
    assert_eq!(status.rtt_ms, 40);
    assert!(status.is_metered);
}

#[test]
fn test_offline_status() {
    let mut network = create_test_network();
    network.update_status("offline", 0, 0, false);

    let status = network.get_status();
    assert!(!status.is_online);
    assert_eq!(status.quality_score, 0);
}

#[test]
fn lib_test_suggested_timeout() {
    let mut network = create_test_network();

    network.update_status("2g", 100, 800, false);
    let slow_timeout = network.get_suggested_timeout_ms();

    network.update_status("wifi", 50000, 20, false);
    let fast_timeout = network.get_suggested_timeout_ms();

    assert!(slow_timeout > fast_timeout);
}

#[test]
fn test_queue_and_dequeue() {
    let mut network = create_test_network();
    network.update_status("wifi", 50000, 20, false);

    let id = network
        .enqueue_request(
            "POST".to_string(),
            "https://api.test.com/data".to_string(),
            "{}".to_string(),
            Some("{\"key\":\"value\"}".to_string()),
            "high".to_string(),
            false,
            None,
        )
        .unwrap();

    assert!(!id.is_empty());
    assert_eq!(network.get_queue_size().unwrap(), 1);

    let req = network.dequeue_request().unwrap();
    assert!(req.is_some());
}

#[test]
fn test_cache_and_retrieve() {
    let mut network = create_test_network();

    network
        .cache_response(
            "GET".to_string(),
            "https://api.test.com/users".to_string(),
            200,
            "{}".to_string(),
            "{\"users\":[]}".to_string(),
            300,
            None,
            None,
        )
        .unwrap();

    let cached = network
        .get_cached("GET".to_string(), "https://api.test.com/users".to_string())
        .unwrap();
    assert!(cached.is_some());
}

#[test]
fn test_bandwidth_estimation() {
    let mut network = create_test_network();

    network.record_transfer(500_000, 100);
    let estimate = network.get_estimated_bandwidth_kbps();
    assert!(estimate > 0);
}

#[test]
fn test_complete_request() {
    let mut network = create_test_network();

    let id = network
        .enqueue_request(
            "GET".to_string(),
            "https://test.com".to_string(),
            "{}".to_string(),
            None,
            "normal".to_string(),
            false,
            None,
        )
        .unwrap();

    network.complete_request(id).unwrap();
    assert_eq!(network.get_queue_size().unwrap(), 0);
}

#[test]
fn lib_test_cancel_by_tag() {
    let mut network = create_test_network();

    network
        .enqueue_request("GET".to_string(), "https://a.com".to_string(), "{}".to_string(), None, "normal".to_string(), false, Some("batch".to_string()))
        .unwrap();
    network
        .enqueue_request("GET".to_string(), "https://b.com".to_string(), "{}".to_string(), None, "normal".to_string(), false, Some("batch".to_string()))
        .unwrap();

    let cancelled = network.cancel_by_tag("batch".to_string()).unwrap();
    assert_eq!(cancelled, 2);
}

#[test]
fn test_enqueue_auto_compresses_large_body() {
    let mut network = create_test_network();
    network.update_status("wifi", 50000, 20, false);

    let body = "abcdefgh".repeat(400);
    network
        .enqueue_request(
            "POST".to_string(),
            "https://api.test.com/bulk".to_string(),
            "{}".to_string(),
            Some(body.clone()),
            "high".to_string(),
            true,
            None,
        )
        .unwrap();

    let req = network.dequeue_request().unwrap().unwrap();
    let stored = req.body.unwrap();
    assert!(stored.len() < body.len());
    assert_eq!(client_core::decompress_string(&stored).unwrap(), body);
}
