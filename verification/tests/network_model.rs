use client_core::BandwidthEstimator;
use client_core::ConnectionType;
use client_core::ImageQuality;
use client_core::NetworkStatus;
use client_core::compress;
use client_core::compress_string;
use client_core::decompress;
use client_core::decompress_string;
use client_core::should_compress;

#[test]
fn test_connection_type_quality() {
    assert_eq!(ConnectionType::Offline.quality_score(), 0);
    assert_eq!(ConnectionType::Cellular2G.quality_score(), 15);
    assert!(ConnectionType::WiFi.quality_score() > ConnectionType::Cellular3G.quality_score());
    assert!(ConnectionType::Cellular4G.quality_score() > ConnectionType::Cellular3G.quality_score());
}

#[test]
fn test_connection_type_metered() {
    assert!(ConnectionType::Cellular4G.is_metered());
    assert!(ConnectionType::Cellular2G.is_metered());
    assert!(!ConnectionType::WiFi.is_metered());
    assert!(!ConnectionType::Ethernet.is_metered());
}

#[test]
fn test_network_status_offline() {
    let status = NetworkStatus::offline();
    assert!(!status.is_online);
    assert_eq!(status.quality_score, 0);
    assert_eq!(status.downlink_kbps, 0);
}

#[test]
fn test_network_status_from_type() {
    let status = NetworkStatus::from_connection_type(ConnectionType::Cellular4G);
    assert!(status.is_online);
    assert!(status.is_metered);
    assert!(status.downlink_kbps > 0);
    assert!(status.quality_score >= 70);
}

#[test]
fn mod_test_suggested_timeout() {
    let fast = NetworkStatus::from_connection_type(ConnectionType::WiFi);
    let slow = NetworkStatus::from_connection_type(ConnectionType::Cellular2G);
    assert!(fast.suggested_timeout_ms() < slow.suggested_timeout_ms());
}

#[test]
fn test_image_quality_suggestions() {
    let status_2g = NetworkStatus::from_connection_type(ConnectionType::Cellular2G);
    let status_4g = NetworkStatus::from_connection_type(ConnectionType::Cellular4G);
    let status_wifi = NetworkStatus::from_connection_type(ConnectionType::WiFi);

    assert_eq!(status_2g.suggested_image_quality(), ImageQuality::Low);
    assert!(status_4g.suggested_image_quality().max_width() > status_2g.suggested_image_quality().max_width());
    assert!(status_wifi.suggested_image_quality().max_width() >= status_4g.suggested_image_quality().max_width());
}

#[test]
fn test_save_data_overrides_quality() {
    let mut status = NetworkStatus::from_connection_type(ConnectionType::WiFi);
    status.save_data = true;
    assert_eq!(status.suggested_image_quality(), ImageQuality::Low);
}

#[test]
fn test_bandwidth_estimator() {
    let mut estimator = BandwidthEstimator::new(10);

    estimator.record_transfer(100_000, 100);
    let estimate = estimator.estimate_kbps();
    assert!(estimate > 0);

    estimator.record_transfer(10_000, 500);
    let new_estimate = estimator.estimate_kbps();
    assert!(new_estimate < estimate);
}

#[test]
fn test_bandwidth_estimator_empty() {
    let estimator = BandwidthEstimator::new(10);
    assert_eq!(estimator.estimate_kbps(), 0);
}

#[test]
fn test_bandwidth_estimator_reset() {
    let mut estimator = BandwidthEstimator::new(10);
    estimator.record_transfer(100_000, 100);
    assert!(estimator.estimate_kbps() > 0);

    estimator.reset();
    assert_eq!(estimator.estimate_kbps(), 0);
}

#[test]
fn test_image_quality_formats() {
    assert_eq!(ImageQuality::Low.preferred_format(), "jpeg");
    assert_eq!(ImageQuality::Medium.preferred_format(), "webp");
    assert_eq!(ImageQuality::Original.preferred_format(), "avif");
}

#[test]
fn test_should_compress_small_data() {
    let small = b"tiny";
    assert!(!should_compress(small));
}

#[test]
fn test_should_compress_large_repetitive_data() {
    let large = "repetitive data ".repeat(200);
    assert!(should_compress(large.as_bytes()));
}

#[test]
fn test_compress_decompress_roundtrip() {
    let original = b"Hello, Rajeev! This is test data that should compress well. \
                     Repeated content helps compression. Repeated content helps compression.";
    let compressed = compress(original).unwrap();
    let decompressed = decompress(&compressed).unwrap();
    assert_eq!(original.to_vec(), decompressed);
}

#[test]
fn test_compress_string_roundtrip() {
    let original = "JSON API response with lots of repeated keys and values";
    let compressed = compress_string(original).unwrap();
    let decompressed = decompress_string(&compressed).unwrap();
    assert_eq!(original, decompressed);
}

#[test]
fn test_compression_reduces_size() {
    let data = "abcdefg".repeat(1000);
    let compressed = compress(data.as_bytes()).unwrap();
    assert!(compressed.len() < data.len());
}

#[test]
fn test_empty_data() {
    let compressed = compress(b"").unwrap();
    let decompressed = decompress(&compressed).unwrap();
    assert!(decompressed.is_empty());
}

#[test]
fn test_unicode_compression() {
    let hindi = "namaste duniya! yah ek pariksha hai. ".repeat(100);
    let compressed = compress_string(&hindi).unwrap();
    let decompressed = decompress_string(&compressed).unwrap();
    assert_eq!(hindi, decompressed);
}
