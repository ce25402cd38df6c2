use mv_engine::outbox_dispatch::{
    complete_claim, truncate_error_summary, LocalAckPublisher, OutboxDeliveryClaim,
    OutboxDeliveryResult, OutboxDispatcherConfig,
};
use mv_engine::outbox_http_publisher::{
    bound_reference, delivery_reference, is_transient_status, response_error_summary,
    sha256_hex, truncate_summary, HeaderEntry,
};

#[test]
fn publisher_http_maps_transient_status_codes() {
    assert!(is_transient_status(408));
    assert!(is_transient_status(429));
    assert!(is_transient_status(502));
    assert!(is_transient_status(503));
    assert!(is_transient_status(504));
    assert!(!is_transient_status(400));
    assert!(!is_transient_status(500));
}

#[test]
fn publisher_http_delivery_reference_prefers_response_header() {
    let headers = vec![HeaderEntry { name: "x-request-id".to_string(), value: b"req-123".to_vec() }];
    let reference = delivery_reference(200, &headers, "http://127.0.0.1:8080/events");
    assert_eq!(reference, "http:200 OK:req-123");
}

#[test]
fn delivery_reference_falls_back_to_endpoint() {
    let headers = vec![HeaderEntry { name: "x-request-id".to_string(), value: b"   ".to_vec() }];
    let reference = delivery_reference(201, &headers, "http://127.0.0.1:8080/events");
    assert_eq!(reference, "http:201:http://127.0.0.1:8080/events");
}

#[test]
fn truncate_summaries_trim_and_default() {
    assert_eq!(truncate_summary("  boom \n"), "boom");
    assert_eq!(truncate_summary("   "), "destination request failed");
    assert_eq!(truncate_error_summary(""), "publisher failed");
    let long = "x".repeat(5000);
    assert_eq!(truncate_summary(&long).len(), 4096);
    assert_eq!(bound_reference(&"y".repeat(3000)).len(), 2048);
    assert_eq!(bound_reference("short"), "short");
}

#[test]
fn error_summary_and_digest() {
    assert_eq!(response_error_summary(503, b"upstream unavailable"), "HTTP 503: upstream unavailable");
    assert_eq!(response_error_summary(500, b"  "), "HTTP 500 from destination");
    assert_eq!(
        sha256_hex(b"abc"),
        "ba7816bf8f01cfea414140de5dae2223b00361a396177a9cb410ff61f20015ad"
    );
}

#[test]
fn local_ack_publishes_event_reference() {
    let claim = OutboxDeliveryClaim { event_id: 1, lease_id: 2, attempt: 1, claimed_at: 1000, lease_expires_at: 31000 };
    match LocalAckPublisher.publish(&claim) {
        Ok(OutboxDeliveryResult::Published { delivery_reference, response_digest }) => {
            assert_eq!(delivery_reference, "local-ack:00000000-0000-0000-0000-000000000001");
            assert!(response_digest.is_none());
        }
        _ => panic!("expected a published result"),
    }
}

#[test]
fn completion_after_lease_expiry_uses_in_lease_time() {
    let claim = OutboxDeliveryClaim { event_id: 1, lease_id: 2, attempt: 3, claimed_at: 1000, lease_expires_at: 31000 };
    let c = complete_claim(&claim, Err("  broken pipe ".to_string()), 40000, 40000);
    assert_eq!(c.completed_at, 1001);
    assert_eq!(c.attempt, 3);
    match c.result {
        OutboxDeliveryResult::RetryScheduled { retry_at, error_code, error_summary } => {
            assert_eq!(retry_at, 70000);
            assert_eq!(error_code, "publisher_error");
            assert_eq!(error_summary, "broken pipe");
        }
        _ => panic!("expected a retry"),
    }
    let ok = complete_claim(&claim, Ok(OutboxDeliveryResult::DeadLettered { error_code: "x".into(), error_summary: "y".into() }), 0, 2000);
    assert_eq!(ok.completed_at, 2000);
}

#[test]
fn dispatcher_env_overrides_are_clamped() {
    let c = OutboxDispatcherConfig::from_env_values(Some("YES"), Some("0"), Some("99999"), Some("abc"));
    assert!(c.enabled);
    assert_eq!(c.interval_secs, 1);
    assert_eq!(c.lease_secs, 3600);
    assert_eq!(c.batch_limit, 32);
    let d = OutboxDispatcherConfig::from_env_values(None, None, Some("+20"), Some("5000"));
    assert!(!d.enabled);
    assert_eq!(d.lease_secs, 20);
    assert_eq!(d.batch_limit, 1000);
    assert_eq!(d.executor, "mindvault://dispatchers/local");
}

#[test]
fn summaries_cut_at_a_character_boundary() {
    let long = "é".repeat(2049);
    let cut = truncate_error_summary(&long);
    assert_eq!(cut, "é".repeat(2048));
    assert_eq!(cut.len(), 4096);
    let mixed = format!("a{}", "é".repeat(2048));
    assert_eq!(truncate_error_summary(&mixed), format!("a{}", "é".repeat(2047)));
    let endpoint = format!("http://h/{}", "é".repeat(2000));
    let reference = delivery_reference(201, &[], &endpoint);
    assert!(reference.len() <= 2048);
    assert!(format!("http:201:{endpoint}").starts_with(&reference));
}
