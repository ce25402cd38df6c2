use base64::Engine as _;
use mv_engine::federation::{
    sign_federation_request, verify_federation_request, verify_federation_request_at,
    FederationAuthError, FederationPeer, MAX_CLOCK_SKEW_SECS,
};

const TEST_SECRET: &[u8] = b"super-secret-shared-key-for-tests";
const TEST_BODY: &[u8] = b"{\"text\":\"hello\",\"limit\":10}";

fn now_secs() -> i64 {
    std::time::SystemTime::now()
        .duration_since(std::time::UNIX_EPOCH)
        .unwrap()
        .as_secs() as i64
}

#[test]
fn sign_produces_base64_output() {
    let sig = sign_federation_request(TEST_SECRET, 1700000000, TEST_BODY);
    let decoded = base64::engine::general_purpose::STANDARD.decode(&sig);
    assert!(decoded.is_ok(), "signature must be valid base64");
    assert_eq!(decoded.unwrap().len(), 32);
}

#[test]
fn sign_is_deterministic() {
    let a = sign_federation_request(TEST_SECRET, 1700000000, TEST_BODY);
    let b = sign_federation_request(TEST_SECRET, 1700000000, TEST_BODY);
    assert_eq!(a, b);
}

#[test]
fn sign_differs_for_different_timestamps() {
    let a = sign_federation_request(TEST_SECRET, 1700000000, TEST_BODY);
    let b = sign_federation_request(TEST_SECRET, 1700000001, TEST_BODY);
    assert_ne!(a, b);
}

#[test]
fn sign_differs_for_different_bodies() {
    let a = sign_federation_request(TEST_SECRET, 1700000000, b"body-a");
    let b = sign_federation_request(TEST_SECRET, 1700000000, b"body-b");
    assert_ne!(a, b);
}

#[test]
fn sign_differs_for_different_secrets() {
    let a = sign_federation_request(b"secret-1", 1700000000, TEST_BODY);
    let b = sign_federation_request(b"secret-2", 1700000000, TEST_BODY);
    assert_ne!(a, b);
}

#[test]
fn verify_accepts_valid_signature() {
    let now = now_secs();
    let sig = sign_federation_request(TEST_SECRET, now, TEST_BODY);
    let result = verify_federation_request(TEST_SECRET, now, TEST_BODY, &sig);
    assert!(result.is_ok());
}

#[test]
fn verify_rejects_wrong_secret() {
    let now = now_secs();
    let sig = sign_federation_request(TEST_SECRET, now, TEST_BODY);
    let result = verify_federation_request(b"wrong-secret", now, TEST_BODY, &sig);
    assert!(matches!(result, Err(FederationAuthError::InvalidSignature)));
}

#[test]
fn verify_rejects_tampered_body() {
    let now = now_secs();
    let sig = sign_federation_request(TEST_SECRET, now, TEST_BODY);
    let result = verify_federation_request(TEST_SECRET, now, b"tampered", &sig);
    assert!(matches!(result, Err(FederationAuthError::InvalidSignature)));
}

#[test]
fn verify_rejects_expired_timestamp() {
    let old = now_secs() - MAX_CLOCK_SKEW_SECS - 1;
    let sig = sign_federation_request(TEST_SECRET, old, TEST_BODY);
    let result = verify_federation_request(TEST_SECRET, old, TEST_BODY, &sig);
    assert!(matches!(result, Err(FederationAuthError::TimestampExpired)));
}

#[test]
fn verify_rejects_future_timestamp() {
    let future = now_secs() + MAX_CLOCK_SKEW_SECS + 1;
    let sig = sign_federation_request(TEST_SECRET, future, TEST_BODY);
    let result = verify_federation_request(TEST_SECRET, future, TEST_BODY, &sig);
    assert!(matches!(result, Err(FederationAuthError::TimestampExpired)));
}

#[test]
fn verify_accepts_within_skew_window() {
    let recent = now_secs() - 240;
    let sig = sign_federation_request(TEST_SECRET, recent, TEST_BODY);
    let result = verify_federation_request(TEST_SECRET, recent, TEST_BODY, &sig);
    assert!(result.is_ok());
}

#[test]
fn verify_rejects_malformed_base64() {
    let now = now_secs();
    let result = verify_federation_request(TEST_SECRET, now, TEST_BODY, "not!valid!base64!!!");
    assert!(matches!(result, Err(FederationAuthError::InvalidSignature)));
}

#[test]
fn peer_new_sets_defaults() {
    let peer = FederationPeer::new("vault-1", "Alice", "https://alice.local:9470");
    assert_eq!(peer.vault_id, "vault-1");
    assert_eq!(peer.display_name, "Alice");
    assert!(peer.enabled);
    assert_eq!(peer.max_results, 50);
    assert!(peer.shared_secret.is_none());
}

#[test]
fn api_base_strips_trailing_slash() {
    let peer = FederationPeer::new("v", "n", "https://peer.local:9470/");
    assert_eq!(peer.api_base(), "https://peer.local:9470");
}

#[test]
fn verify_at_fixed_clock_accepts_edge_of_window() {
    let sig = sign_federation_request(TEST_SECRET, 1000, TEST_BODY);
    assert!(verify_federation_request_at(TEST_SECRET, 1000, TEST_BODY, &sig, 1000 + MAX_CLOCK_SKEW_SECS).is_ok());
    assert!(matches!(
        verify_federation_request_at(TEST_SECRET, 1000, TEST_BODY, &sig, 1001 + MAX_CLOCK_SKEW_SECS),
        Err(FederationAuthError::TimestampExpired)
    ));
}

#[test]
fn auth_error_messages_name_the_failure() {
    assert_eq!(FederationAuthError::TimestampExpired.message(), "request timestamp outside acceptable window");
    assert_eq!(FederationAuthError::InvalidSignature.message(), "HMAC signature verification failed");
    assert_eq!(FederationAuthError::UnknownPeer.message(), "unknown vault ID — peer not registered");
    assert_eq!(FederationAuthError::NoSecret.message(), "peer has no shared secret configured");
}
