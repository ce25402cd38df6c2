use mv_engine::error::EngineError;
use mv_engine::outbox_http_publisher::sha256_hex;
use mv_engine::work_order_transfer::{
    check_export_run_count, check_restore_absent, missing_artifact_content, restore_artifact_content,
};

#[test]
fn export_refuses_a_partial_run_history() {
    assert!(check_export_run_count("wo-1", 999).is_ok());
    assert!(matches!(
        check_export_run_count("wo-1", 1000),
        Err(EngineError::Storage(m)) if m == "work order wo-1 has at least 1000 run attempts, which exceeds what one export can carry; refusing to emit a partial history"
    ));
    assert!(matches!(
        missing_artifact_content("a-1"),
        EngineError::Storage(m) if m == "artifact a-1 is recorded but its content is missing; refusing to export an unrestorable digest"
    ));
}

#[test]
fn restore_checks_each_artifact_digest() {
    let content = b"gate evidence".to_vec();
    let encoded = "Z2F0ZSBldmlkZW5jZQ==".to_string();
    let digest = sha256_hex(&content);
    assert_eq!(restore_artifact_content("a-1", &encoded, &digest).unwrap(), content);
    assert!(matches!(
        restore_artifact_content("a-1", &encoded, "00"),
        Err(EngineError::InvalidInput(m)) if m == "artifact a-1 content does not match its recorded digest"
    ));
    assert!(matches!(
        restore_artifact_content("a-2", "***", &digest),
        Err(EngineError::InvalidInput(m)) if m.starts_with("artifact a-2 content is not valid base64: ")
    ));
}

#[test]
fn restore_never_merges() {
    assert!(check_restore_absent("wo-9", false).is_ok());
    assert!(matches!(
        check_restore_absent("wo-9", true),
        Err(EngineError::Conflict(m)) if m == "work order wo-9 already exists in this vault; restore does not merge divergent histories"
    ));
}
