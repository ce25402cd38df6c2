use mv_engine::error::EngineError;
use mv_engine::grants::{
    check_delegator, command_subject, delegation_identity_material, legacy_fallback_enabled, owner_principal,
    resolve_identity, transition_terms, GrantStatus,
};
use mv_engine::proposals::{plan_undo, undo_action_name, ProposalKind, UndoStep};
use mv_engine::relay_promotion::{
    bind_promoted, check_retraction, retraction_target, unbind_retracted, RelayMessageRecord, owner_contact_fields, owner_contact_first_step, owner_contact_id, owner_contact_notes,
    owner_contact_write, plan_promotion, promotion_source, promotion_tags, relay_message_not_found,
    OwnerContactStep, OwnerContactWrite, PromotionStep,
};

#[test]
fn command_subject_defaults_to_local_system() {
    assert_eq!(command_subject(None), "local-system");
    assert_eq!(command_subject(Some("agent-7")), "agent-7");
}

#[test]
fn legacy_fallback_only_for_exactly_one() {
    assert!(legacy_fallback_enabled(Some("1")));
    assert!(!legacy_fallback_enabled(Some("true")));
    assert!(!legacy_fallback_enabled(Some(" 1")));
    assert!(!legacy_fallback_enabled(None));
}

#[test]
fn identity_resolution_prefers_registry_then_fallback() {
    let r = resolve_identity(Some("mv://p/reg".to_string()), false, "mv://p/derived".to_string(), "x");
    assert!(matches!(r, Ok(p) if p == "mv://p/reg"));
    let r = resolve_identity(None, true, "mv://p/derived".to_string(), "x");
    assert!(matches!(r, Ok(p) if p == "mv://p/derived"));
    let r = resolve_identity(None, false, "mv://p/derived".to_string(), "ghost");
    assert!(matches!(r, Err(EngineError::InvalidInput(m)) if m == "unknown identity subject binding: ghost"));
    assert_eq!(owner_principal(None, "d".to_string()), "d");
    assert_eq!(owner_principal(Some("r".to_string()), "d".to_string()), "r");
}

#[test]
fn only_parent_grantee_may_delegate() {
    assert!(check_delegator("mv://a", "mv://a").is_ok());
    assert!(matches!(
        check_delegator("mv://a", "mv://b"),
        Err(EngineError::AccessDenied(m)) if m == "only the parent grant grantee may delegate its authority"
    ));
    assert_eq!(delegation_identity_material("p-1", "key-9"), "authority-grant-delegation:p-1:key-9");
}

#[test]
fn grant_transition_advances_revision_and_clears_reason_on_resume() {
    let t = transition_terms(4, GrantStatus::Suspended, "audit".to_string()).unwrap();
    assert_eq!(t.revision, 5);
    assert_eq!(t.status, GrantStatus::Suspended);
    assert_eq!(t.status_reason.as_deref(), Some("audit"));
    let t = transition_terms(5, GrantStatus::Active, "ignored".to_string()).unwrap();
    assert_eq!(t.revision, 6);
    assert_eq!(t.status_reason, None);
    assert!(matches!(
        transition_terms(u64::MAX, GrantStatus::Revoked, "r".to_string()),
        Err(EngineError::InvalidInput(m)) if m == "authority-grant revision overflow"
    ));
}

#[test]
fn undo_records_and_plans() {
    assert_eq!(undo_action_name(ProposalKind::CreateNode), Some("create_node"));
    assert_eq!(undo_action_name(ProposalKind::SuggestTag), Some("update_node"));
    assert_eq!(undo_action_name(ProposalKind::DeleteNode), Some("delete_node"));
    assert_eq!(undo_action_name(ProposalKind::Other), None);
    assert!(matches!(plan_undo(true, false, false, Some("create_node")), Ok(UndoStep::DeleteCreated)));
    assert!(matches!(plan_undo(true, false, false, Some("update_node")), Ok(UndoStep::RestorePrevious)));
    assert!(matches!(plan_undo(true, false, false, Some("delete_node")), Ok(UndoStep::Recreate)));
    assert!(matches!(plan_undo(false, false, false, None), Err(EngineError::InvalidInput(m)) if m == "no undo snapshot for this proposal"));
    assert!(matches!(plan_undo(true, true, false, None), Err(EngineError::InvalidInput(m)) if m == "undo already applied for this proposal"));
    assert!(matches!(plan_undo(true, false, true, None), Err(EngineError::InvalidInput(m)) if m == "undo window has expired"));
    assert!(matches!(plan_undo(true, false, false, None), Err(EngineError::InvalidInput(m)) if m == "cannot undo action type: unknown"));
}

#[test]
fn promotion_rules() {
    assert!(matches!(
        plan_promotion(true, None, "x", "y", "z"),
        Err(EngineError::InvalidInput(m)) if m == "blocked or failed relay messages cannot be promoted"
    ));
    assert!(matches!(plan_promotion(false, Some(7), "", "", ""), Ok(PromotionStep::ReturnExisting(7))));
    assert!(matches!(
        plan_promotion(false, None, "llm", "  ", "quote"),
        Err(EngineError::InvalidInput(m)) if m == "promotion requires extractor, actor, and evidence"
    ));
    assert!(matches!(plan_promotion(false, None, "llm", "owner", "quote"), Ok(PromotionStep::Promote)));
    assert_eq!(promotion_tags("c-1"), vec!["relay", "promoted", "channel:c-1"]);
    assert_eq!(promotion_source("m-1"), "relay:m-1");
    assert!(matches!(relay_message_not_found("m-2"), EngineError::NotFound(m) if m == "relay message m-2"));
}

#[test]
fn retraction_keeps_source_message() {
    assert!(check_retraction("hi", "hi", true, false).is_ok());
    assert!(matches!(check_retraction("hi", "ho", true, false), Err(EngineError::Storage(m)) if m == "retraction must not rewrite source communication content"));
    assert!(matches!(check_retraction("hi", "hi", false, false), Err(EngineError::Storage(m)) if m == "retraction must not rewrite source communication status"));
    assert!(matches!(check_retraction("hi", "hi", true, true), Err(EngineError::Storage(m)) if m == "retraction left vault_node_id bound"));
}

#[test]
fn owner_contact_sync_decisions() {
    let f = owner_contact_fields("  ", Some(" me@example.org "), Some("  "));
    assert_eq!(f.display_name, "MindVault Owner");
    assert_eq!(f.vault_address.as_deref(), Some("mailto:me@example.org"));
    assert_eq!(f.signature_key, None);
    let f = owner_contact_fields(" Ada ", Some(""), Some(" key "));
    assert_eq!(f.display_name, "Ada");
    assert_eq!(f.vault_address, None);
    assert_eq!(f.signature_key.as_deref(), Some("key"));
    assert_eq!(owner_contact_first_step(Some(9), false), OwnerContactStep::LookUp(9));
    assert_eq!(owner_contact_first_step(None, true), OwnerContactStep::CreateTrusted);
    assert_eq!(owner_contact_first_step(None, false), OwnerContactStep::Unchanged);
    assert_eq!(owner_contact_write(true, false), OwnerContactWrite::UpdateExisting);
    assert_eq!(owner_contact_write(false, true), OwnerContactWrite::CreateTrusted);
    assert_eq!(owner_contact_write(false, false), OwnerContactWrite::Nothing);
    assert_eq!(owner_contact_notes(None).as_deref(), Some("owner"));
    assert_eq!(owner_contact_notes(Some("friend".into())).as_deref(), Some("friend"));
}

#[test]
fn contact_id_round_trips_through_its_text() {
    let id: u128 = 0x936da01f_9abd_4d9d_80c7_02af85c822a8;
    assert_eq!(owner_contact_id(Some("936da01f-9abd-4d9d-80c7-02af85c822a8")), Some(id));
    assert_eq!(owner_contact_id(Some("936DA01F9ABD4D9D80C702AF85C822A8")), Some(id));
    assert_eq!(owner_contact_id(Some("not-a-uuid")), None);
    assert_eq!(owner_contact_id(None), None);
}

#[test]
fn retraction_undoes_promotion() {
    let m = RelayMessageRecord { content: "hello".into(), status: "delivered".into(), vault_node_id: None };
    let promoted = bind_promoted(m, 42);
    assert_eq!(retraction_target(&promoted), Some(42));
    let retracted = unbind_retracted(promoted);
    assert_eq!(retracted.content, "hello");
    assert_eq!(retracted.status, "delivered");
    assert_eq!(retracted.vault_node_id, None);
    assert!(check_retraction("hello", &retracted.content, true, retracted.vault_node_id.is_some()).is_ok());
}

#[test]
fn promoting_a_promoted_message_again_returns_its_node() {
    let m = RelayMessageRecord { content: "hello".into(), status: "delivered".into(), vault_node_id: None };
    assert!(matches!(plan_promotion(false, m.vault_node_id, "llm", "owner", "quote"), Ok(PromotionStep::Promote)));
    let promoted = bind_promoted(m, 42);
    assert!(matches!(
        plan_promotion(false, promoted.vault_node_id, "", "", ""),
        Ok(PromotionStep::ReturnExisting(42))
    ));
}
