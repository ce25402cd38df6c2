use mv_engine::access::{
    access_key_usable, check_policy, classify_admission_denial, consumer_name_taken,
    generate_access_token, generate_consumer_token, generate_share_token, hash_access_token,
    hash_share_token, hash_token, rank_grant_refusal, AdmissionDenialReason, CommandTerms,
    GrantTerms, PolicyDecision, PolicyTerms,
};
use mv_engine::auto_approve::{auto_approved, glob_match_simple, AutoApproveRule};
use mv_engine::error::EngineError;
use mv_engine::proposals::{check_executable, create_kind_name, merged_tags, require_content, require_target, ProposalKind};

#[test]
fn glob_wildcard_matches_everything() {
    assert!(glob_match_simple("*", "anything"));
    assert!(glob_match_simple("*", ""));
}

#[test]
fn glob_prefix_wildcard_matches_suffix() {
    assert!(glob_match_simple("*@example.com", "user@example.com"));
    assert!(!glob_match_simple("*@example.com", "user@other.com"));
}

#[test]
fn glob_suffix_wildcard_matches_prefix() {
    assert!(glob_match_simple("mcp-*", "mcp-agent"));
    assert!(!glob_match_simple("mcp-*", "other-agent"));
}

#[test]
fn glob_exact_match() {
    assert!(glob_match_simple("exact", "exact"));
    assert!(!glob_match_simple("exact", "different"));
}

#[test]
fn glob_empty_pattern_only_matches_empty() {
    assert!(glob_match_simple("", ""));
    assert!(!glob_match_simple("", "notempty"));
}

#[test]
fn auto_approve_rules_need_every_condition() {
    let rule = AutoApproveRule {
        enabled: true,
        sender_pattern: Some("mcp-*".into()),
        action_types: vec!["create_node".into()],
        confidence_ok: true,
    };
    assert!(auto_approved(&vec![rule], "mcp-agent", "create_node"));
    let disabled = AutoApproveRule { enabled: false, sender_pattern: None, action_types: vec![], confidence_ok: true };
    let low = AutoApproveRule { enabled: true, sender_pattern: None, action_types: vec![], confidence_ok: false };
    let other_action = AutoApproveRule {
        enabled: true,
        sender_pattern: None,
        action_types: vec!["delete_node".into()],
        confidence_ok: true,
    };
    assert!(!auto_approved(&vec![disabled, low, other_action], "mcp-agent", "create_node"));
    let any = AutoApproveRule { enabled: true, sender_pattern: None, action_types: vec![], confidence_ok: true };
    assert!(auto_approved(&vec![any], "someone", "anything"));
}

#[test]
fn tokens_carry_prefix_and_hash_is_sha256_base64url() {
    let t = generate_access_token();
    assert!(t.starts_with("mvk_"));
    assert_eq!(t.len(), 4 + 43);
    assert!(generate_share_token().starts_with("mvs_"));
    assert!(generate_consumer_token().starts_with("mvc_"));
    assert_ne!(generate_access_token(), generate_access_token());
    assert_eq!(hash_token("abc"), "ungWv48Bz-pBQUDeXa4iI7ADYaOWF3qctBD_YfIAFa0");
    assert_eq!(hash_access_token("abc"), hash_share_token("abc"));
}

#[test]
fn access_key_expiry_is_inclusive() {
    assert!(access_key_usable(false, None, (10, 0)));
    assert!(access_key_usable(false, Some((10, 0)), (10, 0)));
    assert!(!access_key_usable(false, Some((10, 0)), (10, 1)));
    assert!(!access_key_usable(true, None, (10, 0)));
}

#[test]
fn consumer_name_taken_message() {
    match consumer_name_taken("bot") {
        EngineError::InvalidInput(m) => assert_eq!(m, "consumer with name 'bot' already exists"),
        _ => panic!("expected invalid input"),
    }
}

fn policy(allowed: bool, expired: bool, approval: bool, ttl: Option<u64>) -> Option<PolicyTerms> {
    Some(PolicyTerms { allowed, expired, require_approval: approval, max_ttl_seconds: ttl, scopes: vec!["read".into()] })
}

#[test]
fn policy_decision_denies_by_default() {
    match check_policy("api_key", "bot", &None) {
        PolicyDecision::Deny { reason } => {
            assert_eq!(reason, "no policy found for consumer 'bot' on secret 'api_key'")
        }
        _ => panic!("expected deny"),
    }
    match check_policy("k", "c", &policy(false, false, false, None)) {
        PolicyDecision::Deny { reason } => assert_eq!(reason, "policy explicitly denies access"),
        _ => panic!("expected deny"),
    }
    match check_policy("k", "c", &policy(true, true, false, None)) {
        PolicyDecision::Deny { reason } => assert_eq!(reason, "policy has expired"),
        _ => panic!("expected deny"),
    }
    match check_policy("k", "c", &policy(true, false, true, None)) {
        PolicyDecision::RequiresApproval { ttl_seconds, scopes } => {
            assert_eq!(ttl_seconds, 300);
            assert_eq!(scopes, vec!["read"]);
        }
        _ => panic!("expected approval"),
    }
    match check_policy("k", "c", &policy(true, false, false, Some(60))) {
        PolicyDecision::Allow { ttl_seconds, .. } => assert_eq!(ttl_seconds, Some(60)),
        _ => panic!("expected allow"),
    }
}

fn grant(kind: u8, targets: &[&str], caps: &[u8], sens: u8, ret: u8, effective: bool) -> GrantTerms {
    GrantTerms {
        kind,
        targets: targets.iter().map(|t| t.to_string()).collect(),
        capabilities: caps.to_vec(),
        sensitivity_ceiling: sens,
        retention_ceiling: ret,
        effective,
    }
}

#[test]
fn refusal_ranking_names_the_closest_grant() {
    let cmd = CommandTerms { kind: 1, resource: "r".into(), operation: 2, sensitivity: 1, retention: 1 };
    assert_eq!(rank_grant_refusal(&grant(0, &["r"], &[2], 1, 1, true), &cmd), (AdmissionDenialReason::GrantKindMismatch, 1));
    assert_eq!(rank_grant_refusal(&grant(1, &["x"], &[2], 1, 1, true), &cmd), (AdmissionDenialReason::TargetNotGranted, 2));
    assert_eq!(rank_grant_refusal(&grant(1, &["r"], &[3], 1, 1, true), &cmd), (AdmissionDenialReason::CapabilityNotGranted, 3));
    assert_eq!(rank_grant_refusal(&grant(1, &["r"], &[2], 0, 1, true), &cmd), (AdmissionDenialReason::SensitivityCeilingExceeded, 4));
    assert_eq!(rank_grant_refusal(&grant(1, &["r"], &[2], 1, 0, true), &cmd), (AdmissionDenialReason::RetentionCeilingExceeded, 5));
    assert_eq!(rank_grant_refusal(&grant(1, &["r"], &[2], 1, 1, false), &cmd), (AdmissionDenialReason::GrantNotEffective, 6));
    assert_eq!(rank_grant_refusal(&grant(1, &["r"], &[2], 1, 1, true), &cmd), (AdmissionDenialReason::DelegationChainIneffective, 7));
    assert_eq!(classify_admission_denial(&None, &cmd), AdmissionDenialReason::ResolverUnavailable);
    assert_eq!(classify_admission_denial(&Some(vec![]), &cmd), AdmissionDenialReason::NoEffectiveGrant);
    let grants = vec![grant(0, &[], &[], 0, 0, true), grant(1, &["r"], &[3], 1, 1, true), grant(1, &["x"], &[2], 1, 1, true)];
    assert_eq!(classify_admission_denial(&Some(grants), &cmd), AdmissionDenialReason::CapabilityNotGranted);
}

#[test]
fn proposal_requirements() {
    assert!(check_executable(ProposalKind::CreateNode).is_ok());
    match check_executable(ProposalKind::Other) {
        Err(EngineError::InvalidInput(m)) => assert_eq!(m, "proposal action not supported for execution"),
        _ => panic!("expected refusal"),
    }
    assert_eq!(require_target(Some(7)).ok(), Some(7));
    match require_target(None) {
        Err(EngineError::InvalidInput(m)) => assert_eq!(m, "proposal missing target_node_id"),
        _ => panic!("expected refusal"),
    }
    match require_content(None) {
        Err(EngineError::InvalidInput(m)) => assert_eq!(m, "proposal payload missing content"),
        _ => panic!("expected refusal"),
    }
    assert_eq!(create_kind_name(None), "fact");
    assert_eq!(create_kind_name(Some("task".into())), "task");
}

#[test]
fn tag_suggestion_merges_case_insensitively() {
    let current: Vec<String> = vec!["Rust".into()];
    let t = merged_tags(current.clone(), true, Some(" rust "), None).ok().unwrap();
    assert_eq!(t, vec!["Rust"]);
    let t = merged_tags(current.clone(), true, Some(" tokio "), None).ok().unwrap();
    assert_eq!(t, vec!["Rust", "tokio"]);
    match merged_tags(current.clone(), true, None, None) {
        Err(EngineError::InvalidInput(m)) => assert_eq!(m, "proposal payload missing tag"),
        _ => panic!("expected refusal"),
    }
    let t = merged_tags(current.clone(), false, None, Some(vec!["a".into()])).ok().unwrap();
    assert_eq!(t, vec!["a"]);
    let t = merged_tags(current, false, None, None).ok().unwrap();
    assert_eq!(t, vec!["Rust"]);
}
