use mv_engine::access::{default_permission_templates, PermissionTier};
use mv_engine::backlinks::{daily_link_exists, plan_backlink_sync, should_link_to_daily_note, ExistingLink, LinkKind};
use mv_engine::enrichment::{enriched_title, enrichment_prompt, merge_suggested_tags};
use mv_engine::error::EngineError;
use mv_engine::federation::FederationPeer;
use mv_engine::node::{MetaValue, NodeKind, NodeTraits};
use mv_engine::peers::{
    health_url, identity_url, peer_healthy, per_peer_limit, recall_namespace, recall_url, FederationEngine,
};
use mv_engine::tasks::{
    plan_rollforward, recurring_instance_tags, reminder_action, reminder_pass, template_update, GenerationStart,
    RollforwardStep, RuleReading, TaskRecurrenceRollforwardStats, TemplateFacts, TimeReading, scan_continues, select_due_tasks, DueCandidate,
    ReminderAction, TaskReminderDispatchStats,
};
use mv_engine::workspace_mount::{
    check_mount_request, check_write_guard, failed_projection_outcome, find_mounted_root, next_revision,
};
use mv_engine::workspace_projection::check_projection_upsert;

fn traits(kind: NodeKind, tags: &[&str], metadata: Vec<(&str, MetaValue)>) -> NodeTraits {
    NodeTraits {
        kind,
        tags: tags.iter().map(|t| t.to_string()).collect(),
        metadata: metadata.into_iter().map(|(k, v)| (k.to_string(), v)).collect(),
    }
}

#[test]
fn daily_note_linking_rules() {
    assert!(should_link_to_daily_note(true, &traits(NodeKind::Task, &[], vec![])));
    assert!(!should_link_to_daily_note(false, &traits(NodeKind::Task, &[], vec![])));
    assert!(!should_link_to_daily_note(true, &traits(NodeKind::Task, &["template"], vec![])));
    assert!(!should_link_to_daily_note(true, &traits(NodeKind::Event, &["daily-note"], vec![])));
    assert!(!should_link_to_daily_note(true, &traits(NodeKind::Fact, &[], vec![])));
    let rels = vec![(5u128, LinkKind::Other), (7u128, LinkKind::PartOf)];
    assert!(daily_link_exists(&rels, 7));
    assert!(!daily_link_exists(&rels, 5));
}

fn link(id: u128, target: u128, automatic: bool, source: &str) -> ExistingLink {
    ExistingLink { id, target, automatic, source: source.to_string() }
}

#[test]
fn backlink_sync_plan_keeps_adds_and_removes() {
    let desired: Vec<(u128, String)> = vec![(1, "wikilink".into()), (2, "title".into()), (1, "url".into()), (3, "title".into())];
    let links = vec![
        link(10, 1, true, "wikilink"),
        link(11, 2, true, "url"),
        link(12, 4, true, "title"),
        link(13, 4, false, ""),
        link(14, 5, true, ""),
    ];
    let plan = plan_backlink_sync(&desired, &links);
    assert_eq!(plan.add, vec![(2, "title".to_string()), (3, "title".to_string())]);
    assert_eq!(plan.remove, vec![11, 12, 14]);
}

fn peer(vault: &str, endpoint: &str) -> FederationPeer {
    FederationPeer::new(vault, "name", endpoint)
}

#[test]
fn peer_registry_add_find_remove() {
    let mut reg = FederationEngine::new();
    let a = peer("vault-a", "https://a.local/");
    let a_id = a.id;
    reg.add_peer(a);
    let mut b = peer("vault-b", "https://b.local");
    b.enabled = false;
    reg.add_peer(b);
    assert_eq!(reg.find_peer_by_vault_id("vault-b"), Some(1));
    assert_eq!(reg.find_peer_by_vault_id("vault-c"), None);
    assert!(reg.check_new_vault_id("vault-c").is_ok());
    match reg.check_new_vault_id("vault-a") {
        Err(EngineError::Federation(m)) => assert_eq!(m, "peer with vault_id 'vault-a' is already registered"),
        _ => panic!("expected refusal"),
    }
    assert_eq!(reg.enabled_peer_ids(), vec![a_id]);
    reg.update_last_seen(a_id, 1234);
    assert_eq!(reg.peers[0].last_seen, Some(1234));
    assert!(reg.remove_peer(a_id));
    assert!(!reg.remove_peer(a_id));
    assert_eq!(reg.peers.len(), 1);
}

#[test]
fn peer_endpoints_and_query_scope() {
    let mut p = peer("v", "https://p.local:9470//");
    assert_eq!(identity_url("https://p.local:9470/"), "https://p.local:9470/api/v1/federation/identity");
    assert_eq!(health_url(&p), "https://p.local:9470/api/v1/health");
    assert_eq!(recall_url(&p), "https://p.local:9470/api/v1/recall");
    assert_eq!(per_peer_limit(10, &p), 10);
    assert_eq!(per_peer_limit(100, &p), 50);
    assert_eq!(recall_namespace(&p), None);
    p.allowed_namespaces = vec!["work".into()];
    assert_eq!(recall_namespace(&p), Some("work".to_string()));
    p.allowed_namespaces.push("home".into());
    assert_eq!(recall_namespace(&p), None);
    assert!(peer_healthy("ok"));
    assert!(!peer_healthy("OK"));
}

#[test]
fn mount_requests_are_checked() {
    match check_mount_request(true, "ns", "Notes") {
        Err(EngineError::InvalidInput(m)) => assert_eq!(m, "mounted workspaces in sealed mode require the encrypted descriptor bridge"),
        _ => panic!("expected refusal"),
    }
    match check_mount_request(false, "  ", "Notes") {
        Err(EngineError::InvalidInput(m)) => assert_eq!(m, "workspace namespace must not be empty"),
        _ => panic!("expected refusal"),
    }
    let long = "x".repeat(121);
    match check_mount_request(false, "ns", &long) {
        Err(EngineError::InvalidInput(m)) => assert_eq!(m, "workspace display name must contain 1 to 120 bytes"),
        _ => panic!("expected refusal"),
    }
    assert!(check_mount_request(false, "ns", &"x".repeat(120)).is_ok());
    let existing = vec![(1u128, None), (2u128, Some("/a".to_string())), (3u128, Some("/a".to_string()))];
    assert_eq!(find_mounted_root(&existing, "/a"), Some(2));
    assert_eq!(find_mounted_root(&existing, "/b"), None);
}

#[test]
fn write_guard_and_revisions() {
    assert!(check_write_guard("h1", "h1").is_ok());
    match check_write_guard("h1", "h2") {
        Err(EngineError::CanonicalSourceConflict(m)) => {
            assert!(m.starts_with("expected content hash h1 does not match observed canonical"));
            assert!(m.ends_with("hash h2"));
        }
        _ => panic!("expected conflict"),
    }
    assert_eq!(next_revision(4, "workspace").ok(), Some(5));
    match next_revision(u64::MAX, "workspace document") {
        Err(EngineError::InvalidInput(m)) => assert_eq!(m, "workspace document revision overflow"),
        _ => panic!("expected refusal"),
    }
    let o = failed_projection_outcome(3, 4);
    assert_eq!(o.failed_documents, 7);
    assert_eq!(failed_projection_outcome(usize::MAX, 1).failed_documents, usize::MAX);
}

#[test]
fn projection_upsert_checks() {
    let marker = || vec![("mindvault.workspace_projection", MetaValue::Object(Some("mindvault.workspace-projection/v1".into())))];
    let proj = traits(NodeKind::Fact, &[], marker());
    let plain = traits(NodeKind::Fact, &[], vec![]);
    assert_eq!(check_projection_upsert(&proj, None, "n1").ok(), Some(false));
    assert_eq!(check_projection_upsert(&proj, Some(&traits(NodeKind::Fact, &[], marker())), "n1").ok(), Some(true));
    match check_projection_upsert(&proj, Some(&plain), "n1") {
        Err(EngineError::CanonicalSourceConflict(m)) => assert_eq!(m, "node n1 already exists and is not a disposable workspace projection"),
        _ => panic!("expected conflict"),
    }
    match check_projection_upsert(&plain, None, "n1") {
        Err(EngineError::InvalidInput(m)) => assert_eq!(m, "workspace projection metadata is missing or invalid"),
        _ => panic!("expected refusal"),
    }
}

#[test]
fn enrichment_prompt_and_merges() {
    let p = enrichment_prompt("hello");
    assert!(p.starts_with("Analyze the following content and extract: \n1. Up to 5 relevant tags"));
    assert!(p.contains("\n\nContent: hello\n\nReturn JSON: {\"tags\": [], \"title\": \"\", \"importance\": 0.0}"));
    let merged = merge_suggested_tags(vec!["a".into()], &vec!["b".into(), "a".into(), "b".into(), "A".into()]);
    assert_eq!(merged, vec!["a", "b", "A"]);
    assert_eq!(enriched_title(None, "New".into()), Some("New".to_string()));
    assert_eq!(enriched_title(Some("Todo".into()), "Better".into()), Some("Better".to_string()));
    assert_eq!(enriched_title(Some("éé€".into()), "Better".into()), Some("éé€".to_string()));
    assert_eq!(enriched_title(Some("Long title".into()), "Better".into()), Some("Long title".to_string()));
    assert_eq!(enriched_title(None, "".into()), None);
}

fn due(id: u128, d: Option<(i64, u32)>, completed: bool) -> DueCandidate {
    DueCandidate { id, due: d, completed }
}

#[test]
fn due_tasks_are_sorted_filtered_and_capped() {
    let tasks = vec![
        due(5, Some((100, 0)), false),
        due(3, Some((50, 0)), false),
        due(9, Some((100, 0)), false),
        due(1, Some((200, 0)), false),
        due(2, None, false),
        due(4, Some((60, 0)), true),
        due(7, Some((100, 1)), false),
    ];
    assert_eq!(select_due_tasks(&tasks, (100, 0), 10, false), vec![3, 5, 9]);
    assert_eq!(select_due_tasks(&tasks, (100, 5), 10, true), vec![3, 4, 5, 9, 7]);
    assert_eq!(select_due_tasks(&tasks, (100, 5), 2, true), vec![3, 4]);
    assert_eq!(select_due_tasks(&tasks, (100, 5), 0, true), vec![3]);
}

#[test]
fn reminder_pass_counts() {
    let mut s = TaskReminderDispatchStats::new(3);
    s.record(reminder_action(Err(())), false);
    s.record(reminder_action(Ok(true)), false);
    s.record(reminder_action(Ok(false)), true);
    assert_eq!(reminder_action(Ok(false)), ReminderAction::MarkSent);
    assert_eq!((s.scanned_tasks, s.due_tasks, s.reminders_marked_sent, s.errors), (3, 3, 1, 1));
    assert!(scan_continues(250, 250));
    assert!(!scan_continues(10, 250));
    assert!(!scan_continues(0, 250));
}

#[test]
fn recurring_instances_are_tagged_once() {
    let t: Vec<String> = vec!["work".into()];
    assert_eq!(recurring_instance_tags(&t), vec!["work", "recurring-instance"]);
    let u: Vec<String> = vec!["Recurring-Instance".into()];
    assert_eq!(recurring_instance_tags(&u), vec!["Recurring-Instance"]);
}

#[test]
fn default_templates_fill_what_is_missing() {
    let both = default_permission_templates(false, false);
    assert_eq!(both.len(), 2);
    assert_eq!(both[0].name, "Owner");
    assert_eq!(both[0].tier, PermissionTier::Admin);
    assert_eq!(both[1].name, "Assistant");
    assert_eq!(both[1].scope_namespace.as_deref(), Some("assistant"));
    assert_eq!(default_permission_templates(true, false).len(), 1);
    assert!(default_permission_templates(true, true).is_empty());
}

#[test]
fn second_reminder_pass_marks_nothing() {
    let sent = vec![Ok(false), Ok(true), Err(()), Ok(false)];
    let (after, first) = reminder_pass(&sent, &vec![true, true, true, true]);
    assert_eq!(first.reminders_marked_sent, 2);
    assert_eq!(first.errors, 1);
    assert_eq!(after, vec![Ok(true), Ok(true), Err(()), Ok(true)]);
    let (again, second) = reminder_pass(&after, &vec![true, true, true, true]);
    assert_eq!(second.reminders_marked_sent, 0);
    assert_eq!(again, after);
    let (_, failed) = reminder_pass(&sent, &vec![false, true, true, true]);
    assert_eq!((failed.reminders_marked_sent, failed.errors), (1, 2));
}

#[test]
fn rollforward_plans_each_scanned_task() {
    let base = TemplateFacts {
        is_instance: false,
        rule: RuleReading::Enabled,
        due_at: TimeReading::Absent,
        last_generated: TimeReading::Absent,
        created_at: 1_000,
        generated_count: None,
    };
    assert_eq!(plan_rollforward(&base), RollforwardStep::Generate { start: GenerationStart::Created(1_000), generated: 0 });
    let due = TemplateFacts { due_at: TimeReading::At(5_000), generated_count: Some(3), ..base };
    assert_eq!(plan_rollforward(&due), RollforwardStep::Generate { start: GenerationStart::BeforeDue(5_000), generated: 3 });
    let recorded = TemplateFacts { last_generated: TimeReading::At(9_000), ..due };
    assert_eq!(plan_rollforward(&recorded), RollforwardStep::Generate { start: GenerationStart::Recorded(9_000), generated: 3 });
    assert_eq!(plan_rollforward(&TemplateFacts { is_instance: true, ..base }), RollforwardStep::Skip);
    assert_eq!(plan_rollforward(&TemplateFacts { rule: RuleReading::Disabled, ..base }), RollforwardStep::Skip);
    assert_eq!(plan_rollforward(&TemplateFacts { rule: RuleReading::Unreadable, ..base }), RollforwardStep::RuleError);
    assert_eq!(plan_rollforward(&TemplateFacts { due_at: TimeReading::Unreadable, ..base }), RollforwardStep::TimeError);

    let mut stats = TaskRecurrenceRollforwardStats::new();
    stats.record_step(RollforwardStep::TimeError);
    stats.record_step(RollforwardStep::Skip);
    assert_eq!((stats.scanned_tasks, stats.recurring_templates, stats.errors), (2, 1, 1));
    stats.record_instances(2, 1);
    stats.record_template_update(true);
    assert_eq!((stats.generated_instances, stats.updated_templates, stats.errors), (2, 1, 2));
}

#[test]
fn template_records_its_latest_stored_instance() {
    assert_eq!(template_update(&vec![(10, true), (20, false), (30, true)], 5, 4), (2, Some((30, 6))));
    assert_eq!(template_update(&vec![(10, false)], 5, 4), (0, None));
    assert_eq!(template_update(&vec![(10, true)], 5, u64::MAX), (1, Some((10, u64::MAX))));
}
