use mv_engine::calendar::{
    calendar_adapter_name, check_calendar_settings, classify_event, event_source, event_text,
    calendar_event_tags, event_metadata, event_times, export_action, export_summary, next_sync_step, sync_cursor,
    sync_report, CalendarSettings, EventAction, EventApplied, EventTime, ExportAction, FetchOutcome,
    SyncStep,
};
use mv_engine::error::EngineError;
use mv_engine::node::{
    is_auto_backlink_relationship, is_daily_link_candidate, is_daily_note, is_template_node,
    is_workspace_projection_node, reject_reserved_workspace_projection_marker,
    reject_workspace_projection_mutation, MetaValue, NodeKind, NodeTraits,
};
use mv_engine::work_orders::{
    artifacts_outcome, ceilings_outcome, check_artifact_recordable, transition_lifecycle, RunLifecycle, check_approver, check_execution, check_has_contracts,
    check_proposed_edge, check_read_scope, check_write_scope, executor_gate, gate_failure,
    judge_edge, latest_attempt_of, next_run_attempt, outstanding_gates, readiness_after_edges,
    schema_outcome, start_action, AdmissionRefusal, ArtifactCheck, Budget, EdgeClass,
    EffectOutcome, ExecutionStart, ExecutorGate, RequiredGate, RunReadiness, RunRecord,
    RunStatusClass, StartAction,
};

fn settings(enabled: bool, id: Option<&str>, secret: Option<&str>, token: Option<&str>, cal: &str) -> CalendarSettings {
    CalendarSettings {
        enabled,
        client_id: id.map(|s| s.to_string()),
        client_secret: secret.map(|s| s.to_string()),
        refresh_token: token.map(|s| s.to_string()),
        calendar_id: cal.to_string(),
    }
}

fn invalid(r: Result<String, EngineError>) -> String {
    match r {
        Err(EngineError::InvalidInput(m)) => m,
        _ => panic!("expected invalid input"),
    }
}

#[test]
fn calendar_settings_are_checked_in_order() {
    assert_eq!(invalid(check_calendar_settings(&settings(false, None, None, None, ""))), "google calendar sync is disabled");
    assert_eq!(invalid(check_calendar_settings(&settings(true, None, Some("s"), Some("t"), "c"))), "google calendar client_id missing");
    assert_eq!(invalid(check_calendar_settings(&settings(true, Some("i"), None, Some("t"), "c"))), "google calendar client_secret missing");
    assert_eq!(invalid(check_calendar_settings(&settings(true, Some("i"), Some("s"), None, "c"))), "google calendar refresh_token missing");
    assert_eq!(invalid(check_calendar_settings(&settings(true, Some("i"), Some("s"), Some("t"), "  "))), "google calendar_id must not be empty");
    assert_eq!(check_calendar_settings(&settings(true, Some("i"), Some("s"), Some("t"), " primary ")).ok(), Some("primary".to_string()));
}

#[test]
fn calendar_names_and_cursor() {
    assert_eq!(calendar_adapter_name("primary"), "google-calendar:primary");
    assert_eq!(event_source("primary", "e1"), "google-calendar:primary:e1");
    assert_eq!(sync_cursor(Some("  tok ")), Some("tok".to_string()));
    assert_eq!(sync_cursor(Some("   ")), None);
    assert_eq!(sync_cursor(None), None);
}

#[test]
fn calendar_event_classification() {
    assert_eq!(classify_event(false, Some("cancelled"), true), EventAction::Skip);
    assert_eq!(classify_event(true, Some("cancelled"), false), EventAction::Delete);
    assert_eq!(classify_event(true, Some("confirmed"), false), EventAction::Skip);
    assert_eq!(classify_event(true, None, true), EventAction::Upsert);
    assert_eq!(event_text(Some("  "), Some("")), ("Google Calendar Event".to_string(), "Google Calendar Event".to_string()));
    assert_eq!(event_text(Some("Standup"), None), ("Standup".to_string(), "Standup".to_string()));
    assert_eq!(event_text(Some("Standup"), Some("notes")), ("Standup".to_string(), "notes".to_string()));
}

#[test]
fn calendar_event_times_default_end_one_hour_later() {
    let start = EventTime { date_time: Some("2024-01-15T10:00:00+02:00".into()), date: None };
    let (s, e) = event_times(Some(start), None).unwrap();
    assert_eq!(s, (1705305600, 0));
    assert_eq!(e, (1705309200, 0));
    let all_day = EventTime { date_time: None, date: Some("2024-01-15".into()) };
    let end = EventTime { date_time: None, date: Some("2024-01-16".into()) };
    assert_eq!(event_times(Some(all_day), Some(end)), Some(((1705276800, 0), (1705363200, 0))));
    let bad = EventTime { date_time: Some("not a time".into()), date: Some("2024-01-15".into()) };
    assert_eq!(event_times(Some(bad), None), None);
    assert_eq!(event_times(None, None), None);
}

#[test]
fn calendar_sync_retries_expired_token_once() {
    assert!(matches!(next_sync_step(0, FetchOutcome::Fetched), SyncStep::Apply));
    assert!(matches!(next_sync_step(0, FetchOutcome::SyncTokenExpired), SyncStep::RetryWithoutToken));
    match next_sync_step(1, FetchOutcome::SyncTokenExpired) {
        SyncStep::Fail(EngineError::InvalidInput(m)) => assert_eq!(m, "google calendar sync token expired"),
        _ => panic!("expected failure"),
    }
    match next_sync_step(0, FetchOutcome::RequestFailed("boom".into())) {
        SyncStep::Fail(EngineError::Storage(m)) => assert_eq!(m, "google calendar sync failed: boom"),
        _ => panic!("expected failure"),
    }
}

#[test]
fn calendar_sync_report_counts() {
    let applied = vec![
        EventApplied::Created,
        EventApplied::Updated,
        EventApplied::Cancelled(true),
        EventApplied::Cancelled(false),
        EventApplied::Skipped,
        EventApplied::Created,
    ];
    let r = sync_report("c".into(), 6, true, &applied, (1, 2), Some("next".into()));
    assert_eq!((r.created, r.updated, r.deleted, r.skipped), (2, 1, 1, 1));
    assert_eq!((r.exported_created, r.exported_updated), (1, 2));
    let off = sync_report("c".into(), 6, false, &applied, (0, 0), None);
    assert_eq!((off.created, off.skipped), (0, 6));
    assert_eq!(export_action(true, false, true), ExportAction::Skip);
    assert_eq!(export_action(true, true, true), ExportAction::Update);
    assert_eq!(export_action(true, true, false), ExportAction::Create);
    assert_eq!(export_summary(None), "MindVault Event");
}

fn node(kind: NodeKind, tags: &[&str], metadata: Vec<(&str, MetaValue)>) -> NodeTraits {
    NodeTraits {
        kind,
        tags: tags.iter().map(|t| t.to_string()).collect(),
        metadata: metadata.into_iter().map(|(k, v)| (k.to_string(), v)).collect(),
    }
}

#[test]
fn node_predicates() {
    assert!(is_daily_note(&node(NodeKind::Fact, &["Daily-Note"], vec![])));
    assert!(is_daily_note(&node(NodeKind::Fact, &[], vec![("daily_note", MetaValue::Bool(true))])));
    assert!(!is_daily_note(&node(NodeKind::Fact, &[], vec![("daily_note", MetaValue::Bool(true)), ("daily_note", MetaValue::Bool(false))])));
    assert!(is_template_node(&node(NodeKind::Template, &[], vec![])));
    assert!(is_template_node(&node(NodeKind::Fact, &["TEMPLATE"], vec![])));
    assert!(!is_template_node(&node(NodeKind::Fact, &[], vec![("template", MetaValue::Text("true".into()))])));
    assert!(is_daily_link_candidate(&node(NodeKind::Event, &[], vec![])));
    assert!(is_daily_link_candidate(&node(NodeKind::Fact, &["Meeting"], vec![])));
    assert!(!is_daily_link_candidate(&node(NodeKind::Fact, &["notes"], vec![])));
    assert!(is_auto_backlink_relationship(&vec![("auto_backlink".to_string(), MetaValue::Bool(true))]));
    assert!(!is_auto_backlink_relationship(&vec![]));
}

#[test]
fn workspace_projection_marker_rules() {
    let projected = node(
        NodeKind::Fact,
        &[],
        vec![("mindvault.workspace_projection", MetaValue::Object(Some("mindvault.workspace-projection/v1".into())))],
    );
    assert!(is_workspace_projection_node(&projected));
    match reject_workspace_projection_mutation(&projected) {
        Err(EngineError::CanonicalSourceConflict(m)) => assert_eq!(
            m,
            "this node is a read-only projection; mutate its canonical document through the workspace API"
        ),
        _ => panic!("expected conflict"),
    }
    match reject_reserved_workspace_projection_marker(&projected) {
        Err(EngineError::InvalidInput(m)) => assert_eq!(m, "workspace projection metadata is reserved for canonical Markdown documents"),
        _ => panic!("expected refusal"),
    }
    let other = node(NodeKind::Fact, &[], vec![("mindvault.workspace_projection", MetaValue::Object(None))]);
    assert!(!is_workspace_projection_node(&other));
    assert!(reject_workspace_projection_mutation(&other).is_ok());
    assert!(reject_reserved_workspace_projection_marker(&node(NodeKind::Fact, &[], vec![])).is_ok());
}

#[test]
fn admission_refusal_messages() {
    let w = AdmissionRefusal::WriteScopeOutsideGrant { node_purpose: "p".into(), targets: vec!["a".into(), "b".into()] };
    assert_eq!(w.message(), "contract 'p' declares write targets outside its Tool Grant: a, b");
    let r = AdmissionRefusal::ReadScopeOutsideGrant { node_purpose: "p".into(), targets: vec!["a".into()] };
    assert_eq!(r.message(), "contract 'p' declares read targets outside its Context Grant: a");
    assert_eq!(AdmissionRefusal::DependencyCycle { contracts: 3 }.message(), "dependency graph is cyclic across 3 contracts");
    assert_eq!(AdmissionRefusal::Invalid { reason: "x".into() }.message(), "invalid work order: x");
}

#[test]
fn admission_structure_checks() {
    assert!(check_has_contracts(1).is_none());
    assert_eq!(check_has_contracts(0).unwrap().message(), "invalid work order: a work order must contain at least one node contract");
    assert_eq!(check_proposed_edge(2, 0, 2, false).unwrap().message(), "invalid work order: edge references a contract outside the work order");
    assert_eq!(check_proposed_edge(2, 0, 1, true).unwrap().message(), "invalid work order: conflict edges are derived from write scope, not authored");
    assert!(check_proposed_edge(2, 0, 1, false).is_none());
}

#[test]
fn admission_scope_checks_name_every_uncovered_target() {
    let reads = vec![("a".to_string(), Some(())), ("b".to_string(), None), ("c".to_string(), None)];
    assert_eq!(check_read_scope("p", &reads).unwrap().message(), "contract 'p' declares read targets outside its Context Grant: b, c");
    assert!(check_read_scope("p", &vec![("a".to_string(), Some(()))]).is_none());
    let writes = vec![("a".to_string(), None), ("b".to_string(), Some(9u128))];
    match check_write_scope("p", &writes) {
        Err(r) => assert_eq!(r.message(), "contract 'p' declares write targets outside its Tool Grant: a"),
        Ok(_) => panic!("expected refusal"),
    }
    let ok = vec![("a".to_string(), Some(5u128)), ("b".to_string(), Some(9u128))];
    assert_eq!(check_write_scope("p", &ok).ok(), Some(Some(5)));
    assert_eq!(check_write_scope("p", &vec![]).ok(), Some(None));
}

fn run(run_id: u128, node_id: u128, attempt_no: u32, completed: bool) -> RunRecord {
    RunRecord { run_id, node_id, attempt_no, completed }
}

#[test]
fn readiness_reads_predecessors() {
    let runs = vec![run(10, 1, 1, false), run(11, 1, 2, true), run(12, 1, 2, false), run(20, 2, 1, false)];
    assert_eq!(latest_attempt_of(&runs, 1), Some(run(12, 1, 2, false)));
    assert_eq!(latest_attempt_of(&runs, 3), None);
    assert_eq!(judge_edge(EdgeClass::Conflict, 9, &runs, false), None);
    assert_eq!(judge_edge(EdgeClass::Verification, 3, &runs, true), Some(RunReadiness::BlockedByPredecessor { predecessor: 3 }));
    assert_eq!(judge_edge(EdgeClass::Verification, 1, &runs, false), Some(RunReadiness::BlockedByVerification { predecessor: 12 }));
    assert_eq!(judge_edge(EdgeClass::Verification, 1, &runs, true), None);
    assert_eq!(judge_edge(EdgeClass::Precedence, 1, &runs, false), None);
    assert_eq!(judge_edge(EdgeClass::Precedence, 2, &runs, false), Some(RunReadiness::BlockedByPredecessor { predecessor: 2 }));
    assert_eq!(readiness_after_edges(2), RunReadiness::BlockedByConflict { targets: 2 });
    assert!(readiness_after_edges(0).is_ready());
    assert!(!RunReadiness::BlockedByApproval.is_ready());
}

#[test]
fn run_attempts_advance_within_the_contract() {
    let runs = vec![run(10, 1, 1, false), run(11, 1, 2, false), run(20, 2, 5, false)];
    assert_eq!(next_run_attempt(false, "admitted", &runs, 1, 3).ok(), Some(3));
    match next_run_attempt(false, "admitted", &runs, 1, 2) {
        Err(EngineError::Conflict(m)) => assert_eq!(m, "node contract allows 2 attempt(s); blind retry is not recovery"),
        _ => panic!("expected conflict"),
    }
    match next_run_attempt(true, "completed", &runs, 1, 9) {
        Err(EngineError::Conflict(m)) => assert_eq!(m, "work order is completed and cannot start new runs"),
        _ => panic!("expected conflict"),
    }
    assert_eq!(next_run_attempt(false, "admitted", &runs, 3, 1).ok(), Some(1));
    assert_eq!(start_action(EffectOutcome::Admitted), StartAction::Lease);
    assert_eq!(start_action(EffectOutcome::Blocked), StartAction::FailUnauthorized);
    assert_eq!(start_action(EffectOutcome::Deferred), StartAction::AwaitApproval);
    assert!(check_approver("actor", "owner").is_ok());
    match check_approver("actor", "actor") {
        Err(EngineError::AccessDenied(m)) => assert_eq!(m, "a run cannot approve itself (SPACE-002 / ADR 012)"),
        _ => panic!("expected denial"),
    }
}

#[test]
fn execution_checks_and_gates() {
    assert_eq!(check_execution(false, "running", true, "engine", true, "low", RunStatusClass::Ready).ok(), Some(ExecutionStart::ReleaseAndRun));
    assert_eq!(check_execution(false, "running", true, "engine", true, "low", RunStatusClass::Leased).ok(), Some(ExecutionStart::Run));
    match check_execution(false, "running", true, "engine", true, "low", RunStatusClass::Other("gated".into())) {
        Err(EngineError::Conflict(m)) => assert_eq!(m, "run must be leased (or ready after approval) to execute; status is gated"),
        _ => panic!("expected conflict"),
    }
    match check_execution(false, "running", false, "external", true, "low", RunStatusClass::Leased) {
        Err(EngineError::InvalidInput(m)) => assert_eq!(m, "execute_run supports ExecutorKind::Engine only; got external"),
        _ => panic!("expected refusal"),
    }
    match check_execution(false, "running", true, "engine", false, "high", RunStatusClass::Leased) {
        Err(EngineError::InvalidInput(m)) => assert_eq!(m, "internal engine auto-executor currently supports RiskTier::Low only; got high"),
        _ => panic!("expected refusal"),
    }
    match check_execution(true, "cancelled", true, "engine", true, "low", RunStatusClass::Leased) {
        Err(EngineError::Conflict(m)) => assert_eq!(m, "work order is cancelled and cannot execute runs"),
        _ => panic!("expected conflict"),
    }
    assert_eq!(executor_gate(RequiredGate::G6).ok(), Some(ExecutorGate::Ceilings));
    match executor_gate(RequiredGate::Other("g4".into())) {
        Err(EngineError::InvalidInput(m)) => assert_eq!(m, "internal engine executor does not auto-evaluate gate g4"),
        _ => panic!("expected refusal"),
    }
    match gate_failure("g1", Some("bad")) {
        EngineError::Conflict(m) => assert_eq!(m, "gate g1 failed during internal execution: bad"),
        _ => panic!("expected conflict"),
    }
    match outstanding_gates(&vec!["g1".into(), "g2".into()]) {
        EngineError::Conflict(m) => assert_eq!(m, "execution left outstanding gates: g1,g2"),
        _ => panic!("expected conflict"),
    }
}

#[test]
fn gate_outcomes() {
    let budget = Budget { run_attempts: 3, model_tokens: 100, effect_actions: 2, wall_clock_secs: 60 };
    let within = Budget { run_attempts: 2, ..budget };
    assert_eq!(ceilings_outcome(&within, &budget), (true, "budget, sensitivity, and retention remain within ceilings".to_string()));
    let over = Budget { model_tokens: 101, ..budget };
    assert_eq!(ceilings_outcome(&over, &budget), (false, "remaining budget exceeds declared ceilings".to_string()));
    assert_eq!(schema_outcome(Ok(Some("engine".into()))).0, true);
    assert_eq!(schema_outcome(Ok(Some("other".into()))), (false, "artifact JSON is not an engine.result payload".to_string()));
    assert_eq!(schema_outcome(Err("eof".into())), (false, "artifact is not valid JSON: eof".to_string()));
    assert_eq!(artifacts_outcome(&vec![]), (false, "the run recorded no artifacts to verify".to_string()));
    assert_eq!(artifacts_outcome(&vec![ArtifactCheck::Verified, ArtifactCheck::Verified]), (true, "2 artifact(s) verified against content".to_string()));
    assert_eq!(
        artifacts_outcome(&vec![ArtifactCheck::Missing("a1".into()), ArtifactCheck::Verified, ArtifactCheck::Failed("a2".into(), "io".into())]),
        (false, "artifact a1 is recorded but its content is missing; artifact a2: io".to_string())
    );
}

#[test]
fn calendar_event_metadata_records_times_and_ids() {
    let m = event_metadata("primary", "ev1", (1705305600, 0), (1705309200, 0), None, Some("https://cal/e".to_string())).unwrap();
    let expected: Vec<(String, String)> = vec![
        ("event_start_at".into(), "2024-01-15T08:00:00+00:00".into()),
        ("event_end_at".into(), "2024-01-15T09:00:00+00:00".into()),
        ("google_calendar_event_id".into(), "ev1".into()),
        ("google_calendar_calendar_id".into(), "primary".into()),
        ("google_calendar_html_link".into(), "https://cal/e".into()),
    ];
    assert_eq!(m, expected);
    assert_eq!(calendar_event_tags(), vec!["calendar", "google-calendar"]);
    assert_eq!(event_metadata("c", "e", (i64::MAX, 0), (0, 0), None, None), None);
}

#[test]
fn run_lifecycle_records_start_once_and_end_on_terminal() {
    let fresh: RunLifecycle<u8> = RunLifecycle { started_at: None, ended_at: None, failure_class: None };
    let running = transition_lifecycle(fresh, true, false, None, 100);
    assert_eq!((running.started_at, running.ended_at, running.failure_class), (Some(100), None, None));
    let again = transition_lifecycle(running, true, false, None, 200);
    assert_eq!(again.started_at, Some(100));
    let failed = transition_lifecycle(again, false, true, Some(3u8), 300);
    assert_eq!((failed.started_at, failed.ended_at, failed.failure_class), (Some(100), Some(300), Some(3)));
    let kept = transition_lifecycle(failed, false, true, None, 400);
    assert_eq!((kept.ended_at, kept.failure_class), (Some(400), Some(3)));
}

#[test]
fn closed_runs_record_no_artifacts() {
    assert!(check_artifact_recordable(false, "running").is_ok());
    assert!(matches!(
        check_artifact_recordable(true, "completed"),
        Err(EngineError::Conflict(m)) if m == "run is completed and cannot record further artifacts"
    ));
}

#[test]
fn successive_starts_number_attempts_up_to_the_ceiling() {
    let mut runs = Vec::new();
    let first = next_run_attempt(false, "admitted", &runs, 7, 2).ok();
    assert_eq!(first, Some(1));
    runs.push(run(100, 7, 1, false));
    let second = next_run_attempt(false, "admitted", &runs, 7, 2).ok();
    assert_eq!(second, Some(2));
    runs.push(run(101, 7, 2, false));
    assert!(matches!(next_run_attempt(false, "admitted", &runs, 7, 2), Err(EngineError::Conflict(_))));
}
