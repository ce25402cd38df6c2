use mv_engine::error::EngineError;
use mv_engine::node::NodeKind;
use mv_engine::obsidian::{Frontmatter, FrontmatterValue};
use mv_engine::workspace_projection::{
    needs_full_link_refresh, parent_path, plan_document, projection_fields, projection_preconditions,
    projection_source, projection_title, projection_version, reconcile_tick, DocumentPlan,
    RecoveryOutcome, WorkspaceProjectionOutcome,
};

#[test]
fn projection_title_prefers_frontmatter_then_heading_then_filename() {
    let mut properties = Frontmatter::new();
    properties.insert("title".to_string(), FrontmatterValue::Text("Frontmatter title".into()));
    assert_eq!(
        projection_title(&properties, "# Heading", "Folder/File.md"),
        "Frontmatter title"
    );
    assert_eq!(
        projection_title(&Frontmatter::new(), "# Heading", "Folder/File.md"),
        "Heading"
    );
    assert_eq!(
        projection_title(&Frontmatter::new(), "Body", "Folder/File.markdown"),
        "File"
    );
}

#[test]
fn projection_title_skips_blank_title_and_empty_heading() {
    let mut properties = Frontmatter::new();
    properties.insert("title".to_string(), FrontmatterValue::Text("   ".into()));
    assert_eq!(projection_title(&properties, "#   \n# Real ", "a.md"), "Real");
    assert_eq!(projection_title(&Frontmatter::new(), "##Not\ntext", "notes.md.md"), "notes");
}

#[test]
fn projection_source_urlencodes_the_path() {
    assert_eq!(
        projection_source("w1", "Folder/My Note (1).md"),
        "mindvault-workspace://w1/Folder%2FMy+Note+%281%29.md"
    );
}

#[test]
fn parent_path_is_text_before_last_slash() {
    assert_eq!(parent_path("a/b/c.md"), Some("a/b".to_string()));
    assert_eq!(parent_path("c.md"), None);
}

#[test]
fn projection_version_caps_at_u32_max() {
    assert_eq!(projection_version(7), 7);
    assert_eq!(projection_version(-1), u32::MAX);
    assert_eq!(projection_version(5_000_000_000), u32::MAX);
}

#[test]
fn projection_preconditions_check_in_order() {
    match projection_preconditions(false, Ok(None), None, true) {
        Err(EngineError::InvalidInput(m)) => assert_eq!(m, "only active UTF-8 documents can be projected"),
        _ => panic!("expected refusal"),
    }
    match projection_preconditions(true, Ok(Some("h1".into())), Some("h2".into()), true) {
        Err(EngineError::CanonicalSourceConflict(m)) => {
            assert_eq!(m, "canonical content changed after manifest reconciliation")
        }
        _ => panic!("expected conflict"),
    }
    match projection_preconditions(true, Ok(Some("h1".into())), Some("h1".into()), false) {
        Err(EngineError::InvalidInput(m)) => assert_eq!(m, "active workspace document has no UTF-8 content"),
        _ => panic!("expected refusal"),
    }
    match projection_preconditions(true, Ok(None), None, true) {
        Err(EngineError::Internal(m)) => assert_eq!(m, "active workspace document has no content hash"),
        _ => panic!("expected internal error"),
    }
    match projection_preconditions(true, Ok(Some("h1".into())), Some("h1".into()), true) {
        Ok(h) => assert_eq!(h, "h1"),
        _ => panic!("expected success"),
    }
}

#[test]
fn projection_fields_from_frontmatter() {
    let f = projection_fields("ws", "a/b.md", "---\ntype: task\ntags: x, y\n---\n# T\nbody");
    assert_eq!(f.kind, NodeKind::Task);
    assert_eq!(f.title, "T");
    assert_eq!(f.tags, vec!["x", "y"]);
    assert_eq!(f.source, "mindvault-workspace://ws/a%2Fb.md");
    assert_eq!(f.parent_path, Some("a".to_string()));
}

#[test]
fn document_plan_and_link_refresh() {
    assert_eq!(plan_document(false, true, true), DocumentPlan::RemoveInactive);
    assert_eq!(plan_document(true, false, true), DocumentPlan::Unchanged);
    assert_eq!(plan_document(true, true, true), DocumentPlan::Project);
    assert_eq!(plan_document(true, false, false), DocumentPlan::Project);
    assert!(needs_full_link_refresh(true, &vec![]));
    assert!(needs_full_link_refresh(false, &vec![(false, false), (true, false)]));
    assert!(!needs_full_link_refresh(false, &vec![(false, false), (true, true)]));
}

#[test]
fn outcome_moves_unchanged_link_failure_to_failed() {
    let mut o = WorkspaceProjectionOutcome::new();
    o.record_unchanged();
    o.record_link_failure_of_unchanged();
    assert_eq!(o.unchanged_documents, 0);
    assert_eq!(o.attempted_documents, 1);
    assert_eq!(o.failed_documents, 1);
    o.record_link_failure_of_unchanged();
    assert_eq!(o.unchanged_documents, 0);
    o.record_inactive(true, true);
    o.record_inactive(false, false);
    assert_eq!(o.removed_documents, 1);
    assert_eq!(o.unchanged_documents, 1);
}

#[test]
fn reconcile_tick_counts_every_event() {
    let t = reconcile_tick(&vec![
        RecoveryOutcome::Projected,
        RecoveryOutcome::NoNodeId,
        RecoveryOutcome::NodeMissing,
        RecoveryOutcome::Failed,
        RecoveryOutcome::Projected,
    ]);
    assert_eq!(t.examined, 5);
    assert_eq!(t.projected, 2);
    assert_eq!(t.errors, 3);
}
