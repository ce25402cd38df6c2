use mv_engine::node::NodeKind;
use mv_engine::obsidian::FrontmatterValue;
use mv_engine::vault_import::{
    build_imported_note, dry_run_relationships, import_action, resolve_links, sorted_distinct, ImportAction,
    ImportStats,
};

fn text_of(v: Option<&FrontmatterValue>) -> String {
    match v {
        Some(FrontmatterValue::Text(s)) => s.clone(),
        _ => panic!("expected a text value"),
    }
}

#[test]
fn imported_note_collects_kind_title_tags_and_links() {
    let raw = "---\ntitle: Plan\ntype: Project\ntags: [work, Zeta]\naliases: [p]\nowner: me\n---\nSee [[Other Note]] and [[Plan]].";
    let note = build_imported_note("projects/q1/plan.md", raw, "vault", "2024-01-01T00:00:00+00:00");
    assert_eq!(note.kind, NodeKind::Project);
    assert_eq!(note.title, "Plan");
    assert_eq!(note.content, "See [[Other Note]] and [[Plan]].");
    assert_eq!(note.source, "obsidian://projects/q1/plan.md");
    assert_eq!(note.namespace, "vault");
    assert_eq!(
        note.tags,
        vec!["Zeta", "folder:projects", "folder:projects/q1", "obsidian", "work"]
    );
    assert_eq!(note.wikilinks, vec!["other note", "plan"]);
    assert_eq!(text_of(note.metadata.get("import_mtime")), "2024-01-01T00:00:00+00:00");
    assert_eq!(text_of(note.metadata.get("import_source_path")), "projects/q1/plan.md");
    assert_eq!(text_of(note.metadata.get("owner")), "me");
    assert!(note.metadata.get("aliases").is_some());
    assert!(note.metadata.get("title").is_none());
    assert!(note.metadata.get("type").is_none());
}

#[test]
fn imported_note_title_falls_back_to_file_stem() {
    let note = build_imported_note("daily/2024-01-15.md", "no frontmatter", "ns", "");
    assert_eq!(note.title, "2024-01-15");
    assert_eq!(note.kind, NodeKind::Fact);
    assert_eq!(note.tags, vec!["folder:daily", "obsidian"]);
}

#[test]
fn sorted_distinct_sorts_and_drops_repeats() {
    let v: Vec<String> = vec!["b".into(), "a".into(), "b".into(), "obsidian".into(), "A".into()];
    assert_eq!(sorted_distinct(&v), vec!["A", "a", "b", "obsidian"]);
}

#[test]
fn import_action_compares_modification_times() {
    assert_eq!(import_action(None, "t1"), ImportAction::Create);
    assert_eq!(import_action(Some("t1"), "t1"), ImportAction::Skip);
    assert_eq!(import_action(Some(""), "t1"), ImportAction::Update);
}

#[test]
fn import_stats_summary_line() {
    let mut stats = ImportStats::new();
    stats.files_scanned = 4;
    stats.record(ImportAction::Create);
    stats.record(ImportAction::Create);
    stats.record(ImportAction::Skip);
    stats.relationships_created = 3;
    stats.errors.push("x".into());
    assert_eq!(
        stats.summary_line(),
        "scanned=4, created=2, updated=0, skipped=1, relationships=3, errors=1"
    );
}

#[test]
fn resolve_links_skips_self_and_unknown_targets() {
    let index: Vec<(String, u128)> = vec![("a".into(), 1), ("b".into(), 2), ("a".into(), 3)];
    let links: Vec<String> = vec!["A".into(), "b".into(), "missing".into(), "a".into()];
    let out = resolve_links(2, &links, &index);
    assert_eq!(out, vec![(3, "A".to_string()), (3, "a".to_string())]);
}

#[test]
fn import_stats_count_scans_relationships_and_errors() {
    let mut stats = ImportStats::new();
    stats.record_scanned();
    stats.record_scanned();
    stats.record_relationships(3);
    stats.record_relationships(2);
    stats.record_error("create notes/a.md: boom".to_string());
    stats.record_error("link notes/a.md -> b: gone".to_string());
    assert_eq!(stats.files_scanned, 2);
    assert_eq!(stats.relationships_created, 5);
    assert_eq!(stats.errors, vec!["create notes/a.md: boom", "link notes/a.md -> b: gone"]);
    assert_eq!(stats.nodes_created, 0);
    stats.relationships_created = usize::MAX - 1;
    stats.record_relationships(5);
    assert_eq!(stats.relationships_created, usize::MAX);
}

#[test]
fn dry_run_counts_one_relationship_per_wikilink() {
    let a = build_imported_note("a.md", "See [[B]] and [[C]] and [[b]]", "default", "1");
    let b = build_imported_note("b.md", "Back to [[A]]", "default", "1");
    let c = build_imported_note("c.md", "No links", "default", "1");
    assert_eq!(dry_run_relationships(&vec![a, b, c]), 3);
    assert_eq!(dry_run_relationships(&Vec::new()), 0);
}
