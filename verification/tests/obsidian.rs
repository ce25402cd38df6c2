use mv_engine::node::NodeKind;
use mv_engine::obsidian::{
    determine_kind, extract_frontmatter_tags, folder_tags, folder_tags_from_parent, kind_for_type,
    note_stem, parse_frontmatter, Frontmatter, FrontmatterValue,
};
use mv_engine::wikilinks::{dedup_keep_first, extract_wikilinks, wikilink_targets};

fn text_of(v: Option<&FrontmatterValue>) -> String {
    match v {
        Some(FrontmatterValue::Text(s)) => s.clone(),
        _ => panic!("expected a text value"),
    }
}

fn list_of(v: Option<&FrontmatterValue>) -> Vec<String> {
    match v {
        Some(FrontmatterValue::List(items)) => items.clone(),
        _ => panic!("expected a list value"),
    }
}

fn bool_of(v: Option<&FrontmatterValue>) -> bool {
    match v {
        Some(FrontmatterValue::Bool(b)) => *b,
        _ => panic!("expected a boolean value"),
    }
}

#[test]
fn test_extract_wikilinks_simple() {
    let content = "Hello [[World]] and [[Another Note]]";
    let links = extract_wikilinks(content);
    assert_eq!(links, vec!["world", "another note"]);
}

#[test]
fn test_extract_wikilinks_with_display_text() {
    let content = "See [[Target Note|display text]] for details";
    let links = extract_wikilinks(content);
    assert_eq!(links, vec!["target note"]);
}

#[test]
fn test_extract_wikilinks_with_heading_anchor() {
    let content = "See [[Note#Section]] for heading link";
    let links = extract_wikilinks(content);
    assert_eq!(links, vec!["note"]);
}

#[test]
fn test_extract_wikilinks_dedup() {
    let content = "[[Note]] and [[note]] again";
    let links = extract_wikilinks(content);
    assert_eq!(links, vec!["note"]);
}

#[test]
fn test_extract_wikilinks_empty_and_nested() {
    let content = "[[]] and [[ ]] and normal text";
    let links = extract_wikilinks(content);
    assert!(links.is_empty());
}

#[test]
fn extracted_wikilinks_of_ascii_text_are_already_lowercase() {
    let content = "[[MiXeD Case]] then [[UPPER|Shown]] and [[Deep#Anchor]]";
    let links = extract_wikilinks(content);
    assert_eq!(links, vec!["mixed case", "upper", "deep"]);
    for link in &links {
        assert_eq!(link.to_ascii_lowercase(), *link);
    }
}

#[test]
fn test_parse_frontmatter_basic() {
    let content =
        "---\ntitle: My Note\ntags: [tag1, tag2]\ndate: 2024-01-15\n---\nBody content here.";
    let (fm, body) = parse_frontmatter(content);
    assert_eq!(text_of(fm.get("title")), "My Note");
    assert_eq!(list_of(fm.get("tags")).len(), 2);
    assert_eq!(body, "Body content here.");
}

#[test]
fn test_parse_frontmatter_multiline_tags() {
    let content = "---\ntags:\n- alpha\n- beta\n---\nContent";
    let (fm, body) = parse_frontmatter(content);
    let tags = list_of(fm.get("tags"));
    assert_eq!(tags.len(), 2);
    assert_eq!(tags[0], "alpha");
    assert_eq!(tags[1], "beta");
    assert_eq!(body, "Content");
}

#[test]
fn test_parse_frontmatter_no_frontmatter() {
    let content = "Just regular content\nwith no frontmatter";
    let (fm, body) = parse_frontmatter(content);
    assert!(fm.is_empty());
    assert_eq!(body, content);
}

#[test]
fn test_folder_tags() {
    let tags = folder_tags("projects/foo/note.md");
    assert_eq!(tags, vec!["folder:projects", "folder:projects/foo"]);
}

#[test]
fn test_folder_tags_root_file() {
    let tags = folder_tags("note.md");
    assert!(tags.is_empty());
}

#[test]
fn test_folder_tags_deep() {
    let tags = folder_tags("a/b/c/d.md");
    assert_eq!(tags, vec!["folder:a", "folder:a/b", "folder:a/b/c"]);
}

#[test]
fn test_determine_kind_task() {
    let mut fm = Frontmatter::new();
    fm.insert("type".into(), FrontmatterValue::Text("task".into()));
    assert_eq!(determine_kind(&fm), NodeKind::Task);
}

#[test]
fn test_determine_kind_todo() {
    let mut fm = Frontmatter::new();
    fm.insert("type".into(), FrontmatterValue::Text("todo".into()));
    assert_eq!(determine_kind(&fm), NodeKind::Task);
}

#[test]
fn test_determine_kind_event_from_date() {
    let mut fm = Frontmatter::new();
    fm.insert("date".into(), FrontmatterValue::Text("2024-01-15".into()));
    assert_eq!(determine_kind(&fm), NodeKind::Event);
}

#[test]
fn test_determine_kind_default_fact() {
    let fm = Frontmatter::new();
    assert_eq!(determine_kind(&fm), NodeKind::Fact);
}

#[test]
fn test_note_stem() {
    assert_eq!(note_stem("projects/foo/My Note.md"), "my note");
    assert_eq!(note_stem("note.md"), "note");
}

#[test]
fn test_extract_frontmatter_tags_string() {
    let mut fm = Frontmatter::new();
    fm.insert("tags".into(), FrontmatterValue::Text("alpha, beta, gamma".into()));
    let tags = extract_frontmatter_tags(&fm);
    assert_eq!(tags, vec!["alpha", "beta", "gamma"]);
}

#[test]
fn test_parse_frontmatter_boolean_values() {
    let content = "---\ndraft: true\npublished: false\n---\nBody";
    let (fm, _body) = parse_frontmatter(content);
    assert!(bool_of(fm.get("draft")));
    assert!(!bool_of(fm.get("published")));
}

#[test]
fn frontmatter_reads_numbers_as_written_and_quoted_text() {
    let content = "---\npriority: 2.5\nname: \"Quoted\"\nlist: ['a', \"b\", , c]\n---\n\n  Body  \n";
    let (fm, body) = parse_frontmatter(content);
    match fm.get("priority") {
        Some(FrontmatterValue::Number(n)) => assert_eq!(n, "2.5"),
        _ => panic!("expected a number"),
    }
    assert_eq!(text_of(fm.get("name")), "Quoted");
    assert_eq!(list_of(fm.get("list")), vec!["a", "b", "c"]);
    assert_eq!(body, "Body");
}

#[test]
fn frontmatter_later_key_overrides_earlier() {
    let (fm, _) = parse_frontmatter("---\nk: one\nk: two\n---\nx");
    assert_eq!(text_of(fm.get("k")), "two");
}

#[test]
fn frontmatter_empty_multiline_list_is_dropped() {
    let (fm, _) = parse_frontmatter("---\ntags:\nother: x\n---\nbody");
    assert!(fm.get("tags").is_none());
    assert_eq!(text_of(fm.get("other")), "x");
}

#[test]
fn frontmatter_unclosed_block_keeps_content() {
    let content = "---\ntitle: x\nno closing marker";
    let (fm, body) = parse_frontmatter(content);
    assert!(fm.is_empty());
    assert_eq!(body, content);
}

#[test]
fn kind_for_type_names_each_kind() {
    assert_eq!(kind_for_type("event"), Some(NodeKind::Event));
    assert_eq!(kind_for_type("project"), Some(NodeKind::Project));
    assert_eq!(kind_for_type("decision"), Some(NodeKind::Decision));
    assert_eq!(kind_for_type("procedure"), Some(NodeKind::Procedure));
    assert_eq!(kind_for_type("Task"), None);
    assert_eq!(kind_for_type("note"), None);
}

#[test]
fn determine_kind_lowercases_type_and_prefers_it_to_date() {
    let mut fm = Frontmatter::new();
    fm.insert("type".into(), FrontmatterValue::Text("PROJECT".into()));
    fm.insert("date".into(), FrontmatterValue::Text("2024-01-15".into()));
    assert_eq!(determine_kind(&fm), NodeKind::Project);
    let mut other = Frontmatter::new();
    other.insert("type".into(), FrontmatterValue::Text("journal".into()));
    other.insert("date".into(), FrontmatterValue::Text("2024-01-15".into()));
    assert_eq!(determine_kind(&other), NodeKind::Event);
}

#[test]
fn frontmatter_tags_from_list_are_trimmed() {
    let mut fm = Frontmatter::new();
    fm.insert("tags".into(), FrontmatterValue::List(vec![" a ".into(), "".into(), "b".into()]));
    assert_eq!(extract_frontmatter_tags(&fm), vec!["a", "b"]);
    let mut num = Frontmatter::new();
    num.insert("tags".into(), FrontmatterValue::Number("3".into()));
    assert!(extract_frontmatter_tags(&num).is_empty());
}

#[test]
fn folder_tags_join_components() {
    let tags = folder_tags_from_parent(Some(vec!["x".into(), "y".into()]));
    assert_eq!(tags, vec!["folder:x", "folder:x/y"]);
    assert!(folder_tags_from_parent(None).is_empty());
}

#[test]
fn wikilink_scan_stops_at_unclosed_link() {
    assert_eq!(wikilink_targets("[[a]] [[b"), vec!["a"]);
    assert_eq!(wikilink_targets("[[ Keep Case |x]]"), vec!["Keep Case"]);
    assert_eq!(wikilink_targets("[[#only]]"), vec!["#only"]);
}

#[test]
fn dedup_keeps_first_occurrence_order() {
    let v: Vec<String> = vec!["b".into(), "a".into(), "b".into(), "c".into(), "a".into()];
    assert_eq!(dedup_keep_first(&v), vec!["b", "a", "c"]);
}

#[test]
fn frontmatter_non_finite_numbers_are_null() {
    let content = "---\na: nan\nb: -inf\nc: Infinity\nd: 1e999\ne: 179769313486231580793728971405303415079934132710037826936173778980444968292764750946649017977587207096330286416692887910946555547851940402630657488671505820681908902000708383676273854845817711531764475730270069855571366959622842914819860834936475292719074168444365510704342711559699508093042880177904174497792\nf: 179769313486231580793728971405303415079934132710037826936173778980444968292764750946649017977587207096330286416692887910946555547851940402630657488671505820681908902000708383676273854845817711531764475730270069855571366959622842914819860834936475292719074168444365510704342711559699508093042880177904174497791\ng: 1.7976931348623157e308\nh: 0.000e99999999999999999999999999\ni: 1e-999\n---\nbody";
    let (fm, _body) = parse_frontmatter(content);
    for key in ["a", "b", "c", "d", "e"] {
        assert!(matches!(fm.get(key), Some(FrontmatterValue::Null)), "{key} should be null");
    }
    for key in ["f", "g", "h", "i"] {
        assert!(matches!(fm.get(key), Some(FrontmatterValue::Number(_))), "{key} should be a number");
    }
}

#[test]
fn plain_paths_give_folder_tags_and_stems() {
    assert_eq!(folder_tags("projects/foo/note.md"), vec!["folder:projects", "folder:projects/foo"]);
    assert!(folder_tags("note.md").is_empty());
    assert_eq!(note_stem("Projects/My.Note.md"), "my.note");
    assert_eq!(note_stem("Archive/.hidden"), ".hidden");
}
