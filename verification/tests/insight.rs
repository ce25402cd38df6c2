use mv_engine::insight::{
    any_linked, cluster_examples, cluster_report, dbscan, fresh_insights, has_shared_tag, insight_signature,
    sort_texts, suggested_tag, unlinked_cluster_insight, unlinked_cluster_reports, unlinked_clusters, ClusterNode,
};

fn cosine(a: &[f32], b: &[f32]) -> f64 {
    if a.len() != b.len() || a.is_empty() {
        return 0.0;
    }
    let (mut dot, mut na, mut nb) = (0.0f64, 0.0f64, 0.0f64);
    for (x, y) in a.iter().zip(b.iter()) {
        let (x, y) = (*x as f64, *y as f64);
        dot += x * y;
        na += x * x;
        nb += y * y;
    }
    let denom = na.sqrt() * nb.sqrt();
    if denom < 1e-12 {
        0.0
    } else {
        dot / denom
    }
}

fn neighbour_lists(embeddings: &[Vec<f32>], eps: f64) -> Vec<Vec<usize>> {
    (0..embeddings.len())
        .map(|p| {
            (0..embeddings.len())
                .filter(|&i| cosine(&embeddings[p], &embeddings[i]) >= eps)
                .collect()
        })
        .collect()
}

#[test]
fn dbscan_basic_clusters() {
    let embeddings = vec![
        vec![1.0, 0.0, 0.0],
        vec![0.99, 0.1, 0.0],
        vec![0.98, 0.0, 0.1],
        vec![0.0, 1.0, 0.0],
        vec![0.1, 0.99, 0.0],
        vec![0.0, 0.98, 0.1],
    ];
    let clusters = dbscan(&neighbour_lists(&embeddings, 0.95), 2);
    assert_eq!(clusters.len(), 2);
}

#[test]
fn dbscan_no_clusters_when_spread() {
    let embeddings = vec![vec![1.0, 0.0, 0.0], vec![0.0, 1.0, 0.0], vec![0.0, 0.0, 1.0]];
    let clusters = dbscan(&neighbour_lists(&embeddings, 0.95), 2);
    assert!(clusters.is_empty());
}

#[test]
fn dbscan_single_cluster() {
    let embeddings = vec![vec![1.0, 0.1, 0.0], vec![1.0, 0.0, 0.1], vec![0.9, 0.1, 0.1]];
    let clusters = dbscan(&neighbour_lists(&embeddings, 0.90), 2);
    assert_eq!(clusters.len(), 1);
    assert_eq!(clusters[0].len(), 3);
}

#[test]
fn dbscan_border_point_joins_first_cluster_and_noise_is_dropped() {
    // 0 and 1 are core points of one cluster, 2 is a border point of it,
    // 3 is noise.
    let neighbors = vec![vec![0, 1], vec![0, 1, 2], vec![2], vec![3]];
    let clusters = dbscan(&neighbors, 2);
    assert_eq!(clusters, vec![vec![0, 1, 2]]);
    let two = vec![vec![0, 1], vec![0, 1], vec![2, 3], vec![2, 3]];
    assert_eq!(dbscan(&two, 2), vec![vec![0, 1], vec![2, 3]]);
}

#[test]
fn any_linked_checks_later_nodes_only() {
    let ids = vec![10u128, 20, 30];
    assert!(!any_linked(&ids, &vec![vec![], vec![99], vec![10]]));
    assert!(any_linked(&ids, &vec![vec![30], vec![], vec![]]));
    assert!(any_linked(&ids, &vec![vec![], vec![30], vec![]]));
}

#[test]
fn shared_tags_need_two_nodes() {
    let s = |v: &[&str]| v.iter().map(|t| t.to_string()).collect::<Vec<String>>();
    assert!(!has_shared_tag(&vec![s(&["a", "a"]), s(&["b"])]));
    assert!(has_shared_tag(&vec![s(&["a"]), s(&["c"]), s(&["b", "a"])]));
    assert!(!has_shared_tag(&vec![]));
}

#[test]
fn suggested_tag_is_most_frequent_or_fallback() {
    let s = |v: &[&str]| v.iter().map(|t| t.to_string()).collect::<Vec<String>>();
    assert_eq!(suggested_tag(&vec![s(&[]), s(&[])]), "untagged-cluster");
    assert_eq!(suggested_tag(&vec![s(&["x", "y", "y"]), s(&["z"])]), "y");
}

#[test]
fn examples_name_titles_of_first_three_nodes() {
    let t = |v: &[Option<&str>]| v.iter().map(|x| x.map(|s| s.to_string())).collect::<Vec<Option<String>>>();
    assert_eq!(cluster_examples(&t(&[Some("A"), None, Some("B"), Some("C")])), "A, B");
    assert_eq!(cluster_examples(&t(&[None, None])), "untitled nodes");
}

#[test]
fn unlinked_cluster_insight_text() {
    let s = |v: &[&str]| v.iter().map(|t| t.to_string()).collect::<Vec<String>>();
    let tags = vec![s(&["rust"]), s(&["go"]), s(&[])];
    let titles = vec![Some("One".to_string()), Some("Two".to_string()), None];
    let insight = unlinked_cluster_insight(&tags, &titles, false).expect("unlinked");
    assert_eq!(insight.title, "Unlinked cluster of 3 nodes");
    assert!(insight.suggested_tag == "rust" || insight.suggested_tag == "go");
    assert_eq!(
        insight.content,
        format!(
            "3 semantically similar nodes have no shared tags or links. Examples: One, Two. Suggested tag: '{}'.",
            insight.suggested_tag
        )
    );
    assert!(unlinked_cluster_insight(&tags, &titles, true).is_none());
    let shared = vec![s(&["rust"]), s(&["rust"])];
    assert!(unlinked_cluster_insight(&shared, &titles, false).is_none());
}

#[test]
fn signature_sorts_related_ids() {
    let ids = vec!["b".to_string(), "a".to_string(), "c".to_string(), "a".to_string()];
    assert_eq!(sort_texts(&ids), vec!["a", "a", "b", "c"]);
    assert_eq!(insight_signature("unlinked_cluster", "T", "C", &ids), "unlinked_cluster|T|C|a,a,b,c");
    assert_eq!(insight_signature("k", "", "", &vec![]), "k|||");
}

#[test]
fn fresh_insights_skip_known_and_repeated_signatures() {
    let existing = vec![("s1".to_string(), false), ("s2".to_string(), true)];
    let candidates = vec!["s1".to_string(), "s2".to_string(), "s3".to_string(), "s2".to_string()];
    assert_eq!(fresh_insights(&existing, &candidates), vec![false, true, true, false]);
}

#[test]
fn signature_ignores_id_order() {
    let a = vec!["x".to_string(), "y".to_string(), "z".to_string()];
    let b = vec!["z".to_string(), "x".to_string(), "y".to_string()];
    assert_eq!(insight_signature("t", "T", "C", &a), insight_signature("t", "T", "C", &b));
}

#[test]
fn dbscan_chains_neighbouring_core_points() {
    // 0-1-2-3 is a chain of core points; 4 is alone.
    let neighbors = vec![vec![0, 1], vec![0, 1, 2], vec![1, 2, 3], vec![2, 3], vec![4]];
    assert_eq!(dbscan(&neighbors, 2), vec![vec![0, 1, 2, 3]]);
}

fn cluster_node(id: u128, tags: &[&str], title: Option<&str>, graph_neighbors: &[u128]) -> ClusterNode {
    ClusterNode {
        id,
        tags: tags.iter().map(|t| t.to_string()).collect(),
        title: title.map(|t| t.to_string()),
        graph_neighbors: graph_neighbors.to_vec(),
    }
}

#[test]
fn cluster_report_needs_no_shared_tag_and_no_link() {
    let nodes = vec![
        cluster_node(10, &["rust"], Some("A"), &[13]),
        cluster_node(11, &["go"], Some("B"), &[]),
        cluster_node(12, &["rust"], None, &[]),
        cluster_node(13, &[], Some("D"), &[]),
    ];
    let r = cluster_report(&nodes, &vec![0, 1]).expect("unlinked");
    assert_eq!(r.related_nodes, vec![10, 11]);
    assert_eq!(r.insight.title, "Unlinked cluster of 2 nodes");
    assert!(r.insight.suggested_tag == "rust" || r.insight.suggested_tag == "go");
    assert!(cluster_report(&nodes, &vec![0, 2]).is_none());
    assert!(cluster_report(&nodes, &vec![0, 3]).is_none());
    let reports = unlinked_cluster_reports(&nodes, &vec![vec![0, 2], vec![1, 3], vec![0, 3]]);
    assert_eq!(reports.len(), 1);
    assert_eq!(reports[0].related_nodes, vec![11, 13]);
    assert_eq!(reports[0].insight.suggested_tag, "go");
}

#[test]
fn unlinked_clusters_checks_sizes_then_clusters() {
    let nodes = vec![
        cluster_node(1, &["a"], Some("One"), &[]),
        cluster_node(2, &["b"], Some("Two"), &[]),
        cluster_node(3, &[], None, &[]),
    ];
    let close: Vec<Vec<usize>> = vec![vec![0, 1], vec![0, 1], vec![2]];
    let reports = unlinked_clusters(&nodes, &close, 2);
    assert_eq!(reports.len(), 1);
    assert_eq!(reports[0].related_nodes, vec![1, 2]);
    assert_eq!(
        reports[0].insight.content,
        format!(
            "2 semantically similar nodes have no shared tags or links. Examples: One, Two. Suggested tag: '{}'.",
            reports[0].insight.suggested_tag
        )
    );
    assert!(unlinked_clusters(&nodes, &close, 4).is_empty());
    assert!(unlinked_clusters(&nodes, &vec![vec![0, 1], vec![0, 1]], 2).is_empty());
}

#[test]
fn dbscan_border_point_joins_the_first_cluster_that_reaches_it() {
    let nb: Vec<Vec<usize>> = vec![vec![0, 2], vec![1, 2], vec![2], vec![3]];
    assert_eq!(dbscan(&nb, 2), vec![vec![0, 2], vec![1]]);
    let later: Vec<Vec<usize>> = vec![vec![0], vec![1, 3], vec![2, 3], vec![3]];
    assert_eq!(dbscan(&later, 2), vec![vec![1, 3], vec![2]]);
}
