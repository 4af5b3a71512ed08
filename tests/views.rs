use api_crawler::config::CrawlerConfig;
use api_crawler::hierarchy::hierarchical_view;
use api_crawler::json::Json;
use api_crawler::result::CrawlResult;
use api_crawler::tree::{build_tree, dedup_endpoints, ApiTree};
use api_crawler::types::ApiEndpoint;

const BASE: &str = "http://qx-022160:8080/api/v1";

fn child(path: &str, rel: &str, parent: &str, depth: usize) -> ApiEndpoint {
    ApiEndpoint::new(format!("{}{}", BASE, path), depth)
        .with_rel(Some(rel.to_string()))
        .with_parent(Some(format!("{}{}", BASE, parent)))
}

fn create_clean_test_structure() -> CrawlResult {
    let config = CrawlerConfig::default();
    let mut result = CrawlResult::new(BASE.to_string(), &config);
    result.add_endpoint(child("/generation", "generation", "", 1));
    result.add_endpoint(child("/audio", "audio", "", 1));
    result.add_endpoint(child("/analyser", "analyser", "", 1));
    result.add_endpoint(child("/generation/text-to-speech", "text-to-speech", "/generation", 2));
    result.add_endpoint(child("/generation/speech-enhancement", "speech-enhancement", "/generation", 2));
    result.add_endpoint(child("/audio/upload", "upload", "/audio", 2));
    result.add_endpoint(child("/audio/process", "process", "/audio", 2));
    result.add_endpoint(child("/analyser/sentiment", "sentiment", "/analyser", 2));
    result.add_endpoint(child("/analyser/emotion", "emotion", "/analyser", 2));
    result.stats.urls_processed = 4;
    result.stats.successful_requests = 4;
    result.stats.max_depth_reached = 2;
    result.stats.total_time_ms = 1500;
    result.complete();
    result
}

fn name_of(tree: &ApiTree, i: usize) -> &str {
    tree.records[i].href.rsplit('/').next().unwrap()
}

#[test]
fn test_clean_structure_creation() {
    let result = create_clean_test_structure();

    assert_eq!(result.endpoints.len(), 9);
    assert_eq!(result.start_url, "http://qx-022160:8080/api/v1");

    let depth1_count = result.endpoints_at_depth(1).len();
    let depth2_count = result.endpoints_at_depth(2).len();

    assert_eq!(depth1_count, 3);
    assert_eq!(depth2_count, 6);
}

#[test]
fn test_parent_child_relationships() {
    let result = create_clean_test_structure();

    let generation_children = result.url_mapping("http://qx-022160:8080/api/v1/generation");
    assert!(generation_children.is_some());
    assert_eq!(generation_children.unwrap().len(), 2);

    let audio_children = result.url_mapping("http://qx-022160:8080/api/v1/audio");
    assert!(audio_children.is_some());
    assert_eq!(audio_children.unwrap().len(), 2);

    let analyser_children = result.url_mapping("http://qx-022160:8080/api/v1/analyser");
    assert!(analyser_children.is_some());
    assert_eq!(analyser_children.unwrap().len(), 2);
}

#[test]
fn tree_of_clean_structure() {
    let result = create_clean_test_structure();
    let tree = build_tree(&result.endpoints, &result.start_url);
    assert_eq!(tree.records.len(), 9);
    // No record has the start URL as href: the first shallowest one is the root.
    assert_eq!(tree.roots[0], 0);
    assert_eq!(name_of(&tree, 0), "generation");
    let kids: Vec<&str> = tree.children[0].iter().map(|&i| name_of(&tree, i)).collect();
    assert_eq!(kids, vec!["speech-enhancement", "text-to-speech"]);
    // Its siblings are not its children: they stand at the top level, each
    // with its own children.
    let tops: Vec<&str> = tree.roots.iter().map(|&i| name_of(&tree, i)).collect();
    assert_eq!(tops, vec!["generation", "audio", "analyser"]);
    let audio: Vec<&str> = tree.children[1].iter().map(|&i| name_of(&tree, i)).collect();
    assert_eq!(audio, vec!["process", "upload"]);
    let analyser: Vec<&str> = tree.children[2].iter().map(|&i| name_of(&tree, i)).collect();
    assert_eq!(analyser, vec!["emotion", "sentiment"]);
}

#[test]
fn tree_rooted_at_start_url_sorts_children_by_segment() {
    let mut result = CrawlResult::new("http://e.test".to_string(), &CrawlerConfig::default());
    result.add_endpoint(
        ApiEndpoint::new("http://e.test".to_string(), 0).with_rel(Some("self".to_string())),
    );
    for name in ["zeta", "alpha", "mid"] {
        result.add_endpoint(
            ApiEndpoint::new(format!("http://e.test/{}", name), 1)
                .with_parent(Some("http://e.test".to_string())),
        );
    }
    result.add_endpoint(
        ApiEndpoint::new("http://e.test/alpha/1".to_string(), 2)
            .with_parent(Some("http://e.test/alpha".to_string())),
    );
    let tree = build_tree(&result.endpoints, &result.start_url);
    assert_eq!(tree.roots, vec![0]);
    let kids: Vec<&str> = tree.children[0].iter().map(|&i| name_of(&tree, i)).collect();
    assert_eq!(kids, vec!["alpha", "mid", "zeta"]);
    assert_eq!(tree.children[2], vec![4]);
    assert!(tree.children[1].is_empty());
}

#[test]
fn dedup_prefers_richer_non_self_record() {
    let eps = vec![
        ApiEndpoint::new("/x".to_string(), 1).with_rel(Some("self".to_string())),
        ApiEndpoint::new("/x".to_string(), 1)
            .with_rel(Some("next".to_string()))
            .with_metadata("a".to_string(), Json::Number("1".to_string()))
            .with_metadata("b".to_string(), Json::Number("2".to_string())),
    ];
    let unique = dedup_endpoints(&eps);
    assert_eq!(unique.len(), 1);
    assert_eq!(unique[0].rel.as_deref(), Some("next"));
    assert_eq!(unique[0].metadata.len(), 2);
}

#[test]
fn dedup_tie_prefers_non_self_and_keeps_first_otherwise() {
    let eps = vec![
        ApiEndpoint::new("/y".to_string(), 1).with_rel(Some("self".to_string())),
        ApiEndpoint::new("/y".to_string(), 1).with_rel(Some("other".to_string())),
        ApiEndpoint::new("/y".to_string(), 1).with_rel(Some("late".to_string())),
        ApiEndpoint::new("/z".to_string(), 1),
    ];
    let unique = dedup_endpoints(&eps);
    assert_eq!(unique.len(), 2);
    assert_eq!(unique[0].rel.as_deref(), Some("other"));
    assert_eq!(unique[1].href, "/z");
}

#[test]
fn orphan_records_stand_at_the_top_level() {
    let eps = vec![
        ApiEndpoint::new("http://o.test".to_string(), 0),
        ApiEndpoint::new("http://o.test/a".to_string(), 1)
            .with_parent(Some("http://o.test".to_string())),
        ApiEndpoint::new("http://o.test/lost".to_string(), 1)
            .with_parent(Some("http://nowhere.test".to_string())),
    ];
    let tree = build_tree(&eps, "http://o.test");
    assert_eq!(tree.roots, vec![0, 2]);
    assert_eq!(tree.children[0], vec![1]);
    for list in &tree.children {
        assert!(!list.contains(&2));
    }
}

#[test]
fn tree_ignores_wrong_depth_and_cycles() {
    let eps = vec![
        ApiEndpoint::new("http://c.test".to_string(), 0),
        ApiEndpoint::new("http://c.test/a".to_string(), 1)
            .with_parent(Some("http://c.test/b".to_string())),
        ApiEndpoint::new("http://c.test/b".to_string(), 1)
            .with_parent(Some("http://c.test/a".to_string())),
        ApiEndpoint::new("http://c.test/deep".to_string(), 3)
            .with_parent(Some("http://c.test".to_string())),
    ];
    let tree = build_tree(&eps, "http://c.test");
    assert_eq!(tree.roots, vec![0, 1, 2, 3]);
    assert!(tree.children.iter().all(|c| c.is_empty()));
}

#[test]
fn empty_result_has_empty_tree() {
    let tree = build_tree(&Vec::new(), "http://e.test");
    assert!(tree.roots.is_empty());
    assert!(tree.records.is_empty());
}

#[test]
fn hierarchical_counts_match_parent_index() {
    let result = create_clean_test_structure();
    let view = hierarchical_view(&result);
    assert_eq!(view.total_endpoints, 9);
    assert_eq!(view.unique_parents, 4);
    assert_eq!(view.discovered_domains, 1);
    assert_eq!(view.groups.len(), 4);
    for (parent, list) in &view.groups {
        assert_eq!(result.url_mapping(parent).unwrap().len(), list.len());
    }
}

#[test]
fn hierarchical_view_files_parentless_endpoints_under_start() {
    let mut result = CrawlResult::new("http://s.test".to_string(), &CrawlerConfig::default());
    result.add_endpoint(ApiEndpoint::new("http://s.test/a".to_string(), 1));
    result.add_endpoint(
        ApiEndpoint::new("http://s.test/b".to_string(), 1).with_parent(Some("http://p.test".to_string())),
    );
    let view = hierarchical_view(&result);
    assert_eq!(view.groups.len(), 2);
    assert_eq!(view.groups[0].0, "http://s.test");
    assert_eq!(view.groups[1].0, "http://p.test");
    assert_eq!(view.unique_parents, 2);
    assert_eq!(result.url_mappings.len(), 1);
    assert_eq!(view.discovered_domains, 1);
}

#[test]
fn domains_and_depths() {
    let mut result = CrawlResult::new("http://d.test".to_string(), &CrawlerConfig::default());
    result.add_endpoint(ApiEndpoint::new("http://one.test/x".to_string(), 1));
    result.add_endpoint(ApiEndpoint::new("/relative".to_string(), 1));
    result.add_endpoint(ApiEndpoint::new("http://127.0.0.1/ip".to_string(), 2));
    result.add_endpoint(ApiEndpoint::new("http://two.test/y".to_string(), 2));
    result.add_endpoint(ApiEndpoint::new("https://one.test/z".to_string(), 2));
    assert_eq!(result.discovered_domains(), vec!["one.test".to_string(), "two.test".to_string()]);
    assert_eq!(result.endpoints_at_depth(2).len(), 3);
    assert!(result.url_mappings.is_empty());
}

#[test]
fn complete_derives_the_elapsed_time() {
    let mut result = CrawlResult::new("http://t.test".to_string(), &CrawlerConfig::default());
    result.started_at -= 250;
    result.complete();
    assert!(result.stats.total_time_ms >= 250);
    assert!(result.completed_at >= result.started_at);
}

#[test]
fn children_are_ordered_by_last_segment_not_full_href() {
    let eps = vec![
        ApiEndpoint::new("http://s.test".to_string(), 0),
        ApiEndpoint::new("http://s.test/b/zz".to_string(), 1).with_parent(Some("http://s.test".to_string())),
        ApiEndpoint::new("http://s.test/c/aa".to_string(), 1).with_parent(Some("http://s.test".to_string())),
        ApiEndpoint::new("http://s.test/a/zz".to_string(), 1).with_parent(Some("http://s.test".to_string())),
    ];
    let tree = build_tree(&eps, "http://s.test");
    // "aa" first; the two "zz" keep their order of position.
    assert_eq!(tree.children[0], vec![2, 1, 3]);
}

#[test]
fn summary_line() {
    let mut result = CrawlResult::new("http://m.test".to_string(), &CrawlerConfig::default());
    assert_eq!(result.summary(), "Crawled 0 URLs, found 0 endpoints across 0 domains in 0ms");
    result.add_endpoint(ApiEndpoint::new("http://m.test/a".to_string(), 1));
    result.add_endpoint(ApiEndpoint::new("http://n.test/b".to_string(), 1));
    result.stats.urls_processed = 12;
    result.stats.total_time_ms = 3405;
    assert_eq!(result.summary(), "Crawled 12 URLs, found 2 endpoints across 2 domains in 3405ms");
}

#[test]
fn single_parentless_endpoint_makes_one_group() {
    let mut result = CrawlResult::new("http://g.test".to_string(), &CrawlerConfig::default());
    result.add_endpoint(ApiEndpoint::new("http://g.test/a".to_string(), 1));
    let view = hierarchical_view(&result);
    assert_eq!(view.groups.len(), 1);
    assert_eq!(view.unique_parents, 1);
    let empty = CrawlResult::new("http://g.test".to_string(), &CrawlerConfig::default());
    let view = hierarchical_view(&empty);
    assert!(view.groups.is_empty());
    assert_eq!(view.unique_parents, 0);
}

#[test]
fn orphan_subtrees_keep_their_children() {
    let eps = vec![
        ApiEndpoint::new("http://o.test".to_string(), 0),
        ApiEndpoint::new("http://o.test/x/leaf".to_string(), 2)
            .with_parent(Some("http://o.test/x".to_string())),
        ApiEndpoint::new("http://o.test/x".to_string(), 1)
            .with_parent(Some("http://elsewhere.test".to_string())),
    ];
    let tree = build_tree(&eps, "http://o.test");
    assert_eq!(tree.roots, vec![0, 2]);
    assert_eq!(tree.children[2], vec![1]);
    assert!(tree.children[0].is_empty());
}
