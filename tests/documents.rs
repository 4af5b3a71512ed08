use api_crawler::config::CrawlerConfig;
use api_crawler::document::{endpoint_document, hierarchy_document, result_document, tree_document};
use api_crawler::hierarchy::hierarchical_view;
use api_crawler::json::Json;
use api_crawler::output::{Layout, OutputConfig, OutputFormat};
use api_crawler::result::CrawlResult;
use api_crawler::tree::build_tree;
use api_crawler::types::ApiEndpoint;

/// JSON text of a document, members written `"key": value`.
fn render(j: &Json) -> String {
    match j {
        Json::Null => "null".to_string(),
        Json::Bool(b) => b.to_string(),
        Json::Number(n) => n.clone(),
        Json::String(s) => format!("{:?}", s),
        Json::Array(items) => {
            format!("[{}]", items.iter().map(render).collect::<Vec<_>>().join(", "))
        }
        Json::Object(members) => format!(
            "{{{}}}",
            members
                .iter()
                .map(|(k, v)| format!("{:?}: {}", k, render(v)))
                .collect::<Vec<_>>()
                .join(", ")
        ),
    }
}

fn serialize_result(result: &CrawlResult, config: &OutputConfig) -> String {
    let doc = match config.layout() {
        Layout::Tree => {
            let tree = build_tree(&result.endpoints, &result.start_url);
            tree_document(&tree, result, config)
        }
        Layout::Hierarchical => hierarchy_document(&hierarchical_view(result), result, config),
        Layout::Flat => result_document(result, config),
    };
    render(&doc)
}

fn member<'a>(doc: &'a Json, key: &str) -> Option<&'a Json> {
    match doc {
        Json::Object(members) => members.iter().find(|(k, _)| k == key).map(|(_, v)| v),
        _ => None,
    }
}

#[test]
fn test_serialize_result() {
    let mut result = CrawlResult::new("http://example.com".to_string(), &CrawlerConfig::default());
    result.endpoints.push(ApiEndpoint::new("http://example.com/test".to_string(), 1));

    let config = OutputConfig::default();
    let json = serialize_result(&result, &config);

    assert!(json.contains("http://example.com"));
    assert!(json.contains("endpoints"));
}

#[test]
fn test_hierarchical_serialization() {
    let mut result = CrawlResult::new("http://example.com".to_string(), &CrawlerConfig::default());

    let endpoint1 = ApiEndpoint::new("http://example.com/users".to_string(), 1)
        .with_rel(Some("users".to_string()))
        .with_parent(Some("http://example.com".to_string()));
    let endpoint2 = ApiEndpoint::new("http://example.com/posts".to_string(), 1)
        .with_rel(Some("posts".to_string()))
        .with_parent(Some("http://example.com".to_string()));

    result.add_endpoint(endpoint1);
    result.add_endpoint(endpoint2);

    let config = OutputConfig {
        format: OutputFormat::Hierarchical,
        include_stats: true,
        include_config: false,
        hierarchical: true,
    };

    let json = serialize_result(&result, &config);
    assert!(json.contains("endpoint_hierarchy"));
    assert!(json.contains("http://example.com/users"));
    assert!(json.contains("http://example.com/posts"));
    assert!(json.contains("summary"));
}

#[test]
fn test_clean_output_omits_null_fields() {
    let mut result = CrawlResult::new("http://example.com".to_string(), &CrawlerConfig::default());
    let endpoint = ApiEndpoint::new("http://example.com/test".to_string(), 1)
        .with_rel(Some("test".to_string()))
        .with_parent(Some("http://example.com".to_string()));
    result.endpoints.push(endpoint);

    let config = OutputConfig {
        format: OutputFormat::PrettyJson,
        include_stats: true,
        include_config: false,
        hierarchical: false,
    };

    let json = serialize_result(&result, &config);

    assert!(json.contains("href"));
    assert!(json.contains("rel"));
    assert!(json.contains("depth"));
    assert!(json.contains("parent_url"));

    assert!(!json.contains("method"));
    assert!(!json.contains("type"));
    assert!(!json.contains("title"));
    assert!(!json.contains("metadata"));
    assert!(!json.contains("config_snapshot"));

    assert!(!json.contains("urls_processed"));
    assert!(!json.contains("successful_requests"));
    assert!(!json.contains("failed_requests"));
    assert!(!json.contains("urls_skipped"));
    assert!(!json.contains("max_depth_reached"));
    assert!(!json.contains("total_time_ms"));
    assert!(!json.contains("errors"));
}

#[test]
fn test_hierarchical_output_omits_null_fields() {
    let mut result = CrawlResult::new("http://example.com".to_string(), &CrawlerConfig::default());
    let endpoint = ApiEndpoint::new("http://example.com/test".to_string(), 1)
        .with_rel(Some("test".to_string()))
        .with_parent(Some("http://example.com".to_string()));
    result.endpoints.push(endpoint);

    let config = OutputConfig {
        format: OutputFormat::Hierarchical,
        include_stats: false,
        include_config: false,
        hierarchical: true,
    };

    let json = serialize_result(&result, &config);

    assert!(json.contains("href"));
    assert!(json.contains("rel"));
    assert!(json.contains("depth"));

    assert!(!json.contains("method"));
    assert!(!json.contains("type"));
    assert!(!json.contains("title"));
    assert!(!json.contains("metadata"));
    assert!(!json.contains("config_snapshot"));
    assert!(!json.contains("stats"));
}

#[test]
fn test_tree_format_serialization() {
    let mut result = CrawlResult::new("http://example.com".to_string(), &CrawlerConfig::default());

    let root_endpoint =
        ApiEndpoint::new("http://example.com".to_string(), 0).with_rel(Some("self".to_string()));
    let parent_endpoint = ApiEndpoint::new("http://example.com/users".to_string(), 1)
        .with_rel(Some("users".to_string()))
        .with_parent(Some("http://example.com".to_string()));
    let child_endpoint = ApiEndpoint::new("http://example.com/users/1".to_string(), 2)
        .with_rel(Some("user".to_string()))
        .with_parent(Some("http://example.com/users".to_string()));

    result.endpoints.push(root_endpoint);
    result.endpoints.push(parent_endpoint);
    result.endpoints.push(child_endpoint);

    let config = OutputConfig {
        format: OutputFormat::Tree,
        include_stats: false,
        include_config: false,
        hierarchical: false,
    };

    let json = serialize_result(&result, &config);
    assert!(json.contains("api_tree"));
    assert!(json.contains("api"));
    assert!(json.contains("children"));
    assert!(json.contains("http://example.com/users"));
    assert!(json.contains("\"name\":"));
    assert!(json.contains("\"url\":"));
    assert!(json.contains("\"rel\":"));
}

#[test]
fn endpoint_document_fields() {
    let e = ApiEndpoint::new("http://x.test/a".to_string(), 3)
        .with_rel(Some("next".to_string()))
        .with_parent(Some("http://x.test".to_string()))
        .with_metadata("k".to_string(), Json::Bool(true));
    let doc = endpoint_document(&e, true);
    assert_eq!(
        render(&doc),
        r#"{"href": "http://x.test/a", "rel": "next", "depth": 3, "parent_url": "http://x.test", "metadata": {"k": true}}"#
    );
    let doc = endpoint_document(&e, false);
    assert!(member(&doc, "parent_url").is_none());
}

#[test]
fn tree_document_nests_children_and_lists_detached_nodes() {
    let eps = vec![
        ApiEndpoint::new("http://t.test".to_string(), 0),
        ApiEndpoint::new("http://t.test/a".to_string(), 1).with_parent(Some("http://t.test".to_string())),
        ApiEndpoint::new("http://t.test/lost".to_string(), 1).with_parent(Some("http://gone.test".to_string())),
    ];
    let mut result = CrawlResult::new("http://t.test".to_string(), &CrawlerConfig::default());
    for e in eps {
        result.add_endpoint(e);
    }
    let config = OutputConfig {
        format: OutputFormat::Tree,
        include_stats: false,
        include_config: false,
        hierarchical: false,
    };
    let tree = build_tree(&result.endpoints, &result.start_url);
    let doc = tree_document(&tree, &result, &config);
    let root = member(&doc, "api_tree").unwrap();
    let api = member(root, "api").unwrap();
    assert!(matches!(member(api, "rel"), Some(Json::String(s)) if s == "self"));
    assert!(matches!(member(api, "name"), Some(Json::String(s)) if s == "t.test"));
    match member(root, "children") {
        Some(Json::Array(kids)) => assert_eq!(kids.len(), 1),
        _ => panic!("expected children"),
    }
    match member(&doc, "detached") {
        Some(Json::Array(nodes)) => {
            assert_eq!(nodes.len(), 1);
            let api = member(&nodes[0], "api").unwrap();
            assert!(matches!(member(api, "name"), Some(Json::String(s)) if s == "lost"));
            assert!(matches!(member(api, "rel"), Some(Json::String(s)) if s == "unknown"));
        }
        _ => panic!("expected a detached node"),
    }
    let summary = member(&doc, "summary").unwrap();
    assert!(matches!(member(summary, "total_endpoints"), Some(Json::Number(n)) if n == "3"));
    assert!(matches!(member(summary, "max_depth"), Some(Json::Number(n)) if n == "1"));
}

#[test]
fn stats_document_lists_errors() {
    let mut result = CrawlResult::new("http://e.test".to_string(), &CrawlerConfig::default());
    result.stats.failed_requests = 2;
    result.stats.errors.push("URL a: x".to_string());
    let config = OutputConfig::default();
    let text = render(&result_document(&result, &config));
    assert!(text.contains(r#""failed_requests": 2"#));
    assert!(text.contains(r#""errors": ["URL a: x"]"#));
    assert!(!text.contains("urls_processed"));
    assert!(text.contains("config_snapshot"));
}
