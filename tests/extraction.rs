use api_crawler::config::CrawlerConfig;
use api_crawler::crawler::ApiCrawler;
use api_crawler::json::Json;
use api_crawler::types::{ApiEndpoint, QueueItem};

fn text(s: &str) -> Json {
    Json::String(s.to_string())
}

fn obj(members: Vec<(&str, Json)>) -> Json {
    Json::Object(members.into_iter().map(|(k, v)| (k.to_string(), v)).collect())
}

fn crawler() -> ApiCrawler {
    ApiCrawler::new(CrawlerConfig::default()).unwrap()
}

fn parent() -> QueueItem {
    QueueItem::new("http://example.com".to_string(), 0, None)
}

#[test]
fn test_endpoint_should_crawl() {
    let endpoint_self =
        ApiEndpoint::new("http://example.com".to_string(), 1).with_rel(Some("self".to_string()));
    assert!(!endpoint_self.should_crawl());

    let endpoint_next = ApiEndpoint::new("http://example.com/next".to_string(), 1)
        .with_rel(Some("next".to_string()));
    assert!(endpoint_next.should_crawl());

    let endpoint_no_rel = ApiEndpoint::new("http://example.com/other".to_string(), 1);
    assert!(endpoint_no_rel.should_crawl());
}

#[test]
fn test_looks_like_url() {
    let crawler = ApiCrawler::new(CrawlerConfig::default()).unwrap();

    assert!(crawler.looks_like_url("http://example.com"));
    assert!(crawler.looks_like_url("https://example.com"));
    assert!(crawler.looks_like_url("/api/endpoint"));
    assert!(!crawler.looks_like_url("not-a-url"));
    assert!(!crawler.looks_like_url("example.com"));
}

#[test]
fn test_extract_endpoints_from_hal_json() {
    let crawler = crawler();
    let parent_item = parent();

    let json = obj(vec![(
        "_links",
        obj(vec![
            ("self", obj(vec![("href", text("http://example.com/current"))])),
            ("next", obj(vec![("href", text("http://example.com/next"))])),
            (
                "items",
                Json::Array(vec![
                    obj(vec![("href", text("http://example.com/item1"))]),
                    obj(vec![("href", text("http://example.com/item2"))]),
                ]),
            ),
        ]),
    )]);

    let endpoints = crawler.extract_endpoints_from_json(&json, &parent_item).unwrap();

    assert!(endpoints.len() >= 4);

    let self_endpoint =
        endpoints.iter().find(|e| e.rel == Some("self".to_string())).unwrap();
    assert!(!self_endpoint.should_crawl());

    let next_endpoint =
        endpoints.iter().find(|e| e.rel == Some("next".to_string())).unwrap();
    assert!(next_endpoint.should_crawl());
}

#[test]
fn test_no_metadata_duplication() {
    let crawler = crawler();
    let parent_item = parent();
    let mut endpoints = Vec::new();

    let link_obj = obj(vec![
        ("href", text("http://example.com/test")),
        ("rel", text("test-rel")),
        ("method", text("POST")),
        ("type", text("application/json")),
        ("title", text("Test Endpoint")),
        ("custom_field", text("custom_value")),
        ("another_custom", Json::Number("42".to_string())),
    ]);

    crawler
        .extract_from_link_data("test-rel", &link_obj, &parent_item, &mut endpoints)
        .unwrap();

    assert_eq!(endpoints.len(), 1);
    let endpoint = &endpoints[0];

    assert_eq!(endpoint.rel, Some("test-rel".to_string()));
    assert_eq!(endpoint.method, Some("POST".to_string()));
    assert_eq!(endpoint.content_type, Some("application/json".to_string()));
    assert_eq!(endpoint.title, Some("Test Endpoint".to_string()));

    assert!(!endpoint.metadata.contains_key("rel"));
    assert!(!endpoint.metadata.contains_key("method"));
    assert!(!endpoint.metadata.contains_key("type"));
    assert!(!endpoint.metadata.contains_key("title"));
    assert!(!endpoint.metadata.contains_key("href"));

    assert!(matches!(
        endpoint.metadata.get("custom_field"),
        Some(Json::String(s)) if s == "custom_value"
    ));
    assert!(matches!(
        endpoint.metadata.get("another_custom"),
        Some(Json::Number(n)) if n == "42"
    ));
}

#[test]
fn hal_scenario_has_one_self_link_that_is_not_followed() {
    let crawler = crawler();
    let json = obj(vec![(
        "_links",
        obj(vec![
            ("self", obj(vec![("href", text("/a"))])),
            ("next", obj(vec![("href", text("/b"))])),
            (
                "items",
                Json::Array(vec![obj(vec![("href", text("/c"))]), obj(vec![("href", text("/d"))])]),
            ),
        ]),
    )]);
    let endpoints = crawler.extract_endpoints_from_json(&json, &parent()).unwrap();
    assert!(endpoints.len() >= 4);
    assert!(endpoints.iter().all(|e| e.depth == 1));
    let selves: Vec<&ApiEndpoint> =
        endpoints.iter().filter(|e| e.rel.as_deref() == Some("self")).collect();
    assert_eq!(selves.len(), 1);
    assert!(!selves[0].should_crawl());
    let hrefs: Vec<&str> = endpoints.iter().map(|e| e.href.as_str()).collect();
    for h in ["/a", "/b", "/c", "/d"] {
        assert!(hrefs.contains(&h));
    }
}

#[test]
fn every_endpoint_is_one_level_below_its_parent_item() {
    let crawler = crawler();
    let item = QueueItem::new("http://api.test/x".to_string(), 4, None);
    let json = Json::Array(vec![
        obj(vec![("href", text("/one")), ("nested", obj(vec![("self_url", text("/two"))]))]),
        text("ignored"),
        obj(vec![("links", Json::Array(vec![obj(vec![("href", text("/three"))])]))]),
    ]);
    let endpoints = crawler.extract_endpoints_from_json(&json, &item).unwrap();
    assert!(!endpoints.is_empty());
    for e in &endpoints {
        assert_eq!(e.depth, 5);
        assert_eq!(e.parent_url.as_deref(), Some("http://api.test/x"));
    }
}

#[test]
fn extraction_follows_document_order_and_rules() {
    let crawler = crawler();
    // The direct href rule, then the URL-field rule on the same object.
    let json = obj(vec![
        ("href", text("/self-ref")),
        ("rel", text("item")),
        ("next_link", text("https://x.test/n")),
        ("profile_uri", text("not a url")),
        ("extra", Json::Bool(true)),
    ]);
    let eps = crawler.extract_endpoints_from_json(&json, &parent()).unwrap();
    assert_eq!(eps.len(), 2);
    assert_eq!(eps[0].href, "/self-ref");
    assert_eq!(eps[0].rel.as_deref(), Some("item"));
    assert_eq!(eps[0].metadata.len(), 3);
    assert!(eps[0].metadata.contains_key("next_link"));
    assert!(eps[0].metadata.contains_key("extra"));
    assert_eq!(eps[1].href, "https://x.test/n");
    assert_eq!(eps[1].rel, None);
    assert!(matches!(
        eps[1].metadata.get("source_field"),
        Some(Json::String(s)) if s == "next_link"
    ));
}

#[test]
fn jsonapi_links_array_uses_each_rel_or_unknown() {
    let crawler = crawler();
    let json = obj(vec![(
        "links",
        Json::Array(vec![
            obj(vec![("rel", text("first")), ("href", text("/p1"))]),
            obj(vec![("href", text("/p2"))]),
            text("/skipped"),
        ]),
    )]);
    let eps = crawler.extract_endpoints_from_json(&json, &parent()).unwrap();
    let from_links: Vec<&ApiEndpoint> = eps.iter().take(2).collect();
    assert_eq!(from_links[0].href, "/p1");
    assert_eq!(from_links[0].rel.as_deref(), Some("first"));
    assert_eq!(from_links[1].href, "/p2");
    assert_eq!(from_links[1].rel.as_deref(), Some("unknown"));
    // Each link object is found again by the direct href rule.
    assert_eq!(eps.len(), 4);
}

#[test]
fn link_entries_as_strings_and_nested_arrays() {
    let crawler = crawler();
    let mut eps = Vec::new();
    let data = Json::Array(vec![text("/s1"), Json::Array(vec![text("/s2")]), Json::Null]);
    crawler.extract_from_link_data("r", &data, &parent(), &mut eps).unwrap();
    assert_eq!(eps.len(), 2);
    assert_eq!(eps[0].href, "/s1");
    assert_eq!(eps[1].href, "/s2");
    assert!(eps.iter().all(|e| e.rel.as_deref() == Some("r")));
}

#[test]
fn scalar_documents_hold_no_endpoints() {
    let crawler = crawler();
    assert!(crawler.extract_endpoints_from_json(&text("/x"), &parent()).unwrap().is_empty());
    assert!(crawler.extract_endpoints_from_json(&Json::Null, &parent()).unwrap().is_empty());
}

#[test]
fn metadata_insert_replaces_value() {
    let e = ApiEndpoint::new("/x".to_string(), 0)
        .with_metadata("k".to_string(), Json::Bool(true))
        .with_metadata("k".to_string(), Json::Bool(false));
    assert_eq!(e.metadata.len(), 1);
    assert!(matches!(e.metadata.get("k"), Some(Json::Bool(false))));
}
