use api_crawler::config::{parse_header, CrawlerConfig};
use api_crawler::crawler::{accepts_content_type, ApiCrawler, FetchOutcome};
use api_crawler::error::CrawlerError;
use api_crawler::json::Json;
use api_crawler::output::{Layout, OutputConfig, OutputFormat, OutputFormatArg};

fn text(s: &str) -> Json {
    Json::String(s.to_string())
}

fn obj(members: Vec<(&str, Json)>) -> Json {
    Json::Object(members.into_iter().map(|(k, v)| (k.to_string(), v)).collect())
}

#[test]
fn test_output_format_conversion() {
    let pretty = OutputFormatArg::Pretty;
    let compact = OutputFormatArg::Compact;
    let hierarchical = OutputFormatArg::Hierarchical;
    let tree = OutputFormatArg::Tree;

    assert!(matches!(OutputFormat::from(pretty), OutputFormat::PrettyJson));
    assert!(matches!(OutputFormat::from(compact), OutputFormat::CompactJson));
    assert!(matches!(OutputFormat::from(hierarchical), OutputFormat::Hierarchical));
    assert!(matches!(OutputFormat::from(tree), OutputFormat::Tree));
}

#[test]
fn test_header_parsing() {
    let header_str = "Authorization: Bearer token123";
    if let Some((key, value)) = parse_header(header_str) {
        assert_eq!(key, "Authorization");
        assert_eq!(value, "Bearer token123");
    } else {
        panic!("Failed to parse header");
    }
}

#[test]
fn header_without_colon_is_refused() {
    assert!(parse_header("no separator").is_none());
    let (k, v) = parse_header(" a :b:c ").unwrap();
    assert_eq!(k, "a");
    assert_eq!(v, "b:c");
}

#[test]
fn depth_limit_records_but_does_not_fetch() {
    let config = CrawlerConfig::new().max_depth(1);
    let mut crawler = ApiCrawler::new(config).unwrap();
    let mut result = crawler.start_crawl("http://api.test/").unwrap();

    let seed = crawler.next_request(&mut result).unwrap();
    assert_eq!(seed.url, "http://api.test/");
    assert_eq!(seed.depth, 0);
    let doc = obj(vec![(
        "_links",
        obj(vec![
            ("a", text("http://api.test/a")),
            ("b", text("http://api.test/b")),
            ("c", text("http://api.test/c")),
        ]),
    )]);
    crawler.record_response(&mut result, &seed, FetchOutcome::Json(doc));
    assert_eq!(result.endpoints.len(), 3);
    assert!(result.endpoints.iter().all(|e| e.depth == 1));
    let skipped_before = result.stats.urls_skipped;

    assert!(crawler.next_request(&mut result).is_none());
    assert!(result.stats.urls_skipped >= skipped_before + 3);
    assert!(result.endpoints.iter().all(|e| e.depth < 2));
    assert_eq!(result.stats.urls_processed, 1);
    assert_eq!(result.stats.successful_requests, 1);
}

#[test]
fn visited_urls_are_skipped_and_self_links_not_queued() {
    let mut crawler = ApiCrawler::new(CrawlerConfig::new()).unwrap();
    let mut result = crawler.start_crawl("http://api.test/").unwrap();
    let seed = crawler.next_request(&mut result).unwrap();
    let doc = obj(vec![(
        "_links",
        obj(vec![
            ("self", text("http://api.test/")),
            ("next", text("http://api.test/2")),
            ("again", text("http://api.test/2")),
        ]),
    )]);
    crawler.record_response(&mut result, &seed, FetchOutcome::Json(doc));
    assert_eq!(result.endpoints.len(), 3);

    let second = crawler.next_request(&mut result).unwrap();
    assert_eq!(second.url, "http://api.test/2");
    assert_eq!(second.depth, 1);
    assert_eq!(second.parent_url.as_deref(), Some("http://api.test/"));
    crawler.record_response(&mut result, &second, FetchOutcome::NotJson);

    // The duplicate entry is dropped as visited.
    assert!(crawler.next_request(&mut result).is_none());
    assert_eq!(result.stats.urls_skipped, 1);
    assert_eq!(result.stats.urls_processed, 2);
    assert_eq!(result.stats.max_depth_reached, 1);
}

#[test]
fn failures_are_counted_with_their_message() {
    let mut crawler = ApiCrawler::new(CrawlerConfig::new()).unwrap();
    let mut result = crawler.start_crawl("http://api.test/").unwrap();
    let seed = crawler.next_request(&mut result).unwrap();
    crawler.record_response(&mut result, &seed, FetchOutcome::Failed("timed out".to_string()));
    assert_eq!(result.stats.failed_requests, 1);
    assert_eq!(result.stats.urls_processed, 0);
    assert_eq!(result.stats.errors, vec!["URL http://api.test/: timed out".to_string()]);
}

#[test]
fn url_limit_stops_the_crawl() {
    let mut config = CrawlerConfig::new();
    config.max_urls = 1;
    let mut crawler = ApiCrawler::new(config).unwrap();
    let mut result = crawler.start_crawl("http://api.test/").unwrap();
    let seed = crawler.next_request(&mut result).unwrap();
    let doc = obj(vec![("links", obj(vec![("next", text("http://api.test/2"))]))]);
    crawler.record_response(&mut result, &seed, FetchOutcome::Json(doc));
    assert!(crawler.next_request(&mut result).is_none());
    assert_eq!(result.stats.urls_skipped, 0);
}

#[test]
fn domain_policy_skips_other_hosts() {
    let config = CrawlerConfig::new().allow_domain("api.test".to_string());
    let mut crawler = ApiCrawler::new(config).unwrap();
    assert!(crawler.is_domain_allowed("http://api.test/x"));
    assert!(!crawler.is_domain_allowed("http://other.test/x"));
    assert!(!crawler.is_domain_allowed("/relative"));
    let mut result = crawler.start_crawl("http://api.test/").unwrap();
    let seed = crawler.next_request(&mut result).unwrap();
    let doc = obj(vec![(
        "_links",
        obj(vec![("out", text("http://other.test/a")), ("in", text("http://api.test/b"))]),
    )]);
    crawler.record_response(&mut result, &seed, FetchOutcome::Json(doc));
    let next = crawler.next_request(&mut result).unwrap();
    assert_eq!(next.url, "http://api.test/b");
    assert_eq!(result.stats.urls_skipped, 1);
}

#[test]
fn malformed_seed_is_a_url_error() {
    let mut crawler = ApiCrawler::new(CrawlerConfig::new()).unwrap();
    assert!(matches!(crawler.start_crawl("not a url"), Err(CrawlerError::Url(_))));
    let normal = crawler.normalize_url("HTTP://Example.COM").unwrap();
    assert_eq!(normal, "http://example.com/");
}

#[test]
fn bad_headers_are_configuration_errors() {
    let mut config = CrawlerConfig::new();
    config.user_agent = "bad\nagent".to_string();
    match ApiCrawler::new(config) {
        Err(CrawlerError::Config { message }) => assert_eq!(message, "Invalid user agent"),
        _ => panic!("expected a configuration error"),
    }
    let config = CrawlerConfig::new().add_header("bad name".to_string(), "v".to_string());
    match ApiCrawler::new(config) {
        Err(CrawlerError::Config { message }) => assert_eq!(message, "Invalid header name: bad name"),
        _ => panic!("expected a configuration error"),
    }
    let config = CrawlerConfig::new().add_header("X-Ok".to_string(), "a\u{7f}b".to_string());
    match ApiCrawler::new(config) {
        Err(CrawlerError::Config { message }) => {
            assert_eq!(message, "Invalid header value: a\u{7f}b")
        }
        _ => panic!("expected a configuration error"),
    }
    let config = CrawlerConfig::new().add_header("X-Ok".to_string(), "tab\tvalue é".to_string());
    assert!(ApiCrawler::new(config).is_ok());
}

#[test]
fn config_builders() {
    let c = CrawlerConfig::new()
        .max_depth(3)
        .max_concurrent_requests(2)
        .timeout_seconds(5)
        .allow_domain("a".to_string())
        .allow_domain("a".to_string())
        .add_header("k".to_string(), "1".to_string())
        .add_header("k".to_string(), "2".to_string());
    assert_eq!(c.max_depth, 3);
    assert_eq!(c.max_concurrent_requests, 2);
    assert_eq!(c.timeout_seconds, 5);
    assert_eq!(c.allowed_domains, vec!["a".to_string()]);
    assert_eq!(c.headers, vec![("k".to_string(), "2".to_string())]);
    let d = CrawlerConfig::default();
    assert_eq!(d.max_depth, 10);
    assert_eq!(d.max_urls, 1000);
    assert_eq!(d.user_agent, "API-Crawler/1.0");
}

#[test]
fn content_types() {
    assert!(accepts_content_type("application/json; charset=utf-8"));
    assert!(accepts_content_type("application/hal+json"));
    assert!(!accepts_content_type("text/html"));
}

#[test]
fn output_layouts() {
    let mut c = OutputConfig::default();
    assert_eq!(c.layout(), Layout::Flat);
    assert!(!c.compact());
    c.hierarchical = true;
    assert_eq!(c.layout(), Layout::Hierarchical);
    c.format = OutputFormat::Tree;
    assert_eq!(c.layout(), Layout::Tree);
    c.format = OutputFormat::CompactJson;
    assert!(c.compact());
}

#[test]
fn url_limit_counts_items_in_flight() {
    let mut config = CrawlerConfig::new();
    config.max_urls = 2;
    let mut crawler = ApiCrawler::new(config).unwrap();
    let mut result = crawler.start_crawl("http://api.test/").unwrap();
    let seed = crawler.next_request(&mut result).unwrap();
    assert_eq!(crawler.outstanding_requests(), 1);
    let doc = obj(vec![(
        "_links",
        obj(vec![("a", text("http://api.test/a")), ("b", text("http://api.test/b"))]),
    )]);
    crawler.record_response(&mut result, &seed, FetchOutcome::Json(doc));
    assert_eq!(crawler.outstanding_requests(), 0);
    let first = crawler.next_request(&mut result).unwrap();
    assert_eq!(first.url, "http://api.test/a");
    // One processed and one in flight reach the limit of two.
    assert!(crawler.next_request(&mut result).is_none());
    crawler.record_response(&mut result, &first, FetchOutcome::Failed("down".to_string()));
    // The failure did not count as processed, so there is room again.
    let second = crawler.next_request(&mut result).unwrap();
    assert_eq!(second.url, "http://api.test/b");
}
