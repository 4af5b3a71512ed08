//! How a crawl is configured, and what it counts.

use vstd::prelude::*;
use crate::text::{first_index_of, split_once, str_eq, trim, trimmed};

verus! {

/// Header pairs after setting `key` to `value`: the first pair of that name
/// takes the new value, or the pair is appended where there is none.
pub open spec fn header_insert(
    headers: Seq<(Seq<char>, Seq<char>)>,
    key: Seq<char>,
    value: Seq<char>,
) -> Seq<(Seq<char>, Seq<char>)> {
    if exists|i: int| 0 <= i < headers.len() && headers[i].0 == key {
        let i = choose|i: int|
            0 <= i < headers.len() && headers[i].0 == key && forall|k: int|
                0 <= k < i ==> headers[k].0 != key;
        headers.update(i, (key, value))
    } else {
        headers.push((key, value))
    }
}

/// The header pairs of a configuration, as text.
pub open spec fn headers_view(headers: Seq<(String, String)>) -> Seq<(Seq<char>, Seq<char>)> {
    headers.map_values(|h: (String, String)| (h.0@, h.1@))
}

/// The allowed domains of a configuration, as text.
pub open spec fn domains_view(domains: Seq<String>) -> Seq<Seq<char>> {
    domains.map_values(|d: String| d@)
}

/// Settings of a crawl; fixed once the crawl starts.
#[derive(Debug, Clone)]
pub struct CrawlerConfig {
    /// Items at this depth or deeper are not fetched; 0 means no limit.
    pub max_depth: usize,
    /// How many fetches may run at once.
    pub max_concurrent_requests: usize,
    /// Request timeout in seconds.
    pub timeout_seconds: u64,
    /// The crawl stops once this many URLs were processed; 0 means no limit.
    pub max_urls: usize,
    /// The User-Agent header sent with each request.
    pub user_agent: String,
    /// Extra headers sent with each request; a name occurs at most once.
    pub headers: Vec<(String, String)>,
    /// Pause between requests in milliseconds.
    pub delay_ms: u64,
    /// Whether redirects are followed.
    pub follow_redirects: bool,
    /// Hosts the crawl may visit; empty means any. A domain occurs at most once.
    pub allowed_domains: Vec<String>,
}

/// The settings used where none are given.
pub open spec fn is_default_config(c: CrawlerConfig) -> bool {
    &&& c.max_depth == 10
    &&& c.max_concurrent_requests == 10
    &&& c.timeout_seconds == 30
    &&& c.max_urls == 1000
    &&& c.user_agent@ == "API-Crawler/1.0"@
    &&& c.headers@.len() == 0
    &&& c.delay_ms == 100
    &&& c.follow_redirects
    &&& c.allowed_domains@.len() == 0
}

impl Default for CrawlerConfig {
    fn default() -> (r: CrawlerConfig)
        ensures
            is_default_config(r),
    {
        CrawlerConfig {
            max_depth: 10,
            max_concurrent_requests: 10,
            timeout_seconds: 30,
            max_urls: 1000,
            user_agent: "API-Crawler/1.0".to_owned(),
            headers: Vec::new(),
            delay_ms: 100,
            follow_redirects: true,
            allowed_domains: Vec::new(),
        }
    }
}

impl CrawlerConfig {
    /// The default settings.
    pub fn new() -> (r: CrawlerConfig)
        ensures
            is_default_config(r),
    {
        CrawlerConfig::default()
    }

    /// The same settings with the depth limit `depth`.
    pub fn max_depth(self, depth: usize) -> (r: CrawlerConfig)
        ensures
            r == (CrawlerConfig { max_depth: depth, ..self }),
    {
        CrawlerConfig { max_depth: depth, ..self }
    }

    /// The same settings with at most `max` fetches at once.
    pub fn max_concurrent_requests(self, max: usize) -> (r: CrawlerConfig)
        ensures
            r == (CrawlerConfig { max_concurrent_requests: max, ..self }),
    {
        CrawlerConfig { max_concurrent_requests: max, ..self }
    }

    /// The same settings with a timeout of `seconds`.
    pub fn timeout_seconds(self, seconds: u64) -> (r: CrawlerConfig)
        ensures
            r == (CrawlerConfig { timeout_seconds: seconds, ..self }),
    {
        CrawlerConfig { timeout_seconds: seconds, ..self }
    }

    /// The same settings with `domain` among the allowed domains.
    pub fn allow_domain(self, domain: String) -> (r: CrawlerConfig)
        ensures
            domains_view(self.allowed_domains@).contains(domain@) ==> domains_view(
                r.allowed_domains@,
            ) == domains_view(self.allowed_domains@),
            !domains_view(self.allowed_domains@).contains(domain@) ==> domains_view(
                r.allowed_domains@,
            ) == domains_view(self.allowed_domains@).push(domain@),
            r == (CrawlerConfig { allowed_domains: r.allowed_domains, ..self }),
    {
        let mut c = self;
        let mut i: usize = 0;
        while i < c.allowed_domains.len()
            invariant
                i <= c.allowed_domains.len(),
                c == self,
                forall|k: int| 0 <= k < i ==> c.allowed_domains@[k]@ != domain@,
            decreases c.allowed_domains.len() - i,
        {
            if str_eq(c.allowed_domains[i].as_str(), domain.as_str()) {
                assert(domains_view(self.allowed_domains@)[i as int] == domain@);
                return c;
            }
            i = i + 1;
        }
        let ghost before = c.allowed_domains@;
        let ghost d = domain@;
        c.allowed_domains.push(domain);
        proof {
            assert(domains_view(c.allowed_domains@) =~= domains_view(before).push(d));
            assert forall|k: int| 0 <= k < before.len() implies domains_view(before)[k] != d by {}
        }
        c
    }

    /// The same settings with header `key` set to `value`.
    pub fn add_header(self, key: String, value: String) -> (r: CrawlerConfig)
        ensures
            headers_view(r.headers@) == header_insert(headers_view(self.headers@), key@, value@),
            r == (CrawlerConfig { headers: r.headers, ..self }),
    {
        let mut c = self;
        let ghost hv = headers_view(self.headers@);
        let mut i: usize = 0;
        while i < c.headers.len()
            invariant
                i <= c.headers.len(),
                c == self,
                hv == headers_view(self.headers@),
                forall|k: int| 0 <= k < i ==> hv[k].0 != key@,
            decreases c.headers.len() - i,
        {
            if str_eq(c.headers[i].0.as_str(), key.as_str()) {
                let ghost k = key@;
                let ghost v = value@;
                c.headers.set(i, (key, value));
                proof {
                    assert(hv[i as int].0 == k);
                    let j = choose|j: int|
                        0 <= j < hv.len() && hv[j].0 == k && forall|m: int|
                            0 <= m < j ==> hv[m].0 != k;
                    assert(j == i) by {
                        if j < i {
                        } else if j > i {
                            assert(hv[i as int].0 == k);
                        }
                    }
                    assert(headers_view(c.headers@) =~= hv.update(i as int, (k, v)));
                }
                return c;
            }
            i = i + 1;
        }
        let ghost k = key@;
        let ghost v = value@;
        c.headers.push((key, value));
        proof {
            assert(headers_view(c.headers@) =~= hv.push((k, v)));
        }
        c
    }
}

/// Counters of a crawl.
#[derive(Debug, Clone)]
pub struct CrawlStats {
    /// URLs fetched successfully.
    pub urls_processed: usize,
    /// Requests that succeeded.
    pub successful_requests: usize,
    /// Requests that failed.
    pub failed_requests: usize,
    /// Items dropped for depth, repetition or domain.
    pub urls_skipped: usize,
    /// The deepest level fetched.
    pub max_depth_reached: usize,
    /// Time the crawl took.
    pub total_time_ms: u128,
    /// One message per failed request.
    pub errors: Vec<String>,
}

impl Default for CrawlStats {
    fn default() -> (r: CrawlStats)
        ensures
            r.urls_processed == 0,
            r.successful_requests == 0,
            r.failed_requests == 0,
            r.urls_skipped == 0,
            r.max_depth_reached == 0,
            r.total_time_ms == 0,
            r.errors@.len() == 0,
    {
        CrawlStats {
            urls_processed: 0,
            successful_requests: 0,
            failed_requests: 0,
            urls_skipped: 0,
            max_depth_reached: 0,
            total_time_ms: 0,
            errors: Vec::new(),
        }
    }
}

/// The name and value of a header written `name:value`: the text before and
/// after the first colon, without surrounding white space; none where there
/// is no colon.
pub fn parse_header(s: &str) -> (r: Option<(String, String)>)
    ensures
        match r {
            Some((name, value)) => {
                let i = first_index_of(s@, ':');
                &&& 0 <= i < s@.len()
                &&& name@ == trimmed(s@.subrange(0, i))
                &&& value@ == trimmed(s@.subrange(i + 1, s@.len() as int))
            },
            None => first_index_of(s@, ':') == -1,
        },
{
    match split_once(s, ':') {
        Some((name, value)) => {
            proof {
                let i = choose|i: int|
                    0 <= i < s@.len() && s@[i] == ':' && (forall|j: int| 0 <= j < i ==> s@[j] != ':')
                        && name@ == s@.subrange(0, i) && value@ == s@.subrange(i + 1, s@.len() as int);
                let f = first_index_of(s@, ':');
                assert(0 <= f < s@.len() && s@[f] == ':');
                assert(f == i) by {
                    if f < i {
                        assert(s@[f] != ':');
                    } else if f > i {
                    }
                }
            }
            Some((trim(name).to_owned(), trim(value).to_owned()))
        },
        None => None,
    }
}

} // verus!
