//! The traversal engine: frontier, visited set, admission and stopping.
//!
//! The engine decides; whoever drives it fetches. [`ApiCrawler::next_request`]
//! hands out the next URL to fetch, and [`ApiCrawler::record_response`] takes
//! back what the fetch gave.

use vstd::prelude::*;
use vstd::string::StringExecFns;
use std::collections::VecDeque;
use crate::config::{CrawlStats, CrawlerConfig, domains_view, headers_view};
use crate::error::CrawlerError;
use crate::extract::{all_found_from, lemma_value_from, value_endpoints};
use crate::json::Json;
use crate::result::{CrawlResult, mappings_add, mappings_view};
use crate::text::{contains, has_infix, str_eq};
use crate::types::{
    ApiEndpoint, EndpointV, QueueItem, QueueItemV, crawlable, endpoints_view, opt_view,
};
use crate::urls::{domain_of, parse_url, parsed_url};

verus! {

/// Whether HTTP accepts a text as a header value: each character is a tab,
/// or at least a space and not DEL.
pub open spec fn header_value_ok(s: Seq<char>) -> bool {
    forall|i: int| 0 <= i < s.len() ==> s[i] == '\t' || (s[i] as u32 >= 32 && s[i] as u32 != 127)
}

/// Whether HTTP accepts a text as a header name.
pub uninterp spec fn header_name_ok(s: Seq<char>) -> bool;

/// Relies on `reqwest::header::HeaderValue`'s `FromStr`: it accepts a text
/// exactly when every byte is a tab or at least 32 and not 127, and every byte
/// of a non-ASCII character is at least 128.
#[verifier::external_body]
fn is_header_value(s: &str) -> (r: bool)
    ensures
        r == header_value_ok(s@),
{
    s.parse::<reqwest::header::HeaderValue>().is_ok()
}

/// Relies on `reqwest::header::HeaderName`'s `FromStr`: whether it accepts a
/// text depends on the text alone, and it refuses the empty text.
#[verifier::external_body]
fn is_header_name(s: &str) -> (r: bool)
    ensures
        r == header_name_ok(s@),
        s@.len() == 0 ==> !r,
{
    s.parse::<reqwest::header::HeaderName>().is_ok()
}

/// The first problem among the first `n` headers, if any.
pub open spec fn header_error(headers: Seq<(Seq<char>, Seq<char>)>, n: nat) -> Option<Seq<char>>
    decreases n,
{
    if n == 0 || n > headers.len() {
        None
    } else {
        match header_error(headers, (n - 1) as nat) {
            Some(m) => Some(m),
            None => if !header_name_ok(headers[n - 1].0) {
                Some("Invalid header name: "@ + headers[n - 1].0)
            } else if !header_value_ok(headers[n - 1].1) {
                Some("Invalid header value: "@ + headers[n - 1].1)
            } else {
                None
            },
        }
    }
}

/// Why a configuration cannot be used, if it cannot: the user agent is
/// checked first, then each header in order.
pub open spec fn config_error(config: CrawlerConfig) -> Option<Seq<char>> {
    if !header_value_ok(config.user_agent@) {
        Some("Invalid user agent"@)
    } else {
        header_error(headers_view(config.headers@), config.headers@.len())
    }
}

/// Whether the depth limit lets an item at `depth` be fetched.
pub open spec fn within_depth(config: CrawlerConfig, depth: nat) -> bool {
    config.max_depth == 0 || depth < config.max_depth
}

/// Whether the domain policy lets `url` be fetched: any URL where no domain
/// is listed, else one whose domain is listed.
pub open spec fn domain_allowed(config: CrawlerConfig, url: Seq<char>) -> bool {
    config.allowed_domains@.len() == 0 || match domain_of(url) {
        Some(d) => domains_view(config.allowed_domains@).contains(d),
        None => false,
    }
}

/// Whether a popped item is fetched: within the depth limit, not visited
/// yet, and on an allowed domain.
pub open spec fn admissible(config: CrawlerConfig, visited: Seq<Seq<char>>, item: QueueItemV) -> bool {
    within_depth(config, item.depth) && !visited.contains(item.url) && domain_allowed(config, item.url)
}

/// Whether the URL limit stops the crawl: the URLs processed and those
/// handed out and not yet recorded reach it.
pub open spec fn url_limit_reached(config: CrawlerConfig, processed: nat, outstanding: nat) -> bool {
    config.max_urls > 0 && processed + outstanding >= config.max_urls
}

/// A crawler: its settings, the URLs it has fetched, its frontier, and how
/// many fetches it has handed out whose outcome is not recorded yet.
pub struct ApiCrawler {
    config: CrawlerConfig,
    visited_urls: Vec<String>,
    url_queue: VecDeque<QueueItem>,
    in_flight: usize,
}

impl ApiCrawler {
    /// The settings.
    pub closed spec fn settings(&self) -> CrawlerConfig {
        self.config
    }

    /// The URLs handed out for fetching so far.
    pub closed spec fn visited(&self) -> Seq<Seq<char>> {
        self.visited_urls@.map_values(|s: String| s@)
    }

    /// The items waiting, first to be popped first.
    pub closed spec fn frontier(&self) -> Seq<QueueItemV> {
        self.url_queue@.map_values(|q: QueueItem| q@)
    }

    /// How many items were handed out whose outcome is not recorded yet.
    pub closed spec fn outstanding(&self) -> nat {
        self.in_flight as nat
    }

    /// A crawler with settings `config`, nothing visited and nothing waiting.
    /// Fails with a configuration error where the user agent or a header is
    /// not acceptable to HTTP.
    pub fn new(config: CrawlerConfig) -> (r: Result<ApiCrawler, CrawlerError>)
        ensures
            match config_error(config) {
                None => r matches Ok(c) && c.settings() == config && c.visited().len() == 0
                    && c.frontier().len() == 0 && c.outstanding() == 0,
                Some(m) => r matches Err(CrawlerError::Config { message }) && message@ == m,
            },
    {
        if !is_header_value(config.user_agent.as_str()) {
            return Err(CrawlerError::config("Invalid user agent".to_owned()));
        }
        let ghost hv = headers_view(config.headers@);
        let mut i: usize = 0;
        while i < config.headers.len()
            invariant
                i <= config.headers.len(),
                hv == headers_view(config.headers@),
                header_error(hv, i as nat) is None,
                header_value_ok(config.user_agent@),
            decreases config.headers.len() - i,
        {
            let key = config.headers[i].0.as_str();
            let value = config.headers[i].1.as_str();
            if !is_header_name(key) {
                let message = "Invalid header name: ".to_owned().concat(key);
                proof {
                    reveal_with_fuel(header_error, 2);
                    lemma_header_error_stays(hv, (i + 1) as nat, hv.len());
                }
                return Err(CrawlerError::config(message));
            }
            if !is_header_value(value) {
                let message = "Invalid header value: ".to_owned().concat(value);
                proof {
                    reveal_with_fuel(header_error, 2);
                    lemma_header_error_stays(hv, (i + 1) as nat, hv.len());
                }
                return Err(CrawlerError::config(message));
            }
            i = i + 1;
        }
        let r = ApiCrawler { config, visited_urls: Vec::new(), url_queue: VecDeque::new(), in_flight: 0 };
        assert(r.visited().len() == 0);
        assert(r.frontier().len() == 0);
        Ok(r)
    }

    /// How many items were handed out whose outcome is not recorded yet.
    pub fn outstanding_requests(&self) -> (r: usize)
        ensures
            r == self.outstanding(),
    {
        self.in_flight
    }

    /// How many items wait in the frontier.
    pub fn pending(&self) -> (r: usize)
        ensures
            r == self.frontier().len(),
    {
        self.url_queue.len()
    }

    /// The settings.
    pub fn config(&self) -> (r: &CrawlerConfig)
        ensures
            *r == self.settings(),
    {
        &self.config
    }

    /// The normal form of an absolute URL; fails where `url` does not parse.
    pub fn normalize_url(&self, url: &str) -> (r: Result<String, CrawlerError>)
        ensures
            match parsed_url(url@) {
                Some((text, _)) => r matches Ok(s) && s@ == text,
                None => r matches Err(CrawlerError::Url(_)),
            },
    {
        match parse_url(url) {
            Ok((text, _)) => Ok(text),
            Err(e) => Err(CrawlerError::Url(e)),
        }
    }

    /// Whether the domain policy lets `url` be fetched. A URL that does not
    /// parse, or has no domain, is refused unless no domain is listed.
    pub fn is_domain_allowed(&self, url: &str) -> (r: bool)
        ensures
            r == domain_allowed(self.settings(), url@),
    {
        if self.config.allowed_domains.len() == 0 {
            return true;
        }
        let parsed = parse_url(url);
        let domain = match parsed {
            Ok((_, d)) => d,
            Err(_) => None,
        };
        assert(domain_of(url@) == opt_view(domain));
        match domain {
            Some(domain) => {
                let ghost dv = domains_view(self.config.allowed_domains@);
                let mut i: usize = 0;
                while i < self.config.allowed_domains.len()
                    invariant
                        i <= self.config.allowed_domains.len(),
                        dv == domains_view(self.config.allowed_domains@),
                        domain_of(url@) == Some(domain@),
                        forall|k: int| 0 <= k < i ==> dv[k] != domain@,
                    decreases self.config.allowed_domains.len() - i,
                {
                    if str_eq(self.config.allowed_domains[i].as_str(), domain.as_str()) {
                        assert(dv[i as int] == domain@);
                        return true;
                    }
                    i = i + 1;
                }
                assert(!dv.contains(domain@));
                false
            },
            None => false,
        }
    }

    /// Whether `url` was handed out for fetching already.
    pub fn is_visited(&self, url: &str) -> (r: bool)
        ensures
            r == self.visited().contains(url@),
    {
        let mut i: usize = 0;
        while i < self.visited_urls.len()
            invariant
                i <= self.visited_urls.len(),
                forall|k: int| 0 <= k < i ==> self.visited()[k] != url@,
            decreases self.visited_urls.len() - i,
        {
            if str_eq(self.visited_urls[i].as_str(), url) {
                assert(self.visited()[i as int] == url@);
                return true;
            }
            i = i + 1;
        }
        false
    }
}

/// What fetching an item gave.
#[derive(Debug)]
pub enum FetchOutcome {
    /// A JSON response, decoded.
    Json(Json),
    /// A response whose content type is not JSON; it holds no endpoints.
    NotJson,
    /// The request or the decoding failed, for the reason given.
    Failed(String),
}

/// Whether a response of content type `content_type` is decoded as JSON.
pub open spec fn json_content_type(content_type: Seq<char>) -> bool {
    has_infix(content_type, "application/json"@) || has_infix(content_type, "application/hal+json"@)
}

/// Whether a response of this content type is read as JSON: the type names
/// `application/json` or `application/hal+json`.
pub fn accepts_content_type(content_type: &str) -> (r: bool)
    ensures
        r == json_content_type(content_type@),
{
    contains(content_type, "application/json") || contains(content_type, "application/hal+json")
}

/// The frontier item for an endpoint found in the response of `item`.
pub open spec fn follow_up(e: EndpointV, item: QueueItemV) -> QueueItemV {
    QueueItemV { url: e.href, depth: item.depth + 1, parent_url: Some(item.url) }
}

/// The items queued for endpoints found in the response of `item`: one for
/// each crawlable endpoint not visited yet, in order.
pub open spec fn follow_ups(found: Seq<EndpointV>, visited: Seq<Seq<char>>, item: QueueItemV) -> Seq<
    QueueItemV,
> {
    found.filter(|e: EndpointV| crawlable(e) && !visited.contains(e.href)).map_values(
        |e: EndpointV| follow_up(e, item),
    )
}

/// Queueing follows the endpoints one by one.
proof fn lemma_follow_ups_step(found: Seq<EndpointV>, visited: Seq<Seq<char>>, item: QueueItemV)
    requires
        found.len() > 0,
    ensures
        follow_ups(found, visited, item) == if crawlable(found.last()) && !visited.contains(
            found.last().href,
        ) {
            follow_ups(found.drop_last(), visited, item).push(follow_up(found.last(), item))
        } else {
            follow_ups(found.drop_last(), visited, item)
        },
{
    let p = |e: EndpointV| crawlable(e) && !visited.contains(e.href);
    let f = |e: EndpointV| follow_up(e, item);
    reveal_with_fuel(Seq::filter, 1);
    assert(found.filter(p) == if p(found.last()) {
        found.drop_last().filter(p).push(found.last())
    } else {
        found.drop_last().filter(p)
    });
    if p(found.last()) {
        assert(found.filter(p).map_values(f) =~= found.drop_last().filter(p).map_values(f).push(
            f(found.last()),
        ));
    }
}

/// The parent index after recording each of `found` in turn.
pub open spec fn mappings_add_all(
    maps: Seq<(Seq<char>, Seq<EndpointV>)>,
    found: Seq<EndpointV>,
) -> Seq<(Seq<char>, Seq<EndpointV>)>
    decreases found.len(),
{
    if found.len() == 0 {
        maps
    } else {
        mappings_add(mappings_add_all(maps, found.drop_last()), found.last())
    }
}

/// The endpoints a fetch outcome holds for `item`.
pub open spec fn outcome_endpoints(outcome: FetchOutcome, item: QueueItemV) -> Seq<EndpointV> {
    match outcome {
        FetchOutcome::Json(doc) => value_endpoints(doc@, item.url, item.depth),
        _ => Seq::empty(),
    }
}

/// The message recorded for a failed fetch of `url`.
pub open spec fn failure_message(url: Seq<char>, reason: Seq<char>) -> Seq<char> {
    "URL "@ + url + ": "@ + reason
}

impl ApiCrawler {
    /// Starts a crawl from `start_url`: its normal form is queued at depth 0.
    /// Fails where the URL does not parse.
    pub fn start_crawl(&mut self, start_url: &str) -> (r: Result<CrawlResult, CrawlerError>)
        ensures
            match parsed_url(start_url@) {
                Some((text, _)) => r matches Ok(res) && res.wf() && res.start_url@ == start_url@
                    && res.endpoints@.len() == 0 && res.url_mappings@.len() == 0
                    && res.stats.urls_processed == 0 && res.stats.successful_requests == 0
                    && res.stats.failed_requests == 0 && res.stats.urls_skipped == 0
                    && res.stats.max_depth_reached == 0 && res.stats.errors@.len() == 0
                    && final(self).frontier() == old(self).frontier().push(
                    QueueItemV { url: text, depth: 0, parent_url: None },
                ),
                None => r matches Err(CrawlerError::Url(_)) && final(self).frontier() == old(
                    self,
                ).frontier(),
            },
            final(self).settings() == old(self).settings(),
            final(self).visited() == old(self).visited(),
    {
        let result = CrawlResult::new(start_url.to_owned(), &self.config);
        let url = match self.normalize_url(start_url) {
            Ok(u) => u,
            Err(e) => return Err(e),
        };
        let item = QueueItem::new(url, 0, None);
        self.url_queue.push_back(item);
        assert(self.frontier() =~= old(self).frontier().push(item@));
        Ok(result)
    }

    /// Pops the next item to fetch, marks it visited and counts it as handed
    /// out. Items beyond the depth limit, visited already or on a domain not
    /// allowed are dropped and counted as skipped. Gives none once the URL
    /// limit is reached by the URLs processed and those handed out, and then
    /// changes nothing, or once the frontier is empty.
    pub fn next_request(&mut self, result: &mut CrawlResult) -> (r: Option<QueueItem>)
        requires
            old(result).stats.urls_skipped + old(self).frontier().len() <= usize::MAX,
            old(self).outstanding() < usize::MAX,
        ensures
            final(self).settings() == old(self).settings(),
            final(self).outstanding() == old(self).outstanding() + if r is Some {
                1nat
            } else {
                0nat
            },
            *final(result) == (CrawlResult {
                stats: CrawlStats { urls_skipped: final(result).stats.urls_skipped, ..old(result).stats },
                ..*old(result)
            }),
            url_limit_reached(old(self).settings(), old(result).stats.urls_processed as nat, old(self).outstanding()) ==> {
                &&& r is None
                &&& final(self).frontier() == old(self).frontier()
                &&& final(self).visited() == old(self).visited()
                &&& final(result).stats.urls_skipped == old(result).stats.urls_skipped
            },
            !url_limit_reached(old(self).settings(), old(result).stats.urls_processed as nat, old(self).outstanding()) ==> {
                let q = old(self).frontier();
                let ok = |it: QueueItemV| admissible(old(self).settings(), old(self).visited(), it);
                match r {
                    None => {
                        &&& forall|j: int| 0 <= j < q.len() ==> !ok(q[j])
                        &&& final(self).frontier().len() == 0
                        &&& final(self).visited() == old(self).visited()
                        &&& final(result).stats.urls_skipped == old(result).stats.urls_skipped
                            + q.len()
                    },
                    Some(item) => exists|k: int|
                        {
                            &&& 0 <= k < q.len()
                            &&& q[k] == item@
                            &&& ok(q[k])
                            &&& forall|j: int| 0 <= j < k ==> !ok(q[j])
                            &&& final(self).frontier() == q.subrange(k + 1, q.len() as int)
                            &&& final(self).visited() == old(self).visited().push(item@.url)
                            &&& final(result).stats.urls_skipped == old(result).stats.urls_skipped + k
                        },
                }
            },
    {
        if self.config.max_urls > 0 && (result.stats.urls_processed >= self.config.max_urls
            || self.in_flight >= self.config.max_urls - result.stats.urls_processed) {
            return None;
        }
        let ghost q = self.frontier();
        let ghost config = self.config;
        let ghost visited = self.visited();
        let ghost skipped0 = result.stats.urls_skipped;
        let mut i: usize = 0;
        loop
            invariant
                i <= q.len(),
                self.config == config,
                self.visited() == visited,
                self.frontier() == q.subrange(i as int, q.len() as int),
                result.stats.urls_skipped == skipped0 + i,
                skipped0 + q.len() <= usize::MAX,
                forall|j: int| 0 <= j < i ==> !admissible(config, visited, q[j]),
                q == old(self).frontier(),
                visited == old(self).visited(),
                config == old(self).settings(),
                skipped0 == old(result).stats.urls_skipped,
                !url_limit_reached(config, old(result).stats.urls_processed as nat, old(self).outstanding()),
                self.in_flight == old(self).in_flight,
                self.in_flight < usize::MAX,
                *result == (CrawlResult {
                    stats: CrawlStats { urls_skipped: result.stats.urls_skipped, ..old(result).stats },
                    ..*old(result)
                }),
            decreases q.len() - i,
        {
            let ghost before = self.url_queue@;
            let ghost fr = self.frontier();
            assert(fr.len() == before.len());
            assert(forall|j: int| 0 <= j < before.len() ==> fr[j] == before[j]@);
            match self.url_queue.pop_front() {
                None => {
                    assert(self.frontier().len() == 0);
                    assert(i == q.len());
                    return None;
                },
                Some(item) => {
                    proof {
                        assert(i < q.len());
                        assert(fr[0] == before[0]@);
                        assert(fr[0] == q[i as int]);
                        let nf = self.frontier();
                        assert(nf.len() == before.len() - 1);
                        assert forall|k: int| 0 <= k < nf.len() implies nf[k] == q.subrange(
                            i + 1,
                            q.len() as int,
                        )[k] by {
                            assert(self.url_queue@[k] == before[k + 1]);
                            assert(fr[k + 1] == before[k + 1]@);
                        }
                        assert(nf =~= q.subrange(i + 1, q.len() as int));
                    }
                    let depth_ok = self.config.max_depth == 0 || item.depth < self.config.max_depth;
                    if !depth_ok || self.is_visited(item.url.as_str()) || !self.is_domain_allowed(
                        item.url.as_str(),
                    ) {
                        result.stats.urls_skipped = result.stats.urls_skipped + 1;
                        i = i + 1;
                    } else {
                        self.visited_urls.push(item.url.clone());
                        assert(self.visited() =~= visited.push(item@.url));
                        self.in_flight = self.in_flight + 1;
                        return Some(item);
                    }
                },
            }
        }
    }
}

impl ApiCrawler {
    /// Records a successful fetch of `item` whose response held `eps`: every
    /// endpoint is recorded, and each crawlable one whose URL was not visited
    /// yet is queued one level below `item`.
    fn record_found(&mut self, result: &mut CrawlResult, item: &QueueItem, eps: Vec<ApiEndpoint>)
        requires
            old(result).wf(),
            item.depth < usize::MAX,
            old(result).stats.urls_processed < usize::MAX,
            old(result).stats.successful_requests < usize::MAX,
        ensures
            final(self).settings() == old(self).settings(),
            final(self).visited() == old(self).visited(),
            final(self).outstanding() == old(self).outstanding(),
            final(self).frontier() == old(self).frontier() + follow_ups(
                endpoints_view(eps@),
                old(self).visited(),
                item@,
            ),
            final(result).wf(),
            endpoints_view(final(result).endpoints@) == endpoints_view(old(result).endpoints@)
                + endpoints_view(eps@),
            mappings_view(final(result).url_mappings@) == mappings_add_all(
                mappings_view(old(result).url_mappings@),
                endpoints_view(eps@),
            ),
            final(result).stats == (CrawlStats {
                urls_processed: (old(result).stats.urls_processed + 1) as usize,
                successful_requests: (old(result).stats.successful_requests + 1) as usize,
                max_depth_reached: if item.depth > old(result).stats.max_depth_reached {
                    item.depth
                } else {
                    old(result).stats.max_depth_reached
                },
                ..old(result).stats
            }),
            final(result).start_url == old(result).start_url,
            final(result).started_at == old(result).started_at,
            final(result).completed_at == old(result).completed_at,
            final(result).config_snapshot == old(result).config_snapshot,
    {
        result.stats.successful_requests = result.stats.successful_requests + 1;
        result.stats.urls_processed = result.stats.urls_processed + 1;
        if item.depth > result.stats.max_depth_reached {
            result.stats.max_depth_reached = item.depth;
        }
        let ghost found = endpoints_view(eps@);
        let ghost base = endpoints_view(result.endpoints@);
        let ghost maps0 = mappings_view(result.url_mappings@);
        let ghost q0 = self.frontier();
        let ghost visited = self.visited();
        let ghost stats = result.stats;
        let mut i: usize = 0;
        while i < eps.len()
            invariant
                i <= eps.len(),
                item.depth < usize::MAX,
                found == endpoints_view(eps@),
                result.wf(),
                endpoints_view(result.endpoints@) == base + found.take(i as int),
                mappings_view(result.url_mappings@) == mappings_add_all(maps0, found.take(i as int)),
                self.frontier() == q0 + follow_ups(found.take(i as int), visited, item@),
                self.visited() == visited,
                self.config == old(self).config,
                self.in_flight == old(self).in_flight,
                result.stats == stats,
                result.start_url == old(result).start_url,
                result.started_at == old(result).started_at,
                result.completed_at == old(result).completed_at,
                result.config_snapshot == old(result).config_snapshot,
            decreases eps.len() - i,
        {
            let ghost e = eps[i as int]@;
            proof {
                assert(found.take(i + 1).drop_last() =~= found.take(i as int));
                assert(found.take(i + 1).last() == e);
            }
            result.add_endpoint(eps[i].deep_clone());
            proof {
                assert(base + found.take(i + 1) =~= (base + found.take(i as int)).push(e));
            }
            if eps[i].should_crawl() && !self.is_visited(eps[i].href.as_str()) {
                let next = QueueItem::new(eps[i].href.clone(), item.depth + 1, Some(item.url.clone()));
                self.url_queue.push_back(next);
                proof {
                    lemma_follow_ups_step(found.take(i + 1), visited, item@);
                    assert(next@ == follow_up(e, item@));
                    assert(self.frontier() =~= (q0 + follow_ups(found.take(i as int), visited, item@)).push(next@));
                    assert(self.frontier() =~= q0 + follow_ups(found.take(i + 1), visited, item@));
                }
            } else {
                proof {
                    lemma_follow_ups_step(found.take(i + 1), visited, item@);
                    assert(follow_ups(found.take(i + 1), visited, item@) == follow_ups(
                        found.take(i as int),
                        visited,
                        item@,
                    ));
                }
            }
            i = i + 1;
        }
        proof {
            assert(found.take(i as int) =~= found);
        }
    }

    /// Records what fetching `item`, handed out earlier, gave; it no longer
    /// counts as handed out. A failure is counted and its message kept.
    /// Otherwise the fetch counts as processed, and the endpoints of a JSON
    /// document are recorded, all one level below `item`, with each crawlable
    /// one whose URL was not visited yet queued.
    pub fn record_response(&mut self, result: &mut CrawlResult, item: &QueueItem, outcome: FetchOutcome)
        requires
            old(result).wf(),
            item.depth < usize::MAX,
            old(result).stats.urls_processed < usize::MAX,
            old(result).stats.successful_requests < usize::MAX,
            old(result).stats.failed_requests < usize::MAX,
        ensures
            final(self).settings() == old(self).settings(),
            final(self).visited() == old(self).visited(),
            final(self).outstanding() == if old(self).outstanding() > 0 {
                (old(self).outstanding() - 1) as nat
            } else {
                0nat
            },
            final(result).wf(),
            final(result).start_url == old(result).start_url,
            final(result).started_at == old(result).started_at,
            final(result).completed_at == old(result).completed_at,
            final(result).config_snapshot == old(result).config_snapshot,
            match outcome {
                FetchOutcome::Failed(reason) => {
                    &&& final(result).stats == (CrawlStats {
                        failed_requests: (old(result).stats.failed_requests + 1) as usize,
                        errors: final(result).stats.errors,
                        ..old(result).stats
                    })
                    &&& final(result).stats.errors@.drop_last() == old(result).stats.errors@
                    &&& final(result).stats.errors@.len() == old(result).stats.errors@.len() + 1
                    &&& final(result).stats.errors@.last()@ == failure_message(item.url@, reason@)
                    &&& final(result).endpoints == old(result).endpoints
                    &&& final(result).url_mappings == old(result).url_mappings
                    &&& final(self).frontier() == old(self).frontier()
                },
                _ => {
                    let found = outcome_endpoints(outcome, item@);
                    &&& final(result).stats == (CrawlStats {
                        urls_processed: (old(result).stats.urls_processed + 1) as usize,
                        successful_requests: (old(result).stats.successful_requests + 1) as usize,
                        max_depth_reached: if item.depth > old(result).stats.max_depth_reached {
                            item.depth
                        } else {
                            old(result).stats.max_depth_reached
                        },
                        ..old(result).stats
                    })
                    &&& endpoints_view(final(result).endpoints@) == endpoints_view(
                        old(result).endpoints@,
                    ) + found
                    &&& mappings_view(final(result).url_mappings@) == mappings_add_all(
                        mappings_view(old(result).url_mappings@),
                        found,
                    )
                    &&& final(self).frontier() == old(self).frontier() + follow_ups(
                        found,
                        old(self).visited(),
                        item@,
                    )
                    &&& forall|k: int|
                        old(result).endpoints@.len() <= k < final(result).endpoints@.len() ==> {
                            &&& #[trigger] final(result).endpoints@[k].depth == item.depth + 1
                            &&& final(result).endpoints@[k]@.parent_url == Some(item.url@)
                        }
                },
            },
    {
        let ghost outcome_v = outcome;
        if self.in_flight > 0 {
            self.in_flight = self.in_flight - 1;
        }
        let ghost n0 = result.endpoints@.len();
        match outcome {
            FetchOutcome::Failed(reason) => {
                result.stats.failed_requests = result.stats.failed_requests + 1;
                let message = "URL ".to_owned().concat(item.url.as_str()).concat(": ").concat(
                    reason.as_str(),
                );
                result.stats.errors.push(message);
                assert(result.stats.errors@.drop_last() =~= old(result).stats.errors@);
            },
            FetchOutcome::Json(doc) => {
                proof {
                    lemma_value_from(doc@, item.url@, item.depth as nat);
                }
                match self.extract_endpoints_from_json(&doc, item) {
                    Ok(eps) => self.record_found(result, item, eps),
                    Err(_) => {},
                }
            },
            FetchOutcome::NotJson => {
                let eps: Vec<ApiEndpoint> = Vec::new();
                assert(endpoints_view(eps@) =~= Seq::<EndpointV>::empty());
                self.record_found(result, item, eps);
            },
        }
        proof {
            if !(outcome_v is Failed) {
                let found = outcome_endpoints(outcome_v, item@);
                match outcome_v {
                    FetchOutcome::Json(d) => lemma_value_from(d@, item.url@, item.depth as nat),
                    _ => {},
                }
                assert(all_found_from(found, item.url@, item.depth as nat));
                let ev1 = endpoints_view(result.endpoints@);
                assert(ev1 == endpoints_view(old(result).endpoints@) + found);
                assert(endpoints_view(old(result).endpoints@).len() == n0);
                assert forall|k: int|
                    n0 <= k < result.endpoints@.len() implies #[trigger] result.endpoints@[k].depth
                    == item.depth + 1 && result.endpoints@[k]@.parent_url == Some(item.url@) by {
                    assert(ev1[k] == result.endpoints@[k]@);
                    assert(ev1[k] == found[k - n0]);
                }
            }
        }
    }
}

/// A header problem among the first `n` headers is the first problem among
/// any longer prefix.
proof fn lemma_header_error_stays(headers: Seq<(Seq<char>, Seq<char>)>, n: nat, m: nat)
    requires
        n <= m <= headers.len(),
    ensures
        header_error(headers, n) is Some ==> header_error(headers, m) == header_error(headers, n),
    decreases m - n,
{
    if n < m {
        lemma_header_error_stays(headers, n, (m - 1) as nat);
    }
}

} // verus!
