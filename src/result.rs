//! What a crawl produces, and how endpoints are recorded in it.

use vstd::prelude::*;
use crate::config::{CrawlStats, CrawlerConfig};
use crate::json::{key_index, lemma_key_index, lemma_key_index_bounds};
use crate::text::{decimal, decimal_of, str_eq};
use vstd::string::StringExecFns;
use crate::types::{ApiEndpoint, EndpointV, endpoints_view, lemma_endpoints_push, opt_view};
use crate::urls::{domain_of, parse_url};

verus! {

/// The endpoints of `eps` found from `parent`, in order.
pub open spec fn children_of(eps: Seq<EndpointV>, parent: Seq<char>) -> Seq<EndpointV> {
    eps.filter(|e: EndpointV| e.parent_url == Some(parent))
}

/// The parent-to-children index, as values.
pub open spec fn mappings_view(m: Seq<(String, Vec<ApiEndpoint>)>) -> Seq<(Seq<char>, Seq<EndpointV>)> {
    m.map_values(|x: (String, Vec<ApiEndpoint>)| (x.0@, endpoints_view(x.1@)))
}

/// The index agrees with the endpoints: each parent has one entry, which
/// holds exactly its children in order and is never empty, and every parent
/// that an endpoint names has an entry.
pub open spec fn mappings_consistent(
    eps: Seq<EndpointV>,
    maps: Seq<(Seq<char>, Seq<EndpointV>)>,
) -> bool {
    &&& forall|i: int, j: int| 0 <= i < j < maps.len() ==> maps[i].0 != maps[j].0
    &&& forall|i: int| 0 <= i < maps.len() ==> maps[i].1 == children_of(eps, maps[i].0)
    &&& forall|k: int|
        0 <= k < eps.len() && eps[k].parent_url is Some ==> key_index(maps, eps[k].parent_url->0) >= 0
    &&& forall|i: int| 0 <= i < maps.len() ==> maps[i].1.len() > 0
}

/// The index after recording `e`: it joins the list of its parent, which is
/// created where there is none.
pub open spec fn mappings_add(
    maps: Seq<(Seq<char>, Seq<EndpointV>)>,
    e: EndpointV,
) -> Seq<(Seq<char>, Seq<EndpointV>)> {
    match e.parent_url {
        Some(p) => {
            let i = key_index(maps, p);
            if i >= 0 {
                maps.update(i, (p, maps[i].1.push(e)))
            } else {
                maps.push((p, seq![e]))
            }
        },
        None => maps,
    }
}

/// The distinct domains of the endpoints' URLs, in order of first appearance.
pub open spec fn domains_of(eps: Seq<EndpointV>) -> Seq<Seq<char>>
    decreases eps.len(),
{
    if eps.len() == 0 {
        Seq::empty()
    } else {
        let prev = domains_of(eps.drop_last());
        match domain_of(eps.last().href) {
            Some(d) => if prev.contains(d) {
                prev
            } else {
                prev.push(d)
            },
            None => prev,
        }
    }
}

/// Relies on `chrono::Utc::now`: the current time in milliseconds since the
/// Unix epoch.
#[verifier::external_body]
fn now_millis() -> (r: i64) {
    chrono::Utc::now().timestamp_millis()
}

/// Relies on the `Debug` formatting of std: a text rendering of the settings.
#[verifier::external_body]
fn describe_config(config: &CrawlerConfig) -> (r: String) {
    format!("{:?}", config)
}

/// The result of one crawl.
#[derive(Debug)]
pub struct CrawlResult {
    /// The URL the crawl started from.
    pub start_url: String,
    /// Every endpoint found, in order of discovery; the same href may occur
    /// more than once.
    pub endpoints: Vec<ApiEndpoint>,
    /// For each parent URL, the endpoints found in its response, in order.
    pub url_mappings: Vec<(String, Vec<ApiEndpoint>)>,
    /// Counters of the crawl.
    pub stats: CrawlStats,
    /// When the crawl started, in milliseconds since the Unix epoch (UTC).
    pub started_at: i64,
    /// When the crawl completed, in milliseconds since the Unix epoch (UTC).
    pub completed_at: i64,
    /// A rendering of the settings the crawl ran with.
    pub config_snapshot: String,
}

impl CrawlResult {
    /// The parent-to-children index agrees with the endpoints.
    pub open spec fn wf(&self) -> bool {
        mappings_consistent(endpoints_view(self.endpoints@), mappings_view(self.url_mappings@))
    }

    /// An empty result for a crawl from `start_url`, started now.
    pub fn new(start_url: String, config: &CrawlerConfig) -> (r: CrawlResult)
        ensures
            r.wf(),
            r.start_url@ == start_url@,
            r.endpoints@.len() == 0,
            r.url_mappings@.len() == 0,
            r.stats.urls_processed == 0,
            r.stats.successful_requests == 0,
            r.stats.failed_requests == 0,
            r.stats.urls_skipped == 0,
            r.stats.max_depth_reached == 0,
            r.stats.total_time_ms == 0,
            r.stats.errors@.len() == 0,
            r.completed_at == r.started_at,
    {
        let now = now_millis();
        CrawlResult {
            start_url,
            endpoints: Vec::new(),
            url_mappings: Vec::new(),
            stats: CrawlStats::default(),
            started_at: now,
            completed_at: now,
            config_snapshot: describe_config(config),
        }
    }

    /// Records `endpoint`: appends it to the endpoints and, where it names a
    /// parent, to that parent's list. Nothing is deduplicated.
    pub fn add_endpoint(&mut self, endpoint: ApiEndpoint)
        requires
            old(self).wf(),
        ensures
            final(self).wf(),
            endpoints_view(final(self).endpoints@) == endpoints_view(old(self).endpoints@).push(
                endpoint@,
            ),
            mappings_view(final(self).url_mappings@) == mappings_add(
                mappings_view(old(self).url_mappings@),
                endpoint@,
            ),
            final(self).start_url == old(self).start_url,
            final(self).stats == old(self).stats,
            final(self).started_at == old(self).started_at,
            final(self).completed_at == old(self).completed_at,
            final(self).config_snapshot == old(self).config_snapshot,
    {
        let ghost eps0 = endpoints_view(self.endpoints@);
        let ghost maps0 = mappings_view(self.url_mappings@);
        let ghost e = endpoint@;
        let copy = endpoint.deep_clone();
        proof {
            lemma_endpoints_push(self.endpoints@, copy);
        }
        self.endpoints.push(copy);
        let ghost eps1 = endpoints_view(self.endpoints@);
        proof {
            assert(eps1.drop_last() =~= eps0);
            assert forall|q: Seq<char>| #[trigger]
                children_of(eps1, q) == if e.parent_url == Some(q) {
                    children_of(eps0, q).push(e)
                } else {
                    children_of(eps0, q)
                } by {
                assert(eps1.last() == e);
                assert(eps1.len() > 0);
                reveal_with_fuel(Seq::filter, 1);
                assert(eps1.filter(|x: EndpointV| x.parent_url == Some(q)) == if e.parent_url == Some(q) {
                    eps1.drop_last().filter(|x: EndpointV| x.parent_url == Some(q)).push(e)
                } else {
                    eps1.drop_last().filter(|x: EndpointV| x.parent_url == Some(q))
                });
            }
        }
        match &endpoint.parent_url {
            Some(parent) => {
                let mut i: usize = 0;
                let mut found = false;
                while i < self.url_mappings.len() && !found
                    invariant
                        i <= self.url_mappings.len(),
                        maps0 == mappings_view(self.url_mappings@),
                        found ==> i < self.url_mappings.len() && maps0[i as int].0 == parent@,
                        forall|k: int| 0 <= k < i ==> maps0[k].0 != parent@,
                    decreases self.url_mappings.len() - i + (if found { 0int } else { 1int }),
                {
                    if str_eq(self.url_mappings[i].0.as_str(), parent.as_str()) {
                        found = true;
                    } else {
                        i = i + 1;
                    }
                }
                proof {
                    if i < self.url_mappings.len() {
                        assert(maps0[i as int].0 == parent@);
                    }
                    lemma_key_index(maps0, parent@, i as int);
                }
                if i < self.url_mappings.len() {
                    let (key, mut list) = self.url_mappings.remove(i);
                    let c = endpoint.deep_clone();
                    proof {
                        lemma_endpoints_push(list@, c);
                    }
                    list.push(c);
                    self.url_mappings.insert(i, (key, list));
                    proof {
                        assert(mappings_view(self.url_mappings@) =~= maps0.update(
                            i as int,
                            (parent@, maps0[i as int].1.push(e)),
                        ));
                    }
                } else {
                    let mut list: Vec<ApiEndpoint> = Vec::new();
                    let c = endpoint.deep_clone();
                    proof {
                        lemma_endpoints_push(list@, c);
                    }
                    list.push(c);
                    self.url_mappings.push((parent.clone(), list));
                    proof {
                        assert(endpoints_view(list@) =~= seq![e]);
                        assert(mappings_view(self.url_mappings@) =~= maps0.push((parent@, seq![e])));
                        let p = parent@;
                        let pred = |x: EndpointV| x.parent_url == Some(p);
                        assert(children_of(eps0, p) == eps0.filter(pred));
                        if children_of(eps0, p).len() > 0 {
                            let w = eps0.filter(pred)[0];
                            assert(eps0.filter(pred).contains(w));
                            eps0.lemma_filter_pred(pred, 0);
                            eps0.lemma_filter_contains_rev(pred, w);
                            let k = choose|k: int| 0 <= k < eps0.len() && eps0[k] == w;
                            assert(key_index(maps0, p) >= 0);
                        }
                        assert(children_of(eps1, p) =~= seq![e]);
                    }
                }
            },
            None => {},
        }
        proof {
            let maps1 = mappings_view(self.url_mappings@);
            assert(maps1 == mappings_add(maps0, e));
            if e.parent_url is Some {
                lemma_key_index_bounds(maps0, e.parent_url->0);
            }
            assert(maps1.len() >= maps0.len());
            assert forall|j: int| 0 <= j < maps0.len() implies #[trigger] maps1[j].0 == maps0[j].0 by {}
            assert(e.parent_url is Some ==> exists|j: int| 0 <= j < maps1.len() && maps1[j].0 == e.parent_url->0) by {
                if e.parent_url is Some {
                    let p = e.parent_url->0;
                    let i0 = key_index(maps0, p);
                    if i0 >= 0 {
                        assert(maps1[i0].0 == p);
                    } else {
                        assert(maps1[maps0.len() as int].0 == p);
                    }
                }
            }
            assert forall|k: int|
                0 <= k < eps1.len() && eps1[k].parent_url is Some implies key_index(
                maps1,
                eps1[k].parent_url->0,
            ) >= 0 by {
                let q = eps1[k].parent_url->0;
                lemma_key_index_bounds(maps0, q);
                lemma_key_index_bounds(maps1, q);
                if k < eps0.len() {
                    assert(eps1[k] == eps0[k]);
                    let j = key_index(maps0, q);
                    assert(maps1[j].0 == q);
                } else {
                    assert(eps1[k] == e);
                    let j = choose|j: int| 0 <= j < maps1.len() && maps1[j].0 == q;
                    assert(maps1[j].0 == q);
                }
            }
        }
    }
}

impl CrawlResult {
    /// Marks the crawl completed now, and takes the time it took from the
    /// two timestamps (0 where the clock went back).
    pub fn complete(&mut self)
        requires
            old(self).wf(),
        ensures
            final(self).wf(),
            final(self).stats.total_time_ms == if final(self).completed_at >= old(self).started_at {
                (final(self).completed_at - old(self).started_at) as u128
            } else {
                0u128
            },
            final(self).stats == (CrawlStats { total_time_ms: final(self).stats.total_time_ms, ..old(self).stats }),
            final(self).start_url == old(self).start_url,
            final(self).endpoints == old(self).endpoints,
            final(self).url_mappings == old(self).url_mappings,
            final(self).started_at == old(self).started_at,
            final(self).config_snapshot == old(self).config_snapshot,
    {
        self.completed_at = now_millis();
        let elapsed: i128 = self.completed_at as i128 - self.started_at as i128;
        self.stats.total_time_ms = if elapsed >= 0 {
            elapsed as u128
        } else {
            0
        };
    }

    /// The endpoints found at `depth`, in order.
    pub fn endpoints_at_depth(&self, depth: usize) -> (r: Vec<&ApiEndpoint>)
        ensures
            r@.map_values(|e: &ApiEndpoint| e@) == endpoints_view(self.endpoints@).filter(
                |e: EndpointV| e.depth == depth,
            ),
    {
        let ghost ev = endpoints_view(self.endpoints@);
        let mut out: Vec<&ApiEndpoint> = Vec::new();
        let mut i: usize = 0;
        while i < self.endpoints.len()
            invariant
                i <= self.endpoints.len(),
                ev == endpoints_view(self.endpoints@),
                out@.map_values(|e: &ApiEndpoint| e@) == ev.take(i as int).filter(
                    |e: EndpointV| e.depth == depth,
                ),
            decreases self.endpoints.len() - i,
        {
            proof {
                assert(ev.take(i + 1).drop_last() =~= ev.take(i as int));
                assert(ev.take(i + 1).last() == ev[i as int]);
            }
            let ghost before = out@;
            proof {
                let t = ev.take(i + 1);
                assert(t.len() > 0);
                reveal_with_fuel(Seq::filter, 1);
                assert(t.filter(|e: EndpointV| e.depth == depth) == if t.last().depth == depth {
                    t.drop_last().filter(|e: EndpointV| e.depth == depth).push(t.last())
                } else {
                    t.drop_last().filter(|e: EndpointV| e.depth == depth)
                });
            }
            if self.endpoints[i].depth == depth {
                out.push(&self.endpoints[i]);
                assert(out@.map_values(|e: &ApiEndpoint| e@) =~= before.map_values(|e: &ApiEndpoint| e@).push(ev[i as int]));
            }
            i = i + 1;
        }
        assert(ev.take(i as int) =~= ev);
        out
    }

    /// The distinct domains of the endpoints' URLs, in order of first
    /// appearance. URLs that do not parse, or have no domain, add none.
    pub fn discovered_domains(&self) -> (r: Vec<String>)
        ensures
            r@.map_values(|s: String| s@) == domains_of(endpoints_view(self.endpoints@)),
    {
        let ghost ev = endpoints_view(self.endpoints@);
        let mut out: Vec<String> = Vec::new();
        let mut i: usize = 0;
        while i < self.endpoints.len()
            invariant
                i <= self.endpoints.len(),
                ev == endpoints_view(self.endpoints@),
                out@.map_values(|s: String| s@) == domains_of(ev.take(i as int)),
            decreases self.endpoints.len() - i,
        {
            proof {
                assert(ev.take(i + 1).drop_last() =~= ev.take(i as int));
                assert(ev.take(i + 1).last() == ev[i as int]);
            }
            let ghost dv = out@.map_values(|s: String| s@);
            let domain = match parse_url(self.endpoints[i].href.as_str()) {
                Ok((_, d)) => d,
                Err(_) => None,
            };
            assert(domain_of(ev[i as int].href) == opt_view(domain));
            match domain {
                Some(d) => {
                    let mut j: usize = 0;
                    let mut seen = false;
                    while j < out.len() && !seen
                        invariant
                            j <= out.len(),
                            dv == out@.map_values(|s: String| s@),
                            seen ==> j < out.len() && dv[j as int] == d@,
                            forall|k: int| 0 <= k < j ==> dv[k] != d@,
                        decreases out.len() - j + (if seen { 0int } else { 1int }),
                    {
                        if str_eq(out[j].as_str(), d.as_str()) {
                            seen = true;
                        } else {
                            j = j + 1;
                        }
                    }
                    if !seen {
                        assert(!dv.contains(d@));
                        let ghost dd = d@;
                        out.push(d);
                        assert(out@.map_values(|s: String| s@) =~= dv.push(dd));
                    } else {
                        assert(dv.contains(d@));
                    }
                },
                None => {},
            }
            i = i + 1;
        }
        assert(ev.take(i as int) =~= ev);
        out
    }
}

impl CrawlResult {
    /// The endpoints found from `parent`, where the index has an entry for it.
    pub fn url_mapping(&self, parent: &str) -> (r: Option<&Vec<ApiEndpoint>>)
        ensures
            ({
                let maps = mappings_view(self.url_mappings@);
                let i = key_index(maps, parent@);
                match r {
                    Some(list) => i >= 0 && endpoints_view(list@) == maps[i].1,
                    None => i < 0,
                }
            }),
    {
        let ghost maps = mappings_view(self.url_mappings@);
        let mut i: usize = 0;
        while i < self.url_mappings.len()
            invariant
                i <= self.url_mappings.len(),
                maps == mappings_view(self.url_mappings@),
                forall|k: int| 0 <= k < i ==> maps[k].0 != parent@,
            decreases self.url_mappings.len() - i,
        {
            if str_eq(self.url_mappings[i].0.as_str(), parent) {
                proof {
                    lemma_key_index(maps, parent@, i as int);
                }
                return Some(&self.url_mappings[i].1);
            }
            i = i + 1;
        }
        proof {
            lemma_key_index(maps, parent@, i as int);
        }
        None
    }
}

/// The one-line summary of a result with the given counts.
pub open spec fn summary_text(processed: nat, endpoints: nat, domains: nat, millis: nat) -> Seq<char> {
    "Crawled "@ + decimal_of(processed) + " URLs, found "@ + decimal_of(endpoints)
        + " endpoints across "@ + decimal_of(domains) + " domains in "@ + decimal_of(millis) + "ms"@
}

impl CrawlResult {
    /// A one-line summary: URLs processed, endpoints found, distinct domains
    /// and time taken.
    pub fn summary(&self) -> (r: String)
        ensures
            r@ == summary_text(
                self.stats.urls_processed as nat,
                self.endpoints@.len(),
                domains_of(endpoints_view(self.endpoints@)).len(),
                self.stats.total_time_ms as nat,
            ),
    {
        let domains = self.discovered_domains();
        let r = "Crawled ".to_owned().concat(decimal(self.stats.urls_processed as u128).as_str()).concat(
            " URLs, found ",
        ).concat(decimal(self.endpoints.len() as u128).as_str()).concat(" endpoints across ").concat(
            decimal(domains.len() as u128).as_str(),
        ).concat(" domains in ").concat(decimal(self.stats.total_time_ms).as_str()).concat("ms");
        r
    }
}

} // verus!
