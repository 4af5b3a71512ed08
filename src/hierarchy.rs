//! The hierarchical view: endpoints grouped under the URL whose response
//! named them.

use vstd::prelude::*;
use crate::json::{key_index, lemma_key_index, lemma_key_index_bounds};
use crate::result::{CrawlResult, children_of, domains_of, mappings_consistent, mappings_view};
use crate::text::str_eq;
use crate::types::{ApiEndpoint, EndpointV, endpoints_view, lemma_endpoints_push};

verus! {

/// The group an endpoint belongs to: its parent URL, or the start URL where
/// it names none.
pub open spec fn group_key(e: EndpointV, start: Seq<char>) -> Seq<char> {
    match e.parent_url {
        Some(p) => p,
        None => start,
    }
}

/// The endpoints of group `k`, in order.
pub open spec fn group_of(eps: Seq<EndpointV>, start: Seq<char>, k: Seq<char>) -> Seq<EndpointV> {
    eps.filter(|e: EndpointV| group_key(e, start) == k)
}

/// The groups agree with the endpoints: one group per key, holding exactly
/// its endpoints in order, and a group for every endpoint.
pub open spec fn groups_consistent(
    eps: Seq<EndpointV>,
    start: Seq<char>,
    groups: Seq<(Seq<char>, Seq<EndpointV>)>,
) -> bool {
    &&& forall|i: int, j: int| 0 <= i < j < groups.len() ==> groups[i].0 != groups[j].0
    &&& forall|i: int| 0 <= i < groups.len() ==> groups[i].1 == group_of(eps, start, groups[i].0)
    &&& forall|k: int| 0 <= k < eps.len() ==> key_index(groups, group_key(eps[k], start)) >= 0
    &&& forall|i: int| 0 <= i < groups.len() ==> groups[i].1.len() > 0
}

/// The distinct group keys of the endpoints, in order of first appearance.
pub open spec fn group_keys(eps: Seq<EndpointV>, start: Seq<char>) -> Seq<Seq<char>>
    decreases eps.len(),
{
    if eps.len() == 0 {
        Seq::empty()
    } else {
        let prev = group_keys(eps.drop_last(), start);
        let k = group_key(eps.last(), start);
        if prev.contains(k) {
            prev
        } else {
            prev.push(k)
        }
    }
}

/// The keys of groups, in order.
pub open spec fn keys_of(groups: Seq<(Seq<char>, Seq<EndpointV>)>) -> Seq<Seq<char>> {
    groups.map_values(|g: (Seq<char>, Seq<EndpointV>)| g.0)
}

/// A crawl result with its endpoints grouped by parent, and summary counts.
#[derive(Debug)]
pub struct HierarchicalView {
    /// The URL the crawl started from.
    pub start_url: String,
    /// For each parent URL, in order of first appearance, its endpoints.
    pub groups: Vec<(String, Vec<ApiEndpoint>)>,
    /// How many endpoints were found.
    pub total_endpoints: usize,
    /// How many groups there are: the distinct parent keys.
    pub unique_parents: usize,
    /// How many distinct domains the endpoints' URLs have.
    pub discovered_domains: usize,
}

/// Groups the endpoints of `result` by parent URL, those without one under
/// the start URL.
pub fn hierarchical_view(result: &CrawlResult) -> (r: HierarchicalView)
    ensures
        r.start_url@ == result.start_url@,
        groups_consistent(endpoints_view(result.endpoints@), result.start_url@, mappings_view(r.groups@)),
        r.total_endpoints == result.endpoints@.len(),
        keys_of(mappings_view(r.groups@)) == group_keys(endpoints_view(result.endpoints@), result.start_url@),
        r.unique_parents == r.groups@.len(),
        r.discovered_domains == domains_of(endpoints_view(result.endpoints@)).len(),
{
    let ghost ev = endpoints_view(result.endpoints@);
    let ghost start = result.start_url@;
    let mut groups: Vec<(String, Vec<ApiEndpoint>)> = Vec::new();
    let mut i: usize = 0;
    while i < result.endpoints.len()
        invariant
            i <= result.endpoints.len(),
            ev == endpoints_view(result.endpoints@),
            start == result.start_url@,
            groups_consistent(ev.take(i as int), start, mappings_view(groups@)),
            keys_of(mappings_view(groups@)) == group_keys(ev.take(i as int), start),
        decreases result.endpoints.len() - i,
    {
        let ghost eps0 = ev.take(i as int);
        let ghost eps1 = ev.take(i + 1);
        let ghost maps0 = mappings_view(groups@);
        let ghost e = ev[i as int];
        proof {
            assert(eps1.drop_last() =~= eps0);
            assert(eps1.last() == e);
            assert forall|q: Seq<char>| #[trigger]
                group_of(eps1, start, q) == if group_key(e, start) == q {
                    group_of(eps0, start, q).push(e)
                } else {
                    group_of(eps0, start, q)
                } by {
                reveal_with_fuel(Seq::filter, 1);
                assert(eps1.filter(|x: EndpointV| group_key(x, start) == q) == if group_key(e, start) == q {
                    eps1.drop_last().filter(|x: EndpointV| group_key(x, start) == q).push(e)
                } else {
                    eps1.drop_last().filter(|x: EndpointV| group_key(x, start) == q)
                });
            }
        }
        let endpoint = &result.endpoints[i];
        let key: &str = match &endpoint.parent_url {
            Some(p) => p.as_str(),
            None => result.start_url.as_str(),
        };
        assert(key@ == group_key(e, start));
        let mut j: usize = 0;
        let mut found = false;
        while j < groups.len() && !found
            invariant
                j <= groups.len(),
                maps0 == mappings_view(groups@),
                found ==> j < groups.len() && maps0[j as int].0 == key@,
                forall|k: int| 0 <= k < j ==> maps0[k].0 != key@,
            decreases groups.len() - j + (if found { 0int } else { 1int }),
        {
            if str_eq(groups[j].0.as_str(), key) {
                found = true;
            } else {
                j = j + 1;
            }
        }
        proof {
            lemma_key_index(maps0, key@, j as int);
        }
        let c = endpoint.deep_clone();
        if j < groups.len() {
            let (k, mut list) = groups.remove(j);
            proof {
                lemma_endpoints_push(list@, c);
            }
            list.push(c);
            groups.insert(j, (k, list));
            proof {
                assert(mappings_view(groups@) =~= maps0.update(j as int, (key@, maps0[j as int].1.push(e))));
                assert(keys_of(maps0)[j as int] == key@);
                assert(keys_of(maps0).contains(key@));
                assert(keys_of(mappings_view(groups@)) =~= keys_of(maps0));
                assert(group_keys(eps1, start) == group_keys(eps0, start));
            }
        } else {
            let mut list: Vec<ApiEndpoint> = Vec::new();
            proof {
                lemma_endpoints_push(list@, c);
            }
            list.push(c);
            groups.push((key.to_owned(), list));
            proof {
                assert(endpoints_view(list@) =~= seq![e]);
                assert(mappings_view(groups@) =~= maps0.push((key@, seq![e])));
                let p = key@;
                let pred = |x: EndpointV| group_key(x, start) == p;
                assert(group_of(eps0, start, p) == eps0.filter(pred));
                if group_of(eps0, start, p).len() > 0 {
                    let w = eps0.filter(pred)[0];
                    assert(eps0.filter(pred).contains(w));
                    eps0.lemma_filter_pred(pred, 0);
                    eps0.lemma_filter_contains_rev(pred, w);
                    let k = choose|k: int| 0 <= k < eps0.len() && eps0[k] == w;
                    assert(key_index(maps0, p) >= 0);
                }
                assert(group_of(eps1, start, p) =~= seq![e]);
                assert(!keys_of(maps0).contains(p)) by {
                    if keys_of(maps0).contains(p) {
                        let t = choose|t: int| 0 <= t < keys_of(maps0).len() && keys_of(maps0)[t] == p;
                        assert(maps0[t].0 == p);
                    }
                }
                assert(keys_of(mappings_view(groups@)) =~= keys_of(maps0).push(p));
                assert(group_keys(eps1, start) == group_keys(eps0, start).push(p));
            }
        }
        proof {
            let maps1 = mappings_view(groups@);
            let p = key@;
            lemma_key_index_bounds(maps0, p);
            assert forall|t: int| 0 <= t < maps0.len() implies #[trigger] maps1[t].0 == maps0[t].0 by {}
            assert(exists|t: int| 0 <= t < maps1.len() && maps1[t].0 == p) by {
                if j < maps0.len() {
                    assert(maps1[j as int].0 == p);
                } else {
                    assert(maps1[maps0.len() as int].0 == p);
                }
            }
            assert forall|k: int| 0 <= k < eps1.len() implies key_index(maps1, group_key(eps1[k], start)) >= 0 by {
                let q = group_key(eps1[k], start);
                lemma_key_index_bounds(maps0, q);
                lemma_key_index_bounds(maps1, q);
                if k < eps0.len() {
                    assert(eps1[k] == eps0[k]);
                    let t = key_index(maps0, q);
                    assert(maps1[t].0 == q);
                } else {
                    assert(eps1[k] == e);
                    let t = choose|t: int| 0 <= t < maps1.len() && maps1[t].0 == p;
                    assert(maps1[t].0 == q);
                }
            }
        }
        i = i + 1;
    }
    assert(ev.take(i as int) =~= ev);
    let domains = result.discovered_domains();
    let groups_len = groups.len();
    HierarchicalView {
        start_url: result.start_url.clone(),
        groups,
        total_endpoints: result.endpoints.len(),
        unique_parents: groups_len,
        discovered_domains: domains.len(),
    }
}

proof fn lemma_filter_same(s: Seq<EndpointV>, f: spec_fn(EndpointV) -> bool, g: spec_fn(EndpointV) -> bool)
    requires
        forall|i: int| 0 <= i < s.len() ==> f(s[i]) == g(s[i]),
    ensures
        s.filter(f) == s.filter(g),
    decreases s.len(),
{
    reveal_with_fuel(Seq::filter, 1);
    if s.len() > 0 {
        lemma_filter_same(s.drop_last(), f, g);
        assert(f(s.last()) == g(s[s.len() - 1]));
    }
}

/// Re-deriving per-parent counts from the hierarchical view gives the length
/// of the parent index's list, for every parent URL an endpoint names. Where
/// that URL is the start URL, this holds when every endpoint names a parent:
/// the view also files endpoints without a parent under the start URL.
pub proof fn lemma_hierarchy_counts(
    eps: Seq<EndpointV>,
    maps: Seq<(Seq<char>, Seq<EndpointV>)>,
    groups: Seq<(Seq<char>, Seq<EndpointV>)>,
    start: Seq<char>,
    k: int,
)
    requires
        mappings_consistent(eps, maps),
        groups_consistent(eps, start, groups),
        0 <= k < eps.len(),
        eps[k].parent_url is Some,
        eps[k].parent_url->0 == start ==> forall|j: int| 0 <= j < eps.len() ==> eps[j].parent_url is Some,
    ensures
        ({
            let p = eps[k].parent_url->0;
            &&& key_index(groups, p) >= 0
            &&& key_index(maps, p) >= 0
            &&& groups[key_index(groups, p)].1.len() == maps[key_index(maps, p)].1.len()
        }),
{
    let p = eps[k].parent_url->0;
    lemma_key_index_bounds(groups, p);
    lemma_key_index_bounds(maps, p);
    assert(group_key(eps[k], start) == p);
    let f = |e: EndpointV| group_key(e, start) == p;
    let g = |e: EndpointV| e.parent_url == Some(p);
    assert forall|i: int| 0 <= i < eps.len() implies f(eps[i]) == g(eps[i]) by {}
    lemma_filter_same(eps, f, g);
    assert(group_of(eps, start, p) == eps.filter(f));
    assert(children_of(eps, p) == eps.filter(g));
}

} // verus!
