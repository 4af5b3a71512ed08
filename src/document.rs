//! The JSON documents a crawl result is presented as: the flat result, the
//! hierarchical view and the tree. Fields without a value are left out.

use vstd::prelude::*;
use crate::config::CrawlStats;
use crate::json::{Json, JsonV, members_view, obj_get_str};
use crate::hierarchy::HierarchicalView;
use crate::output::OutputConfig;
use crate::result::{CrawlResult, domains_of, mappings_view};
use crate::tree::{ApiTree, lists_view, max_depth_of, max_record_depth};
use crate::text::{decimal, decimal_of, last_path_segment, last_segment};
use crate::types::{ApiEndpoint, EndpointV, endpoints_view, opt_view};

verus! {

/// A number member's value.
pub open spec fn num(n: nat) -> JsonV {
    JsonV::Num(decimal_of(n))
}

/// A string member, where there is a value.
pub open spec fn opt_member(key: Seq<char>, v: Option<Seq<char>>) -> Seq<(Seq<char>, JsonV)> {
    match v {
        Some(s) => seq![(key, JsonV::Str(s))],
        None => Seq::empty(),
    }
}

/// An endpoint as a document: href, the relation, method, type and title
/// that it has, depth, its parent where asked for and present, and its
/// metadata where there is any.
pub open spec fn endpoint_doc(e: EndpointV, with_parent: bool) -> JsonV {
    JsonV::Obj(
        seq![("href"@, JsonV::Str(e.href))] + opt_member("rel"@, e.rel) + opt_member("method"@, e.method)
            + opt_member("type"@, e.content_type) + opt_member("title"@, e.title) + seq![
            ("depth"@, num(e.depth)),
        ] + (if with_parent {
            opt_member("parent_url"@, e.parent_url)
        } else {
            Seq::empty()
        }) + (if e.metadata.len() > 0 {
            seq![("metadata"@, JsonV::Obj(e.metadata))]
        } else {
            Seq::empty()
        }),
    )
}

/// A counter member, where the counter is not zero.
pub open spec fn count_member(key: Seq<char>, n: nat) -> Seq<(Seq<char>, JsonV)> {
    if n == 0 {
        Seq::empty()
    } else {
        seq![(key, num(n))]
    }
}

/// The counters as a document: counters that are zero, and an empty error
/// list, are left out.
pub open spec fn stats_doc(s: CrawlStats) -> JsonV {
    JsonV::Obj(
        count_member("urls_processed"@, s.urls_processed as nat) + count_member(
            "successful_requests"@,
            s.successful_requests as nat,
        ) + count_member("failed_requests"@, s.failed_requests as nat) + count_member(
            "urls_skipped"@,
            s.urls_skipped as nat,
        ) + count_member("max_depth_reached"@, s.max_depth_reached as nat) + count_member(
            "total_time_ms"@,
            s.total_time_ms as nat,
        ) + (if s.errors@.len() > 0 {
            seq![("errors"@, JsonV::Arr(s.errors@.map_values(|m: String| JsonV::Str(m@))))]
        } else {
            Seq::empty()
        }),
    )
}

fn push_opt(members: &mut Vec<(String, Json)>, key: &str, value: &Option<String>)
    ensures
        members_view(final(members)@) == members_view(old(members)@) + opt_member(key@, opt_view(*value)),
{
    let ghost before = members_view(members@);
    match value {
        Some(v) => {
            let ghost k = key@;
            members.push((key.to_owned(), Json::String(v.clone())));
            assert(members_view(members@) =~= before + seq![(k, JsonV::Str(v@))]);
        },
        None => {
            assert(members_view(members@) =~= before + Seq::<(Seq<char>, JsonV)>::empty());
        },
    }
}

fn push_count(members: &mut Vec<(String, Json)>, key: &str, n: u128)
    ensures
        members_view(final(members)@) == members_view(old(members)@) + count_member(key@, n as nat),
{
    let ghost before = members_view(members@);
    if n != 0 {
        let ghost k = key@;
        let d = decimal(n);
        let ghost dv = d@;
        members.push((key.to_owned(), Json::Number(d)));
        assert(members_view(members@) =~= before + seq![(k, JsonV::Num(dv))]);
    } else {
        assert(members_view(members@) =~= before + Seq::<(Seq<char>, JsonV)>::empty());
    }
}

/// An endpoint as a document.
pub fn endpoint_document(e: &ApiEndpoint, with_parent: bool) -> (r: Json)
    ensures
        r@ == endpoint_doc(e@, with_parent),
{
    let mut members: Vec<(String, Json)> = Vec::new();
    members.push(("href".to_owned(), Json::String(e.href.clone())));
    assert(members_view(members@) =~= seq![("href"@, JsonV::Str(e.href@))]);
    push_opt(&mut members, "rel", &e.rel);
    push_opt(&mut members, "method", &e.method);
    push_opt(&mut members, "type", &e.content_type);
    push_opt(&mut members, "title", &e.title);
    let ghost before = members_view(members@);
    let d = decimal(e.depth as u128);
    let ghost dv = d@;
    members.push(("depth".to_owned(), Json::Number(d)));
    assert(members_view(members@) =~= before + seq![("depth"@, JsonV::Num(dv))]);
    if with_parent {
        push_opt(&mut members, "parent_url", &e.parent_url);
    } else {
        assert(members_view(members@) =~= members_view(members@) + Seq::<(Seq<char>, JsonV)>::empty());
    }
    let ghost before = members_view(members@);
    if !e.metadata.is_empty() {
        let entries = e.metadata.entries();
        let mut copy: Vec<(String, Json)> = Vec::new();
        let mut i: usize = 0;
        while i < entries.len()
            invariant
                i <= entries.len(),
                copy.len() == i,
                forall|k: int| 0 <= k < i ==> members_view(copy@)[k] == members_view(entries@)[k],
            decreases entries.len() - i,
        {
            let v = entries[i].1.deep_clone();
            copy.push((entries[i].0.clone(), v));
            i = i + 1;
        }
        assert(members_view(copy@) =~= members_view(entries@));
        let meta = Json::Object(copy);
        proof {
            crate::json::lemma_object_view(&meta, &copy);
        }
        members.push(("metadata".to_owned(), meta));
        assert(members_view(members@) =~= before + seq![("metadata"@, JsonV::Obj(e@.metadata))]);
    } else {
        assert(members_view(members@) =~= before + Seq::<(Seq<char>, JsonV)>::empty());
    }
    let r = Json::Object(members);
    proof {
        crate::json::lemma_object_view(&r, &members);
        assert(members_view(members@) =~= endpoint_doc(e@, with_parent)->Obj_0);
    }
    r
}

/// The counters as a document.
pub fn stats_document(s: &CrawlStats) -> (r: Json)
    ensures
        r@ == stats_doc(*s),
{
    let mut members: Vec<(String, Json)> = Vec::new();
    assert(members_view(members@) =~= Seq::<(Seq<char>, JsonV)>::empty());
    push_count(&mut members, "urls_processed", s.urls_processed as u128);
    push_count(&mut members, "successful_requests", s.successful_requests as u128);
    push_count(&mut members, "failed_requests", s.failed_requests as u128);
    push_count(&mut members, "urls_skipped", s.urls_skipped as u128);
    push_count(&mut members, "max_depth_reached", s.max_depth_reached as u128);
    push_count(&mut members, "total_time_ms", s.total_time_ms);
    let ghost before = members_view(members@);
    if s.errors.len() > 0 {
        let mut items: Vec<Json> = Vec::new();
        let mut i: usize = 0;
        while i < s.errors.len()
            invariant
                i <= s.errors.len(),
                items.len() == i,
                forall|k: int| 0 <= k < i ==> items@[k]@ == JsonV::Str(s.errors@[k]@),
            decreases s.errors.len() - i,
        {
            items.push(Json::String(s.errors[i].clone()));
            i = i + 1;
        }
        let arr = Json::Array(items);
        proof {
            crate::json::lemma_array_view(&arr, &items);
            assert(crate::json::items_view(items@) =~= s.errors@.map_values(|m: String| JsonV::Str(m@)));
        }
        members.push(("errors".to_owned(), arr));
        assert(members_view(members@) =~= before + seq![
            ("errors"@, JsonV::Arr(s.errors@.map_values(|m: String| JsonV::Str(m@)))),
        ]);
    } else {
        assert(members_view(members@) =~= before + Seq::<(Seq<char>, JsonV)>::empty());
    }
    let r = Json::Object(members);
    proof {
        crate::json::lemma_object_view(&r, &members);
        assert(members_view(members@) =~= stats_doc(*s)->Obj_0);
    }
    r
}

/// The RFC 3339 text of a time given in milliseconds since the Unix epoch,
/// where it is in the range that can be written.
pub uninterp spec fn rfc3339_of(ms: int) -> Option<Seq<char>>;

/// Relies on `chrono::DateTime::from_timestamp_millis` and
/// `DateTime::to_rfc3339`: the text depends on the number alone.
#[verifier::external_body]
fn rfc3339(ms: i64) -> (r: Option<String>)
    ensures
        match r {
            Some(t) => rfc3339_of(ms as int) == Some(t@),
            None => rfc3339_of(ms as int) is None,
        },
{
    match chrono::DateTime::from_timestamp_millis(ms) {
        Some(d) => Some(d.to_rfc3339()),
        None => None,
    }
}

/// A timestamp as text; empty where it cannot be written.
pub open spec fn time_text(ms: int) -> Seq<char> {
    match rfc3339_of(ms) {
        Some(t) => t,
        None => Seq::empty(),
    }
}

fn time_document(ms: i64) -> (r: Json)
    ensures
        r@ == JsonV::Str(time_text(ms as int)),
{
    match rfc3339(ms) {
        Some(t) => Json::String(t),
        None => Json::String(String::new()),
    }
}

/// Endpoints as an array of documents.
pub open spec fn endpoints_doc(eps: Seq<EndpointV>, with_parent: bool) -> JsonV {
    JsonV::Arr(eps.map_values(|e: EndpointV| endpoint_doc(e, with_parent)))
}

/// Groups of endpoints as an object of arrays, keyed by group.
pub open spec fn groups_doc(groups: Seq<(Seq<char>, Seq<EndpointV>)>, with_parent: bool) -> JsonV {
    JsonV::Obj(groups.map_values(|g: (Seq<char>, Seq<EndpointV>)| (g.0, endpoints_doc(g.1, with_parent))))
}

fn endpoints_document(eps: &Vec<ApiEndpoint>, with_parent: bool) -> (r: Json)
    ensures
        r@ == endpoints_doc(endpoints_view(eps@), with_parent),
{
    let mut items: Vec<Json> = Vec::new();
    let mut i: usize = 0;
    while i < eps.len()
        invariant
            i <= eps.len(),
            items.len() == i,
            forall|k: int| 0 <= k < i ==> items@[k]@ == endpoint_doc(eps@[k]@, with_parent),
        decreases eps.len() - i,
    {
        items.push(endpoint_document(&eps[i], with_parent));
        i = i + 1;
    }
    let r = Json::Array(items);
    proof {
        crate::json::lemma_array_view(&r, &items);
        assert(crate::json::items_view(items@) =~= endpoints_view(eps@).map_values(
            |e: EndpointV| endpoint_doc(e, with_parent),
        ));
    }
    r
}

fn groups_document(groups: &Vec<(String, Vec<ApiEndpoint>)>, with_parent: bool) -> (r: Json)
    ensures
        r@ == groups_doc(mappings_view(groups@), with_parent),
{
    let ghost gv = mappings_view(groups@);
    let ghost f = |g: (Seq<char>, Seq<EndpointV>)| (g.0, endpoints_doc(g.1, with_parent));
    let mut members: Vec<(String, Json)> = Vec::new();
    let mut i: usize = 0;
    while i < groups.len()
        invariant
            i <= groups.len(),
            gv == mappings_view(groups@),
            f == (|g: (Seq<char>, Seq<EndpointV>)| (g.0, endpoints_doc(g.1, with_parent))),
            members_view(members@) == gv.take(i as int).map_values(f),
        decreases groups.len() - i,
    {
        let list = endpoints_document(&groups[i].1, with_parent);
        let ghost before = members_view(members@);
        let ghost lv = list@;
        let key = groups[i].0.clone();
        let ghost kv = key@;
        members.push((key, list));
        proof {
            assert(gv[i as int] == (groups@[i as int].0@, endpoints_view(groups@[i as int].1@)));
            assert(f(gv[i as int]) == (kv, lv));
            assert(members_view(members@) =~= before.push((kv, lv)));
            assert(gv.take(i + 1).map_values(f) =~= gv.take(i as int).map_values(f).push(f(gv[i as int])));
        }
        i = i + 1;
    }
    let r = Json::Object(members);
    proof {
        crate::json::lemma_object_view(&r, &members);
        assert(gv.take(i as int) =~= gv);
    }
    r
}

/// The flat result as a document: start URL, endpoints, parent index,
/// counters (empty where they are left out), timestamps, and the settings
/// where asked for and recorded.
pub open spec fn result_doc(res: CrawlResult, config: OutputConfig) -> JsonV {
    JsonV::Obj(
        seq![
            ("start_url"@, JsonV::Str(res.start_url@)),
            ("endpoints"@, endpoints_doc(endpoints_view(res.endpoints@), true)),
            ("url_mappings"@, groups_doc(mappings_view(res.url_mappings@), true)),
            ("stats"@, if config.include_stats {
                stats_doc(res.stats)
            } else {
                JsonV::Obj(Seq::empty())
            }),
            ("started_at"@, JsonV::Str(time_text(res.started_at as int))),
            ("completed_at"@, JsonV::Str(time_text(res.completed_at as int))),
        ] + (if config.include_config && res.config_snapshot@.len() > 0 {
            seq![("config_snapshot"@, JsonV::Str(res.config_snapshot@))]
        } else {
            Seq::empty()
        }),
    )
}

/// The members that close the hierarchical and tree documents: counters
/// where asked for, timestamps, and the settings where asked for.
pub open spec fn trailer_doc(res: CrawlResult, config: OutputConfig) -> Seq<(Seq<char>, JsonV)> {
    (if config.include_stats {
        seq![("stats"@, stats_doc(res.stats))]
    } else {
        Seq::empty()
    }) + seq![
        ("started_at"@, JsonV::Str(time_text(res.started_at as int))),
        ("completed_at"@, JsonV::Str(time_text(res.completed_at as int))),
    ] + (if config.include_config {
        seq![("config_snapshot"@, JsonV::Str(res.config_snapshot@))]
    } else {
        Seq::empty()
    })
}

fn push_trailer(members: &mut Vec<(String, Json)>, res: &CrawlResult, config: &OutputConfig)
    ensures
        members_view(final(members)@) == members_view(old(members)@) + trailer_doc(*res, *config),
{
    let ghost before = members_view(members@);
    if config.include_stats {
        members.push(("stats".to_owned(), stats_document(&res.stats)));
    }
    let ghost mid = members_view(members@);
    assert(mid =~= before + (if config.include_stats {
        seq![("stats"@, stats_doc(res.stats))]
    } else {
        Seq::<(Seq<char>, JsonV)>::empty()
    }));
    members.push(("started_at".to_owned(), time_document(res.started_at)));
    members.push(("completed_at".to_owned(), time_document(res.completed_at)));
    let ghost mid2 = members_view(members@);
    if config.include_config {
        members.push(("config_snapshot".to_owned(), Json::String(res.config_snapshot.clone())));
    }
    assert(members_view(members@) =~= before + trailer_doc(*res, *config));
}

/// The flat result as a document.
pub fn result_document(res: &CrawlResult, config: &OutputConfig) -> (r: Json)
    ensures
        r@ == result_doc(*res, *config),
{
    let mut members: Vec<(String, Json)> = Vec::new();
    members.push(("start_url".to_owned(), Json::String(res.start_url.clone())));
    members.push(("endpoints".to_owned(), endpoints_document(&res.endpoints, true)));
    members.push(("url_mappings".to_owned(), groups_document(&res.url_mappings, true)));
    let stats = if config.include_stats {
        stats_document(&res.stats)
    } else {
        let none: Vec<(String, Json)> = Vec::new();
        let empty = Json::Object(none);
        proof {
            crate::json::lemma_object_view(&empty, &none);
            assert(members_view(none@) =~= Seq::empty());
        }
        empty
    };
    members.push(("stats".to_owned(), stats));
    members.push(("started_at".to_owned(), time_document(res.started_at)));
    members.push(("completed_at".to_owned(), time_document(res.completed_at)));
    if config.include_config && !res.config_snapshot.as_str().is_empty() {
        members.push(("config_snapshot".to_owned(), Json::String(res.config_snapshot.clone())));
    }
    let r = Json::Object(members);
    proof {
        crate::json::lemma_object_view(&r, &members);
        assert(members_view(members@) =~= result_doc(*res, *config)->Obj_0);
    }
    r
}

/// The hierarchical view as a document: start URL, the groups, the summary
/// counts, then the closing members.
pub open spec fn hierarchy_doc(view: HierarchicalView, res: CrawlResult, config: OutputConfig) -> JsonV {
    JsonV::Obj(
        seq![
            ("start_url"@, JsonV::Str(view.start_url@)),
            ("endpoint_hierarchy"@, groups_doc(mappings_view(view.groups@), false)),
            (
                "summary"@,
                JsonV::Obj(
                    seq![
                        ("total_endpoints"@, num(view.total_endpoints as nat)),
                        ("unique_parents"@, num(view.unique_parents as nat)),
                        ("discovered_domains"@, num(view.discovered_domains as nat)),
                    ],
                ),
            ),
        ] + trailer_doc(res, config),
    )
}

/// The hierarchical view of `res` as a document.
pub fn hierarchy_document(view: &HierarchicalView, res: &CrawlResult, config: &OutputConfig) -> (r: Json)
    ensures
        r@ == hierarchy_doc(*view, *res, *config),
{
    let mut counts: Vec<(String, Json)> = Vec::new();
    counts.push(("total_endpoints".to_owned(), Json::Number(decimal(view.total_endpoints as u128))));
    counts.push(("unique_parents".to_owned(), Json::Number(decimal(view.unique_parents as u128))));
    counts.push(("discovered_domains".to_owned(), Json::Number(decimal(view.discovered_domains as u128))));
    let summary = Json::Object(counts);
    proof {
        crate::json::lemma_object_view(&summary, &counts);
        assert(members_view(counts@) =~= seq![
            ("total_endpoints"@, num(view.total_endpoints as nat)),
            ("unique_parents"@, num(view.unique_parents as nat)),
            ("discovered_domains"@, num(view.discovered_domains as nat)),
        ]);
    }
    let mut members: Vec<(String, Json)> = Vec::new();
    members.push(("start_url".to_owned(), Json::String(view.start_url.clone())));
    members.push(("endpoint_hierarchy".to_owned(), groups_document(&view.groups, false)));
    members.push(("summary".to_owned(), summary));
    push_trailer(&mut members, res, config);
    let r = Json::Object(members);
    proof {
        crate::json::lemma_object_view(&r, &members);
        assert(members_view(members@) =~= hierarchy_doc(*view, *res, *config)->Obj_0);
    }
    r
}

/// The relation a tree node shows: a `rel` string in the metadata, else the
/// endpoint's relation, else `default`.
pub open spec fn rel_label(e: EndpointV, default: Seq<char>) -> Seq<char> {
    match obj_get_str(e.metadata, "rel"@) {
        Some(r) => r,
        None => match e.rel {
            Some(r) => r,
            None => default,
        },
    }
}

/// What a tree node shows of its endpoint: name (the last path segment),
/// URL, relation, depth, and method, type and title where present.
pub open spec fn node_info_doc(e: EndpointV, default: Seq<char>) -> JsonV {
    JsonV::Obj(
        seq![
            ("name"@, JsonV::Str(last_segment(e.href))),
            ("url"@, JsonV::Str(e.href)),
            ("rel"@, JsonV::Str(rel_label(e, default))),
            ("depth"@, num(e.depth)),
        ] + opt_member("method"@, e.method) + opt_member("type"@, e.content_type) + opt_member(
            "title"@,
            e.title,
        ),
    )
}

/// A tree node: its endpoint's details, then its children where it has
/// any, down `fuel` levels.
pub open spec fn node_doc(
    recs: Seq<EndpointV>,
    children: Seq<Seq<usize>>,
    i: int,
    fuel: nat,
    default: Seq<char>,
) -> JsonV
    decreases fuel, 0nat,
{
    let kids = if fuel > 0 && 0 <= i < children.len() {
        children[i]
    } else {
        Seq::empty()
    };
    JsonV::Obj(
        seq![("api"@, node_info_doc(recs[i], default))] + if fuel > 0 && kids.len() > 0 {
            seq![("children"@, JsonV::Arr(nodes_doc(recs, children, kids, kids.len(), (fuel - 1) as nat)))]
        } else {
            Seq::empty()
        },
    )
}

/// The nodes of the first `n` of `kids`, down `fuel` levels.
pub open spec fn nodes_doc(
    recs: Seq<EndpointV>,
    children: Seq<Seq<usize>>,
    kids: Seq<usize>,
    n: nat,
    fuel: nat,
) -> Seq<JsonV>
    decreases fuel, n,
{
    if n == 0 || n > kids.len() {
        Seq::empty()
    } else {
        nodes_doc(recs, children, kids, (n - 1) as nat, fuel).push(
            node_doc(recs, children, kids[n - 1] as int, fuel, "unknown"@),
        )
    }
}

/// The child lists of a tree, as values.
pub open spec fn child_lists(tree: ApiTree) -> Seq<Seq<usize>> {
    lists_view(tree.children@)
}

fn node_info_document(e: &ApiEndpoint, default: &str) -> (r: Json)
    ensures
        r@ == node_info_doc(e@, default@),
{
    let rel: String = match e.metadata.get("rel") {
        Some(j) => match j.as_str() {
            Some(r) => r.to_owned(),
            None => match &e.rel {
                Some(r) => r.clone(),
                None => default.to_owned(),
            },
        },
        None => match &e.rel {
            Some(r) => r.clone(),
            None => default.to_owned(),
        },
    };
    assert(rel@ == rel_label(e@, default@));
    let mut members: Vec<(String, Json)> = Vec::new();
    members.push(("name".to_owned(), Json::String(last_path_segment(e.href.as_str()).to_owned())));
    members.push(("url".to_owned(), Json::String(e.href.clone())));
    members.push(("rel".to_owned(), Json::String(rel)));
    members.push(("depth".to_owned(), Json::Number(decimal(e.depth as u128))));
    let ghost first = members_view(members@);
    assert(first =~= seq![
        ("name"@, JsonV::Str(last_segment(e.href@))),
        ("url"@, JsonV::Str(e.href@)),
        ("rel"@, JsonV::Str(rel_label(e@, default@))),
        ("depth"@, num(e.depth as nat)),
    ]);
    push_opt(&mut members, "method", &e.method);
    push_opt(&mut members, "type", &e.content_type);
    push_opt(&mut members, "title", &e.title);
    let r = Json::Object(members);
    proof {
        crate::json::lemma_object_view(&r, &members);
        assert(members_view(members@) =~= node_info_doc(e@, default@)->Obj_0);
    }
    r
}

/// A tree node of record `i`, down `fuel` levels.
fn node_document(tree: &ApiTree, i: usize, fuel: usize, default: &str) -> (r: Json)
    requires
        tree.indices_ok(),
        i < tree.records@.len(),
    ensures
        r@ == node_doc(endpoints_view(tree.records@), child_lists(*tree), i as int, fuel as nat, default@),
    decreases fuel,
{
    let ghost recs = endpoints_view(tree.records@);
    let ghost ch = child_lists(*tree);
    proof {
        reveal(ApiTree::indices_ok);
    }
    let info = node_info_document(&tree.records[i], default);
    let mut members: Vec<(String, Json)> = Vec::new();
    members.push(("api".to_owned(), info));
    let ghost first = members_view(members@);
    assert(recs[i as int] == tree.records@[i as int]@);
    assert(ch.len() == tree.records@.len());
    assert(ch[i as int] == tree.children@[i as int]@);
    if fuel > 0 && tree.children[i].len() > 0 {
        let kids = &tree.children[i];
        assert(ch[i as int] == kids@);
        let mut items: Vec<Json> = Vec::new();
        let mut k: usize = 0;
        while k < kids.len()
            invariant
                k <= kids.len(),
                0 < fuel,
                tree.indices_ok(),
                i < tree.records@.len(),
                *kids == tree.children@[i as int],
                recs == endpoints_view(tree.records@),
                ch == child_lists(*tree),
                crate::json::items_view(items@) == nodes_doc(recs, ch, kids@, k as nat, (fuel - 1) as nat),
            decreases kids.len() - k,
        {
            proof {
                reveal(ApiTree::indices_ok);
            }
            assert(kids@[k as int] < tree.records@.len());
            let c = node_document(tree, kids[k], fuel - 1, "unknown");
            let ghost before = crate::json::items_view(items@);
            items.push(c);
            assert(crate::json::items_view(items@) =~= before.push(c@));
            k = k + 1;
        }
        let arr = Json::Array(items);
        proof {
            crate::json::lemma_array_view(&arr, &items);
        }
        members.push(("children".to_owned(), arr));
        assert(members_view(members@) =~= first + seq![
            ("children"@, JsonV::Arr(nodes_doc(recs, ch, kids@, kids@.len(), (fuel - 1) as nat))),
        ]);
    } else {
        assert(members_view(members@) =~= first + Seq::<(Seq<char>, JsonV)>::empty());
    }
    let r = Json::Object(members);
    proof {
        crate::json::lemma_object_view(&r, &members);
        assert(members_view(members@) =~= node_doc(recs, ch, i as int, fuel as nat, default@)->Obj_0);
    }
    r
}

/// The tree as a document: start URL, the root node (null where there are
/// no records), the other top-level nodes where there are any, the summary
/// counts, then the closing members.
pub open spec fn tree_doc(tree: ApiTree, res: CrawlResult, config: OutputConfig) -> JsonV {
    let recs = endpoints_view(tree.records@);
    let ch = child_lists(tree);
    let roots = tree.roots@;
    JsonV::Obj(
        seq![
            ("start_url"@, JsonV::Str(res.start_url@)),
            ("api_tree"@, if roots.len() > 0 {
                node_doc(recs, ch, roots[0] as int, tree.levels as nat, "self"@)
            } else {
                JsonV::Null
            }),
        ] + (if roots.len() > 1 {
            seq![
                (
                    "detached"@,
                    JsonV::Arr(
                        Seq::new(
                            (roots.len() - 1) as nat,
                            |k: int| node_doc(recs, ch, roots[k + 1] as int, tree.levels as nat, "unknown"@),
                        ),
                    ),
                ),
            ]
        } else {
            Seq::empty()
        }) + seq![
            (
                "summary"@,
                JsonV::Obj(
                    seq![
                        ("total_endpoints"@, num(recs.len())),
                        ("max_depth"@, num(max_record_depth(recs))),
                        ("discovered_domains"@, num(domains_of(endpoints_view(res.endpoints@)).len())),
                    ],
                ),
            ),
        ] + trailer_doc(res, config),
    )
}

/// The tree of `res` as a document.
pub fn tree_document(tree: &ApiTree, res: &CrawlResult, config: &OutputConfig) -> (r: Json)
    requires
        tree.indices_ok(),
    ensures
        r@ == tree_doc(*tree, *res, *config),
{
    let ghost recs = endpoints_view(tree.records@);
    let ghost ch = child_lists(*tree);
    let mut members: Vec<(String, Json)> = Vec::new();
    members.push(("start_url".to_owned(), Json::String(res.start_url.clone())));
    proof {
        reveal(ApiTree::indices_ok);
    }
    let api_tree = if tree.roots.len() > 0 {
        node_document(tree, tree.roots[0], tree.levels, "self")
    } else {
        Json::Null
    };
    members.push(("api_tree".to_owned(), api_tree));
    let ghost head = members_view(members@);
    if tree.roots.len() > 1 {
        let ghost target = Seq::new(
            (tree.roots@.len() - 1) as nat,
            |k: int| node_doc(recs, ch, tree.roots@[k + 1] as int, tree.levels as nat, "unknown"@),
        );
        let mut items: Vec<Json> = Vec::new();
        let mut k: usize = 1;
        while k < tree.roots.len()
            invariant
                1 <= k <= tree.roots.len(),
                tree.indices_ok(),
                recs == endpoints_view(tree.records@),
                ch == child_lists(*tree),
                target.len() == tree.roots@.len() - 1,
                forall|t: int| 0 <= t < target.len() ==> target[t] == node_doc(recs, ch, tree.roots@[t + 1] as int, tree.levels as nat, "unknown"@),
                items.len() == k - 1,
                forall|t: int| 0 <= t < k - 1 ==> items@[t]@ == target[t],
            decreases tree.roots.len() - k,
        {
            proof {
                reveal(ApiTree::indices_ok);
            }
            let c = node_document(tree, tree.roots[k], tree.levels, "unknown");
            items.push(c);
            k = k + 1;
        }
        let arr = Json::Array(items);
        proof {
            crate::json::lemma_array_view(&arr, &items);
            assert(crate::json::items_view(items@) =~= target);
        }
        members.push(("detached".to_owned(), arr));
    }
    let domains = res.discovered_domains();
    let mut counts: Vec<(String, Json)> = Vec::new();
    counts.push(("total_endpoints".to_owned(), Json::Number(decimal(tree.records.len() as u128))));
    counts.push(("max_depth".to_owned(), Json::Number(decimal(max_depth_of(&tree.records) as u128))));
    counts.push(("discovered_domains".to_owned(), Json::Number(decimal(domains.len() as u128))));
    let summary = Json::Object(counts);
    proof {
        crate::json::lemma_object_view(&summary, &counts);
        assert(members_view(counts@) =~= seq![
            ("total_endpoints"@, num(recs.len())),
            ("max_depth"@, num(max_record_depth(recs))),
            ("discovered_domains"@, num(domains_of(endpoints_view(res.endpoints@)).len())),
        ]);
    }
    members.push(("summary".to_owned(), summary));
    push_trailer(&mut members, res, config);
    let r = Json::Object(members);
    proof {
        crate::json::lemma_object_view(&r, &members);
        assert(members_view(members@) =~= tree_doc(*tree, *res, *config)->Obj_0);
    }
    r
}

} // verus!
