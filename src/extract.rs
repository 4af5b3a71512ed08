//! Finding endpoints in a JSON response.
//!
//! Four rules scan every object of the document, each on its own, so one
//! link may be reported more than once: HAL `_links`, JSON:API `links`,
//! objects with an `href` string, and members whose name looks like it holds
//! a URL. Nested objects, and objects inside arrays, are scanned the same way.

use vstd::prelude::*;
use crate::crawler::ApiCrawler;
use crate::error::CrawlerError;
use crate::json::{
    Json, JsonV, items_view, lemma_array_view, lemma_object_view, members_view, obj_get,
    obj_get_str, object_get,
};
use crate::text::{contains, ends_with, has_infix, has_prefix, has_suffix, starts_with, str_eq};
use crate::types::{
    ApiEndpoint, EndpointV, QueueItem, endpoints_view, lemma_endpoints_push, meta_insert, opt_view,
};

verus! {

/// Names of link members that become fields of the endpoint, never metadata.
pub open spec fn reserved_key(k: Seq<char>) -> bool {
    k == "href"@ || k == "rel"@ || k == "method"@ || k == "type"@ || k == "title"@
}

/// A member name that may hold a URL.
pub open spec fn url_like_key(k: Seq<char>) -> bool {
    has_infix(k, "url"@) || has_infix(k, "uri"@) || has_suffix(k, "_link"@)
}

/// Text that is an absolute URL or an absolute path.
pub open spec fn url_like(s: Seq<char>) -> bool {
    has_prefix(s, "http://"@) || has_prefix(s, "https://"@) || has_prefix(s, "/"@)
}

/// The metadata of a link object: its members but the reserved ones, stored
/// in document order.
pub open spec fn link_metadata(members: Seq<(Seq<char>, JsonV)>) -> Seq<(Seq<char>, JsonV)>
    decreases members.len(),
{
    if members.len() == 0 {
        Seq::empty()
    } else {
        let prev = link_metadata(members.drop_last());
        let m = members.last();
        if reserved_key(m.0) {
            prev
        } else {
            meta_insert(prev, m.0, m.1)
        }
    }
}

/// An endpoint at `href` with relation `rel`, found in the response of `url`,
/// an item at `depth`.
pub open spec fn found(href: Seq<char>, rel: Option<Seq<char>>, url: Seq<char>, depth: nat) -> EndpointV {
    EndpointV {
        href,
        rel,
        method: None,
        content_type: None,
        title: None,
        depth: depth + 1,
        parent_url: Some(url),
        metadata: Seq::empty(),
    }
}

/// The endpoint an object with an `href` string describes, if it has one.
pub open spec fn link_object(
    members: Seq<(Seq<char>, JsonV)>,
    rel: Option<Seq<char>>,
    url: Seq<char>,
    depth: nat,
) -> Seq<EndpointV> {
    match obj_get_str(members, "href"@) {
        Some(href) => seq![
            EndpointV {
                href,
                rel,
                method: obj_get_str(members, "method"@),
                content_type: obj_get_str(members, "type"@),
                title: obj_get_str(members, "title"@),
                depth: depth + 1,
                parent_url: Some(url),
                metadata: link_metadata(members),
            },
        ],
        None => Seq::empty(),
    }
}

/// The endpoints of one link entry with relation `rel`: a string is the
/// href, an object is a link object, an array holds entries of that relation.
pub open spec fn link_entry(rel: Seq<char>, v: JsonV, url: Seq<char>, depth: nat) -> Seq<EndpointV>
    decreases v, 0nat,
{
    match v {
        JsonV::Str(href) => seq![found(href, Some(rel), url, depth)],
        JsonV::Obj(members) => link_object(members, Some(rel), url, depth),
        JsonV::Arr(items) => link_items(rel, items, items.len(), url, depth),
        _ => Seq::empty(),
    }
}

/// The endpoints of the first `n` entries of an array of relation `rel`.
pub open spec fn link_items(
    rel: Seq<char>,
    items: Seq<JsonV>,
    n: nat,
    url: Seq<char>,
    depth: nat,
) -> Seq<EndpointV>
    decreases items, n,
{
    if n == 0 || n > items.len() {
        Seq::empty()
    } else {
        link_items(rel, items, (n - 1) as nat, url, depth) + link_entry(rel, items[n - 1], url, depth)
    }
}

/// The endpoints of the first `n` members of a links object, each keyed by
/// its relation.
pub open spec fn link_members(
    links: Seq<(Seq<char>, JsonV)>,
    n: nat,
    url: Seq<char>,
    depth: nat,
) -> Seq<EndpointV>
    decreases n,
{
    if n == 0 || n > links.len() {
        Seq::empty()
    } else {
        link_members(links, (n - 1) as nat, url, depth) + link_entry(links[n - 1].0, links[n - 1].1, url, depth)
    }
}

/// The relation of a JSON:API link object: its `rel` string, else "unknown".
pub open spec fn array_link_rel(members: Seq<(Seq<char>, JsonV)>) -> Seq<char> {
    match obj_get_str(members, "rel"@) {
        Some(r) => r,
        None => "unknown"@,
    }
}

/// The endpoints of the first `n` items of a JSON:API links array.
pub open spec fn link_array(items: Seq<JsonV>, n: nat, url: Seq<char>, depth: nat) -> Seq<EndpointV>
    decreases n,
{
    if n == 0 || n > items.len() {
        Seq::empty()
    } else {
        link_array(items, (n - 1) as nat, url, depth) + match items[n - 1] {
            JsonV::Obj(members) => link_entry(array_link_rel(members), items[n - 1], url, depth),
            _ => Seq::empty(),
        }
    }
}

/// HAL links: the members of an `_links` object.
pub open spec fn hal_links(members: Seq<(Seq<char>, JsonV)>, url: Seq<char>, depth: nat) -> Seq<EndpointV> {
    match obj_get(members, "_links"@) {
        Some(JsonV::Obj(links)) => link_members(links, links.len(), url, depth),
        _ => Seq::empty(),
    }
}

/// JSON:API links: the members of a `links` object, or the objects of a
/// `links` array.
pub open spec fn api_links(members: Seq<(Seq<char>, JsonV)>, url: Seq<char>, depth: nat) -> Seq<EndpointV> {
    match obj_get(members, "links"@) {
        Some(JsonV::Obj(links)) => link_members(links, links.len(), url, depth),
        Some(JsonV::Arr(items)) => link_array(items, items.len(), url, depth),
        _ => Seq::empty(),
    }
}

/// The endpoint of an object's own `href` string, with its `rel` string.
pub open spec fn direct_href(members: Seq<(Seq<char>, JsonV)>, url: Seq<char>, depth: nat) -> Seq<EndpointV> {
    link_object(members, obj_get_str(members, "rel"@), url, depth)
}

/// The endpoint of a member whose name may hold a URL and whose value is
/// URL-like text.
pub open spec fn url_field(member: (Seq<char>, JsonV), url: Seq<char>, depth: nat) -> Seq<EndpointV> {
    match member.1 {
        JsonV::Str(s) => if url_like_key(member.0) && url_like(s) {
            seq![
                EndpointV {
                    metadata: seq![("source_field"@, JsonV::Str(member.0))],
                    ..found(s, None, url, depth)
                },
            ]
        } else {
            Seq::empty()
        },
        _ => Seq::empty(),
    }
}

/// The URL-field endpoints of the first `n` members.
pub open spec fn url_fields(members: Seq<(Seq<char>, JsonV)>, n: nat, url: Seq<char>, depth: nat) -> Seq<EndpointV>
    decreases n,
{
    if n == 0 || n > members.len() {
        Seq::empty()
    } else {
        url_fields(members, (n - 1) as nat, url, depth) + url_field(members[n - 1], url, depth)
    }
}

/// All endpoints of an object: the four rules, then its nested values.
pub open spec fn object_endpoints(members: Seq<(Seq<char>, JsonV)>, url: Seq<char>, depth: nat) -> Seq<EndpointV>
    decreases members, members.len() + 1,
{
    hal_links(members, url, depth) + api_links(members, url, depth) + direct_href(members, url, depth)
        + url_fields(members, members.len(), url, depth) + nested(members, members.len(), url, depth)
}

/// The endpoints of the values of the first `n` members.
pub open spec fn nested(members: Seq<(Seq<char>, JsonV)>, n: nat, url: Seq<char>, depth: nat) -> Seq<EndpointV>
    decreases members, n,
{
    if n == 0 || n > members.len() {
        Seq::empty()
    } else {
        nested(members, (n - 1) as nat, url, depth) + value_endpoints(members[n - 1].1, url, depth)
    }
}

/// The endpoints of the objects among the first `n` items of an array.
pub open spec fn array_objects(items: Seq<JsonV>, n: nat, url: Seq<char>, depth: nat) -> Seq<EndpointV>
    decreases items, n,
{
    if n == 0 || n > items.len() {
        Seq::empty()
    } else {
        array_objects(items, (n - 1) as nat, url, depth) + match items[n - 1] {
            JsonV::Obj(members) => object_endpoints(members, url, depth),
            _ => Seq::empty(),
        }
    }
}

/// The endpoints of a value: an object is scanned, an array has its objects
/// scanned, anything else holds none.
pub open spec fn value_endpoints(v: JsonV, url: Seq<char>, depth: nat) -> Seq<EndpointV>
    decreases v, 0nat,
{
    match v {
        JsonV::Obj(members) => object_endpoints(members, url, depth),
        JsonV::Arr(items) => array_objects(items, items.len(), url, depth),
        _ => Seq::empty(),
    }
}

} // verus!

verus! {

fn is_reserved_key(k: &str) -> (r: bool)
    ensures
        r == reserved_key(k@),
{
    str_eq(k, "href") || str_eq(k, "rel") || str_eq(k, "method") || str_eq(k, "type") || str_eq(
        k,
        "title",
    )
}

/// The text of the first member named `key`, where it is a string.
fn get_str(entries: &Vec<(String, Json)>, key: &str) -> (r: Option<String>)
    ensures
        opt_view(r) == obj_get_str(members_view(entries@), key@),
{
    match object_get(entries, key) {
        Some(j) => match j.as_str() {
            Some(s) => Some(s.to_owned()),
            None => None,
        },
        None => None,
    }
}

/// Appends the endpoint of a link object, where it has an `href` string.
fn push_link_object(
    entries: &Vec<(String, Json)>,
    rel: Option<String>,
    parent_item: &QueueItem,
    endpoints: &mut Vec<ApiEndpoint>,
)
    requires
        parent_item.depth < usize::MAX,
    ensures
        endpoints_view(final(endpoints)@) == endpoints_view(old(endpoints)@) + link_object(
            members_view(entries@),
            opt_view(rel),
            parent_item.url@,
            parent_item.depth as nat,
        ),
{
    let ghost members = members_view(entries@);
    match get_str(entries, "href") {
        Some(href) => {
            let mut ep = ApiEndpoint::new(href, parent_item.depth + 1).with_rel(rel).with_parent(
                Some(parent_item.url.clone()),
            );
            ep.method = get_str(entries, "method");
            ep.content_type = get_str(entries, "type");
            ep.title = get_str(entries, "title");
            let ghost fixed = ep@;
            let mut i: usize = 0;
            while i < entries.len()
                invariant
                    i <= entries.len(),
                    members == members_view(entries@),
                    ep@ == (EndpointV { metadata: ep@.metadata, ..fixed }),
                    ep@.metadata == link_metadata(members.take(i as int)),
                decreases entries.len() - i,
            {
                proof {
                    assert(members.take(i + 1).drop_last() =~= members.take(i as int));
                }
                if !is_reserved_key(entries[i].0.as_str()) {
                    ep.metadata.insert(entries[i].0.clone(), entries[i].1.deep_clone());
                }
                i = i + 1;
            }
            proof {
                assert(members.take(i as int) =~= members);
                lemma_endpoints_push(endpoints@, ep);
            }
            endpoints.push(ep);
        },
        None => {
            assert(endpoints_view(old(endpoints)@) + Seq::<EndpointV>::empty() =~= endpoints_view(
                endpoints@,
            ));
        },
    }
}

impl ApiCrawler {
    /// Whether `s` is an absolute URL (`http://` or `https://`) or an
    /// absolute path (`/`).
    pub fn looks_like_url(&self, s: &str) -> (r: bool)
        ensures
            r == url_like(s@),
    {
        starts_with(s, "http://") || starts_with(s, "https://") || starts_with(s, "/")
    }
}

impl ApiCrawler {
    /// Appends the endpoints of one link entry with relation `rel`: a string
    /// is an href, an object is a link object, an array holds entries of the
    /// same relation; anything else holds none.
    pub fn extract_from_link_data(
        &self,
        rel: &str,
        link_data: &Json,
        parent_item: &QueueItem,
        endpoints: &mut Vec<ApiEndpoint>,
    ) -> (r: Result<(), CrawlerError>)
        requires
            parent_item.depth < usize::MAX,
        ensures
            r is Ok,
            endpoints_view(final(endpoints)@) == endpoints_view(old(endpoints)@) + link_entry(
                rel@,
                link_data@,
                parent_item.url@,
                parent_item.depth as nat,
            ),
        decreases link_data,
    {
        let ghost url = parent_item.url@;
        let ghost depth = parent_item.depth as nat;
        match link_data {
            Json::String(href) => {
                let ep = ApiEndpoint::new(href.clone(), parent_item.depth + 1).with_rel(
                    Some(rel.to_owned()),
                ).with_parent(Some(parent_item.url.clone()));
                proof {
                    lemma_endpoints_push(endpoints@, ep);
                }
                endpoints.push(ep);
            },
            Json::Object(link_obj) => {
                proof {
                    lemma_object_view(link_data, link_obj);
                }
                push_link_object(link_obj, Some(rel.to_owned()), parent_item, endpoints);
            },
            Json::Array(link_array) => {
                proof {
                    lemma_array_view(link_data, link_array);
                }
                let ghost items = items_view(link_array@);
                let ghost base = endpoints_view(endpoints@);
                let mut i: usize = 0;
                while i < link_array.len()
                    invariant
                        i <= link_array.len(),
                        parent_item.depth < usize::MAX,
                        url == parent_item.url@,
                        depth == parent_item.depth as nat,
                        *link_data == Json::Array(*link_array),
                        items == items_view(link_array@),
                        endpoints_view(endpoints@) == base + link_items(rel@, items, i as nat, url, depth),
                    decreases link_array.len() - i,
                {
                    proof {
                        assert(decreases_to!(*link_data => (*link_data)->Array_0));
                        assert(decreases_to!(*link_array => link_array[i as int]));
                    }
                    let _ = self.extract_from_link_data(rel, &link_array[i], parent_item, endpoints);
                    proof {
                        assert(base + link_items(rel@, items, i as nat, url, depth) + link_entry(
                            rel@,
                            items[i as int],
                            url,
                            depth,
                        ) =~= base + link_items(rel@, items, (i + 1) as nat, url, depth));
                    }
                    i = i + 1;
                }
            },
            _ => {
                assert(endpoints_view(endpoints@) =~= endpoints_view(old(endpoints)@) + Seq::<
                    EndpointV,
                >::empty());
            },
        }
        Ok(())
    }

    /// Appends the endpoints of every member of a links object, keyed by
    /// relation.
    fn extract_from_link_members(
        &self,
        links: &Vec<(String, Json)>,
        parent_item: &QueueItem,
        endpoints: &mut Vec<ApiEndpoint>,
    )
        requires
            parent_item.depth < usize::MAX,
        ensures
            endpoints_view(final(endpoints)@) == endpoints_view(old(endpoints)@) + link_members(
                members_view(links@),
                links@.len(),
                parent_item.url@,
                parent_item.depth as nat,
            ),
    {
        let ghost url = parent_item.url@;
        let ghost depth = parent_item.depth as nat;
        let ghost m = members_view(links@);
        let ghost base = endpoints_view(endpoints@);
        let mut i: usize = 0;
        while i < links.len()
            invariant
                i <= links.len(),
                parent_item.depth < usize::MAX,
                url == parent_item.url@,
                depth == parent_item.depth as nat,
                m == members_view(links@),
                endpoints_view(endpoints@) == base + link_members(m, i as nat, url, depth),
            decreases links.len() - i,
        {
            let _ = self.extract_from_link_data(links[i].0.as_str(), &links[i].1, parent_item, endpoints);
            proof {
                assert(base + link_members(m, i as nat, url, depth) + link_entry(
                    m[i as int].0,
                    m[i as int].1,
                    url,
                    depth,
                ) =~= base + link_members(m, (i + 1) as nat, url, depth));
            }
            i = i + 1;
        }
    }

    /// Appends the endpoints of the objects of a JSON:API links array, each
    /// with its own `rel` string or "unknown".
    fn extract_from_link_array(
        &self,
        items: &Vec<Json>,
        parent_item: &QueueItem,
        endpoints: &mut Vec<ApiEndpoint>,
    )
        requires
            parent_item.depth < usize::MAX,
        ensures
            endpoints_view(final(endpoints)@) == endpoints_view(old(endpoints)@) + link_array(
                items_view(items@),
                items@.len(),
                parent_item.url@,
                parent_item.depth as nat,
            ),
    {
        let ghost url = parent_item.url@;
        let ghost depth = parent_item.depth as nat;
        let ghost iv = items_view(items@);
        let ghost base = endpoints_view(endpoints@);
        let mut i: usize = 0;
        while i < items.len()
            invariant
                i <= items.len(),
                parent_item.depth < usize::MAX,
                url == parent_item.url@,
                depth == parent_item.depth as nat,
                iv == items_view(items@),
                endpoints_view(endpoints@) == base + link_array(iv, i as nat, url, depth),
            decreases items.len() - i,
        {
            match &items[i] {
                Json::Object(link_obj) => {
                    proof {
                        lemma_object_view(&items[i as int], link_obj);
                    }
                    let rel = match get_str(link_obj, "rel") {
                        Some(r) => r,
                        None => "unknown".to_owned(),
                    };
                    let _ = self.extract_from_link_data(rel.as_str(), &items[i], parent_item, endpoints);
                    proof {
                        assert(base + link_array(iv, i as nat, url, depth) + link_entry(
                            array_link_rel(members_view(link_obj@)),
                            iv[i as int],
                            url,
                            depth,
                        ) =~= base + link_array(iv, (i + 1) as nat, url, depth));
                    }
                },
                _ => {
                    proof {
                        assert(base + link_array(iv, i as nat, url, depth) =~= base + link_array(
                            iv,
                            (i + 1) as nat,
                            url,
                            depth,
                        ));
                    }
                },
            }
            i = i + 1;
        }
    }
}

/// Appends the endpoints of the members whose name may hold a URL and whose
/// value is URL-like text.
fn push_url_fields(obj: &Vec<(String, Json)>, parent_item: &QueueItem, endpoints: &mut Vec<ApiEndpoint>)
    requires
        parent_item.depth < usize::MAX,
    ensures
        endpoints_view(final(endpoints)@) == endpoints_view(old(endpoints)@) + url_fields(
            members_view(obj@),
            obj@.len(),
            parent_item.url@,
            parent_item.depth as nat,
        ),
{
    let ghost url = parent_item.url@;
    let ghost depth = parent_item.depth as nat;
    let ghost m = members_view(obj@);
    let ghost base = endpoints_view(endpoints@);
    let mut i: usize = 0;
    while i < obj.len()
        invariant
            i <= obj.len(),
            parent_item.depth < usize::MAX,
            url == parent_item.url@,
            depth == parent_item.depth as nat,
            m == members_view(obj@),
            endpoints_view(endpoints@) == base + url_fields(m, i as nat, url, depth),
        decreases obj.len() - i,
    {
        let key = obj[i].0.as_str();
        let mut added = false;
        if contains(key, "url") || contains(key, "uri") || ends_with(key, "_link") {
            match obj[i].1.as_str() {
                Some(url_str) => {
                    if starts_with(url_str, "http://") || starts_with(url_str, "https://")
                        || starts_with(url_str, "/") {
                        let ep = ApiEndpoint::new(url_str.to_owned(), parent_item.depth + 1).with_parent(
                            Some(parent_item.url.clone()),
                        ).with_metadata("source_field".to_owned(), Json::String(key.to_owned()));
                        proof {
                            lemma_endpoints_push(endpoints@, ep);
                            assert(meta_insert(Seq::empty(), "source_field"@, JsonV::Str(key@))
                                =~= seq![("source_field"@, JsonV::Str(key@))]);
                            assert(url_field(m[i as int], url, depth) =~= seq![ep@]);
                        }
                        endpoints.push(ep);
                        added = true;
                    }
                },
                None => {},
            }
        }
        proof {
            if !added {
                assert(url_field(m[i as int], url, depth) =~= Seq::<EndpointV>::empty());
            }
            assert(base + url_fields(m, i as nat, url, depth) + url_field(m[i as int], url, depth)
                =~= base + url_fields(m, (i + 1) as nat, url, depth));
        }
        i = i + 1;
    }
}

impl ApiCrawler {
    /// Appends every endpoint of an object: HAL links, JSON:API links, its
    /// own `href`, its URL-like members, then those of its nested objects and
    /// of the objects in its nested arrays.
    pub fn extract_from_object(
        &self,
        obj: &Vec<(String, Json)>,
        parent_item: &QueueItem,
        endpoints: &mut Vec<ApiEndpoint>,
    ) -> (r: Result<(), CrawlerError>)
        requires
            parent_item.depth < usize::MAX,
        ensures
            r is Ok,
            endpoints_view(final(endpoints)@) == endpoints_view(old(endpoints)@) + object_endpoints(
                members_view(obj@),
                parent_item.url@,
                parent_item.depth as nat,
            ),
        decreases obj,
    {
        let ghost url = parent_item.url@;
        let ghost depth = parent_item.depth as nat;
        let ghost m = members_view(obj@);
        let ghost base = endpoints_view(endpoints@);
        match object_get(obj, "_links") {
            Some(j) => match j {
                Json::Object(links) => {
                    proof {
                        lemma_object_view(j, links);
                    }
                    self.extract_from_link_members(links, parent_item, endpoints);
                },
                _ => {},
            },
            None => {},
        }
        assert(endpoints_view(endpoints@) =~= base + hal_links(m, url, depth));
        match object_get(obj, "links") {
            Some(j) => match j {
                Json::Object(links) => {
                    proof {
                        lemma_object_view(j, links);
                    }
                    self.extract_from_link_members(links, parent_item, endpoints);
                },
                Json::Array(items) => {
                    proof {
                        lemma_array_view(j, items);
                    }
                    self.extract_from_link_array(items, parent_item, endpoints);
                },
                _ => {},
            },
            None => {},
        }
        assert(endpoints_view(endpoints@) =~= base + hal_links(m, url, depth) + api_links(m, url, depth));
        let rel = get_str(obj, "rel");
        push_link_object(obj, rel, parent_item, endpoints);
        push_url_fields(obj, parent_item, endpoints);
        let ghost mid = endpoints_view(endpoints@);
        assert(mid =~= base + hal_links(m, url, depth) + api_links(m, url, depth) + direct_href(
            m,
            url,
            depth,
        ) + url_fields(m, m.len(), url, depth));
        let mut i: usize = 0;
        while i < obj.len()
            invariant
                i <= obj.len(),
                parent_item.depth < usize::MAX,
                url == parent_item.url@,
                depth == parent_item.depth as nat,
                m == members_view(obj@),
                endpoints_view(endpoints@) == mid + nested(m, i as nat, url, depth),
            decreases obj.len() - i,
        {
            proof {
                assert(decreases_to!(*obj => obj[i as int]));
                assert(decreases_to!(obj[i as int] => obj[i as int].1));
                assert(m[i as int].1 == obj[i as int].1@);
            }
            let ghost step = endpoints_view(endpoints@);
            match &obj[i].1 {
                Json::Object(nested_obj) => {
                    proof {
                        lemma_object_view(&obj[i as int].1, nested_obj);
                        assert(decreases_to!(obj[i as int].1 => (obj[i as int].1)->Object_0));
                    }
                    let _ = self.extract_from_object(nested_obj, parent_item, endpoints);
                    assert(endpoints_view(endpoints@) == step + value_endpoints(m[i as int].1, url, depth));
                },
                Json::Array(arr) => {
                    proof {
                        lemma_array_view(&obj[i as int].1, arr);
                        assert(decreases_to!(obj[i as int].1 => (obj[i as int].1)->Array_0));
                    }
                    let ghost iv = items_view(arr@);
                    let ghost before = endpoints_view(endpoints@);
                    let mut k: usize = 0;
                    while k < arr.len()
                        invariant
                            k <= arr.len(),
                            parent_item.depth < usize::MAX,
                            url == parent_item.url@,
                            depth == parent_item.depth as nat,
                            iv == items_view(arr@),
                            decreases_to!(*obj => *arr),
                            endpoints_view(endpoints@) == before + array_objects(iv, k as nat, url, depth),
                        decreases arr.len() - k,
                    {
                        match &arr[k] {
                            Json::Object(item_obj) => {
                                proof {
                                    lemma_object_view(&arr[k as int], item_obj);
                                    assert(decreases_to!(*arr => arr[k as int]));
                                    assert(decreases_to!(arr[k as int] => (arr[k as int])->Object_0));
                                }
                                let _ = self.extract_from_object(item_obj, parent_item, endpoints);
                            },
                            _ => {},
                        }
                        proof {
                            assert(endpoints_view(endpoints@) =~= before + array_objects(iv, (k + 1) as nat, url, depth));
                        }
                        k = k + 1;
                    }
                    assert(endpoints_view(endpoints@) == step + value_endpoints(m[i as int].1, url, depth));
                },
                _ => {
                    assert(endpoints_view(endpoints@) =~= step + value_endpoints(m[i as int].1, url, depth));
                },
            }
            proof {
                assert(endpoints_view(endpoints@) =~= mid + nested(m, (i + 1) as nat, url, depth));
            }
            i = i + 1;
        }
        proof {
            assert(endpoints_view(endpoints@) =~= endpoints_view(old(endpoints)@) + object_endpoints(m, url, depth));
        }
        Ok(())
    }

    /// The endpoints of a response document: an object is scanned, an array
    /// has its objects scanned, anything else yields none. Every endpoint is
    /// one level below `parent_item` and names it as parent.
    pub fn extract_endpoints_from_json(&self, json: &Json, parent_item: &QueueItem) -> (r: Result<
        Vec<ApiEndpoint>,
        CrawlerError,
    >)
        requires
            parent_item.depth < usize::MAX,
        ensures
            r matches Ok(eps) && endpoints_view(eps@) == value_endpoints(
                json@,
                parent_item.url@,
                parent_item.depth as nat,
            ),
            r matches Ok(eps) && all_found_from(
                endpoints_view(eps@),
                parent_item.url@,
                parent_item.depth as nat,
            ),
    {
        proof {
            lemma_value_from(json@, parent_item.url@, parent_item.depth as nat);
        }
        let mut endpoints: Vec<ApiEndpoint> = Vec::new();
        let ghost url = parent_item.url@;
        let ghost depth = parent_item.depth as nat;
        match json {
            Json::Object(obj) => {
                proof {
                    lemma_object_view(json, obj);
                }
                let _ = self.extract_from_object(obj, parent_item, &mut endpoints);
                assert(endpoints_view(endpoints@) =~= value_endpoints(json@, url, depth));
            },
            Json::Array(arr) => {
                proof {
                    lemma_array_view(json, arr);
                }
                let ghost iv = items_view(arr@);
                let mut k: usize = 0;
                while k < arr.len()
                    invariant
                        k <= arr.len(),
                        parent_item.depth < usize::MAX,
                        url == parent_item.url@,
                        depth == parent_item.depth as nat,
                        iv == items_view(arr@),
                        endpoints_view(endpoints@) == array_objects(iv, k as nat, url, depth),
                    decreases arr.len() - k,
                {
                    match &arr[k] {
                        Json::Object(item_obj) => {
                            proof {
                                lemma_object_view(&arr[k as int], item_obj);
                            }
                            let _ = self.extract_from_object(item_obj, parent_item, &mut endpoints);
                        },
                        _ => {},
                    }
                    proof {
                        assert(endpoints_view(endpoints@) =~= array_objects(iv, (k + 1) as nat, url, depth));
                    }
                    k = k + 1;
                }
            },
            _ => {
                assert(endpoints_view(endpoints@) =~= value_endpoints(json@, url, depth));
            },
        }
        Ok(endpoints)
    }
}

/// Every endpoint of `s` is one level below the item at `depth` and names
/// `url` as its parent.
pub open spec fn all_found_from(s: Seq<EndpointV>, url: Seq<char>, depth: nat) -> bool {
    forall|i: int| 0 <= i < s.len() ==> s[i].depth == depth + 1 && s[i].parent_url == Some(url)
}

proof fn lemma_found_from_concat(a: Seq<EndpointV>, b: Seq<EndpointV>, url: Seq<char>, depth: nat)
    requires
        all_found_from(a, url, depth),
        all_found_from(b, url, depth),
    ensures
        all_found_from(a + b, url, depth),
{
    assert forall|i: int| 0 <= i < (a + b).len() implies (a + b)[i].depth == depth + 1 && (a
        + b)[i].parent_url == Some(url) by {
        if i >= a.len() {
            assert((a + b)[i] == b[i - a.len()]);
        }
    }
}

proof fn lemma_link_entry_from(rel: Seq<char>, v: JsonV, url: Seq<char>, depth: nat)
    ensures
        all_found_from(link_entry(rel, v, url, depth), url, depth),
    decreases v, 0nat,
{
    match v {
        JsonV::Arr(items) => lemma_link_items_from(rel, items, items.len(), url, depth),
        _ => {},
    }
}

proof fn lemma_link_items_from(rel: Seq<char>, items: Seq<JsonV>, n: nat, url: Seq<char>, depth: nat)
    ensures
        all_found_from(link_items(rel, items, n, url, depth), url, depth),
    decreases items, n,
{
    if n > 0 && n <= items.len() {
        lemma_link_items_from(rel, items, (n - 1) as nat, url, depth);
        lemma_link_entry_from(rel, items[n - 1], url, depth);
        lemma_found_from_concat(
            link_items(rel, items, (n - 1) as nat, url, depth),
            link_entry(rel, items[n - 1], url, depth),
            url,
            depth,
        );
    }
}

proof fn lemma_link_members_from(links: Seq<(Seq<char>, JsonV)>, n: nat, url: Seq<char>, depth: nat)
    ensures
        all_found_from(link_members(links, n, url, depth), url, depth),
    decreases n,
{
    if n > 0 && n <= links.len() {
        lemma_link_members_from(links, (n - 1) as nat, url, depth);
        lemma_link_entry_from(links[n - 1].0, links[n - 1].1, url, depth);
        lemma_found_from_concat(
            link_members(links, (n - 1) as nat, url, depth),
            link_entry(links[n - 1].0, links[n - 1].1, url, depth),
            url,
            depth,
        );
    }
}

proof fn lemma_link_array_from(items: Seq<JsonV>, n: nat, url: Seq<char>, depth: nat)
    ensures
        all_found_from(link_array(items, n, url, depth), url, depth),
    decreases n,
{
    if n > 0 && n <= items.len() {
        lemma_link_array_from(items, (n - 1) as nat, url, depth);
        let last = match items[n - 1] {
            JsonV::Obj(members) => link_entry(array_link_rel(members), items[n - 1], url, depth),
            _ => Seq::empty(),
        };
        match items[n - 1] {
            JsonV::Obj(members) => lemma_link_entry_from(array_link_rel(members), items[n - 1], url, depth),
            _ => {},
        }
        lemma_found_from_concat(link_array(items, (n - 1) as nat, url, depth), last, url, depth);
    }
}

proof fn lemma_url_fields_from(members: Seq<(Seq<char>, JsonV)>, n: nat, url: Seq<char>, depth: nat)
    ensures
        all_found_from(url_fields(members, n, url, depth), url, depth),
    decreases n,
{
    if n > 0 && n <= members.len() {
        lemma_url_fields_from(members, (n - 1) as nat, url, depth);
        lemma_found_from_concat(
            url_fields(members, (n - 1) as nat, url, depth),
            url_field(members[n - 1], url, depth),
            url,
            depth,
        );
    }
}

proof fn lemma_object_from(members: Seq<(Seq<char>, JsonV)>, url: Seq<char>, depth: nat)
    ensures
        all_found_from(object_endpoints(members, url, depth), url, depth),
    decreases members, members.len() + 1,
{
    let h = hal_links(members, url, depth);
    let a = api_links(members, url, depth);
    let d = direct_href(members, url, depth);
    let u = url_fields(members, members.len(), url, depth);
    let n = nested(members, members.len(), url, depth);
    match obj_get(members, "_links"@) {
        Some(JsonV::Obj(links)) => lemma_link_members_from(links, links.len(), url, depth),
        _ => {},
    }
    match obj_get(members, "links"@) {
        Some(JsonV::Obj(links)) => lemma_link_members_from(links, links.len(), url, depth),
        Some(JsonV::Arr(items)) => lemma_link_array_from(items, items.len(), url, depth),
        _ => {},
    }
    lemma_url_fields_from(members, members.len(), url, depth);
    lemma_nested_from(members, members.len(), url, depth);
    lemma_found_from_concat(h, a, url, depth);
    lemma_found_from_concat(h + a, d, url, depth);
    lemma_found_from_concat(h + a + d, u, url, depth);
    lemma_found_from_concat(h + a + d + u, n, url, depth);
}

proof fn lemma_nested_from(members: Seq<(Seq<char>, JsonV)>, n: nat, url: Seq<char>, depth: nat)
    ensures
        all_found_from(nested(members, n, url, depth), url, depth),
    decreases members, n,
{
    if n > 0 && n <= members.len() {
        lemma_nested_from(members, (n - 1) as nat, url, depth);
        assert(decreases_to!(members => members[n - 1]));
        lemma_value_from(members[n - 1].1, url, depth);
        lemma_found_from_concat(
            nested(members, (n - 1) as nat, url, depth),
            value_endpoints(members[n - 1].1, url, depth),
            url,
            depth,
        );
    }
}

proof fn lemma_array_objects_from(items: Seq<JsonV>, n: nat, url: Seq<char>, depth: nat)
    ensures
        all_found_from(array_objects(items, n, url, depth), url, depth),
    decreases items, n,
{
    if n > 0 && n <= items.len() {
        lemma_array_objects_from(items, (n - 1) as nat, url, depth);
        let last = match items[n - 1] {
            JsonV::Obj(members) => object_endpoints(members, url, depth),
            _ => Seq::empty(),
        };
        match items[n - 1] {
            JsonV::Obj(members) => {
                assert(decreases_to!(items => items[n - 1]));
                lemma_object_from(members, url, depth);
            },
            _ => {},
        }
        lemma_found_from_concat(array_objects(items, (n - 1) as nat, url, depth), last, url, depth);
    }
}

/// Every endpoint found in a response document is one level below the item
/// whose response it is, and names that item's URL as its parent.
pub proof fn lemma_value_from(v: JsonV, url: Seq<char>, depth: nat)
    ensures
        all_found_from(value_endpoints(v, url, depth), url, depth),
    decreases v, 0nat,
{
    match v {
        JsonV::Obj(members) => lemma_object_from(members, url, depth),
        JsonV::Arr(items) => lemma_array_objects_from(items, items.len(), url, depth),
        _ => {},
    }
}

} // verus!
