//! The values that the crawler discovers, is configured with and keeps.

use vstd::prelude::*;
use crate::json::{Json, JsonV, members_view, key_index, obj_get, lemma_key_index};
use crate::text::str_eq;

verus! {

/// The text of an optional string.
pub open spec fn opt_view(o: Option<String>) -> Option<Seq<char>> {
    match o {
        Some(s) => Some(s@),
        None => None,
    }
}

/// A copy of an optional string.
pub fn clone_opt(o: &Option<String>) -> (r: Option<String>)
    ensures
        opt_view(r) == opt_view(*o),
{
    match o {
        Some(s) => Some(s.clone()),
        None => None,
    }
}

/// Members after storing `value` under `key`: the first member of that name
/// takes the new value, or the pair is appended where there is none.
pub open spec fn meta_insert(
    members: Seq<(Seq<char>, JsonV)>,
    key: Seq<char>,
    value: JsonV,
) -> Seq<(Seq<char>, JsonV)> {
    let i = key_index(members, key);
    if i >= 0 {
        members.update(i, (key, value))
    } else {
        members.push((key, value))
    }
}

/// Extra facts about an endpoint, by name. A name occurs at most once.
#[derive(Debug)]
pub struct Metadata {
    entries: Vec<(String, Json)>,
}

impl View for Metadata {
    type V = Seq<(Seq<char>, JsonV)>;

    closed spec fn view(&self) -> Seq<(Seq<char>, JsonV)> {
        members_view(self.entries@)
    }
}

impl Metadata {
    /// No facts.
    pub fn new() -> (r: Metadata)
        ensures
            r@ == Seq::<(Seq<char>, JsonV)>::empty(),
    {
        let r = Metadata { entries: Vec::new() };
        assert(r@ =~= Seq::<(Seq<char>, JsonV)>::empty());
        r
    }

    /// The position of `key`, if it is stored.
    fn position(&self, key: &str) -> (r: Option<usize>)
        ensures
            match r {
                Some(i) => key_index(self@, key@) == i && i < self@.len(),
                None => key_index(self@, key@) == -1,
            },
    {
        let mut i: usize = 0;
        while i < self.entries.len()
            invariant
                i <= self.entries.len(),
                forall|k: int| 0 <= k < i ==> self@[k].0 != key@,
            decreases self.entries.len() - i,
        {
            if str_eq(self.entries[i].0.as_str(), key) {
                proof {
                    lemma_key_index(self@, key@, i as int);
                }
                return Some(i);
            }
            i = i + 1;
        }
        proof {
            lemma_key_index(self@, key@, i as int);
        }
        None
    }

    /// Stores `value` under `key`, in place of what was stored there.
    pub fn insert(&mut self, key: String, value: Json)
        ensures
            final(self)@ == meta_insert(old(self)@, key@, value@),
    {
        match self.position(key.as_str()) {
            Some(i) => {
                assert(self@.len() == self.entries.len());
                let ghost k = key@;
                let ghost v = value@;
                self.entries.set(i, (key, value));
                assert(self@ =~= old(self)@.update(i as int, (k, v)));
            },
            None => {
                let ghost k = key@;
                let ghost v = value@;
                self.entries.push((key, value));
                assert(self@ =~= old(self)@.push((k, v)));
            },
        }
    }

    /// The value stored under `key`.
    pub fn get(&self, key: &str) -> (r: Option<&Json>)
        ensures
            match obj_get(self@, key@) {
                Some(v) => r matches Some(j) && j@ == v,
                None => r is None,
            },
    {
        match self.position(key) {
            Some(i) => {
                assert(self@.len() == self.entries.len());
                Some(&self.entries[i].1)
            },
            None => None,
        }
    }

    /// Whether something is stored under `key`.
    pub fn contains_key(&self, key: &str) -> (r: bool)
        ensures
            r == (key_index(self@, key@) >= 0),
    {
        self.position(key).is_some()
    }

    /// The number of names stored.
    pub fn len(&self) -> (r: usize)
        ensures
            r == self@.len(),
    {
        self.entries.len()
    }

    /// Whether nothing is stored.
    pub fn is_empty(&self) -> (r: bool)
        ensures
            r == (self@.len() == 0),
    {
        self.entries.len() == 0
    }

    /// The stored pairs, in the order the names were first stored.
    pub fn entries(&self) -> (r: &Vec<(String, Json)>)
        ensures
            members_view(r@) == self@,
    {
        &self.entries
    }

    /// A copy with the same pairs.
    pub fn deep_clone(&self) -> (r: Metadata)
        ensures
            r@ == self@,
    {
        let mut out: Vec<(String, Json)> = Vec::new();
        let mut i: usize = 0;
        while i < self.entries.len()
            invariant
                i <= self.entries.len(),
                out.len() == i,
                forall|k: int| 0 <= k < i ==> members_view(out@)[k] == self@[k],
            decreases self.entries.len() - i,
        {
            let v = self.entries[i].1.deep_clone();
            out.push((self.entries[i].0.clone(), v));
            i = i + 1;
        }
        let r = Metadata { entries: out };
        assert(r@ =~= self@);
        r
    }
}

/// The mathematical value of an endpoint.
pub struct EndpointV {
    pub href: Seq<char>,
    pub rel: Option<Seq<char>>,
    pub method: Option<Seq<char>>,
    pub content_type: Option<Seq<char>>,
    pub title: Option<Seq<char>>,
    pub depth: nat,
    pub parent_url: Option<Seq<char>>,
    pub metadata: Seq<(Seq<char>, JsonV)>,
}

/// An endpoint found in a response.
#[derive(Debug)]
pub struct ApiEndpoint {
    /// Where the endpoint is.
    pub href: String,
    /// Its link relation, such as "self" or "next".
    pub rel: Option<String>,
    /// The HTTP method the link names.
    pub method: Option<String>,
    /// The content type the link names.
    pub content_type: Option<String>,
    /// The link's title.
    pub title: Option<String>,
    /// The traversal level at which it was found.
    pub depth: usize,
    /// The URL whose response named it.
    pub parent_url: Option<String>,
    /// The link's other members.
    pub metadata: Metadata,
}

impl View for ApiEndpoint {
    type V = EndpointV;

    open spec fn view(&self) -> EndpointV {
        EndpointV {
            href: self.href@,
            rel: opt_view(self.rel),
            method: opt_view(self.method),
            content_type: opt_view(self.content_type),
            title: opt_view(self.title),
            depth: self.depth as nat,
            parent_url: opt_view(self.parent_url),
            metadata: self.metadata@,
        }
    }
}

/// Whether the crawler follows an endpoint: every relation but "self".
pub open spec fn crawlable(e: EndpointV) -> bool {
    e.rel != Some("self"@)
}

/// The values of a sequence of endpoints.
pub open spec fn endpoints_view(eps: Seq<ApiEndpoint>) -> Seq<EndpointV> {
    eps.map_values(|e: ApiEndpoint| e@)
}

impl ApiEndpoint {
    /// An endpoint at `href` found at `depth`, with nothing else known.
    pub fn new(href: String, depth: usize) -> (r: ApiEndpoint)
        ensures
            r@ == (EndpointV {
                href: href@,
                rel: None,
                method: None,
                content_type: None,
                title: None,
                depth: depth as nat,
                parent_url: None,
                metadata: Seq::empty(),
            }),
    {
        ApiEndpoint {
            href,
            rel: None,
            method: None,
            content_type: None,
            title: None,
            depth,
            parent_url: None,
            metadata: Metadata::new(),
        }
    }

    /// The same endpoint with relation `rel`.
    pub fn with_rel(self, rel: Option<String>) -> (r: ApiEndpoint)
        ensures
            r@ == (EndpointV { rel: opt_view(rel), ..self@ }),
    {
        let mut e = self;
        e.rel = rel;
        e
    }

    /// The same endpoint found from `parent_url`.
    pub fn with_parent(self, parent_url: Option<String>) -> (r: ApiEndpoint)
        ensures
            r@ == (EndpointV { parent_url: opt_view(parent_url), ..self@ }),
    {
        let mut e = self;
        e.parent_url = parent_url;
        e
    }

    /// The same endpoint with `value` stored under `key`.
    pub fn with_metadata(self, key: String, value: Json) -> (r: ApiEndpoint)
        ensures
            r@ == (EndpointV { metadata: meta_insert(self@.metadata, key@, value@), ..self@ }),
    {
        let mut e = self;
        e.metadata.insert(key, value);
        e
    }

    /// Whether the crawler follows this endpoint: only a "self" link is not
    /// followed.
    pub fn should_crawl(&self) -> (r: bool)
        ensures
            r == crawlable(self@),
    {
        match &self.rel {
            Some(rel) => !str_eq(rel.as_str(), "self"),
            None => true,
        }
    }

    /// A copy of the endpoint.
    pub fn deep_clone(&self) -> (r: ApiEndpoint)
        ensures
            r@ == self@,
    {
        ApiEndpoint {
            href: self.href.clone(),
            rel: clone_opt(&self.rel),
            method: clone_opt(&self.method),
            content_type: clone_opt(&self.content_type),
            title: clone_opt(&self.title),
            depth: self.depth,
            parent_url: clone_opt(&self.parent_url),
            metadata: self.metadata.deep_clone(),
        }
    }
}

/// The mathematical value of a frontier item.
pub struct QueueItemV {
    pub url: Seq<char>,
    pub depth: nat,
    pub parent_url: Option<Seq<char>>,
}

/// A URL waiting in the frontier.
#[derive(Debug, Clone, PartialEq, Eq, Hash)]
pub struct QueueItem {
    /// The URL to fetch.
    pub url: String,
    /// Its traversal level; the seed is at 0.
    pub depth: usize,
    /// The URL whose response named it.
    pub parent_url: Option<String>,
}

impl View for QueueItem {
    type V = QueueItemV;

    open spec fn view(&self) -> QueueItemV {
        QueueItemV { url: self.url@, depth: self.depth as nat, parent_url: opt_view(self.parent_url) }
    }
}

impl QueueItem {
    /// An item for `url` at `depth`, found from `parent_url`.
    pub fn new(url: String, depth: usize, parent_url: Option<String>) -> (r: QueueItem)
        ensures
            r@ == (QueueItemV { url: url@, depth: depth as nat, parent_url: opt_view(parent_url) }),
    {
        QueueItem { url, depth, parent_url }
    }

    /// A copy of the item.
    pub fn deep_clone(&self) -> (r: QueueItem)
        ensures
            r@ == self@,
    {
        QueueItem { url: self.url.clone(), depth: self.depth, parent_url: clone_opt(&self.parent_url) }
    }
}

} // verus!

verus! {

pub proof fn lemma_endpoints_push(eps: Seq<ApiEndpoint>, e: ApiEndpoint)
    ensures
        endpoints_view(eps.push(e)) == endpoints_view(eps).push(e@),
{
    assert(endpoints_view(eps.push(e)) =~= endpoints_view(eps).push(e@));
}

} // verus!
