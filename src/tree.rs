//! Tree reconstruction: from the flat, duplicate-laden endpoint list of a
//! crawl to a rooted tree.
//!
//! Records are first deduplicated by href and the root is chosen. A record
//! is a child of the record whose href its parent URL names, provided it
//! sits exactly one level deeper. Records attached under no other record
//! (orphans among them) stand at the top level after the root, each with its
//! own children.

use vstd::prelude::*;
use crate::json::{key_index, lemma_key_index, lemma_key_index_bounds};
use crate::text::{
    last_path_segment, last_segment, lemma_text_lt_asymmetric, lemma_text_lt_irreflexive,
    lemma_text_lt_transitive, less_than, str_eq, text_lt,
};
use crate::types::{ApiEndpoint, EndpointV, crawlable, endpoints_view};

verus! {

/// Whether `cand` replaces `cur`, a record with the same href: it has more
/// metadata, or as much and is not a "self" link where `cur` is one.
pub open spec fn preferred(cand: EndpointV, cur: EndpointV) -> bool {
    cand.metadata.len() > cur.metadata.len() || (cand.metadata.len() == cur.metadata.len()
        && crawlable(cand) && !crawlable(cur))
}

/// Records keyed by href.
pub open spec fn by_href(s: Seq<EndpointV>) -> Seq<(Seq<char>, EndpointV)> {
    s.map_values(|e: EndpointV| (e.href, e))
}

/// The position of the record with href `h`, or -1.
pub open spec fn href_index(s: Seq<EndpointV>, h: Seq<char>) -> int {
    key_index(by_href(s), h)
}

/// One record per href, in order of the href's first appearance; of the
/// records sharing an href the preferred one is kept, the earlier on a tie.
pub open spec fn dedup(eps: Seq<EndpointV>) -> Seq<EndpointV>
    decreases eps.len(),
{
    if eps.len() == 0 {
        Seq::empty()
    } else {
        let prev = dedup(eps.drop_last());
        let e = eps.last();
        let i = href_index(prev, e.href);
        if i >= 0 {
            if preferred(e, prev[i]) {
                prev.update(i, e)
            } else {
                prev
            }
        } else {
            prev.push(e)
        }
    }
}

/// No two records share an href.
pub open spec fn distinct_hrefs(s: Seq<EndpointV>) -> bool {
    forall|i: int, j: int| 0 <= i < j < s.len() ==> s[i].href != s[j].href
}

proof fn lemma_href_index(s: Seq<EndpointV>, h: Seq<char>)
    ensures
        -1 <= href_index(s, h) < s.len(),
        href_index(s, h) >= 0 ==> s[href_index(s, h)].href == h,
        href_index(s, h) < 0 ==> forall|k: int| 0 <= k < s.len() ==> s[k].href != h,
{
    lemma_key_index_bounds(by_href(s), h);
    assert forall|k: int| 0 <= k < s.len() implies by_href(s)[k].0 == s[k].href by {}
}

/// Deduplicated records have distinct hrefs.
pub proof fn lemma_dedup_distinct(eps: Seq<EndpointV>)
    ensures
        distinct_hrefs(dedup(eps)),
    decreases eps.len(),
{
    if eps.len() > 0 {
        let prev = dedup(eps.drop_last());
        lemma_dedup_distinct(eps.drop_last());
        lemma_href_index(prev, eps.last().href);
    }
}

/// The records of `eps`, one per href.
pub fn dedup_endpoints(eps: &Vec<ApiEndpoint>) -> (r: Vec<ApiEndpoint>)
    ensures
        endpoints_view(r@) == dedup(endpoints_view(eps@)),
        distinct_hrefs(endpoints_view(r@)),
{
    proof {
        lemma_dedup_distinct(endpoints_view(eps@));
    }
    let ghost ev = endpoints_view(eps@);
    let mut out: Vec<ApiEndpoint> = Vec::new();
    let mut i: usize = 0;
    while i < eps.len()
        invariant
            i <= eps.len(),
            ev == endpoints_view(eps@),
            endpoints_view(out@) == dedup(ev.take(i as int)),
        decreases eps.len() - i,
    {
        let ghost prev = endpoints_view(out@);
        proof {
            assert(ev.take(i + 1).drop_last() =~= ev.take(i as int));
            assert(ev.take(i + 1).last() == ev[i as int]);
        }
        let mut j: usize = 0;
        let mut found = false;
        while j < out.len() && !found
            invariant
                i < eps.len(),
                j <= out.len(),
                prev == endpoints_view(out@),
                ev == endpoints_view(eps@),
                found ==> j < out.len() && prev[j as int].href == ev[i as int].href,
                forall|k: int| 0 <= k < j ==> prev[k].href != ev[i as int].href,
            decreases out.len() - j + (if found { 0int } else { 1int }),
        {
            if str_eq(out[j].href.as_str(), eps[i].href.as_str()) {
                found = true;
            } else {
                j = j + 1;
            }
        }
        proof {
            assert forall|k: int| 0 <= k < prev.len() implies by_href(prev)[k].0 == prev[k].href by {}
            lemma_key_index(by_href(prev), ev[i as int].href, j as int);
        }
        if j < out.len() {
            let e = &eps[i];
            let cur = &out[j];
            let better = e.metadata.len() > cur.metadata.len() || (e.metadata.len() == cur.metadata.len()
                && e.should_crawl() && !cur.should_crawl());
            if better {
                let c = e.deep_clone();
                out.set(j, c);
                assert(endpoints_view(out@) =~= prev.update(j as int, ev[i as int]));
            }
        } else {
            let c = eps[i].deep_clone();
            out.push(c);
            assert(endpoints_view(out@) =~= prev.push(ev[i as int]));
        }
        i = i + 1;
    }
    assert(ev.take(i as int) =~= ev);
    out
}

/// The first position whose record satisfies `p`, or -1.
pub open spec fn first_match(s: Seq<EndpointV>, p: spec_fn(EndpointV) -> bool) -> int {
    if exists|i: int| 0 <= i < s.len() && p(s[i]) {
        choose|i: int| 0 <= i < s.len() && p(s[i]) && forall|j: int| 0 <= j < i ==> !p(s[j])
    } else {
        -1
    }
}

proof fn lemma_first_match(s: Seq<EndpointV>, p: spec_fn(EndpointV) -> bool, i: int)
    requires
        0 <= i <= s.len(),
        forall|j: int| 0 <= j < i ==> !p(s[j]),
        i == s.len() || p(s[i]),
    ensures
        first_match(s, p) == if i == s.len() {
            -1
        } else {
            i
        },
{
    if i < s.len() {
        let k = choose|k: int| 0 <= k < s.len() && p(s[k]) && forall|j: int| 0 <= j < k ==> !p(s[j]);
        assert(k == i) by {
            if k < i {
            } else if k > i {
            }
        }
    }
}

/// The record a crawl's tree is rooted at: a "self" link to the start URL
/// found from the start URL, else any record of the start URL, else the
/// first of the shallowest records; -1 where there are none.
pub open spec fn root_index(recs: Seq<EndpointV>, start: Seq<char>) -> int {
    let a = first_match(recs, |e: EndpointV| self_link_to(e, start));
    let b = first_match(recs, |e: EndpointV| e.href == start);
    if a >= 0 {
        a
    } else if b >= 0 {
        b
    } else {
        first_match(recs, |e: EndpointV| shallowest(recs, e))
    }
}

/// A "self" link to `start`, found from `start`.
pub open spec fn self_link_to(e: EndpointV, start: Seq<char>) -> bool {
    e.href == start && e.parent_url == Some(start) && e.rel == Some("self"@)
}

/// No record of `recs` is shallower than `e`.
pub open spec fn shallowest(recs: Seq<EndpointV>, e: EndpointV) -> bool {
    forall|j: int| 0 <= j < recs.len() ==> e.depth <= recs[j].depth
}

/// The position of the root record among `records`, if there is any record.
pub fn choose_root(records: &Vec<ApiEndpoint>, start_url: &str) -> (r: Option<usize>)
    ensures
        match r {
            Some(i) => i < records@.len() && i == root_index(endpoints_view(records@), start_url@),
            None => records@.len() == 0,
        },
{
    let ghost recs = endpoints_view(records@);
    let ghost start = start_url@;
    let mut i: usize = 0;
    while i < records.len()
        invariant
            i <= records.len(),
            recs == endpoints_view(records@),
            start == start_url@,
            forall|j: int| 0 <= j < i ==> !self_link_to(recs[j], start),
        decreases records.len() - i,
    {
        let e = &records[i];
        if str_eq(e.href.as_str(), start_url) {
            let from_start = match &e.parent_url {
                Some(p) => str_eq(p.as_str(), start_url),
                None => false,
            };
            let is_self = match &e.rel {
                Some(rel) => str_eq(rel.as_str(), "self"),
                None => false,
            };
            if from_start && is_self {
                proof {
                    lemma_first_match(recs, |e: EndpointV| self_link_to(e, start), i as int);
                }
                return Some(i);
            }
        }
        i = i + 1;
    }
    proof {
        lemma_first_match(recs, |e: EndpointV| self_link_to(e, start), i as int);
    }
    let mut i: usize = 0;
    while i < records.len()
        invariant
            i <= records.len(),
            recs == endpoints_view(records@),
            start == start_url@,
            first_match(recs, |e: EndpointV| self_link_to(e, start)) == -1,
            forall|j: int| 0 <= j < i ==> recs[j].href != start,
        decreases records.len() - i,
    {
        if str_eq(records[i].href.as_str(), start_url) {
            proof {
                lemma_first_match(recs, |e: EndpointV| e.href == start, i as int);
            }
            return Some(i);
        }
        i = i + 1;
    }
    proof {
        lemma_first_match(recs, |e: EndpointV| e.href == start, i as int);
    }
    if records.len() == 0 {
        return None;
    }
    let mut min_depth: usize = records[0].depth;
    let ghost mut w: int = 0;
    let mut i: usize = 1;
    while i < records.len()
        invariant
            1 <= i <= records.len(),
            recs == endpoints_view(records@),
            0 <= w < i && recs[w].depth == min_depth,
            forall|j: int| 0 <= j < i ==> min_depth <= recs[j].depth,
        decreases records.len() - i,
    {
        if records[i].depth < min_depth {
            min_depth = records[i].depth;
            proof {
                w = i as int;
            }
        }
        i = i + 1;
    }
    let mut i: usize = 0;
    while i < records.len()
        invariant
            i <= records.len(),
            recs == endpoints_view(records@),
            start == start_url@,
            first_match(recs, |e: EndpointV| self_link_to(e, start)) == -1,
            first_match(recs, |e: EndpointV| e.href == start) == -1,
            exists|j: int| 0 <= j < recs.len() && recs[j].depth == min_depth,
            forall|j: int| 0 <= j < recs.len() ==> min_depth <= recs[j].depth,
            forall|j: int| 0 <= j < i ==> recs[j].depth != min_depth,
        decreases records.len() - i,
    {
        if records[i].depth == min_depth {
            proof {
                assert forall|j: int| 0 <= j < i implies !shallowest(recs, recs[j]) by {
                    let w = choose|w: int| 0 <= w < recs.len() && recs[w].depth == min_depth;
                    assert(recs[j].depth > recs[w].depth);
                }
                lemma_first_match(recs, |e: EndpointV| shallowest(recs, e), i as int);
            }
            return Some(i);
        }
        i = i + 1;
    }
    proof {
        let w = choose|w: int| 0 <= w < recs.len() && recs[w].depth == min_depth;
        assert(recs[w].depth != min_depth);
    }
    None
}

/// Levels children may be attached beyond the deepest record seen.
pub const TREE_DEPTH_SLACK: usize = 2;

/// Levels children are never attached beyond.
pub const TREE_MAX_LEVELS: usize = 64;

/// The greatest depth among `recs`, 0 where there are none.
pub open spec fn max_record_depth(recs: Seq<EndpointV>) -> nat
    decreases recs.len(),
{
    if recs.len() == 0 {
        0
    } else {
        let m = max_record_depth(recs.drop_last());
        if recs.last().depth > m {
            recs.last().depth
        } else {
            m
        }
    }
}

/// How many levels below the shallowest record children are attached.
pub open spec fn level_bound(recs: Seq<EndpointV>) -> nat {
    let m = (max_record_depth(recs) + TREE_DEPTH_SLACK) as nat;
    if m < TREE_MAX_LEVELS {
        m
    } else {
        TREE_MAX_LEVELS as nat
    }
}

/// The greatest depth among `records`, 0 where there are none.
pub fn max_depth_of(records: &Vec<ApiEndpoint>) -> (r: usize)
    ensures
        r == max_record_depth(endpoints_view(records@)),
{
    let ghost recs = endpoints_view(records@);
    let mut max_depth: usize = 0;
    let mut i: usize = 0;
    while i < records.len()
        invariant
            i <= records.len(),
            recs == endpoints_view(records@),
            max_depth == max_record_depth(recs.take(i as int)),
        decreases records.len() - i,
    {
        proof {
            assert(recs.take(i + 1).drop_last() =~= recs.take(i as int));
        }
        if records[i].depth > max_depth {
            max_depth = records[i].depth;
        }
        i = i + 1;
    }
    assert(recs.take(i as int) =~= recs);
    max_depth
}


/// The least depth among `recs`, 0 where there are none.
pub open spec fn min_record_depth(recs: Seq<EndpointV>) -> nat
    decreases recs.len(),
{
    if recs.len() == 0 {
        0
    } else if recs.len() == 1 {
        recs[0].depth
    } else {
        let m = min_record_depth(recs.drop_last());
        if recs.last().depth < m {
            recs.last().depth
        } else {
            m
        }
    }
}

proof fn lemma_min_record_depth(recs: Seq<EndpointV>)
    ensures
        forall|i: int| 0 <= i < recs.len() ==> min_record_depth(recs) <= recs[i].depth,
    decreases recs.len(),
{
    if recs.len() > 1 {
        lemma_min_record_depth(recs.drop_last());
        assert forall|i: int| 0 <= i < recs.len() implies min_record_depth(recs) <= recs[i].depth by {
            if i < recs.len() - 1 {
                assert(recs[i] == recs.drop_last()[i]);
            }
        }
    }
}

/// The least depth among `records`, 0 where there are none.
pub fn min_depth_of(records: &Vec<ApiEndpoint>) -> (r: usize)
    ensures
        r == min_record_depth(endpoints_view(records@)),
        forall|i: int| 0 <= i < records@.len() ==> r <= records@[i].depth,
{
    let ghost recs = endpoints_view(records@);
    proof {
        lemma_min_record_depth(recs);
    }
    if records.len() == 0 {
        return 0;
    }
    let mut min_depth: usize = records[0].depth;
    let mut i: usize = 1;
    while i < records.len()
        invariant
            1 <= i <= records.len(),
            recs == endpoints_view(records@),
            min_depth == min_record_depth(recs.take(i as int)),
        decreases records.len() - i,
    {
        proof {
            assert(recs.take(i + 1).drop_last() =~= recs.take(i as int));
        }
        if records[i].depth < min_depth {
            min_depth = records[i].depth;
        }
        i = i + 1;
    }
    assert(recs.take(i as int) =~= recs);
    assert forall|i: int| 0 <= i < records@.len() implies min_depth <= records@[i].depth by {
        assert(recs[i] == records@[i]@);
    }
    min_depth
}

/// Record `c` is a child of record `n`: it is not the root, its parent URL
/// is `n`'s href, and it sits one level below `n`.
pub open spec fn is_child(recs: Seq<EndpointV>, root: int, n: int, c: int) -> bool {
    &&& 0 <= n < recs.len()
    &&& 0 <= c < recs.len()
    &&& c != root
    &&& recs[c].parent_url == Some(recs[n].href)
    &&& recs[c].depth == recs[n].depth + 1
}


/// Record `n` has its children attached: it sits fewer than `bound` levels
/// below the shallowest record. This bounds how deep the walk down from any
/// top-level node recurses.
pub open spec fn expanded(recs: Seq<EndpointV>, n: int, bound: nat) -> bool {
    recs[n].depth < min_record_depth(recs) + bound
}

/// Record `c` is attached under some record: the child of a record whose
/// children are attached.
pub open spec fn attached(recs: Seq<EndpointV>, root: int, bound: nat, c: int) -> bool {
    exists|m: int| #![trigger is_child(recs, root, m, c)] expanded(recs, m, bound) && is_child(recs, root, m, c)
}

/// Record `c` is attached under one of the first `k` records.
pub open spec fn attached_before(recs: Seq<EndpointV>, root: int, bound: nat, c: int, k: int) -> bool {
    exists|m: int|
        #![trigger is_child(recs, root, m, c)]
        m < k && expanded(recs, m, bound) && is_child(recs, root, m, c)
}

/// The last path segment of a record's href.
pub open spec fn segment_of(recs: Seq<EndpointV>, x: int) -> Seq<char> {
    last_segment(recs[x].href)
}

/// Positions ordered by the last path segment of their records' hrefs, equal
/// segments in order of position.
pub open spec fn sorted_by_segment(kids: Seq<usize>, recs: Seq<EndpointV>) -> bool {
    forall|i: int, j: int|
        0 <= i < j < kids.len() ==> !text_lt(segment_of(recs, kids[j] as int), segment_of(recs, kids[i] as int))
            && (segment_of(recs, kids[i] as int) == segment_of(recs, kids[j] as int) ==> kids[i] < kids[j])
}

/// The children of `n`, each once, ordered by last path segment.
pub open spec fn children_listed(kids: Seq<usize>, recs: Seq<EndpointV>, root: int, n: int) -> bool {
    &&& forall|c: int| 0 <= c < recs.len() ==> (kids.contains(c as usize) <==> is_child(recs, root, n, c))
    &&& forall|i: int| 0 <= i < kids.len() ==> kids[i] < recs.len()
    &&& sorted_by_segment(kids, recs)
}

/// A reconstructed endpoint tree.
#[derive(Debug)]
pub struct ApiTree {
    /// The records, one per href, in order of first appearance.
    pub records: Vec<ApiEndpoint>,
    /// Top-level nodes: the root first, then every record attached under no
    /// other, in order of position.
    pub roots: Vec<usize>,
    /// For each record, the positions of its children in the tree.
    pub children: Vec<Vec<usize>>,
    /// How many levels below the shallowest record children were attached.
    pub levels: usize,
}

impl ApiTree {
    /// Every position the tree holds is a position of a record.
    #[verifier::opaque]
    pub open spec fn indices_ok(&self) -> bool {
        &&& self.children@.len() == self.records@.len()
        &&& forall|t: int| 0 <= t < self.roots@.len() ==> self.roots@[t] < self.records@.len()
        &&& forall|m: int, k: int|
            0 <= m < self.children@.len() && 0 <= k < self.children@[m]@.len() ==> #[trigger] self.children@[m]@[k]
                < self.records@.len()
    }
}


/// Inserts `c` among `kids` after every position whose segment is not
/// greater.
#[verifier::spinoff_prover]
fn insert_by_segment(kids: &mut Vec<usize>, records: &Vec<ApiEndpoint>, c: usize)
    requires
        c < records@.len(),
        sorted_by_segment(old(kids)@, endpoints_view(records@)),
        forall|i: int| 0 <= i < old(kids)@.len() ==> old(kids)@[i] < c,
    ensures
        sorted_by_segment(final(kids)@, endpoints_view(records@)),
        forall|x: usize| final(kids)@.contains(x) <==> (old(kids)@.contains(x) || x == c),
{
    let ghost recs = endpoints_view(records@);
    let ghost k0 = kids@;
    let seg_c = last_path_segment(records[c].href.as_str());
    let mut p: usize = 0;
    let mut found = false;
    while p < kids.len() && !found
        invariant
            p <= kids.len(),
            kids@ == k0,
            c < records@.len(),
            recs == endpoints_view(records@),
            seg_c@ == segment_of(recs, c as int),
            forall|i: int| 0 <= i < k0.len() ==> k0[i] < records@.len(),
            found ==> p < kids.len() && text_lt(seg_c@, segment_of(recs, k0[p as int] as int)),
            forall|i: int| 0 <= i < p ==> !text_lt(seg_c@, segment_of(recs, k0[i] as int)),
        decreases kids.len() - p + (if found { 0int } else { 1int }),
    {
        let x = kids[p];
        if less_than(seg_c, last_path_segment(records[x].href.as_str())) {
            found = true;
        } else {
            p = p + 1;
        }
    }
    kids.insert(p, c);
    proof {
        let k1 = kids@;
        assert(k1 =~= k0.subrange(0, p as int).push(c) + k0.subrange(p as int, k0.len() as int));
        assert forall|i: int, j: int| 0 <= i < j < k1.len() implies !text_lt(
            segment_of(recs, k1[j] as int),
            segment_of(recs, k1[i] as int),
        ) && (segment_of(recs, k1[i] as int) == segment_of(recs, k1[j] as int) ==> k1[i] < k1[j]) by {
            let si = segment_of(recs, k1[i] as int);
            let sj = segment_of(recs, k1[j] as int);
            if j < p {
                assert(k1[i] == k0[i]);
                assert(k1[j] == k0[j]);
            } else if j == p {
                assert(k1[j] == c);
                assert(k1[i] == k0[i]);
            } else if i < p {
                assert(k1[j] == k0[j - 1]);
                assert(k1[i] == k0[i]);
            } else if i == p {
                assert(found);
                assert(k1[i] == c);
                assert(k1[j] == k0[j - 1]);
                let sp = segment_of(recs, k0[p as int] as int);
                assert(text_lt(seg_c@, sp));
                if j - 1 > p {
                    assert(!text_lt(sj, sp));
                    lemma_text_lt_transitive(sj, seg_c@, sp);
                    if si == sj {
                        assert(text_lt(sj, sp));
                    }
                } else {
                    lemma_text_lt_asymmetric(seg_c@, sp);
                    if si == sj {
                        lemma_text_lt_irreflexive(sp);
                    }
                }
            } else {
                assert(k1[i] == k0[i - 1]);
                assert(k1[j] == k0[j - 1]);
            }
            assert(!text_lt(sj, si));
            assert(si == sj ==> k1[i] < k1[j]);
        }
        assert(sorted_by_segment(k1, recs));
        assert forall|x: usize| k1.contains(x) <==> (k0.contains(x) || x == c) by {
            if k1.contains(x) {
                let i = choose|i: int| 0 <= i < k1.len() && k1[i] == x;
                if i < p {
                    assert(k0[i] == x);
                } else if i > p {
                    assert(k0[i - 1] == x);
                }
            }
            if k0.contains(x) {
                let i = choose|i: int| 0 <= i < k0.len() && k0[i] == x;
                if i < p {
                    assert(k1[i] == x);
                } else {
                    assert(k1[i + 1] == x);
                }
            }
            if x == c {
                assert(k1[p as int] == c);
            }
        }
    }
}

/// The positions of the children of record `n`, ordered by last path
/// segment.
fn child_list(records: &Vec<ApiEndpoint>, root: usize, n: usize) -> (kids: Vec<usize>)
    requires
        root < records@.len(),
        n < records@.len(),
    ensures
        children_listed(kids@, endpoints_view(records@), root as int, n as int),
{
    let ghost recs = endpoints_view(records@);
    let mut kids: Vec<usize> = Vec::new();
    let mut c: usize = 0;
    while c < records.len()
        invariant
            c <= records.len(),
            root < records@.len(),
            n < records@.len(),
            recs == endpoints_view(records@),
            sorted_by_segment(kids@, recs),
            forall|i: int| 0 <= i < kids@.len() ==> kids@[i] < c,
            forall|x: int| 0 <= x < recs.len() ==> (kids@.contains(x as usize) <==> (x < c && is_child(recs, root as int, n as int, x))),
        decreases records.len() - c,
    {
        let from_n = match &records[c].parent_url {
            Some(p) => str_eq(p.as_str(), records[n].href.as_str()),
            None => false,
        };
        let one_below = records[n].depth < usize::MAX && records[c].depth == records[n].depth + 1;
        if c != root && from_n && one_below {
            let ghost k0 = kids@;
            insert_by_segment(&mut kids, records, c);
            assert(is_child(recs, root as int, n as int, c as int));
            assert forall|i: int| 0 <= i < kids@.len() implies kids@[i] < c + 1 by {
                assert(kids@.contains(kids@[i]));
                if k0.contains(kids@[i]) {
                    let w = choose|w: int| 0 <= w < k0.len() && k0[w] == kids@[i];
                    assert(k0[w] < c);
                }
            }
        } else {
            assert(!is_child(recs, root as int, n as int, c as int));
        }
        c = c + 1;
    }
    kids
}


/// Record `c` names no record's href as its parent URL.
pub open spec fn orphan(recs: Seq<EndpointV>, c: int) -> bool {
    forall|n: int| 0 <= n < recs.len() ==> recs[c].parent_url != Some(recs[n].href)
}


/// Each record stands in the tree exactly once: at the top level, or as the
/// child of exactly one record.
pub open spec fn placed_once(recs: Seq<EndpointV>, roots: Seq<usize>, children: Seq<Seq<usize>>) -> bool {
    &&& forall|c: usize, m1: int, m2: int|
        #![trigger children[m1].contains(c), children[m2].contains(c)]
        0 <= m1 < children.len() && 0 <= m2 < children.len() && children[m1].contains(c)
            && children[m2].contains(c) ==> m1 == m2
    &&& forall|c: usize, m: int|
        #![trigger roots.contains(c), children[m].contains(c)]
        0 <= m < children.len() && roots.contains(c) ==> !children[m].contains(c)
    &&& forall|c: usize|
        c < recs.len() && !#[trigger] roots.contains(c) ==> exists|m: int|
            0 <= m < children.len() && #[trigger] children[m].contains(c)
}


/// Position `y` occurs among the first `t` of `kids`.
pub open spec fn listed_before(kids: Seq<usize>, t: int, y: int) -> bool {
    exists|w: int| 0 <= w < t && #[trigger] kids[w] == y as usize
}

proof fn lemma_listed_step(kids: Seq<usize>, t: int, y: int)
    requires
        0 <= t < kids.len(),
        0 <= y,
        kids[t] <= usize::MAX,
    ensures
        listed_before(kids, t + 1, y) == (listed_before(kids, t, y) || kids[t] == y as usize),
{
    if listed_before(kids, t + 1, y) {
        let w = choose|w: int| 0 <= w < t + 1 && #[trigger] kids[w] == y as usize;
        if w < t {
            assert(listed_before(kids, t, y));
        }
    }
    if listed_before(kids, t, y) {
        let w = choose|w: int| 0 <= w < t && #[trigger] kids[w] == y as usize;
        assert(listed_before(kids, t + 1, y));
    }
    if kids[t] == y as usize {
        assert(listed_before(kids, t + 1, y));
    }
}


/// Lists of positions, as values.
pub open spec fn lists_view(lists: Seq<Vec<usize>>) -> Seq<Seq<usize>> {
    lists.map_values(|v: Vec<usize>| v@)
}


/// The shape of a reconstructed tree rooted at `root`, children attached to
/// records fewer than `b` levels below the shallowest one: the root comes
/// first at the top level, followed in order by every other record that is
/// attached under no record (among them every record whose parent URL names
/// no record); every record whose children are attached, the root and the
/// other top-level records included, holds exactly its children ordered by
/// last path segment, and no other record holds any; and each record stands
/// in the tree exactly once.
#[verifier::opaque]
pub open spec fn tree_shape(
    recs: Seq<EndpointV>,
    root: int,
    b: nat,
    roots: Seq<usize>,
    children: Seq<Seq<usize>>,
) -> bool {
    &&& children.len() == recs.len()
    &&& roots.len() >= 1
    &&& roots[0] == root
    &&& forall|t: int|
        1 <= t < roots.len() ==> roots[t] < recs.len() && roots[t] != root && !attached(recs, root, b, roots[t] as int)
    &&& forall|s: int, t: int| 1 <= s < t < roots.len() ==> roots[s] < roots[t]
    &&& forall|c: int|
        0 <= c < recs.len() && c != root && !attached(recs, root, b, c) ==> roots.contains(c as usize)
    &&& forall|c: int| 0 <= c < recs.len() && orphan(recs, c) ==> roots.contains(c as usize)
    &&& placed_once(recs, roots, children)
    &&& forall|m: int|
        0 <= m < recs.len() ==> if expanded(recs, m, b) {
            children_listed(#[trigger] children[m], recs, root, m)
        } else {
            children[m].len() == 0
        }
}

/// In a reconstructed tree, a record whose parent URL names no record
/// stands at the top level, nested under nothing.
pub proof fn lemma_orphan_top_level(
    recs: Seq<EndpointV>,
    root: int,
    b: nat,
    roots: Seq<usize>,
    children: Seq<Seq<usize>>,
    c: int,
)
    requires
        tree_shape(recs, root, b, roots, children),
        0 <= c < recs.len(),
        orphan(recs, c),
    ensures
        roots.contains(c as usize),
        forall|m: int| 0 <= m < children.len() ==> !children[m].contains(c as usize),
{
    reveal(tree_shape);
    assert forall|m: int| 0 <= m < children.len() implies !children[m].contains(c as usize) by {
        assert(roots.contains(c as usize));
    }
}

/// In a reconstructed tree each record stands exactly once: at the top
/// level, or as the child of exactly one record.
pub proof fn lemma_tree_places_each_record_once(
    recs: Seq<EndpointV>,
    root: int,
    b: nat,
    roots: Seq<usize>,
    children: Seq<Seq<usize>>,
)
    requires
        tree_shape(recs, root, b, roots, children),
    ensures
        placed_once(recs, roots, children),
{
    reveal(tree_shape);
}

/// Every deduplicated record is one of the endpoints.
pub proof fn lemma_dedup_from(eps: Seq<EndpointV>)
    ensures
        forall|k: int| 0 <= k < dedup(eps).len() ==> eps.contains(#[trigger] dedup(eps)[k]),
    decreases eps.len(),
{
    if eps.len() > 0 {
        let prev = dedup(eps.drop_last());
        lemma_dedup_from(eps.drop_last());
        lemma_href_index(prev, eps.last().href);
        assert forall|k: int| 0 <= k < dedup(eps).len() implies eps.contains(#[trigger] dedup(eps)[k]) by {
            if dedup(eps)[k] == eps.last() {
                assert(eps[eps.len() - 1] == eps.last());
            } else {
                assert(dedup(eps)[k] == prev[k]);
                assert(eps.drop_last().contains(prev[k]));
                let j = choose|j: int| 0 <= j < eps.drop_last().len() && eps.drop_last()[j] == prev[k];
                assert(eps[j] == prev[k]);
            }
        }
    }
}

/// An endpoint whose href no other endpoint has survives deduplication.
pub proof fn lemma_dedup_keeps_unique(eps: Seq<EndpointV>, i: int)
    requires
        0 <= i < eps.len(),
        forall|j: int| 0 <= j < eps.len() && j != i ==> eps[j].href != eps[i].href,
    ensures
        dedup(eps).contains(eps[i]),
    decreases eps.len(),
{
    let rest = eps.drop_last();
    let prev = dedup(rest);
    let e = eps.last();
    lemma_dedup_from(rest);
    lemma_href_index(prev, e.href);
    if i == eps.len() - 1 {
        assert(href_index(prev, e.href) < 0) by {
            if href_index(prev, e.href) >= 0 {
                let k = href_index(prev, e.href);
                assert(rest.contains(prev[k]));
                let j = choose|j: int| 0 <= j < rest.len() && rest[j] == prev[k];
                assert(eps[j] == rest[j]);
            }
        }
        assert(dedup(eps) == prev.push(e));
        assert(dedup(eps)[prev.len() as int] == e);
    } else {
        assert forall|j: int| 0 <= j < rest.len() && j != i implies rest[j].href != rest[i].href by {
            assert(rest[j] == eps[j]);
        }
        lemma_dedup_keeps_unique(rest, i);
        assert(rest[i] == eps[i]);
        let w = choose|w: int| 0 <= w < prev.len() && prev[w] == eps[i];
        let x = href_index(prev, e.href);
        if x >= 0 {
            assert(w != x) by {
                assert(e.href != eps[i].href) by {
                    assert(e == eps[eps.len() - 1]);
                }
            }
            if preferred(e, prev[x]) {
                assert(dedup(eps)[w] == eps[i]);
            } else {
                assert(dedup(eps)[w] == eps[i]);
            }
        } else {
            assert(dedup(eps)[w] == eps[i]);
        }
    }
}

/// An endpoint whose href no other endpoint has, and whose parent URL is no
/// endpoint's href, stands in the reconstructed tree at the top level,
/// nested under nothing.
pub proof fn lemma_orphan_endpoint_top_level(
    eps: Seq<EndpointV>,
    start: Seq<char>,
    roots: Seq<usize>,
    children: Seq<Seq<usize>>,
    i: int,
)
    requires
        0 <= i < eps.len(),
        forall|j: int| 0 <= j < eps.len() && j != i ==> eps[j].href != eps[i].href,
        forall|j: int| 0 <= j < eps.len() ==> eps[i].parent_url != Some(eps[j].href),
        tree_shape(
            dedup(eps),
            root_index(dedup(eps), start),
            level_bound(dedup(eps)),
            roots,
            children,
        ),
    ensures
        exists|c: int|
            0 <= c < dedup(eps).len() && dedup(eps)[c] == eps[i] && roots.contains(c as usize) && forall|m: int|
                0 <= m < children.len() ==> !children[m].contains(c as usize),
{
    let recs = dedup(eps);
    lemma_dedup_keeps_unique(eps, i);
    lemma_dedup_from(eps);
    let c = choose|c: int| 0 <= c < recs.len() && recs[c] == eps[i];
    assert(orphan(recs, c)) by {
        assert forall|n: int| 0 <= n < recs.len() implies recs[c].parent_url != Some(recs[n].href) by {
            assert(eps.contains(recs[n]));
            let j = choose|j: int| 0 <= j < eps.len() && eps[j] == recs[n];
            assert(eps[i].parent_url != Some(eps[j].href));
        }
    }
    lemma_orphan_top_level(recs, root_index(recs, start), level_bound(recs), roots, children, c);
}

/// What attaching children and listing the top level establish.
#[verifier::spinoff_prover]
proof fn lemma_tree_shape(
    recs: Seq<EndpointV>,
    root: int,
    b: nat,
    flags: Seq<bool>,
    roots: Seq<usize>,
    children: Seq<Seq<usize>>,
)
    requires
        0 <= root < recs.len(),
        distinct_hrefs(recs),
        flags.len() == recs.len(),
        children.len() == recs.len(),
        forall|x: int| 0 <= x < recs.len() ==> flags[x] == attached(recs, root, b, x),
        forall|m: int|
            0 <= m < recs.len() ==> if expanded(recs, m, b) {
                children_listed(#[trigger] children[m], recs, root, m)
            } else {
                children[m].len() == 0
            },
        roots.len() >= 1,
        roots[0] == root,
        forall|t: int| 1 <= t < roots.len() ==> roots[t] < flags.len() && roots[t] != root && !flags[roots[t] as int],
        forall|s: int, t: int| 1 <= s < t < roots.len() ==> roots[s] < roots[t],
        forall|c: int| 0 <= c < flags.len() && c != root && !flags[c] ==> roots.contains(c as usize),
    ensures
        tree_shape(recs, root, b, roots, children),
        forall|m: int, k: int| 0 <= m < children.len() && 0 <= k < children[m].len() ==> #[trigger] children[m][k] < recs.len(),
{
    reveal(tree_shape);
    assert forall|t: int| 1 <= t < roots.len() implies roots[t] < recs.len() && roots[t] != root && !attached(recs, root, b, roots[t] as int) by {
        assert(!flags[roots[t] as int]);
    }
    assert forall|c: int| 0 <= c < recs.len() && c != root && !attached(recs, root, b, c) implies roots.contains(c as usize) by {
        assert(!flags[c]);
    }
    assert forall|c: int| 0 <= c < recs.len() && orphan(recs, c) implies roots.contains(c as usize) by {
        if c == root {
            assert(roots[0] == c as usize);
        } else {
            assert(!flags[c]) by {
                if flags[c] {
                    let m = choose|m: int| #![trigger is_child(recs, root, m, c)] expanded(recs, m, b) && is_child(recs, root, m, c);
                    assert(recs[c].parent_url != Some(recs[m].href));
                }
            }
        }
    }
    assert forall|c: usize, m: int|
        #![trigger children[m].contains(c)]
        0 <= m < children.len() && children[m].contains(c) implies
        c < recs.len() && is_child(recs, root, m, c as int) && expanded(recs, m, b) by {
        if !expanded(recs, m, b) {
            assert(children[m].len() == 0);
        } else {
            assert(children_listed(children[m], recs, root, m));
            let w = choose|w: int| 0 <= w < children[m].len() && children[m][w] == c;
            assert(children[m][w] < recs.len());
        }
    }
    assert forall|c: usize, m1: int, m2: int|
        #![trigger children[m1].contains(c), children[m2].contains(c)]
        0 <= m1 < children.len() && 0 <= m2 < children.len() && children[m1].contains(c)
            && children[m2].contains(c) implies m1 == m2 by {
        assert(is_child(recs, root, m1, c as int));
        assert(is_child(recs, root, m2, c as int));
        if m1 != m2 {
            if m1 < m2 {
                assert(recs[m1].href != recs[m2].href);
            } else {
                assert(recs[m2].href != recs[m1].href);
            }
        }
    }
    assert forall|c: usize, m: int|
        #![trigger roots.contains(c), children[m].contains(c)]
        0 <= m < children.len() && roots.contains(c) implies !children[m].contains(c) by {
        if children[m].contains(c) {
            assert(is_child(recs, root, m, c as int));
            assert(attached(recs, root, b, c as int));
            let t = choose|t: int| 0 <= t < roots.len() && roots[t] == c;
            if t >= 1 {
                assert(!flags[roots[t] as int]);
            }
        }
    }
    assert forall|c: usize| c < recs.len() && !#[trigger] roots.contains(c) implies exists|m: int|
        0 <= m < children.len() && #[trigger] children[m].contains(c) by {
        let ci = c as int;
        assert(ci != root) by {
            assert(roots[0] == root as usize);
        }
        assert(flags[ci]);
        let m = choose|m: int| #![trigger is_child(recs, root, m, ci)] expanded(recs, m, b) && is_child(recs, root, m, ci);
        assert(children_listed(children[m], recs, root, m));
        assert(children[m].contains(c));
    }
    assert forall|m: int, k: int| 0 <= m < children.len() && 0 <= k < children[m].len() implies #[trigger] children[m][k] < recs.len() by {
        if expanded(recs, m, b) {
            assert(children_listed(children[m], recs, root, m));
        }
    }
}

proof fn lemma_indices_ok(tree: ApiTree)
    requires
        tree.children@.len() == tree.records@.len(),
        tree.roots@.len() >= 1,
        tree.roots@[0] < tree.records@.len(),
        forall|t: int| 1 <= t < tree.roots@.len() ==> tree.roots@[t] < tree.records@.len(),
        forall|m: int, k: int|
            0 <= m < tree.children@.len() && 0 <= k < lists_view(tree.children@)[m].len() ==> #[trigger] lists_view(
                tree.children@,
            )[m][k] < tree.records@.len(),
    ensures
        tree.indices_ok(),
{
    reveal(ApiTree::indices_ok);
    let lists = tree.children@;
    assert forall|m: int, k: int| 0 <= m < lists.len() && 0 <= k < lists[m]@.len() implies #[trigger] lists[m]@[k]
        < tree.records@.len() by {
        assert(lists_view(lists)[m] == lists[m]@);
        assert(lists_view(lists)[m][k] < tree.records@.len());
    }
}


/// Attaches to each record fewer than `bound` levels below the shallowest
/// one its children, and marks every record attached under another.
fn attach_children(records: &Vec<ApiEndpoint>, root: usize, bound: usize) -> (r: (Vec<Vec<usize>>, Vec<bool>))
    requires
        root < records@.len(),
    ensures
        r.0@.len() == records@.len(),
        r.1@.len() == records@.len(),
        forall|m: int|
            0 <= m < records@.len() ==> if expanded(endpoints_view(records@), m, bound as nat) {
                children_listed(#[trigger] lists_view(r.0@)[m], endpoints_view(records@), root as int, m)
            } else {
                lists_view(r.0@)[m].len() == 0
            },
        forall|x: int| 0 <= x < records@.len() ==> r.1@[x] == attached(endpoints_view(records@), root as int, bound as nat, x),
{
    let ghost recs = endpoints_view(records@);
    let ghost rt = root as int;
    let ghost b = bound as nat;
    let n = records.len();
    let min_depth = min_depth_of(records);
    let mut flags: Vec<bool> = Vec::new();
    let mut i: usize = 0;
    while i < n
        invariant
            i <= n,
            flags@.len() == i,
            forall|x: int| 0 <= x < i ==> !flags@[x],
        decreases n - i,
    {
        flags.push(false);
        i = i + 1;
    }
    let mut children: Vec<Vec<usize>> = Vec::new();
    let mut k: usize = 0;
    while k < n
        invariant
            k <= n,
            n == records@.len(),
            recs == endpoints_view(records@),
            rt == root,
            root < n,
            b == bound as nat,
            min_depth == min_record_depth(recs),
            forall|j: int| 0 <= j < n ==> min_depth <= records@[j].depth,
            flags@.len() == n,
            children@.len() == k,
            forall|m: int|
                0 <= m < k ==> if expanded(recs, m, b) {
                    children_listed(#[trigger] lists_view(children@)[m], recs, rt, m)
                } else {
                    lists_view(children@)[m].len() == 0
                },
            forall|x: int| 0 <= x < n ==> #[trigger] flags@[x] == attached_before(recs, rt, b, x, k as int),
        decreases n - k,
    {
        let ghost c0 = lists_view(children@);
        assert(recs[k as int] == records@[k as int]@);
        if records[k].depth - min_depth < bound {
            assert(expanded(recs, k as int, b));
            let kids = child_list(records, root, k);
            let ghost before = flags@;
            let mut t: usize = 0;
            while t < kids.len()
                invariant
                    t <= kids.len(),
                    flags@.len() == n,
                    before.len() == n,
                    forall|j: int| 0 <= j < kids@.len() ==> kids@[j] < n,
                    forall|x: int| 0 <= x < n ==> #[trigger] flags@[x] == (before[x] || listed_before(kids@, t as int, x)),
                decreases kids.len() - t,
            {
                let x = kids[t];
                let ghost f0 = flags@;
                flags.set(x, true);
                proof {
                    assert forall|y: int| 0 <= y < n implies flags@[y] == (before[y] || listed_before(kids@, t + 1, y)) by {
                        lemma_listed_step(kids@, t as int, y);
                        if y != x as int {
                            assert(flags@[y] == f0[y]);
                            assert(f0[y] == (before[y] || listed_before(kids@, t as int, y)));
                            assert(kids@[t as int] != y as usize);
                        } else {
                            assert(kids@[t as int] == y as usize);
                        }
                    }
                }
                t = t + 1;
            }
            proof {
                assert forall|x: int| 0 <= x < n implies flags@[x] == attached_before(recs, rt, b, x, k + 1) by {
                    if is_child(recs, rt, k as int, x) {
                        assert(kids@.contains(x as usize));
                        let w = choose|w: int| 0 <= w < kids@.len() && kids@[w] == x as usize;
                        assert(kids@[w] == x as usize);
                    }
                    if listed_before(kids@, kids@.len() as int, x) {
                        let w = choose|w: int| 0 <= w < kids@.len() && #[trigger] kids@[w] == x as usize;
                        assert(kids@.contains(x as usize));
                        assert(is_child(recs, rt, k as int, x));
                    }
                    if attached_before(recs, rt, b, x, k + 1) && !attached_before(recs, rt, b, x, k as int) {
                        let m = choose|m: int|
                            #![trigger is_child(recs, rt, m, x)]
                            m < k + 1 && expanded(recs, m, b) && is_child(recs, rt, m, x);
                        assert(m == k);
                    }
                }
            }
            children.push(kids);
        } else {
            assert(!expanded(recs, k as int, b));
            children.push(Vec::new());
            proof {
                assert forall|x: int| 0 <= x < n implies flags@[x] == attached_before(recs, rt, b, x, k + 1) by {
                    if attached_before(recs, rt, b, x, k + 1) && !attached_before(recs, rt, b, x, k as int) {
                        let m = choose|m: int|
                            #![trigger is_child(recs, rt, m, x)]
                            m < k + 1 && expanded(recs, m, b) && is_child(recs, rt, m, x);
                        assert(m == k);
                    }
                }
            }
        }
        proof {
            assert forall|m: int| 0 <= m < k + 1 implies (if expanded(recs, m, b) {
                children_listed(#[trigger] lists_view(children@)[m], recs, rt, m)
            } else {
                lists_view(children@)[m].len() == 0
            }) by {
                if m < k {
                    assert(lists_view(children@)[m] == c0[m]);
                } else {
                    assert(lists_view(children@)[m] == children@[m]@);
                }
            }
        }
        k = k + 1;
    }
    proof {
        assert forall|x: int| 0 <= x < n implies flags@[x] == attached(recs, rt, b, x) by {
            assert(flags@[x] == attached_before(recs, rt, b, x, n as int));
            if attached(recs, rt, b, x) {
                let m = choose|m: int| #![trigger is_child(recs, rt, m, x)] expanded(recs, m, b) && is_child(recs, rt, m, x);
                assert(attached_before(recs, rt, b, x, n as int));
            }
        }
    }
    (children, flags)
}

/// The top-level nodes: `root`, then every other record not attached under
/// another, in order.
fn top_level(flags: &Vec<bool>, root: usize) -> (roots: Vec<usize>)
    requires
        root < flags@.len(),
    ensures
        roots@.len() >= 1,
        roots@[0] == root,
        forall|t: int| 1 <= t < roots@.len() ==> roots@[t] < flags@.len() && roots@[t] != root && !flags@[roots@[t] as int],
        forall|s: int, t: int| 1 <= s < t < roots@.len() ==> roots@[s] < roots@[t],
        forall|c: int| 0 <= c < flags@.len() && c != root && !flags@[c] ==> roots@.contains(c as usize),
{
    let mut roots: Vec<usize> = Vec::new();
    roots.push(root);
    let mut i: usize = 0;
    while i < flags.len()
        invariant
            i <= flags@.len(),
            root < flags@.len(),
            roots@.len() >= 1,
            roots@[0] == root,
            forall|t: int| 1 <= t < roots@.len() ==> roots@[t] < i && roots@[t] != root && !flags@[roots@[t] as int],
            forall|s: int, t: int| 1 <= s < t < roots@.len() ==> roots@[s] < roots@[t],
            forall|c: int| 0 <= c < i && c != root && !flags@[c] ==> roots@.contains(c as usize),
        decreases flags.len() - i,
    {
        if i != root && !flags[i] {
            let ghost old_roots = roots@;
            roots.push(i);
            proof {
                assert(roots@[roots@.len() - 1] == i);
                assert forall|c: int| 0 <= c < i + 1 && c != root && !flags@[c] implies roots@.contains(c as usize) by {
                    if c < i {
                        assert(old_roots.contains(c as usize));
                        let w = choose|w: int| 0 <= w < old_roots.len() && old_roots[w] == c as usize;
                        assert(roots@[w] == c as usize);
                    } else {
                        assert(roots@[roots@.len() - 1] == c as usize);
                    }
                }
            }
        }
        i = i + 1;
    }
    roots
}

/// Reconstructs the tree of a crawl from `start_url`: deduplicates the
/// endpoints by href and chooses the root. Each record's children are the
/// records whose parent URL is its href and that sit one level deeper;
/// they are attached to every record within the level bound. The root
/// stands first at the top level, then, in order, every record attached
/// under no other (orphans included), each with its own children.
pub fn build_tree(endpoints: &Vec<ApiEndpoint>, start_url: &str) -> (r: ApiTree)
    ensures
        endpoints_view(r.records@) == dedup(endpoints_view(endpoints@)),
        r.indices_ok(),
        r.levels == if r.records@.len() == 0 {
            0
        } else {
            level_bound(endpoints_view(r.records@))
        },
        ({
            let recs = dedup(endpoints_view(endpoints@));
            if recs.len() == 0 {
                r.roots@.len() == 0 && r.children@.len() == 0
            } else {
                tree_shape(
                    recs,
                    root_index(recs, start_url@),
                    level_bound(recs),
                    r.roots@,
                    lists_view(r.children@),
                )
            }
        }),
{
    let records = dedup_endpoints(endpoints);
    let ghost recs = endpoints_view(records@);
    let root = match choose_root(&records, start_url) {
        Some(i) => i,
        None => {
            let r = ApiTree { records, roots: Vec::new(), children: Vec::new(), levels: 0 };
            proof {
                reveal(ApiTree::indices_ok);
                assert(r.children@.len() == 0);
            }
            return r;
        },
    };
    let max_depth = max_depth_of(&records);
    let bound: usize = if max_depth < TREE_MAX_LEVELS - TREE_DEPTH_SLACK {
        max_depth + TREE_DEPTH_SLACK
    } else {
        TREE_MAX_LEVELS
    };
    assert(bound == level_bound(recs));
    let (children, flags) = attach_children(&records, root, bound);
    let roots = top_level(&flags, root);
    proof {
        lemma_tree_shape(recs, root as int, bound as nat, flags@, roots@, lists_view(children@));
    }
    let r = ApiTree { records, roots, children, levels: bound };
    proof {
        lemma_indices_ok(r);
    }
    r
}

} // verus!
