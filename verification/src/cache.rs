//! The response-cache gate.
//!
//! Idempotent static routes are wired through a shared response cache keyed
//! by request identity (method and path).  On a hit the cached response is
//! returned verbatim and nothing is regenerated; on a miss the fresh response
//! is stored under the key and returned.  The cache is modeled, like the
//! store, as a journal whose observable value is a map; the platform cache
//! the host fronts this with has the same hit/miss semantics, and a platform
//! cache failure degrades to treating the request as a miss.

use vstd::prelude::*;
use crate::http::{fresh_static_response, HttpResponse, Method, ResponseView};
use crate::http::str_equal;

verus! {

/// The identity under which a response is cached: the request's method and
/// path.
#[derive(Clone, Debug)]
pub struct RequestIdentity {
    pub method: Method,
    pub path: String,
}

impl View for RequestIdentity {
    type V = (Method, Seq<char>);

    open spec fn view(&self) -> (Method, Seq<char>) {
        (self.method, self.path@)
    }
}

/// The association a journal of cache writes denotes.
spec fn cache_map(entries: Seq<(RequestIdentity, HttpResponse)>) -> Map<
    (Method, Seq<char>),
    ResponseView,
>
    decreases entries.len(),
{
    if entries.len() == 0 {
        Map::empty()
    } else {
        cache_map(entries.drop_last()).insert(entries.last().0@, entries.last().1@)
    }
}

/// Shared response cache: request identity to previously computed response.
pub struct ResponseCache {
    entries: Vec<(RequestIdentity, HttpResponse)>,
}

impl View for ResponseCache {
    type V = Map<(Method, Seq<char>), ResponseView>;

    closed spec fn view(&self) -> Map<(Method, Seq<char>), ResponseView> {
        cache_map(self.entries@)
    }
}

/// What serving one request through the cache gate does: on a hit the stored
/// response is handed back and the cache is untouched; on a miss the fresh
/// static response is stored and handed back.  The third component says
/// whether the response was served from the cache, the path on which no new
/// body is built.
pub open spec fn gate_step(
    m: Map<(Method, Seq<char>), ResponseView>,
    id: (Method, Seq<char>),
    content_type: Seq<char>,
    body: Seq<char>,
) -> (ResponseView, Map<(Method, Seq<char>), ResponseView>, bool) {
    if m.contains_key(id) {
        (m[id], m, true)
    } else {
        let fresh = fresh_static_response(content_type, body);
        (fresh, m.insert(id, fresh), false)
    }
}

impl ResponseCache {
    /// An empty cache.
    pub fn new() -> (r: ResponseCache)
        ensures
            r@ == Map::<(Method, Seq<char>), ResponseView>::empty(),
    {
        ResponseCache { entries: Vec::new() }
    }

    /// Looks up the response cached under `id`.
    pub fn lookup(&self, id: &RequestIdentity) -> (r: Option<&HttpResponse>)
        ensures
            match r {
                Some(resp) => self@.contains_key(id@) && resp@ == self@[id@],
                None => !self@.contains_key(id@),
            },
    {
        let n = self.entries.len();
        proof {
            assert(self.entries@.subrange(0, n as int) =~= self.entries@);
        }
        let mut i: usize = n;
        while i > 0
            invariant
                i <= n,
                n == self.entries@.len(),
                self@.contains_key(id@) <==> cache_map(self.entries@.subrange(0, i as int)).contains_key(id@),
                self@.contains_key(id@) ==> cache_map(self.entries@.subrange(0, i as int))[id@] == self@[id@],
            decreases i,
        {
            i = i - 1;
            proof {
                assert(self.entries@.subrange(0, i as int + 1).drop_last() =~= self.entries@.subrange(0, i as int));
                assert(self.entries@.subrange(0, i as int + 1).last() == self.entries@[i as int]);
            }
            let entry = &self.entries[i];
            if entry.0.method == id.method && str_equal(entry.0.path.as_str(), id.path.as_str()) {
                proof {
                    assert(entry.0@ == id@);
                    assert(cache_map(self.entries@.subrange(0, i as int + 1)).contains_key(id@));
                    assert(cache_map(self.entries@.subrange(0, i as int + 1))[id@] == self.entries@[i as int].1@);
                }
                return Some(&entry.1);
            }
        }
        proof {
            assert(self.entries@.subrange(0, 0) =~= Seq::<(RequestIdentity, HttpResponse)>::empty());
        }
        None
    }

    /// Stores `resp` under `id`.
    pub fn record(&mut self, id: RequestIdentity, resp: HttpResponse)
        ensures
            final(self)@ == old(self)@.insert(id@, resp@),
    {
        let ghost before = self.entries@;
        self.entries.push((id, resp));
        proof {
            assert(self.entries@.drop_last() =~= before);
        }
    }
}

/// Serves a cacheable static route through the cache gate.  Returns the response
/// and whether it was served from the cache; see [`gate_step`] for what a
/// hit and a miss each do to the cache.
pub fn serve_cached(
    cache: &mut ResponseCache,
    id: RequestIdentity,
    content_type: &str,
    body: &str,
) -> (r: (HttpResponse, bool))
    ensures
        (r.0@, final(cache)@, r.1) == gate_step(old(cache)@, id@, content_type@, body@),
{
    match cache.lookup(&id) {
        Some(resp) => {
            let hit = clone_response(resp);
            (hit, true)
        },
        None => {
            let fresh = crate::http::make_static_response(content_type, body);
            let copy = clone_response(&fresh);
            cache.record(id, copy);
            (fresh, false)
        },
    }
}

/// Copies a response field by field, so that the copy has the same view.
fn clone_response(r: &HttpResponse) -> (c: HttpResponse)
    ensures
        c@ == r@,
{
    HttpResponse {
        status: r.status,
        content_type: match &r.content_type {
            Some(s) => Some(s.clone()),
            None => None,
        },
        cache_control: match &r.cache_control {
            Some(s) => Some(s.clone()),
            None => None,
        },
        body: r.body.clone(),
    }
}

/// Two sequential requests with identical request identity: the first pass
/// may miss, but the second is served from the cache, does not regenerate,
/// and carries a response identical to the first, leaving the cache as it
/// was.
pub proof fn lemma_repeat_request_hits_cache(
    m: Map<(Method, Seq<char>), ResponseView>,
    id: (Method, Seq<char>),
    content_type: Seq<char>,
    body: Seq<char>,
)
    ensures
        ({
            let (first_resp, after_first, _) = gate_step(m, id, content_type, body);
            let (second_resp, after_second, second_cached) = gate_step(
                after_first,
                id,
                content_type,
                body,
            );
            &&& second_cached
            &&& second_resp == first_resp
            &&& after_second == after_first
        }),
{
}

} // verus!
