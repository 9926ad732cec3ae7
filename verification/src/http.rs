//! Plain-value model of the HTTP requests and responses the service handles.

use vstd::prelude::*;

verus! {

/// HTTP request method.  The service only wires handlers to `Get`; every
/// other method falls through to the platform's default handling.
#[derive(Clone, Copy, Debug, PartialEq, Eq, Structural)]
pub enum Method {
    Get,
    Head,
    Post,
    Put,
    Delete,
    Options,
    Patch,
}

/// A response as this service builds it: status, the two headers the service
/// sets, and a textual body.
#[derive(Clone, Debug, PartialEq)]
pub struct HttpResponse {
    pub status: u16,
    pub content_type: Option<String>,
    pub cache_control: Option<String>,
    pub body: String,
}

/// Mathematical image of `HttpResponse`.
pub ghost struct ResponseView {
    pub status: u16,
    pub content_type: Option<Seq<char>>,
    pub cache_control: Option<Seq<char>>,
    pub body: Seq<char>,
}

impl View for HttpResponse {
    type V = ResponseView;

    open spec fn view(&self) -> ResponseView {
        ResponseView {
            status: self.status,
            content_type: match self.content_type {
                Some(s) => Some(s@),
                None => None,
            },
            cache_control: match self.cache_control {
                Some(s) => Some(s@),
                None => None,
            },
            body: self.body@,
        }
    }
}

/// The freshness directive attached to cacheable static responses.
pub open spec fn static_cache_directive() -> Seq<char> {
    "public,max-age=1000"@
}

/// The response a static route generates on a cache miss: a successful page
/// with the given content type, marked fresh for the shared cache and
/// downstream clients.
pub open spec fn fresh_static_response(content_type: Seq<char>, body: Seq<char>) -> ResponseView {
    ResponseView { status: 200, content_type: Some(content_type), cache_control: Some(static_cache_directive()), body }
}

/// Builds the fresh response for a static route.
pub fn make_static_response(content_type: &str, body: &str) -> (r: HttpResponse)
    ensures
        r@ == fresh_static_response(content_type@, body@),
{
    HttpResponse {
        status: 200,
        content_type: Some(content_type.to_owned()),
        cache_control: Some("public,max-age=1000".to_owned()),
        body: body.to_owned(),
    }
}

/// Character-by-character string equality; true exactly when the two views
/// are the same sequence.
pub fn str_equal(a: &str, b: &str) -> (r: bool)
    ensures
        r == (a@ == b@),
{
    let na = a.unicode_len();
    let nb = b.unicode_len();
    if na != nb {
        assert(a@ != b@);
        return false;
    }
    let mut i: usize = 0;
    while i < na
        invariant
            i <= na,
            na == a@.len(),
            na == b@.len(),
            forall|j: int| 0 <= j < i ==> a@[j] == b@[j],
        decreases na - i,
    {
        if a.get_char(i) != b.get_char(i) {
            return false;
        }
        i = i + 1;
    }
    proof {
        assert(a@ =~= b@);
    }
    true
}

} // verus!
