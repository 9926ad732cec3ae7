//! The route dispatcher: stateless dispatch by method and path, composing
//! the extractor, the identity resolver, the location store and the response
//! cache gate into the service's four endpoints.

use vstd::prelude::*;
use crate::cache::{gate_step, serve_cached, RequestIdentity, ResponseCache};
use crate::http::{HttpResponse, Method};
use crate::ip::{ip_text, resolve_client_ip, spec_parse_ip};
use crate::location::{extract_location, located, Location, NetworkSignals};
use crate::store::LocationStore;

verus! {

/// The routes the service defines.  Anything else falls through to the
/// platform's default handling.
#[derive(Clone, Copy, Debug, PartialEq, Eq, Structural)]
pub enum Route {
    /// `GET /`: the static page, through the cache gate.
    HomePage,
    /// `GET /index.js`: the static script, through the cache gate.
    Script,
    /// `GET /location`: the geolocation report, never cached.
    LocationReport,
    /// `GET /worker-version`: the build version string.
    WorkerVersion,
    /// No route matched.
    NoMatch,
}

/// Which route a method and path select.
pub open spec fn spec_route(method: Method, path: Seq<char>) -> Route {
    if method != Method::Get {
        Route::NoMatch
    } else if path == "/"@ {
        Route::HomePage
    } else if path == "/index.js"@ {
        Route::Script
    } else if path == "/location"@ {
        Route::LocationReport
    } else if path == "/worker-version"@ {
        Route::WorkerVersion
    } else {
        Route::NoMatch
    }
}

/// Dispatches a request to its route.
pub fn dispatch(method: Method, path: &str) -> (r: Route)
    ensures
        r == spec_route(method, path@),
{
    if method != Method::Get {
        Route::NoMatch
    } else if crate::http::str_equal(path, "/") {
        Route::HomePage
    } else if crate::http::str_equal(path, "/index.js") {
        Route::Script
    } else if crate::http::str_equal(path, "/location") {
        Route::LocationReport
    } else if crate::http::str_equal(path, "/worker-version") {
        Route::WorkerVersion
    } else {
        Route::NoMatch
    }
}

/// The static assets the service serves, fixed at build time.
pub struct StaticAssets {
    /// The page served at the root, as HTML text.
    pub html: String,
    /// The script served beside it.
    pub script: String,
}

/// A store write the geolocation endpoint decided on: associate `value` with
/// the canonical client IP string `key`.
pub struct StoreWrite {
    pub key: String,
    pub value: Location,
}

/// What one `GET /location` request produces: the location record for the
/// response body, the store write to perform if a client identity was
/// resolved, and whether a malformed identity header was seen (a diagnostic
/// to record; never an error).
pub struct LocationOutcome {
    pub location: Location,
    pub write: Option<StoreWrite>,
    pub invalid_header: bool,
}

/// Handles the geolocation endpoint: extract the location, resolve the
/// client identity from the forwarded-IP header, and decide the store write.
/// The response is unaffected by the header's absence or malformation.
pub fn location_endpoint(
    signals: &NetworkSignals,
    now_millis: u64,
    client_ip_header: Option<&str>,
) -> (r: LocationOutcome)
    ensures
        r.location@ == located(signals@, now_millis),
        match client_ip_header {
            None => r.write is None && !r.invalid_header,
            Some(h) => match spec_parse_ip(h@) {
                None => r.write is None && r.invalid_header,
                Some(a) => (r.write matches Some(w) && w.key@ == ip_text(a) && w.value@ == located(
                    signals@,
                    now_millis,
                )) && !r.invalid_header,
            },
        },
{
    let loc = extract_location(signals, now_millis);
    match client_ip_header {
        None => LocationOutcome { location: loc, write: None, invalid_header: false },
        Some(h) => match resolve_client_ip(Some(h)) {
            Some(key) => {
                let value = extract_location(signals, now_millis);
                LocationOutcome {
                    location: loc,
                    write: Some(StoreWrite { key, value }),
                    invalid_header: false,
                }
            },
            None => LocationOutcome { location: loc, write: None, invalid_header: true },
        },
    }
}

/// The directive forbidding any caching of the geolocation response.
pub open spec fn report_cache_directive() -> Seq<char> {
    "no-store, no-transform"@
}

/// What the service replies to one request.
#[derive(Debug)]
pub enum Reply {
    /// A static route's response, with whether it came from the cache.
    Page { response: HttpResponse, from_cache: bool },
    /// The geolocation report: the record to serialize as the body, the
    /// canonical key it was stored under (if any), whether a malformed
    /// identity header was seen, and the response directives.
    Report {
        location: Location,
        stored_under: Option<String>,
        invalid_header: bool,
        status: u16,
        cache_control: String,
    },
    /// The version route's response.
    VersionText { response: HttpResponse },
    /// No route matched; the platform's default handling applies.
    NoRoute,
}

/// Handles one request: dispatches on method and path, runs the selected
/// route against the response cache and the location store, and returns the
/// reply.  Static routes go through the cache gate and never touch the
/// store; the geolocation route never touches the cache, always succeeds
/// with status 200, and writes the store exactly when the forwarded-IP
/// header holds a well-formed address.
pub fn handle_request(
    method: Method,
    path: &str,
    signals: &NetworkSignals,
    now_millis: u64,
    client_ip_header: Option<&str>,
    version: &str,
    assets: &StaticAssets,
    cache: &mut ResponseCache,
    store: &mut LocationStore,
) -> (r: Reply)
    ensures
        spec_route(method, path@) == Route::HomePage ==> {
            &&& r matches Reply::Page { response, from_cache } && (response@, final(cache)@,
            from_cache) == gate_step(old(cache)@, (method, path@), "text/html"@, assets.html@)
            &&& final(store)@ == old(store)@
        },
        spec_route(method, path@) == Route::Script ==> {
            &&& r matches Reply::Page { response, from_cache } && (response@, final(cache)@,
            from_cache) == gate_step(
                old(cache)@,
                (method, path@),
                "text/javascript"@,
                assets.script@,
            )
            &&& final(store)@ == old(store)@
        },
        spec_route(method, path@) == Route::LocationReport ==> {
            &&& final(cache)@ == old(cache)@
            &&& r matches Reply::Report { location, stored_under, invalid_header, status, cache_control }
                && {
                &&& location@ == located(signals@, now_millis)
                &&& status == 200
                &&& cache_control@ == report_cache_directive()
                &&& match client_ip_header {
                    None => stored_under is None && !invalid_header && final(store)@ == old(
                        store,
                    )@,
                    Some(h) => match spec_parse_ip(h@) {
                        None => stored_under is None && invalid_header && final(store)@ == old(
                            store,
                        )@,
                        Some(a) => (stored_under matches Some(k) && k@ == ip_text(a))
                            && !invalid_header && final(store)@ == old(store)@.insert(
                            ip_text(a),
                            located(signals@, now_millis),
                        ),
                    },
                }
            }
        },
        spec_route(method, path@) == Route::WorkerVersion ==> {
            &&& r matches Reply::VersionText { response } && {
                &&& response@.status == 200
                &&& response@.body == version@
                &&& response@.cache_control is None
                &&& response@.content_type is None
            }
            &&& final(cache)@ == old(cache)@
            &&& final(store)@ == old(store)@
        },
        spec_route(method, path@) == Route::NoMatch ==> {
            &&& r is NoRoute
            &&& final(cache)@ == old(cache)@
            &&& final(store)@ == old(store)@
        },
{
    let route = dispatch(method, path);
    match route {
        Route::HomePage => {
            let id = RequestIdentity { method, path: path.to_owned() };
            let (response, from_cache) = serve_cached(cache, id, "text/html", assets.html.as_str());
            Reply::Page { response, from_cache }
        },
        Route::Script => {
            let id = RequestIdentity { method, path: path.to_owned() };
            let (response, from_cache) = serve_cached(
                cache,
                id,
                "text/javascript",
                assets.script.as_str(),
            );
            Reply::Page { response, from_cache }
        },
        Route::LocationReport => {
            let outcome = location_endpoint(signals, now_millis, client_ip_header);
            let cache_control = "no-store, no-transform".to_owned();
            match outcome.write {
                Some(w) => {
                    let stored_key = w.key.clone();
                    store.put(w.key, w.value);
                    Reply::Report {
                        location: outcome.location,
                        stored_under: Some(stored_key),
                        invalid_header: outcome.invalid_header,
                        status: 200,
                        cache_control,
                    }
                },
                None => Reply::Report {
                    location: outcome.location,
                    stored_under: None,
                    invalid_header: outcome.invalid_header,
                    status: 200,
                    cache_control,
                },
            }
        },
        Route::WorkerVersion => {
            let response = HttpResponse {
                status: 200,
                content_type: None,
                cache_control: None,
                body: version.to_owned(),
            };
            Reply::VersionText { response }
        },
        Route::NoMatch => Reply::NoRoute,
    }
}

} // verus!
