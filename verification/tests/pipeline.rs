//! Tests for the extractor, the store, the cache gate and the composed
//! request handler.

use edge_geo::cache::{RequestIdentity, ResponseCache};
use edge_geo::http::Method;
use edge_geo::location::{extract_location, Coordinates, Location, NetworkSignals};
use edge_geo::routes::{dispatch, handle_request, location_endpoint, Reply, Route, StaticAssets};
use edge_geo::store::LocationStore;

fn full_signals() -> NetworkSignals {
    NetworkSignals {
        colo: String::from("AMS"),
        asn: 13335,
        country: Some(String::from("NL")),
        city: Some(String::from("Amsterdam")),
        continent: Some(String::from("EU")),
        coordinates: Some(Coordinates {
            latitude: (52.37f32).to_bits(),
            longitude: (4.89f32).to_bits(),
        }),
        postal_code: Some(String::from("1012")),
        metro_code: Some(String::from("0")),
        region: Some(String::from("North Holland")),
        region_code: Some(String::from("NH")),
        http_version: String::from("HTTP/2"),
    }
}

fn sparse_signals() -> NetworkSignals {
    NetworkSignals {
        colo: String::from("SJC"),
        asn: 701,
        country: None,
        city: None,
        continent: None,
        coordinates: None,
        postal_code: None,
        metro_code: None,
        region: None,
        region_code: None,
        http_version: String::from("HTTP/1.1"),
    }
}

fn assets() -> StaticAssets {
    StaticAssets {
        html: String::from("<html><body>hello</body></html>"),
        script: String::from("console.log('hi');"),
    }
}

#[test]
fn string_equality_follows_contents() {
    assert!(edge_geo::http::str_equal("", ""));
    assert!(edge_geo::http::str_equal("/location", "/location"));
    assert!(!edge_geo::http::str_equal("/location", "/locatio"));
    assert!(!edge_geo::http::str_equal("a", "b"));
}

#[test]
fn fresh_static_response_carries_directive() {
    let resp = edge_geo::http::make_static_response("text/html", "<html></html>");
    assert_eq!(resp.status, 200);
    assert_eq!(resp.content_type.as_deref(), Some("text/html"));
    assert_eq!(resp.cache_control.as_deref(), Some("public,max-age=1000"));
    assert_eq!(resp.body, "<html></html>");
}

#[test]
fn extractor_keeps_present_fields() {
    let loc = extract_location(&full_signals(), 1700000000123);
    assert_eq!(loc.colo, "AMS");
    assert_eq!(loc.asn, 13335);
    assert_eq!(loc.country.as_deref(), Some("NL"));
    assert_eq!(loc.city.as_deref(), Some("Amsterdam"));
    assert_eq!(loc.continent.as_deref(), Some("EU"));
    assert_eq!(
        loc.coordinates,
        Some(Coordinates { latitude: (52.37f32).to_bits(), longitude: (4.89f32).to_bits() })
    );
    assert_eq!(loc.postal_code.as_deref(), Some("1012"));
    assert_eq!(loc.metro_code.as_deref(), Some("0"));
    assert_eq!(loc.region.as_deref(), Some("North Holland"));
    assert_eq!(loc.region_code.as_deref(), Some("NH"));
    assert_eq!(loc.http_version, "HTTP/2");
    assert_eq!(loc.time_millis, 1700000000123);
}

#[test]
fn extractor_keeps_absent_fields_absent() {
    let loc = extract_location(&sparse_signals(), 42);
    assert_eq!(loc.colo, "SJC");
    assert_eq!(loc.asn, 701);
    assert_eq!(loc.country, None);
    assert_eq!(loc.city, None);
    assert_eq!(loc.continent, None);
    assert_eq!(loc.coordinates, None);
    assert_eq!(loc.postal_code, None);
    assert_eq!(loc.metro_code, None);
    assert_eq!(loc.region, None);
    assert_eq!(loc.region_code, None);
    assert_eq!(loc.http_version, "HTTP/1.1");
    assert_eq!(loc.time_millis, 42);
}

#[test]
fn store_returns_latest_write() {
    let mut store = LocationStore::new();
    assert!(store.get("203.0.113.7").is_none());
    let first = extract_location(&full_signals(), 1);
    let second = extract_location(&sparse_signals(), 2);
    store.put(String::from("203.0.113.7"), first);
    store.put(String::from("198.51.100.1"), extract_location(&full_signals(), 3));
    store.put(String::from("203.0.113.7"), second.clone());
    let got = store.get("203.0.113.7").expect("key was written");
    assert_eq!(*got, second);
    assert!(store.get("203.0.113.8").is_none());
}

#[test]
fn dispatch_matches_routes() {
    assert_eq!(dispatch(Method::Get, "/"), Route::HomePage);
    assert_eq!(dispatch(Method::Get, "/index.js"), Route::Script);
    assert_eq!(dispatch(Method::Get, "/location"), Route::LocationReport);
    assert_eq!(dispatch(Method::Get, "/worker-version"), Route::WorkerVersion);
    assert_eq!(dispatch(Method::Get, "/nope"), Route::NoMatch);
    assert_eq!(dispatch(Method::Get, ""), Route::NoMatch);
    assert_eq!(dispatch(Method::Post, "/"), Route::NoMatch);
    assert_eq!(dispatch(Method::Head, "/location"), Route::NoMatch);
}

#[test]
fn cache_gate_serves_second_request_from_cache() {
    let mut cache = ResponseCache::new();
    let id = RequestIdentity { method: Method::Get, path: String::from("/") };
    let (first, first_cached) = edge_geo::cache::serve_cached(
        &mut cache,
        id,
        "text/html",
        "<html>x</html>",
    );
    assert!(!first_cached);
    assert_eq!(first.status, 200);
    assert_eq!(first.content_type.as_deref(), Some("text/html"));
    assert_eq!(first.cache_control.as_deref(), Some("public,max-age=1000"));
    assert_eq!(first.body, "<html>x</html>");

    let id_again = RequestIdentity { method: Method::Get, path: String::from("/") };
    let (second, second_cached) = edge_geo::cache::serve_cached(
        &mut cache,
        id_again,
        "text/html",
        "<html>x</html>",
    );
    assert!(second_cached);
    assert_eq!(second.body, first.body);
    assert_eq!(second, first);

    let other = RequestIdentity { method: Method::Get, path: String::from("/index.js") };
    let (_, other_cached) = edge_geo::cache::serve_cached(&mut cache, other, "text/javascript", "x();");
    assert!(!other_cached);
}

#[test]
fn location_endpoint_decides_write_and_diagnostic() {
    let outcome = location_endpoint(&full_signals(), 7, Some("203.0.113.7"));
    let write = outcome.write.expect("a valid header decides a write");
    assert_eq!(write.key, "203.0.113.7");
    assert_eq!(write.value, outcome.location);
    assert!(!outcome.invalid_header);

    let outcome = location_endpoint(&full_signals(), 7, None);
    assert!(outcome.write.is_none());
    assert!(!outcome.invalid_header);

    let outcome = location_endpoint(&full_signals(), 7, Some("garbage"));
    assert!(outcome.write.is_none());
    assert!(outcome.invalid_header);
}

fn run_location_request(header: Option<&str>) -> (Reply, ResponseCache, LocationStore) {
    let mut cache = ResponseCache::new();
    let mut store = LocationStore::new();
    let reply = handle_request(
        Method::Get,
        "/location",
        &full_signals(),
        1700000000123,
        header,
        "0.0.1",
        &assets(),
        &mut cache,
        &mut store,
    );
    (reply, cache, store)
}

#[test]
fn location_request_with_valid_header_stores_record() {
    let (reply, _, store) = run_location_request(Some("203.0.113.7"));
    match reply {
        Reply::Report { location, stored_under, invalid_header, status, cache_control } => {
            assert_eq!(status, 200);
            assert_eq!(cache_control, "no-store, no-transform");
            assert!(!invalid_header);
            assert_eq!(stored_under.as_deref(), Some("203.0.113.7"));
            let stored = store.get("203.0.113.7").expect("the record was persisted");
            assert_eq!(*stored, location);
            assert_eq!(location, extract_location(&full_signals(), 1700000000123));
        }
        other => panic!("expected a report, got {:?}", other),
    }
}

#[test]
fn location_request_without_header_still_succeeds() {
    let (reply, _, store) = run_location_request(None);
    match reply {
        Reply::Report { location, stored_under, invalid_header, status, .. } => {
            assert_eq!(status, 200);
            assert!(!invalid_header);
            assert_eq!(stored_under, None);
            assert_eq!(location, extract_location(&full_signals(), 1700000000123));
        }
        other => panic!("expected a report, got {:?}", other),
    }
    assert!(store.get("203.0.113.7").is_none());
}

#[test]
fn location_request_with_garbage_header_records_diagnostic() {
    let (reply, _, store) = run_location_request(Some("garbage"));
    match reply {
        Reply::Report { stored_under, invalid_header, status, .. } => {
            assert_eq!(status, 200);
            assert!(invalid_header);
            assert_eq!(stored_under, None);
        }
        other => panic!("expected a report, got {:?}", other),
    }
    assert!(store.get("garbage").is_none());
}

#[test]
fn repeated_home_requests_share_the_cached_body() {
    let mut cache = ResponseCache::new();
    let mut store = LocationStore::new();
    let first = handle_request(
        Method::Get,
        "/",
        &sparse_signals(),
        1,
        None,
        "0.0.1",
        &assets(),
        &mut cache,
        &mut store,
    );
    let second = handle_request(
        Method::Get,
        "/",
        &sparse_signals(),
        2,
        None,
        "0.0.1",
        &assets(),
        &mut cache,
        &mut store,
    );
    match (first, second) {
        (
            Reply::Page { response: r1, from_cache: c1 },
            Reply::Page { response: r2, from_cache: c2 },
        ) => {
            assert!(!c1);
            assert!(c2);
            assert_eq!(r1.body, r2.body);
            assert_eq!(r1, r2);
            assert_eq!(r1.body, assets().html);
            assert_eq!(r1.content_type.as_deref(), Some("text/html"));
            assert_eq!(r1.cache_control.as_deref(), Some("public,max-age=1000"));
        }
        other => panic!("expected two pages, got {:?}", other),
    }
    assert!(store.get("203.0.113.7").is_none());
}

#[test]
fn script_route_serves_javascript() {
    let mut cache = ResponseCache::new();
    let mut store = LocationStore::new();
    let reply = handle_request(
        Method::Get,
        "/index.js",
        &sparse_signals(),
        1,
        None,
        "0.0.1",
        &assets(),
        &mut cache,
        &mut store,
    );
    match reply {
        Reply::Page { response, from_cache } => {
            assert!(!from_cache);
            assert_eq!(response.status, 200);
            assert_eq!(response.content_type.as_deref(), Some("text/javascript"));
            assert_eq!(response.body, assets().script);
        }
        other => panic!("expected a page, got {:?}", other),
    }
}

#[test]
fn version_route_returns_version_text() {
    let mut cache = ResponseCache::new();
    let mut store = LocationStore::new();
    let reply = handle_request(
        Method::Get,
        "/worker-version",
        &sparse_signals(),
        1,
        None,
        "1.2.3-build7",
        &assets(),
        &mut cache,
        &mut store,
    );
    match reply {
        Reply::VersionText { response } => {
            assert_eq!(response.status, 200);
            assert_eq!(response.body, "1.2.3-build7");
            assert_eq!(response.cache_control, None);
        }
        other => panic!("expected version text, got {:?}", other),
    }
}

#[test]
fn unmatched_route_is_left_to_the_platform() {
    let mut cache = ResponseCache::new();
    let mut store = LocationStore::new();
    let reply = handle_request(
        Method::Get,
        "/missing",
        &sparse_signals(),
        1,
        None,
        "0.0.1",
        &assets(),
        &mut cache,
        &mut store,
    );
    assert!(matches!(reply, Reply::NoRoute));
    let reply = handle_request(
        Method::Post,
        "/location",
        &sparse_signals(),
        1,
        Some("203.0.113.7"),
        "0.0.1",
        &assets(),
        &mut cache,
        &mut store,
    );
    assert!(matches!(reply, Reply::NoRoute));
    assert!(store.get("203.0.113.7").is_none());
}

#[test]
fn locations_overwrite_per_key() {
    let mut cache = ResponseCache::new();
    let mut store = LocationStore::new();
    for now in [10u64, 20u64] {
        handle_request(
            Method::Get,
            "/location",
            &full_signals(),
            now,
            Some("203.0.113.7"),
            "0.0.1",
            &assets(),
            &mut cache,
            &mut store,
        );
    }
    let stored = store.get("203.0.113.7").expect("the key was written twice");
    assert_eq!(stored.time_millis, 20);
}
