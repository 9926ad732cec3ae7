//! Normalizing network-path signals into a `Location` record.
//!
//! The hosting edge attaches a bag of optional geolocation attributes to each
//! request.  [`extract_location`] turns that bag into an immutable
//! [`Location`] snapshot: every present attribute is carried over unchanged,
//! every absent attribute stays absent (no sentinel is substituted), and the
//! capture instant is stamped into the record.

use vstd::prelude::*;

verus! {

/// Geographic coordinates, carried as the IEEE-754 bit patterns of the two
/// single-precision values the platform reports.  The library only moves
/// coordinates through; it never does arithmetic on them, so the exact bit
/// patterns are the faithful plain-value form.
#[derive(Clone, Copy, Debug, PartialEq, Eq, Structural)]
pub struct Coordinates {
    /// Bit pattern of the latitude.
    pub latitude: u32,
    /// Bit pattern of the longitude.
    pub longitude: u32,
}

/// The optional geolocation attributes the edge platform resolved for one
/// request, as plain values.  `colo`, `asn` and `http_version` are always
/// supplied by the platform; every other attribute is independently
/// present-or-absent.
#[derive(Clone, Debug)]
pub struct NetworkSignals {
    pub colo: String,
    pub asn: u32,
    pub country: Option<String>,
    pub city: Option<String>,
    pub continent: Option<String>,
    pub coordinates: Option<Coordinates>,
    pub postal_code: Option<String>,
    pub metro_code: Option<String>,
    pub region: Option<String>,
    pub region_code: Option<String>,
    pub http_version: String,
}

/// A snapshot of where and how a request entered the edge network.
/// Immutable once constructed; it is only ever replaced wholesale in storage.
#[derive(Clone, Debug, PartialEq)]
pub struct Location {
    pub colo: String,
    pub asn: u32,
    pub country: Option<String>,
    pub city: Option<String>,
    pub continent: Option<String>,
    pub coordinates: Option<Coordinates>,
    pub postal_code: Option<String>,
    pub metro_code: Option<String>,
    pub region: Option<String>,
    pub region_code: Option<String>,
    pub http_version: String,
    /// Capture instant, in milliseconds since the Unix epoch.
    pub time_millis: u64,
}

/// Mathematical image of `NetworkSignals`.
pub ghost struct SignalsView {
    pub colo: Seq<char>,
    pub asn: u32,
    pub country: Option<Seq<char>>,
    pub city: Option<Seq<char>>,
    pub continent: Option<Seq<char>>,
    pub coordinates: Option<Coordinates>,
    pub postal_code: Option<Seq<char>>,
    pub metro_code: Option<Seq<char>>,
    pub region: Option<Seq<char>>,
    pub region_code: Option<Seq<char>>,
    pub http_version: Seq<char>,
}

/// Mathematical image of `Location`.
pub ghost struct LocationView {
    pub colo: Seq<char>,
    pub asn: u32,
    pub country: Option<Seq<char>>,
    pub city: Option<Seq<char>>,
    pub continent: Option<Seq<char>>,
    pub coordinates: Option<Coordinates>,
    pub postal_code: Option<Seq<char>>,
    pub metro_code: Option<Seq<char>>,
    pub region: Option<Seq<char>>,
    pub region_code: Option<Seq<char>>,
    pub http_version: Seq<char>,
    pub time_millis: u64,
}

/// View of an optional string as an optional character sequence.
pub open spec fn opt_view(o: Option<String>) -> Option<Seq<char>> {
    match o {
        Some(s) => Some(s@),
        None => None,
    }
}

impl View for NetworkSignals {
    type V = SignalsView;

    open spec fn view(&self) -> SignalsView {
        SignalsView {
            colo: self.colo@,
            asn: self.asn,
            country: opt_view(self.country),
            city: opt_view(self.city),
            continent: opt_view(self.continent),
            coordinates: self.coordinates,
            postal_code: opt_view(self.postal_code),
            metro_code: opt_view(self.metro_code),
            region: opt_view(self.region),
            region_code: opt_view(self.region_code),
            http_version: self.http_version@,
        }
    }
}

impl View for Location {
    type V = LocationView;

    open spec fn view(&self) -> LocationView {
        LocationView {
            colo: self.colo@,
            asn: self.asn,
            country: opt_view(self.country),
            city: opt_view(self.city),
            continent: opt_view(self.continent),
            coordinates: self.coordinates,
            postal_code: opt_view(self.postal_code),
            metro_code: opt_view(self.metro_code),
            region: opt_view(self.region),
            region_code: opt_view(self.region_code),
            http_version: self.http_version@,
            time_millis: self.time_millis,
        }
    }
}

/// The one `Location` that a bag of signals and a capture instant determine:
/// present attributes carried over unchanged, absent ones kept absent, the
/// instant stamped in.
pub open spec fn located(s: SignalsView, now_millis: u64) -> LocationView {
    LocationView {
        colo: s.colo,
        asn: s.asn,
        country: s.country,
        city: s.city,
        continent: s.continent,
        coordinates: s.coordinates,
        postal_code: s.postal_code,
        metro_code: s.metro_code,
        region: s.region,
        region_code: s.region_code,
        http_version: s.http_version,
        time_millis: now_millis,
    }
}

/// Clones an optional string field.
fn clone_opt(o: &Option<String>) -> (r: Option<String>)
    ensures
        opt_view(r) == opt_view(*o),
{
    match o {
        Some(s) => Some(s.clone()),
        None => None,
    }
}

/// Builds the `Location` record for one request from the network-path
/// signals the platform resolved and the capture instant.  Extraction cannot
/// fail: absent signals are valid and stay absent in the record.
pub fn extract_location(signals: &NetworkSignals, now_millis: u64) -> (r: Location)
    ensures
        r@ == located(signals@, now_millis),
{
    Location {
        colo: signals.colo.clone(),
        asn: signals.asn,
        country: clone_opt(&signals.country),
        city: clone_opt(&signals.city),
        continent: clone_opt(&signals.continent),
        coordinates: signals.coordinates,
        postal_code: clone_opt(&signals.postal_code),
        metro_code: clone_opt(&signals.metro_code),
        region: clone_opt(&signals.region),
        region_code: clone_opt(&signals.region_code),
        http_version: signals.http_version.clone(),
        time_millis: now_millis,
    }
}

} // verus!
