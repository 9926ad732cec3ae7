//! Verified core of an edge-deployed HTTP responder.
//!
//! The library models the request-scoped geolocation capture and
//! cache/persistence pipeline of a small edge service:
//!
//! - [`location`]: normalizes the optional network-path signals attached to a
//!   request into a canonical [`location::Location`] record, stamping the
//!   capture time.
//! - [`ip`]: resolves a client identity from a forwarded-IP header by parsing
//!   and canonically re-serializing IPv4/IPv6 textual addresses.
//! - [`store`]: a last-write-wins association from client IP string to the
//!   latest observed `Location`.
//! - [`cache`]: the response-cache gate that serves idempotent routes from a
//!   shared cache instead of regenerating them.
//! - [`http`]: the plain-value model of requests and responses.
//! - [`routes`]: the stateless dispatcher that composes the pieces into the
//!   four endpoints.
//!
//! Platform I/O (the HTTP runtime, the durable key-value binding, the shared
//! edge cache) stays outside this crate; the host hands the library plain
//! values and performs the actions the library decides on.  Store-write
//! failures are the host's to log: the chosen policy is that telemetry loss
//! never fails the user-facing response.

pub mod cache;
pub mod http;
pub mod ip;
pub mod location;
pub mod routes;
pub mod store;
