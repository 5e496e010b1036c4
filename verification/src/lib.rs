//! # http-fresh — HTTP response freshness (conditional GET) checking
//!
//! Decide whether a cached response is still *fresh* for a request, i.e. whether the
//! server may answer `304 Not Modified` instead of resending the body. This evaluates
//! the `If-None-Match` / `If-Modified-Since` request headers against the response's
//! `ETag` / `Last-Modified`, honoring `Cache-Control: no-cache`.
//!
//! Dates are read in exactly the three formats of RFC 9110 §5.6.7 (`IMF-fixdate`,
//! `RFC 850` and `asctime`), always in GMT; any other text is unparseable and makes the
//! response stale.
pub mod cache_control;
pub mod calendar;
pub mod date_formats;
pub mod etag;
pub mod freshness;
pub mod headers;
pub mod http_date;
pub mod text;

pub use freshness::fresh;
pub use headers::{Request, Response};
pub use http_date::parse_http_date;
