//! The request headers and response validators that a freshness check reads.
use vstd::prelude::*;

verus! {

/// A header value as text: `None` where the header is absent.
pub open spec fn opt_text(value: Option<&str>) -> Option<Seq<char>> {
    match value {
        Some(s) => Some(s@),
        None => None,
    }
}

/// A header value with an empty value taken as absent.
pub open spec fn spec_present(value: Option<Seq<char>>) -> Option<Seq<char>> {
    match value {
        Some(s) => if s.len() > 0 {
            Some(s)
        } else {
            None
        },
        None => None,
    }
}

/// The request-side headers that drive a freshness check.
///
/// Build one with [`Request::new`] and the chainable setters, or construct it directly
/// (all fields are public). A field left `None` — or set to an empty string — is treated
/// as absent.
#[derive(Debug, Clone, Copy, Default, PartialEq, Eq)]
pub struct Request<'a> {
    /// The `If-None-Match` header value (an `ETag` list or `*`).
    pub if_none_match: Option<&'a str>,
    /// The `If-Modified-Since` header value (an HTTP date).
    pub if_modified_since: Option<&'a str>,
    /// The `Cache-Control` header value.
    pub cache_control: Option<&'a str>,
}

/// The text of a [`Request`]'s headers.
pub struct RequestView {
    /// The text of `If-None-Match`, where the header is set.
    pub if_none_match: Option<Seq<char>>,
    /// The text of `If-Modified-Since`, where the header is set.
    pub if_modified_since: Option<Seq<char>>,
    /// The text of `Cache-Control`, where the header is set.
    pub cache_control: Option<Seq<char>>,
}

impl<'a> View for Request<'a> {
    type V = RequestView;

    open spec fn view(&self) -> RequestView {
        RequestView {
            if_none_match: opt_text(self.if_none_match),
            if_modified_since: opt_text(self.if_modified_since),
            cache_control: opt_text(self.cache_control),
        }
    }
}

impl<'a> Request<'a> {
    /// Create an empty [`Request`] with all headers absent.
    #[must_use]
    pub fn new() -> (r: Self)
        ensures
            r.if_none_match is None,
            r.if_modified_since is None,
            r.cache_control is None,
    {
        Request { if_none_match: None, if_modified_since: None, cache_control: None }
    }

    /// Set the `If-None-Match` header.
    #[must_use]
    pub fn if_none_match(self, value: &'a str) -> (r: Self)
        ensures
            r.if_none_match == Some(value),
            r.if_modified_since == self.if_modified_since,
            r.cache_control == self.cache_control,
    {
        let mut r = self;
        r.if_none_match = Some(value);
        r
    }

    /// Set the `If-Modified-Since` header.
    #[must_use]
    pub fn if_modified_since(self, value: &'a str) -> (r: Self)
        ensures
            r.if_none_match == self.if_none_match,
            r.if_modified_since == Some(value),
            r.cache_control == self.cache_control,
    {
        let mut r = self;
        r.if_modified_since = Some(value);
        r
    }

    /// Set the `Cache-Control` header.
    #[must_use]
    pub fn cache_control(self, value: &'a str) -> (r: Self)
        ensures
            r.if_none_match == self.if_none_match,
            r.if_modified_since == self.if_modified_since,
            r.cache_control == Some(value),
    {
        let mut r = self;
        r.cache_control = Some(value);
        r
    }
}

/// The response-side validators that a fresh request must match.
///
/// Build one with [`Response::new`] and the chainable setters, or construct it directly.
/// A field left `None` — or set to an empty string — is treated as absent.
#[derive(Debug, Clone, Copy, Default, PartialEq, Eq)]
pub struct Response<'a> {
    /// The response `ETag` header value.
    pub etag: Option<&'a str>,
    /// The response `Last-Modified` header value (an HTTP date).
    pub last_modified: Option<&'a str>,
}

/// The text of a [`Response`]'s validators.
pub struct ResponseView {
    /// The text of `ETag`, where the header is set.
    pub etag: Option<Seq<char>>,
    /// The text of `Last-Modified`, where the header is set.
    pub last_modified: Option<Seq<char>>,
}

impl<'a> View for Response<'a> {
    type V = ResponseView;

    open spec fn view(&self) -> ResponseView {
        ResponseView { etag: opt_text(self.etag), last_modified: opt_text(self.last_modified) }
    }
}

impl<'a> Response<'a> {
    /// Create an empty [`Response`] with all validators absent.
    #[must_use]
    pub fn new() -> (r: Self)
        ensures
            r.etag is None,
            r.last_modified is None,
    {
        Response { etag: None, last_modified: None }
    }

    /// Set the `ETag` header.
    #[must_use]
    pub fn etag(self, value: &'a str) -> (r: Self)
        ensures
            r.etag == Some(value),
            r.last_modified == self.last_modified,
    {
        let mut r = self;
        r.etag = Some(value);
        r
    }

    /// Set the `Last-Modified` header.
    #[must_use]
    pub fn last_modified(self, value: &'a str) -> (r: Self)
        ensures
            r.etag == self.etag,
            r.last_modified == Some(value),
    {
        let mut r = self;
        r.last_modified = Some(value);
        r
    }
}

/// Map a `None`/empty header to absent.
pub fn present<'a>(value: Option<&'a str>) -> (r: Option<&'a str>)
    ensures
        r == (match value {
            Some(s) => if s@.len() > 0 {
                Some(s)
            } else {
                None
            },
            None => None,
        }),
        opt_text(r) == spec_present(opt_text(value)),
{
    match value {
        Some(s) => if s.is_empty() {
            None
        } else {
            Some(s)
        },
        None => None,
    }
}

} // verus!
