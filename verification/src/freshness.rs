//! The freshness decision: may the server answer `304 Not Modified`?
use vstd::prelude::*;

use crate::cache_control::{has_no_cache, spec_has_no_cache};
use crate::etag::{law_etag_matches_itself, law_single_entry_list, list_matches, spec_list_matches};
use crate::headers::{present, spec_present, Request, RequestView, Response, ResponseView};
use crate::http_date::{parse_http_date, spec_parse_http_date};
use crate::text::{chars_of, spec_trim_spaces};

verus! {

/// `*`, the `If-None-Match` value that any current representation satisfies.
pub open spec fn is_star(list: Seq<char>) -> bool {
    list == seq!['*']
}

/// The request is conditional: it has `If-None-Match` or `If-Modified-Since`.
pub open spec fn is_conditional(req: RequestView) -> bool {
    spec_present(req.if_none_match) is Some || spec_present(req.if_modified_since) is Some
}

/// The request's `Cache-Control` holds a bounded `no-cache` directive.
pub open spec fn forbids_cached(req: RequestView) -> bool {
    match spec_present(req.cache_control) {
        Some(cc) => spec_has_no_cache(cc),
        None => false,
    }
}

/// `If-None-Match`, where present and not `*`, lists an entry that matches the response
/// `ETag`, which must be present.
pub open spec fn etag_condition(req: RequestView, res: ResponseView) -> bool {
    match spec_present(req.if_none_match) {
        None => true,
        Some(list) => is_star(list) || match spec_present(res.etag) {
            Some(etag) => spec_list_matches(list, etag),
            None => false,
        },
    }
}

/// The date `last_modified` is no later than the date `since`; false where either does
/// not read as an HTTP date.
pub open spec fn not_modified_since(last_modified: Seq<char>, since: Seq<char>) -> bool {
    match (spec_parse_http_date(last_modified), spec_parse_http_date(since)) {
        (Some(last), Some(s)) => last <= s,
        _ => false,
    }
}

/// `If-Modified-Since`, where present, is no earlier than the response `Last-Modified`,
/// which must be present.
pub open spec fn date_condition(req: RequestView, res: ResponseView) -> bool {
    match spec_present(req.if_modified_since) {
        None => true,
        Some(since) => match spec_present(res.last_modified) {
            Some(last_modified) => not_modified_since(last_modified, since),
            None => false,
        },
    }
}

/// The response is fresh for the request: the request is conditional, does not forbid a
/// cached answer, and the response passes each condition that the request sets.
pub open spec fn spec_fresh(req: RequestView, res: ResponseView) -> bool {
    &&& is_conditional(req)
    &&& !forbids_cached(req)
    &&& etag_condition(req, res)
    &&& date_condition(req, res)
}

/// Returns `true` if the response is **fresh** for this request — meaning the server may
/// answer `304 Not Modified` rather than resending the body.
///
/// 1. An *unconditional* request (no `If-None-Match` and no `If-Modified-Since`) is never
///    fresh.
/// 2. `Cache-Control: no-cache` always forces stale.
/// 3. If `If-None-Match` is present and not `*`, the response `ETag` must match one of its
///    entries (with weak/strong `W/` comparison).
/// 4. If `If-Modified-Since` is present, the response `Last-Modified` must be no newer than
///    it.
///
/// Empty-string headers are treated as absent.
#[must_use]
pub fn fresh(req: &Request<'_>, res: &Response<'_>) -> (r: bool)
    ensures
        r == spec_fresh(req@, res@),
{
    let modified_since = present(req.if_modified_since);
    let none_match = present(req.if_none_match);

    // Unconditional request.
    if modified_since.is_none() && none_match.is_none() {
        return false;
    }

    // `Cache-Control: no-cache` forces an end-to-end reload.
    if let Some(cc) = present(req.cache_control) {
        let cc_chars = chars_of(cc);
        if has_no_cache(cc_chars.as_slice()) {
            return false;
        }
    }

    // If-None-Match.
    if let Some(none_match) = none_match {
        let list = chars_of(none_match);
        if !(list.len() == 1 && list[0] == '*') {
            let etag = match present(res.etag) {
                Some(e) => e,
                None => return false,
            };
            let etag_chars = chars_of(etag);
            if !list_matches(list.as_slice(), etag_chars.as_slice()) {
                return false;
            }
        } else {
            assert(list@ =~= seq!['*']);
        }
    }

    // If-Modified-Since.
    if let Some(modified_since) = modified_since {
        let last_modified = match present(res.last_modified) {
            Some(l) => l,
            None => return false,
        };
        let modified_stale = match (parse_http_date(last_modified), parse_http_date(modified_since)) {
            (Some(last), Some(since)) => last > since,
            // An unparseable date is never no-later than another: stale.
            _ => true,
        };
        if modified_stale {
            return false;
        }
    }
    true
}

/// A request's headers with each empty value taken as absent.
pub open spec fn request_without_empty(req: RequestView) -> RequestView {
    RequestView {
        if_none_match: spec_present(req.if_none_match),
        if_modified_since: spec_present(req.if_modified_since),
        cache_control: spec_present(req.cache_control),
    }
}

/// A response's validators with each empty value taken as absent.
pub open spec fn response_without_empty(res: ResponseView) -> ResponseView {
    ResponseView {
        etag: spec_present(res.etag),
        last_modified: spec_present(res.last_modified),
    }
}

/// An unconditional request — no `If-None-Match` and no `If-Modified-Since`, or only
/// empty ones — is never fresh.
pub proof fn law_unconditional_request_is_stale(req: Request, res: Response)
    requires
        spec_present(req@.if_none_match) is None,
        spec_present(req@.if_modified_since) is None,
    ensures
        !spec_fresh(req@, res@),
{
}

/// A `Cache-Control` header with a bounded `no-cache` directive always forces stale,
/// whatever the validators say.
pub proof fn law_no_cache_forces_stale(req: Request, res: Response)
    requires
        req.cache_control matches Some(cc) && spec_has_no_cache(cc@),
    ensures
        !spec_fresh(req@, res@),
{
    assert(req.cache_control->0@.len() >= 8);
}

/// An empty header value is treated exactly as an absent one, on both sides.
pub proof fn law_empty_headers_are_absent(req: Request, res: Response)
    ensures
        spec_fresh(req@, res@) == spec_fresh(
            request_without_empty(req@),
            response_without_empty(res@),
        ),
{
}

/// `If-None-Match: *` alone is satisfied by any response, with or without an `ETag`,
/// unless `Cache-Control: no-cache` forbids a cached answer.
pub proof fn law_star_is_fresh_for_any_response(req: Request, res: Response)
    requires
        req@.if_none_match == Some(seq!['*']),
        spec_present(req@.if_modified_since) is None,
        !forbids_cached(req@),
    ensures
        spec_fresh(req@, res@),
{
}

/// A response last modified at the very instant that `If-Modified-Since` names is not
/// modified since then; with no other condition set, it is fresh.
pub proof fn law_same_date_is_fresh(req: Request, res: Response)
    requires
        req.if_modified_since matches Some(since) && spec_parse_http_date(since@) is Some,
        res.last_modified == req.if_modified_since,
        spec_present(req@.if_none_match) is None,
        !forbids_cached(req@),
    ensures
        spec_fresh(req@, res@),
{
    let since = req.if_modified_since->0@;
    assert(since.len() > 0) by {
        if since.len() == 0 {
            crate::http_date::lemma_empty_is_no_date();
        }
    }
}

/// With `If-Modified-Since` set, a date that does not read as an HTTP date — on either
/// side — makes the response stale.
pub proof fn law_unparseable_date_is_stale(req: Request, res: Response)
    requires
        spec_present(req@.if_modified_since) matches Some(since) && (spec_parse_http_date(
            since,
        ) is None || (res.last_modified matches Some(lm) && spec_parse_http_date(lm@) is None)),
    ensures
        !spec_fresh(req@, res@),
{
}

/// `Cache-Control` acts only through a bounded `no-cache` directive: the request is
/// fresh exactly when it would be without the header and the header holds no such
/// directive; `max-age=0`, `public` and the like change nothing.
pub proof fn law_cache_control_acts_only_through_no_cache(req: Request, res: Response)
    ensures
        spec_fresh(req@, res@) == (spec_fresh(
            RequestView {
                if_none_match: req@.if_none_match,
                if_modified_since: req@.if_modified_since,
                cache_control: None,
            },
            res@,
        ) && !(req.cache_control matches Some(cc) && spec_has_no_cache(cc@))),
{
}

/// A request whose `If-None-Match` is the response's own `ETag` — a single tag, without
/// commas or surrounding spaces — is fresh when nothing else is asked.
pub proof fn law_matching_etag_is_fresh(req: Request, res: Response)
    requires
        req.if_none_match matches Some(t) && t@.len() > 0 && !t@.contains(',') && t@[0] != ' '
            && t@.last() != ' ',
        res.etag == req.if_none_match,
        spec_present(req@.if_modified_since) is None,
        req.cache_control is None,
    ensures
        spec_fresh(req@, res@),
{
    let t = req.if_none_match->0@;
    assert(spec_trim_spaces(t) == t);
    law_single_entry_list(t, t);
    law_etag_matches_itself(t);
}

/// Freshness is kept when the response's `Last-Modified` moves to an earlier (or the
/// same) instant: a response that was fresh stays fresh.
pub proof fn law_earlier_last_modified_stays_fresh(
    req: Request,
    res: Response,
    earlier: &str,
)
    requires
        spec_fresh(req@, res@),
        res.last_modified matches Some(lm) && spec_parse_http_date(lm@) matches Some(t) && (
        spec_parse_http_date(earlier@) matches Some(e) && e <= t),
    ensures
        spec_fresh(req@, ResponseView { etag: res@.etag, last_modified: Some(earlier@) }),
{
    assert(earlier@.len() > 0) by {
        if earlier@.len() == 0 {
            crate::http_date::lemma_empty_is_no_date();
        }
    }
}

} // verus!
