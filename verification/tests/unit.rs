//! The freshness check and HTTP-date reading, case by case.

use http_fresh::{fresh, parse_http_date, Request, Response};

#[test]
fn unconditional_request_is_stale() {
    assert!(!fresh(&Request::new(), &Response::new()));
}

#[test]
fn star_if_none_match_is_fresh() {
    let req = Request::new().if_none_match("*");
    assert!(fresh(&req, &Response::new()));
}

#[test]
fn etag_strong_and_weak_matching() {
    let req = Request::new().if_none_match("\"foo\"");
    assert!(fresh(&req, &Response::new().etag("\"foo\"")));
    assert!(!fresh(&req, &Response::new().etag("\"bar\"")));
    // weak request tag vs strong response tag and vice versa
    assert!(fresh(
        &Request::new().if_none_match("W/\"foo\""),
        &Response::new().etag("\"foo\"")
    ));
    assert!(fresh(&req, &Response::new().etag("W/\"foo\"")));
}

#[test]
fn etag_list_matches_any() {
    let req = Request::new().if_none_match("\"a\" , \"b\", \"c\"");
    assert!(fresh(&req, &Response::new().etag("\"b\"")));
    assert!(!fresh(&req, &Response::new().etag("\"z\"")));
}

#[test]
fn missing_response_etag_is_stale() {
    let req = Request::new().if_none_match("\"foo\"");
    assert!(!fresh(&req, &Response::new()));
}

#[test]
fn no_cache_forces_stale() {
    let res = Response::new().etag("\"foo\"");
    assert!(!fresh(
        &Request::new()
            .if_none_match("\"foo\"")
            .cache_control("no-cache"),
        &res
    ));
    assert!(!fresh(
        &Request::new()
            .if_none_match("\"foo\"")
            .cache_control("max-age=0, no-cache"),
        &res
    ));
    // not a bounded no-cache token → ignored
    assert!(fresh(
        &Request::new()
            .if_none_match("\"foo\"")
            .cache_control("no-cachex"),
        &res
    ));
    assert!(fresh(
        &Request::new()
            .if_none_match("\"foo\"")
            .cache_control("public, max-age=0"),
        &res
    ));
}

#[test]
fn modified_since_dates() {
    let res = Response::new().last_modified("Sun, 06 Nov 1994 08:49:37 GMT");
    // last-modified == if-modified-since → fresh
    assert!(fresh(
        &Request::new().if_modified_since("Sun, 06 Nov 1994 08:49:37 GMT"),
        &res
    ));
    // last-modified older → fresh
    assert!(fresh(
        &Request::new().if_modified_since("Mon, 07 Nov 1994 08:49:37 GMT"),
        &res
    ));
    // last-modified newer → stale
    assert!(!fresh(
        &Request::new().if_modified_since("Sat, 05 Nov 1994 08:49:37 GMT"),
        &res
    ));
}

#[test]
fn missing_last_modified_is_stale() {
    let req = Request::new().if_modified_since("Sun, 06 Nov 1994 08:49:37 GMT");
    assert!(!fresh(&req, &Response::new()));
}

#[test]
fn unparseable_date_is_stale() {
    let req = Request::new().if_modified_since("not a date");
    let res = Response::new().last_modified("Sun, 06 Nov 1994 08:49:37 GMT");
    assert!(!fresh(&req, &res));
}

#[test]
fn empty_headers_treated_as_absent() {
    assert!(!fresh(
        &Request::new().if_modified_since("").if_none_match(""),
        &Response::new()
    ));
}

#[test]
fn all_three_date_formats_parse_equal() {
    let imf = parse_http_date("Sun, 06 Nov 1994 08:49:37 GMT").unwrap();
    let rfc850 = parse_http_date("Sunday, 06-Nov-94 08:49:37 GMT").unwrap();
    let asctime = parse_http_date("Sun Nov  6 08:49:37 1994").unwrap();
    assert_eq!(imf, rfc850);
    assert_eq!(imf, asctime);
    assert_eq!(imf, 784_111_777);
}

#[test]
fn rfc850_two_digit_year_pivot() {
    let y49 = parse_http_date("Sun, 06-Nov-49 00:00:00 GMT").unwrap();
    let y50 = parse_http_date("Sun, 06-Nov-50 00:00:00 GMT").unwrap();
    assert!(y49 > y50); // 2049 vs 1950
}
