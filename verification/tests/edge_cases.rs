//! Edge cases of the freshness check, HTTP-date reading and the laws, on concrete values.

use http_fresh::{fresh, parse_http_date, Request, Response};

fn etag_fresh(list: &str, etag: &str) -> bool {
    fresh(&Request::new().if_none_match(list), &Response::new().etag(etag))
}

fn no_cache_blocks(cc: &str) -> bool {
    !fresh(
        &Request::new().if_none_match("\"v\"").cache_control(cc),
        &Response::new().etag("\"v\""),
    )
}

#[test]
fn builders_set_each_field() {
    let req = Request::new()
        .if_none_match("\"a\"")
        .if_modified_since("Sun, 06 Nov 1994 08:49:37 GMT")
        .cache_control("max-age=0");
    assert_eq!(req.if_none_match, Some("\"a\""));
    assert_eq!(req.if_modified_since, Some("Sun, 06 Nov 1994 08:49:37 GMT"));
    assert_eq!(req.cache_control, Some("max-age=0"));
    assert_eq!(Request::new(), Request::default());

    let res = Response::new().etag("\"b\"").last_modified("x");
    assert_eq!(res.etag, Some("\"b\""));
    assert_eq!(res.last_modified, Some("x"));
    assert_eq!(Response::new(), Response::default());
}

#[test]
fn epoch_values_of_known_dates() {
    assert_eq!(parse_http_date("Thu, 01 Jan 1970 00:00:00 GMT"), Some(0));
    assert_eq!(parse_http_date("Sat, 01 Jan 2000 00:00:00 GMT"), Some(946_684_800));
    assert_eq!(parse_http_date("Wed, 29 Feb 2012 12:00:00 GMT"), Some(1_330_516_800));
    assert_eq!(parse_http_date("Sat, 01 Jan 0000 00:00:00 GMT"), Some(-62_167_219_200));
    assert_eq!(parse_http_date("Fri, 31 Dec 9999 23:59:59 GMT"), Some(253_402_300_799));
    assert_eq!(parse_http_date("Sun Nov 16 08:49:37 1994"), Some(784_975_777));
}

#[test]
fn rfc850_pivot_values() {
    assert_eq!(parse_http_date("Sun, 06-Nov-49 00:00:00 GMT"), Some(2_519_769_600));
    assert_eq!(parse_http_date("Sun, 06-Nov-50 00:00:00 GMT"), Some(-604_454_400));
}

#[test]
fn lenient_forms_that_still_parse() {
    let expected = Some(784_111_777);
    // Case-insensitive month and zone.
    assert_eq!(parse_http_date("sun, 06 nov 1994 08:49:37 gmt"), expected);
    // Runs of spaces between fields.
    assert_eq!(parse_http_date("Sun,  06   Nov 1994 08:49:37 GMT"), expected);
    // A leap second is accepted: 23:59:60 is the next day's first second.
    assert_eq!(
        parse_http_date("Sat, 05 Nov 1994 23:59:60 GMT"),
        parse_http_date("Sun, 06 Nov 1994 00:00:00 GMT")
    );
    // A day past the end of its month counts on: 31 Feb 2015 is 3 Mar 2015.
    assert_eq!(
        parse_http_date("Tue, 31 Feb 2015 07:28:00 GMT"),
        Some(1_425_367_680)
    );
}

#[test]
fn malformed_dates_are_rejected() {
    assert_eq!(parse_http_date(""), None);
    assert_eq!(parse_http_date("Sun, 00 Nov 1994 08:49:37 GMT"), None);
    assert_eq!(parse_http_date("Sun, 32 Nov 1994 08:49:37 GMT"), None);
    assert_eq!(parse_http_date("Sun, 06 Nov 1994 24:00:00 GMT"), None);
    assert_eq!(parse_http_date("Sun, 06 Nov 1994 08:60:00 GMT"), None);
    assert_eq!(parse_http_date("Sun, 06 Nov 1994 08:49:61 GMT"), None);
    assert_eq!(parse_http_date("Sun, 06 Nov 1994 08:49:37 UTC"), None);
    assert_eq!(parse_http_date("Sun, 06 Nov 1994 08:49:37 GMT extra"), None);
    assert_eq!(parse_http_date("Sun, 06 Nov 994 08:49:37 GMT"), None);
    assert_eq!(parse_http_date("Sun, 6 Nov 1994 08:49:37 GMT"), None);
    assert_eq!(parse_http_date("Sun, 06 Novem 1994 08:49:37 GMT"), None);
    assert_eq!(parse_http_date("Sun, 06 Nov 1994 8:49:37 GMT"), None);
    assert_eq!(parse_http_date("Sun,\t06 Nov 1994 08:49:37 GMT"), None);
    assert_eq!(parse_http_date("Sun, 06-Nov-1994 08:49:37 GMT"), None);
    assert_eq!(parse_http_date("Sun, Nov  6 08:49:37 1994"), None);
    assert_eq!(parse_http_date("Sun Nov 123 08:49:37 1994"), None);
    assert_eq!(parse_http_date("1994-11-06T08:49:37Z"), None);
}

#[test]
fn three_formats_agree_on_a_leap_day() {
    let imf = parse_http_date("Mon, 29 Feb 2016 23:59:59 GMT");
    assert_eq!(imf, Some(1_456_790_399));
    assert_eq!(parse_http_date("Monday, 29-Feb-16 23:59:59 GMT"), imf);
    assert_eq!(parse_http_date("Mon Feb 29 23:59:59 2016"), imf);
}

#[test]
fn epoch_seconds_keep_calendar_order() {
    let earlier = parse_http_date("Sat, 31 Dec 1994 23:59:59 GMT").unwrap();
    let later = parse_http_date("Sun, 01 Jan 1995 00:00:00 GMT").unwrap();
    assert_eq!(later - earlier, 1);
    let feb_end = parse_http_date("Tue, 28 Feb 2017 00:00:00 GMT").unwrap();
    let mar_1 = parse_http_date("Wed, 01 Mar 2017 00:00:00 GMT").unwrap();
    assert_eq!(mar_1 - feb_end, 86_400);
}

#[test]
fn no_cache_bounding() {
    assert!(no_cache_blocks("  no-cache  "));
    assert!(no_cache_blocks("private,\tno-cache"));
    assert!(no_cache_blocks("no-store, no-cache"));
    assert!(no_cache_blocks("no-cache,private"));
    assert!(no_cache_blocks("\u{00A0}no-cache\u{3000}"));
    assert!(!no_cache_blocks("xno-cache"));
    assert!(!no_cache_blocks("no-cache=\"set-cookie\""));
    assert!(!no_cache_blocks("NO-CACHE"));
    assert!(!no_cache_blocks("no-cach"));
    assert!(!no_cache_blocks(""));
}

#[test]
fn etag_list_details() {
    // Only spaces are trimmed from list entries.
    assert!(!etag_fresh("\t\"a\"", "\"a\""));
    assert!(etag_fresh("  \"a\"  ", "\"a\""));
    // Weak on both sides compares equal.
    assert!(etag_fresh("W/\"a\"", "W/\"a\""));
    // One weak prefix only.
    assert!(!etag_fresh("W/W/\"a\"", "\"a\""));
    // Empty entries are harmless.
    assert!(etag_fresh("\"x\",,\"a\"", "\"a\""));
    // `*` with spaces is an ordinary entry.
    assert!(!etag_fresh(" *", "\"a\""));
    // An empty response ETag is absent.
    assert!(!etag_fresh("\"a\"", ""));
}

#[test]
fn law_unconditional_request_never_fresh() {
    let res = Response::new().etag("\"a\"").last_modified("Sun, 06 Nov 1994 08:49:37 GMT");
    assert!(!fresh(&Request::new().cache_control("max-age=0"), &res));
    assert!(!fresh(&Request::new().if_none_match("").if_modified_since(""), &res));
}

#[test]
fn law_no_cache_beats_every_validator() {
    let req = Request::new()
        .if_none_match("*")
        .if_modified_since("Sun, 06 Nov 1994 08:49:37 GMT")
        .cache_control("no-cache");
    let res = Response::new().etag("\"a\"").last_modified("Sat, 05 Nov 1994 08:49:37 GMT");
    assert!(!fresh(&req, &res));
}

#[test]
fn law_empty_values_are_absent() {
    let date = "Sun, 06 Nov 1994 08:49:37 GMT";
    let res = Response::new().last_modified(date);
    let with_empty = Request::new()
        .if_modified_since(date)
        .if_none_match("")
        .cache_control("");
    let without = Request::new().if_modified_since(date);
    assert_eq!(fresh(&with_empty, &res), fresh(&without, &res));
    assert!(fresh(&with_empty, &res));
    let res_empty_etag = Response::new().etag("").last_modified(date);
    assert_eq!(fresh(&without, &res_empty_etag), fresh(&without, &res));
}

#[test]
fn law_star_fresh_without_etag() {
    let req = Request::new().if_none_match("*").cache_control("public");
    assert!(fresh(&req, &Response::new()));
    assert!(fresh(&req, &Response::new().last_modified("garbage")));
}

#[test]
fn law_weak_comparison_symmetric() {
    assert_eq!(etag_fresh("W/\"a\"", "\"a\""), etag_fresh("\"a\"", "W/\"a\""));
    assert!(etag_fresh("\"a\"", "W/\"a\""));
}

#[test]
fn law_same_date_fresh() {
    for date in [
        "Sun, 06 Nov 1994 08:49:37 GMT",
        "Sunday, 06-Nov-94 08:49:37 GMT",
        "Sun Nov  6 08:49:37 1994",
    ] {
        let req = Request::new().if_modified_since(date);
        assert!(fresh(&req, &Response::new().last_modified(date)));
    }
}

#[test]
fn law_unparseable_dates_stale() {
    let good = "Sun, 06 Nov 1994 08:49:37 GMT";
    assert!(!fresh(
        &Request::new().if_modified_since(good),
        &Response::new().last_modified("yesterday")
    ));
    assert!(!fresh(
        &Request::new().if_modified_since("tomorrow"),
        &Response::new().last_modified("tomorrow")
    ));
}

#[test]
fn law_earlier_last_modified_stays_fresh() {
    let req = Request::new().if_modified_since("Wed, 21 Oct 2015 07:28:00 GMT");
    assert!(fresh(&req, &Response::new().last_modified("Wed, 21 Oct 2015 07:28:00 GMT")));
    assert!(fresh(&req, &Response::new().last_modified("Wed, 21 Oct 2015 07:27:59 GMT")));
    assert!(fresh(&req, &Response::new().last_modified("Thu Jan  1 00:00:00 1970")));
    assert!(!fresh(&req, &Response::new().last_modified("Wed, 21 Oct 2015 07:28:01 GMT")));
}
