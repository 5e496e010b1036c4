//! The building blocks of the freshness check, called directly.

use http_fresh::calendar::{days_from_civil, make_epoch};
use http_fresh::etag::etag_matches;
use http_fresh::http_date::{parse_fixed_digits, parse_imf, parse_rfc850};

fn chars(s: &str) -> Vec<char> {
    s.chars().collect()
}

#[test]
fn fixed_digits_up_to_a_u32() {
    assert_eq!(parse_fixed_digits(&chars("06"), 2), Some(6));
    assert_eq!(parse_fixed_digits(&chars("123456789"), 9), Some(123_456_789));
    assert_eq!(parse_fixed_digits(&chars("4294967295"), 10), Some(u32::MAX));
    assert_eq!(parse_fixed_digits(&chars("0000000000042"), 13), Some(42));
    assert_eq!(parse_fixed_digits(&chars("4294967296"), 10), None);
    assert_eq!(parse_fixed_digits(&chars("+6"), 2), None);
    assert_eq!(parse_fixed_digits(&chars("6"), 2), None);
    assert_eq!(parse_fixed_digits(&chars(""), 0), None);
}

#[test]
fn days_from_civil_across_all_years() {
    assert_eq!(days_from_civil(1970, 1, 1), 0);
    assert_eq!(days_from_civil(0, 1, 1), -719_528);
    assert_eq!(days_from_civil(-1, 12, 31), -719_529);
    assert_eq!(days_from_civil(0, 3, 1), -719_468);
    assert_eq!(days_from_civil(-400, 3, 1), -865_565);
    assert_eq!(days_from_civil(2000, 2, 29), 11_016);
    assert_eq!(days_from_civil(2000, 3, 1), 11_017);
    assert_eq!(days_from_civil(1_000_000, 12, 31), 364_523_337);
    assert_eq!(days_from_civil(-1_000_000, 1, 1), -365_962_028);
}

#[test]
fn four_hundred_years_are_146097_days() {
    for &(y, m, d) in &[(-1_000, 2, 29), (-1, 1, 1), (0, 12, 31), (1970, 6, 15), (2024, 2, 29)] {
        assert_eq!(days_from_civil(y + 400, m, d), days_from_civil(y, m, d) + 146_097);
    }
}

#[test]
fn make_epoch_for_any_year() {
    assert_eq!(make_epoch(1994, 2, 31, 0, 0, 0), make_epoch(1994, 3, 3, 0, 0, 0));
    assert_eq!(make_epoch(-1, 12, 31, 23, 59, 59), Some(-719_528 * 86_400 - 1));
    assert_eq!(make_epoch(1970, 1, 0, 0, 0, 0), None);
    assert_eq!(make_epoch(1970, 1, 32, 0, 0, 0), None);
}

#[test]
fn imf_ignores_the_weekday() {
    assert_eq!(
        parse_imf("Sun, 06 Nov 1994 08:49:37 GMT"),
        parse_imf("Whatever, 06 Nov 1994 08:49:37 GMT")
    );
    assert_eq!(parse_imf(", 06 Nov 1994 08:49:37 GMT"), Some(784_111_777));
}

#[test]
fn rfc850_matches_imf_with_pivoted_year() {
    assert_eq!(
        parse_rfc850("Sunday, 06-Nov-94 08:49:37 GMT"),
        parse_imf("Sunday, 06 Nov 1994 08:49:37 GMT")
    );
    assert_eq!(
        parse_rfc850("Sunday, 06-Nov-49 08:49:37 GMT"),
        parse_imf("Sunday, 06 Nov 2049 08:49:37 GMT")
    );
    // A time text that is not a time: both read as nothing.
    assert_eq!(parse_rfc850("Sunday, 06-Nov-94 8 49 GMT"), None);
    assert_eq!(parse_imf("Sunday, 06 Nov 1994 8 49 GMT"), None);
}

#[test]
fn etag_matching_is_symmetric() {
    let pairs = [("\"a\"", "W/\"a\""), ("\"a\"", "\"a\""), ("\"a\"", "\"b\""), ("W/W/\"a\"", "\"a\"")];
    for (a, b) in pairs {
        assert_eq!(
            etag_matches(&chars(a), &chars(b)),
            etag_matches(&chars(b), &chars(a))
        );
    }
    assert!(etag_matches(&chars("W/\"a\""), &chars("\"a\"")));
    assert!(!etag_matches(&chars("W/W/\"a\""), &chars("\"a\"")));
}
