//! HTTP dates (RFC 9110 §5.6.7): `IMF-fixdate`, obsolete `RFC 850` and `asctime`,
//! always read in GMT, as seconds since the Unix epoch.
use vstd::prelude::*;
use vstd::slice::slice_subrange;

use crate::calendar::{make_epoch, spec_make_epoch};
use crate::text::{
    chars_of, find_char, first_index_of, span_slice, span_text, split_by,
    split_spans, word_spans, words,
};

verus! {

/// A parse result of the library as a mathematical integer.
pub open spec fn opt_i64_view(r: Option<i64>) -> Option<int> {
    match r {
        Some(v) => Some(v as int),
        None => None,
    }
}

/// A parse result of the library as a mathematical integer.
pub open spec fn opt_u32_view(r: Option<u32>) -> Option<int> {
    match r {
        Some(v) => Some(v as int),
        None => None,
    }
}

/// `'0'..='9'`.
pub open spec fn is_ascii_digit(c: char) -> bool {
    '0' <= c <= '9'
}

/// Every character of `s` is an ASCII digit.
pub open spec fn all_digits(s: Seq<char>) -> bool {
    forall|i: int| 0 <= i < s.len() ==> is_ascii_digit(#[trigger] s[i])
}

/// The decimal number that the digits `s` spell.
pub open spec fn digits_value(s: Seq<char>) -> int
    decreases s.len(),
{
    if s.len() == 0 {
        0
    } else {
        digits_value(s.drop_last()) * 10 + (s.last() as int - '0' as int)
    }
}

/// `10` to the power `n`.
pub open spec fn pow10(n: nat) -> int
    decreases n,
{
    if n == 0 {
        1
    } else {
        10 * pow10((n - 1) as nat)
    }
}

/// Exactly `width` ASCII digits, at least one, read as a decimal number that fits a
/// `u32`.
pub open spec fn spec_fixed_digits(s: Seq<char>, width: nat) -> Option<int> {
    if s.len() == width && s.len() > 0 && all_digits(s) && digits_value(s) <= u32::MAX {
        Some(digits_value(s))
    } else {
        None
    }
}

/// One or two ASCII digits, read as a decimal number.
pub open spec fn spec_day_1_or_2(s: Seq<char>) -> Option<int> {
    if 1 <= s.len() <= 2 && all_digits(s) {
        Some(digits_value(s))
    } else {
        None
    }
}

/// The code of `c` after ASCII lowercasing (`char::to_ascii_lowercase`).
pub open spec fn ascii_lower_code(c: char) -> int {
    if 'A' <= c <= 'Z' {
        c as int + 32
    } else {
        c as int
    }
}

/// `a` and `b` are equal up to ASCII case (`str::eq_ignore_ascii_case`).
pub open spec fn eq_ignore_ascii_case(a: Seq<char>, b: Seq<char>) -> bool {
    &&& a.len() == b.len()
    &&& forall|i: int| 0 <= i < a.len() ==> ascii_lower_code(#[trigger] a[i]) == ascii_lower_code(b[i])
}

/// The number (`1..=12`) of a 3-letter English month abbreviation, in any ASCII case.
pub open spec fn spec_month(s: Seq<char>) -> Option<int> {
    if eq_ignore_ascii_case(s, seq!['j', 'a', 'n']) {
        Some(1)
    } else if eq_ignore_ascii_case(s, seq!['f', 'e', 'b']) {
        Some(2)
    } else if eq_ignore_ascii_case(s, seq!['m', 'a', 'r']) {
        Some(3)
    } else if eq_ignore_ascii_case(s, seq!['a', 'p', 'r']) {
        Some(4)
    } else if eq_ignore_ascii_case(s, seq!['m', 'a', 'y']) {
        Some(5)
    } else if eq_ignore_ascii_case(s, seq!['j', 'u', 'n']) {
        Some(6)
    } else if eq_ignore_ascii_case(s, seq!['j', 'u', 'l']) {
        Some(7)
    } else if eq_ignore_ascii_case(s, seq!['a', 'u', 'g']) {
        Some(8)
    } else if eq_ignore_ascii_case(s, seq!['s', 'e', 'p']) {
        Some(9)
    } else if eq_ignore_ascii_case(s, seq!['o', 'c', 't']) {
        Some(10)
    } else if eq_ignore_ascii_case(s, seq!['n', 'o', 'v']) {
        Some(11)
    } else if eq_ignore_ascii_case(s, seq!['d', 'e', 'c']) {
        Some(12)
    } else {
        None
    }
}

/// The English abbreviation of month `m` (1 = January), as HTTP dates write it.
pub open spec fn month_abbreviation(m: int) -> Seq<char> {
    if m == 1 {
        seq!['J', 'a', 'n']
    } else if m == 2 {
        seq!['F', 'e', 'b']
    } else if m == 3 {
        seq!['M', 'a', 'r']
    } else if m == 4 {
        seq!['A', 'p', 'r']
    } else if m == 5 {
        seq!['M', 'a', 'y']
    } else if m == 6 {
        seq!['J', 'u', 'n']
    } else if m == 7 {
        seq!['J', 'u', 'l']
    } else if m == 8 {
        seq!['A', 'u', 'g']
    } else if m == 9 {
        seq!['S', 'e', 'p']
    } else if m == 10 {
        seq!['O', 'c', 't']
    } else if m == 11 {
        seq!['N', 'o', 'v']
    } else {
        seq!['D', 'e', 'c']
    }
}

/// Only the English abbreviations are months: a text that reads as month `m` is, up to
/// ASCII case, the abbreviation of month `m`.
pub proof fn law_month_only_english(s: Seq<char>)
    ensures
        spec_month(s) matches Some(m) ==> 1 <= m <= 12 && eq_ignore_ascii_case(
            s,
            month_abbreviation(m),
        ),
{
    if spec_month(s) is Some {
        let m = spec_month(s)->0;
        let t = month_abbreviation(m);
        let l = if m == 1 {
            seq!['j', 'a', 'n']
        } else if m == 2 {
            seq!['f', 'e', 'b']
        } else if m == 3 {
            seq!['m', 'a', 'r']
        } else if m == 4 {
            seq!['a', 'p', 'r']
        } else if m == 5 {
            seq!['m', 'a', 'y']
        } else if m == 6 {
            seq!['j', 'u', 'n']
        } else if m == 7 {
            seq!['j', 'u', 'l']
        } else if m == 8 {
            seq!['a', 'u', 'g']
        } else if m == 9 {
            seq!['s', 'e', 'p']
        } else if m == 10 {
            seq!['o', 'c', 't']
        } else if m == 11 {
            seq!['n', 'o', 'v']
        } else {
            seq!['d', 'e', 'c']
        };
        assert(eq_ignore_ascii_case(s, l));
        assert(eq_ignore_ascii_case(t, l));
        assert forall|i: int| 0 <= i < s.len() implies ascii_lower_code(#[trigger] s[i])
            == ascii_lower_code(t[i]) by {
            assert(ascii_lower_code(s[i]) == ascii_lower_code(l[i]));
            assert(ascii_lower_code(t[i]) == ascii_lower_code(l[i]));
        }
    }
}

/// The English month abbreviations read as their calendar numbers: `Jan` is 1, `Feb`
/// is 2, and so on to `Dec`, 12.
pub proof fn law_english_month_numbers()
    ensures
        spec_month(seq!['J', 'a', 'n']) == Some(1int),
        spec_month(seq!['F', 'e', 'b']) == Some(2int),
        spec_month(seq!['M', 'a', 'r']) == Some(3int),
        spec_month(seq!['A', 'p', 'r']) == Some(4int),
        spec_month(seq!['M', 'a', 'y']) == Some(5int),
        spec_month(seq!['J', 'u', 'n']) == Some(6int),
        spec_month(seq!['J', 'u', 'l']) == Some(7int),
        spec_month(seq!['A', 'u', 'g']) == Some(8int),
        spec_month(seq!['S', 'e', 'p']) == Some(9int),
        spec_month(seq!['O', 'c', 't']) == Some(10int),
        spec_month(seq!['N', 'o', 'v']) == Some(11int),
        spec_month(seq!['D', 'e', 'c']) == Some(12int),
{
    assert(eq_ignore_ascii_case(seq!['J', 'a', 'n'], seq!['j', 'a', 'n']));
    assert(eq_ignore_ascii_case(seq!['F', 'e', 'b'], seq!['f', 'e', 'b']));
    assert(eq_ignore_ascii_case(seq!['M', 'a', 'r'], seq!['m', 'a', 'r']));
    assert(eq_ignore_ascii_case(seq!['A', 'p', 'r'], seq!['a', 'p', 'r']));
    assert(eq_ignore_ascii_case(seq!['M', 'a', 'y'], seq!['m', 'a', 'y']));
    assert(eq_ignore_ascii_case(seq!['J', 'u', 'n'], seq!['j', 'u', 'n']));
    assert(eq_ignore_ascii_case(seq!['J', 'u', 'l'], seq!['j', 'u', 'l']));
    assert(eq_ignore_ascii_case(seq!['A', 'u', 'g'], seq!['a', 'u', 'g']));
    assert(eq_ignore_ascii_case(seq!['S', 'e', 'p'], seq!['s', 'e', 'p']));
    assert(eq_ignore_ascii_case(seq!['O', 'c', 't'], seq!['o', 'c', 't']));
    assert(eq_ignore_ascii_case(seq!['N', 'o', 'v'], seq!['n', 'o', 'v']));
    assert(eq_ignore_ascii_case(seq!['D', 'e', 'c'], seq!['d', 'e', 'c']));
}

/// Month names are read without regard to ASCII case.
pub proof fn law_month_ignores_case(a: Seq<char>, b: Seq<char>)
    requires
        eq_ignore_ascii_case(a, b),
    ensures
        spec_month(a) == spec_month(b),
{
    lemma_same_case_relation(a, b, seq!['j', 'a', 'n']);
    lemma_same_case_relation(a, b, seq!['f', 'e', 'b']);
    lemma_same_case_relation(a, b, seq!['m', 'a', 'r']);
    lemma_same_case_relation(a, b, seq!['a', 'p', 'r']);
    lemma_same_case_relation(a, b, seq!['m', 'a', 'y']);
    lemma_same_case_relation(a, b, seq!['j', 'u', 'n']);
    lemma_same_case_relation(a, b, seq!['j', 'u', 'l']);
    lemma_same_case_relation(a, b, seq!['a', 'u', 'g']);
    lemma_same_case_relation(a, b, seq!['s', 'e', 'p']);
    lemma_same_case_relation(a, b, seq!['o', 'c', 't']);
    lemma_same_case_relation(a, b, seq!['n', 'o', 'v']);
    lemma_same_case_relation(a, b, seq!['d', 'e', 'c']);
}

/// Texts equal up to ASCII case relate to a third text alike.
proof fn lemma_same_case_relation(a: Seq<char>, b: Seq<char>, n: Seq<char>)
    requires
        eq_ignore_ascii_case(a, b),
    ensures
        eq_ignore_ascii_case(a, n) == eq_ignore_ascii_case(b, n),
{
    if eq_ignore_ascii_case(a, n) {
        assert forall|i: int| 0 <= i < b.len() implies ascii_lower_code(#[trigger] b[i])
            == ascii_lower_code(n[i]) by {
            assert(ascii_lower_code(a[i]) == ascii_lower_code(b[i]));
        }
    }
    if eq_ignore_ascii_case(b, n) {
        assert forall|i: int| 0 <= i < a.len() implies ascii_lower_code(#[trigger] a[i])
            == ascii_lower_code(n[i]) by {
            assert(ascii_lower_code(a[i]) == ascii_lower_code(b[i]));
        }
    }
}

/// `HH:MM:SS` as `(h, m, s)`, with `h <= 23`, `m <= 59` and `s <= 60` (a leap second).
pub open spec fn spec_parse_time(s: Seq<char>) -> Option<(int, int, int)> {
    let p = split_by(s, ':');
    if p.len() != 3 {
        None
    } else {
        match (
            spec_fixed_digits(p[0], 2),
            spec_fixed_digits(p[1], 2),
            spec_fixed_digits(p[2], 2),
        ) {
            (Some(h), Some(m), Some(sec)) => if h <= 23 && m <= 59 && sec <= 60 {
                Some((h, m, sec))
            } else {
                None
            },
            _ => None,
        }
    }
}

/// `GMT`, in any ASCII case.
pub open spec fn is_gmt(s: Seq<char>) -> bool {
    eq_ignore_ascii_case(s, seq!['g', 'm', 't'])
}

/// `IMF-fixdate`, as in `Sun, 06 Nov 1994 08:49:37 GMT`: after the first comma, exactly
/// five words — a 2-digit day, a month, a 4-digit year, the time and `GMT`.
pub open spec fn spec_parse_imf(s: Seq<char>) -> Option<int> {
    match first_index_of(s, ',') {
        None => None,
        Some(comma) => {
            let w = words(s.subrange(comma + 1, s.len() as int));
            if w.len() != 5 || !is_gmt(w[4]) {
                None
            } else {
                match (
                    spec_fixed_digits(w[0], 2),
                    spec_month(w[1]),
                    spec_fixed_digits(w[2], 4),
                    spec_parse_time(w[3]),
                ) {
                    (Some(day), Some(month), Some(year), Some(t)) => spec_make_epoch(
                        year,
                        month,
                        day,
                        t.0,
                        t.1,
                        t.2,
                    ),
                    _ => None,
                }
            }
        },
    }
}

/// The year of a 2-digit `RFC 850` year: `00..=49` is `2000..=2049`, `50..=99` is
/// `1950..=1999`.
pub open spec fn rfc850_year(yy: int) -> int {
    if yy < 50 {
        2000 + yy
    } else {
        1900 + yy
    }
}

/// `RFC 850`, as in `Sunday, 06-Nov-94 08:49:37 GMT`: after the first comma, exactly three
/// words — `DD-Mon-YY`, the time and `GMT`.
pub open spec fn spec_parse_rfc850(s: Seq<char>) -> Option<int> {
    match first_index_of(s, ',') {
        None => None,
        Some(comma) => {
            let w = words(s.subrange(comma + 1, s.len() as int));
            if w.len() != 3 || !is_gmt(w[2]) {
                None
            } else {
                let d = split_by(w[0], '-');
                if d.len() != 3 {
                    None
                } else {
                    match (
                        spec_fixed_digits(d[0], 2),
                        spec_month(d[1]),
                        spec_fixed_digits(d[2], 2),
                        spec_parse_time(w[1]),
                    ) {
                        (Some(day), Some(month), Some(yy), Some(t)) => spec_make_epoch(
                            rfc850_year(yy),
                            month,
                            day,
                            t.0,
                            t.1,
                            t.2,
                        ),
                        _ => None,
                    }
                }
            }
        },
    }
}

/// `asctime`, as in `Sun Nov  6 08:49:37 1994`: no comma, and exactly five words — a
/// weekday (not checked), a month, a 1- or 2-digit day, the time and a 4-digit year.
pub open spec fn spec_parse_asctime(s: Seq<char>) -> Option<int> {
    if s.contains(',') {
        None
    } else {
        let w = words(s);
        if w.len() != 5 {
            None
        } else {
            match (
                spec_month(w[1]),
                spec_day_1_or_2(w[2]),
                spec_parse_time(w[3]),
                spec_fixed_digits(w[4], 4),
            ) {
                (Some(month), Some(day), Some(t), Some(year)) => spec_make_epoch(
                    year,
                    month,
                    day,
                    t.0,
                    t.1,
                    t.2,
                ),
                _ => None,
            }
        }
    }
}

/// An HTTP date in the first of the three formats that reads it, as seconds since the
/// Unix epoch; `None` for any other text.
pub open spec fn spec_parse_http_date(s: Seq<char>) -> Option<int> {
    match spec_parse_imf(s) {
        Some(v) => Some(v),
        None => match spec_parse_rfc850(s) {
            Some(v) => Some(v),
            None => spec_parse_asctime(s),
        },
    }
}

/// Empty text is no date.
pub proof fn lemma_empty_is_no_date()
    ensures
        spec_parse_http_date(Seq::<char>::empty()) is None,
{
    let e = Seq::<char>::empty();
    assert(first_index_of(e, ',') is None);
    assert(words(e).len() == 0) by {
        reveal_with_fuel(crate::text::split_by, 2);
        reveal_with_fuel(crate::text::non_empty, 2);
    }
}

/// Digits spell a number below `10` to the power of their count.
pub proof fn lemma_digits_value_bound(s: Seq<char>)
    requires
        all_digits(s),
    ensures
        0 <= digits_value(s) < pow10(s.len()),
    decreases s.len(),
{
    if s.len() > 0 {
        let t = s.drop_last();
        assert(all_digits(t)) by {
            assert forall|i: int| 0 <= i < t.len() implies is_ascii_digit(#[trigger] t[i]) by {
                assert(t[i] == s[i]);
            }
        }
        lemma_digits_value_bound(t);
        assert(is_ascii_digit(s[s.len() - 1]));
    }
}

/// Up to nine digits spell a number that fits a `u32`, with the usual bounds for two and
/// four of them.
pub proof fn lemma_short_digits(s: Seq<char>)
    requires
        all_digits(s),
        s.len() <= 9,
    ensures
        0 <= digits_value(s) < 1_000_000_000,
        s.len() <= 2 ==> digits_value(s) < 100,
        s.len() <= 4 ==> digits_value(s) < 10000,
{
    lemma_digits_value_bound(s);
    reveal_with_fuel(pow10, 10);
    lemma_pow10_monotone(s.len(), 9);
    if s.len() <= 2 {
        lemma_pow10_monotone(s.len(), 2);
    }
    if s.len() <= 4 {
        lemma_pow10_monotone(s.len(), 4);
    }
}

proof fn lemma_pow10_monotone(a: nat, b: nat)
    requires
        a <= b,
    ensures
        pow10(a) <= pow10(b),
    decreases b,
{
    if a < b {
        lemma_pow10_monotone(a, (b - 1) as nat);
        lemma_pow10_positive((b - 1) as nat);
    }
}

proof fn lemma_pow10_positive(n: nat)
    ensures
        pow10(n) >= 1,
    decreases n,
{
    if n > 0 {
        lemma_pow10_positive((n - 1) as nat);
    }
}

/// A prefix of digits spells no more than the whole.
proof fn lemma_digits_value_prefix(s: Seq<char>, i: int)
    requires
        all_digits(s),
        0 <= i <= s.len(),
    ensures
        digits_value(s.take(i)) <= digits_value(s),
    decreases s.len(),
{
    if i < s.len() {
        let t = s.drop_last();
        assert(all_digits(t)) by {
            assert forall|k: int| 0 <= k < t.len() implies is_ascii_digit(#[trigger] t[k]) by {
                assert(t[k] == s[k]);
            }
        }
        assert(s.take(i) =~= t.take(i));
        lemma_digits_value_prefix(t, i);
        lemma_digits_value_bound(t);
        assert(is_ascii_digit(s[s.len() - 1]));
    } else {
        assert(s.take(i) =~= s);
    }
}

/// The decimal value of the digits `s`, where it fits a `u32`.
fn digits_to_u32(s: &[char]) -> (r: Option<u32>)
    requires
        all_digits(s@),
    ensures
        match r {
            Some(v) => digits_value(s@) <= u32::MAX && v as int == digits_value(s@),
            None => digits_value(s@) > u32::MAX,
        },
{
    let mut v: u32 = 0;
    let mut i: usize = 0;
    assert(s@.take(0) =~= Seq::<char>::empty());
    while i < s.len()
        invariant
            i <= s@.len(),
            all_digits(s@),
            v as int == digits_value(s@.take(i as int)),
        decreases s@.len() - i,
    {
        let c = s[i];
        assert(is_ascii_digit(s@[i as int]));
        assert(s@.take(i + 1).drop_last() =~= s@.take(i as int));
        let d = (c as u32) - ('0' as u32);
        let next = match v.checked_mul(10) {
            Some(t) => t.checked_add(d),
            None => None,
        };
        match next {
            Some(n) => {
                v = n;
            },
            None => {
                proof {
                    lemma_digits_value_prefix(s@, i + 1);
                }
                return None;
            },
        }
        i = i + 1;
    }
    assert(s@.take(s@.len() as int) =~= s@);
    Some(v)
}

/// Whether every character of `s` is an ASCII digit.
fn all_ascii_digits(s: &[char]) -> (r: bool)
    ensures
        r == all_digits(s@),
{
    let mut i: usize = 0;
    while i < s.len()
        invariant
            i <= s@.len(),
            forall|j: int| 0 <= j < i ==> is_ascii_digit(#[trigger] s@[j]),
        decreases s@.len() - i,
    {
        let c = s[i];
        if !(c >= '0' && c <= '9') {
            assert(!is_ascii_digit(s@[i as int]));
            return false;
        }
        i = i + 1;
    }
    true
}

/// Parse exactly `width` ASCII digits into a `u32`.
pub fn parse_fixed_digits(s: &[char], width: usize) -> (r: Option<u32>)
    ensures
        opt_u32_view(r) == spec_fixed_digits(s@, width as nat),
{
    if s.len() != width || s.len() == 0 || !all_ascii_digits(s) {
        return None;
    }
    digits_to_u32(s)
}

/// Parse a 1- or 2-digit day (for `asctime`, where single days are space-padded so the
/// field arrives as `"6"` after whitespace splitting).
pub fn parse_day_1_or_2(s: &[char]) -> (r: Option<u32>)
    ensures
        opt_u32_view(r) == spec_day_1_or_2(s@),
{
    if s.len() == 0 || s.len() > 2 || !all_ascii_digits(s) {
        return None;
    }
    proof {
        lemma_short_digits(s@);
    }
    digits_to_u32(s)
}

/// The code of `c` after ASCII lowercasing.
fn ascii_lower(c: char) -> (r: u32)
    ensures
        r as int == ascii_lower_code(c),
{
    if c >= 'A' && c <= 'Z' {
        (c as u32) + 32
    } else {
        c as u32
    }
}

/// Whether `s` equals the three characters `a`, `b`, `c` up to ASCII case.
fn eq_ignore_case3(s: &[char], a: char, b: char, c: char) -> (r: bool)
    ensures
        r == eq_ignore_ascii_case(s@, seq![a, b, c]),
{
    if s.len() != 3 {
        return false;
    }
    let r = ascii_lower(s[0]) == ascii_lower(a) && ascii_lower(s[1]) == ascii_lower(b)
        && ascii_lower(s[2]) == ascii_lower(c);
    proof {
        let t = seq![a, b, c];
        assert(t[0] == a && t[1] == b && t[2] == c);
        if !r {
            assert(ascii_lower_code(s@[0]) != ascii_lower_code(t[0]) || ascii_lower_code(s@[1])
                != ascii_lower_code(t[1]) || ascii_lower_code(s@[2]) != ascii_lower_code(t[2]));
        }
    }
    r
}

/// Map a 3-letter English month abbreviation (case-insensitive) to `1..=12`.
pub fn parse_month(s: &[char]) -> (r: Option<i64>)
    ensures
        opt_i64_view(r) == spec_month(s@),
{
    if eq_ignore_case3(s, 'j', 'a', 'n') {
        Some(1)
    } else if eq_ignore_case3(s, 'f', 'e', 'b') {
        Some(2)
    } else if eq_ignore_case3(s, 'm', 'a', 'r') {
        Some(3)
    } else if eq_ignore_case3(s, 'a', 'p', 'r') {
        Some(4)
    } else if eq_ignore_case3(s, 'm', 'a', 'y') {
        Some(5)
    } else if eq_ignore_case3(s, 'j', 'u', 'n') {
        Some(6)
    } else if eq_ignore_case3(s, 'j', 'u', 'l') {
        Some(7)
    } else if eq_ignore_case3(s, 'a', 'u', 'g') {
        Some(8)
    } else if eq_ignore_case3(s, 's', 'e', 'p') {
        Some(9)
    } else if eq_ignore_case3(s, 'o', 'c', 't') {
        Some(10)
    } else if eq_ignore_case3(s, 'n', 'o', 'v') {
        Some(11)
    } else if eq_ignore_case3(s, 'd', 'e', 'c') {
        Some(12)
    } else {
        None
    }
}

/// Parse `HH:MM:SS` into `(h, m, s)`.
pub fn parse_time(s: &[char]) -> (r: Option<(i64, i64, i64)>)
    ensures
        match r {
            Some(t) => {
                &&& spec_parse_time(s@) == Some((t.0 as int, t.1 as int, t.2 as int))
                &&& 0 <= t.0 <= 23 && 0 <= t.1 <= 59 && 0 <= t.2 <= 60
            },
            None => spec_parse_time(s@) is None,
        },
{
    let p = split_spans(s, ':');
    if p.len() != 3 {
        return None;
    }
    let ghost pieces = split_by(s@, ':');
    assert(pieces[0] == span_text(s@, p@[0]));
    assert(pieces[1] == span_text(s@, p@[1]));
    assert(pieces[2] == span_text(s@, p@[2]));
    let h = match parse_fixed_digits(span_slice(s, p[0]), 2) {
        Some(v) => v,
        None => return None,
    };
    let m = match parse_fixed_digits(span_slice(s, p[1]), 2) {
        Some(v) => v,
        None => return None,
    };
    let sec = match parse_fixed_digits(span_slice(s, p[2]), 2) {
        Some(v) => v,
        None => return None,
    };
    if h > 23 || m > 59 || sec > 60 {
        return None;
    }
    Some((h as i64, m as i64, sec as i64))
}

/// `Sun, 06 Nov 1994 08:49:37 GMT`
pub fn parse_imf(text: &str) -> (r: Option<i64>)
    ensures
        opt_i64_view(r) == spec_parse_imf(text@),
{
    let chars = chars_of(text);
    let s = chars.as_slice();
    let comma = match find_char(s, ',') {
        Some(c) => c,
        None => return None,
    };
    let n = s.len();
    assert(comma < n);
    let rest = slice_subrange(s, comma + 1, n);
    let w = word_spans(rest);
    if w.len() != 5 {
        return None;
    }
    let ghost ws = words(rest@);
    assert(ws[0] == span_text(rest@, w@[0]));
    assert(ws[1] == span_text(rest@, w@[1]));
    assert(ws[2] == span_text(rest@, w@[2]));
    assert(ws[3] == span_text(rest@, w@[3]));
    assert(ws[4] == span_text(rest@, w@[4]));
    if !eq_ignore_case3(span_slice(rest, w[4]), 'g', 'm', 't') {
        return None;
    }
    let day = match parse_fixed_digits(span_slice(rest, w[0]), 2) {
        Some(v) => v,
        None => return None,
    };
    let month = match parse_month(span_slice(rest, w[1])) {
        Some(v) => v,
        None => return None,
    };
    let year = match parse_fixed_digits(span_slice(rest, w[2]), 4) {
        Some(v) => v,
        None => return None,
    };
    let (h, m, sec) = match parse_time(span_slice(rest, w[3])) {
        Some(t) => t,
        None => return None,
    };
    proof {
        lemma_digits_value_bound(span_text(rest@, w@[2]));
        reveal_with_fuel(pow10, 5);
    }
    make_epoch(year as i64, month, day as i64, h, m, sec)
}

/// `Sunday, 06-Nov-94 08:49:37 GMT`
pub fn parse_rfc850(text: &str) -> (r: Option<i64>)
    ensures
        opt_i64_view(r) == spec_parse_rfc850(text@),
{
    let chars = chars_of(text);
    let s = chars.as_slice();
    let comma = match find_char(s, ',') {
        Some(c) => c,
        None => return None,
    };
    let n = s.len();
    assert(comma < n);
    let rest = slice_subrange(s, comma + 1, n);
    let w = word_spans(rest);
    if w.len() != 3 {
        return None;
    }
    let ghost ws = words(rest@);
    assert(ws[0] == span_text(rest@, w@[0]));
    assert(ws[1] == span_text(rest@, w@[1]));
    assert(ws[2] == span_text(rest@, w@[2]));
    if !eq_ignore_case3(span_slice(rest, w[2]), 'g', 'm', 't') {
        return None;
    }
    let (h, m, sec) = match parse_time(span_slice(rest, w[1])) {
        Some(t) => t,
        None => return None,
    };
    let date_part = span_slice(rest, w[0]);
    let d = split_spans(date_part, '-');
    if d.len() != 3 {
        return None;
    }
    let ghost ds = split_by(date_part@, '-');
    assert(ds[0] == span_text(date_part@, d@[0]));
    assert(ds[1] == span_text(date_part@, d@[1]));
    assert(ds[2] == span_text(date_part@, d@[2]));
    let day = match parse_fixed_digits(span_slice(date_part, d[0]), 2) {
        Some(v) => v,
        None => return None,
    };
    let month = match parse_month(span_slice(date_part, d[1])) {
        Some(v) => v,
        None => return None,
    };
    let yy = match parse_fixed_digits(span_slice(date_part, d[2]), 2) {
        Some(v) => v as i64,
        None => return None,
    };
    proof {
        lemma_digits_value_bound(span_text(date_part@, d@[2]));
        reveal_with_fuel(pow10, 3);
    }
    // Two-digit years pivot: 00–49 → 2000–2049, 50–99 → 1950–1999.
    let year = if yy < 50 {
        2000 + yy
    } else {
        1900 + yy
    };
    make_epoch(year, month, day as i64, h, m, sec)
}

/// Whether `s` holds the character `c`.
fn contains_char(s: &[char], c: char) -> (r: bool)
    ensures
        r == s@.contains(c),
{
    match find_char(s, c) {
        Some(i) => {
            assert(s@[i as int] == c);
            true
        },
        None => {
            assert(!s@.contains(c));
            false
        },
    }
}

/// `Sun Nov  6 08:49:37 1994` (day is space-padded)
pub fn parse_asctime(text: &str) -> (r: Option<i64>)
    ensures
        opt_i64_view(r) == spec_parse_asctime(text@),
{
    let chars = chars_of(text);
    let s = chars.as_slice();
    if contains_char(s, ',') {
        return None;
    }
    let w = word_spans(s);
    if w.len() != 5 {
        return None;
    }
    let ghost ws = words(s@);
    assert(ws[1] == span_text(s@, w@[1]));
    assert(ws[2] == span_text(s@, w@[2]));
    assert(ws[3] == span_text(s@, w@[3]));
    assert(ws[4] == span_text(s@, w@[4]));
    let month = match parse_month(span_slice(s, w[1])) {
        Some(v) => v,
        None => return None,
    };
    let day = match parse_day_1_or_2(span_slice(s, w[2])) {
        Some(v) => v,
        None => return None,
    };
    let (h, m, sec) = match parse_time(span_slice(s, w[3])) {
        Some(t) => t,
        None => return None,
    };
    let year = match parse_fixed_digits(span_slice(s, w[4]), 4) {
        Some(v) => v,
        None => return None,
    };
    proof {
        lemma_digits_value_bound(span_text(s@, w@[4]));
        reveal_with_fuel(pow10, 5);
    }
    make_epoch(year as i64, month, day as i64, h, m, sec)
}

/// Parse an HTTP date (RFC 9110 §5.6.7) into Unix epoch seconds, in GMT.
///
/// Accepts the three mandated formats: `IMF-fixdate`, obsolete `RFC 850`, and `asctime`.
/// Returns `None` for any other string.
pub fn parse_http_date(s: &str) -> (r: Option<i64>)
    ensures
        opt_i64_view(r) == spec_parse_http_date(s@),
{
    match parse_imf(s) {
        Some(t) => Some(t),
        None => match parse_rfc850(s) {
            Some(t) => Some(t),
            None => parse_asctime(s),
        },
    }
}

} // verus!
