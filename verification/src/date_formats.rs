//! The three HTTP date formats written out, and the law that they name the same instant.
use vstd::prelude::*;

use crate::calendar::{epoch_seconds, spec_make_epoch};
use crate::http_date::{
    all_digits, digits_value, law_english_month_numbers, month_abbreviation, lemma_short_digits, is_ascii_digit, rfc850_year, spec_fixed_digits, spec_month,
    spec_parse_asctime, spec_parse_http_date, spec_parse_imf, spec_parse_rfc850,
    spec_parse_time, ascii_lower_code, eq_ignore_ascii_case, spec_day_1_or_2,
};
use crate::text::{
    first_index_of, lemma_first_index_of, lemma_words_join, lemma_split_by_cons, lemma_split_by_no_sep,
    lemma_words_cons, lemma_words_leading_space, lemma_words_single, split_by, words,
};

verus! {

/// `GMT`.
pub open spec fn gmt_text() -> Seq<char> {
    seq!['G', 'M', 'T']
}

/// `HH:MM:SS`.
pub open spec fn time_text(hh: Seq<char>, mm: Seq<char>, ss: Seq<char>) -> Seq<char> {
    hh + (seq![':'] + (mm + (seq![':'] + ss)))
}

/// `IMF-fixdate`: `<weekday>, <DD> <Mon> <YYYY> <time> GMT`.
pub open spec fn imf_text(
    weekday: Seq<char>,
    day: Seq<char>,
    month: Seq<char>,
    year: Seq<char>,
    time: Seq<char>,
) -> Seq<char> {
    let after_year = seq![' '] + (time + (seq![' '] + gmt_text()));
    let after_day = seq![' '] + (month + (seq![' '] + (year + after_year)));
    weekday + (seq![','] + (seq![' '] + (day + after_day)))
}

/// `RFC 850`: `<weekday>, <DD>-<Mon>-<YY> <time> GMT`.
pub open spec fn rfc850_text(
    weekday: Seq<char>,
    day: Seq<char>,
    month: Seq<char>,
    yy: Seq<char>,
    time: Seq<char>,
) -> Seq<char> {
    let date_part = day + (seq!['-'] + (month + (seq!['-'] + yy)));
    weekday + (seq![','] + (seq![' '] + (date_part + (seq![' '] + (time + (seq![' '] + gmt_text()))))))
}

/// The day of an `asctime` date: two digits, with a leading zero written as a space.
pub open spec fn asctime_day(day: Seq<char>) -> Seq<char> {
    if day[0] == '0' {
        seq![' ', day[1]]
    } else {
        day
    }
}

/// `asctime`: `<weekday> <Mon> <DD or ␠D> <time> <YYYY>`.
pub open spec fn asctime_text(
    weekday: Seq<char>,
    month: Seq<char>,
    day: Seq<char>,
    time: Seq<char>,
    year: Seq<char>,
) -> Seq<char> {
    let after_day = seq![' '] + (time + (seq![' '] + year));
    weekday + (seq![' '] + (month + (seq![' '] + (asctime_day(day) + after_day))))
}

/// Text without a comma, a comma, then `rest`: the first comma ends the prefix and
/// `rest` follows it.
proof fn lemma_after_first_comma(prefix: Seq<char>, rest: Seq<char>)
    requires
        !prefix.contains(','),
    ensures
        ({
            let s = prefix + (seq![','] + rest);
            &&& first_index_of(s, ',') == Some(prefix.len() as int)
            &&& s.subrange(prefix.len() as int + 1, s.len() as int) == rest
        }),
{
    let s = prefix + (seq![','] + rest);
    assert forall|j: int| 0 <= j < prefix.len() implies s[j] != ',' by {
        assert(s[j] == prefix[j]);
        if prefix[j] == ',' {
            assert(prefix.contains(','));
        }
    }
    lemma_first_index_of(s, ',', prefix.len() as int);
    assert(s.subrange(prefix.len() as int + 1, s.len() as int) =~= rest);
}

/// `IMF-fixdate` and `RFC 850` read only what follows the first comma: the weekday
/// before it, whatever it says, changes nothing.
pub proof fn law_dates_read_after_first_comma(a1: Seq<char>, a2: Seq<char>, rest: Seq<char>)
    requires
        !a1.contains(','),
        !a2.contains(','),
    ensures
        spec_parse_imf(a1 + (seq![','] + rest)) == spec_parse_imf(a2 + (seq![','] + rest)),
        spec_parse_rfc850(a1 + (seq![','] + rest)) == spec_parse_rfc850(a2 + (seq![','] + rest)),
{
    lemma_after_first_comma(a1, rest);
    lemma_after_first_comma(a2, rest);
}

/// An `RFC 850` date is the `IMF-fixdate` with the same fields and the year that its two
/// digits pivot to (`00..=49` to `20xx`, `50..=99` to `19xx`), whatever the time text:
/// both read as the same instant, or both read as nothing.
pub proof fn law_rfc850_is_imf_with_pivoted_year(
    weekday: Seq<char>,
    day: Seq<char>,
    month: Seq<char>,
    yy: Seq<char>,
    year: Seq<char>,
    time: Seq<char>,
)
    requires
        !weekday.contains(','),
        is_digits(day, 2),
        spec_month(month) is Some,
        is_digits(yy, 2),
        is_digits(year, 4),
        digits_value(year) == rfc850_year(digits_value(yy)),
    ensures
        spec_parse_rfc850(rfc850_text(weekday, day, month, yy, time)) == spec_parse_imf(
            imf_text(weekday, day, month, year, time),
        ),
{
    let imf = imf_text(weekday, day, month, year, time);
    let rfc = rfc850_text(weekday, day, month, yy, time);
    lemma_gmt_text();
    lemma_month_is_letters(month, ' ');
    lemma_month_is_letters(month, '-');
    lemma_digits_lack(day, ' ');
    lemma_digits_lack(day, '-');
    lemma_digits_lack(year, ' ');
    lemma_digits_lack(yy, ' ');
    lemma_digits_lack(yy, '-');
    lemma_short_digits(day);
    lemma_short_digits(yy);
    lemma_short_digits(year);
    let tail = seq![' '] + gmt_text();
    lemma_words_single(gmt_text());
    lemma_words_join(time, gmt_text());
    // IMF-fixdate: day, month, year, then the words of the time text and GMT.
    let after_year = seq![' '] + (time + tail);
    let after_month = seq![' '] + (year + after_year);
    let after_day = seq![' '] + (month + after_month);
    let imf_rest = seq![' '] + (day + after_day);
    assert(imf =~= weekday + (seq![','] + imf_rest));
    lemma_after_first_comma(weekday, imf_rest);
    lemma_words_cons(year, time + tail);
    lemma_words_cons(month, year + after_year);
    lemma_words_cons(day, month + after_month);
    lemma_words_leading_space(day + after_day);
    let wi = words(imf_rest);
    assert(wi =~= seq![day, month, year] + (words(time) + seq![gmt_text()]));
    // RFC 850: the date part, then the words of the time text and GMT.
    let date_part = day + (seq!['-'] + (month + (seq!['-'] + yy)));
    lemma_lacks_one('-', ' ');
    lemma_concat_lacks(seq!['-'], yy, ' ');
    lemma_concat_lacks(month, seq!['-'] + yy, ' ');
    lemma_concat_lacks(seq!['-'], month + (seq!['-'] + yy), ' ');
    lemma_concat_lacks(day, seq!['-'] + (month + (seq!['-'] + yy)), ' ');
    let rfc_rest = seq![' '] + (date_part + (seq![' '] + (time + tail)));
    assert(rfc =~= weekday + (seq![','] + rfc_rest));
    lemma_after_first_comma(weekday, rfc_rest);
    lemma_words_cons(date_part, time + tail);
    lemma_words_leading_space(date_part + (seq![' '] + (time + tail)));
    let wr = words(rfc_rest);
    assert(wr =~= seq![date_part] + (words(time) + seq![gmt_text()]));
    lemma_split_by_no_sep(yy, '-');
    lemma_split_by_cons(month, '-', yy);
    lemma_split_by_cons(day, '-', month + (seq!['-'] + yy));
    assert(split_by(date_part, '-') =~= seq![day, month, yy]);
    assert(spec_fixed_digits(day, 2) == Some(digits_value(day)));
    assert(spec_fixed_digits(yy, 2) == Some(digits_value(yy)));
    assert(spec_fixed_digits(year, 4) == Some(digits_value(year)));
    if words(time).len() == 1 {
        assert(wi[3] == words(time)[0] && wi[4] == gmt_text());
        assert(wr[1] == words(time)[0] && wr[2] == gmt_text());
    }
}

/// An `IMF-fixdate` or `asctime` date names its calendar day: with month `m` written as
/// its English abbreviation, it reads as the seconds since the epoch of that year, month
/// `m`, day and time.
pub proof fn law_dates_read_their_calendar_day(
    weekday: Seq<char>,
    day: Seq<char>,
    m: int,
    year: Seq<char>,
    hh: Seq<char>,
    mm: Seq<char>,
    ss: Seq<char>,
)
    requires
        weekday.len() > 0 && !weekday.contains(' ') && !weekday.contains(','),
        is_digits(day, 2) && 1 <= digits_value(day) <= 31,
        1 <= m <= 12,
        is_digits(year, 4),
        is_digits(hh, 2) && digits_value(hh) <= 23,
        is_digits(mm, 2) && digits_value(mm) <= 59,
        is_digits(ss, 2) && digits_value(ss) <= 60,
    ensures
        ({
            let time = time_text(hh, mm, ss);
            let month = month_abbreviation(m);
            let expected = Some(
                epoch_seconds(
                    digits_value(year),
                    m,
                    digits_value(day),
                    digits_value(hh),
                    digits_value(mm),
                    digits_value(ss),
                ),
            );
            &&& spec_parse_http_date(imf_text(weekday, day, month, year, time)) == expected
            &&& spec_parse_http_date(asctime_text(weekday, month, day, time, year)) == expected
        }),
{
    law_english_month_numbers();
    assert(spec_month(month_abbreviation(m)) == Some(m));
    law_three_formats_agree(weekday, weekday, day, month_abbreviation(m), year, hh, mm, ss);
}

/// `n` ASCII digits.
pub open spec fn is_digits(s: Seq<char>, n: nat) -> bool {
    s.len() == n && all_digits(s)
}

proof fn lemma_concat_lacks(a: Seq<char>, b: Seq<char>, c: char)
    requires
        !a.contains(c),
        !b.contains(c),
    ensures
        !(a + b).contains(c),
{
    if (a + b).contains(c) {
        let i = choose|i: int| 0 <= i < (a + b).len() && (a + b)[i] == c;
        if i < a.len() {
            assert(a[i] == c);
        } else {
            assert(b[i - a.len()] == c);
        }
    }
}

proof fn lemma_digits_lack(s: Seq<char>, c: char)
    requires
        all_digits(s),
        !is_ascii_digit(c),
    ensures
        !s.contains(c),
{
    if s.contains(c) {
        let i = choose|i: int| 0 <= i < s.len() && s[i] == c;
        assert(is_ascii_digit(s[i]));
    }
}

proof fn lemma_lacks_one(x: char, c: char)
    requires
        x != c,
    ensures
        !seq![x].contains(c),
{
    if seq![x].contains(c) {
        let i = choose|i: int| 0 <= i < 1 && seq![x][i] == c;
    }
}

/// A month abbreviation is three letters: no space, comma, hyphen or colon.
proof fn lemma_month_is_letters(month: Seq<char>, c: char)
    requires
        spec_month(month) is Some,
        !('a' <= c <= 'z') && !('A' <= c <= 'Z'),
    ensures
        month.len() == 3,
        !month.contains(c),
{
    assert forall|i: int| 0 <= i < month.len() implies 97 <= ascii_lower_code(
        #[trigger] month[i],
    ) <= 122 by {}
    if month.contains(c) {
        let i = choose|i: int| 0 <= i < month.len() && month[i] == c;
        assert(97 <= ascii_lower_code(month[i]) <= 122);
    }
}

proof fn lemma_digits_value_2(s: Seq<char>)
    requires
        s.len() == 2,
    ensures
        digits_value(s) == (s[0] as int - '0' as int) * 10 + (s[1] as int - '0' as int),
{
    assert(s.drop_last().drop_last() =~= Seq::<char>::empty());
    assert(s.drop_last().last() == s[0]);
    reveal_with_fuel(digits_value, 3);
}

proof fn lemma_digits_value_4(s: Seq<char>)
    requires
        s.len() == 4,
    ensures
        digits_value(s) == digits_value(s.subrange(0, 2)) * 100 + digits_value(s.subrange(2, 4)),
{
    let a = s.subrange(0, 2);
    let b = s.subrange(2, 4);
    lemma_digits_value_2(a);
    lemma_digits_value_2(b);
    assert(s.drop_last().drop_last() =~= a);
    assert(s.drop_last().last() == s[2]);
    assert(digits_value(s) == digits_value(s.drop_last()) * 10 + (s[3] as int - '0' as int));
    assert(digits_value(s.drop_last()) == digits_value(a) * 10 + (s[2] as int - '0' as int));
}

/// `HH:MM:SS` of 2-digit fields in range reads as its time, and holds no space, comma
/// or hyphen.
proof fn lemma_time_text(hh: Seq<char>, mm: Seq<char>, ss: Seq<char>)
    requires
        is_digits(hh, 2) && digits_value(hh) <= 23,
        is_digits(mm, 2) && digits_value(mm) <= 59,
        is_digits(ss, 2) && digits_value(ss) <= 60,
    ensures
        spec_parse_time(time_text(hh, mm, ss)) == Some(
            (digits_value(hh), digits_value(mm), digits_value(ss)),
        ),
        !time_text(hh, mm, ss).contains(' '),
        !time_text(hh, mm, ss).contains(','),
        !time_text(hh, mm, ss).contains('-'),
        time_text(hh, mm, ss).len() > 0,
{
    let t = time_text(hh, mm, ss);
    lemma_digits_lack(hh, ':');
    lemma_digits_lack(mm, ':');
    lemma_digits_lack(ss, ':');
    lemma_split_by_no_sep(ss, ':');
    lemma_split_by_cons(mm, ':', ss);
    lemma_split_by_cons(hh, ':', mm + (seq![':'] + ss));
    assert(split_by(t, ':') =~= seq![hh, mm, ss]);
    assert forall|c: char| c == ' ' || c == ',' || c == '-' implies !t.contains(c) by {
        lemma_digits_lack(hh, c);
        lemma_digits_lack(mm, c);
        lemma_digits_lack(ss, c);
        lemma_lacks_one(':', c);
        lemma_concat_lacks(seq![':'], ss, c);
        lemma_concat_lacks(mm, seq![':'] + ss, c);
        lemma_concat_lacks(seq![':'], mm + (seq![':'] + ss), c);
        lemma_concat_lacks(hh, seq![':'] + (mm + (seq![':'] + ss)), c);
    }
}

/// `GMT` is a word that reads as `GMT`.
proof fn lemma_gmt_text()
    ensures
        eq_ignore_ascii_case(gmt_text(), seq!['g', 'm', 't']),
        !gmt_text().contains(' '),
        !gmt_text().contains(','),
        gmt_text().len() > 0,
{
    let g = gmt_text();
    assert forall|c: char| c == ' ' || c == ',' implies !g.contains(c) by {
        if g.contains(c) {
            let i = choose|i: int| 0 <= i < g.len() && g[i] == c;
        }
    }
}

/// The three formats name the same instant: an `IMF-fixdate`, the `asctime` date with the
/// same fields, and — for years `1950..=2049`, whose two last digits `RFC 850` keeps — the
/// `RFC 850` date with the same fields all read as the same number of seconds since the
/// epoch, whatever weekday names they carry.
pub proof fn law_three_formats_agree(
    weekday: Seq<char>,
    long_weekday: Seq<char>,
    day: Seq<char>,
    month: Seq<char>,
    year: Seq<char>,
    hh: Seq<char>,
    mm: Seq<char>,
    ss: Seq<char>,
)
    requires
        weekday.len() > 0 && !weekday.contains(' ') && !weekday.contains(','),
        long_weekday.len() > 0 && !long_weekday.contains(' ') && !long_weekday.contains(','),
        is_digits(day, 2) && 1 <= digits_value(day) <= 31,
        spec_month(month) is Some,
        is_digits(year, 4),
        is_digits(hh, 2) && digits_value(hh) <= 23,
        is_digits(mm, 2) && digits_value(mm) <= 59,
        is_digits(ss, 2) && digits_value(ss) <= 60,
    ensures
        ({
            let time = time_text(hh, mm, ss);
            let expected = spec_make_epoch(
                digits_value(year),
                spec_month(month)->0,
                digits_value(day),
                digits_value(hh),
                digits_value(mm),
                digits_value(ss),
            );
            &&& expected is Some
            &&& spec_parse_http_date(imf_text(weekday, day, month, year, time)) == expected
            &&& spec_parse_http_date(asctime_text(weekday, month, day, time, year)) == expected
            &&& 1950 <= digits_value(year) <= 2049 ==> spec_parse_http_date(
                rfc850_text(long_weekday, day, month, year.subrange(2, 4), time),
            ) == expected
        }),
{
    let time = time_text(hh, mm, ss);
    lemma_time_text(hh, mm, ss);
    lemma_gmt_text();
    lemma_month_is_letters(month, ' ');
    lemma_month_is_letters(month, ',');
    lemma_month_is_letters(month, '-');
    lemma_digits_lack(day, ' ');
    lemma_digits_lack(day, ',');
    lemma_digits_lack(day, '-');
    lemma_digits_lack(year, ' ');
    lemma_digits_lack(year, ',');
    let (h, mi, sec) = (digits_value(hh), digits_value(mm), digits_value(ss));
    lemma_imf(weekday, day, month, year, time, h, mi, sec);
    lemma_asctime(weekday, day, month, year, time, h, mi, sec);
    if 1950 <= digits_value(year) <= 2049 {
        lemma_rfc850(long_weekday, day, month, year, time, h, mi, sec);
    }
}

proof fn lemma_imf(
    weekday: Seq<char>,
    day: Seq<char>,
    month: Seq<char>,
    year: Seq<char>,
    time: Seq<char>,
    h: int,
    mi: int,
    sec: int,
)
    requires
        weekday.len() > 0 && !weekday.contains(' ') && !weekday.contains(','),
        is_digits(day, 2) && 1 <= digits_value(day) <= 31,
        spec_month(month) is Some,
        is_digits(year, 4),
        time.len() > 0 && !time.contains(' '),
        spec_parse_time(time) == Some((h, mi, sec)),
        !day.contains(' ') && !month.contains(' ') && !year.contains(' '),
        month.len() == 3,
        eq_ignore_ascii_case(gmt_text(), seq!['g', 'm', 't']) && !gmt_text().contains(' '),
    ensures
        spec_parse_http_date(imf_text(weekday, day, month, year, time)) == spec_make_epoch(
            digits_value(year),
            spec_month(month)->0,
            digits_value(day),
            h,
            mi,
            sec,
        ),
{
    let s = imf_text(weekday, day, month, year, time);
    let after_gmt = seq![' '] + gmt_text();
    let after_time = time + after_gmt;
    let after_year = seq![' '] + after_time;
    let after_month = seq![' '] + (year + after_year);
    let after_day = seq![' '] + (month + after_month);
    let rest = seq![' '] + (day + after_day);
    assert(s =~= weekday + (seq![','] + rest));
    assert forall|j: int| 0 <= j < weekday.len() implies s[j] != ',' by {
        assert(s[j] == weekday[j]);
    }
    lemma_first_index_of(s, ',', weekday.len() as int);
    assert(s.subrange(weekday.len() as int + 1, s.len() as int) =~= rest);
    lemma_words_single(gmt_text());
    lemma_words_cons(time, gmt_text());
    lemma_words_cons(year, after_time);
    lemma_words_cons(month, year + after_year);
    lemma_words_cons(day, month + after_month);
    lemma_words_leading_space(day + after_day);
    let w = words(rest);
    assert(w =~= seq![day, month, year, time, gmt_text()]);
    assert(spec_fixed_digits(day, 2) == Some(digits_value(day)));
    lemma_short_digits(year);
    assert(spec_fixed_digits(year, 4) == Some(digits_value(year)));
}

proof fn lemma_asctime(
    weekday: Seq<char>,
    day: Seq<char>,
    month: Seq<char>,
    year: Seq<char>,
    time: Seq<char>,
    h: int,
    mi: int,
    sec: int,
)
    requires
        weekday.len() > 0 && !weekday.contains(' ') && !weekday.contains(','),
        is_digits(day, 2) && 1 <= digits_value(day) <= 31,
        spec_month(month) is Some,
        is_digits(year, 4),
        time.len() > 0 && !time.contains(' ') && !time.contains(','),
        spec_parse_time(time) == Some((h, mi, sec)),
        !day.contains(' ') && !month.contains(' ') && !year.contains(' '),
        !day.contains(',') && !month.contains(',') && !year.contains(','),
        month.len() == 3,
    ensures
        spec_parse_http_date(asctime_text(weekday, month, day, time, year)) == spec_make_epoch(
            digits_value(year),
            spec_month(month)->0,
            digits_value(day),
            h,
            mi,
            sec,
        ),
{
    let s = asctime_text(weekday, month, day, time, year);
    let dword = if day[0] == '0' {
        seq![day[1]]
    } else {
        day
    };
    let after_time = seq![' '] + year;
    let after_day = seq![' '] + (time + after_time);
    let after_month = seq![' '] + (asctime_day(day) + after_day);
    // No comma anywhere, so neither of the formats with a comma reads it.
    lemma_lacks_one(' ', ',');
    lemma_concat_lacks(seq![' '], year, ',');
    lemma_concat_lacks(time, after_time, ',');
    lemma_concat_lacks(seq![' '], time + after_time, ',');
    assert(!asctime_day(day).contains(',')) by {
        if day[0] == '0' {
            assert(is_ascii_digit(day[1]));
            lemma_lacks_one(day[1], ',');
            lemma_concat_lacks(seq![' '], seq![day[1]], ',');
            assert(seq![' '] + seq![day[1]] =~= seq![' ', day[1]]);
        }
    }
    lemma_concat_lacks(asctime_day(day), after_day, ',');
    lemma_concat_lacks(seq![' '], asctime_day(day) + after_day, ',');
    lemma_concat_lacks(month, after_month, ',');
    lemma_concat_lacks(seq![' '], month + after_month, ',');
    lemma_concat_lacks(weekday, seq![' '] + (month + after_month), ',');
    assert(s =~= weekday + (seq![' '] + (month + after_month)));
    assert(!s.contains(','));
    assert forall|j: int| 0 <= j < s.len() implies s[j] != ',' by {
        if s[j] == ',' {
            assert(s.contains(','));
        }
    }
    lemma_first_index_of(s, ',', s.len() as int);
    assert(spec_parse_imf(s) is None);
    assert(spec_parse_rfc850(s) is None);
    // The words: weekday, month, day, time, year.
    lemma_words_single(year);
    lemma_words_cons(time, year);
    if day[0] == '0' {
        assert(is_ascii_digit(day[1]));
        lemma_lacks_one(day[1], ' ');
        lemma_words_cons(dword, time + after_time);
        assert(asctime_day(day) + after_day =~= seq![' '] + (dword + after_day));
        lemma_words_leading_space(dword + after_day);
        lemma_digits_value_2(day);
        assert(dword.drop_last() =~= Seq::<char>::empty());
        assert(dword.last() == day[1]);
        assert(digits_value(dword) == digits_value(dword.drop_last()) * 10 + (day[1] as int
            - '0' as int));
        assert(digits_value(dword.drop_last()) == 0);
        assert(digits_value(dword) == digits_value(day));
        assert(all_digits(dword));
    } else {
        lemma_words_cons(day, time + after_time);
    }
    lemma_words_cons(month, asctime_day(day) + after_day);
    lemma_words_cons(weekday, month + after_month);
    let w = words(s);
    assert(w =~= seq![weekday, month, dword, time, year]);
    assert(spec_day_1_or_2(dword) == Some(digits_value(day)));
    lemma_short_digits(year);
    assert(spec_fixed_digits(year, 4) == Some(digits_value(year)));
    assert(spec_parse_asctime(s) == spec_make_epoch(
        digits_value(year),
        spec_month(month)->0,
        digits_value(day),
        h,
        mi,
        sec,
    ));
}

proof fn lemma_rfc850(
    weekday: Seq<char>,
    day: Seq<char>,
    month: Seq<char>,
    year: Seq<char>,
    time: Seq<char>,
    h: int,
    mi: int,
    sec: int,
)
    requires
        weekday.len() > 0 && !weekday.contains(' ') && !weekday.contains(','),
        is_digits(day, 2) && 1 <= digits_value(day) <= 31,
        spec_month(month) is Some,
        is_digits(year, 4) && 1950 <= digits_value(year) <= 2049,
        time.len() > 0 && !time.contains(' '),
        spec_parse_time(time) == Some((h, mi, sec)),
        !day.contains(' ') && !month.contains(' ') && !day.contains('-') && !month.contains('-'),
        month.len() == 3,
        eq_ignore_ascii_case(gmt_text(), seq!['g', 'm', 't']) && !gmt_text().contains(' '),
    ensures
        spec_parse_http_date(rfc850_text(weekday, day, month, year.subrange(2, 4), time))
            == spec_make_epoch(
            digits_value(year),
            spec_month(month)->0,
            digits_value(day),
            h,
            mi,
            sec,
        ),
{
    let yy = year.subrange(2, 4);
    let s = rfc850_text(weekday, day, month, yy, time);
    let date_part = day + (seq!['-'] + (month + (seq!['-'] + yy)));
    let after_time = seq![' '] + gmt_text();
    let after_date = seq![' '] + (time + after_time);
    let rest = seq![' '] + (date_part + after_date);
    assert(s =~= weekday + (seq![','] + rest));
    assert forall|j: int| 0 <= j < weekday.len() implies s[j] != ',' by {
        assert(s[j] == weekday[j]);
    }
    lemma_first_index_of(s, ',', weekday.len() as int);
    assert(s.subrange(weekday.len() as int + 1, s.len() as int) =~= rest);
    // The date part has no space: digits, letters and hyphens.
    assert(all_digits(yy)) by {
        assert forall|i: int| 0 <= i < yy.len() implies is_ascii_digit(#[trigger] yy[i]) by {
            assert(yy[i] == year[i + 2]);
        }
    }
    lemma_digits_lack(yy, ' ');
    lemma_digits_lack(yy, '-');
    lemma_lacks_one('-', ' ');
    lemma_concat_lacks(seq!['-'], yy, ' ');
    lemma_concat_lacks(month, seq!['-'] + yy, ' ');
    lemma_concat_lacks(seq!['-'], month + (seq!['-'] + yy), ' ');
    lemma_concat_lacks(day, seq!['-'] + (month + (seq!['-'] + yy)), ' ');
    // The words: date part, time, GMT.
    lemma_words_single(gmt_text());
    lemma_words_cons(time, gmt_text());
    lemma_words_cons(date_part, time + after_time);
    lemma_words_leading_space(date_part + after_date);
    let w = words(rest);
    assert(w =~= seq![date_part, time, gmt_text()]);
    assert(spec_parse_imf(s) is None);
    // The date part: day, month, two-digit year.
    lemma_split_by_no_sep(yy, '-');
    lemma_split_by_cons(month, '-', yy);
    lemma_split_by_cons(day, '-', month + (seq!['-'] + yy));
    assert(split_by(date_part, '-') =~= seq![day, month, yy]);
    assert(spec_fixed_digits(day, 2) == Some(digits_value(day)));
    lemma_short_digits(yy);
    assert(spec_fixed_digits(yy, 2) == Some(digits_value(yy)));
    // The century that the pivot restores.
    lemma_digits_value_4(year);
    lemma_digits_value_2(year.subrange(0, 2));
    lemma_digits_value_2(yy);
    assert(rfc850_year(digits_value(yy)) == digits_value(year));
}

} // verus!
