//! The proleptic Gregorian calendar, counted in days and seconds since
//! 1970-01-01 00:00:00 GMT. Years are astronomical: year 0 is 1 BC, and before it come
//! the negative years.
use vstd::prelude::*;

verus! {

/// Gregorian leap years: divisible by 4, except centuries not divisible by 400.
pub open spec fn is_leap_year(y: int) -> bool {
    (y % 4 == 0 && y % 100 != 0) || y % 400 == 0
}

/// The number of days in year `y`.
pub open spec fn year_length(y: int) -> int {
    if is_leap_year(y) {
        366
    } else {
        365
    }
}

/// The number of days from 0000-01-01 to the first day of year `y` (negative for the
/// years before year 0).
pub open spec fn days_before_year(y: int) -> int
    decreases (if y >= 0 {
        y
    } else {
        -y
    }),
{
    if y == 0 {
        0
    } else if y > 0 {
        days_before_year(y - 1) + year_length(y - 1)
    } else {
        days_before_year(y + 1) - year_length(y)
    }
}

/// The number of days in month `m` (1 = January) of year `y`.
pub open spec fn month_length(y: int, m: int) -> int {
    if m == 2 {
        if is_leap_year(y) {
            29
        } else {
            28
        }
    } else if m == 4 || m == 6 || m == 9 || m == 11 {
        30
    } else {
        31
    }
}

/// The number of days from the first day of year `y` to the first day of its month `m`.
pub open spec fn days_before_month(y: int, m: int) -> int
    decreases m,
{
    if m <= 1 {
        0
    } else {
        days_before_month(y, m - 1) + month_length(y, m - 1)
    }
}

/// The number of days from 1970-01-01 to day `d` of month `m` of year `y`; a day past
/// the end of its month counts on into the following days.
pub open spec fn days_since_epoch(y: int, m: int, d: int) -> int {
    days_before_year(y) - days_before_year(1970) + days_before_month(y, m) + d - 1
}

/// Seconds since 1970-01-01 00:00:00 GMT of the given GMT date and time.
pub open spec fn epoch_seconds(y: int, m: int, d: int, h: int, mi: int, s: int) -> int {
    days_since_epoch(y, m, d) * 86400 + h * 3600 + mi * 60 + s
}

/// A date and time as seconds since the epoch, provided the day of the month lies in
/// `1..=31`.
pub open spec fn spec_make_epoch(y: int, m: int, d: int, h: int, mi: int, s: int) -> Option<int> {
    if 1 <= d <= 31 {
        Some(epoch_seconds(y, m, d, h, mi, s))
    } else {
        None
    }
}

/// A real day of the calendar: month `1..=12`, day within the month.
pub open spec fn is_valid_date(y: int, m: int, d: int) -> bool {
    1 <= m <= 12 && 1 <= d <= month_length(y, m)
}

/// The calendar day after day `d` of month `m` of year `y`.
pub open spec fn next_day(y: int, m: int, d: int) -> (int, int, int) {
    if d < month_length(y, m) {
        (y, m, d + 1)
    } else if m < 12 {
        (y, m + 1, 1)
    } else {
        (y + 1, 1, 1)
    }
}

/// A valid GMT date and time: a real day of its month, and a time of day from
/// `00:00:00` to `23:59:59`.
pub open spec fn is_valid_date_time(y: int, m: int, d: int, h: int, mi: int, s: int) -> bool {
    &&& is_valid_date(y, m, d)
    &&& 0 <= h <= 23
    &&& 0 <= mi <= 59
    &&& 0 <= s <= 59
}

/// Date and time `a` comes before `b` on the calendar: comparing year, month, day, hour,
/// minute and second in turn.
pub open spec fn is_earlier(
    a: (int, int, int, int, int, int),
    b: (int, int, int, int, int, int),
) -> bool {
    ||| a.0 < b.0
    ||| a.0 == b.0 && a.1 < b.1
    ||| a.0 == b.0 && a.1 == b.1 && a.2 < b.2
    ||| a.0 == b.0 && a.1 == b.1 && a.2 == b.2 && a.3 < b.3
    ||| a.0 == b.0 && a.1 == b.1 && a.2 == b.2 && a.3 == b.3 && a.4 < b.4
    ||| a.0 == b.0 && a.1 == b.1 && a.2 == b.2 && a.3 == b.3 && a.4 == b.4 && a.5 < b.5
}

/// Each year starts `year_length` days after the one before, for every year.
proof fn lemma_days_before_year_step(y: int)
    ensures
        days_before_year(y + 1) == days_before_year(y) + year_length(y),
{
    if y < -1 {
        assert(days_before_year(y) == days_before_year(y + 1) - year_length(y));
    }
}

/// The days before year `y` in closed form: 365 a year plus one for each leap year
/// among `0..y` (less one for each leap year among `y..0` where `y` is negative).
proof fn lemma_days_before_year_closed(y: int)
    ensures
        days_before_year(y) == 365 * y + (y + 3) / 4 - (y + 99) / 100 + (y + 399) / 400,
    decreases (if y >= 0 {
        y
    } else {
        -y
    }),
{
    if y != 0 {
        let x: int = if y > 0 {
            y - 1
        } else {
            y
        };
        if y > 0 {
            lemma_days_before_year_closed(y - 1);
        } else {
            lemma_days_before_year_closed(y + 1);
        }
        lemma_days_before_year_step(x);
        assert((x + 4) / 4 - (x + 3) / 4 == (if x % 4 == 0 { 1int } else { 0int }));
        assert((x + 100) / 100 - (x + 99) / 100 == (if x % 100 == 0 { 1int } else { 0int }));
        assert((x + 400) / 400 - (x + 399) / 400 == (if x % 400 == 0 { 1int } else { 0int }));
    }
}

/// The days before month `m` of year `y`, as a table of the common year plus the leap day.
proof fn lemma_days_before_month_table(y: int, m: int)
    requires
        1 <= m <= 12,
    ensures
        days_before_month(y, m) == (if m == 1 {
            0int
        } else if m == 2 {
            31int
        } else if m == 3 {
            59int
        } else if m == 4 {
            90int
        } else if m == 5 {
            120int
        } else if m == 6 {
            151int
        } else if m == 7 {
            181int
        } else if m == 8 {
            212int
        } else if m == 9 {
            243int
        } else if m == 10 {
            273int
        } else if m == 11 {
            304int
        } else {
            334int
        }) + (if is_leap_year(y) && m > 2 { 1int } else { 0int }),
{
    reveal_with_fuel(days_before_month, 13);
}

/// Four hundred years later is 146097 days later: the days before year `y + 400`.
proof fn lemma_days_before_year_period(y: int)
    ensures
        days_before_year(y + 400) == days_before_year(y) + 146097,
{
    lemma_days_before_year_closed(y);
    lemma_days_before_year_closed(y + 400);
    assert((y + 403) / 4 == (y + 3) / 4 + 100);
    assert((y + 499) / 100 == (y + 99) / 100 + 4);
    assert((y + 799) / 400 == (y + 399) / 400 + 1);
}

/// The epoch is second zero: 1970-01-01 00:00:00 GMT.
pub proof fn law_epoch_origin()
    ensures
        epoch_seconds(1970, 1, 1, 0, 0, 0) == 0,
{
}

/// Days follow one another without a gap: the day after any real date is one day later,
/// across the ends of months and years, for every year.
pub proof fn law_next_day(y: int, m: int, d: int)
    requires
        is_valid_date(y, m, d),
    ensures
        ({
            let (y2, m2, d2) = next_day(y, m, d);
            days_since_epoch(y2, m2, d2) == days_since_epoch(y, m, d) + 1
        }),
{
    lemma_days_before_month_table(y, m);
    lemma_days_before_year_step(y);
    if d == month_length(y, m) && m < 12 {
        lemma_days_before_month_table(y, m + 1);
    }
    if d == month_length(y, m) && m == 12 {
        lemma_days_before_month_table(y + 1, 1);
    }
}

/// The calendar repeats every 400 years, which hold 146097 days: the same date 400 years
/// later is 146097 days later, for every year.
pub proof fn law_400_year_period(y: int, m: int, d: int)
    requires
        1 <= m <= 12,
    ensures
        days_since_epoch(y + 400, m, d) == days_since_epoch(y, m, d) + 146097,
{
    lemma_days_before_year_period(y);
    lemma_days_before_month_table(y, m);
    lemma_days_before_month_table(y + 400, m);
    assert(is_leap_year(y + 400) == is_leap_year(y));
}

/// A conversion of a day `1..=31` counts whole days since 1970-01-01, in seconds, plus
/// the seconds of the time of day, with no other adjustment; any other day converts to
/// nothing.
pub proof fn law_make_epoch_counts_days_and_seconds(
    y: int,
    m: int,
    d: int,
    h: int,
    mi: int,
    s: int,
)
    ensures
        1 <= d <= 31 ==> spec_make_epoch(y, m, d, h, mi, s) == Some(
            days_since_epoch(y, m, d) * 86400 + h * 3600 + mi * 60 + s,
        ),
        !(1 <= d <= 31) ==> spec_make_epoch(y, m, d, h, mi, s) is None,
{
}

/// The conversion starts at the epoch: 1970-01-01 00:00:00 is second 0.
pub proof fn law_make_epoch_origin()
    ensures
        spec_make_epoch(1970, 1, 1, 0, 0, 0) == Some(0int),
{
}

/// The same time on the next calendar day converts to exactly 86400 seconds more, across
/// the ends of months (29 February included) and years.
pub proof fn law_make_epoch_next_day(y: int, m: int, d: int, h: int, mi: int, s: int)
    requires
        is_valid_date(y, m, d),
    ensures
        ({
            let (y2, m2, d2) = next_day(y, m, d);
            &&& spec_make_epoch(y, m, d, h, mi, s) is Some
            &&& spec_make_epoch(y2, m2, d2, h, mi, s) == Some(
                spec_make_epoch(y, m, d, h, mi, s)->0 + 86400,
            )
        }),
{
    law_next_day(y, m, d);
    assert(month_length(y, m) <= 31);
}

/// Within a day the conversion counts seconds: the time of day adds `h * 3600 + mi * 60
/// + s` to midnight.
pub proof fn law_make_epoch_time_of_day(y: int, m: int, d: int, h: int, mi: int, s: int)
    requires
        1 <= d <= 31,
    ensures
        spec_make_epoch(y, m, d, h, mi, s) == Some(
            spec_make_epoch(y, m, d, 0, 0, 0)->0 + h * 3600 + mi * 60 + s,
        ),
{
}

/// February has 29 days in a leap year and 28 otherwise, and a year holds the days of
/// its twelve months.
pub proof fn law_month_lengths(y: int)
    ensures
        month_length(y, 2) == (if (y % 4 == 0 && y % 100 != 0) || y % 400 == 0 {
            29int
        } else {
            28int
        }),
        days_before_month(y, 12) + month_length(y, 12) == year_length(y),
        year_length(y) == 365 + (if (y % 4 == 0 && y % 100 != 0) || y % 400 == 0 {
            1int
        } else {
            0int
        }),
{
    lemma_days_before_month_table(y, 12);
}

/// A year holds at least 365 days more than every year before it.
proof fn lemma_days_before_year_grows(a: int, b: int)
    requires
        a <= b,
    ensures
        days_before_year(b) >= days_before_year(a) + 365 * (b - a),
    decreases b - a,
{
    if a < b {
        lemma_days_before_year_grows(a, b - 1);
        lemma_days_before_year_step(b - 1);
    }
}

/// A real day of month `m` falls before the first of any later month of that year.
proof fn lemma_day_of_year_bound(y: int, m: int, d: int, m2: int)
    requires
        1 <= m < m2 <= 13,
        1 <= d <= month_length(y, m),
    ensures
        days_before_month(y, m) + d - 1 < days_before_month(y, m2),
    decreases m2,
{
    if m2 > m + 1 {
        lemma_day_of_year_bound(y, m, d, m2 - 1);
    }
}

/// Epoch seconds keep calendar order: of two valid dates and times, the earlier one has
/// fewer seconds since the epoch.
pub proof fn law_epoch_seconds_keep_calendar_order(
    a: (int, int, int, int, int, int),
    b: (int, int, int, int, int, int),
)
    requires
        is_valid_date_time(a.0, a.1, a.2, a.3, a.4, a.5),
        is_valid_date_time(b.0, b.1, b.2, b.3, b.4, b.5),
        is_earlier(a, b),
    ensures
        epoch_seconds(a.0, a.1, a.2, a.3, a.4, a.5) < epoch_seconds(b.0, b.1, b.2, b.3, b.4, b.5),
{
    let da = days_since_epoch(a.0, a.1, a.2);
    let db = days_since_epoch(b.0, b.1, b.2);
    if a.0 < b.0 {
        lemma_day_of_year_bound(a.0, a.1, a.2, 13);
        lemma_days_before_month_table(a.0, 12);
        lemma_days_before_year_grows(a.0 + 1, b.0);
        lemma_days_before_year_step(a.0);
        assert(days_before_month(a.0, 13) == days_before_month(a.0, 12) + 31);
        assert(days_before_month(b.0, b.1) >= 0) by {
            lemma_days_before_month_table(b.0, b.1);
        }
        assert(da < db);
    } else if a.1 < b.1 {
        lemma_day_of_year_bound(a.0, a.1, a.2, b.1);
        assert(da < db);
    }
}

/// Hinnant's era arithmetic: a March-based year `400 * era + yoe` starts
/// `era * 146097 + 365 * yoe + yoe / 4 - yoe / 100` days after 0000-03-01, which is day
/// 60 of the calendar.
proof fn lemma_era_days(era: int, yoe: int)
    requires
        0 <= yoe < 400,
    ensures
        days_before_year(400 * era + yoe + 1) - 306 == 60 + era * 146097 + 365 * yoe + yoe / 4
            - yoe / 100,
{
    let y = 400 * era + yoe;
    lemma_days_before_year_closed(y + 1);
    assert((y + 4) / 4 == 100 * era + (yoe + 4) / 4);
    assert((y + 100) / 100 == 4 * era + (yoe + 100) / 100);
    assert((y + 400) / 400 == era + 1);
    assert((yoe + 4) / 4 == yoe / 4 + 1);
    assert((yoe + 100) / 100 == yoe / 100 + 1);
}

/// Days since 1970-01-01 for a proleptic-Gregorian date (Howard Hinnant's algorithm).
pub fn days_from_civil(year: i64, month: i64, day: i64) -> (r: i64)
    requires
        -1_000_000 <= year <= 1_000_000,
        1 <= month <= 12,
        1 <= day <= 31,
    ensures
        r == days_since_epoch(year as int, month as int, day as int),
        -400_000_000 <= r <= 400_000_000,
{
    let y = if month <= 2 {
        year - 1
    } else {
        year
    };
    let era = (if y >= 0 {
        y
    } else {
        y - 399
    }) / 400;
    let yoe = y - era * 400;  // [0, 399]
    let mp = if month > 2 {
        month - 3
    } else {
        month + 9
    };  // Mar=0..Feb=11
    let doy = (153 * mp + 2) / 5 + day - 1;  // [0, 365]
    let doe = yoe * 365 + yoe / 4 - yoe / 100 + doy;  // [0, 146096]
    proof {
        assert(era == (y as int) / 400 && yoe == (y as int) % 400);
        lemma_era_days(era as int, yoe as int);
        lemma_days_before_year_step(year as int);
        lemma_days_before_month_table(year as int, month as int);
        lemma_days_before_year_closed(year as int);
        lemma_days_before_year_closed(1970);
    }
    era * 146_097 + doe - 719_468
}

/// Convert a GMT calendar date and time to Unix epoch seconds; `None` where the day of
/// the month lies outside `1..=31`.
pub fn make_epoch(year: i64, month: i64, day: i64, h: i64, m: i64, s: i64) -> (r: Option<i64>)
    requires
        -1_000_000 <= year <= 1_000_000,
        1 <= month <= 12,
        0 <= h <= 23,
        0 <= m <= 59,
        0 <= s <= 60,
    ensures
        match r {
            Some(v) => spec_make_epoch(year as int, month as int, day as int, h as int, m as int, s as int)
                == Some(v as int),
            None => spec_make_epoch(year as int, month as int, day as int, h as int, m as int, s as int)
                is None,
        },
{
    if !(1 <= day && day <= 31) {
        return None;
    }
    let days = days_from_civil(year, month, day);
    Some(days * 86_400 + h * 3_600 + m * 60 + s)
}

} // verus!
