//! Calendar dates of the proleptic Gregorian calendar, and instants in UTC.

use vstd::prelude::*;

use crate::numerals;
use crate::text;

verus! {

/// Whether a year has a leap day.
pub open spec fn is_leap(year: int) -> bool {
    year % 4 == 0 && (year % 100 != 0 || year % 400 == 0)
}

/// The number of days of a month.
pub open spec fn month_days(year: int, month: int) -> int {
    if month == 2 {
        if is_leap(year) {
            29
        } else {
            28
        }
    } else if month == 4 || month == 6 || month == 9 || month == 11 {
        30
    } else {
        31
    }
}

/// The number of days of a year.
pub open spec fn year_days(year: int) -> int {
    if is_leap(year) {
        366
    } else {
        365
    }
}

/// The number of days of a year before a month.
pub open spec fn days_to_month(year: int, month: int) -> int
    decreases month,
{
    if month <= 1 {
        0
    } else {
        days_to_month(year, month - 1) + month_days(year, month - 1)
    }
}

/// The number of days from the beginning of 1970 to the beginning of a year.
pub open spec fn days_to_year(year: int) -> int
    decreases year - 1970,
{
    if year <= 1970 {
        0
    } else {
        days_to_year(year - 1) + year_days(year - 1)
    }
}

/// `year-month-day` is the date `days` days behind 1970-01-01.
pub open spec fn is_date(days: int, year: int, month: int, day: int) -> bool {
    &&& year >= 1970
    &&& 1 <= month <= 12
    &&& 1 <= day <= month_days(year, month)
    &&& days == days_to_year(year) + days_to_month(year, month) + day - 1
}

/// The number of leap days of the years 1 to `year`.
spec fn leap_days(year: int) -> int {
    year / 4 - year / 100 + year / 400
}

proof fn lemma_leap_step(year: int)
    ensures
        leap_days(year) == leap_days(year - 1) + if is_leap(year) {
            1int
        } else {
            0int
        },
{
}

proof fn lemma_days_to_year(year: int)
    requires
        year >= 1970,
    ensures
        days_to_year(year) == 365 * (year - 1970) + leap_days(year - 1) - leap_days(1969),
    decreases year - 1970,
{
    if year > 1970 {
        lemma_days_to_year(year - 1);
        lemma_leap_step(year - 1);
    }
}

/// The days of a year before a month, in a table.
proof fn lemma_days_to_month(year: int)
    ensures
        days_to_month(year, 1) == 0,
        days_to_month(year, 2) == 31,
        ({
            let leap = if is_leap(year) {
                1int
            } else {
                0int
            };
            &&& days_to_month(year, 3) == 59 + leap
            &&& days_to_month(year, 4) == 90 + leap
            &&& days_to_month(year, 5) == 120 + leap
            &&& days_to_month(year, 6) == 151 + leap
            &&& days_to_month(year, 7) == 181 + leap
            &&& days_to_month(year, 8) == 212 + leap
            &&& days_to_month(year, 9) == 243 + leap
            &&& days_to_month(year, 10) == 273 + leap
            &&& days_to_month(year, 11) == 304 + leap
            &&& days_to_month(year, 12) == 334 + leap
            &&& days_to_month(year, 13) == 365 + leap
        }),
{
    reveal_with_fuel(days_to_month, 14);
}

/// Days before a month grow with the month.
proof fn lemma_months_ascend(year: int, a: int, b: int)
    requires
        1 <= a < b,
    ensures
        days_to_month(year, a) + month_days(year, a) <= days_to_month(year, b),
    decreases b,
{
    if b > a + 1 {
        lemma_months_ascend(year, a, b - 1);
    }
}

/// Days before a year grow with the year.
proof fn lemma_years_ascend(a: int, b: int)
    requires
        1970 <= a < b,
    ensures
        days_to_year(a) + year_days(a) <= days_to_year(b),
    decreases b,
{
    if b > a + 1 {
        lemma_years_ascend(a, b - 1);
    }
}

/// A day has only one date.
pub proof fn law_date_unique(
    days: int,
    year: int,
    month: int,
    day: int,
    other_year: int,
    other_month: int,
    other_day: int,
)
    requires
        is_date(days, year, month, day),
        is_date(days, other_year, other_month, other_day),
    ensures
        year == other_year && month == other_month && day == other_day,
{
    lemma_days_to_month(year);
    lemma_days_to_month(other_year);
    if month < 12 {
        lemma_months_ascend(year, month, 13);
    }
    if other_month < 12 {
        lemma_months_ascend(other_year, other_month, 13);
    }
    if year < other_year {
        lemma_years_ascend(year, other_year);
    } else if other_year < year {
        lemma_years_ascend(other_year, year);
    }
    if month < other_month {
        lemma_months_ascend(year, month, other_month);
    } else if other_month < month {
        lemma_months_ascend(year, other_month, month);
    }
}

/// Places a day of a year that begins in March: 12 months of that year, from March
/// on.
fn month_and_day(day_of_year: u64) -> (found: (u64, u64))
    requires
        day_of_year < 366,
    ensures
        3 <= found.0 <= 14,
        ({
            let start = march_days(found.0 as int);
            start + 1 <= day_of_year + 1 && found.1 == day_of_year - start + 1 && day_of_year
                < march_days(found.0 + 1)
        }),
{
    let month = (5 * day_of_year + 2) / 153;
    let day = day_of_year - (153 * month + 2) / 5 + 1;
    (month + 3, day)
}

/// The days from the beginning of March to a later month; 13 and 14 are the
/// January and February that follow.
spec fn march_days(month: int) -> int {
    (153 * (month - 3) + 2) / 5
}

/// The date of a day.
pub fn civil(days: u64) -> (date: (u64, u64, u64))
    requires
        days <= 300000000000000,
    ensures
        is_date(days as int, date.0 as int, date.1 as int, date.2 as int),
{
    let z: u64 = days + 719468;
    let era = z / 146097;
    let doe = z % 146097;
    let century: u64 = if doe / 36524 < 3 {
        doe / 36524
    } else {
        3
    };
    let doc = doe - 36524 * century;
    let four = doc / 1461;
    let dof = doc % 1461;
    let single: u64 = if dof / 365 < 3 {
        dof / 365
    } else {
        3
    };
    let doy = dof - 365 * single;
    let march_year = 400 * era + 100 * century + 4 * four + single;
    let (m, day) = month_and_day(doy);
    proof {
        let y = march_year as int;
        assert(leap_days(y) == 97 * era + 24 * century + four) by {
            assert(four <= 24);
            assert(y / 4 == 100 * era + 25 * century + four);
            assert(y / 100 == 4 * era + century);
            assert(y / 400 == era);
        }
        assert(z == 365 * y + leap_days(y) + doy);
        if doy == 365 {
            assert(is_leap(y + 1));
        }
        lemma_leap_step(y);
        lemma_leap_step(y + 1);
        lemma_days_to_month(y);
        lemma_days_to_month(y + 1);
        assert(y >= 1969);
        if m <= 12 {
            assert(y >= 1970) by {
                if y == 1969 {
                    assert(leap_days(1969) == 477);
                }
            }
            lemma_days_to_year(y);
        } else {
            lemma_days_to_year(y + 1);
        }
    }
    if m <= 12 {
        (march_year, m, day)
    } else {
        (march_year + 1, m - 12, day)
    }
}

/// The calendar begins with 1970-01-01, and the day behind a date is the next one of its month,
/// or the first of the next month, or the first of the next year. February has a 29th in some of
/// every four years, and never a 30th.
pub proof fn law_days_in_order(days: int, year: int, month: int, day: int)
    requires
        is_date(days, year, month, day),
    ensures
        is_date(0, 1970, 1, 1),
        is_date(days + 1, year, month, day + 1) || is_date(days + 1, year, month + 1, 1) || (month
            == 12 && day == 31 && is_date(days + 1, year + 1, 1, 1)),
        day <= 28 || month != 2 || (day == 29 && year % 4 == 0),
{
    assert(days_to_month(1970, 1) == 0);
    assert(days_to_month(year + 1, 1) == 0);
    if day == month_days(year, month) {
        assert(days_to_month(year, month + 1) == days_to_month(year, month) + month_days(
            year,
            month,
        ));
        if month == 12 {
            lemma_days_to_month(year);
            assert(days_to_year(year + 1) == days_to_year(year) + year_days(year));
        }
    }
}

/// The calendar repeats itself every 400 years, which are 146097 days.
pub proof fn law_calendar_repeats(days: int, year: int, month: int, day: int)
    requires
        is_date(days, year, month, day),
    ensures
        is_date(days + 146097, year + 400, month, day),
{
    assert(is_leap(year + 400) == is_leap(year));
    lemma_same_year(year, year + 400, month);
    lemma_days_to_year(year);
    lemma_days_to_year(year + 400);
    assert(leap_days(year - 1 + 400) == leap_days(year - 1) + 97);
}

proof fn lemma_same_year(year: int, other: int, month: int)
    requires
        is_leap(year) == is_leap(other),
    ensures
        days_to_month(year, month) == days_to_month(other, month),
    decreases month,
{
    if month > 1 {
        lemma_same_year(year, other, month - 1);
    }
}

} // verus!
