//! The proleptic Gregorian calendar as plain arithmetic on integers.
//!
//! Everything here is specification and proof: the lengths of months and
//! years, the running count of days since the first day of year 0, and the
//! weekday that follows from that count.

use vstd::prelude::*;

verus! {

/// A year is a leap year when it is divisible by 4 but not by 100, or when it
/// is divisible by 400.
pub open spec fn is_leap_year(year: int) -> bool {
    (year % 4 == 0 && year % 100 != 0) || year % 400 == 0
}

/// Number of days in `month` of `year`.
///
/// Months are numbered from 1. A month number outside `1..=12` names no
/// month; it is given 30 days so that the function is total.
pub open spec fn month_length(year: int, month: int) -> int {
    if month == 1 || month == 3 || month == 5 || month == 7 || month == 8 || month == 10 || month
        == 12 {
        31
    } else if month == 2 {
        if is_leap_year(year) {
            29
        } else {
            28
        }
    } else {
        30
    }
}

/// Number of days in `year`.
pub open spec fn year_length(year: int) -> int {
    if is_leap_year(year) {
        366
    } else {
        365
    }
}

/// Number of days in the years `0..year`.
pub open spec fn days_before_year(year: nat) -> int
    decreases year,
{
    if year == 0 {
        0
    } else {
        days_before_year((year - 1) as nat) + year_length(year - 1)
    }
}

/// Number of days in the months of `year` that come before `month`.
pub open spec fn days_before_month(year: int, month: nat) -> int
    decreases month,
{
    if month <= 1 {
        0
    } else {
        days_before_month(year, (month - 1) as nat) + month_length(year, month - 1)
    }
}

/// Position of a day in the calendar: 0000-01-01 is day 1, and each later day
/// is one more.
pub open spec fn day_number(year: nat, month: nat, day: nat) -> int {
    days_before_year(year) + days_before_month(year as int, month) + day
}

/// Weekday of a day, 0 for Sunday up to 6 for Saturday.
///
/// Day 1 of the calendar, 0000-01-01, is a Saturday.
pub open spec fn weekday_of(year: nat, month: nat, day: nat) -> int {
    (day_number(year, month, day) + 5) % 7
}

/// Number of leap years among the years `0..year`.
pub open spec fn leap_years_before(year: nat) -> int {
    (year + 3) / 4 - (year + 99) / 100 + (year + 399) / 400
}

/// A multiple of 400 is a multiple of 100, and a multiple of 100 is a
/// multiple of 4.
proof fn lemma_multiples(year: nat)
    ensures
        year % 400 == 0 ==> year % 100 == 0,
        year % 100 == 0 ==> year % 4 == 0,
{
    if year % 400 == 0 {
        assert(year == 100 * (4 * (year / 400)));
    }
    if year % 100 == 0 {
        assert(year == 4 * (25 * (year / 100)));
    }
}

proof fn lemma_fours_step(n: nat)
    ensures
        (n + 4) / 4 == (n + 3) / 4 + if n % 4 == 0 {
            1int
        } else {
            0int
        },
        (n + 4) / 4 == n / 4 + 1,
{
}

proof fn lemma_hundreds_step(n: nat)
    ensures
        (n + 100) / 100 == (n + 99) / 100 + if n % 100 == 0 {
            1int
        } else {
            0int
        },
        (n + 100) / 100 == n / 100 + 1,
{
}

proof fn lemma_four_hundreds_step(n: nat)
    ensures
        (n + 400) / 400 == (n + 399) / 400 + if n % 400 == 0 {
            1int
        } else {
            0int
        },
        (n + 400) / 400 == n / 400 + 1,
{
}

/// The count of leap years before a year grows by one over a leap year and
/// not at all over a common year.
proof fn lemma_leap_years_step(year: nat)
    ensures
        leap_years_before(year + 1) == leap_years_before(year) + if is_leap_year(year as int) {
            1int
        } else {
            0int
        },
{
    lemma_multiples(year);
    lemma_fours_step(year);
    lemma_hundreds_step(year);
    lemma_four_hundreds_step(year);
    let fours = (year + 3) / 4;
    let hundreds = (year + 99) / 100;
    let four_hundreds = (year + 399) / 400;
    assert(leap_years_before(year) == fours - hundreds + four_hundreds);
    assert(leap_years_before(year + 1) == (year + 4) / 4 - (year + 100) / 100 + (year + 400)
        / 400);
    if year % 400 == 0 {
    } else if year % 100 == 0 {
    } else if year % 4 == 0 {
    } else {
    }
}

/// The days before a year are 365 for each year plus one for each leap year.
pub proof fn lemma_days_before_year(year: nat)
    ensures
        days_before_year(year) == 365 * year + leap_years_before(year),
    decreases year,
{
    if year > 0 {
        lemma_days_before_year((year - 1) as nat);
        lemma_leap_years_step((year - 1) as nat);
    }
}

/// The days before each month of a year, written out.
pub proof fn lemma_days_before_month(year: int, month: nat)
    requires
        1 <= month <= 12,
    ensures
        days_before_month(year, month) == common_days_before_month(month) + if month >= 3
            && is_leap_year(year) {
            1int
        } else {
            0int
        },
{
    reveal_with_fuel(days_before_month, 13);
}

/// Days before `month` in a year that is not a leap year.
pub open spec fn common_days_before_month(month: nat) -> int {
    if month <= 1 {
        0
    } else if month == 2 {
        31
    } else if month == 3 {
        59
    } else if month == 4 {
        90
    } else if month == 5 {
        120
    } else if month == 6 {
        151
    } else if month == 7 {
        181
    } else if month == 8 {
        212
    } else if month == 9 {
        243
    } else if month == 10 {
        273
    } else if month == 11 {
        304
    } else {
        334
    }
}

/// Offset of each month in the weekday sum: the days before the month in a
/// common year, less one for March and later, reduced modulo 7.
pub open spec fn month_offset(month: nat) -> int {
    if month == 1 {
        0
    } else if month == 2 {
        3
    } else if month == 3 {
        2
    } else if month == 4 {
        5
    } else if month == 5 {
        0
    } else if month == 6 {
        3
    } else if month == 7 {
        5
    } else if month == 8 {
        1
    } else if month == 9 {
        4
    } else if month == 10 {
        6
    } else if month == 11 {
        2
    } else {
        4
    }
}

/// The sum whose remainder modulo 7 is the weekday: the year counted from
/// March, moved forward by 400 so that it is never negative, its leap days,
/// the month's offset and the day.
pub open spec fn weekday_sum(year: nat, month: nat, day: nat) -> int {
    let y: int = if month < 3 {
        year as int + 399
    } else {
        year as int + 400
    };
    y + y / 4 - y / 100 + y / 400 + month_offset(month) + day
}

proof fn lemma_leap_years_through(year: nat)
    ensures
        leap_years_before(year) + (if is_leap_year(year as int) {
            1int
        } else {
            0int
        }) == year / 4 - year / 100 + year / 400 + 1,
{
    lemma_leap_years_step(year);
    lemma_fours_step(year);
    lemma_hundreds_step(year);
    lemma_four_hundreds_step(year);
    assert(leap_years_before(year + 1) == (year + 4) / 4 - (year + 100) / 100 + (year + 400)
        / 400);
}

proof fn lemma_shifted_quotients(year: nat)
    ensures
        (year + 400) / 4 == year / 4 + 100,
        (year + 400) / 100 == year / 100 + 4,
        (year + 400) / 400 == year / 400 + 1,
        (year + 399) / 4 == (year + 3) / 4 + 99,
        (year + 399) / 100 == (year + 99) / 100 + 3,
{
}

/// The weekday sum and the day count agree modulo 7: they differ by a whole
/// number of weeks.
pub proof fn lemma_weekday_sum(year: nat, month: nat, day: nat)
    requires
        1 <= month <= 12,
    ensures
        weekday_sum(year, month, day) % 7 == weekday_of(year, month, day),
{
    lemma_days_before_year(year);
    lemma_days_before_month(year as int, month);
    lemma_leap_years_through(year);
    lemma_shifted_quotients(year);
    let n = day_number(year, month, day) + 5;
    let w = weekday_sum(year, month, day);
    let c = common_days_before_month(month) - month_offset(month);
    if month < 3 {
        assert(w == year + leap_years_before(year) + 495 + month_offset(month) + day);
        assert(n == 365 * year + leap_years_before(year) + common_days_before_month(month) + day
            + 5);
        assert(c == 0 || c == 28);
        assert(n - w == 7 * (52 * year + c / 7 - 70));
    } else {
        let q = year / 4 - year / 100 + year / 400;
        assert(w == year + q + 497 + month_offset(month) + day);
        assert(n == 365 * year + q + 1 + common_days_before_month(month) + day + 5);
        assert(c % 7 == 1);
        assert(n - w == 7 * (52 * year + (c - 1) / 7 - 70));
    }
    lemma_same_remainder(n, w, (n - w) / 7);
}

proof fn lemma_same_remainder(a: int, b: int, k: int)
    requires
        a - b == 7 * k,
    ensures
        a % 7 == b % 7,
{
}

} // verus!
