//! Pure proleptic-Gregorian calendar arithmetic: conversion of an
//! epoch-second count (seconds since 1970-01-01T00:00:00Z) into a civil
//! date and time, together with the leap-year and days-in-month rules.

use vstd::prelude::*;

verus! {

/// The Gregorian leap-year rule: divisible by 4 and either not
/// divisible by 100 or divisible by 400.
pub open spec fn is_leap_year(year: int) -> bool {
    (year % 4 == 0 && year % 100 != 0) || year % 400 == 0
}

/// Number of days in `year`.
pub open spec fn spec_days_in_year(year: int) -> int {
    if is_leap_year(year) {
        366
    } else {
        365
    }
}

/// Number of days in `month` of `year`; 0 for a month outside 1..=12.
pub open spec fn spec_days_in_month(month: int, year: int) -> int {
    if month == 1 || month == 3 || month == 5 || month == 7 || month == 8 || month == 10
        || month == 12 {
        31
    } else if month == 4 || month == 6 || month == 9 || month == 11 {
        30
    } else if month == 2 {
        if is_leap_year(year) {
            29
        } else {
            28
        }
    } else {
        0
    }
}

/// Days from 1970-01-01 up to the first day of `year` (0 for years at
/// or before 1970).
pub open spec fn days_before_year(year: int) -> int
    decreases year,
{
    if year <= 1970 {
        0
    } else {
        days_before_year(year - 1) + spec_days_in_year(year - 1)
    }
}

/// Days from the first day of `year` up to the first day of `month` of
/// the same year (0 for months at or before January).
pub open spec fn days_before_month(month: int, year: int) -> int
    decreases month,
{
    if month <= 1 {
        0
    } else {
        days_before_month(month - 1, year) + spec_days_in_month(month - 1, year)
    }
}

/// The epoch-second count of the civil instant
/// `year-month-day hour:minute:second`: the inverse direction of the
/// conversion performed by `convert_to_datetime`.
pub open spec fn civil_to_epoch(
    year: int,
    month: int,
    day: int,
    hour: int,
    minute: int,
    second: int,
) -> int {
    (days_before_year(year) + days_before_month(month, year) + (day - 1)) * 86400 + hour * 3600
        + minute * 60 + second
}

/// At least 365 days pass in every year, so the day count before a
/// year grows at least linearly with the year.
proof fn lemma_days_before_year_lower(year: int)
    requires
        1970 <= year,
    ensures
        days_before_year(year) >= 365 * (year - 1970),
    decreases year,
{
    if year > 1970 {
        lemma_days_before_year_lower(year - 1);
    }
}

/// The twelve months of a year together hold exactly the year's days.
proof fn lemma_months_cover_year(year: int)
    ensures
        days_before_month(13, year) == spec_days_in_year(year),
{
    reveal_with_fuel(days_before_month, 13);
}

/// Whether `year` is a leap year, as executable code.
fn leap_year(year: u64) -> (leap: bool)
    ensures
        leap == is_leap_year(year as int),
{
    (year % 4 == 0 && year % 100 != 0) || year % 400 == 0
}

/// Number of days in `month` of `year`; 0 for a month outside 1..=12.
pub fn days_in_month(month: u8, year: u64) -> (days: u64)
    ensures
        days == spec_days_in_month(month as int, year as int),
{
    match month {
        1 | 3 | 5 | 7 | 8 | 10 | 12 => 31,
        4 | 6 | 9 | 11 => 30,
        2 => {
            if leap_year(year) {
                29
            } else {
                28
            }
        },
        _ => 0,
    }
}

/// Converts an epoch-second count to the civil tuple
/// (year, month, day, hour, minute, second) in the proleptic Gregorian
/// calendar, walking years from 1970 and then months from January.
///
/// The conversion is lossless: feeding the result back through
/// `civil_to_epoch` yields `total_seconds` again, for every input.
pub fn convert_to_datetime(total_seconds: u64) -> (r: (u64, u8, u8, u8, u8, u8))
    ensures
        1970 <= r.0,
        1 <= r.1 <= 12,
        1 <= r.2 <= spec_days_in_month(r.1 as int, r.0 as int),
        r.3 < 24,
        r.4 < 60,
        r.5 < 60,
        civil_to_epoch(
            r.0 as int,
            r.1 as int,
            r.2 as int,
            r.3 as int,
            r.4 as int,
            r.5 as int,
        ) == total_seconds as int,
{
    let days_since_epoch: u64 = total_seconds / 86400;
    let seconds_today: u64 = total_seconds % 86400;

    let hours: u8 = (seconds_today / 3600) as u8;
    let minutes: u8 = ((seconds_today % 3600) / 60) as u8;
    let seconds: u8 = (seconds_today % 60) as u8;

    let mut days: u64 = days_since_epoch;
    let mut year: u64 = 1970;
    while days >= 365
        invariant
            1970 <= year,
            days_before_year(year as int) + days == days_since_epoch,
        ensures
            1970 <= year,
            days_before_year(year as int) + days == days_since_epoch,
            days < spec_days_in_year(year as int),
        decreases days,
    {
        let leap: u64 = if leap_year(year) {
            1
        } else {
            0
        };
        let days_in_year_v: u64 = 365 + leap;
        if days < days_in_year_v {
            break ;
        }
        proof {
            lemma_days_before_year_lower(year as int + 1);
        }
        days = days - days_in_year_v;
        year = year + 1;
    }

    let ghost days_in_cur_year: int = days as int;

    let mut month: u8 = 1;
    loop
        invariant
            1 <= month <= 12,
            days_before_month(month as int, year as int) + days == days_in_cur_year,
            days_in_cur_year < spec_days_in_year(year as int),
        ensures
            1 <= month <= 12,
            days_before_month(month as int, year as int) + days == days_in_cur_year,
            days < spec_days_in_month(month as int, year as int),
        decreases 13 - month,
    {
        let dim = days_in_month(month, year);
        if days < dim {
            break ;
        }
        proof {
            lemma_months_cover_year(year as int);
            if month == 12 {
                assert(days_before_month(13, year as int) == days_before_month(12, year as int)
                    + spec_days_in_month(12, year as int));
                assert(false);
            }
        }
        days = days - dim;
        month = month + 1;
    }

    let day: u8 = (days + 1) as u8;
    (year, month, day, hours, minutes, seconds)
}

} // verus!
