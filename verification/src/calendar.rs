//! Days of the proleptic Gregorian calendar as a running count.
//!
//! Day 0 is 1 January 1970. The count of a date is defined from the lengths
//! of years and months; the conversions below compute it, and its inverse,
//! in constant time by working in eras of 400 years that start on 1 March.

use vstd::prelude::*;

verus! {

/// Whether year `y` has a 29 February.
pub open spec fn is_leap_year(y: int) -> bool {
    y % 4 == 0 && (y % 100 != 0 || y % 400 == 0)
}

/// Number of days of month `m` in year `y`.
pub open spec fn days_in_month(y: int, m: int) -> int {
    if m == 2 {
        if is_leap_year(y) { 29 } else { 28 }
    } else if m == 4 || m == 6 || m == 9 || m == 11 {
        30
    } else {
        31
    }
}

/// Whether day `d` of month `m` of year `y` is a date of the calendar.
pub open spec fn is_civil_date(y: int, m: int, d: int) -> bool {
    1 <= m <= 12 && 1 <= d <= days_in_month(y, m)
}

/// Number of leap years among the years 1 to `y - 1`; for `y <= 0` the
/// negated number of leap years among `y` to 0.
pub open spec fn leap_years_before(y: int) -> int {
    (y - 1) / 4 - (y - 1) / 100 + (y - 1) / 400
}

/// Number of days from 1 January 1970 to 1 January of year `y`.
pub open spec fn days_before_year(y: int) -> int {
    365 * (y - 1970) + leap_years_before(y) - leap_years_before(1970)
}

/// Number of days from 1 January of year `y` to the first of month `m`.
pub open spec fn days_before_month(y: int, m: int) -> int
    decreases m,
{
    if m <= 1 {
        0
    } else {
        days_before_month(y, m - 1) + days_in_month(y, m - 1)
    }
}

/// Number of days from 1 January 1970 to the given date; negative before it.
pub open spec fn day_number(y: int, m: int, d: int) -> int {
    days_before_year(y) + days_before_month(y, m) + d - 1
}

/// Adding a multiple of the divisor moves the quotient by the factor and
/// leaves the remainder.
proof fn lemma_add_multiple(x: int, k: int, d: int)
    requires
        d > 0,
    ensures
        (x + k * d) / d == x / d + k,
        (x + k * d) % d == x % d,
{
    vstd::arithmetic::div_mod::lemma_hoist_over_denominator(x, k, d as nat);
    vstd::arithmetic::div_mod::lemma_mod_multiples_vanish(k, x, d);
    assert(d * k + x == x + k * d) by (nonlinear_arith);
}

/// From one number to the next the quotient grows by one exactly at the
/// multiples of the divisor.
proof fn lemma_div_step(y: int, d: int)
    requires
        d > 0,
    ensures
        y / d == (y - 1) / d + if y % d == 0 { 1int } else { 0int },
{
    vstd::arithmetic::div_mod::lemma_fundamental_div_mod(y, d);
    let q = y / d;
    let r = y % d;
    if r == 0 {
        assert(y - 1 == (q - 1) * d + (d - 1)) by (nonlinear_arith)
            requires
                y == d * q + r,
                r == 0,
        ;
        vstd::arithmetic::div_mod::lemma_fundamental_div_mod_converse(y - 1, d, q - 1, d - 1);
    } else {
        assert(y - 1 == q * d + (r - 1)) by (nonlinear_arith)
            requires
                y == d * q + r,
        ;
        vstd::arithmetic::div_mod::lemma_fundamental_div_mod_converse(y - 1, d, q, r - 1);
    }
}

/// A multiple of `a * b` is a multiple of `a`.
proof fn lemma_multiple_of_factor(y: int, a: int, b: int)
    requires
        a > 0,
        b > 0,
        y % (a * b) == 0,
    ensures
        y % a == 0,
{
    assert(a * b > 0) by (nonlinear_arith)
        requires
            a > 0,
            b > 0,
    ;
    vstd::arithmetic::div_mod::lemma_fundamental_div_mod(y, a * b);
    let q = y / (a * b);
    assert(y == (b * q) * a + 0) by (nonlinear_arith)
        requires
            y == (a * b) * q + 0,
    ;
    vstd::arithmetic::div_mod::lemma_fundamental_div_mod_converse(y, a, b * q, 0);
}

/// The days before each month, written out.
pub proof fn lemma_days_before_month(y: int, m: int)
    requires
        1 <= m <= 12,
    ensures
        days_before_month(y, m) == (if m <= 2 {
            31 * (m - 1)
        } else {
            (153 * (m - 3) + 2) / 5 + 59 + if is_leap_year(y) { 1int } else { 0int }
        }),
{
    reveal_with_fuel(days_before_month, 13);
}

/// Number of days from 1 March of year 0 to 1 March of year `y`.
spec fn days_before_march(y: int) -> int {
    365 * y + y / 4 - y / 100 + y / 400
}

/// One more year adds its leap day, if it has one, to the leap years before.
pub proof fn lemma_leap_years_step(y: int)
    ensures
        leap_years_before(y + 1) == leap_years_before(y) + if is_leap_year(y) { 1int } else { 0int },
{
    lemma_div_step(y, 4);
    lemma_div_step(y, 100);
    lemma_div_step(y, 400);
    if y % 100 == 0 {
        lemma_multiple_of_factor(y, 4, 25);
    }
    if y % 400 == 0 {
        lemma_multiple_of_factor(y, 100, 4);
    }
}

/// Counted from 1 March, a year's leap day is its last day, so the day count
/// of a date is the count of the March that begins its year, plus the days
/// since that March, less the days from 1 March of year 0 to 1 January 1970.
proof fn lemma_day_number_from_march(y: int, m: int, d: int)
    requires
        1 <= m <= 12,
    ensures
        day_number(y, m, d) == days_before_march(if m <= 2 { y - 1 } else { y })
            + (153 * (if m > 2 { m - 3 } else { m + 9 }) + 2) / 5 + d - 1 - 719468,
{
    lemma_days_before_month(y, m);
    assert(leap_years_before(1970) == 477);
    if m <= 2 {
        assert(days_before_march(y - 1) == 365 * (y - 1) + leap_years_before(y));
    } else {
        lemma_leap_years_step(y);
        assert(days_before_march(y) == 365 * y + leap_years_before(y + 1));
    }
}

/// Within an era of 400 years the days before a March depend on the year of
/// the era alone, and a whole era has 146097 days.
proof fn lemma_days_before_march_by_era(era: int, yoe: int)
    requires
        0 <= yoe < 400,
    ensures
        days_before_march(era * 400 + yoe) == era * 146097 + yoe * 365 + yoe / 4 - yoe / 100,
{
    lemma_add_multiple(yoe, 100 * era, 4);
    lemma_add_multiple(yoe, 4 * era, 100);
    lemma_add_multiple(yoe, era, 400);
    assert(yoe / 400 == 0);
}

/// Day count of a date, computed in eras of 400 years: the year is taken to
/// start on 1 March, so that the leap day comes last.
pub fn days_from_civil(y: i64, m: i64, d: i64) -> (days: i64)
    requires
        is_civil_date(y as int, m as int, d as int),
        i64::MIN <= day_number(y as int, m as int, d as int) <= i64::MAX,
    ensures
        days == day_number(y as int, m as int, d as int),
{
    let shifted: i128 = if m <= 2 { y as i128 - 1 } else { y as i128 };
    let era: i128 = (if shifted >= 0 { shifted } else { shifted - 399 }) / 400;
    assert(era == shifted as int / 400);
    let yoe: i128 = shifted - era * 400;
    let mp: i128 = if m > 2 { m as i128 - 3 } else { m as i128 + 9 };
    let doy: i128 = (153 * mp + 2) / 5 + d as i128 - 1;
    let doe: i128 = yoe * 365 + yoe / 4 - yoe / 100 + doy;
    proof {
        lemma_day_number_from_march(y as int, m as int, d as int);
        lemma_days_before_march_by_era(era as int, yoe as int);
    }
    let days: i128 = era * 146097 + doe - 719468;
    days as i64
}

/// The date with day count `days`.
pub open spec fn date_of_day(days: int) -> (int, int, int) {
    choose|date: (int, int, int)|
        is_civil_date(date.0, date.1, date.2) && day_number(date.0, date.1, date.2) == days
}

/// Number of days from the March that begins an era to the March that begins
/// year `yoe` of the era.
spec fn days_before_march_in_era(yoe: int) -> int {
    yoe * 365 + yoe / 4 - yoe / 100
}

/// The year of the era in which day `doe` of the era lies.
spec fn year_of_era(doe: int) -> int {
    (doe - doe / 1460 + doe / 36524 - doe / 146096) / 365
}

/// The year of the era that `year_of_era` gives is the one whose days hold
/// the day of the era, and only a year that ends in a leap day has a day 365.
#[verifier::spinoff_prover]
#[verifier::rlimit(40)]
proof fn lemma_year_of_era(doe: int)
    requires
        0 <= doe <= 146096,
    ensures
        0 <= year_of_era(doe) <= 399,
        0 <= doe - days_before_march_in_era(year_of_era(doe)) <= 365,
        doe - days_before_march_in_era(year_of_era(doe)) == 365 ==> (year_of_era(doe) + 1) % 4 == 0
            && ((year_of_era(doe) + 1) % 100 != 0 || year_of_era(doe) == 399),
{
}

/// With a year's start and the leap years before it, a later year starts
/// that many whole years later.
pub proof fn lemma_days_before_year_grows(y1: int, y2: int)
    requires
        y1 <= y2,
    ensures
        days_before_year(y1) + 365 * (y2 - y1) <= days_before_year(y2),
    decreases y2 - y1,
{
    if y1 < y2 {
        lemma_days_before_year_grows(y1, y2 - 1);
        lemma_leap_years_step(y2 - 1);
    }
}

/// A date lies within its year: on or after 1 January and before 1 January
/// of the next year.
pub proof fn lemma_day_number_within_year(y: int, m: int, d: int)
    requires
        is_civil_date(y, m, d),
    ensures
        days_before_year(y) <= day_number(y, m, d) < days_before_year(y + 1),
{
    lemma_days_before_month(y, m);
    lemma_leap_years_step(y);
}

/// A later date has a larger day count.
pub proof fn lemma_day_number_increases(y1: int, m1: int, d1: int, y2: int, m2: int, d2: int)
    requires
        is_civil_date(y1, m1, d1),
        is_civil_date(y2, m2, d2),
        y1 < y2 || (y1 == y2 && (m1 < m2 || (m1 == m2 && d1 < d2))),
    ensures
        day_number(y1, m1, d1) < day_number(y2, m2, d2),
{
    lemma_day_number_within_year(y1, m1, d1);
    lemma_day_number_within_year(y2, m2, d2);
    if y1 < y2 {
        lemma_days_before_year_grows(y1 + 1, y2);
    } else {
        lemma_days_before_month(y1, m1);
        lemma_days_before_month(y2, m2);
    }
}

/// No two dates share a day count.
pub proof fn lemma_day_number_injective(y1: int, m1: int, d1: int, y2: int, m2: int, d2: int)
    requires
        is_civil_date(y1, m1, d1),
        is_civil_date(y2, m2, d2),
        day_number(y1, m1, d1) == day_number(y2, m2, d2),
    ensures
        y1 == y2 && m1 == m2 && d1 == d2,
{
    if y1 < y2 || (y1 == y2 && (m1 < m2 || (m1 == m2 && d1 < d2))) {
        lemma_day_number_increases(y1, m1, d1, y2, m2, d2);
    } else if y2 < y1 || (y2 == y1 && (m2 < m1 || (m2 == m1 && d2 < d1))) {
        lemma_day_number_increases(y2, m2, d2, y1, m1, d1);
    }
}

/// Converting a date to its day count and the count back to a date gives
/// the date that one started from.
pub proof fn lemma_civil_round_trip(y: int, m: int, d: int)
    requires
        is_civil_date(y, m, d),
    ensures
        date_of_day(day_number(y, m, d)) == (y, m, d),
{
    let back = date_of_day(day_number(y, m, d));
    let witness = (y, m, d);
    assert(is_civil_date(witness.0, witness.1, witness.2) && day_number(
        witness.0,
        witness.1,
        witness.2,
    ) == day_number(y, m, d));
    lemma_day_number_injective(back.0, back.1, back.2, y, m, d);
}

/// The month, counted from March as 0, in which day `doy` of a year that
/// starts on 1 March lies.
spec fn month_from_march(doy: int) -> int {
    (5 * doy + 2) / 153
}

/// Number of days from 1 March to the first of the month that is `mp` months
/// after March.
spec fn days_from_march(mp: int) -> int {
    (153 * mp + 2) / 5
}

/// The month that `month_from_march` gives is the one whose days hold the
/// day of the year, and the day of the month that follows is one that the
/// month has.
proof fn lemma_month_from_march(y: int, doy: int)
    requires
        0 <= doy <= 365,
        doy == 365 ==> is_leap_year(y + 1),
    ensures
        0 <= month_from_march(doy) <= 11,
        month_from_march(doy) < 10 ==> is_civil_date(
            y,
            month_from_march(doy) + 3,
            doy - days_from_march(month_from_march(doy)) + 1,
        ),
        month_from_march(doy) >= 10 ==> is_civil_date(
            y + 1,
            month_from_march(doy) - 9,
            doy - days_from_march(month_from_march(doy)) + 1,
        ),
{
    let mp = month_from_march(doy);
    assert(0 <= mp <= 11);
    assert(days_from_march(mp) <= doy < days_from_march(mp + 1));
    if mp == 0 {
    } else if mp == 1 {
    } else if mp == 2 {
    } else if mp == 3 {
    } else if mp == 4 {
    } else if mp == 5 {
    } else if mp == 6 {
    } else if mp == 7 {
    } else if mp == 8 {
    } else if mp == 9 {
    } else if mp == 10 {
    } else {
        assert(days_from_march(11) == 337);
    }
}

/// Leap years repeat every 400 years.
proof fn lemma_leap_year_by_era(era: int, yoe: int)
    ensures
        is_leap_year(era * 400 + yoe) == is_leap_year(yoe),
{
    lemma_add_multiple(yoe, 100 * era, 4);
    lemma_add_multiple(yoe, 4 * era, 100);
    lemma_add_multiple(yoe, era, 400);
}

/// The date with day count `days`, as year, month and day. This is the
/// inverse of [`days_from_civil`].
pub fn civil_from_days(days: i64) -> (date: (i64, i64, i64))
    ensures
        is_civil_date(date.0 as int, date.1 as int, date.2 as int),
        day_number(date.0 as int, date.1 as int, date.2 as int) == days,
        (date.0 as int, date.1 as int, date.2 as int) == date_of_day(days as int),
{
    let z: i128 = days as i128 + 719468;
    let era: i128 = (if z >= 0 { z } else { z - 146096 }) / 146097;
    assert(era == z as int / 146097);
    let doe: i128 = z - era * 146097;
    proof {
        lemma_year_of_era(doe as int);
    }
    let yoe: i128 = (doe - doe / 1460 + doe / 36524 - doe / 146096) / 365;
    assert(yoe == year_of_era(doe as int));
    let doy: i128 = doe - (365 * yoe + yoe / 4 - yoe / 100);
    assert(doy == doe - days_before_march_in_era(yoe as int));
    proof {
        lemma_leap_year_by_era(era as int, yoe as int + 1);
        assert(era * 400 + (yoe + 1) == (era * 400 + yoe) + 1);
        assert(doy == 365 ==> is_leap_year(yoe as int + 1));
        lemma_month_from_march(era * 400 + yoe, doy as int);
    }
    let mp: i128 = (5 * doy + 2) / 153;
    assert(mp == month_from_march(doy as int));
    let d: i128 = doy - (153 * mp + 2) / 5 + 1;
    assert(d == doy - days_from_march(mp as int) + 1);
    let m: i128 = if mp < 10 { mp + 3 } else { mp - 9 };
    let y: i128 = yoe + era * 400 + if m <= 2 { 1i128 } else { 0i128 };
    proof {
        assert(is_civil_date(y as int, m as int, d as int));
        lemma_day_number_from_march(y as int, m as int, d as int);
        lemma_days_before_march_by_era(era as int, yoe as int);
        assert(day_number(y as int, m as int, d as int) == days);
        lemma_civil_round_trip(y as int, m as int, d as int);
    }
    (y as i64, m as i64, d as i64)
}

} // verus!
