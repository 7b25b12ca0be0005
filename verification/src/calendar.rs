//! Unix times as Gregorian calendar dates and clock times (UTC), for the
//! labels of a chart's time axis.

use vstd::prelude::*;

verus! {

/// Whether `y` is a leap year of the proleptic Gregorian calendar.
pub open spec fn is_leap(y: int) -> bool {
    y % 4 == 0 && (y % 100 != 0 || y % 400 == 0)
}

/// The days of year `y`.
pub open spec fn year_len(y: int) -> int {
    if is_leap(y) {
        366
    } else {
        365
    }
}

/// Leap years among the years `1..=n` (counted with floor division, so the
/// differences of this count are right for any years).
pub open spec fn leaps_through(n: int) -> int {
    n / 4 - n / 100 + n / 400
}

/// The day number of January 1st of year `y`, counting 1970-01-01 as day 0:
/// 365 days a year plus one for each leap year in between.
pub open spec fn days_to_year(y: int) -> int {
    365 * (y - 1970) + leaps_through(y - 1) - leaps_through(1969)
}

/// The days of month `m` (1 to 12) of year `y`.
pub open spec fn month_len(y: int, m: int) -> int {
    if m == 2 {
        if is_leap(y) {
            29
        } else {
            28
        }
    } else if m == 4 || m == 6 || m == 9 || m == 11 {
        30
    } else {
        31
    }
}

/// The days of year `y` before month `m`.
pub open spec fn days_before_month(y: int, m: int) -> int
    decreases m,
{
    if m <= 1 {
        0
    } else {
        days_before_month(y, m - 1) + month_len(y, m - 1)
    }
}

/// The day number of the date `y-m-d` (1970-01-01 is day 0).
pub open spec fn days_from_civil(y: int, m: int, d: int) -> int {
    days_to_year(y) + days_before_month(y, m) + d - 1
}

/// Whether `y-m-d` is a date of the calendar.
pub open spec fn valid_date(y: int, m: int, d: int) -> bool {
    1 <= m <= 12 && 1 <= d <= month_len(y, m)
}

/// Floor division by 4 steps up exactly at multiples of 4.
proof fn lemma_step_4(y: int)
    ensures
        (y / 4) - ((y - 1) / 4) == if y % 4 == 0 { 1int } else { 0int },
{
}

/// Floor division by 100 steps up exactly at multiples of 100.
proof fn lemma_step_100(y: int)
    ensures
        (y / 100) - ((y - 1) / 100) == if y % 100 == 0 { 1int } else { 0int },
{
}

/// Floor division by 400 steps up exactly at multiples of 400.
proof fn lemma_step_400(y: int)
    ensures
        (y / 400) - ((y - 1) / 400) == if y % 400 == 0 { 1int } else { 0int },
        y % 400 == 0 ==> y % 100 == 0,
        y % 100 == 0 ==> y % 4 == 0,
{
}

/// A year's count of leap years grows by one exactly at a leap year.
proof fn lemma_leaps_step(y: int)
    ensures
        leaps_through(y) - leaps_through(y - 1) == if is_leap(y) { 1int } else { 0int },
{
    lemma_step_4(y);
    lemma_step_100(y);
    lemma_step_400(y);
}

/// Law: consecutive years start a year's length apart, so [`days_to_year`]
/// counts the calendar's days (and 1970-01-01 is day 0).
pub proof fn law_year_lengths(y: int)
    ensures
        days_to_year(y + 1) - days_to_year(y) == year_len(y),
        days_to_year(1970) == 0,
{
    lemma_leaps_step(y);
}

/// The months of a year add up to the year.
proof fn lemma_months_fill_year(y: int)
    ensures
        days_before_month(y, 13) == year_len(y),
        forall|m: int| 1 <= m <= 12 ==> #[trigger] days_before_month(y, m + 1) == days_before_month(y, m) + month_len(y, m),
        days_before_month(y, 1) == 0,
{
    reveal_with_fuel(days_before_month, 13);
}

/// A multiple of 400 years that makes every year handled here positive.
pub const YEAR_SHIFT: u128 = 40_000_000_000_000;

/// Whether year `y` is a leap year.
fn leap_exec(y: i128) -> (r: bool)
    requires
        -10_000_000_000_000 <= y <= 10_000_000_000_000,
    ensures
        r == is_leap(y as int),
{
    let u = (y + YEAR_SHIFT as i128) as u128;
    assert((u as int) % 4 == (y as int) % 4);
    assert((u as int) % 100 == (y as int) % 100);
    assert((u as int) % 400 == (y as int) % 400);
    u % 4 == 0 && (u % 100 != 0 || u % 400 == 0)
}

/// The day number of January 1st of year `y`; see [`days_to_year`].
fn days_to_year_exec(y: i128) -> (r: i128)
    requires
        -10_000_000_000_000 <= y <= 10_000_000_000_000,
    ensures
        r == days_to_year(y as int),
{
    let u = (y - 1 + YEAR_SHIFT as i128) as u128;
    let ghost n = (y - 1) as int;
    let ghost s = YEAR_SHIFT as int;
    assert((u as int) / 4 == n / 4 + s / 4);
    assert((u as int) / 100 == n / 100 + s / 100);
    assert((u as int) / 400 == n / 400 + s / 400);
    let leaps = (u / 4) as i128 - (u / 100) as i128 + (u / 400) as i128
        - (YEAR_SHIFT / 4) as i128 + (YEAR_SHIFT / 100) as i128 - (YEAR_SHIFT / 400) as i128;
    assert(leaps == leaps_through(n));
    365 * (y - 1970) + leaps - 477
}

/// The days of the year before month `m`, in a leap year or not.
fn days_before_month_exec(leap: bool, m: u32) -> (r: u32)
    requires
        1 <= m <= 12,
    ensures
        forall|y: int| is_leap(y) == leap ==> r == days_before_month(y, m as int),
{
    proof {
        reveal_with_fuel(days_before_month, 13);
    }
    let extra: u32 = if leap && m > 2 {
        1
    } else {
        0
    };
    let base: u32 = match m {
        1 => 0,
        2 => 31,
        3 => 59,
        4 => 90,
        5 => 120,
        6 => 151,
        7 => 181,
        8 => 212,
        9 => 243,
        10 => 273,
        11 => 304,
        _ => 334,
    };
    base + extra
}

/// The day numbers of the years near `y` lie within a few days of
/// 365.2425 days a year.
proof fn lemma_days_to_year_near(y: int)
    ensures
        400 * days_to_year(y) <= 146097 * (y - 1970) + 1600,
        400 * days_to_year(y) >= 146097 * (y - 1970) - 1600,
{
}

/// The date of day number `z` (1970-01-01 is day 0).
fn civil_from_days(z: i64) -> (r: (i64, u32, u32))
    requires
        -200_000_000_000_000 <= z <= 200_000_000_000_000,
    ensures
        valid_date(r.0 as int, r.1 as int, r.2 as int),
        days_from_civil(r.0 as int, r.1 as int, r.2 as int) == z,
{
    let zi = z as i128;
    // a first guess at the year, 146097 days to 400 years
    let shifted = (zi + 146097 * 1_000_000_000_000) as u128;
    let mut y: i128 = 1970 + 400 * ((shifted / 146097) as i128) - 400 * 1_000_000_000_000;
    proof {
        assert(-1_000_000_000_000 <= y <= 1_000_000_000_000);
    }
    while days_to_year_exec(y) > zi
        invariant
            -2_000_000_000_000 <= y <= 1_000_000_000_000,
            zi == z,
            -200_000_000_000_000 <= z <= 200_000_000_000_000,
        decreases y + 3_000_000_000_000,
    {
        proof {
            lemma_days_to_year_near(y as int);
            law_year_lengths(y - 1);
        }
        y = y - 1;
    }
    while days_to_year_exec(y + 1) <= zi
        invariant
            -2_000_000_000_000 <= y <= 2_000_000_000_000,
            zi == z,
            -200_000_000_000_000 <= z <= 200_000_000_000_000,
            days_to_year(y as int) <= z,
        decreases 3_000_000_000_000 - y,
    {
        proof {
            lemma_days_to_year_near(y + 1);
            law_year_lengths(y as int);
        }
        y = y + 1;
    }
    proof {
        law_year_lengths(y as int);
        lemma_months_fill_year(y as int);
    }
    let doy = (zi - days_to_year_exec(y)) as u32;
    let leap = leap_exec(y);
    let mut m: u32 = 1;
    while m < 12 && days_before_month_exec(leap, m + 1) <= doy
        invariant
            1 <= m <= 12,
            leap == is_leap(y as int),
            days_before_month(y as int, m as int) <= doy,
            (doy as int) < year_len(y as int),
            days_before_month(y as int, 13) == year_len(y as int),
            forall|k: int| 1 <= k <= 12 ==> #[trigger] days_before_month(y as int, k + 1) == days_before_month(y as int, k) + month_len(y as int, k),
        decreases 12 - m,
    {
        m = m + 1;
    }
    let d = doy - days_before_month_exec(leap, m) + 1;
    (y as i64, m, d)
}

/// Whole days added to a Unix time to make it positive.
pub const DAY_SHIFT: u128 = 110_000_000_000_000;

/// The UTC date and time of day of Unix time `secs` (whole seconds):
/// `(year, month, day, hour, minute, second)`.
pub fn breakdown_secs(secs: i64) -> (r: (i64, u32, u32, u32, u32, u32))
    ensures
        valid_date(r.0 as int, r.1 as int, r.2 as int),
        r.3 < 24 && r.4 < 60 && r.5 < 60,
        days_from_civil(r.0 as int, r.1 as int, r.2 as int) * 86400 + r.3 * 3600 + r.4 * 60 + r.5 == secs,
{
    let shifted = (secs as i128 + 86400 * DAY_SHIFT as i128) as u128;
    let days = (shifted / 86400) as i128 - DAY_SHIFT as i128;
    let tod = (shifted % 86400) as u32;
    assert(days * 86400 + tod == secs);
    let (y, m, d) = civil_from_days(days as i64);
    (y, m, d, tod / 3600, (tod % 3600) / 60, tod % 60)
}

/// Later years start later.
proof fn lemma_years_increase(a: int, b: int)
    requires
        a <= b,
    ensures
        days_to_year(a) <= days_to_year(b),
    decreases b - a,
{
    if a < b {
        law_year_lengths(b - 1);
        lemma_years_increase(a, b - 1);
    }
}

/// Later months start later in the year.
proof fn lemma_months_increase(y: int, m: int, k: int)
    requires
        1 <= m <= k <= 13,
    ensures
        days_before_month(y, m) <= days_before_month(y, k),
    decreases k - m,
{
    lemma_months_fill_year(y);
    if m < k {
        lemma_months_increase(y, m, k - 1);
        assert(days_before_month(y, k) == days_before_month(y, k - 1) + month_len(y, k - 1));
    }
}

/// A date's day number lies within its year.
proof fn lemma_date_in_year(y: int, m: int, d: int)
    requires
        valid_date(y, m, d),
    ensures
        days_to_year(y) <= days_from_civil(y, m, d) < days_to_year(y + 1),
{
    lemma_months_fill_year(y);
    law_year_lengths(y);
    lemma_months_increase(y, 1, m);
    lemma_months_increase(y, m + 1, 13);
    assert(days_before_month(y, m + 1) == days_before_month(y, m) + month_len(y, m));
}

/// Law: a day number has one date: two dates of the calendar with the same
/// day number are the same date (so a breakdown's date is the date).
pub proof fn law_one_date_per_day(y1: int, m1: int, d1: int, y2: int, m2: int, d2: int)
    requires
        valid_date(y1, m1, d1),
        valid_date(y2, m2, d2),
        days_from_civil(y1, m1, d1) == days_from_civil(y2, m2, d2),
    ensures
        y1 == y2 && m1 == m2 && d1 == d2,
{
    lemma_date_in_year(y1, m1, d1);
    lemma_date_in_year(y2, m2, d2);
    if y1 < y2 {
        lemma_years_increase(y1 + 1, y2);
    } else if y2 < y1 {
        lemma_years_increase(y2 + 1, y1);
    }
    assert(y1 == y2);
    lemma_months_fill_year(y1);
    if m1 < m2 {
        lemma_months_increase(y1, m1 + 1, m2);
        assert(days_before_month(y1, m1 + 1) == days_before_month(y1, m1) + month_len(y1, m1));
    } else if m2 < m1 {
        lemma_months_increase(y1, m2 + 1, m1);
        assert(days_before_month(y1, m2 + 1) == days_before_month(y1, m2) + month_len(y1, m2));
    }
}

} // verus!
