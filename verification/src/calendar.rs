//! Conversion from whole minutes since the Unix epoch to the calendar
//! fields a schedule is matched against (minute, hour, day of month,
//! month, day of week), using the proleptic Gregorian rules.

use vstd::prelude::*;

verus! {

/// The calendar reading of one minute: what a `When` is matched
/// against. Day of week is 0 through 6 with 0 meaning Sunday.
#[derive(Debug, Clone, Copy, PartialEq, Eq, Structural)]
pub struct TimeFields {
    pub minute: usize,
    pub hour: usize,
    pub day_of_month: usize,
    pub month: usize,
    pub day_of_week: usize,
}

/// Gregorian leap-year rule.
pub open spec fn is_leap_year(y: int) -> bool {
    y % 4 == 0 && (y % 100 != 0 || y % 400 == 0)
}

pub open spec fn spec_days_in_year(y: int) -> int {
    if is_leap_year(y) {
        366
    } else {
        365
    }
}

/// Days of month `m` of year `y`; months beyond December never arise
/// and get a harmless nonzero value so the function stays total.
pub open spec fn spec_days_in_month(y: int, m: int) -> int {
    if m == 2 {
        if is_leap_year(y) {
            29
        } else {
            28
        }
    } else if m == 4 || m == 6 || m == 9 || m == 11 {
        30
    } else {
        31
    }
}

/// Days in months `m` through December of year `y`.
pub open spec fn days_left_in_year(y: int, m: int) -> int
    decreases 13 - m,
    when m <= 13
{
    if m >= 13 {
        0
    } else {
        spec_days_in_month(y, m) + days_left_in_year(y, m + 1)
    }
}

/// The twelve months make up the year exactly.
pub proof fn lemma_months_fill_year(y: int)
    ensures
        days_left_in_year(y, 1) == spec_days_in_year(y),
{
    reveal_with_fuel(days_left_in_year, 14);
}

/// Year containing the day `days` days after the start of year `y`, and
/// the day's offset within that year.
pub open spec fn year_and_rem(days: int, y: int) -> (int, int)
    decreases days,
    when days >= 0
{
    if days < spec_days_in_year(y) {
        (y, days)
    } else {
        year_and_rem(days - spec_days_in_year(y), y + 1)
    }
}

/// Month containing the day `days` days after the start of month `m` of
/// year `y`, and the one-based day of that month.
pub open spec fn month_and_day(y: int, days: int, m: int) -> (int, int)
    decreases days,
    when days >= 0
{
    if days < spec_days_in_month(y, m) {
        (m, days + 1)
    } else {
        month_and_day(y, days - spec_days_in_month(y, m), m + 1)
    }
}

/// The calendar reading of minute `t` since the Unix epoch, which
/// began on a Thursday (so day-of-week 0, Sunday, falls 4 days later).
pub open spec fn spec_time_fields(t: int) -> TimeFields {
    let days = t / 1440;
    let yr = year_and_rem(days, 1970);
    let md = month_and_day(yr.0, yr.1, 1);
    TimeFields {
        minute: (t % 60) as usize,
        hour: ((t / 60) % 24) as usize,
        day_of_month: md.1 as usize,
        month: md.0 as usize,
        day_of_week: ((days + 4) % 7) as usize,
    }
}

fn is_leap(y: u64) -> (b: bool)
    ensures
        b == is_leap_year(y as int),
{
    y % 4 == 0 && (y % 100 != 0 || y % 400 == 0)
}

fn days_in_year(y: u64) -> (d: u64)
    ensures
        d == spec_days_in_year(y as int),
{
    if is_leap(y) {
        366
    } else {
        365
    }
}

fn days_in_month(y: u64, m: u64) -> (d: u64)
    ensures
        d == spec_days_in_month(y as int, m as int),
{
    if m == 2 {
        if is_leap(y) {
            29
        } else {
            28
        }
    } else if m == 4 || m == 6 || m == 9 || m == 11 {
        30
    } else {
        31
    }
}

/// Converts a whole minute since the Unix epoch to its calendar
/// reading.
pub fn time_fields_of_minute(t: u64) -> (tf: TimeFields)
    ensures
        tf == spec_time_fields(t as int),
{
    let minute = (t % 60) as usize;
    let hour = ((t / 60) % 24) as usize;
    let days: u64 = t / 1440;
    let dow = ((days + 4) % 7) as usize;
    let mut y: u64 = 1970;
    let mut d: u64 = days;
    while d >= days_in_year(y)
        invariant
            year_and_rem(days as int, 1970) == year_and_rem(d as int, y as int),
            y >= 1970,
            (y - 1970) * 365 <= days - d,
            d <= days,
        decreases d,
    {
        d = d - days_in_year(y);
        y = y + 1;
    }
    proof {
        assert(year_and_rem(d as int, y as int) == (y as int, d as int));
        lemma_months_fill_year(y as int);
    }
    let mut m: u64 = 1;
    let ghost d_year: u64 = d;
    while d >= days_in_month(y, m)
        invariant
            1 <= m <= 12,
            (d as int) < days_left_in_year(y as int, m as int),
            month_and_day(y as int, d_year as int, 1) == month_and_day(y as int, d as int, m as int),
        decreases d,
    {
        proof {
            assert(days_left_in_year(y as int, m as int) == spec_days_in_month(y as int, m as int)
                + days_left_in_year(y as int, m as int + 1));
            if m == 12 {
                assert(days_left_in_year(y as int, 13) == 0);
            }
        }
        d = d - days_in_month(y, m);
        m = m + 1;
    }
    TimeFields {
        minute,
        hour,
        day_of_month: (d + 1) as usize,
        month: m as usize,
        day_of_week: dow,
    }
}

} // verus!
