//! Civil time: the calendar date and the time of day of an instant.
//!
//! An instant is a number of seconds since 1 January 1970, 00:00:00, already
//! moved by the local offset. Dates follow the proleptic Gregorian calendar.
//! The model is the map from a date and a time of day to that number of
//! seconds; decomposing an instant means finding the one valid civil time that
//! the map sends to it.

use vstd::prelude::*;

verus! {

/// Number of days of any 400 years in a row: 303 years of 365 days and 97
/// of 366.
pub const DAYS_PER_400_YEARS: i64 = 146097;

/// Whether `year` has 366 days: it is divisible by 4 and not by 100, or it is
/// divisible by 400.
pub open spec fn leap(year: int) -> bool {
    (year % 4 == 0 && year % 100 != 0) || year % 400 == 0
}

/// Number of days of `year`.
pub open spec fn year_length(year: int) -> int {
    if leap(year) {
        366
    } else {
        365
    }
}

/// Number of days of the month `month` (1 to 12) of `year`.
pub open spec fn month_length(year: int, month: int) -> int {
    if month == 2 {
        if leap(year) {
            29
        } else {
            28
        }
    } else if month == 4 || month == 6 || month == 9 || month == 11 {
        30
    } else {
        31
    }
}

/// Number of leap years among the years 1 to `year - 1`.
pub open spec fn leap_years_before(year: int) -> int {
    (year - 1) / 4 - (year - 1) / 100 + (year - 1) / 400
}

/// Number of days from 1 January 1970 to 1 January of `year`; negative for a
/// year before 1970.
pub open spec fn days_before_year(year: int) -> int {
    365 * (year - 1970) + leap_years_before(year) - leap_years_before(1970)
}

/// Number of days from 1 January of `year` to the first day of `month`: the
/// lengths of the months before it, added up.
pub open spec fn days_before_month(year: int, month: int) -> int
    decreases month,
{
    if month <= 1 {
        0
    } else {
        days_before_month(year, month - 1) + month_length(year, month - 1)
    }
}

/// Number of days from 1 January 1970 to the given date.
pub open spec fn days_from_civil(year: int, month: int, day: int) -> int {
    days_before_year(year) + days_before_month(year, month) + (day - 1)
}

/// A calendar date with a time of day.
#[derive(Debug, Clone, Copy, PartialEq, Eq, Structural)]
pub struct CivilTime {
    pub year: u64,
    pub month: u8,
    pub day: u8,
    pub hour: u8,
    pub minute: u8,
    pub second: u8,
}

impl CivilTime {
    /// The fields name a day that exists and a time of day on the clock face.
    pub open spec fn is_valid(self) -> bool {
        &&& 1 <= self.month <= 12
        &&& 1 <= self.day <= month_length(self.year as int, self.month as int)
        &&& self.hour < 24
        &&& self.minute < 60
        &&& self.second < 60
    }

    /// Seconds from midnight to the time of day.
    pub open spec fn second_of_day(self) -> int {
        self.hour * 3600 + self.minute * 60 + self.second
    }

    /// Seconds from 1 January 1970, 00:00:00, to this civil time.
    pub open spec fn seconds_since_epoch(self) -> int {
        days_from_civil(self.year as int, self.month as int, self.day as int) * 86400
            + self.second_of_day()
    }
}

/// The civil time of the instant `seconds` after 1 January 1970, 00:00:00:
/// the valid civil time that lies that many seconds after the epoch. There is
/// at most one: see [`lemma_civil_time_unique`].
pub open spec fn civil_time_at(seconds: int) -> CivilTime {
    choose|t: CivilTime| t.is_valid() && t.seconds_since_epoch() == seconds
}

/// The year after `year` begins `year_length(year)` days after `year` does,
/// and 1970 begins on day 0.
pub proof fn lemma_days_before_year_step(year: int)
    ensures
        days_before_year(1970) == 0,
        days_before_year(year + 1) == days_before_year(year) + year_length(year),
{
}

/// Any 400 years in a row have 146097 days, so the year 400 `spans` after
/// 1970 begins 146097 `spans` days after the epoch.
pub proof fn lemma_days_before_400_years(spans: int)
    ensures
        days_before_year(1970 + 400 * spans) == DAYS_PER_400_YEARS * spans,
{
}

/// A later year begins no earlier than the year after `first` does.
pub proof fn lemma_days_before_year_increases(first: int, later: int)
    requires
        first < later,
    ensures
        days_before_year(first) + year_length(first) <= days_before_year(later),
    decreases later - first,
{
    lemma_days_before_year_step(first);
    if first + 1 < later {
        lemma_days_before_year_increases(first + 1, later);
    }
}

/// The twelve months of a year add up to the year, and a later month begins
/// no earlier than the month after `first` does.
pub proof fn lemma_days_before_month_increases(year: int, first: int, later: int)
    requires
        1 <= first < later <= 13,
    ensures
        days_before_month(year, 13) == year_length(year),
        days_before_month(year, first) + month_length(year, first) <= days_before_month(
            year,
            later,
        ),
        0 <= days_before_month(year, first),
{
    reveal_with_fuel(days_before_month, 14);
}

/// A valid date lies within its year.
pub proof fn lemma_day_within_year(year: int, month: int, day: int)
    requires
        1 <= month <= 12,
        1 <= day <= month_length(year, month),
    ensures
        days_before_year(year) <= days_from_civil(year, month, day) < days_before_year(year + 1),
{
    lemma_days_before_month_increases(year, month, 13);
    lemma_days_before_year_step(year);
}

/// Two valid civil times that lie equally many seconds after the epoch are
/// the same civil time.
pub proof fn lemma_civil_time_unique(a: CivilTime, b: CivilTime)
    requires
        a.is_valid(),
        b.is_valid(),
        a.seconds_since_epoch() == b.seconds_since_epoch(),
    ensures
        a == b,
{
    let day_a = days_from_civil(a.year as int, a.month as int, a.day as int);
    let day_b = days_from_civil(b.year as int, b.month as int, b.day as int);
    assert(0 <= a.second_of_day() < 86400);
    assert(0 <= b.second_of_day() < 86400);
    assert(day_a == day_b);
    assert(a.second_of_day() == b.second_of_day());
    assert(a.hour == b.hour && a.minute == b.minute && a.second == b.second);
    lemma_day_within_year(a.year as int, a.month as int, a.day as int);
    lemma_day_within_year(b.year as int, b.month as int, b.day as int);
    if a.year < b.year {
        lemma_days_before_year_step(a.year as int);
        if a.year + 1 < b.year {
            lemma_days_before_year_increases(a.year + 1, b.year as int);
        }
    }
    if b.year < a.year {
        lemma_days_before_year_step(b.year as int);
        if b.year + 1 < a.year {
            lemma_days_before_year_increases(b.year + 1, a.year as int);
        }
    }
    assert(a.year == b.year);
    if a.month < b.month {
        lemma_days_before_month_increases(a.year as int, a.month as int, b.month as int);
    }
    if b.month < a.month {
        lemma_days_before_month_increases(a.year as int, b.month as int, a.month as int);
    }
}

/// A valid civil time on 29 February stands in a leap year.
pub proof fn lemma_leap_day_needs_leap_year(t: CivilTime)
    requires
        t.is_valid(),
        t.month == 2,
        t.day == 29,
    ensures
        leap(t.year as int),
{
}

/// An instant on 29 February of a leap year decomposes to day 29 of month 2
/// of that year. The instant 365 days later decomposes to 28 February of the
/// year after, and so to no 29 February.
pub proof fn lemma_leap_day(year: u64, second_of_day: int)
    requires
        leap(year as int),
        0 <= second_of_day < 86400,
    ensures
        ({
            let instant = days_from_civil(year as int, 2, 29) * 86400 + second_of_day;
            let on_day = civil_time_at(instant);
            let later = civil_time_at(instant + 365 * 86400);
            &&& on_day.is_valid()
            &&& on_day.year == year && on_day.month == 2 && on_day.day == 29
            &&& on_day.second_of_day() == second_of_day
            &&& later.is_valid()
            &&& later.year == year + 1 && later.month == 2 && later.day == 28
            &&& later.second_of_day() == second_of_day
        }),
{
    let instant = days_from_civil(year as int, 2, 29) * 86400 + second_of_day;
    let hour = (second_of_day / 3600) as u8;
    let minute = (second_of_day / 60 % 60) as u8;
    let second = (second_of_day % 60) as u8;
    reveal_with_fuel(days_before_month, 3);
    lemma_days_before_year_step(year as int);
    let first = CivilTime { year, month: 2, day: 29, hour, minute, second };
    assert(first.is_valid());
    assert(first.seconds_since_epoch() == instant);
    lemma_civil_time_unique(first, civil_time_at(instant));
    let second_year = (year + 1) as u64;
    let next = CivilTime { year: second_year, month: 2, day: 28, hour, minute, second };
    assert(next.is_valid());
    assert(next.seconds_since_epoch() == instant + 365 * 86400);
    lemma_civil_time_unique(next, civil_time_at(instant + 365 * 86400));
}

/// Decides whether `year` is a leap year.
pub fn is_leap_year(year: u64) -> (is_leap: bool)
    ensures
        is_leap == leap(year as int),
{
    (year % 4 == 0 && year % 100 != 0) || year % 400 == 0
}

/// Number of days of `year`.
pub fn days_in_year(year: u64) -> (days: u16)
    ensures
        days == year_length(year as int),
{
    if is_leap_year(year) {
        366
    } else {
        365
    }
}

/// Number of days of the month `month` of `year`; 31 for a month outside 1 to 12.
pub fn days_in_month(year: u64, month: u8) -> (days: u8)
    ensures
        days == month_length(year as int, month as int),
{
    if month == 2 {
        if is_leap_year(year) {
            29
        } else {
            28
        }
    } else if month == 4 || month == 6 || month == 9 || month == 11 {
        30
    } else {
        31
    }
}

/// Splits an instant into whole days since the epoch (rounded down) and the
/// second within that day.
fn split_instant(seconds: i128) -> (parts: (i64, u32))
    requires
        -0x8000_0000 <= seconds < 0x1_0000_0000_8000_0000,
    ensures
        parts.0 == seconds / 86400,
        parts.1 == seconds % 86400,
{
    if seconds >= 0 {
        ((seconds / 86400) as i64, (seconds % 86400) as u32)
    } else {
        let back: i128 = -seconds;
        let whole: i64 = (back / 86400) as i64;
        let part: u32 = (back % 86400) as u32;
        if part == 0 {
            (-whole, 0)
        } else {
            (-whole - 1, 86400 - part)
        }
    }
}

/// Finds the year that holds the day `days` (counted from 1 January 1970) and
/// the position of the day within that year, counted from 0. Whole spans of
/// 400 years are passed over at once; the rest is walked year by year.
fn year_of_day(days: i64) -> (found: (u64, u16))
    requires
        -25000 <= days <= 220_000_000_000_000,
    ensures
        days == days_before_year(found.0 as int) + found.1,
        found.1 < year_length(found.0 as int),
{
    let mut year: u64 = 1970;
    let mut remaining: i64 = days;
    if days >= 0 {
        let spans: i64 = days / DAYS_PER_400_YEARS;
        let first: u64 = 1970 + 400 * (spans as u64);
        year = first;
        remaining = days % DAYS_PER_400_YEARS;
        proof {
            lemma_days_before_400_years(spans as int);
        }
        while remaining >= days_in_year(year) as i64
            invariant
                first <= 1_000_000_000_000,
                year >= first,
                0 <= remaining,
                (year - first) + remaining < DAYS_PER_400_YEARS,
                days == days_before_year(year as int) + remaining,
            decreases remaining,
        {
            proof {
                lemma_days_before_year_step(year as int);
            }
            remaining = remaining - days_in_year(year) as i64;
            year = year + 1;
        }
    } else {
        while remaining < 0
            invariant
                year <= 1970,
                -25000 <= days,
                remaining < 366,
                days - remaining <= -365 * (1970 - year),
                days == days_before_year(year as int) + remaining,
                remaining >= 0 ==> remaining < year_length(year as int),
            decreases year,
        {
            year = year - 1;
            proof {
                lemma_days_before_year_step(year as int);
            }
            remaining = remaining + days_in_year(year) as i64;
        }
    }
    (year, remaining as u16)
}

/// Finds the month of `year` that holds the day at position `day_of_year`
/// (counted from 0) and the day of that month, counted from 1.
fn month_of_day(year: u64, day_of_year: u16) -> (found: (u8, u8))
    requires
        day_of_year < year_length(year as int),
    ensures
        1 <= found.0 <= 12,
        1 <= found.1 <= month_length(year as int, found.0 as int),
        day_of_year == days_before_month(year as int, found.0 as int) + (found.1 - 1),
{
    let mut month: u8 = 1;
    let mut remaining: u16 = day_of_year;
    while remaining >= days_in_month(year, month) as u16
        invariant
            1 <= month <= 12,
            day_of_year < year_length(year as int),
            day_of_year == days_before_month(year as int, month as int) + remaining,
        decreases 12 - month,
    {
        proof {
            lemma_days_before_month_increases(year as int, month as int, 13);
            assert(days_before_month(year as int, month + 1) == days_before_month(
                year as int,
                month as int,
            ) + month_length(year as int, month as int));
        }
        remaining = remaining - days_in_month(year, month) as u16;
        month = month + 1;
    }
    (month, (remaining + 1) as u8)
}

/// Decomposes the instant `unix_seconds` after the epoch, moved by
/// `offset_seconds`, into its calendar date and time of day.
pub fn civil_from_unix(unix_seconds: u64, offset_seconds: i32) -> (t: CivilTime)
    ensures
        t.is_valid(),
        t.seconds_since_epoch() == unix_seconds + offset_seconds,
        t == civil_time_at(unix_seconds + offset_seconds),
        t.month == 2 && t.day == 29 ==> leap(t.year as int),
{
    let local: i128 = unix_seconds as i128 + offset_seconds as i128;
    let (days, second_of_day) = split_instant(local);
    let (year, day_of_year) = year_of_day(days);
    let (month, day) = month_of_day(year, day_of_year);
    let t = CivilTime {
        year,
        month,
        day,
        hour: (second_of_day / 3600) as u8,
        minute: (second_of_day / 60 % 60) as u8,
        second: (second_of_day % 60) as u8,
    };
    proof {
        assert(t.is_valid());
        assert(t.second_of_day() == second_of_day);
        assert(t.seconds_since_epoch() == local);
        lemma_civil_time_unique(t, civil_time_at(local as int));
    }
    t
}

} // verus!
