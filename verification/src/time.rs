//! Civil timestamps: calendar validity, day-of-week, and integer date keys.
//!
//! A [`Timestamp`] is a local civil time with minute resolution, exactly what
//! one row of the input series carries. No time zone is attached: the tariff
//! rules read the timestamp as the tariff's own local time.

use vstd::prelude::*;

verus! {

/// A calendar date in the proleptic Gregorian calendar.
#[derive(Clone, Copy, Debug, PartialEq, Eq, Structural)]
pub struct Date {
    pub year: i32,
    pub month: u32,
    pub day: u32,
}

/// A local civil timestamp with minute resolution.
#[derive(Clone, Copy, Debug, PartialEq, Eq, Structural)]
pub struct Timestamp {
    pub year: i32,
    pub month: u32,
    pub day: u32,
    pub hour: u32,
    pub minute: u32,
}

/// Whether `y` is a leap year of the Gregorian calendar.
pub open spec fn is_leap_year(y: int) -> bool {
    (y % 4 == 0 && y % 100 != 0) || y % 400 == 0
}

/// Number of days in month `m` of year `y` (`m` between 1 and 12).
pub open spec fn days_in_month(y: int, m: int) -> int {
    if m == 2 {
        if is_leap_year(y) { 29 } else { 28 }
    } else if m == 4 || m == 6 || m == 9 || m == 11 {
        30
    } else {
        31
    }
}

/// A well-formed calendar date. Years are limited to four digits because the
/// input format writes the year with exactly four digits.
pub open spec fn date_valid(y: int, m: int, d: int) -> bool {
    &&& 0 <= y <= 9999
    &&& 1 <= m <= 12
    &&& 1 <= d <= days_in_month(y, m)
}

impl Date {
    /// A well-formed date value.
    pub open spec fn valid(self) -> bool {
        date_valid(self.year as int, self.month as int, self.day as int)
    }

    /// The date packed into one integer, ordered chronologically.
    pub open spec fn key(self) -> int {
        pack_date_key(self.year as int, self.month as int, self.day as int)
    }
}

impl Timestamp {
    /// A well-formed timestamp: a valid date with an in-range time of day.
    pub open spec fn valid(self) -> bool {
        &&& date_valid(self.year as int, self.month as int, self.day as int)
        &&& self.hour < 24
        &&& self.minute < 60
    }

    /// The timestamp's date packed into one integer, ordered chronologically.
    pub open spec fn date_key(self) -> int {
        pack_date_key(self.year as int, self.month as int, self.day as int)
    }

    /// The timestamp's month packed into one integer, ordered chronologically.
    pub open spec fn month_key(self) -> int {
        pack_month_key(self.year as int, self.month as int)
    }
}

/// Packs a date into a single integer that orders dates chronologically.
pub open spec fn pack_date_key(y: int, m: int, d: int) -> int {
    y * 10000 + m * 100 + d
}

/// Packs a year and month into a single integer ordered chronologically.
pub open spec fn pack_month_key(y: int, m: int) -> int {
    y * 100 + m
}

/// The month key of the month a date key falls in.
pub open spec fn month_key_of_date_key(dk: int) -> int {
    dk / 100
}

/// On valid dates the packed date key recovers its month key by division.
pub proof fn lemma_date_key_month(y: int, m: int, d: int)
    requires
        date_valid(y, m, d),
    ensures
        month_key_of_date_key(pack_date_key(y, m, d)) == pack_month_key(y, m),
{
    assert(pack_date_key(y, m, d) == (y * 100 + m) * 100 + d) by (nonlinear_arith);
    assert(((y * 100 + m) * 100 + d) / 100 == y * 100 + m) by (nonlinear_arith)
        requires 0 <= d < 100, 0 <= y * 100 + m;
}

/// Packing valid dates into date keys is injective.
pub proof fn lemma_date_key_injective(y1: int, m1: int, d1: int, y2: int, m2: int, d2: int)
    requires
        date_valid(y1, m1, d1),
        date_valid(y2, m2, d2),
        pack_date_key(y1, m1, d1) == pack_date_key(y2, m2, d2),
    ensures
        y1 == y2 && m1 == m2 && d1 == d2,
{
}

/// Days elapsed since an arbitrary fixed epoch, counted in the proleptic
/// Gregorian calendar. The year is shifted by 400 (one full leap cycle of
/// 146097 days, a multiple of 7) so every intermediate value is non-negative;
/// the shift leaves the day of the week unchanged.
pub open spec fn day_number(y: int, m: int, d: int) -> int {
    let yy = if m <= 2 { y + 399 } else { y + 400 };
    let mp = if m <= 2 { m + 9 } else { m - 3 };
    let era = yy / 400;
    let yoe = yy % 400;
    let doy = (153 * mp + 2) / 5 + d - 1;
    let doe = yoe * 365 + yoe / 4 - yoe / 100 + doy;
    era * 146097 + doe
}

/// Day of the week of a date, counted from Monday: 0 is Monday, 6 is Sunday.
pub open spec fn weekday_spec(y: int, m: int, d: int) -> int {
    (day_number(y, m, d) + 2) % 7
}

/// Day of the week of a valid date, counted from Monday (0) to Sunday (6).
pub fn weekday_from_monday(y: i32, m: u32, d: u32) -> (w: u32)
    requires
        date_valid(y as int, m as int, d as int),
    ensures
        w == weekday_spec(y as int, m as int, d as int),
        w < 7,
{
    let yy: u64 = if m <= 2 { (y + 399) as u64 } else { (y + 400) as u64 };
    let mp: u64 = if m <= 2 { (m + 9) as u64 } else { (m - 3) as u64 };
    let era: u64 = yy / 400;
    let yoe: u64 = yy % 400;
    let doy: u64 = (153 * mp + 2) / 5 + (d as u64) - 1;
    let doe: u64 = yoe * 365 + yoe / 4 - yoe / 100 + doy;
    let dn: u64 = era * 146097 + doe;
    ((dn + 2) % 7) as u32
}

/// The packed date key of a valid date, as an executable value.
pub fn date_key_of(y: i32, m: u32, d: u32) -> (k: i64)
    requires
        date_valid(y as int, m as int, d as int),
    ensures
        k == pack_date_key(y as int, m as int, d as int),
{
    (y as i64) * 10000 + (m as i64) * 100 + (d as i64)
}

/// The packed month key of a valid date, as an executable value.
pub fn month_key_of(y: i32, m: u32) -> (k: i64)
    requires
        0 <= y <= 9999,
        1 <= m <= 12,
    ensures
        k == pack_month_key(y as int, m as int),
{
    (y as i64) * 100 + (m as i64)
}

} // verus!
