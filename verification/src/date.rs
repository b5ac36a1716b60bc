//! Calendar dates as plain year/month/day values, with the Gregorian
//! validity rule and the calendar (lexicographic) order used to sort the
//! golf-day list.

use vstd::prelude::*;

verus! {

/// A calendar date. The parsers only construct valid dates (see
/// [`Date::is_valid`]); years are limited to four decimal digits because
/// both accepted text formats write the year with exactly four digits.
#[derive(Clone, Copy, Debug, PartialEq, Eq, Structural)]
pub struct Date {
    pub year: u32,
    pub month: u32,
    pub day: u32,
}

/// The Gregorian leap-year rule.
pub open spec fn spec_is_leap_year(year: u32) -> bool {
    year % 4 == 0 && (year % 100 != 0 || year % 400 == 0)
}

/// Number of days in a month of a given year; 0 for an out-of-range month.
pub open spec fn spec_days_in_month(year: u32, month: u32) -> u32 {
    if month == 1 || month == 3 || month == 5 || month == 7 || month == 8 || month == 10
        || month == 12 {
        31
    } else if month == 4 || month == 6 || month == 9 || month == 11 {
        30
    } else if month == 2 {
        if spec_is_leap_year(year) {
            29
        } else {
            28
        }
    } else {
        0
    }
}

impl Date {
    /// A date is valid when its month exists, its day fits the month, and
    /// its year has at most four decimal digits.
    pub open spec fn is_valid(self) -> bool {
        &&& self.year <= 9999
        &&& 1 <= self.month <= 12
        &&& 1 <= self.day <= spec_days_in_month(self.year, self.month)
    }
}

/// Calendar order: year, then month, then day.
pub open spec fn date_le(a: Date, b: Date) -> bool {
    if a.year != b.year {
        a.year < b.year
    } else if a.month != b.month {
        a.month < b.month
    } else {
        a.day <= b.day
    }
}

/// A date list is sorted when every pair of entries is in calendar order.
pub open spec fn dates_sorted(s: Seq<Date>) -> bool {
    forall|i: int, j: int| 0 <= i < j < s.len() ==> date_le(s[i], s[j])
}

pub fn is_leap_year(year: u32) -> (r: bool)
    ensures
        r == spec_is_leap_year(year),
{
    year % 4 == 0 && (year % 100 != 0 || year % 400 == 0)
}

pub fn days_in_month(year: u32, month: u32) -> (r: u32)
    ensures
        r == spec_days_in_month(year, month),
{
    if month == 1 || month == 3 || month == 5 || month == 7 || month == 8 || month == 10
        || month == 12 {
        31
    } else if month == 4 || month == 6 || month == 9 || month == 11 {
        30
    } else if month == 2 {
        if is_leap_year(year) {
            29
        } else {
            28
        }
    } else {
        0
    }
}

impl Date {
    pub fn valid(&self) -> (r: bool)
        ensures
            r == self.is_valid(),
    {
        self.year <= 9999 && 1 <= self.month && self.month <= 12 && 1 <= self.day
            && self.day <= days_in_month(self.year, self.month)
    }
}

pub fn date_before_eq(a: &Date, b: &Date) -> (r: bool)
    ensures
        r == date_le(*a, *b),
{
    if a.year != b.year {
        a.year < b.year
    } else if a.month != b.month {
        a.month < b.month
    } else {
        a.day <= b.day
    }
}

/// Calendar order is a total order on dates: reflexive, antisymmetric,
/// transitive, and any two dates are comparable.
pub proof fn lemma_date_le_total()
    ensures
        forall|a: Date| #[trigger] date_le(a, a),
        forall|a: Date, b: Date| #[trigger] date_le(a, b) && #[trigger] date_le(b, a) ==> a == b,
        forall|a: Date, b: Date, c: Date|
            #[trigger] date_le(a, b) && #[trigger] date_le(b, c) ==> date_le(a, c),
        forall|a: Date, b: Date| #[trigger] date_le(a, b) || #[trigger] date_le(b, a),
{
}

} // verus!
