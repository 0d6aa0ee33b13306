//! The proleptic Gregorian calendar as a mathematical model.
//!
//! Everything here is specification: a day is a triple of unbounded integers,
//! and the functions say which triples are dates, how dates are ordered and
//! which date follows which.

use vstd::prelude::*;

verus! {

/// The earliest year a date can carry.
pub const MIN_YEAR: i32 = -262143;

/// The latest year a date can carry.
pub const MAX_YEAR: i32 = 262142;

/// Year, month and day of month as unbounded integers.
pub struct Ymd {
    pub year: int,
    pub month: int,
    pub day: int,
}

/// The triple `(year, month, day)`.
pub open spec fn ymd(year: int, month: int, day: int) -> Ymd {
    Ymd { year, month, day }
}

/// Leap years are the multiples of 4 that are not multiples of 100, and the
/// multiples of 400. Year 0 and negative years follow the same rule.
pub open spec fn is_leap_year(year: int) -> bool {
    year % 4 == 0 && (year % 100 != 0 || year % 400 == 0)
}

/// Number of days of a month, for months 1 to 12.
pub open spec fn days_in_month(year: int, month: int) -> int {
    if month == 2 {
        if is_leap_year(year) {
            29
        } else {
            28
        }
    } else if month == 4 || month == 6 || month == 9 || month == 11 {
        30
    } else {
        31
    }
}

impl Ymd {
    /// The triple names a day that exists in the calendar, within the
    /// supported years.
    pub open spec fn is_date(self) -> bool {
        &&& MIN_YEAR <= self.year <= MAX_YEAR
        &&& 1 <= self.month <= 12
        &&& 1 <= self.day <= days_in_month(self.year, self.month)
    }

    /// Strict chronological order: by year, then month, then day.
    pub open spec fn is_before(self, other: Ymd) -> bool {
        self.year < other.year || (self.year == other.year && (self.month < other.month || (
        self.month == other.month && self.day < other.day)))
    }

    /// The last date within the supported years.
    pub open spec fn is_last(self) -> bool {
        self.year == MAX_YEAR && self.month == 12 && self.day == 31
    }

    /// The next calendar day.
    pub open spec fn succ(self) -> Ymd {
        if self.day < days_in_month(self.year, self.month) {
            Ymd { year: self.year, month: self.month, day: self.day + 1 }
        } else if self.month < 12 {
            Ymd { year: self.year, month: self.month + 1, day: 1 }
        } else {
            Ymd { year: self.year + 1, month: 1, day: 1 }
        }
    }

    /// A number that identifies a date and grows with the chronological
    /// order. Consecutive dates need not have consecutive keys.
    pub open spec fn key(self) -> int {
        (self.year - MIN_YEAR) * 372 + (self.month - 1) * 31 + (self.day - 1)
    }
}

/// One more than the largest key of a date.
pub const KEY_LIMIT: u64 = 195034392;

/// The key of a date is below `KEY_LIMIT`, and no two dates share a key.
pub proof fn lemma_key_identifies(a: Ymd, b: Ymd)
    requires
        a.is_date(),
        b.is_date(),
    ensures
        0 <= a.key() < KEY_LIMIT,
        a.key() == b.key() <==> a == b,
        a.key() < b.key() <==> a.is_before(b),
{
}

/// The day after a date is a later date, unless the date is the last one.
pub proof fn lemma_succ_is_date(d: Ymd)
    requires
        d.is_date(),
        !d.is_last(),
    ensures
        d.succ().is_date(),
        d.is_before(d.succ()),
{
}

/// No date lies strictly between a date and the day after it.
pub proof fn lemma_succ_is_next(d: Ymd, other: Ymd)
    requires
        d.is_date(),
        other.is_date(),
        d.is_before(other),
    ensures
        !other.is_before(d.succ()),
{
}

} // verus!
