//! Calendar dates as values, with the calendar arithmetic done by `chrono`.

use crate::calendar::{lemma_succ_is_date, ymd, Ymd, KEY_LIMIT, MIN_YEAR};
use chrono::{Datelike, NaiveDate};
use vstd::prelude::*;

verus! {

/// The weekday of the date `year`-`month`-`day`, counted from Monday = 0,
/// as `chrono` computes it.
pub uninterp spec fn weekday_number(year: int, month: int, day: int) -> int;

/// The ISO 8601 week number of the date `year`-`month`-`day`, as `chrono`
/// computes it.
pub uninterp spec fn iso_week_number(year: int, month: int, day: int) -> int;

/// The weekday of a date, counted from Monday = 0.
pub open spec fn weekday_of(d: Ymd) -> int {
    weekday_number(d.year, d.month, d.day)
}

/// The ISO 8601 week number of a date.
pub open spec fn iso_week_of(d: Ymd) -> int {
    iso_week_number(d.year, d.month, d.day)
}

/// A day of the week. The order of the variants is the order of the week,
/// which starts on Monday.
#[derive(Clone, Copy, Debug, PartialEq, Eq, Structural)]
pub enum DayOfWeek {
    Monday,
    Tuesday,
    Wednesday,
    Thursday,
    Friday,
    Saturday,
    Sunday,
}

impl DayOfWeek {
    /// Position in the week, Monday = 0 to Sunday = 6.
    pub open spec fn number(self) -> int {
        match self {
            DayOfWeek::Monday => 0,
            DayOfWeek::Tuesday => 1,
            DayOfWeek::Wednesday => 2,
            DayOfWeek::Thursday => 3,
            DayOfWeek::Friday => 4,
            DayOfWeek::Saturday => 5,
            DayOfWeek::Sunday => 6,
        }
    }

    /// Position in the week, for indexing a table of seven entries.
    pub fn index(self) -> (i: usize)
        ensures
            i == self.number(),
            i < 7,
    {
        match self {
            DayOfWeek::Monday => 0,
            DayOfWeek::Tuesday => 1,
            DayOfWeek::Wednesday => 2,
            DayOfWeek::Thursday => 3,
            DayOfWeek::Friday => 4,
            DayOfWeek::Saturday => 5,
            DayOfWeek::Sunday => 6,
        }
    }
}

/// Asks `chrono::NaiveDate::from_ymd_opt` whether the three numbers name a
/// date. Trusted: `chrono` accepts exactly the days that exist in the
/// proleptic Gregorian calendar, in the years `MIN_YEAR` to `MAX_YEAR`.
#[verifier::external_body]
fn chrono_is_date(year: i32, month: u32, day: u32) -> (ok: bool)
    ensures
        ok == ymd(year as int, month as int, day as int).is_date(),
{
    NaiveDate::from_ymd_opt(year, month, day).is_some()
}

/// Calls `chrono::NaiveDate::succ_opt` on the given date. Trusted: the result
/// is the next calendar day, and there is none only after the last date of
/// `MAX_YEAR`.
#[verifier::external_body]
fn chrono_succ(year: i32, month: u32, day: u32) -> (next: Option<(i32, u32, u32)>)
    requires
        ymd(year as int, month as int, day as int).is_date(),
    ensures
        next is None <==> ymd(year as int, month as int, day as int).is_last(),
        next matches Some(n) ==> ymd(n.0 as int, n.1 as int, n.2 as int) == ymd(
            year as int,
            month as int,
            day as int,
        ).succ(),
{
    match NaiveDate::from_ymd_opt(year, month, day).unwrap().succ_opt() {
        Some(n) => Some((n.year(), n.month(), n.day())),
        None => None,
    }
}

/// Calls `chrono::Datelike::weekday` on the given date. Trusted: the variant
/// returned is the one whose position from Monday is `weekday_number`.
#[verifier::external_body]
fn chrono_weekday(year: i32, month: u32, day: u32) -> (w: DayOfWeek)
    requires
        ymd(year as int, month as int, day as int).is_date(),
    ensures
        w.number() == weekday_number(year as int, month as int, day as int),
{
    match NaiveDate::from_ymd_opt(year, month, day).unwrap().weekday() {
        chrono::Weekday::Mon => DayOfWeek::Monday,
        chrono::Weekday::Tue => DayOfWeek::Tuesday,
        chrono::Weekday::Wed => DayOfWeek::Wednesday,
        chrono::Weekday::Thu => DayOfWeek::Thursday,
        chrono::Weekday::Fri => DayOfWeek::Friday,
        chrono::Weekday::Sat => DayOfWeek::Saturday,
        chrono::Weekday::Sun => DayOfWeek::Sunday,
    }
}

/// Calls `chrono::Datelike::iso_week` on the given date and takes the week
/// number with `chrono::IsoWeek::week`. Trusted: the number is
/// `iso_week_number`, and it lies between 1 and 53.
#[verifier::external_body]
fn chrono_iso_week(year: i32, month: u32, day: u32) -> (week: u32)
    requires
        ymd(year as int, month as int, day as int).is_date(),
    ensures
        week == iso_week_number(year as int, month as int, day as int),
        1 <= week <= 53,
{
    NaiveDate::from_ymd_opt(year, month, day).unwrap().iso_week().week()
}

/// A date of the proleptic Gregorian calendar, without time of day.
///
/// Every value is a day that exists: the fields are private and the
/// constructors refuse anything else.
#[derive(Clone, Copy, Debug, PartialEq, Eq, Structural)]
pub struct CalendarDate {
    year: i32,
    month: u32,
    day: u32,
}

impl View for CalendarDate {
    type V = Ymd;

    closed spec fn view(&self) -> Ymd {
        ymd(self.year as int, self.month as int, self.day as int)
    }
}

impl CalendarDate {
    #[verifier::type_invariant]
    pub open spec fn is_valid(self) -> bool {
        self@.is_date()
    }

    /// The date with the given year, month and day of month, if there is one.
    pub fn from_ymd(year: i32, month: u32, day: u32) -> (date: Option<CalendarDate>)
        ensures
            date is Some <==> ymd(year as int, month as int, day as int).is_date(),
            date matches Some(d) ==> d@ == ymd(year as int, month as int, day as int),
    {
        if chrono_is_date(year, month, day) {
            Some(CalendarDate { year, month, day })
        } else {
            None
        }
    }

    /// The year; year 0 comes before year 1.
    pub fn year(&self) -> (year: i32)
        ensures
            year == self@.year,
    {
        self.year
    }

    /// The month, from 1 to 12.
    pub fn month(&self) -> (month: u32)
        ensures
            month == self@.month,
    {
        self.month
    }

    /// The day of the month, from 1.
    pub fn day(&self) -> (day: u32)
        ensures
            day == self@.day,
    {
        self.day
    }

    /// Whether this date comes strictly before `other`.
    pub fn is_before(&self, other: &CalendarDate) -> (before: bool)
        ensures
            before == self@.is_before(other@),
    {
        self.year < other.year || (self.year == other.year && (self.month < other.month || (
        self.month == other.month && self.day < other.day)))
    }

    /// The next calendar day, or `None` after the last date.
    pub fn succ(&self) -> (next: Option<CalendarDate>)
        ensures
            next is None <==> self@.is_last(),
            next matches Some(n) ==> n@ == self@.succ(),
    {
        proof {
            use_type_invariant(self);
        }
        match chrono_succ(self.year, self.month, self.day) {
            Some((year, month, day)) => {
                proof {
                    lemma_succ_is_date(self@);
                }
                Some(CalendarDate { year, month, day })
            },
            None => None,
        }
    }

    /// The day of the week this date falls on.
    pub fn weekday(&self) -> (w: DayOfWeek)
        ensures
            w.number() == weekday_of(self@),
    {
        proof {
            use_type_invariant(self);
        }
        chrono_weekday(self.year, self.month, self.day)
    }

    /// The ISO 8601 week number of this date, from 1 to 53.
    pub fn iso_week(&self) -> (week: u32)
        ensures
            week == iso_week_of(self@),
            1 <= week <= 53,
    {
        proof {
            use_type_invariant(self);
        }
        chrono_iso_week(self.year, self.month, self.day)
    }

    /// The number that identifies this date in a set of dates.
    pub fn key(&self) -> (key: u64)
        ensures
            key == self@.key(),
            key < KEY_LIMIT,
    {
        proof {
            use_type_invariant(self);
        }
        let years: u64 = (self.year as i64 - MIN_YEAR as i64) as u64;
        years * 372 + (self.month as u64 - 1) * 31 + (self.day as u64 - 1)
    }
}

/// The dates of a list as triples of integers.
pub open spec fn ymds(dates: Seq<CalendarDate>) -> Seq<Ymd> {
    dates.map_values(|d: CalendarDate| d@)
}

/// Two dates with the same year, month and day are the same value.
pub proof fn lemma_same_view(a: CalendarDate, b: CalendarDate)
    ensures
        a@ == b@ <==> a == b,
{
}

} // verus!
