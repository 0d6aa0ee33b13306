//! The session counter: which days of a range count, how many sessions they
//! add up to, and how many ISO weeks the range passes through.

use crate::calendar::{Ymd, KEY_LIMIT};
use crate::date::{iso_week_of, weekday_of, ymds, CalendarDate, DayOfWeek};
use crate::exclusion::{dates_of_lines, ExclusionSet};
use crate::range::{days_between, lemma_days_between_len, DateRange};
use crate::text::parse_date;
use vstd::prelude::*;

verus! {

/// Sessions per weekday, Monday first. A weekday with 0 sessions never
/// counts.
pub type WeekdayMask = [u32; 7];

/// A day counts when its weekday has sessions and the day is not excluded.
pub open spec fn is_counted(day: Ymd, weekday: int, mask: Seq<u32>, excluded: Set<Ymd>) -> bool {
    mask[weekday] != 0 && !excluded.contains(day)
}

/// The sessions that a day adds to the total.
pub open spec fn sessions_on(day: Ymd, weekday: int, mask: Seq<u32>, excluded: Set<Ymd>) -> nat {
    if is_counted(day, weekday, mask, excluded) {
        mask[weekday] as nat
    } else {
        0
    }
}

/// The running state of a count.
pub struct Tally {
    /// Sessions of the days counted so far.
    pub sessions: nat,
    /// Number of times the ISO week number changed from one day to the next,
    /// the first day included.
    pub weeks: nat,
    /// ISO week number of the day seen last, 0 before the first day.
    pub last_week: int,
    /// The days counted so far, in the order in which they were seen.
    pub counted: Seq<Ymd>,
}

impl Tally {
    /// The state before any day has been seen.
    pub open spec fn start() -> Tally {
        Tally { sessions: 0, weeks: 0, last_week: 0, counted: Seq::empty() }
    }

    /// The state after one more day has been seen. The week count moves on
    /// every change of the week number, whether or not the day counts.
    pub open spec fn step(
        self,
        day: Ymd,
        weekday: int,
        week: int,
        mask: Seq<u32>,
        excluded: Set<Ymd>,
    ) -> Tally {
        Tally {
            sessions: self.sessions + sessions_on(day, weekday, mask, excluded),
            weeks: if week != self.last_week {
                self.weeks + 1
            } else {
                self.weeks
            },
            last_week: week,
            counted: if is_counted(day, weekday, mask, excluded) {
                self.counted.push(day)
            } else {
                self.counted
            },
        }
    }

    /// The state after all of `days` have been seen, one after the other.
    pub open spec fn of(days: Seq<Ymd>, mask: Seq<u32>, excluded: Set<Ymd>) -> Tally {
        Tally {
            sessions: session_total(days, mask, excluded),
            weeks: week_count(days),
            last_week: if days.len() == 0 {
                0
            } else {
                iso_week_of(days.last())
            },
            counted: counted_days(days, mask, excluded),
        }
    }
}

/// The days that count, in their order.
pub open spec fn counted_days(days: Seq<Ymd>, mask: Seq<u32>, excluded: Set<Ymd>) -> Seq<Ymd> {
    days.filter(|d: Ymd| is_counted(d, weekday_of(d), mask, excluded))
}

/// The sessions of all days together.
pub open spec fn session_total(days: Seq<Ymd>, mask: Seq<u32>, excluded: Set<Ymd>) -> nat
    decreases days.len(),
{
    if days.len() == 0 {
        0
    } else {
        session_total(days.drop_last(), mask, excluded) + sessions_on(
            days.last(),
            weekday_of(days.last()),
            mask,
            excluded,
        )
    }
}

/// The day at position `i` is the first of the days, or lies in another ISO
/// week than the day before it.
pub open spec fn starts_week(days: Seq<Ymd>, i: int) -> bool {
    i == 0 || iso_week_of(days[i]) != iso_week_of(days[i - 1])
}

/// The number of days that start a week.
pub open spec fn week_count(days: Seq<Ymd>) -> nat
    decreases days.len(),
{
    if days.len() == 0 {
        0
    } else if starts_week(days, days.len() - 1) {
        week_count(days.drop_last()) + 1
    } else {
        week_count(days.drop_last())
    }
}

/// Counts sessions and weeks over the days it is shown, and keeps the days
/// that counted.
#[derive(Debug)]
pub struct SessionCounter {
    sessions: u64,
    weeks: u32,
    last_week: u32,
    dates: Vec<CalendarDate>,
}

impl View for SessionCounter {
    type V = Tally;

    closed spec fn view(&self) -> Tally {
        Tally {
            sessions: self.sessions as nat,
            weeks: self.weeks as nat,
            last_week: self.last_week as int,
            counted: ymds(self.dates@),
        }
    }
}

impl SessionCounter {
    /// A counter that has seen no day yet.
    pub fn new() -> (counter: SessionCounter)
        ensures
            counter@ == Tally::start(),
    {
        let counter = SessionCounter { sessions: 0, weeks: 0, last_week: 0, dates: Vec::new() };
        assert(counter@.counted =~= Seq::<Ymd>::empty());
        counter
    }

    /// Takes one more day into the count, given the weekday it falls on and
    /// its ISO week number.
    pub fn observe(
        &mut self,
        date: CalendarDate,
        weekday: DayOfWeek,
        week: u32,
        mask: &WeekdayMask,
        excluded: &ExclusionSet,
    )
        requires
            old(self)@.step(date@, weekday.number(), week as int, mask@, excluded@).weeks
                <= u32::MAX,
            old(self)@.step(date@, weekday.number(), week as int, mask@, excluded@).sessions
                <= u64::MAX,
        ensures
            final(self)@ == old(self)@.step(
                date@,
                weekday.number(),
                week as int,
                mask@,
                excluded@,
            ),
    {
        if week != self.last_week {
            self.last_week = week;
            self.weeks = self.weeks + 1;
        }
        let sessions = mask[weekday.index()];
        if sessions != 0 && !excluded.contains(&date) {
            self.sessions = self.sessions + sessions as u64;
            self.dates.push(date);
            assert(self@.counted =~= old(self)@.counted.push(date@));
        }
    }

    /// The sessions of the days counted so far.
    pub fn sessions(&self) -> (sessions: u64)
        ensures
            sessions == self@.sessions,
    {
        self.sessions
    }

    /// The number of ISO weeks passed through so far.
    pub fn weeks(&self) -> (weeks: u32)
        ensures
            weeks == self@.weeks,
    {
        self.weeks
    }

    /// The days counted so far, in the order in which they were seen.
    pub fn dates(&self) -> (dates: &Vec<CalendarDate>)
        ensures
            ymds(dates@) == self@.counted,
    {
        &self.dates
    }
}

/// Seeing one more day is one step of the tally.
proof fn lemma_tally_push(days: Seq<Ymd>, day: Ymd, mask: Seq<u32>, excluded: Set<Ymd>)
    requires
        iso_week_of(day) != 0,
    ensures
        Tally::of(days.push(day), mask, excluded) == Tally::of(days, mask, excluded).step(
            day,
            weekday_of(day),
            iso_week_of(day),
            mask,
            excluded,
        ),
{
    reveal(Seq::filter);
    assert(days.push(day).drop_last() == days);
}

/// No more weeks than days, and no more sessions than a weekday can hold
/// for each day.
proof fn lemma_tally_bounds(days: Seq<Ymd>, mask: Seq<u32>, excluded: Set<Ymd>)
    ensures
        week_count(days) <= days.len(),
        session_total(days, mask, excluded) <= days.len() * u32::MAX,
    decreases days.len(),
{
    if days.len() > 0 {
        lemma_tally_bounds(days.drop_last(), mask, excluded);
    }
}

/// Counts the sessions and the ISO weeks of the days from `start` to `end`,
/// both included.
pub fn count_sessions(
    start: CalendarDate,
    end: CalendarDate,
    mask: &WeekdayMask,
    excluded: &ExclusionSet,
) -> (counter: SessionCounter)
    ensures
        counter@ == Tally::of(days_between(start@, end@), mask@, excluded@),
{
    let ghost days = days_between(start@, end@);
    let ghost mut seen: Seq<Ymd> = Seq::empty();
    let mut range = DateRange::new(start, end);
    let mut counter = SessionCounter::new();
    proof {
        lemma_days_between_len(start@, end@);
        reveal(Seq::filter);
    }
    loop
        invariant_except_break
            seen + range@ == days,
            counter@ == Tally::of(seen, mask@, excluded@),
            days.len() <= KEY_LIMIT,
        ensures
            counter@ == Tally::of(days, mask@, excluded@),
        decreases range@.len(),
    {
        match range.next() {
            None => {
                break;
            },
            Some(date) => {
                let weekday = date.weekday();
                let week = date.iso_week();
                proof {
                    lemma_tally_bounds(seen, mask@, excluded@);
                    lemma_tally_push(seen, date@, mask@, excluded@);
                }
                counter.observe(date, weekday, week, mask, excluded);
                proof {
                    seen = seen.push(date@);
                }
            },
        }
    }
    counter
}

/// A range whose first day comes after its last day has no days: nothing
/// counts, and there are 0 sessions and 0 weeks.
pub proof fn lemma_reversed_range_counts_nothing(
    start: Ymd,
    end: Ymd,
    mask: Seq<u32>,
    excluded: Set<Ymd>,
)
    requires
        end.is_before(start),
    ensures
        days_between(start, end).len() == 0,
        Tally::of(days_between(start, end), mask, excluded) == Tally::start(),
{
    reveal(Seq::filter);
}

/// One more day raises the week count by one if the day starts a week, and
/// leaves it as it is otherwise.
pub proof fn lemma_week_count_step(days: Seq<Ymd>, day: Ymd)
    ensures
        starts_week(days.push(day), days.len() as int) ==> week_count(days.push(day))
            == week_count(days) + 1,
        !starts_week(days.push(day), days.len() as int) ==> week_count(days.push(day))
            == week_count(days),
{
    assert(days.push(day).drop_last() == days);
}

/// The week count never goes down along the days: the count over the first
/// `k` days is at most the count over all of them.
pub proof fn lemma_week_count_monotonic(days: Seq<Ymd>, k: int)
    requires
        0 <= k <= days.len(),
    ensures
        week_count(days.take(k)) <= week_count(days),
    decreases days.len() - k,
{
    if k == days.len() {
        assert(days.take(k) == days);
    } else {
        lemma_week_count_monotonic(days, k + 1);
        assert(days.take(k + 1).drop_last() == days.take(k));
    }
}

/// The week count does not depend on which days count: two tallies over the
/// same days agree on it, whatever their masks and exclusions are.
pub proof fn lemma_weeks_ignore_filter(
    days: Seq<Ymd>,
    mask_a: Seq<u32>,
    excluded_a: Set<Ymd>,
    mask_b: Seq<u32>,
    excluded_b: Set<Ymd>,
)
    ensures
        Tally::of(days, mask_a, excluded_a).weeks == Tally::of(days, mask_b, excluded_b).weeks,
        Tally::of(days, mask_a, excluded_a).weeks == week_count(days),
{
}

/// One step moves the week count in the same way for a day that counts and
/// for one that does not.
pub proof fn lemma_step_weeks_ignore_filter(
    tally: Tally,
    day: Ymd,
    weekday: int,
    week: int,
    mask_a: Seq<u32>,
    excluded_a: Set<Ymd>,
    mask_b: Seq<u32>,
    excluded_b: Set<Ymd>,
)
    ensures
        tally.step(day, weekday, week, mask_a, excluded_a).weeks == tally.step(
            day,
            weekday,
            week,
            mask_b,
            excluded_b,
        ).weeks,
        tally.weeks <= tally.step(day, weekday, week, mask_a, excluded_a).weeks <= tally.weeks
            + 1,
{
}

/// The counted days are the days whose weekday has sessions and that are not
/// excluded, and no others.
pub proof fn lemma_counted_days_contains(
    days: Seq<Ymd>,
    mask: Seq<u32>,
    excluded: Set<Ymd>,
    day: Ymd,
)
    ensures
        counted_days(days, mask, excluded).contains(day) <==> days.contains(day) && is_counted(
            day,
            weekday_of(day),
            mask,
            excluded,
        ),
{
    let counts = |d: Ymd| is_counted(d, weekday_of(d), mask, excluded);
    let counted = counted_days(days, mask, excluded);
    if counted.contains(day) {
        let i = choose|i: int| 0 <= i < counted.len() && counted[i] == day;
        days.lemma_filter_pred(counts, i);
        days.lemma_filter_contains_rev(counts, day);
    }
    if days.contains(day) && counts(day) {
        let i = choose|i: int| 0 <= i < days.len() && days[i] == day;
        days.lemma_filter_contains(counts, i);
    }
}

/// An excluded day is never among the counted days and adds no session,
/// whatever the mask says of its weekday.
pub proof fn lemma_excluded_never_counted(
    days: Seq<Ymd>,
    mask: Seq<u32>,
    excluded: Set<Ymd>,
    day: Ymd,
)
    requires
        excluded.contains(day),
    ensures
        !counted_days(days, mask, excluded).contains(day),
        sessions_on(day, weekday_of(day), mask, excluded) == 0,
        forall|tally: Tally, weekday: int, week: int|
            (#[trigger] tally.step(day, weekday, week, mask, excluded)).sessions == tally.sessions
                && tally.step(day, weekday, week, mask, excluded).counted == tally.counted,
{
    lemma_counted_days_contains(days, mask, excluded, day);
}

/// A date that stands on a line of the exclusion list is excluded, so it is
/// never counted, whatever text the line writes it in.
pub proof fn lemma_listed_date_never_counted(
    lines: Seq<String>,
    i: int,
    days: Seq<Ymd>,
    mask: Seq<u32>,
)
    requires
        0 <= i < lines.len(),
        parse_date(lines[i]@) is Some,
    ensures
        dates_of_lines(lines).contains(parse_date(lines[i]@)->0),
        !counted_days(days, mask, dates_of_lines(lines)).contains(parse_date(lines[i]@)->0),
{
    lemma_excluded_never_counted(days, mask, dates_of_lines(lines), parse_date(lines[i]@)->0);
}

} // verus!
