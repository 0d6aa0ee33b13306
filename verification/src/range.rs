//! Inclusive ranges of consecutive calendar dates.

use crate::calendar::{
    lemma_key_identifies, lemma_succ_is_date, lemma_succ_is_next, Ymd, KEY_LIMIT,
};
use crate::date::CalendarDate;
use vstd::prelude::*;

verus! {

/// An upper bound on the number of dates from `first` to `last`: the
/// distance of their keys.
pub open spec fn key_span(first: Ymd, last: Ymd) -> int {
    if first.key() <= last.key() {
        last.key() - first.key() + 1
    } else {
        0
    }
}

/// The dates from `first` to `last`, both included, each the day after the
/// one before. Empty when `last` comes before `first`.
pub open spec fn days_between(first: Ymd, last: Ymd) -> Seq<Ymd>
    decreases key_span(first, last),
    via days_between_terminates
{
    if !first.is_date() || !last.is_date() || last.is_before(first) {
        Seq::empty()
    } else {
        seq![first] + days_between(first.succ(), last)
    }
}

#[via_fn]
proof fn days_between_terminates(first: Ymd, last: Ymd) {
    if first.is_date() && last.is_date() && !last.is_before(first) {
        lemma_key_identifies(first, last);
        assert(first.key() < first.succ().key());
    }
}

/// A cursor over the dates from a first day to a last day, both included.
///
/// Each call of `next` hands out one date and moves the cursor one day on.
/// A range whose first day comes after its last day hands out nothing.
#[derive(Debug)]
pub struct DateRange {
    start: CalendarDate,
    end: CalendarDate,
    exhausted: bool,
}

impl View for DateRange {
    type V = Seq<Ymd>;

    /// The dates that are still to come, in the order in which they come.
    closed spec fn view(&self) -> Seq<Ymd> {
        if self.exhausted {
            Seq::empty()
        } else {
            days_between(self.start@, self.end@)
        }
    }
}

impl DateRange {
    /// The range from `start` to `end`, both included.
    pub fn new(start: CalendarDate, end: CalendarDate) -> (range: DateRange)
        ensures
            range@ == days_between(start@, end@),
    {
        DateRange { start, end, exhausted: false }
    }

    /// Hands out the next date of the range, or `None` once the last one has
    /// been handed out.
    pub fn next(&mut self) -> (date: Option<CalendarDate>)
        ensures
            old(self)@.len() == 0 ==> date is None && final(self)@ == old(self)@,
            old(self)@.len() > 0 ==> (date matches Some(d) && d@ == old(self)@[0]) && final(self)@
                == old(self)@.drop_first(),
    {
        proof {
            use_type_invariant(&self.start);
            use_type_invariant(&self.end);
        }
        if self.exhausted || self.end.is_before(&self.start) {
            None
        } else {
            let date = self.start;
            let ghost rest = days_between(date@.succ(), self.end@);
            assert((seq![date@] + rest).drop_first() == rest);
            match date.succ() {
                Some(next) => {
                    self.start = next;
                },
                None => {
                    self.exhausted = true;
                },
            }
            Some(date)
        }
    }
}

/// A range holds no more dates than the distance of the keys of its ends,
/// which is below `KEY_LIMIT`.
pub proof fn lemma_days_between_len(first: Ymd, last: Ymd)
    ensures
        days_between(first, last).len() <= key_span(first, last),
        days_between(first, last).len() <= KEY_LIMIT,
    decreases key_span(first, last),
{
    if first.is_date() && last.is_date() && !last.is_before(first) {
        lemma_key_identifies(first, last);
        assert(first.key() < first.succ().key());
        lemma_days_between_len(first.succ(), last);
    }
}

/// A range whose first day comes after its last day is empty.
pub proof fn lemma_reversed_range_is_empty(first: Ymd, last: Ymd)
    requires
        last.is_before(first),
    ensures
        days_between(first, last) == Seq::<Ymd>::empty(),
{
}

/// The days of a range are dates up to `last`; the first of them is `first`,
/// each next one is the day after the one before, and the last is `last`.
pub proof fn lemma_days_between_steps(first: Ymd, last: Ymd, i: int)
    requires
        0 <= i < days_between(first, last).len(),
    ensures
        days_between(first, last)[0] == first,
        days_between(first, last)[i].is_date(),
        !last.is_before(days_between(first, last)[i]),
        i + 1 < days_between(first, last).len() ==> days_between(first, last)[i + 1]
            == days_between(first, last)[i].succ(),
        i + 1 == days_between(first, last).len() ==> days_between(first, last)[i] == last,
    decreases i,
{
    let rest = days_between(first.succ(), last);
    assert(days_between(first, last) == seq![first] + rest);
    if i > 0 {
        lemma_days_between_steps(first.succ(), last, i - 1);
    } else if rest.len() == 0 && first.is_before(last) {
        lemma_succ_is_next(first, last);
        lemma_succ_is_date(first);
    }
}

/// A range holds exactly the dates that are neither before `first` nor
/// after `last`.
pub proof fn lemma_days_between_contains(first: Ymd, last: Ymd, d: Ymd)
    requires
        first.is_date(),
        last.is_date(),
    ensures
        days_between(first, last).contains(d) <==> d.is_date() && !d.is_before(first)
            && !last.is_before(d),
    decreases key_span(first, last),
{
    let days = days_between(first, last);
    if !last.is_before(first) {
        let rest = days_between(first.succ(), last);
        assert(days == seq![first] + rest);
        // The dates of `rest` are those after `first` and up to `last`.
        if first.is_last() {
            assert(rest.len() == 0);
        } else {
            lemma_key_identifies(first, last);
            assert(first.key() < first.succ().key());
            lemma_succ_is_date(first);
            lemma_days_between_contains(first.succ(), last, d);
            if d.is_date() && first.is_before(d) {
                lemma_succ_is_next(first, d);
            }
        }
        // The dates of `days` are `first` and those of `rest`.
        if days.contains(d) {
            let i = choose|i: int| 0 <= i < days.len() && days[i] == d;
            if i > 0 {
                assert(rest[i - 1] == d);
            }
        }
        if rest.contains(d) {
            let i = choose|i: int| 0 <= i < rest.len() && rest[i] == d;
            assert(days[i + 1] == d);
        }
        assert(days[0] == first);
    }
}

} // verus!
