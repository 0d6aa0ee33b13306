//! The set of dates that are left out of the count.

use crate::calendar::{lemma_key_identifies, Ymd};
use crate::date::CalendarDate;
use crate::text::{parse_date, str_to_date, DateFormatError};
use std::collections::HashSet;
use vstd::prelude::*;

verus! {

broadcast use vstd::std_specs::hash::group_hash_axioms;

/// A set of calendar dates. A date is found in it by its key, so adding a
/// date twice leaves one entry.
pub struct ExclusionSet {
    keys: HashSet<u64>,
}

impl View for ExclusionSet {
    type V = Set<Ymd>;

    closed spec fn view(&self) -> Set<Ymd> {
        Set::new(|d: Ymd| d.is_date() && self.keys@.contains(d.key() as u64))
    }
}

impl ExclusionSet {
    /// The empty set.
    pub fn new() -> (set: ExclusionSet)
        ensures
            set@ == Set::<Ymd>::empty(),
    {
        ExclusionSet { keys: HashSet::new() }
    }

    /// Adds a date to the set.
    pub fn insert(&mut self, date: CalendarDate)
        ensures
            final(self)@ == old(self)@.insert(date@),
    {
        proof {
            use_type_invariant(&date);
        }
        let key = date.key();
        self.keys.insert(key);
        proof {
            assert forall|d: Ymd| self@.contains(d) == old(self)@.insert(date@).contains(d) by {
                if d.is_date() {
                    lemma_key_identifies(d, date@);
                }
            }
        }
    }

    /// Whether the date is in the set.
    pub fn contains(&self, date: &CalendarDate) -> (found: bool)
        ensures
            found == self@.contains(date@),
    {
        proof {
            use_type_invariant(date);
        }
        let key = date.key();
        self.keys.contains(&key)
    }
}

/// Every line denotes a date.
pub open spec fn all_lines_are_dates(lines: Seq<String>) -> bool {
    forall|i: int| 0 <= i < lines.len() ==> parse_date(#[trigger] lines[i]@) is Some
}

/// The dates that the lines denote.
pub open spec fn dates_of_lines(lines: Seq<String>) -> Set<Ymd> {
    Set::new(|d: Ymd| exists|i: int| 0 <= i < lines.len() && parse_date(#[trigger] lines[i]@) == Some(d))
}

/// Builds the set of excluded dates from the lines of a list, one date in
/// `day/month/year` form on each line. One line that is no date, an empty
/// line too, fails the whole list.
pub fn load_excluded_dates(lines: &Vec<String>) -> (loaded: Result<ExclusionSet, DateFormatError>)
    ensures
        loaded matches Ok(set) ==> all_lines_are_dates(lines@) && set@ == dates_of_lines(lines@),
        loaded is Err ==> !all_lines_are_dates(lines@),
{
    let mut set = ExclusionSet::new();
    let mut i: usize = 0;
    while i < lines.len()
        invariant
            i <= lines.len(),
            forall|j: int| 0 <= j < i ==> parse_date(#[trigger] lines@[j]@) is Some,
            forall|d: Ymd|
                set@.contains(d) <==> exists|j: int|
                    0 <= j < i && parse_date(#[trigger] lines@[j]@) == Some(d),
        decreases lines.len() - i,
    {
        match str_to_date(lines[i].as_str()) {
            Ok(date) => {
                set.insert(date);
            },
            Err(e) => {
                return Err(e);
            },
        }
        i += 1;
    }
    assert(set@ =~= dates_of_lines(lines@));
    Ok(set)
}

} // verus!
