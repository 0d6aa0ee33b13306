//! The printed form of a finished count.

use crate::calendar::Ymd;
use crate::counter::{SessionCounter, Tally};
use crate::date::ymds;
use crate::display::{append_decimal, date_text, decimal_digits, format_date};
use vstd::prelude::*;

verus! {

/// The lines of a report: one line for each counted day, an empty line, the
/// heading, the two totals and an empty line at the end.
pub open spec fn report_lines(tally: Tally) -> Seq<Seq<char>> {
    tally.counted.map_values(|d: Ymd| date_text(d)) + seq![
        Seq::<char>::empty(),
        "Resum"@,
        "Sessions totals: "@ + decimal_digits(tally.sessions as int),
        "Nombre de setmanes: "@ + decimal_digits(tally.weeks as int),
        Seq::<char>::empty(),
    ]
}

/// The texts of a list of strings.
pub open spec fn texts_of(lines: Seq<String>) -> Seq<Seq<char>> {
    lines.map_values(|l: String| l@)
}

/// Writes the report of a count, line by line, without line ends.
pub fn report(counter: &SessionCounter) -> (lines: Vec<String>)
    ensures
        texts_of(lines@) == report_lines(counter@),
{
    let dates = counter.dates();
    let mut lines: Vec<String> = Vec::new();
    let mut i: usize = 0;
    while i < dates.len()
        invariant
            i <= dates.len(),
            ymds(dates@) == counter@.counted,
            lines@.len() == i,
            forall|k: int|
                0 <= k < i ==> (#[trigger] lines@[k])@ == date_text(counter@.counted[k]),
        decreases dates.len() - i,
    {
        let line = format_date(&dates[i]);
        lines.push(line);
        i += 1;
    }
    let mut sessions = "Sessions totals: ".to_owned();
    append_decimal(&mut sessions, counter.sessions());
    let mut weeks = "Nombre de setmanes: ".to_owned();
    append_decimal(&mut weeks, counter.weeks() as u64);
    lines.push(String::new());
    lines.push("Resum".to_owned());
    lines.push(sessions);
    lines.push(weeks);
    lines.push(String::new());
    lines
}

} // verus!
