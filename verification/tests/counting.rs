use daycounter::counter::{count_sessions, SessionCounter, WeekdayMask};
use daycounter::date::{CalendarDate, DayOfWeek};
use daycounter::exclusion::{load_excluded_dates, ExclusionSet};
use daycounter::report::report;
use daycounter::display::format_date;
use daycounter::text::str_to_date;

const MASK: WeekdayMask = [1, 1, 0, 1, 1, 0, 0];

fn date(year: i32, month: u32, day: u32) -> CalendarDate {
    CalendarDate::from_ymd(year, month, day).unwrap()
}

fn excluding(days: &[CalendarDate]) -> ExclusionSet {
    let mut set = ExclusionSet::new();
    for d in days {
        set.insert(*d);
    }
    set
}

#[test]
fn autumn_term_has_52_sessions_in_13_weeks() {
    let start = str_to_date("12/09/2022").unwrap();
    let end = str_to_date("10/12/2022").unwrap();
    assert_eq!(start.weekday(), DayOfWeek::Monday);
    assert_eq!(end.weekday(), DayOfWeek::Saturday);
    let counter = count_sessions(start, end, &MASK, &ExclusionSet::new());
    assert_eq!(counter.sessions(), 52);
    assert_eq!(counter.weeks(), 13);
    assert_eq!(counter.dates().len(), 52);
    assert_eq!(counter.dates()[0], date(2022, 9, 12));
    assert_eq!(counter.dates()[1], date(2022, 9, 13));
    assert_eq!(counter.dates()[2], date(2022, 9, 15));
    assert_eq!(counter.dates()[3], date(2022, 9, 16));
    assert_eq!(counter.dates()[4], date(2022, 9, 19));
    assert_eq!(counter.dates()[51], date(2022, 12, 9));
    for d in counter.dates() {
        let w = d.weekday();
        assert!(
            w == DayOfWeek::Monday
                || w == DayOfWeek::Tuesday
                || w == DayOfWeek::Thursday
                || w == DayOfWeek::Friday
        );
        assert!(!d.is_before(&start));
        assert!(!end.is_before(d));
    }
    for pair in counter.dates().windows(2) {
        assert!(pair[0].is_before(&pair[1]));
    }
}

#[test]
fn autumn_term_without_its_first_day() {
    let start = str_to_date("12/09/2022").unwrap();
    let end = str_to_date("10/12/2022").unwrap();
    let excluded = load_excluded_dates(&vec!["12/09/2022".to_string()]).unwrap();
    let counter = count_sessions(start, end, &MASK, &excluded);
    assert_eq!(counter.sessions(), 51);
    assert_eq!(counter.weeks(), 13);
    assert_eq!(counter.dates().len(), 51);
    assert_eq!(counter.dates()[0], date(2022, 9, 13));
    assert!(!counter.dates().contains(&date(2022, 9, 12)));
}

#[test]
fn reversed_range_counts_nothing() {
    let counter = count_sessions(date(2022, 12, 10), date(2022, 9, 12), &MASK, &ExclusionSet::new());
    assert_eq!(counter.sessions(), 0);
    assert_eq!(counter.weeks(), 0);
    assert!(counter.dates().is_empty());
    let all_days: WeekdayMask = [1, 1, 1, 1, 1, 1, 1];
    let counter = count_sessions(date(2022, 9, 13), date(2022, 9, 12), &all_days, &ExclusionSet::new());
    assert_eq!(counter.sessions(), 0);
    assert_eq!(counter.weeks(), 0);
    assert!(counter.dates().is_empty());
}

#[test]
fn one_day_range_counts_one_week() {
    let monday = date(2022, 9, 12);
    let counter = count_sessions(monday, monday, &MASK, &ExclusionSet::new());
    assert_eq!(counter.sessions(), 1);
    assert_eq!(counter.weeks(), 1);
    assert_eq!(counter.dates(), &vec![monday]);
    let wednesday = date(2022, 9, 14);
    let counter = count_sessions(wednesday, wednesday, &MASK, &ExclusionSet::new());
    assert_eq!(counter.sessions(), 0);
    assert_eq!(counter.weeks(), 1);
    assert!(counter.dates().is_empty());
}

#[test]
fn weeks_do_not_depend_on_mask_or_exclusions() {
    let start = date(2022, 9, 12);
    let end = date(2022, 12, 10);
    let nothing: WeekdayMask = [0, 0, 0, 0, 0, 0, 0];
    let everything: WeekdayMask = [1, 1, 1, 1, 1, 1, 1];
    let mondays = excluding(&[date(2022, 9, 12), date(2022, 9, 19), date(2022, 9, 26)]);
    assert_eq!(count_sessions(start, end, &nothing, &ExclusionSet::new()).weeks(), 13);
    assert_eq!(count_sessions(start, end, &everything, &ExclusionSet::new()).weeks(), 13);
    assert_eq!(count_sessions(start, end, &MASK, &mondays).weeks(), 13);
    assert_eq!(count_sessions(start, end, &nothing, &mondays).weeks(), 13);
    assert_eq!(count_sessions(start, end, &nothing, &ExclusionSet::new()).sessions(), 0);
    assert_eq!(count_sessions(start, end, &everything, &ExclusionSet::new()).sessions(), 90);
}

#[test]
fn weeks_grow_by_one_at_each_monday() {
    let start = date(2022, 9, 14);
    let mut before = 0;
    let mut day = start;
    for _ in 0..40 {
        let weeks = count_sessions(start, day, &MASK, &ExclusionSet::new()).weeks();
        if day == start || day.weekday() == DayOfWeek::Monday {
            assert_eq!(weeks, before + 1);
        } else {
            assert_eq!(weeks, before);
        }
        before = weeks;
        day = day.succ().unwrap();
    }
    assert_eq!(before, 6);
}

#[test]
fn weeks_are_counted_across_the_turn_of_the_year() {
    let counter = count_sessions(date(2020, 12, 21), date(2021, 1, 10), &MASK, &ExclusionSet::new());
    assert_eq!(counter.weeks(), 3);
    let counter = count_sessions(date(2022, 1, 1), date(2022, 1, 3), &MASK, &ExclusionSet::new());
    assert_eq!(counter.weeks(), 2);
}

#[test]
fn mask_value_is_the_number_of_sessions() {
    let mask: WeekdayMask = [2, 0, 3, 0, 0, 0, 10];
    let counter = count_sessions(date(2022, 9, 12), date(2022, 9, 25), &mask, &ExclusionSet::new());
    assert_eq!(counter.sessions(), 30);
    assert_eq!(counter.weeks(), 2);
    assert_eq!(
        counter.dates(),
        &vec![
            date(2022, 9, 12),
            date(2022, 9, 14),
            date(2022, 9, 18),
            date(2022, 9, 19),
            date(2022, 9, 21),
            date(2022, 9, 25),
        ]
    );
}

#[test]
fn large_mask_values_do_not_overflow() {
    let mask: WeekdayMask = [u32::MAX; 7];
    let counter = count_sessions(date(2022, 1, 1), date(2022, 12, 31), &mask, &ExclusionSet::new());
    assert_eq!(counter.sessions(), 365 * u32::MAX as u64);
    assert_eq!(counter.weeks(), 53);
}

#[test]
fn excluded_day_is_neither_counted_nor_listed() {
    let start = date(2022, 9, 12);
    let end = date(2022, 9, 18);
    let excluded = excluding(&[date(2022, 9, 13), date(2022, 9, 14), date(2022, 10, 13)]);
    let counter = count_sessions(start, end, &MASK, &excluded);
    assert_eq!(counter.sessions(), 3);
    assert_eq!(counter.weeks(), 1);
    assert_eq!(
        counter.dates(),
        &vec![date(2022, 9, 12), date(2022, 9, 15), date(2022, 9, 16)]
    );
    let heavy: WeekdayMask = [5, 5, 5, 5, 5, 5, 5];
    let counter = count_sessions(start, end, &heavy, &excluded);
    assert_eq!(counter.sessions(), 25);
    assert!(!counter.dates().contains(&date(2022, 9, 13)));
    assert!(!counter.dates().contains(&date(2022, 9, 14)));
}

#[test]
fn excluded_first_day_of_a_week_still_starts_the_week() {
    let excluded = excluding(&[date(2022, 9, 19)]);
    let counter = count_sessions(date(2022, 9, 16), date(2022, 9, 19), &MASK, &excluded);
    assert_eq!(counter.weeks(), 2);
    assert_eq!(counter.sessions(), 1);
    assert_eq!(counter.dates(), &vec![date(2022, 9, 16)]);
}

#[test]
fn observe_counts_a_day_with_sessions() {
    let mut counter = SessionCounter::new();
    assert_eq!(counter.sessions(), 0);
    assert_eq!(counter.weeks(), 0);
    assert!(counter.dates().is_empty());
    counter.observe(date(2022, 9, 12), DayOfWeek::Monday, 37, &[3, 0, 0, 0, 0, 0, 0], &ExclusionSet::new());
    assert_eq!(counter.sessions(), 3);
    assert_eq!(counter.weeks(), 1);
    assert_eq!(counter.dates(), &vec![date(2022, 9, 12)]);
}

#[test]
fn observe_goes_by_the_weekday_it_is_given() {
    let mask: WeekdayMask = [1, 2, 3, 4, 5, 6, 7];
    let days = [
        DayOfWeek::Monday,
        DayOfWeek::Tuesday,
        DayOfWeek::Wednesday,
        DayOfWeek::Thursday,
        DayOfWeek::Friday,
        DayOfWeek::Saturday,
        DayOfWeek::Sunday,
    ];
    for (i, weekday) in days.iter().enumerate() {
        let mut counter = SessionCounter::new();
        counter.observe(date(2022, 9, 12), *weekday, 37, &mask, &ExclusionSet::new());
        assert_eq!(counter.sessions(), i as u64 + 1);
    }
}

#[test]
fn observe_skips_idle_weekdays_and_excluded_days() {
    let mask: WeekdayMask = [1, 1, 0, 1, 1, 0, 0];
    let excluded = excluding(&[date(2022, 9, 13)]);
    let mut counter = SessionCounter::new();
    counter.observe(date(2022, 9, 14), DayOfWeek::Wednesday, 37, &mask, &excluded);
    assert_eq!((counter.sessions(), counter.weeks()), (0, 1));
    counter.observe(date(2022, 9, 13), DayOfWeek::Tuesday, 37, &mask, &excluded);
    assert_eq!((counter.sessions(), counter.weeks()), (0, 1));
    assert!(counter.dates().is_empty());
    counter.observe(date(2022, 9, 15), DayOfWeek::Thursday, 37, &mask, &excluded);
    assert_eq!((counter.sessions(), counter.weeks()), (1, 1));
    assert_eq!(counter.dates(), &vec![date(2022, 9, 15)]);
}

#[test]
fn observe_counts_every_change_of_week_number() {
    let mask: WeekdayMask = [0; 7];
    let none = ExclusionSet::new();
    let mut counter = SessionCounter::new();
    let day = date(2022, 9, 12);
    counter.observe(day, DayOfWeek::Monday, 5, &mask, &none);
    assert_eq!(counter.weeks(), 1);
    counter.observe(day, DayOfWeek::Monday, 5, &mask, &none);
    assert_eq!(counter.weeks(), 1);
    counter.observe(day, DayOfWeek::Monday, 6, &mask, &none);
    assert_eq!(counter.weeks(), 2);
    counter.observe(day, DayOfWeek::Monday, 5, &mask, &none);
    assert_eq!(counter.weeks(), 3);
    counter.observe(day, DayOfWeek::Monday, 5, &mask, &none);
    assert_eq!(counter.weeks(), 3);
    assert_eq!(counter.sessions(), 0);
}

#[test]
fn observe_takes_week_zero_as_no_change_at_the_start() {
    let mut counter = SessionCounter::new();
    counter.observe(date(2022, 9, 12), DayOfWeek::Monday, 0, &MASK, &ExclusionSet::new());
    assert_eq!(counter.weeks(), 0);
    assert_eq!(counter.sessions(), 1);
}

#[test]
fn report_lists_days_then_totals() {
    let counter = count_sessions(date(2022, 9, 12), date(2022, 9, 18), &MASK, &ExclusionSet::new());
    assert_eq!(
        report(&counter),
        vec![
            "12/09/2022",
            "13/09/2022",
            "15/09/2022",
            "16/09/2022",
            "",
            "Resum",
            "Sessions totals: 4",
            "Nombre de setmanes: 1",
            "",
        ]
    );
}

#[test]
fn report_of_an_empty_count() {
    let counter = count_sessions(date(2022, 9, 18), date(2022, 9, 12), &MASK, &ExclusionSet::new());
    assert_eq!(
        report(&counter),
        vec!["", "Resum", "Sessions totals: 0", "Nombre de setmanes: 0", ""]
    );
}

#[test]
fn report_of_the_autumn_term() {
    let counter = count_sessions(date(2022, 9, 12), date(2022, 12, 10), &MASK, &ExclusionSet::new());
    let lines = report(&counter);
    assert_eq!(lines.len(), 57);
    assert_eq!(lines[0], "12/09/2022");
    assert_eq!(lines[51], "09/12/2022");
    assert_eq!(lines[52], "");
    assert_eq!(lines[53], "Resum");
    assert_eq!(lines[54], "Sessions totals: 52");
    assert_eq!(lines[55], "Nombre de setmanes: 13");
    assert_eq!(lines[56], "");
    for (line, d) in lines.iter().zip(counter.dates()) {
        assert_eq!(line, &format_date(d));
    }
}

#[test]
fn report_writes_large_totals_in_full() {
    let mask: WeekdayMask = [u32::MAX; 7];
    let counter = count_sessions(date(2022, 9, 12), date(2022, 9, 14), &mask, &ExclusionSet::new());
    let lines = report(&counter);
    assert_eq!(lines[4], "Resum");
    assert_eq!(lines[5], "Sessions totals: 12884901885");
    assert_eq!(lines[6], "Nombre de setmanes: 1");
}
