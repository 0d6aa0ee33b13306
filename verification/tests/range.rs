use daycounter::calendar::MAX_YEAR;
use daycounter::date::CalendarDate;
use daycounter::range::DateRange;

fn date(year: i32, month: u32, day: u32) -> CalendarDate {
    CalendarDate::from_ymd(year, month, day).unwrap()
}

fn collect(start: CalendarDate, end: CalendarDate) -> Vec<CalendarDate> {
    let mut range = DateRange::new(start, end);
    let mut days = Vec::new();
    while let Some(d) = range.next() {
        days.push(d);
    }
    days
}

#[test]
fn range_holds_both_ends() {
    assert_eq!(
        collect(date(2022, 9, 12), date(2022, 9, 15)),
        vec![date(2022, 9, 12), date(2022, 9, 13), date(2022, 9, 14), date(2022, 9, 15)]
    );
}

#[test]
fn range_of_one_day() {
    assert_eq!(collect(date(2022, 9, 12), date(2022, 9, 12)), vec![date(2022, 9, 12)]);
}

#[test]
fn range_with_start_after_end_is_empty() {
    assert_eq!(collect(date(2022, 9, 13), date(2022, 9, 12)), Vec::new());
    assert_eq!(collect(date(2023, 1, 1), date(2022, 12, 31)), Vec::new());
    assert_eq!(collect(date(2022, 12, 10), date(2022, 9, 12)), Vec::new());
}

#[test]
fn range_crosses_months_and_years() {
    assert_eq!(
        collect(date(2022, 12, 30), date(2023, 1, 2)),
        vec![date(2022, 12, 30), date(2022, 12, 31), date(2023, 1, 1), date(2023, 1, 2)]
    );
    assert_eq!(
        collect(date(2024, 2, 28), date(2024, 3, 1)),
        vec![date(2024, 2, 28), date(2024, 2, 29), date(2024, 3, 1)]
    );
    assert_eq!(
        collect(date(2023, 2, 28), date(2023, 3, 1)),
        vec![date(2023, 2, 28), date(2023, 3, 1)]
    );
}

#[test]
fn range_counts_the_days_of_a_span() {
    assert_eq!(collect(date(2022, 9, 12), date(2022, 12, 10)).len(), 90);
    assert_eq!(collect(date(2023, 1, 1), date(2023, 12, 31)).len(), 365);
    assert_eq!(collect(date(2024, 1, 1), date(2024, 12, 31)).len(), 366);
    assert_eq!(collect(date(2001, 1, 1), date(2400, 12, 31)).len(), 146_097);
}

#[test]
fn range_ends_at_the_last_date() {
    assert_eq!(
        collect(date(MAX_YEAR, 12, 30), date(MAX_YEAR, 12, 31)),
        vec![date(MAX_YEAR, 12, 30), date(MAX_YEAR, 12, 31)]
    );
}

#[test]
fn next_stays_none_once_the_range_is_done() {
    let mut range = DateRange::new(date(2022, 9, 12), date(2022, 9, 13));
    assert_eq!(range.next(), Some(date(2022, 9, 12)));
    assert_eq!(range.next(), Some(date(2022, 9, 13)));
    assert_eq!(range.next(), None);
    assert_eq!(range.next(), None);
    let mut last = DateRange::new(date(MAX_YEAR, 12, 31), date(MAX_YEAR, 12, 31));
    assert_eq!(last.next(), Some(date(MAX_YEAR, 12, 31)));
    assert_eq!(last.next(), None);
    assert_eq!(last.next(), None);
}

#[test]
fn a_new_range_starts_over() {
    let first = collect(date(2022, 9, 12), date(2022, 9, 20));
    let second = collect(date(2022, 9, 12), date(2022, 9, 20));
    assert_eq!(first, second);
    assert_eq!(first.len(), 9);
}

#[test]
fn range_days_grow_one_by_one() {
    let days = collect(date(2019, 12, 1), date(2021, 3, 31));
    for pair in days.windows(2) {
        assert!(pair[0].is_before(&pair[1]));
        assert_eq!(pair[0].succ(), Some(pair[1]));
    }
}
