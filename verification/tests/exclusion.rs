use daycounter::date::CalendarDate;
use daycounter::exclusion::{load_excluded_dates, ExclusionSet};
use daycounter::text::DateFormatError;

fn date(year: i32, month: u32, day: u32) -> CalendarDate {
    CalendarDate::from_ymd(year, month, day).unwrap()
}

fn lines(texts: &[&str]) -> Vec<String> {
    texts.iter().map(|t| t.to_string()).collect()
}

#[test]
fn new_set_holds_nothing() {
    let set = ExclusionSet::new();
    assert!(!set.contains(&date(2022, 9, 12)));
    assert!(!set.contains(&date(-262143, 1, 1)));
}

#[test]
fn insert_adds_the_date_and_no_other() {
    let mut set = ExclusionSet::new();
    set.insert(date(2022, 9, 12));
    assert!(set.contains(&date(2022, 9, 12)));
    assert!(!set.contains(&date(2022, 9, 13)));
    assert!(!set.contains(&date(2022, 9, 11)));
    assert!(!set.contains(&date(2022, 12, 9)));
    assert!(!set.contains(&date(2021, 9, 12)));
    assert!(!set.contains(&date(2023, 9, 12)));
    assert!(!set.contains(&date(2022, 10, 12)));
    set.insert(date(2022, 9, 13));
    assert!(set.contains(&date(2022, 9, 12)));
    assert!(set.contains(&date(2022, 9, 13)));
}

#[test]
fn insert_twice_is_insert_once() {
    let mut set = ExclusionSet::new();
    set.insert(date(2022, 9, 12));
    set.insert(date(2022, 9, 12));
    assert!(set.contains(&date(2022, 9, 12)));
    assert!(!set.contains(&date(2022, 9, 13)));
}

#[test]
fn neighbours_at_month_ends_do_not_collide() {
    let mut set = ExclusionSet::new();
    set.insert(date(2022, 1, 31));
    assert!(!set.contains(&date(2022, 2, 1)));
    set.insert(date(2022, 12, 31));
    assert!(!set.contains(&date(2023, 1, 1)));
    assert!(set.contains(&date(2022, 1, 31)));
    assert!(set.contains(&date(2022, 12, 31)));
}

#[test]
fn load_reads_one_date_per_line() {
    let set = load_excluded_dates(&lines(&["12/09/2022", "1/11/2022", "06/12/2022"])).unwrap();
    assert!(set.contains(&date(2022, 9, 12)));
    assert!(set.contains(&date(2022, 11, 1)));
    assert!(set.contains(&date(2022, 12, 6)));
    assert!(!set.contains(&date(2022, 12, 9)));
    assert!(!set.contains(&date(2022, 1, 11)));
    assert!(!set.contains(&date(2022, 6, 12)));
}

#[test]
fn load_of_no_lines_is_the_empty_set() {
    let set = load_excluded_dates(&Vec::new()).unwrap();
    assert!(!set.contains(&date(2022, 9, 12)));
}

#[test]
fn load_takes_repeated_dates() {
    let set = load_excluded_dates(&lines(&["12/09/2022", "12/9/2022", "+12/09/2022"])).unwrap();
    assert!(set.contains(&date(2022, 9, 12)));
    assert!(!set.contains(&date(2022, 9, 13)));
}

#[test]
fn load_fails_on_a_line_that_is_no_date() {
    assert_eq!(
        load_excluded_dates(&lines(&["12/09/2022", "never", "13/09/2022"])).err(),
        Some(DateFormatError)
    );
    assert_eq!(load_excluded_dates(&lines(&["31/04/2022"])).err(), Some(DateFormatError));
    assert_eq!(
        load_excluded_dates(&lines(&["12/09/2022", "13/09"])).err(),
        Some(DateFormatError)
    );
    assert_eq!(load_excluded_dates(&lines(&["2022-09-12"])).err(), Some(DateFormatError));
}

#[test]
fn load_fails_on_an_empty_line() {
    assert_eq!(load_excluded_dates(&lines(&[""])).err(), Some(DateFormatError));
    assert_eq!(
        load_excluded_dates(&lines(&["12/09/2022", "", "13/09/2022"])).err(),
        Some(DateFormatError)
    );
    assert_eq!(load_excluded_dates(&lines(&["12/09/2022", " "])).err(), Some(DateFormatError));
}
