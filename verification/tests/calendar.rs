use bracket_results::calendar::{read_timer, reference_cutoff, Date};

fn day(year: i32, month: u32, day: u32) -> Date {
    Date { year, month, day }
}

#[test]
fn reference_cutoff_is_the_thirtieth_of_may_2019() {
    assert_eq!(reference_cutoff(), day(2019, 5, 30));
}

#[test]
fn timer_text_gives_its_date() {
    assert_eq!(read_timer("January 5, 2019 - 18:00 UTC"), Some(day(2019, 1, 5)));
    assert_eq!(read_timer("May 31, 2019 - 12:00"), Some(day(2019, 5, 31)));
    assert_eq!(read_timer("  December 25, 2018  "), Some(day(2018, 12, 25)));
    assert_eq!(read_timer("February 29, 2020 - leap"), Some(day(2020, 2, 29)));
}

#[test]
fn timer_text_without_a_date_gives_none() {
    assert_eq!(read_timer(""), None);
    assert_eq!(read_timer("TBD"), None);
    assert_eq!(read_timer("- January 5, 2019"), None);
    assert_eq!(read_timer("2019-01-05"), None);
}

#[test]
fn timer_text_with_an_impossible_date_gives_none() {
    assert_eq!(read_timer("February 30, 2019 - 18:00"), None);
    assert_eq!(read_timer("February 29, 2019"), None);
    assert_eq!(read_timer("Smarch 1, 2019"), None);
}

#[test]
fn later_date_is_decided_by_year_then_month_then_day() {
    assert!(day(2020, 1, 1).is_after(&day(2019, 12, 31)));
    assert!(day(2019, 6, 1).is_after(&day(2019, 5, 30)));
    assert!(day(2019, 5, 31).is_after(&day(2019, 5, 30)));
    assert!(!day(2019, 5, 30).is_after(&day(2019, 5, 30)));
    assert!(!day(2019, 5, 29).is_after(&day(2019, 5, 30)));
    assert!(!day(2019, 4, 31).is_after(&day(2019, 5, 1)));
    assert!(!day(2018, 12, 31).is_after(&day(2019, 1, 1)));
    assert!(day(-1, 1, 1).is_after(&day(-2, 12, 31)));
}
