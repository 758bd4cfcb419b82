use ryanair_api::expand::{expand, get_weekday_combinations, parse_weekday, ExpandError};
use ryanair_api::date::Date;

#[test]
fn invalid_date_is_rejected_first() {
    assert_eq!(
        get_weekday_combinations("2024-04-31", "2024-05-15", "monday", "sunday"),
        Err(ExpandError::InvalidDateFormat)
    );
    assert_eq!(
        get_weekday_combinations("2024-04-15", "not-a-date", "monday", "sunday"),
        Err(ExpandError::InvalidDateFormat)
    );
    // A bad date wins over a bad weekday: dates are checked first.
    assert_eq!(
        get_weekday_combinations("garbage", "2024-05-15", "someday", "sunday"),
        Err(ExpandError::InvalidDateFormat)
    );
}

#[test]
fn invalid_weekday_is_rejected() {
    assert_eq!(
        get_weekday_combinations("2024-04-15", "2024-05-15", "someday", "sunday"),
        Err(ExpandError::InvalidWeekdayName)
    );
    assert_eq!(
        get_weekday_combinations("2024-04-15", "2024-05-15", "monday", ""),
        Err(ExpandError::InvalidWeekdayName)
    );
}

#[test]
fn weekday_names_are_case_insensitive() {
    assert_eq!(parse_weekday("monday"), Some(0));
    assert_eq!(parse_weekday("Monday"), Some(0));
    assert_eq!(parse_weekday("TUESDAY"), Some(1));
    assert_eq!(parse_weekday("wEdNeSdAy"), Some(2));
    assert_eq!(parse_weekday("thursday"), Some(3));
    assert_eq!(parse_weekday("friday"), Some(4));
    assert_eq!(parse_weekday("saturday"), Some(5));
    assert_eq!(parse_weekday("SunDay"), Some(6));
    assert_eq!(parse_weekday("mondays"), None);
    assert_eq!(parse_weekday("mon"), None);
}

#[test]
fn mixed_case_names_expand_like_lowercase() {
    assert_eq!(
        get_weekday_combinations("2024-04-15", "2024-05-15", "Monday", "SUNDAY").unwrap(),
        get_weekday_combinations("2024-04-15", "2024-05-15", "monday", "sunday").unwrap()
    );
}

#[test]
fn every_pair_returns_after_outbound_and_before_range_end() {
    // Outbound on a Saturday, return on a Monday: without the one-week
    // adjustment the first return would precede the first outbound.
    let pairs = expand(
        Date { year: 2024, month: 4, day: 15 },
        Date { year: 2024, month: 6, day: 1 },
        5, // saturday
        0, // monday
    );
    assert!(!pairs.is_empty());
    for p in &pairs {
        let out = (p.outbound.year, p.outbound.month, p.outbound.day);
        let ret = (p.return_date.year, p.return_date.month, p.return_date.day);
        assert!(ret > out);
        assert!(ret < (2024, 6, 1));
    }
    assert_eq!(pairs[0].outbound, Date { year: 2024, month: 4, day: 20 });
    assert_eq!(pairs[0].return_date, Date { year: 2024, month: 4, day: 22 });
}

#[test]
fn equal_weekdays_give_same_day_pairs() {
    let pairs = expand(
        Date { year: 2024, month: 4, day: 15 },
        Date { year: 2024, month: 5, day: 15 },
        0,
        0,
    );
    assert_eq!(pairs.len(), 5);
    for p in &pairs {
        assert_eq!(p.outbound, p.return_date);
    }
}

#[test]
fn expand_is_idempotent() {
    let a = get_weekday_combinations("2024-04-13", "2024-07-01", "wednesday", "friday").unwrap();
    let b = get_weekday_combinations("2024-04-13", "2024-07-01", "wednesday", "friday").unwrap();
    assert_eq!(a, b);
}

#[test]
fn range_crossing_year_end() {
    let expected: Vec<(String, String)> = vec![
        ("2024-12-23".to_string(), "2024-12-29".to_string()),
        ("2024-12-30".to_string(), "2025-01-05".to_string()),
    ];
    assert_eq!(
        get_weekday_combinations("2024-12-20", "2025-01-10", "monday", "sunday").unwrap(),
        expected
    );
}
