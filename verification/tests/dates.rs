use ryanair_api::date::{add_days, format_date, parse_date, weekday, Date};

#[test]
fn parse_valid_date() {
    let d = parse_date("2024-04-15").unwrap();
    assert_eq!(d, Date { year: 2024, month: 4, day: 15 });
}

#[test]
fn parse_leap_day() {
    assert_eq!(parse_date("2024-02-29").unwrap(), Date { year: 2024, month: 2, day: 29 });
    assert!(parse_date("2023-02-29").is_none());
    assert!(parse_date("1900-02-29").is_none());
    assert_eq!(parse_date("2000-02-29").unwrap(), Date { year: 2000, month: 2, day: 29 });
}

#[test]
fn parse_rejects_malformed_text() {
    assert!(parse_date("15-04-2024").is_none());
    assert!(parse_date("2024/04/15").is_none());
    assert!(parse_date("2024-4-15").is_none());
    assert!(parse_date("2024-04-15 ").is_none());
    assert!(parse_date("").is_none());
    assert!(parse_date("2024-13-01").is_none());
    assert!(parse_date("2024-00-10").is_none());
    assert!(parse_date("2024-04-31").is_none());
    assert!(parse_date("2024-04-00").is_none());
    assert!(parse_date("0000-01-01").is_none());
}

#[test]
fn format_pads_with_zeros() {
    let d = Date { year: 812, month: 3, day: 7 };
    assert_eq!(format_date(&d), "0812-03-07".to_string());
    assert_eq!(format_date(&Date { year: 2024, month: 12, day: 31 }), "2024-12-31".to_string());
}

#[test]
fn format_then_parse_round_trips() {
    let d = Date { year: 2024, month: 4, day: 15 };
    assert_eq!(parse_date(&format_date(&d)).unwrap(), d);
}

#[test]
fn weekday_matches_known_days() {
    // 2024-04-15 was a Monday, 2000-01-01 a Saturday, 0001-01-01 a Monday.
    assert_eq!(weekday(Date { year: 2024, month: 4, day: 15 }), 0);
    assert_eq!(weekday(Date { year: 2000, month: 1, day: 1 }), 5);
    assert_eq!(weekday(Date { year: 1, month: 1, day: 1 }), 0);
    // 2024-04-13 was a Saturday, 2024-04-21 a Sunday.
    assert_eq!(weekday(Date { year: 2024, month: 4, day: 13 }), 5);
    assert_eq!(weekday(Date { year: 2024, month: 4, day: 21 }), 6);
}

#[test]
fn add_days_rolls_over_boundaries() {
    let d = Date { year: 2024, month: 12, day: 31 };
    assert_eq!(add_days(d, 1), Date { year: 2025, month: 1, day: 1 });
    let e = Date { year: 2024, month: 2, day: 28 };
    assert_eq!(add_days(e, 1), Date { year: 2024, month: 2, day: 29 });
    assert_eq!(add_days(e, 2), Date { year: 2024, month: 3, day: 1 });
    let f = Date { year: 2023, month: 2, day: 28 };
    assert_eq!(add_days(f, 1), Date { year: 2023, month: 3, day: 1 });
    assert_eq!(add_days(Date { year: 2024, month: 4, day: 15 }, 0), Date {
        year: 2024,
        month: 4,
        day: 15
    });
}
