//! Tests for calendar dates: building, ordering, parsing and formatting.

use currency_conversions::date::{parse_date_time, parse_ymd, Date};

#[test]
fn test_from_ymd_opt() {
    assert!(Date::from_ymd_opt(2021, 1, 1).is_some());
    assert!(Date::from_ymd_opt(2021, 2, 28).is_some());
    assert!(Date::from_ymd_opt(2021, 2, 29).is_none());
    assert!(Date::from_ymd_opt(2024, 2, 29).is_some());
    assert!(Date::from_ymd_opt(1900, 2, 29).is_none());
    assert!(Date::from_ymd_opt(2000, 2, 29).is_some());
    assert!(Date::from_ymd_opt(2021, 4, 31).is_none());
    assert!(Date::from_ymd_opt(2021, 13, 1).is_none());
    assert!(Date::from_ymd_opt(2021, 0, 1).is_none());
    assert!(Date::from_ymd_opt(2021, 1, 0).is_none());
    assert!(Date::from_ymd_opt(-1, 1, 1).is_none());
    assert!(Date::from_ymd_opt(10000, 1, 1).is_none());
}

#[test]
fn test_is_after() {
    let a = Date::from_ymd_opt(2021, 1, 2).unwrap();
    let b = Date::from_ymd_opt(2021, 1, 1).unwrap();
    let c = Date::from_ymd_opt(2020, 12, 31).unwrap();
    assert!(a.is_after(&b));
    assert!(!b.is_after(&a));
    assert!(!a.is_after(&a));
    assert!(b.is_after(&c));
}

#[test]
fn test_format_iso() {
    let d = Date::from_ymd_opt(2021, 1, 1).unwrap();
    assert_eq!(d.format_iso(), "2021-01-01");
    let d = Date::from_ymd_opt(987, 12, 31).unwrap();
    assert_eq!(d.format_iso(), "0987-12-31");
}

#[test]
fn test_parse_ymd() {
    assert_eq!(parse_ymd("2021-01-01"), Date::from_ymd_opt(2021, 1, 1));
    assert_eq!(parse_ymd("2024-02-29"), Date::from_ymd_opt(2024, 2, 29));
    assert_eq!(parse_ymd("2023-02-29"), None);
    assert_eq!(parse_ymd("2021-1-1"), None);
    assert_eq!(parse_ymd("2021-01-01x"), None);
    assert_eq!(parse_ymd("2021/01/01"), None);
    assert_eq!(parse_ymd(""), None);
}

#[test]
fn test_parse_ymd_round_trip() {
    let d = Date::from_ymd_opt(2023, 7, 10).unwrap();
    assert_eq!(parse_ymd(d.format_iso().as_str()), Some(d));
}

#[test]
fn test_parse_date_time() {
    assert_eq!(
        parse_date_time("2023-01-04, 12:30:15"),
        Date::from_ymd_opt(2023, 1, 4)
    );
    assert_eq!(
        parse_date_time("2023-01-04"),
        Date::from_ymd_opt(2023, 1, 4)
    );
    assert_eq!(parse_date_time("bogus, 12:30:15"), None);
    assert_eq!(parse_date_time(""), None);
}
