use timekeeper::parser::parse_date_str;
use timekeeper::{CalendarDate, TimeKeeperError};

#[test]
fn test_compact_and_slashed_dates_agree() {
    let plain = parse_date_str("0312", 2024).unwrap();
    let slashed = parse_date_str("03/12", 2024).unwrap();
    assert_eq!(plain, CalendarDate::new(2024, 3, 12));
    assert_eq!(plain, slashed);
}

#[test]
fn test_day_out_of_range() {
    // February never has 30 days, leap year or not.
    assert_eq!(parse_date_str("0230", 2024), Err(TimeKeeperError::InvalidDay));
    assert_eq!(parse_date_str("1332", 2024), Err(TimeKeeperError::InvalidMonth));
    assert_eq!(parse_date_str("0400", 2024), Err(TimeKeeperError::InvalidDay));
    assert_eq!(parse_date_str("0431", 2024), Err(TimeKeeperError::InvalidDay));
}

#[test]
fn test_leap_year_february() {
    assert_eq!(parse_date_str("0229", 2024).unwrap(), CalendarDate::new(2024, 2, 29));
    assert_eq!(parse_date_str("0229", 2023), Err(TimeKeeperError::InvalidDay));
    // Centuries are not leap years unless divisible by 400.
    assert_eq!(parse_date_str("0229", 1900), Err(TimeKeeperError::InvalidDay));
    assert_eq!(parse_date_str("0229", 2000).unwrap(), CalendarDate::new(2000, 2, 29));
}

#[test]
fn test_date_format_rejections() {
    assert_eq!(parse_date_str("123", 2024), Err(TimeKeeperError::InvalidDateFormat));
    assert_eq!(parse_date_str("12345", 2024), Err(TimeKeeperError::InvalidDateFormat));
    assert_eq!(parse_date_str("12a4", 2024), Err(TimeKeeperError::InvalidDateFormat));
    assert_eq!(parse_date_str("", 2024), Err(TimeKeeperError::InvalidDateFormat));
    assert_eq!(parse_date_str("//", 2024), Err(TimeKeeperError::InvalidDateFormat));
}

#[test]
fn test_slashes_stripped_anywhere() {
    // Only the slash-free digits matter, wherever the slashes sat.
    assert_eq!(parse_date_str("/0312/", 2024).unwrap(), CalendarDate::new(2024, 3, 12));
    assert_eq!(parse_date_str("031/2", 2024).unwrap(), CalendarDate::new(2024, 3, 12));
}
