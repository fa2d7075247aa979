use timekeeper::parser::{format_hhmm, parse_time_str};
use timekeeper::TimeOfDay;

#[test]
fn test_military_time() {
    // Test standard military time formats
    assert_eq!(parse_time_str("19:00").unwrap(), TimeOfDay::new(19, 0));
    assert_eq!(parse_time_str("07:30").unwrap(), TimeOfDay::new(7, 30));
    assert_eq!(parse_time_str("00:00").unwrap(), TimeOfDay::new(0, 0));
    assert_eq!(parse_time_str("23:59").unwrap(), TimeOfDay::new(23, 59));
}

#[test]
fn test_am_times() {
    // Test various AM time formats
    assert_eq!(parse_time_str("9am").unwrap(), TimeOfDay::new(9, 0));
    assert_eq!(parse_time_str("9:00am").unwrap(), TimeOfDay::new(9, 0));
    assert_eq!(parse_time_str("09:00am").unwrap(), TimeOfDay::new(9, 0));
    assert_eq!(parse_time_str("7:30am").unwrap(), TimeOfDay::new(7, 30));
    assert_eq!(parse_time_str("07:30am").unwrap(), TimeOfDay::new(7, 30));
    assert_eq!(parse_time_str("12:00am").unwrap(), TimeOfDay::new(0, 0));
}

#[test]
fn test_pm_times() {
    // Test various PM time formats
    assert_eq!(parse_time_str("9pm").unwrap(), TimeOfDay::new(21, 0));
    assert_eq!(parse_time_str("9:00pm").unwrap(), TimeOfDay::new(21, 0));
    assert_eq!(parse_time_str("09:00pm").unwrap(), TimeOfDay::new(21, 0));
    assert_eq!(parse_time_str("7:30pm").unwrap(), TimeOfDay::new(19, 30));
    assert_eq!(parse_time_str("07:30pm").unwrap(), TimeOfDay::new(19, 30));
    assert_eq!(parse_time_str("12:00pm").unwrap(), TimeOfDay::new(12, 0));
}

#[test]
fn test_compact_formats() {
    // Test compact time formats without colons
    assert_eq!(parse_time_str("0900").unwrap(), TimeOfDay::new(9, 0));
    assert_eq!(parse_time_str("1900").unwrap(), TimeOfDay::new(19, 0));
    assert_eq!(parse_time_str("730pm").unwrap(), TimeOfDay::new(19, 30));
    assert_eq!(parse_time_str("0730pm").unwrap(), TimeOfDay::new(19, 30));
}

#[test]
fn test_case_insensitivity() {
    // Test case insensitivity
    assert_eq!(parse_time_str("9AM").unwrap(), TimeOfDay::new(9, 0));
    assert_eq!(parse_time_str("9PM").unwrap(), TimeOfDay::new(21, 0));
    assert_eq!(parse_time_str("9:00AM").unwrap(), TimeOfDay::new(9, 0));
    assert_eq!(parse_time_str("9:00PM").unwrap(), TimeOfDay::new(21, 0));
}

#[test]
fn test_invalid_formats() {
    // Test invalid time formats
    assert!(parse_time_str("25:00").is_err()); // Invalid hour
    assert!(parse_time_str("13pm").is_err()); // Invalid hour for PM
    assert!(parse_time_str("9:60").is_err()); // Invalid minutes
    assert!(parse_time_str("abc").is_err()); // Invalid format
    assert!(parse_time_str("").is_err()); // Empty string
    assert!(parse_time_str("9:00xyz").is_err()); // Invalid suffix
}

#[test]
fn test_bare_meridian_hours() {
    assert_eq!(parse_time_str("12am").unwrap(), TimeOfDay::new(0, 0));
    assert_eq!(parse_time_str("12pm").unwrap(), TimeOfDay::new(12, 0));
    assert_eq!(parse_time_str("9am").unwrap(), TimeOfDay::new(9, 0));
    assert_eq!(parse_time_str("9pm").unwrap(), TimeOfDay::new(21, 0));
}

#[test]
fn test_equivalent_pm_spellings() {
    let a = parse_time_str("730pm").unwrap();
    let b = parse_time_str("0730pm").unwrap();
    let c = parse_time_str("07:30pm").unwrap();
    assert_eq!(a, TimeOfDay::new(19, 30));
    assert_eq!(a, b);
    assert_eq!(b, c);
}

#[test]
fn test_error_carries_input_verbatim() {
    match parse_time_str("9:00xyz") {
        Err(timekeeper::TimeKeeperError::InvalidTimeFormat(raw)) => assert_eq!(raw, "9:00xyz"),
        other => panic!("expected InvalidTimeFormat, got {:?}", other),
    }
}

#[test]
fn test_whitespace_is_not_trimmed() {
    assert!(parse_time_str(" 9am").is_err());
    assert!(parse_time_str("9 am").is_err());
    assert!(parse_time_str("19:00 ").is_err());
}

#[test]
fn test_structural_match_blocks_fallthrough() {
    // A shape that matches structurally but fails validation must reject,
    // not fall through to a later shape.
    assert!(parse_time_str("24:00").is_err());
    assert!(parse_time_str("9:99").is_err());
    assert!(parse_time_str("2460").is_err());
    assert!(parse_time_str("0pm").is_err());
    assert!(parse_time_str("1360pm").is_err());
}

#[test]
fn test_format_hhmm_zero_pads() {
    assert_eq!(format_hhmm(&TimeOfDay::new(9, 5)), "09:05");
    assert_eq!(format_hhmm(&TimeOfDay::new(0, 0)), "00:00");
    assert_eq!(format_hhmm(&TimeOfDay::new(23, 59)), "23:59");
}

#[test]
fn test_format_parse_roundtrip() {
    for &(h, m) in &[(0u8, 0u8), (9, 5), (12, 0), (19, 30), (23, 59)] {
        let t = TimeOfDay::new(h, m);
        let rendered = format_hhmm(&t);
        assert_eq!(parse_time_str(&rendered).unwrap(), t);
    }
}
