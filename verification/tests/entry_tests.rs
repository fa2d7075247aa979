use timekeeper::parser::get_today;
use timekeeper::time::validate;
use timekeeper::{CalendarDate, Record, TimeKeeperError, TimeOfDay};

#[test]
fn test_validate_duration() {
    assert_eq!(validate(TimeOfDay::new(9, 0), TimeOfDay::new(17, 30)), Ok(510));
}

#[test]
fn test_validate_rejects_out_before_in() {
    assert_eq!(
        validate(TimeOfDay::new(17, 0), TimeOfDay::new(9, 0)),
        Err(TimeKeeperError::CheckOutBeforeCheckIn)
    );
}

#[test]
fn test_validate_rejects_equal_times() {
    assert_eq!(
        validate(TimeOfDay::new(9, 0), TimeOfDay::new(9, 0)),
        Err(TimeKeeperError::CheckOutBeforeCheckIn)
    );
}

#[test]
fn test_record_duration_minutes() {
    let record = Record {
        id: 1,
        check_in: TimeOfDay::new(9, 0),
        check_out: TimeOfDay::new(17, 30),
        date: CalendarDate::new(2024, 3, 12),
    };
    assert_eq!(record.duration_minutes(), 510);
    let open_entry = Record { check_out: TimeOfDay::new(9, 0), ..record };
    assert_eq!(open_entry.duration_minutes(), 0);
}

#[test]
fn test_get_today_is_a_real_date() {
    let today = get_today();
    assert!((1..=12).contains(&today.month));
    assert!(today.day >= 1);
    assert!(today.day <= timekeeper::date::days_in_month(today.year, today.month));
}
