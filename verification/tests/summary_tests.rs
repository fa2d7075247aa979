use timekeeper::summary::{date_minutes, sort_records_desc, sum_minutes};
use timekeeper::{CalendarDate, Record, TimeOfDay};

fn entry(id: i32, date: CalendarDate, in_h: u8, in_m: u8, out_h: u8, out_m: u8) -> Record {
    Record {
        id,
        check_in: TimeOfDay::new(in_h, in_m),
        check_out: TimeOfDay::new(out_h, out_m),
        date,
    }
}

#[test]
fn test_sort_records_desc_orders_recent_first() {
    let march_11 = CalendarDate::new(2024, 3, 11);
    let march_12 = CalendarDate::new(2024, 3, 12);
    let mut records = vec![
        entry(1, march_11, 9, 0, 17, 0),
        entry(2, march_12, 8, 0, 12, 0),
        entry(3, march_11, 13, 30, 18, 0),
        entry(4, march_12, 13, 0, 17, 30),
    ];
    sort_records_desc(&mut records);
    let ids: Vec<i32> = records.iter().map(|r| r.id).collect();
    assert_eq!(ids, vec![4, 2, 3, 1]);
}

#[test]
fn test_sort_records_desc_keeps_every_record() {
    let date = CalendarDate::new(2023, 12, 31);
    let mut records = vec![
        entry(1, date, 9, 0, 10, 0),
        entry(2, date, 8, 0, 9, 0),
        entry(3, date, 7, 0, 8, 0),
    ];
    sort_records_desc(&mut records);
    assert_eq!(records.len(), 3);
    let ids: Vec<i32> = records.iter().map(|r| r.id).collect();
    assert_eq!(ids, vec![1, 2, 3]);
}

#[test]
fn test_sum_and_date_minutes() {
    let march_11 = CalendarDate::new(2024, 3, 11);
    let march_12 = CalendarDate::new(2024, 3, 12);
    let records = vec![
        entry(1, march_11, 9, 0, 17, 0),   // 480 minutes
        entry(2, march_12, 8, 0, 12, 30),  // 270 minutes
        entry(3, march_11, 18, 0, 18, 45), // 45 minutes
    ];
    assert_eq!(sum_minutes(&records), 795);
    assert_eq!(date_minutes(&records, &march_11), 525);
    assert_eq!(date_minutes(&records, &march_12), 270);
    assert_eq!(date_minutes(&records, &CalendarDate::new(2024, 3, 13)), 0);
}

#[test]
fn test_sum_minutes_counts_open_entries_as_zero() {
    let date = CalendarDate::new(2024, 3, 11);
    let records = vec![entry(1, date, 9, 0, 9, 0)];
    assert_eq!(sum_minutes(&records), 0);
    assert_eq!(date_minutes(&records, &date), 0);
}
