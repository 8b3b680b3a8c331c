use chartml::date_format::{
    date_format_of, date_str_fields, detect_date_format, format_as_quarter, label_dates_of,
    quarter_label_of, reformat_date_label, try_reformat_date_label, DateFormatter, DateTimeFields,
    LabelDates, QUARTER_FORMAT,
};

#[test]
fn test_format_date_identity() {
    assert_eq!(
        DateFormatter::new("%Y-%m-%d").format_date_str("2024-01-15"),
        Some("2024-01-15".to_string())
    );
}

#[test]
fn test_format_date_month_day_year() {
    assert_eq!(
        DateFormatter::new("%b %d, %Y").format_date_str("2024-01-15"),
        Some("Jan 15, 2024".to_string())
    );
}

#[test]
fn test_format_date_month_year() {
    assert_eq!(
        DateFormatter::new("%b %Y").format_date_str("2024-03-01"),
        Some("Mar 2024".to_string())
    );
}

#[test]
fn test_format_datetime() {
    let dt = DateTimeFields { year: 2024, month: 6, day: 15, hour: 14, minute: 30, second: 0, nanosecond: 0 };
    assert_eq!(DateFormatter::new("%Y-%m-%d %H:%M").format_datetime(&dt), "2024-06-15 14:30");
}

#[test]
fn test_format_date_str_with_time() {
    assert_eq!(
        DateFormatter::new("%Y-%m-%d %H:%M:%S").format_date_str("2024-01-15T10:30:00"),
        Some("2024-01-15 10:30:00".to_string())
    );
}

#[test]
fn test_format_date_str_invalid() {
    assert_eq!(DateFormatter::new("%Y-%m-%d").format_date_str("not-a-date"), None);
}

#[test]
fn fractional_seconds_are_accepted() {
    assert_eq!(
        DateFormatter::new("%H:%M:%S").format_date_str("2024-01-15T10:30:05.250"),
        Some("10:30:05".to_string())
    );
}

#[test]
fn invalid_format_is_reported_not_panicked() {
    let formatter = DateFormatter::new("%Q");
    assert!(!formatter.can_format_date_str("2024-01-15"));
    assert!(formatter.can_format_date_str("not-a-date"));
    assert!(formatter
        .try_format_datetime(&DateTimeFields { year: 2024, month: 1, day: 1, hour: 0, minute: 0, second: 0, nanosecond: 0 })
        .is_none());
    assert_eq!(try_reformat_date_label("2024-01-15", "%Q"), None);
    assert_eq!(try_reformat_date_label("2024-01-15", "%d/%m/%Y"), Some("15/01/2024".to_string()));
}

#[test]
fn test_detect_quarterly_format() {
    let labels: Vec<String> = vec![
        "2023-01-01".into(), "2023-04-01".into(),
        "2023-07-01".into(), "2023-10-01".into(),
    ];
    let fmt = detect_date_format(&labels).unwrap();
    assert_eq!(fmt, QUARTER_FORMAT);
}

#[test]
fn test_reformat_quarterly_labels() {
    assert_eq!(reformat_date_label("2023-01-01", QUARTER_FORMAT), "Q1 '23");
    assert_eq!(reformat_date_label("2023-04-01", QUARTER_FORMAT), "Q2 '23");
    assert_eq!(reformat_date_label("2023-07-01", QUARTER_FORMAT), "Q3 '23");
    assert_eq!(reformat_date_label("2023-10-01", QUARTER_FORMAT), "Q4 '23");
    assert_eq!(reformat_date_label("2025-01-01", QUARTER_FORMAT), "Q1 '25");
}

#[test]
fn test_non_quarterly_dates_not_detected_as_quarterly() {
    let labels: Vec<String> = vec![
        "2023-01-01".into(), "2023-02-01".into(),
        "2023-03-01".into(), "2023-04-01".into(),
    ];
    let fmt = detect_date_format(&labels).unwrap();
    assert_ne!(fmt, QUARTER_FORMAT);
}

#[test]
fn non_dates_are_left_alone() {
    assert_eq!(reformat_date_label("Widgets", "%b %Y"), "Widgets");
    assert_eq!(reformat_date_label("Widgets", QUARTER_FORMAT), "Widgets");
    assert_eq!(format_as_quarter("2023-08-01"), None);
    assert_eq!(format_as_quarter(" 2023-07-15 "), Some("Q3 '23".to_string()));
    assert_eq!(format_as_quarter("2009-10-01T08:00:00"), Some("Q4 '09".to_string()));
    assert_eq!(format_as_quarter("nope"), None);
    assert_eq!(detect_date_format(&["Jan".to_string(), "Feb".to_string()]), None);
    assert_eq!(detect_date_format(&[]), None);
}

fn dated(y: i32, m: u32, d: u32) -> LabelDates {
    LabelDates { date: Some((y, m, d)), datetime: None, datetime_fraction: None }
}

fn timed(y: i32, m: u32, d: u32) -> LabelDates {
    LabelDates { date: None, datetime: Some((y, m, d)), datetime_fraction: None }
}

fn undated() -> LabelDates {
    LabelDates { date: None, datetime: None, datetime_fraction: None }
}

#[test]
fn format_from_parsed_labels() {
    let q = vec![dated(2023, 1, 1), dated(2023, 4, 1), dated(2023, 7, 1)];
    assert_eq!(date_format_of(&q), Some("__QUARTER__".to_string()));
    let days = vec![dated(2023, 1, 5), dated(2023, 1, 6)];
    assert_eq!(date_format_of(&days), Some("%b %d".to_string()));
    let years = vec![dated(2022, 1, 5), dated(2023, 1, 6)];
    assert_eq!(date_format_of(&years), Some("%b '%y".to_string()));
    let same_day = vec![timed(2023, 1, 5), timed(2023, 1, 5)];
    assert_eq!(date_format_of(&same_day), Some("%H:%M".to_string()));
    let two_days = vec![timed(2023, 1, 5), timed(2023, 1, 6)];
    assert_eq!(date_format_of(&two_days), Some("%b %d %H:%M".to_string()));
    let two_years = vec![timed(2022, 1, 5), timed(2023, 1, 6)];
    assert_eq!(date_format_of(&two_years), Some("%b %d '%y %H:%M".to_string()));
    let few = vec![dated(2023, 1, 5), undated(), undated()];
    assert_eq!(date_format_of(&few), None);
    assert_eq!(date_format_of(&[]), None);
}

#[test]
fn parsed_labels_match_chrono() {
    let labels = vec!["2023-04-01".to_string(), " 2023-01-05T10:30:00 ".to_string(), "x".to_string()];
    let d = label_dates_of(&labels);
    assert_eq!(d[0].date, Some((2023, 4, 1)));
    assert_eq!(d[1].date, None);
    assert_eq!(d[1].datetime, Some((2023, 1, 5)));
    assert_eq!(d[2].datetime_fraction, None);
}

#[test]
fn quarter_label_from_date() {
    assert_eq!(quarter_label_of((2023, 1, 1)), Some("Q1 '23".to_string()));
    assert_eq!(quarter_label_of((2024, 10, 15)), Some("Q4 '24".to_string()));
    assert_eq!(quarter_label_of((2005, 7, 1)), Some("Q3 '05".to_string()));
    assert_eq!(quarter_label_of((2023, 2, 1)), None);
}

#[test]
fn date_string_fields_prefer_datetimes() {
    let dt = Some((2024, 1, 15, 10, 30, 0, 0));
    let d = Some((2024, 2, 1));
    assert_eq!(date_str_fields(dt, None, d).unwrap().hour, 10);
    assert_eq!(date_str_fields(None, Some((2024, 1, 15, 8, 0, 0, 500)), d).unwrap().nanosecond, 500);
    let midnight = date_str_fields(None, None, d).unwrap();
    assert_eq!((midnight.year, midnight.month, midnight.day, midnight.hour), (2024, 2, 1, 0));
    assert_eq!(date_str_fields(None, None, None), None);
}
