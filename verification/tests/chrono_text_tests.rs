use blitzjson::temporal::{
    format_date, format_datetime_naive, format_datetime_with_tz, format_time, is_valid_clock, is_valid_date,
    is_valid_parts, zulu, DateTimeParts,
};

fn at(microsecond: i32, offset: Option<i32>) -> DateTimeParts {
    DateTimeParts {
        year: 2024,
        month: 1,
        day: 5,
        hour: 13,
        minute: 5,
        second: 9,
        microsecond,
        is_utc: offset == Some(0),
        utc_offset_minutes: offset,
    }
}

#[test]
fn date_text_is_padded() {
    assert_eq!(format_date(2024, 1, 5), "2024-01-05");
    assert_eq!(format_date(7, 12, 31), "0007-12-31");
}

#[test]
fn time_text_shows_nanoseconds_only_when_present() {
    assert_eq!(format_time(13, 5, 9, 0), "13:05:09");
    assert_eq!(format_time(13, 5, 9, 123_456_000), "13:05:09.123456000");
}

#[test]
fn naive_datetime_text() {
    assert_eq!(format_datetime_naive(&at(0, None)), "2024-01-05T13:05:09");
    assert_eq!(format_datetime_naive(&at(1500, None)), "2024-01-05T13:05:09.001500000");
}

#[test]
fn offset_datetime_text() {
    assert_eq!(format_datetime_with_tz(&at(0, Some(60))), "2024-01-05T13:05:09+01:00");
    assert_eq!(format_datetime_with_tz(&at(0, Some(-330))), "2024-01-05T13:05:09-05:30");
    assert_eq!(format_datetime_with_tz(&at(7, Some(60))), "2024-01-05T13:05:09.000007000+01:00");
}

#[test]
fn zero_offset_is_written_z() {
    assert_eq!(format_datetime_with_tz(&at(0, Some(0))), "2024-01-05T13:05:09Z");
    assert_eq!(format_datetime_with_tz(&at(250_000, Some(0))), "2024-01-05T13:05:09.250000000Z");
}

#[test]
fn zulu_replaces_only_a_trailing_zero_offset() {
    assert_eq!(zulu("10:00+00:00".to_string()), "10:00Z");
    assert_eq!(zulu("+00:00".to_string()), "Z");
    assert_eq!(zulu("10:00+00:30".to_string()), "10:00+00:30");
    assert_eq!(zulu("+00:0".to_string()), "+00:0");
    assert_eq!(zulu(String::new()), "");
}

#[test]
fn validity_of_fields() {
    assert!(is_valid_date(2024, 2, 29));
    assert!(!is_valid_date(2023, 2, 29));
    assert!(!is_valid_date(1900, 2, 29));
    assert!(is_valid_date(2000, 2, 29));
    assert!(!is_valid_date(2024, 4, 31));
    assert!(!is_valid_date(0, 1, 1));
    assert!(is_valid_clock(23, 59, 59, 999_999_999));
    assert!(!is_valid_clock(24, 0, 0, 0));
    assert!(is_valid_parts(&at(999_999, Some(1439))));
    assert!(!is_valid_parts(&at(1_000_000, None)));
    assert!(!is_valid_parts(&at(0, Some(1440))));
}
