use blitzjson::base64::{encode_base64, encode_base64_to_buf};
use blitzjson::decode::{deserialize, text_of_bytes};
use blitzjson::errors::{check_depth, ErrorClass, SerializeError, MAX_DEPTH};
use blitzjson::numbers::decimal_string;
use blitzjson::ordering::sorted_order;
use blitzjson::temporal::{
    format_datetime, format_duration, format_timedelta, write_datetime, write_timedelta,
    DateTimeParts,
};
use blitzjson::writer::JsonWriter;

#[test]
fn base64_examples() {
    assert_eq!(encode_base64(b"hello"), "aGVsbG8=");
    assert_eq!(encode_base64(b"hell"), "aGVsbA==");
    assert_eq!(encode_base64(b"hel"), "aGVs");
    assert_eq!(encode_base64(b""), "");
    assert_eq!(encode_base64(&[0xff, 0xfe, 0x00, 0x3e, 0x3f]), "//4APj8=");
}

#[test]
fn base64_length_is_four_per_started_triple() {
    for n in 0..20usize {
        let data: Vec<u8> = (0..n).map(|i| (i * 37) as u8).collect();
        assert_eq!(encode_base64(&data).len(), 4 * ((n + 2) / 3));
    }
}

#[test]
fn base64_into_writer_is_a_string() {
    let mut w = JsonWriter::new(8);
    encode_base64_to_buf(&mut w, b"hello");
    assert_eq!(w.into_string(), "\"aGVsbG8=\"");
}

fn parts(year: i32, month: i32, day: i32, hour: i32, minute: i32, second: i32, microsecond: i32, is_utc: bool) -> DateTimeParts {
    DateTimeParts { year, month, day, hour, minute, second, microsecond, is_utc, utc_offset_minutes: if is_utc { Some(0) } else { None } }
}

fn aware(offset: i32) -> DateTimeParts {
    DateTimeParts {
        year: 2024, month: 1, day: 15, hour: 10, minute: 30, second: 45, microsecond: 0,
        is_utc: false, utc_offset_minutes: Some(offset),
    }
}

#[test]
fn datetime_keeps_utc_offset() {
    assert_eq!(format_datetime(&aware(120)), "2024-01-15T10:30:45+02:00");
    assert_eq!(format_datetime(&aware(-330)), "2024-01-15T10:30:45-05:30");
    assert_eq!(format_datetime(&aware(0)), "2024-01-15T10:30:45+00:00");
    let mut w = JsonWriter::new(0);
    write_datetime(&mut w, &aware(120));
    assert_eq!(w.into_string(), "\"2024-01-15T10:30:45+02:00\"");
}

#[test]
fn datetime_readme_example() {
    assert_eq!(format_datetime(&parts(2024, 1, 15, 10, 30, 45, 0, true)), "2024-01-15T10:30:45Z");
}

#[test]
fn datetime_naive_with_microseconds() {
    assert_eq!(format_datetime(&parts(2024, 12, 3, 7, 5, 9, 123, false)), "2024-12-03T07:05:09.000123");
}

#[test]
fn datetime_small_year_is_padded() {
    assert_eq!(format_datetime(&parts(5, 1, 1, 0, 0, 0, 0, false)), "0005-01-01T00:00:00");
}

#[test]
fn datetime_written_as_json_string() {
    let mut w = JsonWriter::new(8);
    write_datetime(&mut w, &parts(1999, 12, 31, 23, 59, 59, 999999, true));
    assert_eq!(w.into_string(), "\"1999-12-31T23:59:59.999999Z\"");
}

#[test]
fn timedelta_readme_example() {
    assert_eq!(format_timedelta(1, 2 * 3600 + 3 * 60 + 4, 0), "P1DT2H3M4S");
}

#[test]
fn timedelta_zero() {
    assert_eq!(format_timedelta(0, 0, 0), "PT0S");
}

#[test]
fn timedelta_fraction_and_skipped_fields() {
    assert_eq!(format_timedelta(0, 5, 500), "PT5.000500S");
    assert_eq!(format_timedelta(0, 0, 250000), "PT0.250000S");
    assert_eq!(format_timedelta(-2, 3600, 0), "P-2DT1H");
    assert_eq!(format_timedelta(3, 0, 0), "P3D");
}

#[test]
fn timedelta_written_as_json_string() {
    let mut w = JsonWriter::new(8);
    write_timedelta(&mut w, 0, 60, 0);
    assert_eq!(w.into_string(), "\"PT1M\"");
}

#[test]
fn duration_from_seconds_and_nanos() {
    assert_eq!(format_duration(93784, 0), "P1DT2H3M4S");
    assert_eq!(format_duration(0, 0), "PT0S");
    assert_eq!(format_duration(1, 500_000_000), "PT1.500000S");
    assert_eq!(format_duration(-90, 0), "PT-1M-30S");
    assert_eq!(format_duration(0, 999), "PT0S");
}

#[test]
fn sorted_order_is_stable_by_text() {
    let keys: Vec<String> = vec!["b".into(), "a".into(), "c".into(), "a".into(), "".into(), "ab".into()];
    assert_eq!(sorted_order(&keys), vec![4, 1, 3, 5, 0, 2]);
}

#[test]
fn sorted_order_uses_code_points() {
    let keys: Vec<String> = vec!["é".into(), "z".into(), "Z".into(), "10".into(), "9".into()];
    assert_eq!(sorted_order(&keys), vec![3, 4, 2, 1, 0]);
}

#[test]
fn sorted_order_of_nothing() {
    let keys: Vec<String> = Vec::new();
    assert!(sorted_order(&keys).is_empty());
}

#[test]
fn decimal_strings() {
    assert_eq!(decimal_string(0), "0");
    assert_eq!(decimal_string(-120), "-120");
    assert_eq!(decimal_string(i64::MAX), "9223372036854775807");
    assert_eq!(decimal_string(i64::MIN), "-9223372036854775808");
}

#[test]
fn depth_limit() {
    assert_eq!(MAX_DEPTH, 128);
    assert!(check_depth(0).is_ok());
    assert!(check_depth(127).is_ok());
    let e = check_depth(128).unwrap_err();
    assert_eq!(e.message(), "Maximum recursion depth exceeded");
    assert_eq!(e.class(), ErrorClass::ValueError);
}

#[test]
fn not_serializable_message() {
    let e = SerializeError::NotSerializable("Widget".to_string());
    assert_eq!(e.message(), "Object of type Widget is not JSON serializable");
    assert_eq!(e.class(), ErrorClass::TypeError);
}

#[test]
fn deserialize_valid_text() {
    let v = deserialize("{\"key\": [1, 2.5, \"x\", null, true]}").unwrap();
    assert_eq!(v["key"][0].as_i64(), Some(1));
    assert_eq!(v["key"][2].as_str(), Some("x"));
    assert!(v["key"][3].is_null());
    assert_eq!(v["key"][4].as_bool(), Some(true));
}

#[test]
fn deserialize_invalid_text() {
    let e = deserialize("{\"a\": }").unwrap_err();
    assert!(e.message.contains("line 1"));
    assert!(deserialize("").is_err());
    assert!(deserialize("[1, 2] x").is_err());
}

#[test]
fn deserialize_nesting_limit() {
    let deep_ok = format!("{}{}", "[".repeat(100), "]".repeat(100));
    assert!(deserialize(&deep_ok).is_ok());
    let too_deep = format!("{}{}", "[".repeat(200), "]".repeat(200));
    assert!(deserialize(&too_deep).is_err());
}

#[test]
fn bytes_read_as_utf8() {
    assert_eq!(text_of_bytes("{\"é\": 1}".as_bytes()), "{\"é\": 1}");
    assert_eq!(text_of_bytes(&[b'a', 0xff, b'b']), "a\u{fffd}b");
}
