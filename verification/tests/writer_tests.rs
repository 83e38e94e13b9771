use blitzjson::writer::{JsonWriter, NonFinite};

fn compact() -> JsonWriter {
    JsonWriter::new(16)
}

fn written(w: JsonWriter) -> String {
    w.into_string()
}

#[test]
fn new_writer_is_empty_and_compact() {
    let w = JsonWriter::new(1024);
    assert!(!w.ensure_ascii());
    assert!(!w.sort_keys());
    assert!(!w.is_pretty());
    assert_eq!(written(w), "");
}

#[test]
fn with_options_keeps_the_options() {
    let w = JsonWriter::with_options(8, true, Some(4), true);
    assert!(w.ensure_ascii());
    assert!(w.sort_keys());
    assert!(w.is_pretty());
    assert_eq!(written(w), "");
}

#[test]
fn scalars() {
    let mut w = compact();
    w.write_none();
    w.write_comma();
    w.write_bool(true);
    w.write_comma();
    w.write_bool(false);
    assert_eq!(written(w), "null,true,false");
}

#[test]
fn integers_in_decimal() {
    let mut w = compact();
    w.write_i64(-42);
    w.write_comma();
    w.write_i64(i64::MIN);
    w.write_comma();
    w.write_u64(u64::MAX);
    w.write_comma();
    w.write_i64(0);
    assert_eq!(written(w), "-42,-9223372036854775808,18446744073709551615,0");
}

#[test]
fn integer_key_is_quoted() {
    let mut w = compact();
    w.write_int_key(-7);
    w.write_colon();
    w.write_int_key(120);
    assert_eq!(written(w), "\"-7\":\"120\"");
}

#[test]
fn string_escapes() {
    let mut w = compact();
    w.write_string("a\"b\\c\nd\re\tf\u{8}g\u{c}h\u{1}i\u{1f}");
    assert_eq!(written(w), "\"a\\\"b\\\\c\\nd\\re\\tf\\bg\\fh\\u0001i\\u001f\"");
}

#[test]
fn slash_and_delete_are_not_escaped() {
    let mut w = JsonWriter::with_options(8, true, None, false);
    w.write_string("a/b\u{7f}");
    assert_eq!(written(w), "\"a/b\u{7f}\"");
}

#[test]
fn non_ascii_kept_without_ensure_ascii() {
    let mut w = compact();
    w.write_string("héllo 日本 😀");
    assert_eq!(written(w), "\"héllo 日本 😀\"");
}

#[test]
fn non_ascii_escaped_with_ensure_ascii() {
    let mut w = JsonWriter::with_options(8, true, None, false);
    w.write_string("é日");
    assert_eq!(written(w), "\"\\u00e9\\u65e5\"");
}

#[test]
fn astral_character_becomes_surrogate_pair() {
    let mut w = JsonWriter::with_options(8, true, None, false);
    w.write_string("😀");
    assert_eq!(written(w), "\"\\ud83d\\ude00\"");
}

#[test]
fn ensure_ascii_output_is_ascii() {
    let mut w = JsonWriter::with_options(8, true, None, false);
    w.write_string("Zoë \u{10ffff} \u{0} ü");
    let s = written(w);
    assert!(s.is_ascii());
    assert_eq!(s, "\"Zo\\u00eb \\udbff\\udfff \\u0000 \\u00fc\"");
}

#[test]
fn empty_string() {
    let mut w = compact();
    w.write_string("");
    assert_eq!(written(w), "\"\"");
}

#[test]
fn compact_containers() {
    let mut w = compact();
    w.write_object_open();
    w.write_string("k");
    w.write_colon();
    w.write_array_open();
    w.write_i64(1);
    w.write_comma();
    w.write_i64(2);
    w.write_array_close();
    w.write_object_close();
    assert_eq!(written(w), "{\"k\":[1,2]}");
}

#[test]
fn pretty_containers() {
    let mut w = JsonWriter::with_options(8, false, Some(2), false);
    w.write_object_open();
    w.write_member_separator(0);
    w.write_string("a");
    w.write_colon();
    w.write_array_open();
    w.write_member_separator(0);
    w.write_i64(1);
    w.write_member_separator(1);
    w.write_i64(2);
    w.write_array_close();
    w.write_member_separator(1);
    w.write_string("b");
    w.write_colon();
    w.write_none();
    w.write_object_close();
    assert_eq!(written(w), "{\n  \"a\": [\n    1,\n    2\n  ],\n  \"b\": null\n}");
}

#[test]
fn pretty_single_member_like_python() {
    let mut w = JsonWriter::with_options(8, false, Some(2), false);
    w.write_object_open();
    w.write_member_separator(0);
    w.write_string("a");
    w.write_colon();
    w.write_i64(1);
    w.write_object_close();
    assert_eq!(written(w), "{\n  \"a\": 1\n}");
}

#[test]
fn empty_containers_compact_and_pretty() {
    let mut w = compact();
    w.write_array_open();
    w.write_array_close();
    w.write_object_open();
    w.write_object_close();
    assert_eq!(written(w), "[]{}");
    let mut p = JsonWriter::with_options(8, false, Some(4), false);
    p.write_array_open();
    p.write_member_separator(0);
    p.write_object_open();
    p.write_object_close();
    p.write_member_separator(1);
    p.write_array_open();
    p.write_array_close();
    p.write_array_close();
    assert_eq!(written(p), "[\n    {},\n    []\n]");
}

#[test]
fn compact_member_separators() {
    let mut w = compact();
    w.write_array_open();
    w.write_member_separator(0);
    w.write_i64(1);
    w.write_member_separator(1);
    w.write_i64(2);
    w.write_array_close();
    assert_eq!(written(w), "[1,2]");
}

#[test]
fn custom_separators() {
    let mut w = compact();
    w.set_separators(", ", ": ");
    w.write_object_open();
    w.write_member_separator(0);
    w.write_string("a");
    w.write_colon();
    w.write_i64(1);
    w.write_member_separator(1);
    w.write_string("b");
    w.write_colon();
    w.write_i64(2);
    w.write_object_close();
    assert_eq!(written(w), "{\"a\": 1, \"b\": 2}");
}

#[test]
fn custom_separators_pretty() {
    let mut w = JsonWriter::with_options(8, false, Some(1), false);
    w.set_separators(";", "=");
    w.write_array_open();
    w.write_member_separator(0);
    w.write_i64(1);
    w.write_comma();
    w.write_i64(2);
    w.write_array_close();
    w.write_colon();
    assert_eq!(written(w), "[\n 1;\n 2\n]=");
}

#[test]
fn zero_width_indent_still_breaks_lines() {
    let mut w = JsonWriter::with_options(8, false, Some(0), false);
    w.write_array_open();
    w.write_member_separator(0);
    w.write_i64(1);
    w.write_comma();
    w.write_i64(2);
    w.write_array_close();
    assert_eq!(written(w), "[\n1,\n2\n]");
}

#[test]
fn options_kept_after_writing() {
    let mut w = JsonWriter::with_options(8, true, Some(2), true);
    w.write_array_open();
    w.write_member_separator(0);
    w.write_string("é");
    w.write_array_close();
    w.buf_mut().push('x');
    assert!(w.ensure_ascii());
    assert!(w.is_pretty());
    assert!(w.sort_keys());
}

#[test]
fn raw_text_and_buffer_access() {
    let mut w = compact();
    w.write_raw("1.5");
    w.buf_mut().push_str(",x");
    assert_eq!(written(w), "1.5,x");
}

#[test]
fn into_bytes_is_utf8() {
    let mut w = compact();
    w.write_string("é");
    assert_eq!(w.into_bytes(), vec![b'"', 0xc3, 0xa9, b'"']);
}

#[test]
fn non_finite_allowed() {
    let mut w = compact();
    assert!(w.write_non_finite(NonFinite::NaN, true).is_ok());
    w.write_comma();
    assert!(w.write_non_finite(NonFinite::PositiveInfinity, true).is_ok());
    w.write_comma();
    assert!(w.write_non_finite(NonFinite::NegativeInfinity, true).is_ok());
    assert_eq!(written(w), "NaN,Infinity,-Infinity");
}

#[test]
fn non_finite_refused() {
    let mut w = compact();
    w.write_none();
    let e = w.write_non_finite(NonFinite::NaN, false).unwrap_err();
    assert_eq!(e.message(), "Out of range float values are not JSON compliant");
    assert_eq!(written(w), "null");
}

#[test]
fn pretty_close_after_content_without_separator() {
    let mut w = JsonWriter::with_options(8, false, Some(2), false);
    w.write_array_open();
    w.write_none();
    w.write_array_close();
    w.write_object_open();
    w.write_string("a");
    w.write_colon();
    w.write_none();
    w.write_object_close();
    assert_eq!(written(w), "[null\n]{\"a\": null\n}");
}

#[test]
fn pretty_close_after_buffer_write() {
    let mut w = JsonWriter::with_options(8, false, Some(2), false);
    w.write_array_open();
    w.buf_mut().push_str("1.5");
    w.write_array_close();
    assert_eq!(written(w), "[1.5\n]");
}
