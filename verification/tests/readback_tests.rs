use blitzjson::base64::encode_base64;
use blitzjson::numbers::decimal_string;
use blitzjson::writer::JsonWriter;

fn b64_value(c: u8) -> u32 {
    match c {
        b'A'..=b'Z' => (c - b'A') as u32,
        b'a'..=b'z' => (c - b'a') as u32 + 26,
        b'0'..=b'9' => (c - b'0') as u32 + 52,
        b'+' => 62,
        b'/' => 63,
        _ => panic!("not a Base64 character"),
    }
}

fn decode_base64(text: &str) -> Vec<u8> {
    let bytes = text.as_bytes();
    assert_eq!(bytes.len() % 4, 0);
    let mut out = Vec::new();
    for group in bytes.chunks(4) {
        let a = b64_value(group[0]);
        let b = b64_value(group[1]);
        out.push((a * 4 + b / 16) as u8);
        if group[2] != b'=' {
            let c = b64_value(group[2]);
            out.push(((b % 16) * 16 + c / 4) as u8);
            if group[3] != b'=' {
                let d = b64_value(group[3]);
                out.push(((c % 4) * 64 + d) as u8);
            }
        }
    }
    out
}

#[test]
fn base64_reads_back() {
    for n in 0..40usize {
        let data: Vec<u8> = (0..n).map(|i| (i * 97 + 13) as u8).collect();
        assert_eq!(decode_base64(&encode_base64(&data)), data);
    }
}

#[test]
fn decimal_reads_back() {
    for v in [0i64, 7, -7, 10, 99, 100, -100, 1234567890, i64::MAX, i64::MIN] {
        assert_eq!(decimal_string(v).parse::<i64>().unwrap(), v);
    }
}

#[test]
fn written_integers_read_back() {
    let mut w = JsonWriter::new(8);
    w.write_i64(-9000);
    let v: serde_json::Value = serde_json::from_str(&w.into_string()).unwrap();
    assert_eq!(v.as_i64(), Some(-9000));
}

fn read_back(text: &str, ensure_ascii: bool) -> String {
    let mut w = JsonWriter::with_options(8, ensure_ascii, None, false);
    w.write_string(text);
    serde_json::from_str::<String>(&w.into_string()).unwrap()
}

#[test]
fn strings_read_back_in_both_modes() {
    let samples = [
        "",
        "plain",
        "quote \" backslash \\ slash /",
        "controls \u{0}\u{1}\u{8}\u{9}\u{a}\u{c}\u{d}\u{1f}\u{7f}",
        "latin é ü, cjk 日本語, emoji 😀🎉, last \u{10ffff}",
    ];
    for s in samples {
        assert_eq!(read_back(s, false), s);
        assert_eq!(read_back(s, true), s);
    }
}
