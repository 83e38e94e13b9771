use blitzjson::decode::{decode_action, number_kind, number_kind_of, DecodeAction, NodeKind};
use blitzjson::document::{write_document, Document};
use blitzjson::writer::JsonWriter;

fn sample() -> Document {
    Document::Object(vec![
        ("a".to_string(), Document::Array(vec![Document::Int(1), Document::Null, Document::Bool(true)])),
        ("b".to_string(), Document::Str("x\"y".to_string())),
        ("c".to_string(), Document::Array(Vec::new())),
    ])
}

#[test]
fn document_written_compact() {
    let mut w = JsonWriter::new(16);
    write_document(&mut w, &sample());
    assert_eq!(w.into_string(), "{\"a\":[1,null,true],\"b\":\"x\\\"y\",\"c\":[]}");
}

#[test]
fn document_written_pretty_like_python() {
    let mut w = JsonWriter::with_options(16, false, Some(2), false);
    write_document(&mut w, &sample());
    assert_eq!(
        w.into_string(),
        "{\n  \"a\": [\n    1,\n    null,\n    true\n  ],\n  \"b\": \"x\\\"y\",\n  \"c\": []\n}"
    );
}

#[test]
fn document_reads_back_with_serde_json() {
    let mut w = JsonWriter::with_options(16, true, Some(3), false);
    w.set_separators(", ", " : ");
    write_document(&mut w, &sample());
    let v: serde_json::Value = serde_json::from_str(&w.into_string()).unwrap();
    assert_eq!(v["a"][0].as_i64(), Some(1));
    assert!(v["a"][1].is_null());
    assert_eq!(v["b"].as_str(), Some("x\"y"));
    assert_eq!(v["c"].as_array().map(|a| a.len()), Some(0));
}

#[test]
fn number_kinds() {
    assert_eq!(number_kind_of(Some(-3), None), NodeKind::Int(-3));
    assert_eq!(number_kind_of(Some(3), Some(3)), NodeKind::Int(3));
    assert_eq!(number_kind_of(None, Some(u64::MAX)), NodeKind::UInt(u64::MAX));
    assert_eq!(number_kind_of(None, None), NodeKind::Float);
    let big: serde_json::Value = serde_json::from_str("18446744073709551615").unwrap();
    assert_eq!(number_kind(big.as_number().unwrap()), NodeKind::UInt(u64::MAX));
    let neg: serde_json::Value = serde_json::from_str("-7").unwrap();
    assert_eq!(number_kind(neg.as_number().unwrap()), NodeKind::Int(-7));
    let f: serde_json::Value = serde_json::from_str("2.5").unwrap();
    assert_eq!(number_kind(f.as_number().unwrap()), NodeKind::Float);
}

#[test]
fn decode_actions() {
    match decode_action(NodeKind::Int(-42), false, false, true, false) {
        DecodeAction::CallParseInt(t) => assert_eq!(t, "-42"),
        _ => panic!("expected parse_int"),
    }
    match decode_action(NodeKind::UInt(u64::MAX), false, false, true, false) {
        DecodeAction::CallParseInt(t) => assert_eq!(t, "18446744073709551615"),
        _ => panic!("expected parse_int"),
    }
    assert!(matches!(decode_action(NodeKind::Int(5), false, false, false, false), DecodeAction::MakeInt(5)));
    assert!(matches!(decode_action(NodeKind::Float, false, false, false, true), DecodeAction::CallParseFloat));
    assert!(matches!(decode_action(NodeKind::Float, false, false, false, false), DecodeAction::MakeFloat));
    assert!(matches!(decode_action(NodeKind::Object, true, true, false, false), DecodeAction::CallPairsHook));
    assert!(matches!(decode_action(NodeKind::Object, false, true, false, false), DecodeAction::CallObjectHook));
    assert!(matches!(decode_action(NodeKind::Object, false, false, false, false), DecodeAction::MakeDict));
    assert!(matches!(decode_action(NodeKind::Null, true, true, true, true), DecodeAction::MakeNone));
    assert!(matches!(decode_action(NodeKind::Bool(false), false, false, false, false), DecodeAction::MakeBool(false)));
}
