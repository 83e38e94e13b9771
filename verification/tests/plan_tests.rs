use blitzjson::convert::{conversion, convert_checks, ConvertCheck, ConvertKind, Conversion};
use blitzjson::errors::{SerializeError, MAX_DEPTH};
use blitzjson::plan::{key_action, next_action, use_default, type_checks, Action, KeyAction, KeyKind, TypeCheck, ValueKind};

#[test]
fn bool_is_tested_before_int_and_datetime_before_date() {
    let order = type_checks();
    let pos = |c: TypeCheck| order.iter().position(|&x| x == c).unwrap();
    assert_eq!(order[0], TypeCheck::NoneValue);
    assert!(pos(TypeCheck::Bool) < pos(TypeCheck::Int));
    assert!(pos(TypeCheck::DateTime) < pos(TypeCheck::Date));
    assert_eq!(*order.last().unwrap(), TypeCheck::Dataclass);
    assert_eq!(order.len(), 22);
}

#[test]
fn scalars_are_written_directly() {
    assert!(matches!(next_action(ValueKind::NoneValue, 0, 0, false, false), Action::WriteNull));
    assert!(matches!(next_action(ValueKind::Bool(true), 3, 0, false, false), Action::WriteBool(true)));
    assert!(matches!(next_action(ValueKind::Int(-5), 3, 0, false, false), Action::WriteInt(-5)));
    assert!(matches!(next_action(ValueKind::IntOutOfRange, 0, 0, false, false), Action::WriteRepr));
    assert!(matches!(next_action(ValueKind::Bytes, 0, 0, false, false), Action::WriteBase64));
    assert!(matches!(next_action(ValueKind::Uuid, 0, 0, false, false), Action::WriteStrOf));
    assert!(matches!(next_action(ValueKind::Date, 0, 0, false, false), Action::WriteIso));
    assert!(matches!(next_action(ValueKind::TimeDelta, 0, 0, false, false), Action::WriteTimedelta));
}

#[test]
fn containers_go_one_level_deeper() {
    assert!(matches!(next_action(ValueKind::List, 4, 0, false, false), Action::Items { depth: 5 }));
    assert!(matches!(next_action(ValueKind::SetValue, 0, 0, false, false), Action::SortedItems { depth: 1 }));
    assert!(matches!(next_action(ValueKind::Dict, 2, 0, false, true), Action::Members { depth: 3, sorted: true }));
}

#[test]
fn enum_and_dataclass_stay_in_place() {
    assert!(matches!(next_action(ValueKind::Enum, 7, 0, false, false), Action::EnumValue { depth: 7 }));
    assert!(matches!(next_action(ValueKind::Dataclass, 7, 0, false, false), Action::AsDict { depth: 7 }));
    assert!(matches!(next_action(ValueKind::Enum, MAX_DEPTH - 1, 0, false, false), Action::EnumValue { depth: 127 }));
}

#[test]
fn unknown_values_go_through_default_or_fail() {
    assert!(matches!(
        next_action(ValueKind::Other("W".to_string()), 1, 0, true, false),
        Action::CallDefault { depth: 1, calls: 1 }
    ));
    assert!(matches!(
        next_action(ValueKind::Other("W".to_string()), 1, 5, true, false),
        Action::CallDefault { depth: 1, calls: 6 }
    ));
    match next_action(ValueKind::Other("Widget".to_string()), 1, 0, false, false) {
        Action::Fail(e) => assert_eq!(e.message(), "Object of type Widget is not JSON serializable"),
        _ => panic!("expected a failure"),
    }
}

#[test]
fn default_that_never_helps_ends_in_a_depth_error() {
    assert!(matches!(
        next_action(ValueKind::Other("W".to_string()), 0, MAX_DEPTH, true, false),
        Action::Fail(SerializeError::DepthExceeded)
    ));
}

#[test]
fn depth_limit_stops_everything() {
    assert!(matches!(next_action(ValueKind::NoneValue, MAX_DEPTH, 0, false, false), Action::Fail(SerializeError::DepthExceeded)));
    assert!(matches!(next_action(ValueKind::List, MAX_DEPTH - 1, 0, false, false), Action::Items { depth: 128 }));
    assert!(matches!(next_action(ValueKind::Other("X".to_string()), MAX_DEPTH, 0, true, false), Action::Fail(SerializeError::DepthExceeded)));
}

#[test]
fn default_retried_only_for_values_without_json_form() {
    assert!(use_default(&SerializeError::NotSerializable("W".to_string()), true));
    assert!(!use_default(&SerializeError::NotSerializable("W".to_string()), false));
    assert!(!use_default(&SerializeError::NonFiniteFloat, true));
    assert!(!use_default(&SerializeError::DepthExceeded, true));
}

#[test]
fn key_kinds() {
    assert_eq!(key_action(KeyKind::Str), KeyAction::WriteStr);
    assert_eq!(key_action(KeyKind::Int(7)), KeyAction::WriteInt(7));
    assert_eq!(key_action(KeyKind::Other), KeyAction::WriteStrOf);
}

#[test]
fn conversion_table() {
    let order = convert_checks();
    let pos = |c: ConvertCheck| order.iter().position(|&x| x == c).unwrap();
    assert!(pos(ConvertCheck::Bool) < pos(ConvertCheck::Int));
    assert!(pos(ConvertCheck::Uuid) < pos(ConvertCheck::Str));
    assert!(pos(ConvertCheck::NaiveDateTime) < pos(ConvertCheck::Str));
    assert!(matches!(conversion(ConvertKind::SetValue), Conversion::SortedArray));
    assert!(matches!(conversion(ConvertKind::DateTime), Conversion::DateTimeText));
    assert!(matches!(conversion(ConvertKind::Enum), Conversion::EnumValue));
    match conversion(ConvertKind::Other("Thing".to_string())) {
        Conversion::Fail(e) => assert_eq!(e.message(), "Object of type Thing is not JSON serializable"),
        _ => panic!("expected a failure"),
    }
}
