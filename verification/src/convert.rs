//! What the conversion of a Python value into a JSON document does with each
//! kind of value, and the order in which it tries the kinds. The code that
//! reads Python objects performs the tries and the conversions; the
//! decisions are taken here.

use vstd::prelude::*;
use crate::errors::SerializeError;

verus! {

/// A try at reading a Python value as one kind.
#[derive(PartialEq, Eq, Structural, Clone, Copy, Debug)]
pub enum ConvertCheck {
    NoneValue,
    Bool,
    Int,
    Uuid,
    /// A value whose type is named `float`.
    Float,
    /// A value whose type is named `Decimal`.
    Decimal,
    NaiveDateTime,
    AwareDateTime,
    UtcDateTime,
    NaiveDate,
    NaiveTime,
    Duration,
    Str,
    /// Any other `datetime`, `date` or `time`: its `isoformat()`.
    IsoFormat,
    /// Any other `timedelta`, read through its `total_seconds()`.
    Delta,
    List,
    Tuple,
    SetValue,
    Dict,
    Bytes,
    ByteArray,
    Promise,
    Model,
    QuerySet,
    Enum,
    Dataclass,
    /// An object with a `to_dict()` method that succeeds.
    ToDict,
}

/// The order of the tries; the first that succeeds decides. `bool` comes
/// before `int`, UUIDs, floats, decimals and the date and time types before
/// `str`, since all of them can be read as one.
pub open spec fn convert_order() -> Seq<ConvertCheck> {
    seq![
        ConvertCheck::NoneValue,
        ConvertCheck::Bool,
        ConvertCheck::Int,
        ConvertCheck::Uuid,
        ConvertCheck::Float,
        ConvertCheck::Decimal,
        ConvertCheck::NaiveDateTime,
        ConvertCheck::AwareDateTime,
        ConvertCheck::UtcDateTime,
        ConvertCheck::NaiveDate,
        ConvertCheck::NaiveTime,
        ConvertCheck::Duration,
        ConvertCheck::Str,
        ConvertCheck::IsoFormat,
        ConvertCheck::Delta,
        ConvertCheck::List,
        ConvertCheck::Tuple,
        ConvertCheck::SetValue,
        ConvertCheck::Dict,
        ConvertCheck::Bytes,
        ConvertCheck::ByteArray,
        ConvertCheck::Promise,
        ConvertCheck::Model,
        ConvertCheck::QuerySet,
        ConvertCheck::Enum,
        ConvertCheck::Dataclass,
        ConvertCheck::ToDict,
    ]
}

/// The tries in the order in which to make them.
pub fn convert_checks() -> (v: Vec<ConvertCheck>)
    ensures
        v@ == convert_order(),
{
    let v = vec![
        ConvertCheck::NoneValue,
        ConvertCheck::Bool,
        ConvertCheck::Int,
        ConvertCheck::Uuid,
        ConvertCheck::Float,
        ConvertCheck::Decimal,
        ConvertCheck::NaiveDateTime,
        ConvertCheck::AwareDateTime,
        ConvertCheck::UtcDateTime,
        ConvertCheck::NaiveDate,
        ConvertCheck::NaiveTime,
        ConvertCheck::Duration,
        ConvertCheck::Str,
        ConvertCheck::IsoFormat,
        ConvertCheck::Delta,
        ConvertCheck::List,
        ConvertCheck::Tuple,
        ConvertCheck::SetValue,
        ConvertCheck::Dict,
        ConvertCheck::Bytes,
        ConvertCheck::ByteArray,
        ConvertCheck::Promise,
        ConvertCheck::Model,
        ConvertCheck::QuerySet,
        ConvertCheck::Enum,
        ConvertCheck::Dataclass,
        ConvertCheck::ToDict,
    ];
    assert(v@ =~= convert_order());
    v
}

/// What a value was read as, with what the decision needs of it.
#[derive(Debug)]
pub enum ConvertKind {
    NoneValue,
    Bool(bool),
    Int(i64),
    Uuid,
    Float,
    Decimal,
    /// A `datetime` read as its fields.
    DateTime,
    NaiveDate,
    NaiveTime,
    Duration,
    Str,
    IsoFormat,
    Delta,
    List,
    Tuple,
    SetValue,
    Dict,
    Bytes,
    ByteArray,
    Promise,
    Model,
    QuerySet,
    Enum,
    Dataclass,
    ToDict,
    /// Nothing worked; the name of the value's type.
    Other(String),
}

/// What the value becomes in the document.
#[derive(Debug)]
pub enum Conversion {
    Null,
    Bool(bool),
    Int(i64),
    /// A number from the float, or `null` when it has no JSON form; NaN and
    /// the infinities are refused.
    FloatNumber,
    /// A string of the value's text (`str()` of a UUID, a decimal, a lazy
    /// string, or the string itself).
    Text,
    /// A string of the date and time in ISO 8601, from its fields.
    DateTimeText,
    /// A string of the date, `YYYY-MM-DD`.
    DateText,
    /// A string of the time of day.
    TimeText,
    /// A string of the duration in ISO 8601, from its seconds and nanoseconds.
    DurationText,
    /// A string of the value's `isoformat()`.
    IsoText,
    /// A string of the duration in ISO 8601, from `total_seconds()`.
    DeltaText,
    /// An array of the converted items.
    Array,
    /// An array of the converted items, ordered by their JSON text.
    SortedArray,
    /// An object of the converted members, keys taken as text.
    Object,
    /// A string of the bytes in Base64.
    Base64Text,
    /// An object of the model's fields.
    ModelObject,
    /// An array of the queryset's rows.
    QuerySetArray,
    /// The enum member's `value`, converted in its place.
    EnumValue,
    /// The dataclass's `asdict()`, converted in its place.
    AsDict,
    /// What `to_dict()` returned, converted in its place.
    ToDictValue,
    /// The value has no JSON form.
    Fail(SerializeError),
}

/// The conversion for each kind.
pub open spec fn conversion_spec(kind: ConvertKind) -> Conversion {
    match kind {
        ConvertKind::NoneValue => Conversion::Null,
        ConvertKind::Bool(b) => Conversion::Bool(b),
        ConvertKind::Int(i) => Conversion::Int(i),
        ConvertKind::Uuid => Conversion::Text,
        ConvertKind::Float => Conversion::FloatNumber,
        ConvertKind::Decimal => Conversion::Text,
        ConvertKind::DateTime => Conversion::DateTimeText,
        ConvertKind::NaiveDate => Conversion::DateText,
        ConvertKind::NaiveTime => Conversion::TimeText,
        ConvertKind::Duration => Conversion::DurationText,
        ConvertKind::Str => Conversion::Text,
        ConvertKind::IsoFormat => Conversion::IsoText,
        ConvertKind::Delta => Conversion::DeltaText,
        ConvertKind::List => Conversion::Array,
        ConvertKind::Tuple => Conversion::Array,
        ConvertKind::SetValue => Conversion::SortedArray,
        ConvertKind::Dict => Conversion::Object,
        ConvertKind::Bytes => Conversion::Base64Text,
        ConvertKind::ByteArray => Conversion::Base64Text,
        ConvertKind::Promise => Conversion::Text,
        ConvertKind::Model => Conversion::ModelObject,
        ConvertKind::QuerySet => Conversion::QuerySetArray,
        ConvertKind::Enum => Conversion::EnumValue,
        ConvertKind::Dataclass => Conversion::AsDict,
        ConvertKind::ToDict => Conversion::ToDictValue,
        ConvertKind::Other(name) => Conversion::Fail(SerializeError::NotSerializable(name)),
    }
}

/// Decides what a value of `kind` becomes in the document.
pub fn conversion(kind: ConvertKind) -> (c: Conversion)
    ensures
        c == conversion_spec(kind),
{
    match kind {
        ConvertKind::NoneValue => Conversion::Null,
        ConvertKind::Bool(b) => Conversion::Bool(b),
        ConvertKind::Int(i) => Conversion::Int(i),
        ConvertKind::Uuid => Conversion::Text,
        ConvertKind::Float => Conversion::FloatNumber,
        ConvertKind::Decimal => Conversion::Text,
        ConvertKind::DateTime => Conversion::DateTimeText,
        ConvertKind::NaiveDate => Conversion::DateText,
        ConvertKind::NaiveTime => Conversion::TimeText,
        ConvertKind::Duration => Conversion::DurationText,
        ConvertKind::Str => Conversion::Text,
        ConvertKind::IsoFormat => Conversion::IsoText,
        ConvertKind::Delta => Conversion::DeltaText,
        ConvertKind::List => Conversion::Array,
        ConvertKind::Tuple => Conversion::Array,
        ConvertKind::SetValue => Conversion::SortedArray,
        ConvertKind::Dict => Conversion::Object,
        ConvertKind::Bytes => Conversion::Base64Text,
        ConvertKind::ByteArray => Conversion::Base64Text,
        ConvertKind::Promise => Conversion::Text,
        ConvertKind::Model => Conversion::ModelObject,
        ConvertKind::QuerySet => Conversion::QuerySetArray,
        ConvertKind::Enum => Conversion::EnumValue,
        ConvertKind::Dataclass => Conversion::AsDict,
        ConvertKind::ToDict => Conversion::ToDictValue,
        ConvertKind::Other(name) => Conversion::Fail(SerializeError::NotSerializable(name)),
    }
}

} // verus!
