//! Reading JSON text into a document tree, with `serde_json`.

use vstd::prelude::*;
use crate::numbers::{decimal, decimal_string, digits, push_digits};

verus! {

/// A parsed JSON document, as `serde_json` represents it.
#[verifier::external_type_specification]
#[verifier::external_body]
pub struct ExJsonValue(serde_json::Value);

/// What `serde_json`'s parser makes of a text: the document, when it
/// accepts the text as one JSON value (RFC 8259, surrounded by optional
/// whitespace, nested at most 128 levels); otherwise the message of its
/// error, which names what went wrong and the line and column where.
pub uninterp spec fn serde_json_outcome(text: Seq<char>) -> Result<serde_json::Value, Seq<char>>;

/// A parse outcome with the error message taken as its characters.
pub open spec fn text_outcome(r: Result<serde_json::Value, String>) -> Result<serde_json::Value, Seq<char>> {
    match r {
        Ok(v) => Ok(v),
        Err(m) => Err(m@),
    }
}

/// `serde_json::from_str` into a `serde_json::Value`, with the error turned
/// into its message by the error's `Display`. Which texts are accepted, the
/// documents and the messages are named by `serde_json_outcome` and not
/// stated here.
#[verifier::external_body]
fn serde_json_from_str(s: &str) -> (r: Result<serde_json::Value, String>)
    ensures
        text_outcome(r) == serde_json_outcome(s@),
{
    match serde_json::from_str(s) {
        Ok(v) => Ok(v),
        Err(e) => Err(e.to_string()),
    }
}

/// The text that `String::from_utf8_lossy` makes of bytes: their UTF-8
/// decoding, with each invalid sequence replaced by U+FFFD.
pub uninterp spec fn utf8_lossy_text(bytes: Seq<u8>) -> Seq<char>;

/// `String::from_utf8_lossy`: the characters that the bytes encode in
/// UTF-8. The standard library documents that valid UTF-8 is decoded as it
/// is; the replacement of invalid sequences is named by `utf8_lossy_text`.
#[verifier::external_body]
fn utf8_lossy(bytes: &[u8]) -> (s: String)
    ensures
        s@ == utf8_lossy_text(bytes@),
        vstd::utf8::valid_utf8(bytes@) ==> s@ == vstd::utf8::decode_utf8(bytes@),
{
    String::from_utf8_lossy(bytes).into_owned()
}

/// The text of a `bytes` or `bytearray` argument to `loads`, read as UTF-8
/// with invalid sequences replaced.
pub fn text_of_bytes(bytes: &[u8]) -> (s: String)
    ensures
        s@ == utf8_lossy_text(bytes@),
        vstd::utf8::valid_utf8(bytes@) ==> s@ == vstd::utf8::decode_utf8(bytes@),
{
    utf8_lossy(bytes)
}

/// JSON text that could not be parsed.
#[derive(Debug)]
pub struct DecodeError {
    pub message: String,
}

/// The outcome of parsing, with the parser's message in the library's
/// error type.
pub fn decode_outcome(parsed: Result<serde_json::Value, String>) -> (r: Result<serde_json::Value, DecodeError>)
    ensures
        parsed is Ok <==> r is Ok,
        parsed matches Err(m) ==> (r matches Err(e) && e.message@ == m@),
        parsed matches Ok(v) ==> (r matches Ok(w) && w == v),
{
    match parsed {
        Ok(v) => Ok(v),
        Err(message) => Err(DecodeError { message }),
    }
}

/// Parses JSON text into a document; the error carries the parser's
/// message.
pub fn deserialize(s: &str) -> (r: Result<serde_json::Value, DecodeError>)
    ensures
        r is Ok <==> serde_json_outcome(s@) is Ok,
        r matches Ok(v) ==> serde_json_outcome(s@) == text_outcome(Ok(v)),
        r matches Err(e) ==> serde_json_outcome(s@) == text_outcome(Err(e.message)),
{
    decode_outcome(serde_json_from_str(s))
}

/// A number of a parsed document, as `serde_json` represents it.
#[verifier::external_type_specification]
#[verifier::external_body]
pub struct ExJsonNumber(serde_json::Number);

/// `serde_json::Number::as_i64`: the number as an `i64` when it is an
/// integer that fits. The number is opaque here, so nothing is stated of the
/// result; `number_kind_of` decides from it.
#[verifier::external_body]
fn number_as_i64(n: &serde_json::Number) -> (r: Option<i64>) {
    n.as_i64()
}

/// `serde_json::Number::as_u64`: the number as a `u64` when it is a
/// non-negative integer. The number is opaque here, so nothing is stated of
/// the result; `number_kind_of` decides from it.
#[verifier::external_body]
fn number_as_u64(n: &serde_json::Number) -> (r: Option<u64>) {
    n.as_u64()
}

/// The kind of a node of a parsed document.
#[derive(PartialEq, Eq, Structural, Clone, Copy, Debug)]
pub enum NodeKind {
    Null,
    Bool(bool),
    /// An integer that fits in an `i64`.
    Int(i64),
    /// A larger non-negative integer.
    UInt(u64),
    /// Any other number.
    Float,
    Str,
    Array,
    Object,
}

/// The kind of a number: an `i64` when it reads as one, else a `u64` when
/// it reads as one, else a float.
pub open spec fn number_kind_spec(as_i64: Option<i64>, as_u64: Option<u64>) -> NodeKind {
    match as_i64 {
        Some(i) => NodeKind::Int(i),
        None => match as_u64 {
            Some(u) => NodeKind::UInt(u),
            None => NodeKind::Float,
        },
    }
}

/// Decides the kind of a number from how it reads as an `i64` and as a
/// `u64`.
pub fn number_kind_of(as_i64: Option<i64>, as_u64: Option<u64>) -> (k: NodeKind)
    ensures
        k == number_kind_spec(as_i64, as_u64),
{
    match as_i64 {
        Some(i) => NodeKind::Int(i),
        None => match as_u64 {
            Some(u) => NodeKind::UInt(u),
            None => NodeKind::Float,
        },
    }
}

/// The kind of a number of a parsed document: whatever `serde_json` reads
/// it as, the result is the kind that `number_kind_of` gives for that.
pub fn number_kind(n: &serde_json::Number) -> (k: NodeKind)
    ensures
        exists|i: Option<i64>, u: Option<u64>| k == number_kind_spec(i, u),
{
    let i = number_as_i64(n);
    let u = number_as_u64(n);
    number_kind_of(i, u)
}

/// What `loads` makes of a node.
#[derive(Debug)]
pub enum DecodeAction {
    MakeNone,
    MakeBool(bool),
    MakeInt(i64),
    MakeUInt(u64),
    /// Call `parse_int` with the integer's decimal text.
    CallParseInt(String),
    MakeFloat,
    /// Call `parse_float` with the float's text.
    CallParseFloat,
    MakeStr,
    MakeList,
    /// Build the dictionary, then call `object_pairs_hook` with its pairs.
    CallPairsHook,
    /// Build the dictionary, then call `object_hook` with it.
    CallObjectHook,
    MakeDict,
}

/// What `loads` makes of a node of each kind: integers through `parse_int`
/// when there is one, given their decimal text; floats through
/// `parse_float` when there is one; an object through `object_pairs_hook`
/// when there is one, else through `object_hook` when there is one, else as
/// a dictionary; everything else as the Python value of the same kind.
pub open spec fn decode_plan(a: DecodeAction, kind: NodeKind, has_pairs_hook: bool, has_object_hook: bool, has_parse_int: bool, has_parse_float: bool) -> bool {
    match kind {
        NodeKind::Null => a is MakeNone,
        NodeKind::Bool(b) => a == DecodeAction::MakeBool(b),
        NodeKind::Int(i) => if has_parse_int {
            a matches DecodeAction::CallParseInt(t) && t@ == decimal(i as int)
        } else {
            a == DecodeAction::MakeInt(i)
        },
        NodeKind::UInt(u) => if has_parse_int {
            a matches DecodeAction::CallParseInt(t) && t@ == digits(u as nat)
        } else {
            a == DecodeAction::MakeUInt(u)
        },
        NodeKind::Float => if has_parse_float {
            a is CallParseFloat
        } else {
            a is MakeFloat
        },
        NodeKind::Str => a is MakeStr,
        NodeKind::Array => a is MakeList,
        NodeKind::Object => if has_pairs_hook {
            a is CallPairsHook
        } else if has_object_hook {
            a is CallObjectHook
        } else {
            a is MakeDict
        },
    }
}

/// Decides what `loads` makes of a node of `kind`, given which hooks were
/// passed.
pub fn decode_action(kind: NodeKind, has_pairs_hook: bool, has_object_hook: bool, has_parse_int: bool, has_parse_float: bool) -> (a: DecodeAction)
    ensures
        decode_plan(a, kind, has_pairs_hook, has_object_hook, has_parse_int, has_parse_float),
        kind matches NodeKind::Int(i) ==> (has_parse_int ==> (a matches DecodeAction::CallParseInt(t) && t@ == decimal(i as int))),
        kind matches NodeKind::UInt(u) ==> (has_parse_int ==> (a matches DecodeAction::CallParseInt(t) && t@ == digits(u as nat))),
        kind is Object ==> ((has_pairs_hook ==> a is CallPairsHook)
            && (!has_pairs_hook && has_object_hook ==> a is CallObjectHook)
            && (!has_pairs_hook && !has_object_hook ==> a is MakeDict)),
{
    match kind {
        NodeKind::Null => DecodeAction::MakeNone,
        NodeKind::Bool(b) => DecodeAction::MakeBool(b),
        NodeKind::Int(i) => if has_parse_int {
            DecodeAction::CallParseInt(decimal_string(i))
        } else {
            DecodeAction::MakeInt(i)
        },
        NodeKind::UInt(u) => if has_parse_int {
            let mut t = String::new();
            push_digits(&mut t, u);
            assert(t@ =~= digits(u as nat));
            DecodeAction::CallParseInt(t)
        } else {
            DecodeAction::MakeUInt(u)
        },
        NodeKind::Float => if has_parse_float {
            DecodeAction::CallParseFloat
        } else {
            DecodeAction::MakeFloat
        },
        NodeKind::Str => DecodeAction::MakeStr,
        NodeKind::Array => DecodeAction::MakeList,
        NodeKind::Object => if has_pairs_hook {
            DecodeAction::CallPairsHook
        } else if has_object_hook {
            DecodeAction::CallObjectHook
        } else {
            DecodeAction::MakeDict
        },
    }
}

} // verus!
