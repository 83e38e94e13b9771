//! What the encoder does with each Python value: the order in which it tests
//! a value's type, and, once the type is known, how the value is written and
//! how deep its parts go. The code that reads Python objects performs the
//! tests and the actions; every decision is taken here.

use vstd::prelude::*;
use crate::errors::{check_depth, SerializeError, MAX_DEPTH};

verus! {

/// A test of a Python value's type.
#[derive(PartialEq, Eq, Structural, Clone, Copy, Debug)]
pub enum TypeCheck {
    NoneValue,
    Bool,
    Int,
    Float,
    Str,
    Dict,
    List,
    Tuple,
    Bytes,
    ByteArray,
    /// A `set` or a `frozenset`.
    SetValue,
    DateTime,
    Uuid,
    Decimal,
    Date,
    Time,
    TimeDelta,
    Promise,
    Model,
    QuerySet,
    Enum,
    Dataclass,
}

/// The order of the type tests; the first that a value passes decides what
/// it is. `bool` comes before `int`, of which it is a subclass, and
/// `datetime` before `date`, of which it is one too.
pub open spec fn check_order() -> Seq<TypeCheck> {
    seq![
        TypeCheck::NoneValue,
        TypeCheck::Bool,
        TypeCheck::Int,
        TypeCheck::Float,
        TypeCheck::Str,
        TypeCheck::Dict,
        TypeCheck::List,
        TypeCheck::Tuple,
        TypeCheck::Bytes,
        TypeCheck::ByteArray,
        TypeCheck::SetValue,
        TypeCheck::DateTime,
        TypeCheck::Uuid,
        TypeCheck::Decimal,
        TypeCheck::Date,
        TypeCheck::Time,
        TypeCheck::TimeDelta,
        TypeCheck::Promise,
        TypeCheck::Model,
        TypeCheck::QuerySet,
        TypeCheck::Enum,
        TypeCheck::Dataclass,
    ]
}

/// The type tests in the order in which to perform them.
pub fn type_checks() -> (v: Vec<TypeCheck>)
    ensures
        v@ == check_order(),
{
    let v = vec![
        TypeCheck::NoneValue,
        TypeCheck::Bool,
        TypeCheck::Int,
        TypeCheck::Float,
        TypeCheck::Str,
        TypeCheck::Dict,
        TypeCheck::List,
        TypeCheck::Tuple,
        TypeCheck::Bytes,
        TypeCheck::ByteArray,
        TypeCheck::SetValue,
        TypeCheck::DateTime,
        TypeCheck::Uuid,
        TypeCheck::Decimal,
        TypeCheck::Date,
        TypeCheck::Time,
        TypeCheck::TimeDelta,
        TypeCheck::Promise,
        TypeCheck::Model,
        TypeCheck::QuerySet,
        TypeCheck::Enum,
        TypeCheck::Dataclass,
    ];
    assert(v@ =~= check_order());
    v
}

/// What a value turned out to be, with what the decision needs of it.
#[derive(Debug)]
pub enum ValueKind {
    NoneValue,
    Bool(bool),
    /// An `int` that fits in 64 bits.
    Int(i64),
    /// An `int` that does not.
    IntOutOfRange,
    Float,
    Str,
    Dict,
    List,
    Tuple,
    Bytes,
    ByteArray,
    /// A `set` or a `frozenset`.
    SetValue,
    DateTime,
    Uuid,
    Decimal,
    Date,
    Time,
    TimeDelta,
    Promise,
    Model,
    QuerySet,
    Enum,
    Dataclass,
    /// Anything else, with the name of its type.
    Other(String),
}

/// How to write a value.
#[derive(Debug)]
pub enum Action {
    WriteNull,
    WriteBool(bool),
    WriteInt(i64),
    /// The integer's `repr`, as it is.
    WriteRepr,
    /// The float, by its class: a number, or NaN and the infinities.
    WriteFloat,
    /// The string, escaped.
    WriteStr,
    /// The bytes, as a Base64 string.
    WriteBase64,
    /// The date and time, as ISO 8601 text.
    WriteDatetime,
    /// The value's `isoformat()`, as a string.
    WriteIso,
    /// The duration, as ISO 8601 text.
    WriteTimedelta,
    /// The value's `str()`, as a string.
    WriteStrOf,
    /// An array of the items, each at `depth`.
    Items { depth: usize },
    /// An array of the items in the order of their `str()`, each at `depth`.
    SortedItems { depth: usize },
    /// An object of the dictionary's members, sorted by key when `sorted`,
    /// each value at `depth`.
    Members { depth: usize, sorted: bool },
    /// An object of the model's fields, each value at `depth`.
    Fields { depth: usize },
    /// The enum member's `value`, written in its place, at `depth`.
    EnumValue { depth: usize },
    /// The dataclass as a dictionary, written in its place, at `depth`.
    AsDict { depth: usize },
    /// What `default` returns for the value, written in its place, at
    /// `depth`, as the `calls`-th nested call of `default`.
    CallDefault { depth: usize, calls: usize },
    /// Nothing can be written.
    Fail(SerializeError),
}

/// How a value of a known kind is written, below the depth limit:
/// scalars directly; the parts of a container one level deeper; an enum's
/// value and a dataclass's dictionary in the value's place, at the same
/// depth; a value of no known kind through `default` when there is one,
/// also in its place, failing otherwise.
pub open spec fn action_spec(kind: ValueKind, depth: nat, default_calls: nat, has_default: bool, sort_keys: bool) -> Action {
    let inner = (depth + 1) as usize;
    let here = depth as usize;
    match kind {
        ValueKind::NoneValue => Action::WriteNull,
        ValueKind::Bool(b) => Action::WriteBool(b),
        ValueKind::Int(i) => Action::WriteInt(i),
        ValueKind::IntOutOfRange => Action::WriteRepr,
        ValueKind::Float => Action::WriteFloat,
        ValueKind::Str => Action::WriteStr,
        ValueKind::Bytes => Action::WriteBase64,
        ValueKind::ByteArray => Action::WriteBase64,
        ValueKind::DateTime => Action::WriteDatetime,
        ValueKind::Date => Action::WriteIso,
        ValueKind::Time => Action::WriteIso,
        ValueKind::TimeDelta => Action::WriteTimedelta,
        ValueKind::Uuid => Action::WriteStrOf,
        ValueKind::Decimal => Action::WriteStrOf,
        ValueKind::Promise => Action::WriteStrOf,
        ValueKind::List => Action::Items { depth: inner },
        ValueKind::Tuple => Action::Items { depth: inner },
        ValueKind::QuerySet => Action::Items { depth: inner },
        ValueKind::SetValue => Action::SortedItems { depth: inner },
        ValueKind::Dict => Action::Members { depth: inner, sorted: sort_keys },
        ValueKind::Model => Action::Fields { depth: inner },
        ValueKind::Enum => Action::EnumValue { depth: here },
        ValueKind::Dataclass => Action::AsDict { depth: here },
        ValueKind::Other(name) => if !has_default {
            Action::Fail(SerializeError::NotSerializable(name))
        } else if default_calls >= MAX_DEPTH {
            Action::Fail(SerializeError::DepthExceeded)
        } else {
            Action::CallDefault { depth: here, calls: (default_calls + 1) as usize }
        },
    }
}

/// The whole decision: at `MAX_DEPTH` or deeper, failure; otherwise the
/// action for the kind. `default_calls` counts the calls of `default` that
/// the value is nested in; at `MAX_DEPTH` of them (as when `default` hands
/// back its argument) another call fails as too deep.
pub open spec fn plan(kind: ValueKind, depth: nat, default_calls: nat, has_default: bool, sort_keys: bool) -> Action {
    if depth >= MAX_DEPTH {
        Action::Fail(SerializeError::DepthExceeded)
    } else {
        action_spec(kind, depth, default_calls, has_default, sort_keys)
    }
}

/// The depth at which an action goes on to write another value.
pub open spec fn next_depth(a: Action) -> Option<usize> {
    match a {
        Action::Items { depth } => Some(depth),
        Action::SortedItems { depth } => Some(depth),
        Action::Members { depth, .. } => Some(depth),
        Action::Fields { depth } => Some(depth),
        Action::EnumValue { depth } => Some(depth),
        Action::AsDict { depth } => Some(depth),
        Action::CallDefault { depth, .. } => Some(depth),
        _ => None,
    }
}

/// Whether an action writes a container's parts, one level down.
pub open spec fn descends(a: Action) -> bool {
    a is Items || a is SortedItems || a is Members || a is Fields
}

/// Decides how to write a value of `kind` met at `depth`, inside
/// `default_calls` nested calls of `default`. Nested calls of `default` are
/// limited to `MAX_DEPTH`: one more fails with the depth error, so that a
/// `default` that hands back what it was given ends in a `ValueError`
/// instead of recursing without end. This is a limit of its own; a value
/// that needs more nested `default` calls than that cannot be written.
pub fn next_action(kind: ValueKind, depth: usize, default_calls: usize, has_default: bool, sort_keys: bool) -> (a: Action)
    ensures
        a == plan(kind, depth as nat, default_calls as nat, has_default, sort_keys),
        depth >= MAX_DEPTH ==> a == Action::Fail(SerializeError::DepthExceeded),
        next_depth(a) matches Some(d) ==> depth < MAX_DEPTH && d == (if descends(a) { depth + 1 } else { depth as int }),
        a matches Action::CallDefault { calls, .. } ==> default_calls < MAX_DEPTH && calls == default_calls + 1,
        (kind is Other && !has_default && depth < MAX_DEPTH) ==> a matches Action::Fail(
            SerializeError::NotSerializable(_),
        ),
{
    if let Err(e) = check_depth(depth) {
        return Action::Fail(e);
    }
    let inner = depth + 1;
    match kind {
        ValueKind::NoneValue => Action::WriteNull,
        ValueKind::Bool(b) => Action::WriteBool(b),
        ValueKind::Int(i) => Action::WriteInt(i),
        ValueKind::IntOutOfRange => Action::WriteRepr,
        ValueKind::Float => Action::WriteFloat,
        ValueKind::Str => Action::WriteStr,
        ValueKind::Bytes => Action::WriteBase64,
        ValueKind::ByteArray => Action::WriteBase64,
        ValueKind::DateTime => Action::WriteDatetime,
        ValueKind::Date => Action::WriteIso,
        ValueKind::Time => Action::WriteIso,
        ValueKind::TimeDelta => Action::WriteTimedelta,
        ValueKind::Uuid => Action::WriteStrOf,
        ValueKind::Decimal => Action::WriteStrOf,
        ValueKind::Promise => Action::WriteStrOf,
        ValueKind::List => Action::Items { depth: inner },
        ValueKind::Tuple => Action::Items { depth: inner },
        ValueKind::QuerySet => Action::Items { depth: inner },
        ValueKind::SetValue => Action::SortedItems { depth: inner },
        ValueKind::Dict => Action::Members { depth: inner, sorted: sort_keys },
        ValueKind::Model => Action::Fields { depth: inner },
        ValueKind::Enum => Action::EnumValue { depth },
        ValueKind::Dataclass => Action::AsDict { depth },
        ValueKind::Other(name) => if !has_default {
            Action::Fail(SerializeError::NotSerializable(name))
        } else if default_calls >= MAX_DEPTH {
            Action::Fail(SerializeError::DepthExceeded)
        } else {
            Action::CallDefault { depth, calls: default_calls + 1 }
        },
    }
}

/// Whether a failed value is tried again through `default`: only when
/// there is a `default` and the value had no JSON form; a depth or a NaN
/// failure stands.
pub fn use_default(e: &SerializeError, has_default: bool) -> (b: bool)
    ensures
        b == (has_default && *e is NotSerializable),
{
    has_default && match e {
        SerializeError::NotSerializable(_) => true,
        _ => false,
    }
}

/// What a dictionary key turned out to be.
#[derive(Debug)]
pub enum KeyKind {
    Str,
    /// An `int` key, as a 64-bit value.
    Int(i64),
    Other,
}

/// How to write a dictionary key, and what text it is sorted by.
#[derive(PartialEq, Eq, Structural, Clone, Copy, Debug)]
pub enum KeyAction {
    /// The key string, escaped; it is sorted by its own text.
    WriteStr,
    /// The integer's decimal digits in quotes; sorted by those digits.
    WriteInt(i64),
    /// The key's `str()`, escaped; sorted by that text.
    WriteStrOf,
}

/// How a key is written: JSON keys are strings, so an integer key becomes
/// its digits, and a key of another type its `str()`.
pub open spec fn key_action_spec(kind: KeyKind) -> KeyAction {
    match kind {
        KeyKind::Str => KeyAction::WriteStr,
        KeyKind::Int(v) => KeyAction::WriteInt(v),
        KeyKind::Other => KeyAction::WriteStrOf,
    }
}

/// Decides how to write a dictionary key.
pub fn key_action(kind: KeyKind) -> (a: KeyAction)
    ensures
        a == key_action_spec(kind),
{
    match kind {
        KeyKind::Str => KeyAction::WriteStr,
        KeyKind::Int(v) => KeyAction::WriteInt(v),
        KeyKind::Other => KeyAction::WriteStrOf,
    }
}


/// The position of a type test among all of them.
spec fn check_rank(c: TypeCheck) -> int {
    match c {
        TypeCheck::NoneValue => 0,
        TypeCheck::Bool => 1,
        TypeCheck::Int => 2,
        TypeCheck::Float => 3,
        TypeCheck::Str => 4,
        TypeCheck::Dict => 5,
        TypeCheck::List => 6,
        TypeCheck::Tuple => 7,
        TypeCheck::Bytes => 8,
        TypeCheck::ByteArray => 9,
        TypeCheck::SetValue => 10,
        TypeCheck::DateTime => 11,
        TypeCheck::Uuid => 12,
        TypeCheck::Decimal => 13,
        TypeCheck::Date => 14,
        TypeCheck::Time => 15,
        TypeCheck::TimeDelta => 16,
        TypeCheck::Promise => 17,
        TypeCheck::Model => 18,
        TypeCheck::QuerySet => 19,
        TypeCheck::Enum => 20,
        TypeCheck::Dataclass => 21,
    }
}

/// The test at each position is the one of that rank.
proof fn lemma_rank_at(i: int)
    requires
        0 <= i < 22,
    ensures
        check_rank(check_order()[i]) == i,
{
    if i == 0 {
    } else if i == 1 {
    } else if i == 2 {
    } else if i == 3 {
    } else if i == 4 {
    } else if i == 5 {
    } else if i == 6 {
    } else if i == 7 {
    } else if i == 8 {
    } else if i == 9 {
    } else if i == 10 {
    } else if i == 11 {
    } else if i == 12 {
    } else if i == 13 {
    } else if i == 14 {
    } else if i == 15 {
    } else if i == 16 {
    } else if i == 17 {
    } else if i == 18 {
    } else if i == 19 {
    } else if i == 20 {
    } else {
    }
}

/// Every type test is made, and each only once: the order holds each of
/// them exactly once, so every kind of value the encoder supports can be
/// recognised.
pub proof fn lemma_check_order_complete(c: TypeCheck)
    ensures
        check_order().contains(c),
        check_order().len() == 22,
        forall|i: int, j: int| 0 <= i < j < check_order().len() ==> check_order()[i] != check_order()[j],
{
    match c {
        TypeCheck::NoneValue => assert(check_order()[0] == c),
        TypeCheck::Bool => assert(check_order()[1] == c),
        TypeCheck::Int => assert(check_order()[2] == c),
        TypeCheck::Float => assert(check_order()[3] == c),
        TypeCheck::Str => assert(check_order()[4] == c),
        TypeCheck::Dict => assert(check_order()[5] == c),
        TypeCheck::List => assert(check_order()[6] == c),
        TypeCheck::Tuple => assert(check_order()[7] == c),
        TypeCheck::Bytes => assert(check_order()[8] == c),
        TypeCheck::ByteArray => assert(check_order()[9] == c),
        TypeCheck::SetValue => assert(check_order()[10] == c),
        TypeCheck::DateTime => assert(check_order()[11] == c),
        TypeCheck::Uuid => assert(check_order()[12] == c),
        TypeCheck::Decimal => assert(check_order()[13] == c),
        TypeCheck::Date => assert(check_order()[14] == c),
        TypeCheck::Time => assert(check_order()[15] == c),
        TypeCheck::TimeDelta => assert(check_order()[16] == c),
        TypeCheck::Promise => assert(check_order()[17] == c),
        TypeCheck::Model => assert(check_order()[18] == c),
        TypeCheck::QuerySet => assert(check_order()[19] == c),
        TypeCheck::Enum => assert(check_order()[20] == c),
        TypeCheck::Dataclass => assert(check_order()[21] == c),
    }
    assert forall|i: int, j: int| 0 <= i < j < check_order().len() implies check_order()[i] != check_order()[j] by {
        lemma_rank_at(i);
        lemma_rank_at(j);
    }
}

/// Below the depth limit, the option `sort_keys` decides only the order of
/// a dictionary's members: a dictionary's members are sorted exactly when it
/// is set (otherwise they come in the dictionary's own order), and every
/// other kind of value is written alike either way.
pub proof fn lemma_sort_keys_orders_only_dicts(kind: ValueKind, depth: nat, default_calls: nat, has_default: bool, sort_keys: bool)
    requires
        depth < MAX_DEPTH,
    ensures
        plan(ValueKind::Dict, depth, default_calls, has_default, sort_keys) matches Action::Members { sorted, .. }
            && sorted == sort_keys,
        !(kind is Dict) ==> plan(kind, depth, default_calls, has_default, true) == plan(kind, depth, default_calls,
            has_default, false),
        plan(kind, depth, default_calls, has_default, sort_keys) matches Action::Members { sorted, .. } ==> sorted
            == sort_keys,
{
}

/// Below the depth limit a float, and only a float, is written as a
/// number: never as the text of its `str()`.
pub proof fn lemma_float_written_as_number(kind: ValueKind, depth: nat, default_calls: nat, has_default: bool, sort_keys: bool)
    requires
        depth < MAX_DEPTH,
    ensures
        plan(kind, depth, default_calls, has_default, sort_keys) is WriteFloat <==> kind is Float,
        kind is Float ==> !(plan(kind, depth, default_calls, has_default, sort_keys) is WriteStrOf),
{
}

/// Below the depth limit only a set is written in sorted order; a list, a
/// tuple and a queryset are written alike, their items in their own order,
/// one level down.
pub proof fn lemma_only_sets_sorted(kind: ValueKind, depth: nat, default_calls: nat, has_default: bool, sort_keys: bool)
    requires
        depth < MAX_DEPTH,
    ensures
        plan(kind, depth, default_calls, has_default, sort_keys) is SortedItems <==> kind is SetValue,
        plan(ValueKind::QuerySet, depth, default_calls, has_default, sort_keys) == plan(ValueKind::List, depth,
            default_calls, has_default, sort_keys),
        plan(ValueKind::Tuple, depth, default_calls, has_default, sort_keys) == plan(ValueKind::List, depth,
            default_calls, has_default, sort_keys),
        plan(ValueKind::List, depth, default_calls, has_default, sort_keys) == (Action::Items { depth: (depth + 1) as usize }),
{
}


/// Below the depth limit, UUIDs, decimals and lazy strings, and only
/// they, are written as the text of their `str()`; `bytes` and
/// `bytearray`, and only they, as Base64; a `bool`, an `int` that fits and
/// `None` as themselves.
pub proof fn lemma_scalars_written_by_kind(kind: ValueKind, depth: nat, default_calls: nat, has_default: bool, sort_keys: bool)
    requires
        depth < MAX_DEPTH,
    ensures
        plan(kind, depth, default_calls, has_default, sort_keys) is WriteStrOf <==> (kind is Uuid || kind is Decimal
            || kind is Promise),
        plan(kind, depth, default_calls, has_default, sort_keys) is WriteBase64 <==> (kind is Bytes || kind is ByteArray),
        kind matches ValueKind::Bool(b) ==> plan(kind, depth, default_calls, has_default, sort_keys) == Action::WriteBool(b),
        kind matches ValueKind::Int(i) ==> plan(kind, depth, default_calls, has_default, sort_keys) == Action::WriteInt(i),
        kind is NoneValue ==> plan(kind, depth, default_calls, has_default, sort_keys) is WriteNull,
{
}

/// A container's parts are written one level deeper; what stands in a
/// value's place (an enum's value, a dataclass's dictionary, what
/// `default` returns) at the value's own depth.
pub proof fn lemma_parts_one_level_down(kind: ValueKind, depth: nat, default_calls: nat, has_default: bool, sort_keys: bool)
    requires
        depth < MAX_DEPTH,
    ensures
        ({
            let a = plan(kind, depth, default_calls, has_default, sort_keys);
            &&& descends(a) ==> next_depth(a) == Some((depth + 1) as usize)
            &&& (next_depth(a) is Some && !descends(a)) ==> next_depth(a) == Some(depth as usize)
        }),
{
}

} // verus!
