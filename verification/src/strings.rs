//! Specifications of the `String` operations that the writer relies on.

use vstd::prelude::*;

verus! {

/// `String::with_capacity` creates an empty string; the capacity only
/// reserves memory and is not observable in the contents.
pub assume_specification[ String::with_capacity ](capacity: usize) -> (s: String)
    ensures
        s@ == Seq::<char>::empty(),
;

/// `String::push` appends one character to the end of the string.
pub assume_specification[ String::push ](s: &mut String, ch: char)
    ensures
        final(s)@ == old(s)@.push(ch),
;

/// `String::push_str` appends the characters of `string` to the end.
pub assume_specification[ String::push_str ](s: &mut String, string: &str)
    ensures
        final(s)@ == old(s)@ + string@,
;

/// `String::into_bytes` hands back the UTF-8 encoding of the string's
/// characters.
pub assume_specification[ String::into_bytes ](s: String) -> (bytes: Vec<u8>)
    ensures
        bytes@ == vstd::utf8::encode_utf8(s@),
;

} // verus!
