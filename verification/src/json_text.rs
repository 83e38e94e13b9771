//! The character-level rules of JSON text: how a string is escaped, and
//! the whitespace that pretty printing inserts.

use vstd::prelude::*;

verus! {

/// The lowercase hexadecimal digit of `n`, for `0 <= n < 16`.
pub open spec fn hex_digit(n: int) -> char {
    if n < 10 {
        (48 + n) as char
    } else {
        (87 + n) as char
    }
}

/// The four lowercase hexadecimal digits of a 16-bit value.
pub open spec fn hex4(v: int) -> Seq<char> {
    seq![
        hex_digit((v / 4096) % 16),
        hex_digit((v / 256) % 16),
        hex_digit((v / 16) % 16),
        hex_digit(v % 16),
    ]
}

/// A `\uXXXX` escape of a 16-bit code unit.
pub open spec fn unicode_escape(v: int) -> Seq<char> {
    seq!['\\', 'u'] + hex4(v)
}

/// How one character of a string appears between the quotes of a JSON
/// string literal.
///
/// Quote and backslash are escaped, the control characters below U+0020 use
/// their short escapes where JSON has one and `\u00XX` otherwise. Characters
/// outside ASCII are written as they are, unless `ascii_only` is set: then a
/// character of the Basic Multilingual Plane becomes one `\uXXXX` escape,
/// and one above it a UTF-16 surrogate pair of two escapes.
pub open spec fn escape_char(c: char, ascii_only: bool) -> Seq<char> {
    let cp = c as int;
    if c == '"' {
        seq!['\\', '"']
    } else if c == '\\' {
        seq!['\\', '\\']
    } else if c == '\n' {
        seq!['\\', 'n']
    } else if c == '\r' {
        seq!['\\', 'r']
    } else if c == '\t' {
        seq!['\\', 't']
    } else if cp == 0x08 {
        seq!['\\', 'b']
    } else if cp == 0x0c {
        seq!['\\', 'f']
    } else if cp < 0x20 {
        unicode_escape(cp)
    } else if cp < 0x80 || !ascii_only {
        seq![c]
    } else if cp < 0x10000 {
        unicode_escape(cp)
    } else {
        unicode_escape(0xd800 + (cp - 0x10000) / 1024) + unicode_escape(0xdc00 + (cp - 0x10000)
            % 1024)
    }
}

/// The escaped form of a whole sequence of characters: the escapes of its
/// characters, in order.
pub open spec fn escape_chars(s: Seq<char>, ascii_only: bool) -> Seq<char>
    decreases s.len(),
{
    if s.len() == 0 {
        Seq::empty()
    } else {
        escape_chars(s.drop_last(), ascii_only) + escape_char(s.last(), ascii_only)
    }
}

/// A JSON string literal holding `s`.
pub open spec fn quoted(s: Seq<char>, ascii_only: bool) -> Seq<char> {
    seq!['"'] + escape_chars(s, ascii_only) + seq!['"']
}

/// Escaping works character by character: the escape of a concatenation is
/// the concatenation of the escapes.
pub proof fn lemma_escape_chars_concat(a: Seq<char>, b: Seq<char>, ascii_only: bool)
    ensures
        escape_chars(a + b, ascii_only) == escape_chars(a, ascii_only) + escape_chars(b, ascii_only),
    decreases b.len(),
{
    if b.len() == 0 {
        assert(a + b =~= a);
        assert(escape_chars(a, ascii_only) + escape_chars(b, ascii_only) =~= escape_chars(a, ascii_only));
    } else {
        lemma_escape_chars_concat(a, b.drop_last(), ascii_only);
        assert((a + b).drop_last() =~= a + b.drop_last());
        assert(escape_chars(a + b, ascii_only) =~= escape_chars(a, ascii_only) + escape_chars(b, ascii_only));
    }
}

/// A lowercase hexadecimal digit is an ASCII character.
pub proof fn lemma_hex4_ascii(v: int)
    requires
        0 <= v < 0x10000,
    ensures
        forall|i: int| 0 <= i < hex4(v).len() ==> (#[trigger] hex4(v)[i] as int) < 0x80,
{
}

/// With `ascii_only` set, the escape of any character is ASCII.
pub proof fn lemma_escape_char_ascii(c: char)
    ensures
        forall|i: int|
            0 <= i < escape_char(c, true).len() ==> (#[trigger] escape_char(c, true)[i] as int) < 0x80,
{
    let cp = c as int;
    if cp < 0x20 {
        lemma_hex4_ascii(cp);
    } else if 0x80 <= cp < 0x10000 {
        lemma_hex4_ascii(cp);
    } else if cp >= 0x10000 {
        assert(cp <= 0x10ffff) by {
            vstd::utf8::char_is_scalar(c);
        }
        lemma_hex4_ascii(0xd800 + (cp - 0x10000) / 1024);
        lemma_hex4_ascii(0xdc00 + (cp - 0x10000) % 1024);
        let e1 = unicode_escape(0xd800 + (cp - 0x10000) / 1024);
        let e2 = unicode_escape(0xdc00 + (cp - 0x10000) % 1024);
        assert forall|i: int| 0 <= i < (e1 + e2).len() implies ((e1 + e2)[i] as int) < 0x80 by {
            if i < e1.len() {
                if i >= 2 {
                    assert(e1[i] == hex4(0xd800 + (cp - 0x10000) / 1024)[i - 2]);
                }
            } else {
                if i - e1.len() >= 2 {
                    assert(e2[i - e1.len()] == hex4(0xdc00 + (cp - 0x10000) % 1024)[i - e1.len() - 2]);
                }
            }
        }
    }
    if cp < 0x20 || (0x80 <= cp < 0x10000) {
        let e = unicode_escape(cp);
        assert forall|i: int| 0 <= i < e.len() implies (e[i] as int) < 0x80 by {
            if i >= 2 {
                assert(e[i] == hex4(cp)[i - 2]);
            }
        }
    }
}

/// With `ascii_only` set, escaped text is pure ASCII, whatever characters
/// the string holds.
pub proof fn lemma_escape_chars_ascii(s: Seq<char>)
    ensures
        forall|i: int|
            0 <= i < escape_chars(s, true).len() ==> (#[trigger] escape_chars(s, true)[i] as int) < 0x80,
    decreases s.len(),
{
    if s.len() > 0 {
        lemma_escape_chars_ascii(s.drop_last());
        lemma_escape_char_ascii(s.last());
        let a = escape_chars(s.drop_last(), true);
        let b = escape_char(s.last(), true);
        assert forall|i: int| 0 <= i < (a + b).len() implies ((a + b)[i] as int) < 0x80 by {
            if i >= a.len() {
                assert((a + b)[i] == b[i - a.len()]);
            }
        }
    }
}

/// A character that JSON allows inside a string literal as it is, and that
/// is ASCII: it is neither a control character, nor a quote, nor a
/// backslash.
pub open spec fn is_plain(c: char) -> bool {
    0x20 <= (c as int) < 0x80 && c != '"' && c != '\\'
}

/// Every character of `s` is plain.
pub open spec fn all_plain(s: Seq<char>) -> bool {
    forall|i: int| 0 <= i < s.len() ==> is_plain(#[trigger] s[i])
}

/// Plain text stays plain when joined.
pub proof fn lemma_all_plain_concat(a: Seq<char>, b: Seq<char>)
    requires
        all_plain(a),
        all_plain(b),
    ensures
        all_plain(a + b),
{
    assert forall|i: int| 0 <= i < (a + b).len() implies is_plain(#[trigger] (a + b)[i]) by {
        if i < a.len() {
            assert((a + b)[i] == a[i]);
        } else {
            assert((a + b)[i] == b[i - a.len()]);
        }
    }
}

/// Text made of plain characters is its own escape.
pub proof fn lemma_escape_plain(s: Seq<char>, ascii_only: bool)
    requires
        forall|i: int| 0 <= i < s.len() ==> is_plain(#[trigger] s[i]),
    ensures
        escape_chars(s, ascii_only) == s,
    decreases s.len(),
{
    if s.len() > 0 {
        lemma_escape_plain(s.drop_last(), ascii_only);
        let c = s.last();
        assert(is_plain(s[s.len() - 1]));
        assert(s.drop_last().push(c) =~= s);
    }
}

/// The value of a hexadecimal digit of either case.
pub open spec fn hex_value(c: char) -> Option<int> {
    let x = c as int;
    if 48 <= x <= 57 {
        Some(x - 48)
    } else if 97 <= x <= 102 {
        Some(x - 87)
    } else if 65 <= x <= 70 {
        Some(x - 55)
    } else {
        None
    }
}

/// The value of four hexadecimal digits at the start of `t`.
pub open spec fn hex4_value(t: Seq<char>) -> Option<int> {
    if t.len() < 4 {
        None
    } else {
        match (hex_value(t[0]), hex_value(t[1]), hex_value(t[2]), hex_value(t[3])) {
            (Some(a), Some(b), Some(c), Some(d)) => Some(a * 4096 + b * 256 + c * 16 + d),
            _ => None,
        }
    }
}

/// `c` before the text of a successful decoding; a failure stays one.
pub open spec fn prepend(c: char, rest: Option<Seq<char>>) -> Option<Seq<char>> {
    match rest {
        Some(r) => Some(seq![c] + r),
        None => None,
    }
}

/// The character that a one-letter escape `\e` stands for.
pub open spec fn short_escape(e: char) -> Option<char> {
    if e == '"' {
        Some('"')
    } else if e == '\\' {
        Some('\\')
    } else if e == '/' {
        Some('/')
    } else if e == 'b' {
        Some(0x08 as char)
    } else if e == 'f' {
        Some(0x0c as char)
    } else if e == 'n' {
        Some('\n')
    } else if e == 'r' {
        Some('\r')
    } else if e == 't' {
        Some('\t')
    } else {
        None
    }
}

/// How a JSON reader decodes the characters between the quotes of a string
/// literal (RFC 8259, section 7): a quote or a control character may not
/// stand there, a backslash starts a one-letter escape or `\uXXXX`, and a
/// high surrogate escape must be followed by a low surrogate escape, the two
/// giving one character above the Basic Multilingual Plane. `None` for text
/// that no string literal holds.
pub open spec fn unescape(t: Seq<char>) -> Option<Seq<char>>
    decreases t.len(),
{
    if t.len() == 0 {
        Some(Seq::empty())
    } else if t[0] == '"' || (t[0] as int) < 0x20 {
        None
    } else if t[0] != '\\' {
        prepend(t[0], unescape(t.drop_first()))
    } else if t.len() < 2 {
        None
    } else if short_escape(t[1]) is Some {
        prepend(short_escape(t[1])->0, unescape(t.skip(2)))
    } else if t[1] == 'u' && hex4_value(t.skip(2)) is Some {
        let u = hex4_value(t.skip(2))->0;
        if 0xd800 <= u < 0xdc00 {
            if t.len() >= 8 && t[6] == '\\' && t[7] == 'u' && hex4_value(t.skip(8)) is Some && 0xdc00
                <= hex4_value(t.skip(8))->0 < 0xe000 {
                let l = hex4_value(t.skip(8))->0;
                prepend(((u - 0xd800) * 1024 + (l - 0xdc00) + 0x10000) as char, unescape(t.skip(12)))
            } else {
                None
            }
        } else if 0xdc00 <= u < 0xe000 {
            None
        } else {
            prepend(u as char, unescape(t.skip(6)))
        }
    } else {
        None
    }
}

/// Reading back four hexadecimal digits gives the value they were written
/// for.
pub proof fn lemma_hex4_value(v: int, rest: Seq<char>)
    requires
        0 <= v < 0x10000,
    ensures
        hex4_value(hex4(v) + rest) == Some(v),
{
    let t = hex4(v) + rest;
    let a = (v / 4096) % 16;
    let b = (v / 256) % 16;
    let c = (v / 16) % 16;
    let d = v % 16;
    assert(t[0] == hex_digit(a) && t[1] == hex_digit(b) && t[2] == hex_digit(c) && t[3] == hex_digit(d));
    assert(a * 4096 + b * 256 + c * 16 + d == v) by (nonlinear_arith)
        requires
            0 <= v < 0x10000,
            a == (v / 4096) % 16,
            b == (v / 256) % 16,
            c == (v / 16) % 16,
            d == v % 16,
    ;
}

proof fn lemma_unescape_short(e: char, c: char, rest: Seq<char>)
    requires
        short_escape(e) == Some(c),
    ensures
        unescape(seq!['\\', e] + rest) == prepend(c, unescape(rest)),
{
    let t = seq!['\\', e] + rest;
    assert(t.skip(2) =~= rest);
}

proof fn lemma_unescape_plain(c: char, rest: Seq<char>)
    requires
        c != '"',
        c != '\\',
        (c as int) >= 0x20,
    ensures
        unescape(seq![c] + rest) == prepend(c, unescape(rest)),
{
    let t = seq![c] + rest;
    assert(t.drop_first() =~= rest);
}

proof fn lemma_unescape_unit(c: char, rest: Seq<char>)
    requires
        0 <= (c as int) < 0xd800 || 0xe000 <= (c as int) < 0x10000,
    ensures
        unescape(unicode_escape(c as int) + rest) == prepend(c, unescape(rest)),
{
    let cp = c as int;
    let t = unicode_escape(cp) + rest;
    assert(t.skip(2) =~= hex4(cp) + rest);
    lemma_hex4_value(cp, rest);
    assert(t.skip(6) =~= rest);
    assert(short_escape(t[1]) is None);
}

proof fn lemma_unescape_pair(c: char, rest: Seq<char>)
    requires
        0x10000 <= (c as int) <= 0x10ffff,
    ensures
        unescape(unicode_escape(0xd800 + ((c as int) - 0x10000) / 1024) + unicode_escape(0xdc00 + ((c
            as int) - 0x10000) % 1024) + rest) == prepend(c, unescape(rest)),
{
    let cp = c as int;
    let hi = 0xd800 + (cp - 0x10000) / 1024;
    let lo = 0xdc00 + (cp - 0x10000) % 1024;
    let t = unicode_escape(hi) + unicode_escape(lo) + rest;
    assert(0xd800 <= hi < 0xdc00 && 0xdc00 <= lo < 0xe000);
    assert(t.skip(2) =~= hex4(hi) + (unicode_escape(lo) + rest));
    lemma_hex4_value(hi, unicode_escape(lo) + rest);
    assert(t.skip(8) =~= hex4(lo) + rest);
    lemma_hex4_value(lo, rest);
    assert(t.skip(12) =~= rest);
    assert(t[6] == '\\' && t[7] == 'u');
    assert(short_escape(t[1]) is None);
    assert((hi - 0xd800) * 1024 + (lo - 0xdc00) + 0x10000 == cp);
}

/// Reading one escaped character back gives the character, followed by
/// whatever the rest of the text reads as.
pub proof fn lemma_unescape_escape_char(c: char, rest: Seq<char>, ascii_only: bool)
    ensures
        unescape(escape_char(c, ascii_only) + rest) == prepend(c, unescape(rest)),
{
    let cp = c as int;
    assert(cp <= 0x10ffff && !(0xd800 <= cp < 0xe000)) by {
        vstd::utf8::char_is_scalar(c);
    }
    if c == '"' {
        lemma_unescape_short('"', c, rest);
    } else if c == '\\' {
        lemma_unescape_short('\\', c, rest);
    } else if c == '\n' {
        lemma_unescape_short('n', c, rest);
    } else if c == '\r' {
        lemma_unescape_short('r', c, rest);
    } else if c == '\t' {
        lemma_unescape_short('t', c, rest);
    } else if cp == 0x08 {
        lemma_unescape_short('b', c, rest);
    } else if cp == 0x0c {
        lemma_unescape_short('f', c, rest);
    } else if cp < 0x20 {
        lemma_unescape_unit(c, rest);
    } else if cp < 0x80 || !ascii_only {
        lemma_unescape_plain(c, rest);
    } else if cp < 0x10000 {
        lemma_unescape_unit(c, rest);
    } else {
        lemma_unescape_pair(c, rest);
    }
}

/// What `write_string` puts between the quotes reads back as exactly the
/// string that was written, whether or not the output is kept to ASCII.
pub proof fn lemma_unescape_escape_chars(s: Seq<char>, ascii_only: bool)
    ensures
        unescape(escape_chars(s, ascii_only)) == Some(s),
    decreases s.len(),
{
    if s.len() == 0 {
    } else {
        let first = seq![s[0]];
        let rest = s.drop_first();
        assert(first + rest =~= s);
        lemma_escape_chars_concat(first, rest, ascii_only);
        assert(first.drop_last() =~= Seq::<char>::empty());
        assert(escape_chars(first.drop_last(), ascii_only) == Seq::<char>::empty());
        assert(first.last() == s[0]);
        assert(escape_chars(first, ascii_only) =~= escape_char(s[0], ascii_only));
        lemma_unescape_escape_char(s[0], escape_chars(rest, ascii_only), ascii_only);
        lemma_unescape_escape_chars(rest, ascii_only);
        assert(seq![s[0]] + rest =~= s);
    }
}

/// `n` spaces.
pub open spec fn spaces(n: nat) -> Seq<char> {
    Seq::new(n, |i: int| ' ')
}

/// A line break followed by the indentation of nesting level `level`, each
/// level `width` spaces wide.
pub open spec fn line_break(level: nat, width: nat) -> Seq<char> {
    seq!['\n'] + spaces(level * width)
}

/// The lowercase hexadecimal digit of `n`.
pub fn hex_digit_char(n: u32) -> (c: char)
    requires
        n < 16,
    ensures
        c == hex_digit(n as int),
{
    if n < 10 {
        ((48 + n) as u8) as char
    } else {
        ((87 + n) as u8) as char
    }
}

} // verus!
