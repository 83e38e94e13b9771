//! A JSON reader, as a specification, and the proof that it reads back
//! what the writer writes: strings, integers, and whole documents.

use vstd::prelude::*;
use crate::numbers::{decimal, digits, digits_value, lemma_digits_plain, lemma_digits_value, lemma_digits_len};
use crate::document::{break_at, inner_level, items_text, lemma_walk, layout, members_text, value_text, walk, Layout, Tree};
use crate::writer::{fresh, WriterView};
use crate::json_text::{quoted, line_break, spaces, escape_char, escape_chars, hex4, hex4_value, lemma_escape_chars_concat, lemma_hex4_value, short_escape, unicode_escape};

verus! {

/// `c` before the text of a successful read; a failure stays one.
pub open spec fn cons(c: char, r: Option<(Seq<char>, Seq<char>)>) -> Option<(Seq<char>, Seq<char>)> {
    match r {
        Some((s, rest)) => Some((seq![c] + s, rest)),
        None => None,
    }
}

/// Reads the inside of a JSON string literal up to its closing quote
/// (RFC 8259, section 7): the characters it stands for, and the text after
/// the quote. A control character may not stand there; a backslash starts a
/// one-letter escape or `\uXXXX`, and a high surrogate escape must be
/// followed by a low surrogate escape.
#[verifier::opaque]
pub open spec fn read_str(t: Seq<char>) -> Option<(Seq<char>, Seq<char>)>
    decreases t.len(),
{
    if t.len() == 0 {
        None
    } else if t[0] == '"' {
        Some((Seq::empty(), t.drop_first()))
    } else if (t[0] as int) < 0x20 {
        None
    } else if t[0] != '\\' {
        cons(t[0], read_str(t.drop_first()))
    } else if t.len() < 2 {
        None
    } else if short_escape(t[1]) is Some {
        cons(short_escape(t[1])->0, read_str(t.skip(2)))
    } else if t[1] == 'u' && hex4_value(t.skip(2)) is Some {
        let u = hex4_value(t.skip(2))->0;
        if 0xd800 <= u < 0xdc00 {
            if t.len() >= 8 && t[6] == '\\' && t[7] == 'u' && hex4_value(t.skip(8)) is Some && 0xdc00
                <= hex4_value(t.skip(8))->0 < 0xe000 {
                let l = hex4_value(t.skip(8))->0;
                cons(((u - 0xd800) * 1024 + (l - 0xdc00) + 0x10000) as char, read_str(t.skip(12)))
            } else {
                None
            }
        } else if 0xdc00 <= u < 0xe000 {
            None
        } else {
            cons(u as char, read_str(t.skip(6)))
        }
    } else {
        None
    }
}

proof fn lemma_read_short(e: char, c: char, rest: Seq<char>)
    requires
        short_escape(e) == Some(c),
    ensures
        read_str(seq!['\\', e] + rest) == cons(c, read_str(rest)),
{
    reveal(read_str);
    let t = seq!['\\', e] + rest;
    assert(t.skip(2) =~= rest);
}

proof fn lemma_read_plain(c: char, rest: Seq<char>)
    requires
        c != '"',
        c != '\\',
        (c as int) >= 0x20,
    ensures
        read_str(seq![c] + rest) == cons(c, read_str(rest)),
{
    reveal(read_str);
    let t = seq![c] + rest;
    assert(t.drop_first() =~= rest);
}

proof fn lemma_read_unit(c: char, rest: Seq<char>)
    requires
        0 <= (c as int) < 0xd800 || 0xe000 <= (c as int) < 0x10000,
    ensures
        read_str(unicode_escape(c as int) + rest) == cons(c, read_str(rest)),
{
    reveal(read_str);
    let cp = c as int;
    let t = unicode_escape(cp) + rest;
    assert(t.skip(2) =~= hex4(cp) + rest);
    lemma_hex4_value(cp, rest);
    assert(t.skip(6) =~= rest);
    assert(short_escape(t[1]) is None);
}

proof fn lemma_read_pair(c: char, rest: Seq<char>)
    requires
        0x10000 <= (c as int) <= 0x10ffff,
    ensures
        read_str(unicode_escape(0xd800 + ((c as int) - 0x10000) / 1024) + unicode_escape(0xdc00 + ((c
            as int) - 0x10000) % 1024) + rest) == cons(c, read_str(rest)),
{
    reveal(read_str);
    let cp = c as int;
    let hi = 0xd800 + (cp - 0x10000) / 1024;
    let lo = 0xdc00 + (cp - 0x10000) % 1024;
    let t = unicode_escape(hi) + unicode_escape(lo) + rest;
    assert(0xd800 <= hi < 0xdc00 && 0xdc00 <= lo < 0xe000);
    assert(t.skip(2) =~= hex4(hi) + (unicode_escape(lo) + rest));
    lemma_hex4_value(hi, unicode_escape(lo) + rest);
    assert(t.skip(8) =~= hex4(lo) + rest);
    lemma_hex4_value(lo, rest);
    assert(t.skip(12) =~= rest);
    assert(t[6] == '\\' && t[7] == 'u');
    assert(short_escape(t[1]) is None);
    assert((hi - 0xd800) * 1024 + (lo - 0xdc00) + 0x10000 == cp);
}

proof fn lemma_read_escape_char(c: char, rest: Seq<char>, ascii_only: bool)
    ensures
        read_str(escape_char(c, ascii_only) + rest) == cons(c, read_str(rest)),
{
    let cp = c as int;
    assert(cp <= 0x10ffff && !(0xd800 <= cp < 0xe000)) by {
        vstd::utf8::char_is_scalar(c);
    }
    if c == '"' {
        lemma_read_short('"', c, rest);
    } else if c == '\\' {
        lemma_read_short('\\', c, rest);
    } else if c == '\n' {
        lemma_read_short('n', c, rest);
    } else if c == '\r' {
        lemma_read_short('r', c, rest);
    } else if c == '\t' {
        lemma_read_short('t', c, rest);
    } else if cp == 0x08 {
        lemma_read_short('b', c, rest);
    } else if cp == 0x0c {
        lemma_read_short('f', c, rest);
    } else if cp < 0x20 {
        lemma_read_unit(c, rest);
    } else if cp < 0x80 || !ascii_only {
        lemma_read_plain(c, rest);
    } else if cp < 0x10000 {
        lemma_read_unit(c, rest);
    } else {
        lemma_read_pair(c, rest);
    }
}

/// A string written by the writer reads back, up to its closing quote, as
/// the string itself, and the reader goes on right after the quote.
pub proof fn lemma_read_escaped(s: Seq<char>, ascii_only: bool, rest: Seq<char>)
    ensures
        read_str(escape_chars(s, ascii_only) + seq!['"'] + rest) == Some((s, rest)),
    decreases s.len(),
{
    if s.len() == 0 {
        reveal(read_str);
        let t = escape_chars(s, ascii_only) + seq!['"'] + rest;
        assert(t =~= seq!['"'] + rest);
        assert(t.drop_first() =~= rest);
    } else {
        let first = seq![s[0]];
        let tail = s.drop_first();
        assert(first + tail =~= s);
        lemma_escape_chars_concat(first, tail, ascii_only);
        assert(first.drop_last() =~= Seq::<char>::empty());
        assert(escape_chars(first.drop_last(), ascii_only) == Seq::<char>::empty());
        assert(first.last() == s[0]);
        assert(escape_chars(first, ascii_only) =~= escape_char(s[0], ascii_only));
        let after = escape_chars(tail, ascii_only) + seq!['"'] + rest;
        assert(escape_chars(s, ascii_only) + seq!['"'] + rest =~= escape_char(s[0], ascii_only) + after);
        lemma_read_escape_char(s[0], after, ascii_only);
        lemma_read_escaped(tail, ascii_only, rest);
        assert(seq![s[0]] + tail =~= s);
    }
}

/// JSON whitespace.
pub open spec fn is_ws(c: char) -> bool {
    c == ' ' || c == '\n' || c == '\r' || c == '\t'
}

/// Text made only of JSON whitespace.
pub open spec fn all_ws(s: Seq<char>) -> bool {
    forall|i: int| 0 <= i < s.len() ==> is_ws(#[trigger] s[i])
}

/// The text with its leading whitespace removed.
pub open spec fn skip_ws(t: Seq<char>) -> Seq<char>
    decreases t.len(),
{
    if t.len() > 0 && is_ws(t[0]) {
        skip_ws(t.drop_first())
    } else {
        t
    }
}

/// Skipping whitespace goes past whitespace in front and keeps the rest.
pub proof fn lemma_skip_ws(w: Seq<char>, rest: Seq<char>)
    requires
        all_ws(w),
    ensures
        skip_ws(w + rest) == skip_ws(rest),
    decreases w.len(),
{
    if w.len() > 0 {
        assert((w + rest).drop_first() =~= w.drop_first() + rest);
        assert(is_ws(w[0]));
        lemma_skip_ws(w.drop_first(), rest);
    } else {
        assert(w + rest =~= rest);
    }
}

/// Skipping whitespace leaves a suffix of the text.
pub proof fn lemma_skip_ws_len(t: Seq<char>)
    ensures
        skip_ws(t).len() <= t.len(),
    decreases t.len(),
{
    if t.len() > 0 && is_ws(t[0]) {
        lemma_skip_ws_len(t.drop_first());
    }
}

/// An ASCII digit.
pub open spec fn is_digit(c: char) -> bool {
    48 <= (c as int) <= 57
}

/// How many digits the text starts with.
pub open spec fn digit_run(t: Seq<char>) -> nat
    decreases t.len(),
{
    if t.len() > 0 && is_digit(t[0]) {
        1 + digit_run(t.drop_first())
    } else {
        0
    }
}

/// Reads an integer: an optional minus sign and at least one digit; the
/// value and the text after it.
pub open spec fn read_int(t: Seq<char>) -> Option<(int, Seq<char>)> {
    if t.len() > 0 && t[0] == '-' {
        let u = t.drop_first();
        let n = digit_run(u);
        if n == 0 {
            None
        } else {
            Some((-digits_value(u.take(n as int)), u.skip(n as int)))
        }
    } else {
        let n = digit_run(t);
        if n == 0 {
            None
        } else {
            Some((digits_value(t.take(n as int)), t.skip(n as int)))
        }
    }
}

proof fn lemma_digit_run(s: Seq<char>, rest: Seq<char>)
    requires
        forall|i: int| 0 <= i < s.len() ==> is_digit(#[trigger] s[i]),
        rest.len() == 0 || !is_digit(rest[0]),
    ensures
        digit_run(s + rest) == s.len(),
    decreases s.len(),
{
    if s.len() > 0 {
        assert((s + rest).drop_first() =~= s.drop_first() + rest);
        assert(is_digit(s[0]));
        lemma_digit_run(s.drop_first(), rest);
    } else {
        assert(s + rest =~= rest);
    }
}

/// An integer written by the writer reads back as itself, when what follows
/// is not a digit.
pub proof fn lemma_read_int(v: int, rest: Seq<char>)
    requires
        rest.len() == 0 || !is_digit(rest[0]),
    ensures
        read_int(decimal(v) + rest) == Some((v, rest)),
{
    let m: nat = if v < 0 { (-v) as nat } else { v as nat };
    let ds = digits(m);
    lemma_digits_plain(m);
    lemma_digits_len(m);
    lemma_digits_value(m);
    lemma_digit_run(ds, rest);
    assert((ds + rest).take(ds.len() as int) =~= ds);
    assert((ds + rest).skip(ds.len() as int) =~= rest);
    if v < 0 {
        let t = decimal(v) + rest;
        assert(t.drop_first() =~= ds + rest);
    } else {
        assert(is_digit(ds[0]));
    }
}

/// The text starts with `p`.
pub open spec fn starts_with(t: Seq<char>, p: Seq<char>) -> bool {
    t.len() >= p.len() && t.take(p.len() as int) == p
}

/// Reads one JSON value after optional whitespace: `null`, `true`,
/// `false`, a string, an integer, an array or an object; the value and the
/// text after it.
pub open spec fn read_value(t: Seq<char>) -> Option<(Tree, Seq<char>)>
    decreases t.len(), 1int,
{
    let u = skip_ws(t);
    if u.len() > t.len() || u.len() == 0 {
        None
    } else if starts_with(u, seq!['n', 'u', 'l', 'l']) {
        Some((Tree::Null, u.skip(4)))
    } else if starts_with(u, seq!['t', 'r', 'u', 'e']) {
        Some((Tree::Bool(true), u.skip(4)))
    } else if starts_with(u, seq!['f', 'a', 'l', 's', 'e']) {
        Some((Tree::Bool(false), u.skip(5)))
    } else if u[0] == '"' {
        match read_str(u.drop_first()) {
            Some((s, r)) => Some((Tree::Str(s), r)),
            None => None,
        }
    } else if u[0] == '[' {
        let v = skip_ws(u.drop_first());
        if v.len() > 0 && v[0] == ']' {
            Some((Tree::Array(Seq::empty()), v.drop_first()))
        } else {
            match read_items(u.drop_first()) {
                Some((xs, r)) => Some((Tree::Array(xs), r)),
                None => None,
            }
        }
    } else if u[0] == '{' {
        let v = skip_ws(u.drop_first());
        if v.len() > 0 && v[0] == '}' {
            Some((Tree::Object(Seq::empty()), v.drop_first()))
        } else {
            match read_members(u.drop_first()) {
                Some((ms, r)) => Some((Tree::Object(ms), r)),
                None => None,
            }
        }
    } else {
        match read_int(u) {
            Some((n, r)) => Some((Tree::Int(n), r)),
            None => None,
        }
    }
}

/// Reads the elements of an array, each followed by `,` or, for the last,
/// by the closing `]`.
pub open spec fn read_items(t: Seq<char>) -> Option<(Seq<Tree>, Seq<char>)>
    decreases t.len(), 2int,
{
    match read_value(t) {
        None => None,
        Some((x, r)) => {
            let r2 = skip_ws(r);
            if r2.len() >= t.len() || r2.len() == 0 {
                None
            } else if r2[0] == ',' {
                match read_items(r2.drop_first()) {
                    Some((xs, r3)) => Some((seq![x] + xs, r3)),
                    None => None,
                }
            } else if r2[0] == ']' {
                Some((seq![x], r2.drop_first()))
            } else {
                None
            }
        },
    }
}

/// Reads the members of an object: a string key, `:`, a value, then `,` or,
/// for the last, the closing `}`.
pub open spec fn read_members(t: Seq<char>) -> Option<(Seq<(Seq<char>, Tree)>, Seq<char>)>
    decreases t.len(), 2int,
{
    let u = skip_ws(t);
    if u.len() > t.len() || u.len() == 0 || u[0] != '"' {
        None
    } else {
        match read_str(u.drop_first()) {
            None => None,
            Some((k, r)) => {
                let r1 = skip_ws(r);
                if r1.len() >= t.len() || r1.len() == 0 || r1[0] != ':' {
                    None
                } else {
                    match read_value(r1.drop_first()) {
                        None => None,
                        Some((x, r2)) => {
                            let r3 = skip_ws(r2);
                            if r3.len() >= t.len() || r3.len() == 0 {
                                None
                            } else if r3[0] == ',' {
                                match read_members(r3.drop_first()) {
                                    Some((ms, r4)) => Some((seq![(k, x)] + ms, r4)),
                                    None => None,
                                }
                            } else if r3[0] == '}' {
                                Some((seq![(k, x)], r3.drop_first()))
                            } else {
                                None
                            }
                        },
                    }
                }
            },
        }
    }
}

/// `s` is the character `c` with only JSON whitespace on either side.
pub open spec fn separated(s: Seq<char>, c: char) -> bool {
    exists|a: Seq<char>, b: Seq<char>| #![trigger all_ws(a), all_ws(b)]
        all_ws(a) && all_ws(b) && s == a + seq![c] + b
}

/// A layout whose text a JSON reader takes: a comma between members and a
/// colon after each key, with only whitespace around them.
pub open spec fn readable(o: Layout) -> bool {
    separated(o.item_separator, ',') && separated(o.key_separator, ':')
}

/// Whitespace after whitespace is whitespace.
proof fn lemma_ws_concat(a: Seq<char>, b: Seq<char>)
    requires
        all_ws(a),
        all_ws(b),
    ensures
        all_ws(a + b),
{
    assert forall|i: int| 0 <= i < (a + b).len() implies is_ws(#[trigger] (a + b)[i]) by {
        if i < a.len() {
            assert((a + b)[i] == a[i]);
        } else {
            assert((a + b)[i] == b[i - a.len()]);
        }
    }
}

/// A line break and its indentation are whitespace.
proof fn lemma_break_ws(o: Layout, level: nat)
    ensures
        all_ws(break_at(o, level)),
{
    match o.indent {
        Some(width) => {
            let t = line_break(level, width as nat);
            assert forall|i: int| 0 <= i < t.len() implies is_ws(#[trigger] t[i]) by {
                if i > 0 {
                    assert(t[i] == spaces(level * width as nat)[i - 1]);
                }
            }
        },
        None => {},
    }
}

/// Text that does not start with whitespace is what skipping whitespace
/// leaves of it.
proof fn lemma_skip_none(t: Seq<char>)
    requires
        t.len() > 0,
        !is_ws(t[0]),
    ensures
        skip_ws(t) == t,
{
}

/// Skipping whitespace before a separator stops at its mark.
proof fn lemma_skip_separator(s: Seq<char>, c: char, x: Seq<char>) -> (b: Seq<char>)
    requires
        separated(s, c),
        !is_ws(c),
    ensures
        all_ws(b),
        skip_ws(s + x) == seq![c] + b + x,
        s.len() > 0,
        s[0] == c || is_ws(s[0]),
{
    let (a, b) = choose|a: Seq<char>, b: Seq<char>| #![trigger all_ws(a), all_ws(b)]
        all_ws(a) && all_ws(b) && s == a + seq![c] + b;
    assert(s + x =~= a + (seq![c] + b + x));
    lemma_skip_ws(a, seq![c] + b + x);
    lemma_skip_none(seq![c] + b + x);
    if a.len() > 0 {
        assert(s[0] == a[0]);
    } else {
        assert(s[0] == c);
    }
    b
}

/// A value's text is not empty and starts with neither whitespace nor a
/// closing bracket.
proof fn lemma_value_head(t: Tree, o: Layout, level: nat)
    ensures
        value_text(t, o, level).len() > 0,
        !is_ws(value_text(t, o, level)[0]),
        value_text(t, o, level)[0] != ']',
        value_text(t, o, level)[0] != '}',
{
    match t {
        Tree::Int(i) => {
            let m: nat = if i < 0 { (-i) as nat } else { i as nat };
            lemma_digits_len(m);
            lemma_digits_plain(m);
            assert(48 <= (digits(m)[0] as int) <= 57);
        },
        Tree::Str(s) => {
            assert(quoted(s, o.ascii_only)[0] == '"');
        },
        _ => {},
    }
}

/// `p` is not where a text starts that begins with another character.
proof fn lemma_not_starts(u: Seq<char>, p: Seq<char>)
    requires
        u.len() > 0,
        p.len() > 0,
        u[0] != p[0],
    ensures
        !starts_with(u, p),
{
    if u.len() >= p.len() {
        assert(u.take(p.len() as int)[0] == u[0]);
    }
}

/// Whitespace before a value changes nothing of what is read.
proof fn lemma_read_value_ws(w: Seq<char>, u: Seq<char>)
    requires
        all_ws(w),
        u.len() > 0,
        !is_ws(u[0]),
    ensures
        read_value(w + u) == read_value(u),
{
    lemma_skip_ws(w, u);
    lemma_skip_none(u);
}

/// A value with nothing nested in it.
pub open spec fn is_leaf(t: Tree) -> bool {
    match t {
        Tree::Array(items) => items.len() == 0,
        Tree::Object(members) => members.len() == 0,
        _ => true,
    }
}

/// `null`, `true` and `false` read back as themselves.
proof fn lemma_read_word(t: Tree, o: Layout, level: nat, rest: Seq<char>)
    requires
        t is Null || t is Bool,
    ensures
        read_value(value_text(t, o, level) + rest) == Some((t, rest)),
{
    let u = value_text(t, o, level) + rest;
    lemma_value_head(t, o, level);
    lemma_skip_none(u);
    let null = seq!['n', 'u', 'l', 'l'];
    let yes = seq!['t', 'r', 'u', 'e'];
    let no = seq!['f', 'a', 'l', 's', 'e'];
    if t is Null {
        assert(u.take(4) =~= null);
        assert(u.skip(4) =~= rest);
    } else if t->Bool_0 {
        lemma_not_starts(u, null);
        assert(u.take(4) =~= yes);
        assert(u.skip(4) =~= rest);
    } else {
        lemma_not_starts(u, null);
        lemma_not_starts(u, yes);
        assert(u.take(5) =~= no);
        assert(u.skip(5) =~= rest);
    }
}

/// A string reads back as itself.
proof fn lemma_read_string(s: Seq<char>, o: Layout, level: nat, rest: Seq<char>)
    ensures
        read_value(value_text(Tree::Str(s), o, level) + rest) == Some((Tree::Str(s), rest)),
{
    let u = value_text(Tree::Str(s), o, level) + rest;
    assert(u[0] == '"');
    lemma_skip_none(u);
    lemma_not_starts(u, seq!['n', 'u', 'l', 'l']);
    lemma_not_starts(u, seq!['t', 'r', 'u', 'e']);
    lemma_not_starts(u, seq!['f', 'a', 'l', 's', 'e']);
    assert(u.drop_first() =~= escape_chars(s, o.ascii_only) + seq!['"'] + rest);
    lemma_read_escaped(s, o.ascii_only, rest);
}

/// An integer reads back as itself where no digit follows.
proof fn lemma_read_number(i: int, o: Layout, level: nat, rest: Seq<char>)
    requires
        rest.len() == 0 || !is_digit(rest[0]),
    ensures
        read_value(value_text(Tree::Int(i), o, level) + rest) == Some((Tree::Int(i), rest)),
{
    let u = value_text(Tree::Int(i), o, level) + rest;
    let m: nat = if i < 0 { (-i) as nat } else { i as nat };
    lemma_digits_len(m);
    lemma_digits_plain(m);
    assert(48 <= (digits(m)[0] as int) <= 57);
    assert(u[0] == '-' || is_digit(u[0]));
    lemma_skip_none(u);
    lemma_not_starts(u, seq!['n', 'u', 'l', 'l']);
    lemma_not_starts(u, seq!['t', 'r', 'u', 'e']);
    lemma_not_starts(u, seq!['f', 'a', 'l', 's', 'e']);
    lemma_read_int(i, rest);
}

/// An empty array or object reads back as itself.
proof fn lemma_read_empty(t: Tree, o: Layout, level: nat, rest: Seq<char>)
    requires
        t == Tree::Array(Seq::empty()) || t == Tree::Object(Seq::empty()),
    ensures
        read_value(value_text(t, o, level) + rest) == Some((t, rest)),
{
    let u = value_text(t, o, level) + rest;
    let close = if t is Array { ']' } else { '}' };
    assert(u[0] == '[' || u[0] == '{');
    lemma_skip_none(u);
    lemma_not_starts(u, seq!['n', 'u', 'l', 'l']);
    lemma_not_starts(u, seq!['t', 'r', 'u', 'e']);
    lemma_not_starts(u, seq!['f', 'a', 'l', 's', 'e']);
    assert(u.drop_first() =~= seq![close] + rest);
    lemma_skip_none(seq![close] + rest);
    assert((seq![close] + rest).drop_first() =~= rest);
}

/// A value with nothing nested in it reads back as itself.
proof fn lemma_read_leaf(t: Tree, o: Layout, level: nat, rest: Seq<char>)
    requires
        is_leaf(t),
        rest.len() == 0 || !is_digit(rest[0]),
    ensures
        read_value(value_text(t, o, level) + rest) == Some((t, rest)),
{
    match t {
        Tree::Str(s) => lemma_read_string(s, o, level, rest),
        Tree::Int(i) => lemma_read_number(i, o, level, rest),
        Tree::Array(items) => {
            assert(items =~= Seq::<Tree>::empty());
            lemma_read_empty(t, o, level, rest);
        },
        Tree::Object(members) => {
            assert(members =~= Seq::<(Seq<char>, Tree)>::empty());
            lemma_read_empty(t, o, level, rest);
        },
        _ => lemma_read_word(t, o, level, rest),
    }
}

/// A value written after whitespace reads back as itself, and the reader
/// stops right after it, where no digit may follow.
pub proof fn lemma_read_value(w: Seq<char>, t: Tree, o: Layout, level: nat, rest: Seq<char>)
    requires
        all_ws(w),
        readable(o),
        rest.len() == 0 || !is_digit(rest[0]),
    ensures
        read_value(w + value_text(t, o, level) + rest) == Some((t, rest)),
    decreases t, 0int,
{
    let x = value_text(t, o, level);
    lemma_value_head(t, o, level);
    assert(w + x + rest =~= w + (x + rest));
    lemma_read_value_ws(w, x + rest);
    match t {
        Tree::Array(items) => {
            if items.len() == 0 {
                lemma_read_leaf(t, o, level, rest);
            } else {
                lemma_read_array(items, o, level, rest);
            }
        },
        Tree::Object(members) => {
            if members.len() == 0 {
                lemma_read_leaf(t, o, level, rest);
            } else {
                lemma_read_object(members, o, level, rest);
            }
        },
        _ => {
            lemma_read_leaf(t, o, level, rest);
        },
    }
}

/// A non-empty array reads back as itself.
proof fn lemma_read_array(items: Seq<Tree>, o: Layout, level: nat, rest: Seq<char>)
    requires
        items.len() > 0,
        readable(o),
    ensures
        read_value(value_text(Tree::Array(items), o, level) + rest) == Some((Tree::Array(items), rest)),
    decreases items, items.len() + 1,
{
    let u = value_text(Tree::Array(items), o, level) + rest;
    let inner = inner_level(o, level);
    let first = break_at(o, inner);
    let close = break_at(o, level);
    let body = value_text(items[0], o, inner) + items_text(items, o, inner, 1) + close + seq![']'] + rest;
    assert(items_text(items, o, inner, 0) == first + value_text(items[0], o, inner) + items_text(
        items, o, inner, 1));
    assert(u.drop_first() =~= first + body);
    assert(u[0] == '[');
    lemma_skip_none(u);
    lemma_not_starts(u, seq!['n', 'u', 'l', 'l']);
    lemma_not_starts(u, seq!['t', 'r', 'u', 'e']);
    lemma_not_starts(u, seq!['f', 'a', 'l', 's', 'e']);
    lemma_break_ws(o, inner);
    lemma_break_ws(o, level);
    lemma_value_head(items[0], o, inner);
    assert(body[0] == value_text(items[0], o, inner)[0]);
    lemma_skip_ws(first, body);
    lemma_skip_none(body);
    lemma_read_items(first, items, o, inner, 0, close, rest);
    assert(first + value_text(items[0], o, inner) + items_text(items, o, inner, 1) + close + seq![']']
        + rest =~= first + body);
    assert(items.skip(0) =~= items);
}

/// A non-empty object reads back as itself.
proof fn lemma_read_object(members: Seq<(Seq<char>, Tree)>, o: Layout, level: nat, rest: Seq<char>)
    requires
        members.len() > 0,
        readable(o),
    ensures
        read_value(value_text(Tree::Object(members), o, level) + rest) == Some((Tree::Object(members), rest)),
    decreases members, members.len() + 1,
{
    let u = value_text(Tree::Object(members), o, level) + rest;
    let inner = inner_level(o, level);
    let first = break_at(o, inner);
    let close = break_at(o, level);
    let k = members[0].0;
    let body = quoted(k, o.ascii_only) + o.key_separator + value_text(members[0].1, o, inner)
        + members_text(members, o, inner, 1) + close + seq!['}'] + rest;
    assert(members_text(members, o, inner, 0) == first + quoted(k, o.ascii_only) + o.key_separator
        + value_text(members[0].1, o, inner) + members_text(members, o, inner, 1));
    assert(u.drop_first() =~= first + body);
    assert(u[0] == '{');
    lemma_skip_none(u);
    lemma_not_starts(u, seq!['n', 'u', 'l', 'l']);
    lemma_not_starts(u, seq!['t', 'r', 'u', 'e']);
    lemma_not_starts(u, seq!['f', 'a', 'l', 's', 'e']);
    lemma_break_ws(o, inner);
    lemma_break_ws(o, level);
    assert(body[0] == '"');
    lemma_skip_ws(first, body);
    lemma_skip_none(body);
    lemma_read_members(first, members, o, inner, 0, close, rest);
    assert(first + quoted(k, o.ascii_only) + o.key_separator + value_text(members[0].1, o, inner)
        + members_text(members, o, inner, 1) + close + seq!['}'] + rest =~= first + body);
    assert(members.skip(0) =~= members);
}

/// The elements of an array from position `i` on, written after
/// whitespace and closed by whitespace and `]`, read back as themselves.
proof fn lemma_read_items(
    w: Seq<char>,
    items: Seq<Tree>,
    o: Layout,
    level: nat,
    i: int,
    close: Seq<char>,
    rest: Seq<char>,
)
    requires
        all_ws(w),
        all_ws(close),
        readable(o),
        0 <= i < items.len(),
    ensures
        read_items(w + value_text(items[i], o, level) + items_text(items, o, level, i + 1) + close
            + seq![']'] + rest) == Some((items.skip(i), rest)),
    decreases items, items.len() - i,
{
    let x = value_text(items[i], o, level);
    let r = items_text(items, o, level, i + 1) + close + seq![']'] + rest;
    let t = w + x + r;
    assert(w + x + items_text(items, o, level, i + 1) + close + seq![']'] + rest =~= t);
    lemma_value_head(items[i], o, level);
    lemma_skip_ws_len(r);
    if i + 1 < items.len() {
        let next = break_at(o, level) + value_text(items[i + 1], o, level) + items_text(items, o, level, i + 2)
            + close + seq![']'] + rest;
        assert(items_text(items, o, level, i + 1) == o.item_separator + break_at(o, level)
            + value_text(items[i + 1], o, level) + items_text(items, o, level, i + 2));
        assert(r =~= o.item_separator + next);
        let b = lemma_skip_separator(o.item_separator, ',', next);
        assert(r[0] == o.item_separator[0]);
        lemma_read_value(w, items[i], o, level, r);
        lemma_break_ws(o, level);
        lemma_ws_concat(b, break_at(o, level));
        lemma_read_items(b + break_at(o, level), items, o, level, i + 1, close, rest);
        assert((seq![','] + b + next).drop_first() =~= (b + break_at(o, level)) + value_text(items[i + 1], o,
            level) + items_text(items, o, level, i + 2) + close + seq![']'] + rest);
        assert(seq![items[i]] + items.skip(i + 1) =~= items.skip(i));
    } else {
        assert(items_text(items, o, level, i + 1) == Seq::<char>::empty());
        assert(r =~= close + (seq![']'] + rest));
        if close.len() > 0 {
            assert(is_ws(r[0]));
        } else {
            assert(r[0] == ']');
        }
        lemma_read_value(w, items[i], o, level, r);
        lemma_skip_ws(close, seq![']'] + rest);
        lemma_skip_none(seq![']'] + rest);
        assert((seq![']'] + rest).drop_first() =~= rest);
        assert(items.skip(i) =~= seq![items[i]]);
    }
}

/// The members of an object from position `i` on, written after
/// whitespace and closed by whitespace and `}`, read back as themselves.
#[verifier::rlimit(60)]
proof fn lemma_read_members(
    w: Seq<char>,
    members: Seq<(Seq<char>, Tree)>,
    o: Layout,
    level: nat,
    i: int,
    close: Seq<char>,
    rest: Seq<char>,
)
    requires
        all_ws(w),
        all_ws(close),
        readable(o),
        0 <= i < members.len(),
    ensures
        read_members(w + quoted(members[i].0, o.ascii_only) + o.key_separator + value_text(members[i].1, o, level)
            + members_text(members, o, level, i + 1) + close + seq!['}'] + rest) == Some((members.skip(i), rest)),
    decreases members, members.len() - i,
{
    let k = members[i].0;
    let x = value_text(members[i].1, o, level);
    let r = members_text(members, o, level, i + 1) + close + seq!['}'] + rest;
    let after_key = o.key_separator + (x + r);
    let u = quoted(k, o.ascii_only) + after_key;
    let t = w + u;
    assert(w + quoted(k, o.ascii_only) + o.key_separator + x + members_text(members, o, level, i + 1) + close
        + seq!['}'] + rest =~= t);
    assert(u[0] == '"');
    lemma_skip_ws(w, u);
    lemma_skip_none(u);
    assert(u.drop_first() =~= escape_chars(k, o.ascii_only) + seq!['"'] + after_key);
    lemma_read_escaped(k, o.ascii_only, after_key);
    let kb = lemma_skip_separator(o.key_separator, ':', x + r);
    assert((seq![':'] + kb + (x + r)).drop_first() =~= kb + x + r);
    lemma_value_head(members[i].1, o, level);
    lemma_skip_ws_len(r);
    lemma_skip_ws_len(after_key);
    assert((k, members[i].1) == members[i]);
    if i + 1 < members.len() {
        let next = break_at(o, level) + quoted(members[i + 1].0, o.ascii_only) + o.key_separator + value_text(
            members[i + 1].1, o, level) + members_text(members, o, level, i + 2) + close + seq!['}'] + rest;
        assert(members_text(members, o, level, i + 1) == o.item_separator + break_at(o, level) + quoted(
            members[i + 1].0, o.ascii_only) + o.key_separator + value_text(members[i + 1].1, o, level)
            + members_text(members, o, level, i + 2));
        assert(r =~= o.item_separator + next);
        let b = lemma_skip_separator(o.item_separator, ',', next);
        assert(r[0] == o.item_separator[0]);
        lemma_read_value(kb, members[i].1, o, level, r);
        lemma_break_ws(o, level);
        lemma_ws_concat(b, break_at(o, level));
        lemma_read_members(b + break_at(o, level), members, o, level, i + 1, close, rest);
        assert((seq![','] + b + next).drop_first() =~= (b + break_at(o, level)) + quoted(members[i + 1].0,
            o.ascii_only) + o.key_separator + value_text(members[i + 1].1, o, level) + members_text(members, o,
            level, i + 2) + close + seq!['}'] + rest);
        assert(seq![members[i]] + members.skip(i + 1) =~= members.skip(i));
    } else {
        assert(members_text(members, o, level, i + 1) == Seq::<char>::empty());
        assert(r =~= close + (seq!['}'] + rest));
        if close.len() > 0 {
            assert(is_ws(r[0]));
        } else {
            assert(r[0] == '}');
        }
        lemma_read_value(kb, members[i].1, o, level, r);
        lemma_skip_ws(close, seq!['}'] + rest);
        lemma_skip_none(seq!['}'] + rest);
        assert((seq!['}'] + rest).drop_first() =~= rest);
        assert(members.skip(i) =~= seq![members[i]]);
    }
}

/// The separators a writer starts with, `,` and `:` (with a space after it
/// when indented), are ones a JSON reader takes.
pub proof fn lemma_default_separators_readable(ensure_ascii: bool, indent: Option<u8>, sort_keys: bool)
    ensures
        readable(layout(fresh(ensure_ascii, indent, sort_keys))),
{
    let o = layout(fresh(ensure_ascii, indent, sort_keys));
    let none = Seq::<char>::empty();
    assert(all_ws(none));
    assert(o.item_separator =~= none + seq![','] + none);
    if indent.is_some() {
        let space = seq![' '];
        assert(all_ws(space));
        assert(o.key_separator =~= none + seq![':'] + space);
    } else {
        assert(o.key_separator =~= none + seq![':'] + none);
    }
}

/// A whole document written in a readable layout reads back as the same
/// document, with nothing left over.
pub proof fn lemma_document_reads_back(t: Tree, o: Layout, level: nat)
    requires
        readable(o),
    ensures
        read_value(value_text(t, o, level)) == Some((t, Seq::<char>::empty())),
{
    let none = Seq::<char>::empty();
    assert(all_ws(none));
    lemma_read_value(none, t, o, level, none);
    assert(none + value_text(t, o, level) + none =~= value_text(t, o, level));
}

/// What a writer with readable separators holds after the encoder writes a
/// value into it from the start reads back as that value, with nothing
/// left over; a writer with its default separators always qualifies.
pub proof fn lemma_written_reads_back(v: WriterView, t: Tree)
    requires
        v.text.len() == 0,
        readable(layout(v)),
    ensures
        read_value(walk(v, t).text) == Some((t, Seq::<char>::empty())),
{
    lemma_walk(v, t);
    assert(v.text + value_text(t, layout(v), v.level) =~= value_text(t, layout(v), v.level));
    lemma_document_reads_back(t, layout(v), v.level);
}


/// Whatever the encoder writes into a fresh writer, with any options,
/// reads back as the value written, with nothing left over.
pub proof fn lemma_fresh_writer_reads_back(ensure_ascii: bool, indent: Option<u8>, sort_keys: bool, t: Tree)
    ensures
        read_value(walk(fresh(ensure_ascii, indent, sort_keys), t).text) == Some((t, Seq::<char>::empty())),
{
    lemma_default_separators_readable(ensure_ascii, indent, sort_keys);
    lemma_written_reads_back(fresh(ensure_ascii, indent, sort_keys), t);
}

} // verus!
