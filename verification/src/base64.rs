//! Base64 (RFC 4648, standard alphabet, with padding), the form in which
//! byte strings appear in JSON output.

use vstd::prelude::*;
use crate::writer::{JsonWriter, WriterView};

verus! {

/// The character of the standard alphabet for a 6-bit value.
pub open spec fn b64_char(n: int) -> char {
    if n < 26 {
        (65 + n) as char
    } else if n < 52 {
        (71 + n) as char
    } else if n < 62 {
        (n - 4) as char
    } else if n == 62 {
        '+'
    } else {
        '/'
    }
}

/// The four characters for a group of one to three bytes; a group of fewer
/// than three bytes is completed with zero bits and padded with `=`.
pub open spec fn b64_group(g: Seq<u8>) -> Seq<char> {
    let b0 = g[0] as int;
    let b1 = if g.len() > 1 { g[1] as int } else { 0 };
    let b2 = if g.len() > 2 { g[2] as int } else { 0 };
    let triple = b0 * 65536 + b1 * 256 + b2;
    seq![
        b64_char((triple / 262144) % 64),
        b64_char((triple / 4096) % 64),
        if g.len() > 1 { b64_char((triple / 64) % 64) } else { '=' },
        if g.len() > 2 { b64_char(triple % 64) } else { '=' },
    ]
}

/// The Base64 encoding of a byte sequence: the groups of its consecutive
/// three-byte chunks (the last one possibly shorter), in order.
pub open spec fn base64(data: Seq<u8>) -> Seq<char>
    decreases data.len(),
{
    if data.len() == 0 {
        Seq::empty()
    } else if data.len() <= 3 {
        b64_group(data)
    } else {
        b64_group(data.take(3)) + base64(data.skip(3))
    }
}

/// The encoding has four characters for every started group of three bytes.
pub proof fn lemma_base64_len(data: Seq<u8>)
    ensures
        base64(data).len() == 4 * ((data.len() + 2) / 3),
    decreases data.len(),
{
    if data.len() > 3 {
        lemma_base64_len(data.skip(3));
    }
}

/// The 6-bit value of a character of the standard alphabet.
pub open spec fn b64_value(c: char) -> Option<int> {
    let x = c as int;
    if 65 <= x <= 90 {
        Some(x - 65)
    } else if 97 <= x <= 122 {
        Some(x - 71)
    } else if 48 <= x <= 57 {
        Some(x + 4)
    } else if c == '+' {
        Some(62)
    } else if c == '/' {
        Some(63)
    } else {
        None
    }
}

/// The three bytes that four 6-bit values carry.
pub open spec fn regroup(a: int, b: int, c: int, d: int) -> Seq<u8> {
    seq![(a * 4 + b / 16) as u8, ((b % 16) * 16 + c / 4) as u8, ((c % 4) * 64 + d) as u8]
}

/// How a Base64 reader decodes text (RFC 4648): groups of four characters of
/// the alphabet give three bytes each; a last group ending in `=` gives two,
/// one ending in `==` gives one. `None` for text that is not of this form.
pub open spec fn unbase64(t: Seq<char>) -> Option<Seq<u8>>
    decreases t.len(),
{
    if t.len() == 0 {
        Some(Seq::empty())
    } else if t.len() < 4 || b64_value(t[0]) is None || b64_value(t[1]) is None {
        None
    } else {
        let a = b64_value(t[0])->0;
        let b = b64_value(t[1])->0;
        if t.len() == 4 && t[2] == '=' && t[3] == '=' {
            Some(regroup(a, b, 0, 0).take(1))
        } else if t.len() == 4 && t[3] == '=' && b64_value(t[2]) is Some {
            Some(regroup(a, b, b64_value(t[2])->0, 0).take(2))
        } else if b64_value(t[2]) is Some && b64_value(t[3]) is Some {
            match unbase64(t.skip(4)) {
                Some(rest) => Some(regroup(a, b, b64_value(t[2])->0, b64_value(t[3])->0) + rest),
                None => None,
            }
        } else {
            None
        }
    }
}

proof fn lemma_b64_value(n: int)
    requires
        0 <= n < 64,
    ensures
        b64_value(b64_char(n)) == Some(n),
{
}

proof fn lemma_regroup_bits(b0: u32, b1: u32, b2: u32)
    by (bit_vector)
    requires
        b0 < 256,
        b1 < 256,
        b2 < 256,
    ensures
        ((b0 * 65536 + b1 * 256 + b2) / 262144 % 64) * 4 + ((b0 * 65536 + b1 * 256 + b2) / 4096 % 64) / 16 == b0,
        (((b0 * 65536 + b1 * 256 + b2) / 4096 % 64) % 16) * 16 + ((b0 * 65536 + b1 * 256 + b2) / 64 % 64) / 4 == b1,
        (((b0 * 65536 + b1 * 256 + b2) / 64 % 64) % 4) * 64 + (b0 * 65536 + b1 * 256 + b2) % 64 == b2,
{
}

/// Decoding one group gives back its bytes, followed by what the rest of the
/// text decodes to.
proof fn lemma_unbase64_group(g: Seq<u8>, rest: Seq<char>)
    requires
        1 <= g.len() <= 3,
        g.len() < 3 ==> rest.len() == 0,
    ensures
        unbase64(b64_group(g) + rest) == match unbase64(rest) {
            Some(r) => Some(g + r),
            None => None,
        },
{
    let t = b64_group(g) + rest;
    let b0 = g[0] as u32;
    let b1: u32 = if g.len() > 1 { g[1] as u32 } else { 0 };
    let b2: u32 = if g.len() > 2 { g[2] as u32 } else { 0 };
    let triple = b0 * 65536 + b1 * 256 + b2;
    lemma_regroup_bits(b0, b1, b2);
    let a = triple / 262144 % 64;
    let b = triple / 4096 % 64;
    let c = triple / 64 % 64;
    let d = triple % 64;
    lemma_b64_value(a as int);
    lemma_b64_value(b as int);
    lemma_b64_value(c as int);
    lemma_b64_value(d as int);
    assert(t[0] == b64_char(a as int) && t[1] == b64_char(b as int));
    if g.len() == 1 {
        assert(regroup(a as int, b as int, 0, 0).take(1) =~= g + Seq::<u8>::empty());
        assert(rest =~= Seq::<char>::empty());
    } else if g.len() == 2 {
        assert(t[2] == b64_char(c as int));
        assert(regroup(a as int, b as int, c as int, 0).take(2) =~= g + Seq::<u8>::empty());
        assert(rest =~= Seq::<char>::empty());
    } else {
        assert(t[2] == b64_char(c as int) && t[3] == b64_char(d as int));
        assert(t.skip(4) =~= rest);
        assert(regroup(a as int, b as int, c as int, d as int) =~= g);
        assert(b64_value(t[2]) is Some);
        if t.len() == 4 {
            assert(t[3] != '=');
        }
    }
}

/// What `encode_base64` writes decodes back to exactly the bytes it was
/// given: Base64 loses nothing.
pub proof fn lemma_unbase64_base64(data: Seq<u8>)
    ensures
        unbase64(base64(data)) == Some(data),
    decreases data.len(),
{
    if data.len() == 0 {
    } else if data.len() <= 3 {
        lemma_unbase64_group(data, Seq::empty());
        assert(b64_group(data) + Seq::<char>::empty() =~= b64_group(data));
        assert(data + Seq::<u8>::empty() =~= data);
    } else {
        lemma_unbase64_base64(data.skip(3));
        lemma_unbase64_group(data.take(3), base64(data.skip(3)));
        assert(data.take(3) + data.skip(3) =~= data);
    }
}

fn b64_char_exec(n: u32) -> (c: char)
    requires
        n < 64,
    ensures
        c == b64_char(n as int),
{
    if n < 26 {
        ((65 + n) as u8) as char
    } else if n < 52 {
        ((71 + n) as u8) as char
    } else if n < 62 {
        ((n - 4) as u8) as char
    } else if n == 62 {
        '+'
    } else {
        '/'
    }
}

/// Appends the Base64 encoding of `data` to `out`.
fn push_base64(out: &mut String, data: &[u8])
    ensures
        final(out)@ == old(out)@ + base64(data@),
{
    let ghost start = out@;
    let len = data.len();
    let mut i: usize = 0;
    assert(data@.skip(0) =~= data@);
    while i < len
        invariant
            len == data@.len(),
            i <= len,
            start + base64(data@) == out@ + base64(data@.skip(i as int)),
        decreases len - i,
    {
        let ghost rest = data@.skip(i as int);
        let n = len - i;
        let b0 = data[i] as u32;
        let b1: u32 = if n > 1 { data[i + 1] as u32 } else { 0 };
        let b2: u32 = if n > 2 { data[i + 2] as u32 } else { 0 };
        let triple = (b0 << 16) | (b1 << 8) | b2;
        assert(((b0 << 16) | (b1 << 8) | b2) >> 18 & 0x3F == (b0 * 65536 + b1 * 256 + b2) / 262144 % 64
            && ((b0 << 16) | (b1 << 8) | b2) >> 12 & 0x3F == (b0 * 65536 + b1 * 256 + b2) / 4096 % 64
            && ((b0 << 16) | (b1 << 8) | b2) >> 6 & 0x3F == (b0 * 65536 + b1 * 256 + b2) / 64 % 64
            && ((b0 << 16) | (b1 << 8) | b2) & 0x3F == (b0 * 65536 + b1 * 256 + b2) % 64
            && ((b0 << 16) | (b1 << 8) | b2) >> 18 & 0x3F < 64
            && ((b0 << 16) | (b1 << 8) | b2) >> 12 & 0x3F < 64
            && ((b0 << 16) | (b1 << 8) | b2) >> 6 & 0x3F < 64
            && ((b0 << 16) | (b1 << 8) | b2) & 0x3F < 64) by (bit_vector)
            requires
                b0 < 256,
                b1 < 256,
                b2 < 256,
        ;
        let ghost before = out@;
        out.push(b64_char_exec((triple >> 18) & 0x3F));
        out.push(b64_char_exec((triple >> 12) & 0x3F));
        if n > 1 {
            out.push(b64_char_exec((triple >> 6) & 0x3F));
        } else {
            out.push('=');
        }
        if n > 2 {
            out.push(b64_char_exec(triple & 0x3F));
        } else {
            out.push('=');
        }
        let ghost group = if n <= 3 { rest } else { rest.take(3) };
        assert(out@ =~= before + b64_group(group));
        if n <= 3 {
            assert(data@.skip(len as int) =~= Seq::<u8>::empty());
            i = len;
        } else {
            assert(rest.skip(3) =~= data@.skip(i + 3));
            i = i + 3;
        }
    }
    assert(data@.skip(len as int) =~= Seq::<u8>::empty());
    assert(out@ =~= start + base64(data@));
}

/// The Base64 encoding of `data`.
pub fn encode_base64(data: &[u8]) -> (s: String)
    ensures
        s@ == base64(data@),
{
    let capacity = match (data.len() / 3 + 1).checked_mul(4) {
        Some(c) => c,
        None => data.len(),
    };
    let mut result = String::with_capacity(capacity);
    push_base64(&mut result, data);
    assert(result@ =~= base64(data@));
    result
}

/// Writes `data` as a JSON string holding its Base64 encoding. The encoding
/// uses no character that needs escaping.
pub fn encode_base64_to_buf(w: &mut JsonWriter, data: &[u8])
    ensures
        final(w)@ == old(w)@.append(seq!['"'] + base64(data@) + seq!['"']),
{
    let buf = w.buf_mut();
    buf.push('"');
    push_base64(buf, data);
    buf.push('"');
    assert(final(w)@.text =~= old(w)@.text + (seq!['"'] + base64(data@) + seq!['"']));
}

} // verus!
