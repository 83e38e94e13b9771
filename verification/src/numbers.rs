//! Decimal representations of integers.

use vstd::prelude::*;
use crate::json_text::{all_plain, lemma_all_plain_concat};

verus! {

/// The ASCII digit of `d`, for `0 <= d < 10`.
pub open spec fn digit_char(d: int) -> char {
    (48 + d) as char
}

/// The decimal digits of a natural number, most significant first, with no
/// leading zeros (zero itself is `"0"`).
pub open spec fn digits(n: nat) -> Seq<char>
    decreases n,
{
    if n < 10 {
        seq![digit_char(n as int)]
    } else {
        digits(n / 10).push(digit_char((n % 10) as int))
    }
}

/// The decimal representation of an integer: a minus sign before the
/// digits of a negative one.
pub open spec fn decimal(v: int) -> Seq<char> {
    if v < 0 {
        seq!['-'] + digits((-v) as nat)
    } else {
        digits(v as nat)
    }
}

/// `n` zeros.
pub open spec fn zeros(n: nat) -> Seq<char> {
    Seq::new(n, |i: int| '0')
}

/// The decimal representation of `v` padded with zeros after the sign to at
/// least `width` characters, as the format `{:0width}` writes it.
pub open spec fn zero_padded(v: int, width: nat) -> Seq<char> {
    let sign: Seq<char> = if v < 0 { seq!['-'] } else { Seq::empty() };
    let body = digits(if v < 0 { (-v) as nat } else { v as nat });
    let used = sign.len() + body.len();
    sign + zeros(if used < width { (width - used) as nat } else { 0 }) + body
}

/// There is at least one digit, and there are no more than the value has.
pub proof fn lemma_digits_len(n: nat)
    ensures
        1 <= digits(n).len(),
        n < 10 ==> digits(n).len() == 1,
        n >= 10 ==> digits(n).len() == digits(n / 10).len() + 1,
    decreases n,
{
    if n >= 10 {
        lemma_digits_len(n / 10);
    }
}

/// Ten to the power `k`.
pub open spec fn pow10(k: nat) -> nat
    decreases k,
{
    if k == 0 {
        1
    } else {
        10 * pow10((k - 1) as nat)
    }
}

/// A number below `10^k` has at most `k` digits.
pub proof fn lemma_digits_len_bound(n: nat, k: nat)
    requires
        1 <= k,
        n < pow10(k),
    ensures
        digits(n).len() <= k,
    decreases n,
{
    lemma_digits_len(n);
    if n >= 10 {
        let p = pow10((k - 1) as nat);
        assert(k >= 2) by {
            if k == 1 {
                assert(pow10(1) == 10 * pow10(0));
            }
        }
        assert(pow10(k) == 10 * p);
        assert(n / 10 < p) by (nonlinear_arith)
            requires
                n < 10 * p,
        ;
        lemma_digits_len_bound(n / 10, (k - 1) as nat);
    }
}

/// A decimal representation is never empty.
pub proof fn lemma_decimal_nonempty(v: int)
    ensures
        decimal(v).len() >= 1,
{
    lemma_digits_len(if v < 0 { (-v) as nat } else { v as nat });
}

/// Decimal digits are plain text.
pub proof fn lemma_digits_plain(n: nat)
    ensures
        all_plain(digits(n)),
        forall|i: int| 0 <= i < digits(n).len() ==> 48 <= (#[trigger] digits(n)[i] as int) <= 57,
    decreases n,
{
    if n >= 10 {
        lemma_digits_plain(n / 10);
        let d = digits(n / 10);
        assert forall|i: int| 0 <= i < digits(n).len() implies 48 <= (#[trigger] digits(n)[i] as int) <= 57 by {
            if i < d.len() {
                assert(digits(n)[i] == d[i]);
            }
        }
    }
}

/// A zero-padded number is plain text.
pub proof fn lemma_zero_padded_plain(v: int, width: nat)
    ensures
        all_plain(zero_padded(v, width)),
{
    let sign: Seq<char> = if v < 0 { seq!['-'] } else { Seq::empty() };
    let body = digits(if v < 0 { (-v) as nat } else { v as nat });
    let used = sign.len() + body.len();
    let z = zeros(if used < width { (width - used) as nat } else { 0 });
    lemma_digits_plain(if v < 0 { (-v) as nat } else { v as nat });
    assert(all_plain(sign));
    assert(all_plain(z));
    lemma_all_plain_concat(sign, z);
    lemma_all_plain_concat(sign + z, body);
}

/// A decimal representation is plain text.
pub proof fn lemma_decimal_plain(v: int)
    ensures
        all_plain(decimal(v)),
{
    lemma_zero_padded_plain(v, 0);
    assert(zero_padded(v, 0) =~= decimal(v));
}

/// The number that a run of decimal digits denotes.
pub open spec fn digits_value(s: Seq<char>) -> int
    decreases s.len(),
{
    if s.len() == 0 {
        0
    } else {
        digits_value(s.drop_last()) * 10 + ((s.last() as int) - 48)
    }
}

/// The integer that a JSON reader takes a decimal representation for: a
/// leading minus sign negates the digits after it.
pub open spec fn decimal_value(s: Seq<char>) -> int {
    if s.len() > 0 && s[0] == '-' {
        -digits_value(s.drop_first())
    } else {
        digits_value(s)
    }
}

/// Reading decimal digits back gives the number they were written for.
pub proof fn lemma_digits_value(n: nat)
    ensures
        digits_value(digits(n)) == n,
    decreases n,
{
    if n >= 10 {
        lemma_digits_value(n / 10);
        assert(digits(n).drop_last() =~= digits(n / 10));
        assert((n / 10) * 10 + n % 10 == n) by (nonlinear_arith);
        assert(digits(n).last() == digit_char((n % 10) as int));
        assert((digit_char((n % 10) as int) as int) == 48 + n % 10);
        assert(digits_value(digits(n)) == digits_value(digits(n / 10)) * 10 + (n % 10));
    } else {
        assert(digits(n).drop_last() =~= Seq::<char>::empty());
        assert(digits(n).last() == digit_char(n as int));
        assert((digit_char(n as int) as int) == 48 + n);
        assert(digits_value(Seq::<char>::empty()) == 0);
        assert(digits_value(digits(n)) == digits_value(Seq::<char>::empty()) * 10 + n);
    }
}

/// Reading a decimal representation back, as a JSON reader reads an integer,
/// gives the integer that was written, negative ones included.
pub proof fn lemma_decimal_value(v: int)
    ensures
        decimal_value(decimal(v)) == v,
{
    if v < 0 {
        lemma_digits_value((-v) as nat);
        assert((seq!['-'] + digits((-v) as nat)).drop_first() =~= digits((-v) as nat));
    } else {
        lemma_digits_value(v as nat);
        lemma_digits_plain(v as nat);
        lemma_digits_len(v as nat);
        assert(48 <= (digits(v as nat)[0] as int));
    }
}

/// Appends the decimal digits of `n`.
pub fn push_digits(s: &mut String, n: u64)
    ensures
        final(s)@ == old(s)@ + digits(n as nat),
    decreases n,
{
    if n >= 10 {
        push_digits(s, n / 10);
    }
    let d = (n % 10) as u8;
    s.push((48 + d) as char);
    assert(final(s)@ =~= old(s)@ + digits(n as nat)) by {
        if n >= 10 {
            assert(digits(n as nat) == digits((n / 10) as nat).push(digit_char((n % 10) as int)));
        }
    }
}

/// Appends `v` padded with zeros after the sign to at least `width`
/// characters.
pub fn push_zero_padded(s: &mut String, v: i64, width: usize)
    ensures
        final(s)@ == old(s)@ + zero_padded(v as int, width as nat),
{
    let magnitude: u64 = if v < 0 {
        if v == i64::MIN {
            9223372036854775808u64
        } else {
            (-v) as u64
        }
    } else {
        v as u64
    };
    let ghost start = s@;
    let mut used: usize = if v < 0 { 1 } else { 0 };
    if v < 0 {
        s.push('-');
    }
    let mut count: usize = 1;
    let mut rest: u64 = magnitude;
    proof {
        lemma_digits_len(magnitude as nat);
        reveal_with_fuel(pow10, 21);
        lemma_digits_len_bound(magnitude as nat, 20);
    }
    while rest >= 10
        invariant
            1 <= count,
            digits(magnitude as nat).len() <= 20,
            rest <= magnitude,
            digits(magnitude as nat).len() == count - 1 + digits(rest as nat).len(),
        decreases rest,
    {
        proof {
            lemma_digits_len(rest as nat);
            lemma_digits_len((rest / 10) as nat);
        }
        rest = rest / 10;
        count = count + 1;
    }
    proof {
        lemma_digits_len(rest as nat);
    }
    used = used + count;
    let ghost sign_part = s@.subrange(start.len() as int, s@.len() as int);
    let ghost before_zeros = s@;
    let mut pad: usize = 0;
    let fill: usize = if used < width { width - used } else { 0 };
    while pad < fill
        invariant
            pad <= fill,
            s@ == before_zeros + zeros(pad as nat),
        decreases fill - pad,
    {
        s.push('0');
        assert(s@ =~= before_zeros + zeros((pad + 1) as nat));
        pad = pad + 1;
    }
    push_digits(s, magnitude);
    assert(s@ =~= start + zero_padded(v as int, width as nat));
}

/// Appends the decimal representation of `v`.
pub fn push_decimal(s: &mut String, v: i64)
    ensures
        final(s)@ == old(s)@ + decimal(v as int),
{
    push_zero_padded(s, v, 0);
    assert(zero_padded(v as int, 0) =~= decimal(v as int));
}

/// The decimal representation of `v` as a string; this is how an integer
/// dictionary key is compared when keys are sorted.
pub fn decimal_string(v: i64) -> (s: String)
    ensures
        s@ == decimal(v as int),
{
    let mut s = String::new();
    push_decimal(&mut s, v);
    assert(s@ =~= decimal(v as int));
    s
}

/// Division rounding toward zero, as Rust's `/` on signed integers.
pub open spec fn trunc_div(a: int, b: int) -> int {
    if a >= 0 {
        a / b
    } else {
        -((-a) / b)
    }
}

/// The remainder that goes with `trunc_div`: it has the sign of `a`, as
/// Rust's `%` on signed integers.
pub open spec fn trunc_rem(a: int, b: int) -> int {
    a - b * trunc_div(a, b)
}

/// `itoa::Buffer`: stack storage that `itoa` prints an integer into.
#[verifier::external_type_specification]
#[verifier::external_body]
pub struct ExItoaBuffer(itoa::Buffer);

/// `itoa::Buffer::new` makes an empty buffer; nothing about its contents is
/// observable before a `format` call.
pub assume_specification[ itoa::Buffer::new ]() -> itoa::Buffer;

/// `itoa::Buffer::format` on an `i64`: the decimal representation of the
/// value, with a leading `-` when it is negative, as the crate documents
/// ("print an integer into this buffer and return a reference to its
/// string representation").
#[verifier::external_body]
pub(crate) fn itoa_format_i64<'a>(buf: &'a mut itoa::Buffer, v: i64) -> (s: &'a str)
    ensures
        s@ == decimal(v as int),
{
    buf.format(v)
}

/// `itoa::Buffer::format` on a `u64`: the decimal digits of the value.
#[verifier::external_body]
pub(crate) fn itoa_format_u64<'a>(buf: &'a mut itoa::Buffer, v: u64) -> (s: &'a str)
    ensures
        s@ == digits(v as nat),
{
    buf.format(v)
}

} // verus!
