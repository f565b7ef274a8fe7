//! Integers in decimal notation: how they are written and how they are read.

use crate::text::chars_of;
use vstd::prelude::*;
use vstd::string::*;

verus! {

/// The character that stands for the digit `d`.
pub open spec fn digit_char(d: int) -> char {
    ('0' as int + d) as char
}

/// Whether `c` is one of the digits `0` to `9`.
pub open spec fn is_digit(c: char) -> bool {
    '0' <= c <= '9'
}

/// The digit that `c` stands for.
pub open spec fn digit_of(c: char) -> int {
    c as int - '0' as int
}

/// `n` in decimal notation, without a sign or leading zeros.
pub open spec fn decimal(n: nat) -> Seq<char>
    decreases n,
{
    if n < 10 {
        seq![digit_char(n as int)]
    } else {
        decimal(n / 10).push(digit_char((n % 10) as int))
    }
}

/// `i` in decimal notation, with a minus sign where it is negative.
pub open spec fn signed_decimal(i: int) -> Seq<char> {
    if i < 0 {
        seq!['-'] + decimal((-i) as nat)
    } else {
        decimal(i as nat)
    }
}

/// Whether `s` is a non-empty run of digits.
pub open spec fn all_digits(s: Seq<char>) -> bool {
    s.len() > 0 && forall|i: int| 0 <= i < s.len() ==> is_digit(#[trigger] s[i])
}

/// The number that a run of digits denotes.
pub open spec fn digits_value(s: Seq<char>) -> nat
    decreases s.len(),
{
    if s.len() == 0 {
        0
    } else {
        (10 * digits_value(s.drop_last()) + digit_of(s.last())) as nat
    }
}

/// The number that `s` denotes where `s` is a run of digits, with or
/// without a plus sign before it, whose value is at most `max`.
pub open spec fn unsigned_of_decimal(s: Seq<char>, max: nat) -> Option<nat> {
    let digits = if s.len() > 0 && s[0] == '+' {
        s.skip(1)
    } else {
        s
    };
    if all_digits(digits) && digits_value(digits) <= max {
        Some(digits_value(digits))
    } else {
        None
    }
}

/// The `u64` that `s` denotes: digits, with or without a plus sign.
pub open spec fn u64_of_decimal(s: Seq<char>) -> Option<u64> {
    match unsigned_of_decimal(s, u64::MAX as nat) {
        Some(n) => Some(n as u64),
        None => None,
    }
}

/// The `i64` that `s` denotes: digits, with or without a sign.
pub open spec fn i64_of_decimal(s: Seq<char>) -> Option<i64> {
    if s.len() > 0 && s[0] == '-' {
        let digits = s.skip(1);
        if all_digits(digits) && digits_value(digits) <= 0x8000_0000_0000_0000 {
            Some((-(digits_value(digits) as int)) as i64)
        } else {
            None
        }
    } else {
        match unsigned_of_decimal(s, i64::MAX as nat) {
            Some(n) => Some(n as i64),
            None => None,
        }
    }
}

/// A number in decimal notation is a run of digits that denotes it.
pub proof fn lemma_decimal_denotes(n: nat)
    ensures
        all_digits(decimal(n)),
        digits_value(decimal(n)) == n,
    decreases n,
{
    if n < 10 {
        assert(decimal(n).drop_last() == Seq::<char>::empty());
        assert(digits_value(decimal(n).drop_last()) == 0);
        assert(decimal(n).last() == digit_char(n as int));
    } else {
        lemma_decimal_denotes(n / 10);
        assert(decimal(n).drop_last() == decimal(n / 10));
        assert(decimal(n).last() == digit_char((n % 10) as int));
    }
}

/// Reading what was written gives the number back.
pub proof fn lemma_u64_of_decimal(n: u64)
    ensures
        u64_of_decimal(decimal(n as nat)) == Some(n),
{
    lemma_decimal_denotes(n as nat);
    assert(is_digit(decimal(n as nat)[0]));
}

/// Reading what was written gives the number back, for signed numbers too.
pub proof fn lemma_i64_of_decimal(i: i64)
    ensures
        i64_of_decimal(signed_decimal(i as int)) == Some(i),
{
    if i < 0 {
        let m = (-(i as int)) as nat;
        lemma_decimal_denotes(m);
        assert(signed_decimal(i as int).skip(1) == decimal(m));
    } else {
        lemma_decimal_denotes(i as nat);
        assert(is_digit(decimal(i as nat)[0]));
    }
}

/// The value of a run of digits is at least that of each of its prefixes.
pub proof fn lemma_prefix_value(s: Seq<char>, k: int)
    requires
        all_digits(s),
        0 <= k <= s.len(),
    ensures
        digits_value(s.subrange(0, k)) <= digits_value(s),
    decreases s.len() - k,
{
    if k == s.len() {
        assert(s.subrange(0, k) == s);
    } else {
        let front = s.drop_last();
        assert(front.subrange(0, k) == s.subrange(0, k));
        assert(is_digit(s.last()));
        if front.len() > 0 {
            assert forall|i: int| 0 <= i < front.len() implies is_digit(#[trigger] front[i]) by {
                assert(front[i] == s[i]);
            }
            lemma_prefix_value(front, k);
        } else {
            assert(s.subrange(0, k) == Seq::<char>::empty());
        }
    }
}

/// Appends the decimal notation of `n` to `out`.
pub fn push_decimal(out: &mut String, n: u64)
    ensures
        final(out)@ == old(out)@ + decimal(n as nat),
    decreases n,
{
    if n >= 10 {
        push_decimal(out, n / 10);
    }
    let d: u8 = (n % 10) as u8;
    out.push((48u8 + d) as char);
    proof {
        if n >= 10 {
            assert(old(out)@ + decimal(n as nat) == (old(out)@ + decimal((n / 10) as nat)).push(
                digit_char((n % 10) as int),
            ));
        } else {
            assert(old(out)@ + decimal(n as nat) == old(out)@.push(digit_char(n as int)));
        }
    }
}

/// Appends the decimal notation of `i` to `out`.
pub fn push_signed_decimal(out: &mut String, i: i64)
    ensures
        final(out)@ == old(out)@ + signed_decimal(i as int),
{
    if i < 0 {
        out.push('-');
        let magnitude: u64 = if i == i64::MIN {
            0x8000_0000_0000_0000u64
        } else {
            (-i) as u64
        };
        push_decimal(out, magnitude);
        assert(old(out)@.push('-') + decimal(magnitude as nat) == old(out)@ + signed_decimal(
            i as int,
        ));
    } else {
        push_decimal(out, i as u64);
    }
}

/// `n` in decimal notation.
pub fn decimal_string(n: u64) -> (s: String)
    ensures
        s@ == decimal(n as nat),
{
    let mut s = String::new();
    push_decimal(&mut s, n);
    assert(Seq::<char>::empty() + decimal(n as nat) == decimal(n as nat));
    s
}

/// Reads the digits of `v` from `from` on as a number of at most `max`.
pub fn parse_digits(v: &Vec<char>, from: usize, max: u64) -> (value: Option<u64>)
    requires
        from <= v.len(),
    ensures
        value == (if all_digits(v@.skip(from as int)) && digits_value(v@.skip(from as int))
            <= max {
            Some(digits_value(v@.skip(from as int)) as u64)
        } else {
            None
        }),
{
    let ghost digits = v@.skip(from as int);
    if from == v.len() {
        return None;
    }
    let mut acc: u64 = 0;
    let mut i: usize = from;
    while i < v.len()
        invariant
            from <= i <= v.len(),
            digits == v@.skip(from as int),
            forall|j: int| 0 <= j < i - from ==> is_digit(#[trigger] digits[j]),
            acc == digits_value(digits.subrange(0, i - from)),
            acc <= max,
        decreases v.len() - i,
    {
        let c = v[i];
        assert(digits[i - from] == c);
        if !(c >= '0' && c <= '9') {
            return None;
        }
        let d: u32 = c as u32 - 48;
        let next: u128 = acc as u128 * 10 + d as u128;
        proof {
            let longer = digits.subrange(0, i - from + 1);
            assert(longer.drop_last() == digits.subrange(0, i - from));
            assert(longer.last() == c);
            assert(digits_value(longer) == next);
        }
        if next > max as u128 {
            proof {
                if all_digits(digits) {
                    lemma_prefix_value(digits, i - from + 1);
                }
            }
            return None;
        }
        acc = next as u64;
        i += 1;
    }
    assert(digits.subrange(0, i - from) == digits);
    Some(acc)
}

/// Reads `text` as a `u64`: digits, with or without a plus sign.
pub fn parse_u64(text: &str) -> (value: Option<u64>)
    ensures
        value == u64_of_decimal(text@),
{
    let v = chars_of(text);
    let from: usize = if v.len() > 0 && v[0] == '+' {
        1
    } else {
        0
    };
    assert(v@.skip(0) == v@);
    parse_digits(&v, from, u64::MAX)
}

/// Reads `text` as an `i64`: digits, with or without a sign.
pub fn parse_i64(text: &str) -> (value: Option<i64>)
    ensures
        value == i64_of_decimal(text@),
{
    let v = chars_of(text);
    assert(v@.skip(0) == v@);
    if v.len() > 0 && v[0] == '-' {
        match parse_digits(&v, 1, 0x8000_0000_0000_0000u64) {
            Some(m) => {
                if m == 0x8000_0000_0000_0000u64 {
                    Some(i64::MIN)
                } else {
                    Some(-(m as i64))
                }
            },
            None => None,
        }
    } else {
        let from: usize = if v.len() > 0 && v[0] == '+' {
            1
        } else {
            0
        };
        match parse_digits(&v, from, 0x7fff_ffff_ffff_ffffu64) {
            Some(m) => Some(m as i64),
            None => None,
        }
    }
}

/// A number that has a decimal notation to be read from.
pub trait DecimalScalar: Sized {
    /// The value that `text` denotes, if it denotes one of this type.
    spec fn of_decimal(text: Seq<char>) -> Option<Self>;

    /// Reads `text` as a value of this type.
    fn parse_decimal(text: &str) -> (value: Option<Self>)
        ensures
            value == Self::of_decimal(text@),
    ;
}

impl DecimalScalar for u64 {
    open spec fn of_decimal(text: Seq<char>) -> Option<u64> {
        u64_of_decimal(text)
    }

    fn parse_decimal(text: &str) -> (value: Option<u64>) {
        parse_u64(text)
    }
}

impl DecimalScalar for i64 {
    open spec fn of_decimal(text: Seq<char>) -> Option<i64> {
        i64_of_decimal(text)
    }

    fn parse_decimal(text: &str) -> (value: Option<i64>) {
        parse_i64(text)
    }
}

} // verus!
