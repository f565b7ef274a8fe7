//! A source of bytes that is read from front to back, and the integers and
//! lines of text that the encodings take from it.

use crate::error::{ParseError, ParseErrorView};
use crate::text::string_from_utf8;
use vstd::arithmetic::div_mod::lemma_div_denominator;
use vstd::prelude::*;
use vstd::slice::{slice_subrange, slice_to_vec};
use vstd::string::*;
use vstd::utf8::{decode_utf8, valid_utf8};

verus! {

/// Bytes with a position in them. Its view is what has not been read yet.
pub struct ByteSource {
    data: Vec<u8>,
    pos: usize,
}

impl View for ByteSource {
    type V = Seq<u8>;

    closed spec fn view(&self) -> Seq<u8> {
        self.data@.skip(self.pos as int)
    }
}

/// The length of the first line of `bytes`, its line feed included; the
/// length of `bytes` where they hold no line feed.
pub open spec fn line_len(bytes: Seq<u8>) -> nat
    decreases bytes.len(),
{
    if bytes.len() == 0 {
        0
    } else if bytes[0] == 0x0a {
        1
    } else {
        1 + line_len(bytes.skip(1))
    }
}

/// The first line of `bytes` as text, its line feed included, or the error
/// that stands for bytes that are no UTF-8.
pub open spec fn first_line(bytes: Seq<u8>) -> Result<Seq<char>, ParseErrorView> {
    let line = bytes.subrange(0, line_len(bytes) as int);
    if valid_utf8(line) {
        Ok(decode_utf8(line))
    } else {
        Err(ParseErrorView::IOError("stream did not contain valid UTF-8"@))
    }
}

/// The first line ends with the first line feed, or with the bytes.
pub proof fn lemma_line_len(bytes: Seq<u8>)
    ensures
        line_len(bytes) <= bytes.len(),
        bytes.len() > 0 ==> line_len(bytes) > 0,
        forall|i: int| 0 <= i < line_len(bytes) - 1 ==> #[trigger] bytes[i] != 0x0a,
        line_len(bytes) < bytes.len() ==> bytes[line_len(bytes) - 1] == 0x0a,
    decreases bytes.len(),
{
    if bytes.len() > 0 && bytes[0] != 0x0a {
        let rest = bytes.skip(1);
        lemma_line_len(rest);
        assert forall|i: int| 0 <= i < line_len(bytes) - 1 implies #[trigger] bytes[i]
            != 0x0a by {
            if i > 0 {
                assert(bytes[i] == rest[i - 1]);
            }
        }
        if line_len(bytes) < bytes.len() {
            assert(rest[line_len(rest) - 1] == bytes[line_len(bytes) - 1]);
        }
    }
}

/// A run of bytes without a line feed that a line feed or the end of the
/// bytes follows is the first line.
pub proof fn lemma_line_len_is(bytes: Seq<u8>, n: int)
    requires
        0 <= n <= bytes.len(),
        bytes.len() > 0 ==> n > 0,
        forall|i: int| 0 <= i < n - 1 ==> #[trigger] bytes[i] != 0x0a,
        n < bytes.len() ==> bytes[n - 1] == 0x0a,
    ensures
        line_len(bytes) == n,
    decreases n,
{
    if bytes.len() == 0 {
        assert(line_len(bytes) == 0);
    } else if bytes[0] == 0x0a {
        if n > 1 {
            assert(bytes[0] != 0x0a);
        }
        assert(n == 1);
        assert(line_len(bytes) == 1);
    } else {
        let rest = bytes.skip(1);
        assert(line_len(bytes) == 1 + line_len(rest));
        if n == 1 {
            if n < bytes.len() {
                assert(bytes[n - 1] == 0x0a);
            }
            assert(rest.len() == 0);
            assert(line_len(rest) == 0);
        } else {
            assert forall|i: int| 0 <= i < n - 2 implies #[trigger] rest[i] != 0x0a by {
                assert(rest[i] == bytes[i + 1]);
            }
            if n - 1 < rest.len() {
                assert(rest[n - 2] == bytes[n - 1]);
            }
            lemma_line_len_is(rest, n - 1);
        }
    }
}

/// The number that four bytes denote, the first of them weighing most.
#[verifier::opaque]
pub open spec fn u32_of_be(bytes: Seq<u8>) -> u32 {
    (bytes[0] * 0x100_0000 + bytes[1] * 0x1_0000 + bytes[2] * 0x100 + bytes[3]) as u32
}

/// The number that eight bytes denote, the first of them weighing most.
#[verifier::opaque]
pub open spec fn u64_of_be(bytes: Seq<u8>) -> u64 {
    (bytes[0] * 0x100_0000_0000_0000 + bytes[1] * 0x1_0000_0000_0000 + bytes[2]
        * 0x100_0000_0000 + bytes[3] * 0x1_0000_0000 + bytes[4] * 0x100_0000 + bytes[5] * 0x1_0000
        + bytes[6] * 0x100 + bytes[7]) as u64
}

/// The signed number that `value` stands for in two's complement.
pub open spec fn signed_of(value: u64) -> i64 {
    if value >= 0x8000_0000_0000_0000 {
        (value - 0x1_0000_0000_0000_0000) as i64
    } else {
        value as i64
    }
}

/// The number that stands for `value` in two's complement.
pub open spec fn unsigned_of(value: i64) -> u64 {
    if value < 0 {
        (value + 0x1_0000_0000_0000_0000) as u64
    } else {
        value as u64
    }
}

/// The signed number that eight bytes denote in two's complement, the first
/// of them weighing most.
pub open spec fn i64_of_be(bytes: Seq<u8>) -> i64 {
    signed_of(u64_of_be(bytes))
}

/// The four bytes that denote `value`, the one that weighs most first.
#[verifier::opaque]
pub open spec fn be_of_u32(value: u32) -> Seq<u8> {
    seq![
        (value / 0x100_0000) as u8,
        (value / 0x1_0000 % 0x100) as u8,
        (value / 0x100 % 0x100) as u8,
        (value % 0x100) as u8,
    ]
}

/// The eight bytes that denote `value`, the one that weighs most first.
#[verifier::opaque]
pub open spec fn be_of_u64(value: u64) -> Seq<u8> {
    seq![
        (value / 0x100_0000_0000_0000) as u8,
        (value / 0x1_0000_0000_0000 % 0x100) as u8,
        (value / 0x100_0000_0000 % 0x100) as u8,
        (value / 0x1_0000_0000 % 0x100) as u8,
        (value / 0x100_0000 % 0x100) as u8,
        (value / 0x1_0000 % 0x100) as u8,
        (value / 0x100 % 0x100) as u8,
        (value % 0x100) as u8,
    ]
}

/// The eight bytes that denote `value` in two's complement, the one that
/// weighs most first.
pub open spec fn be_of_i64(value: i64) -> Seq<u8> {
    be_of_u64(unsigned_of(value))
}

/// Four bytes written for a number denote that number.
pub proof fn lemma_u32_be_round_trip(value: u32)
    ensures
        be_of_u32(value).len() == 4,
        u32_of_be(be_of_u32(value)) == value,
{
    reveal(be_of_u32);
    reveal(u32_of_be);
}

/// Eight bytes written for a number denote that number.
pub proof fn lemma_u64_be_round_trip(value: u64)
    ensures
        be_of_u64(value).len() == 8,
        u64_of_be(be_of_u64(value)) == value,
{
    reveal(be_of_u64);
    reveal(u64_of_be);
    let v = value as int;
    let q1 = v / 0x100;
    let q2 = q1 / 0x100;
    let q3 = q2 / 0x100;
    let q4 = q3 / 0x100;
    let q5 = q4 / 0x100;
    let q6 = q5 / 0x100;
    let q7 = q6 / 0x100;
    lemma_div_denominator(v, 0x100, 0x100);
    lemma_div_denominator(v, 0x1_0000, 0x100);
    lemma_div_denominator(v, 0x100_0000, 0x100);
    lemma_div_denominator(v, 0x1_0000_0000, 0x100);
    lemma_div_denominator(v, 0x100_0000_0000, 0x100);
    lemma_div_denominator(v, 0x1_0000_0000_0000, 0x100);
    assert(v / 0x1_0000 == q2);
    assert(v / 0x100_0000 == q3);
    assert(v / 0x1_0000_0000 == q4);
    assert(v / 0x100_0000_0000 == q5);
    assert(v / 0x1_0000_0000_0000 == q6);
    assert(v / 0x100_0000_0000_0000 == q7);
    assert(q7 < 0x100);
    let b = be_of_u64(value);
    assert(b[0] == q7);
    assert(b[1] == q6 % 0x100);
    assert(b[2] == q5 % 0x100);
    assert(b[3] == q4 % 0x100);
    assert(b[4] == q3 % 0x100);
    assert(b[5] == q2 % 0x100);
    assert(b[6] == q1 % 0x100);
    assert(b[7] == v % 0x100);
}

/// Eight bytes written for a signed number denote that number.
pub proof fn lemma_i64_be_round_trip(value: i64)
    ensures
        be_of_i64(value).len() == 8,
        i64_of_be(be_of_i64(value)) == value,
{
    lemma_u64_be_round_trip(unsigned_of(value));
}

impl ByteSource {
    #[verifier::type_invariant]
    spec fn in_bounds(self) -> bool {
        self.pos <= self.data.len()
    }

    /// A source that holds `data`, none of it read.
    pub fn new(data: Vec<u8>) -> (source: Self)
        ensures
            source@ == data@,
    {
        assert(data@.skip(0) == data@);
        ByteSource { data, pos: 0 }
    }

    /// How many bytes are left to read.
    pub fn remaining(&self) -> (n: usize)
        ensures
            n == self@.len(),
    {
        proof {
            use_type_invariant(self);
        }
        self.data.len() - self.pos
    }

    /// Takes the next `n` bytes, or none where fewer are left.
    pub fn take(&mut self, n: usize) -> (bytes: Option<Vec<u8>>)
        ensures
            n <= old(self)@.len() ==> bytes.is_some() && bytes.unwrap()@ == old(self)@.subrange(
                0,
                n as int,
            ) && final(self)@ == old(self)@.skip(n as int),
            n > old(self)@.len() ==> bytes.is_none() && final(self)@ == old(self)@,
    {
        proof {
            use_type_invariant(&*self);
        }
        if n > self.data.len() - self.pos {
            return None;
        }
        let end: usize = self.pos + n;
        let bytes = slice_to_vec(slice_subrange(self.data.as_slice(), self.pos, end));
        proof {
            assert(bytes@ == self@.subrange(0, n as int));
            assert(self.data@.skip(end as int) == self@.skip(n as int));
        }
        self.pos = end;
        Some(bytes)
    }

    /// Reads the next line, its line feed included: the bytes up to the
    /// first line feed, or all that is left where there is none. At the end
    /// of the source the line is empty.
    pub fn read_line(&mut self) -> (line: Result<String, ParseError>)
        ensures
            final(self)@ == old(self)@.skip(line_len(old(self)@) as int),
            match line {
                Ok(text) => first_line(old(self)@) == Ok::<Seq<char>, ParseErrorView>(text@),
                Err(error) => first_line(old(self)@) == Err::<Seq<char>, ParseErrorView>(error@),
            },
    {
        proof {
            use_type_invariant(&*self);
        }
        let start: usize = self.pos;
        let mut end: usize = start;
        let mut found: bool = false;
        while end < self.data.len() && !found
            invariant
                start <= end <= self.data.len(),
                start == self.pos,
                !found ==> forall|i: int| start <= i < end ==> #[trigger] self.data@[i] != 0x0a,
                found ==> end > start && self.data@[end - 1] == 0x0a && forall|i: int|
                    start <= i < end - 1 ==> #[trigger] self.data@[i] != 0x0a,
            decreases self.data.len() - end + (if found { 0int } else { 1int }),
        {
            if self.data[end] == 0x0a {
                found = true;
            }
            end += 1;
        }
        proof {
            let rest = self@;
            assert forall|i: int| 0 <= i < (end - start) - 1 implies #[trigger] rest[i]
                != 0x0a by {
                assert(rest[i] == self.data@[start + i]);
            }
            if end - start < rest.len() {
                assert(rest[end - start - 1] == self.data@[end - 1]);
            }
            lemma_line_len_is(rest, end - start);
        }
        let bytes = slice_to_vec(slice_subrange(self.data.as_slice(), start, end));
        proof {
            assert(bytes@ == self@.subrange(0, line_len(self@) as int));
            assert(self.data@.skip(end as int) == self@.skip(line_len(self@) as int));
        }
        self.pos = end;
        line_of_decoded(string_from_utf8(bytes))
    }
}

/// The line that the bytes of a line were decoded to; where they were no
/// UTF-8, the error that says so of the stream.
pub fn line_of_decoded(decoded: Result<String, String>) -> (line: Result<String, ParseError>)
    ensures
        match decoded {
            Ok(text) => line == Ok::<String, ParseError>(text),
            Err(_) => line is Err && line->Err_0@ == ParseErrorView::IOError(
                "stream did not contain valid UTF-8"@,
            ),
        },
{
    match decoded {
        Ok(text) => Ok(text),
        Err(_) => Err(ParseError::IOError(String::from_str("stream did not contain valid UTF-8"))),
    }
}

/// Reads one byte.
pub fn read_u8_from_bytes(r: &mut ByteSource) -> (value: Result<u8, ParseError>)
    ensures
        match value {
            Ok(v) => old(r)@.len() >= 1 && v == old(r)@[0] && final(r)@ == old(r)@.skip(1),
            Err(error) => old(r)@.len() < 1 && error@ == ParseErrorView::UnexpectedEOF && final(r)@
                == old(r)@,
        },
{
    match r.take(1) {
        Some(bytes) => Ok(bytes[0]),
        None => Err(ParseError::UnexpectedEOF),
    }
}

/// Reads four bytes as a number, the first of them weighing most.
pub fn read_u32_from_bytes(r: &mut ByteSource) -> (value: Result<u32, ParseError>)
    ensures
        match value {
            Ok(v) => old(r)@.len() >= 4 && v == u32_of_be(old(r)@.subrange(0, 4)) && final(r)@
                == old(r)@.skip(4),
            Err(error) => old(r)@.len() < 4 && error@ == ParseErrorView::UnexpectedEOF && final(r)@
                == old(r)@,
        },
{
    reveal(u32_of_be);
    match r.take(4) {
        Some(b) => Ok(
            (b[0] as u32) * 0x100_0000 + (b[1] as u32) * 0x1_0000 + (b[2] as u32) * 0x100
                + b[3] as u32,
        ),
        None => Err(ParseError::UnexpectedEOF),
    }
}

/// Reads eight bytes as a number, the first of them weighing most.
pub fn read_u64_from_bytes(r: &mut ByteSource) -> (value: Result<u64, ParseError>)
    ensures
        match value {
            Ok(v) => old(r)@.len() >= 8 && v == u64_of_be(old(r)@.subrange(0, 8)) && final(r)@
                == old(r)@.skip(8),
            Err(error) => old(r)@.len() < 8 && error@ == ParseErrorView::UnexpectedEOF && final(r)@
                == old(r)@,
        },
{
    reveal(u64_of_be);
    match r.take(8) {
        Some(b) => Ok(
            (b[0] as u64) * 0x100_0000_0000_0000 + (b[1] as u64) * 0x1_0000_0000_0000 + (
            b[2] as u64) * 0x100_0000_0000 + (b[3] as u64) * 0x1_0000_0000 + (b[4] as u64)
                * 0x100_0000 + (b[5] as u64) * 0x1_0000 + (b[6] as u64) * 0x100 + b[7] as u64,
        ),
        None => Err(ParseError::UnexpectedEOF),
    }
}

/// Reads eight bytes as a signed number in two's complement, the first of
/// them weighing most.
pub fn read_i64_from_bytes(r: &mut ByteSource) -> (value: Result<i64, ParseError>)
    ensures
        match value {
            Ok(v) => old(r)@.len() >= 8 && v == i64_of_be(old(r)@.subrange(0, 8)) && final(r)@
                == old(r)@.skip(8),
            Err(error) => old(r)@.len() < 8 && error@ == ParseErrorView::UnexpectedEOF && final(r)@
                == old(r)@,
        },
{
    match read_u64_from_bytes(r) {
        Ok(u) => {
            if u >= 0x8000_0000_0000_0000u64 {
                Ok((u - 0x8000_0000_0000_0000u64) as i64 + i64::MIN)
            } else {
                Ok(u as i64)
            }
        },
        Err(error) => Err(error),
    }
}

/// Appends the four bytes that denote `value`, the one that weighs most first.
pub fn write_u32_to_bytes(w: &mut Vec<u8>, value: u32)
    ensures
        final(w)@ == old(w)@ + be_of_u32(value),
{
    w.push((value / 0x100_0000) as u8);
    w.push((value / 0x1_0000 % 0x100) as u8);
    w.push((value / 0x100 % 0x100) as u8);
    w.push((value % 0x100) as u8);
    reveal(be_of_u32);
    assert(w@ == old(w)@ + be_of_u32(value));
}

/// Appends the eight bytes that denote `value`, the one that weighs most first.
pub fn write_u64_to_bytes(w: &mut Vec<u8>, value: u64)
    ensures
        final(w)@ == old(w)@ + be_of_u64(value),
{
    w.push((value / 0x100_0000_0000_0000) as u8);
    w.push((value / 0x1_0000_0000_0000 % 0x100) as u8);
    w.push((value / 0x100_0000_0000 % 0x100) as u8);
    w.push((value / 0x1_0000_0000 % 0x100) as u8);
    w.push((value / 0x100_0000 % 0x100) as u8);
    w.push((value / 0x1_0000 % 0x100) as u8);
    w.push((value / 0x100 % 0x100) as u8);
    w.push((value % 0x100) as u8);
    reveal(be_of_u64);
    assert(w@ == old(w)@ + be_of_u64(value));
}

/// Appends the eight bytes that denote `value` in two's complement, the one
/// that weighs most first.
pub fn write_i64_to_bytes(w: &mut Vec<u8>, value: i64)
    ensures
        final(w)@ == old(w)@ + be_of_i64(value),
{
    let unsigned: u64 = if value < 0 {
        (value - i64::MIN) as u64 + 0x8000_0000_0000_0000u64
    } else {
        value as u64
    };
    write_u64_to_bytes(w, unsigned);
}

} // verus!
