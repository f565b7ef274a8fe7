//! Facts about UTF-8 that the encodings made of lines of text rest on.

use crate::error::ParseErrorView;
use crate::source::{first_line, lemma_line_len_is, line_len};
use vstd::prelude::*;
use vstd::utf8::*;

verus! {

/// The bytes of one character hold a line feed only where the character is
/// the line feed.
pub proof fn lemma_encode_scalar_line_feed(c: char)
    ensures
        encode_scalar(c as u32).len() > 0,
        c == '\n' ==> encode_scalar(c as u32) == seq![0x0au8],
        c != '\n' ==> forall|i: int|
            0 <= i < encode_scalar(c as u32).len() ==> #[trigger] encode_scalar(c as u32)[i]
                != 0x0a,
{
    let v = c as u32;
    char_is_scalar(c);
    assert(has_width_1_encoding(v) ==> leading_byte_width_1(v) == v) by (bit_vector)
        requires
            v <= 0x10ffff,
    ;
    assert(leading_byte_width_2(v) >= 0x80) by (bit_vector);
    assert(leading_byte_width_3(v) >= 0x80) by (bit_vector);
    assert(leading_byte_width_4(v) >= 0x80) by (bit_vector);
    assert(last_continuation_byte(v) >= 0x80) by (bit_vector);
    assert(second_last_continuation_byte(v) >= 0x80) by (bit_vector);
    assert(third_last_continuation_byte(v) >= 0x80) by (bit_vector);
}

/// The line feed is written as one byte.
pub proof fn lemma_encode_line_feed()
    ensures
        encode_utf8(seq!['\n']) == seq![0x0au8],
{
    lemma_encode_scalar_line_feed('\n');
    assert(seq!['\n'].drop_first() == Seq::<char>::empty());
    assert(encode_utf8(seq!['\n']) == encode_scalar('\n' as u32) + encode_utf8(
        Seq::<char>::empty(),
    ));
}

/// The bytes of a text are those of its parts, one after the other.
pub proof fn lemma_encode_concat(a: Seq<char>, b: Seq<char>)
    ensures
        encode_utf8(a + b) == encode_utf8(a) + encode_utf8(b),
    decreases a.len(),
{
    if a.len() == 0 {
        assert(a + b == b);
        assert(encode_utf8(a) + encode_utf8(b) == encode_utf8(b));
    } else {
        lemma_encode_concat(a.drop_first(), b);
        assert((a + b).drop_first() == a.drop_first() + b);
        assert((a + b)[0] == a[0]);
        assert(encode_scalar(a[0] as u32) + (encode_utf8(a.drop_first()) + encode_utf8(b)) == (
        encode_scalar(a[0] as u32) + encode_utf8(a.drop_first())) + encode_utf8(b));
    }
}

/// The bytes of a text without a line feed hold no line feed.
pub proof fn lemma_encode_without_line_feed(text: Seq<char>)
    requires
        forall|i: int| 0 <= i < text.len() ==> #[trigger] text[i] != '\n',
    ensures
        forall|i: int| 0 <= i < encode_utf8(text).len() ==> #[trigger] encode_utf8(text)[i] != 0x0a,
    decreases text.len(),
{
    if text.len() > 0 {
        let head = encode_scalar(text[0] as u32);
        let tail = text.drop_first();
        lemma_encode_scalar_line_feed(text[0]);
        assert forall|i: int| 0 <= i < tail.len() implies #[trigger] tail[i] != '\n' by {
            assert(tail[i] == text[i + 1]);
        }
        lemma_encode_without_line_feed(tail);
        assert forall|i: int| 0 <= i < encode_utf8(text).len() implies #[trigger] encode_utf8(
            text,
        )[i] != 0x0a by {
            if i < head.len() {
                assert(encode_utf8(text)[i] == head[i]);
            } else {
                assert(encode_utf8(text)[i] == encode_utf8(tail)[i - head.len()]);
            }
        }
    }
}

/// Whether `text` is one line: it ends with a line feed and holds no other.
pub open spec fn is_line(text: Seq<char>) -> bool {
    &&& text.len() > 0
    &&& text.last() == '\n'
    &&& forall|i: int| 0 <= i < text.len() - 1 ==> #[trigger] text[i] != '\n'
}

/// The bytes of one line, whatever follows them, are read as that line, and
/// what follows is left.
pub proof fn lemma_first_line_of_text(text: Seq<char>, rest: Seq<u8>)
    requires
        is_line(text),
    ensures
        line_len(encode_utf8(text) + rest) == encode_utf8(text).len(),
        first_line(encode_utf8(text) + rest) == Ok::<Seq<char>, ParseErrorView>(text),
        (encode_utf8(text) + rest).skip(encode_utf8(text).len() as int) == rest,
{
    let body = text.drop_last();
    let bytes = encode_utf8(text);
    let written = bytes + rest;
    assert(text == body + seq!['\n']);
    lemma_encode_concat(body, seq!['\n']);
    lemma_encode_line_feed();
    assert forall|i: int| 0 <= i < body.len() implies #[trigger] body[i] != '\n' by {
        assert(body[i] == text[i]);
    }
    lemma_encode_without_line_feed(body);
    let n = bytes.len() as int;
    assert(n == encode_utf8(body).len() + 1);
    assert forall|i: int| 0 <= i < n - 1 implies #[trigger] written[i] != 0x0a by {
        assert(written[i] == encode_utf8(body)[i]);
    }
    assert(written[n - 1] == 0x0a);
    lemma_line_len_is(written, n);
    assert(written.subrange(0, n) == bytes);
    encode_utf8_valid_utf8(text);
    encode_utf8_decode_utf8(text);
}

} // verus!
