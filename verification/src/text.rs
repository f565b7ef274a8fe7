//! Text as sequences of characters: conversions between `String` and
//! `Vec<char>`, equality, surrounding whitespace, and letter case.

use vstd::prelude::*;
use vstd::string::*;
use vstd::utf8::{decode_utf8, is_ascii_chars, valid_utf8};

verus! {

/// `String::push` appends one character to the end of the string.
pub assume_specification[ String::push ](s: &mut String, c: char)
    ensures
        final(s)@ == old(s)@.push(c),
;

/// The characters of `s`, in order.
pub fn chars_of(s: &str) -> (v: Vec<char>)
    ensures
        v@ == s@,
{
    broadcast use vstd::string::group_string_axioms;

    let mut v: Vec<char> = Vec::new();
    for c in it: s.chars()
        invariant
            it.seq() == s@,
            v@ == s@.subrange(0, it.index() as int),
    {
        v.push(c);
    }
    assert(s@.subrange(0, s@.len() as int) == s@);
    v
}

/// The string made of the characters of `v` from `from` up to `to`.
pub fn string_of_range(v: &Vec<char>, from: usize, to: usize) -> (s: String)
    requires
        from <= to <= v.len(),
    ensures
        s@ == v@.subrange(from as int, to as int),
{
    let mut s = String::new();
    let mut i: usize = from;
    while i < to
        invariant
            from <= i <= to <= v.len(),
            s@ == v@.subrange(from as int, i as int),
        decreases to - i,
    {
        s.push(v[i]);
        assert(v@.subrange(from as int, i as int).push(v@[i as int]) == v@.subrange(
            from as int,
            i + 1,
        ));
        i += 1;
    }
    s
}

/// Whether two pieces of text hold the same characters.
pub fn same_text(a: &str, b: &str) -> (same: bool)
    ensures
        same == (a@ == b@),
{
    a.to_owned() == b.to_owned()
}

/// The characters that count as whitespace: those with the Unicode property
/// `White_Space`.
pub open spec fn is_whitespace(c: char) -> bool {
    ||| c == ' '
    ||| '\u{9}' <= c <= '\u{d}'
    ||| c == '\u{85}'
    ||| c == '\u{a0}'
    ||| c == '\u{1680}'
    ||| '\u{2000}' <= c <= '\u{200a}'
    ||| c == '\u{2028}'
    ||| c == '\u{2029}'
    ||| c == '\u{202f}'
    ||| c == '\u{205f}'
    ||| c == '\u{3000}'
}

/// How many whitespace characters `s` starts with.
pub open spec fn leading_whitespace(s: Seq<char>) -> nat
    decreases s.len(),
{
    if s.len() > 0 && is_whitespace(s[0]) {
        1 + leading_whitespace(s.skip(1))
    } else {
        0
    }
}

/// How many whitespace characters `s` ends with.
pub open spec fn trailing_whitespace(s: Seq<char>) -> nat
    decreases s.len(),
{
    if s.len() > 0 && is_whitespace(s.last()) {
        1 + trailing_whitespace(s.drop_last())
    } else {
        0
    }
}

/// `s` without the whitespace before its first and after its last
/// character that is no whitespace; empty where `s` holds nothing else.
pub open spec fn trim(s: Seq<char>) -> Seq<char> {
    if leading_whitespace(s) == s.len() {
        Seq::empty()
    } else {
        s.subrange(leading_whitespace(s) as int, s.len() - trailing_whitespace(s))
    }
}

/// The leading whitespace is a prefix of whitespace characters that ends at
/// the first character that is none.
pub proof fn lemma_leading_whitespace(s: Seq<char>)
    ensures
        leading_whitespace(s) <= s.len(),
        forall|i: int| 0 <= i < leading_whitespace(s) ==> is_whitespace(#[trigger] s[i]),
        leading_whitespace(s) < s.len() ==> !is_whitespace(s[leading_whitespace(s) as int]),
    decreases s.len(),
{
    if s.len() > 0 && is_whitespace(s[0]) {
        lemma_leading_whitespace(s.skip(1));
        assert forall|i: int| 0 <= i < leading_whitespace(s) implies is_whitespace(
            #[trigger] s[i],
        ) by {
            if i > 0 {
                assert(s[i] == s.skip(1)[i - 1]);
            }
        }
    }
}

/// The trailing whitespace is a suffix of whitespace characters that begins
/// after the last character that is none.
pub proof fn lemma_trailing_whitespace(s: Seq<char>)
    ensures
        trailing_whitespace(s) <= s.len(),
        forall|i: int|
            s.len() - trailing_whitespace(s) <= i < s.len() ==> is_whitespace(#[trigger] s[i]),
        trailing_whitespace(s) < s.len() ==> !is_whitespace(
            s[s.len() - trailing_whitespace(s) - 1],
        ),
    decreases s.len(),
{
    if s.len() > 0 && is_whitespace(s.last()) {
        lemma_trailing_whitespace(s.drop_last());
        assert forall|i: int|
            s.len() - trailing_whitespace(s) <= i < s.len() implies is_whitespace(
            #[trigger] s[i],
        ) by {
            if i < s.len() - 1 {
                assert(s[i] == s.drop_last()[i]);
            }
        }
    }
}

/// A prefix of whitespace followed by a character that is none fixes the
/// count of leading whitespace.
pub proof fn lemma_leading_whitespace_is(s: Seq<char>, n: int)
    requires
        0 <= n <= s.len(),
        forall|i: int| 0 <= i < n ==> is_whitespace(#[trigger] s[i]),
        n < s.len() ==> !is_whitespace(s[n]),
    ensures
        leading_whitespace(s) == n,
    decreases n,
{
    if n > 0 {
        assert(is_whitespace(s[0]));
        assert forall|i: int| 0 <= i < n - 1 implies is_whitespace(#[trigger] s.skip(1)[i]) by {
            assert(s.skip(1)[i] == s[i + 1]);
        }
        lemma_leading_whitespace_is(s.skip(1), n - 1);
    }
}

/// A suffix of whitespace preceded by a character that is none fixes the
/// count of trailing whitespace.
pub proof fn lemma_trailing_whitespace_is(s: Seq<char>, n: int)
    requires
        0 <= n <= s.len(),
        forall|i: int| s.len() - n <= i < s.len() ==> is_whitespace(#[trigger] s[i]),
        n < s.len() ==> !is_whitespace(s[s.len() - n - 1]),
    ensures
        trailing_whitespace(s) == n,
    decreases n,
{
    if n > 0 {
        assert(is_whitespace(s[s.len() - 1]));
        assert forall|i: int|
            s.drop_last().len() - (n - 1) <= i < s.drop_last().len() implies is_whitespace(
            #[trigger] s.drop_last()[i],
        ) by {
            assert(s.drop_last()[i] == s[i]);
        }
        lemma_trailing_whitespace_is(s.drop_last(), n - 1);
    }
}

/// Whether `c` is whitespace.
pub fn char_is_whitespace(c: char) -> (b: bool)
    ensures
        b == is_whitespace(c),
{
    c == ' ' || (c >= '\u{9}' && c <= '\u{d}') || c == '\u{85}' || c == '\u{a0}' || c
        == '\u{1680}' || (c >= '\u{2000}' && c <= '\u{200a}') || c == '\u{2028}' || c
        == '\u{2029}' || c == '\u{202f}' || c == '\u{205f}' || c == '\u{3000}'
}

/// The bounds of `trim(v@)` inside `v`.
pub fn trim_bounds(v: &Vec<char>) -> (bounds: (usize, usize))
    ensures
        bounds.0 <= bounds.1 <= v.len(),
        v@.subrange(bounds.0 as int, bounds.1 as int) == trim(v@),
{
    let mut start: usize = 0;
    while start < v.len() && char_is_whitespace(v[start])
        invariant
            start <= v.len(),
            forall|i: int| 0 <= i < start ==> is_whitespace(#[trigger] v@[i]),
        decreases v.len() - start,
    {
        start += 1;
    }
    proof {
        lemma_leading_whitespace_is(v@, start as int);
    }
    if start == v.len() {
        assert(v@.subrange(start as int, start as int) == Seq::<char>::empty());
        return (start, start);
    }
    let mut end: usize = v.len();
    while end > start && char_is_whitespace(v[end - 1])
        invariant
            start <= end <= v.len(),
            start < v.len(),
            !is_whitespace(v@[start as int]),
            forall|i: int| end <= i < v.len() ==> is_whitespace(#[trigger] v@[i]),
        decreases end,
    {
        end -= 1;
    }
    proof {
        lemma_trailing_whitespace_is(v@, v.len() - end);
    }
    (start, end)
}

/// `s` with surrounding whitespace removed.
pub fn trimmed(s: &str) -> (t: String)
    ensures
        t@ == trim(s@),
{
    let v = chars_of(s);
    let (start, end) = trim_bounds(&v);
    string_of_range(&v, start, end)
}

/// Text that neither starts nor ends with whitespace is its own trimming.
pub proof fn lemma_trim_unchanged(s: Seq<char>)
    requires
        s.len() > 0 ==> !is_whitespace(s.first()) && !is_whitespace(s.last()),
    ensures
        trim(s) == s,
{
    if s.len() > 0 {
        lemma_leading_whitespace_is(s, 0);
        lemma_trailing_whitespace_is(s, 0);
        assert(s.subrange(0, s.len() as int) == s);
    } else {
        assert(s == Seq::<char>::empty());
    }
}

/// `s` without the whitespace after its last character that is none.
pub open spec fn trim_end(s: Seq<char>) -> Seq<char> {
    s.subrange(0, s.len() - trailing_whitespace(s))
}

/// The part of `s` before its first line feed; all of `s` where it holds
/// none.
pub open spec fn before_line_feed(s: Seq<char>) -> Seq<char>
    decreases s.len(),
{
    if s.len() == 0 || s[0] == '\n' {
        Seq::empty()
    } else {
        seq![s[0]] + before_line_feed(s.skip(1))
    }
}

/// What follows the first line feed of `s`, and a line feed after it;
/// nothing where `s` holds no line feed.
pub open spec fn after_first_line(s: Seq<char>) -> Seq<char> {
    if before_line_feed(s).len() < s.len() {
        s.skip(before_line_feed(s).len() as int + 1) + seq!['\n']
    } else {
        Seq::empty()
    }
}

/// The part before the first line feed holds no line feed, and is all of
/// the text or is followed in it by a line feed.
pub proof fn lemma_before_line_feed(s: Seq<char>)
    ensures
        before_line_feed(s).len() <= s.len(),
        before_line_feed(s) == s.subrange(0, before_line_feed(s).len() as int),
        forall|i: int|
            0 <= i < before_line_feed(s).len() ==> #[trigger] before_line_feed(s)[i] != '\n',
        before_line_feed(s).len() < s.len() ==> s[before_line_feed(s).len() as int] == '\n',
        (forall|i: int| 0 <= i < s.len() ==> #[trigger] s[i] != '\n') ==> before_line_feed(s)
            == s,
    decreases s.len(),
{
    if !(s.len() == 0 || s[0] == '\n') {
        let rest = s.skip(1);
        let part = before_line_feed(rest);
        lemma_before_line_feed(rest);
        assert(before_line_feed(s) == s.subrange(0, before_line_feed(s).len() as int));
        assert forall|i: int| 0 <= i < before_line_feed(s).len() implies #[trigger] before_line_feed(
            s,
        )[i] != '\n' by {
            if i > 0 {
                assert(before_line_feed(s)[i] == part[i - 1]);
            }
        }
        if part.len() < rest.len() {
            assert(rest[part.len() as int] == s[before_line_feed(s).len() as int]);
        }
        if forall|i: int| 0 <= i < s.len() ==> #[trigger] s[i] != '\n' {
            assert forall|i: int| 0 <= i < rest.len() implies #[trigger] rest[i] != '\n' by {
                assert(rest[i] == s[i + 1]);
            }
            assert(seq![s[0]] + rest == s);
        }
    } else if s.len() > 0 {
        assert(s[0] == '\n');
        assert(before_line_feed(s) == s.subrange(0, 0));
    } else {
        assert(before_line_feed(s) == s.subrange(0, 0));
        assert(before_line_feed(s) == s);
    }
}

/// Whitespace around a text does not change what is left of it when it is
/// trimmed.
pub proof fn lemma_trim_padded(before: Seq<char>, s: Seq<char>, after: Seq<char>)
    requires
        forall|i: int| 0 <= i < before.len() ==> is_whitespace(#[trigger] before[i]),
        forall|i: int| 0 <= i < after.len() ==> is_whitespace(#[trigger] after[i]),
    ensures
        trim(before + s + after) == trim(s),
{
    let padded = before + s + after;
    let a = leading_whitespace(s) as int;
    let b = trailing_whitespace(s) as int;
    lemma_leading_whitespace(s);
    lemma_trailing_whitespace(s);
    assert forall|i: int| 0 <= i < before.len() + a implies is_whitespace(
        #[trigger] padded[i],
    ) by {
        if i < before.len() {
            assert(padded[i] == before[i]);
        } else {
            assert(padded[i] == s[i - before.len()]);
        }
    }
    if a == s.len() {
        assert forall|i: int| 0 <= i < padded.len() implies is_whitespace(#[trigger] padded[i]) by {
            if i < before.len() + a {
            } else {
                assert(padded[i] == after[i - before.len() - s.len()]);
            }
        }
        lemma_leading_whitespace_is(padded, padded.len() as int);
    } else {
        assert(!is_whitespace(s[a]));
        if b == s.len() {
            assert(is_whitespace(s[a]));
        }
        assert(padded[before.len() + a] == s[a]);
        lemma_leading_whitespace_is(padded, before.len() + a);
        assert forall|i: int|
            padded.len() - (after.len() + b) <= i < padded.len() implies is_whitespace(
            #[trigger] padded[i],
        ) by {
            if i < before.len() + s.len() {
                assert(padded[i] == s[i - before.len()]);
            } else {
                assert(padded[i] == after[i - before.len() - s.len()]);
            }
        }
        assert(padded[padded.len() - (after.len() + b) - 1] == s[s.len() - b - 1]);
        lemma_trailing_whitespace_is(padded, after.len() + b);
        assert(padded.subrange(before.len() + a, padded.len() - (after.len() + b)) == s.subrange(
            a,
            s.len() - b,
        ));
    }
}

/// Of a text after a word-like beginning, trimming takes the whitespace at
/// the end away, up to that beginning, and nothing else.
pub proof fn lemma_trim_after(start: Seq<char>, s: Seq<char>, after: Seq<char>)
    requires
        start.len() > 0,
        !is_whitespace(start.first()),
        !is_whitespace(start.last()),
        forall|i: int| 0 <= i < after.len() ==> is_whitespace(#[trigger] after[i]),
    ensures
        trim(start + s + after) == start + trim_end(s),
{
    let whole = start + s + after;
    let b = trailing_whitespace(s) as int;
    lemma_trailing_whitespace(s);
    assert(whole[0] == start[0]);
    lemma_leading_whitespace_is(whole, 0);
    assert forall|i: int| whole.len() - (after.len() + b) <= i < whole.len() implies is_whitespace(
        #[trigger] whole[i],
    ) by {
        if i < start.len() + s.len() {
            assert(whole[i] == s[i - start.len()]);
        } else {
            assert(whole[i] == after[i - start.len() - s.len()]);
        }
    }
    if b < s.len() {
        assert(whole[whole.len() - (after.len() + b) - 1] == s[s.len() - b - 1]);
    } else {
        assert(whole[whole.len() - (after.len() + b) - 1] == start.last());
    }
    lemma_trailing_whitespace_is(whole, after.len() + b);
    assert(whole.subrange(0, whole.len() - (after.len() + b)) == start + trim_end(s));
}

/// `c` in upper case where it is one of the letters `a` to `z`, else `c`.
pub open spec fn ascii_upper(c: char) -> char {
    if 'a' <= c <= 'z' {
        ((c as int) - 32) as char
    } else {
        c
    }
}

/// `c` in lower case where it is one of the letters `A` to `Z`, else `c`.
pub open spec fn ascii_lower(c: char) -> char {
    if 'A' <= c <= 'Z' {
        ((c as int) + 32) as char
    } else {
        c
    }
}

/// The upper-case form of `s` as Unicode defines it, which
/// `str::to_uppercase` computes.
pub uninterp spec fn unicode_uppercase(s: Seq<char>) -> Seq<char>;

/// The lower-case form of `s` as Unicode defines it, which
/// `str::to_lowercase` computes.
pub uninterp spec fn unicode_lowercase(s: Seq<char>) -> Seq<char>;

/// `s` in upper case: letter by letter where `s` is ASCII, as Unicode
/// defines it otherwise.
pub open spec fn uppercase_of(s: Seq<char>) -> Seq<char> {
    if is_ascii_chars(s) {
        s.map_values(|c: char| ascii_upper(c))
    } else {
        unicode_uppercase(s)
    }
}

/// `s` in lower case: letter by letter where `s` is ASCII, as Unicode
/// defines it otherwise.
pub open spec fn lowercase_of(s: Seq<char>) -> Seq<char> {
    if is_ascii_chars(s) {
        s.map_values(|c: char| ascii_lower(c))
    } else {
        unicode_lowercase(s)
    }
}

/// Calls `str::to_uppercase`. The result is named `unicode_uppercase`; of
/// text made of ASCII characters alone it is the text with each of the
/// letters `a` to `z` replaced by its capital.
#[verifier::external_body]
pub(crate) fn uppercase(s: &str) -> (upper: String)
    ensures
        upper@ == unicode_uppercase(s@),
        is_ascii_chars(s@) ==> upper@ == s@.map_values(|c: char| ascii_upper(c)),
{
    s.to_uppercase()
}

/// Calls `str::to_lowercase`. The result is named `unicode_lowercase`; of
/// text made of ASCII characters alone it is the text with each of the
/// letters `A` to `Z` replaced by its small letter.
#[verifier::external_body]
pub(crate) fn lowercase(s: &str) -> (lower: String)
    ensures
        lower@ == unicode_lowercase(s@),
        is_ascii_chars(s@) ==> lower@ == s@.map_values(|c: char| ascii_lower(c)),
{
    s.to_lowercase()
}

/// What `String::from_utf8` says of bytes that are no UTF-8: where the first
/// offending sequence lies and how long it is.
pub uninterp spec fn utf8_error_text(bytes: Seq<u8>) -> Seq<char>;

/// Calls `String::from_utf8`. Bytes that are UTF-8 give the string they
/// encode; other bytes give the error's own description, which is named
/// `utf8_error_text`.
#[verifier::external_body]
pub(crate) fn string_from_utf8(bytes: Vec<u8>) -> (decoded: Result<String, String>)
    ensures
        match decoded {
            Ok(s) => valid_utf8(bytes@) && s@ == decode_utf8(bytes@),
            Err(description) => !valid_utf8(bytes@) && description@ == utf8_error_text(bytes@),
        },
{
    match String::from_utf8(bytes) {
        Ok(s) => Ok(s),
        Err(error) => Err(error.to_string()),
    }
}

} // verus!
