//! Why records written in delimited text are read back as they were.

use crate::csv_format::{
    csv_line, csv_record_of_fields, description_fields, field_len, fields, inside_after,
    is_csv_description, joined, split_fields, YPBankCsvRecordParser, TARGET_HEADER,
};
use crate::decimal::decimal;
use crate::error::ParseErrorView;
use crate::parser::YPBankRecordParser;
use crate::fields::{
    fields_of_record, is_word, lemma_written_fields_are_words, lemma_written_fields_refused,
    record_of_fields,
};
use crate::record::{read_outcome, YPBankRecordView};
use crate::source::lemma_line_len;
use crate::text::{
    after_first_line, before_line_feed, lemma_before_line_feed, lemma_trailing_whitespace_is,
    lemma_trim_after, trim, trim_end,
};
use crate::utf8::{is_line, lemma_encode_concat, lemma_first_line_of_text};
use vstd::prelude::*;
use vstd::string::*;
use vstd::utf8::encode_utf8;

verus! {

/// Text in which every comma stands inside a quoted span is one field.
pub proof fn lemma_one_field(s: Seq<char>, inside: bool)
    requires
        forall|i: int|
            0 <= i < s.len() && #[trigger] s[i] == ',' ==> inside_after(s, i as nat, inside),
    ensures
        field_len(s, inside) == s.len(),
    decreases s.len(),
{
    if s.len() > 0 {
        if s[0] == ',' {
            assert(inside_after(s, 0, inside));
        }
        let rest = s.skip(1);
        let next = inside != (s[0] == '"');
        assert forall|i: int| 0 <= i < rest.len() && #[trigger] rest[i] == ',' implies inside_after(
            rest,
            i as nat,
            next,
        ) by {
            assert(rest[i] == s[i + 1]);
            assert(inside_after(s, (i + 1) as nat, inside));
        }
        lemma_one_field(rest, next);
    }
}

/// A word before a comma is the first field, and the fields that follow
/// are those of what follows the comma.
pub proof fn lemma_word_is_first_field(word: Seq<char>, rest: Seq<char>)
    requires
        is_word(word),
    ensures
        fields(word + seq![','] + rest, false) == seq![word] + fields(rest, false),
{
    let s = word + seq![','] + rest;
    lemma_word_prefix(word, seq![','] + rest, word.len() as int);
    assert(word + (seq![','] + rest) == s);
    assert(s.skip(word.len() as int) == seq![','] + rest);
    assert((seq![','] + rest)[0] == ',');
    assert(field_len(seq![','] + rest, false) == 0);
    assert(field_len(s, false) == word.len());
    assert(s.subrange(0, word.len() as int) == word);
    assert(s.skip(word.len() as int + 1) == rest);
}

/// Reading the first field passes over the characters of a word.
pub(crate) proof fn lemma_word_prefix(word: Seq<char>, rest: Seq<char>, k: int)
    requires
        is_word(word),
        0 <= k <= word.len(),
    ensures
        field_len(word + rest, false) == k + field_len((word + rest).skip(k), false),
        inside_after(word + rest, field_len(word + rest, false), false) == inside_after(
            (word + rest).skip(k),
            field_len((word + rest).skip(k), false),
            false,
        ),
    decreases k,
{
    let s = word + rest;
    if k == 0 {
        assert(s.skip(0) == s);
    } else {
        lemma_word_prefix(word, rest, k - 1);
        let here = s.skip(k - 1);
        assert(here[0] == word[k - 1]);
        assert(here.skip(1) == s.skip(k));
    }
}

/// The text of joined fields begins with the first of them.
pub proof fn lemma_joined_first(fields: Seq<Seq<char>>)
    requires
        fields.len() >= 2,
    ensures
        joined(fields) == fields.first() + seq![','] + joined(fields.drop_first()),
    decreases fields.len(),
{
    let front = fields.drop_last();
    let tail = fields.drop_first();
    if fields.len() == 2 {
        assert(front.len() == 1 && tail.len() == 1);
        assert(joined(front) == fields[0]);
        assert(joined(tail) == fields[1]);
    } else {
        lemma_joined_first(front);
        assert(front.drop_first() == tail.drop_last());
        assert(front.first() == fields.first());
        assert(tail.last() == fields.last());
        assert(joined(tail) == joined(tail.drop_last()) + seq![','] + tail.last());
        assert(joined(fields) == fields.first() + seq![','] + joined(tail));
    }
}

/// Where the first field ends before the end of the text, a comma follows it.
pub(crate) proof fn lemma_separator_after_field(s: Seq<char>, inside: bool)
    requires
        field_len(s, inside) < s.len(),
    ensures
        s[field_len(s, inside) as int] == ',',
    decreases s.len(),
{
    if !(s.len() == 0 || (!inside && s[0] == ',')) {
        let rest = s.skip(1);
        lemma_separator_after_field(rest, inside != (s[0] == '"'));
        assert(rest[field_len(rest, inside != (s[0] == '"')) as int] == s[field_len(s, inside) as int]);
    }
}

/// Joined fields hold a line feed only where one of the fields does.
pub proof fn lemma_joined_without_line_feed(fields: Seq<Seq<char>>)
    requires
        forall|i: int, j: int|
            0 <= i < fields.len() && 0 <= j < fields[i].len() ==> #[trigger] fields[i][j]
                != '\n',
    ensures
        forall|j: int| 0 <= j < joined(fields).len() ==> #[trigger] joined(fields)[j] != '\n',
    decreases fields.len(),
{
    if fields.len() >= 2 {
        let front = fields.drop_last();
        assert forall|i: int, j: int|
            0 <= i < front.len() && 0 <= j < front[i].len() implies #[trigger] front[i][j]
            != '\n' by {
            assert(front[i] == fields[i]);
        }
        lemma_joined_without_line_feed(front);
        let text = joined(fields);
        let n = joined(front).len();
        assert forall|j: int| 0 <= j < text.len() implies #[trigger] text[j] != '\n' by {
            if j < n {
                assert(text[j] == joined(front)[j]);
            } else if j == n {
                assert(text[j] == ',');
            } else {
                assert(text[j] == fields.last()[j - n - 1]);
            }
        }
    }
}

/// After words and a comma, the fields are those words and the fields of
/// what follows the comma.
pub proof fn lemma_fields_after_words(words: Seq<Seq<char>>, rest: Seq<char>)
    requires
        words.len() >= 1,
        forall|i: int| 0 <= i < words.len() ==> is_word(#[trigger] words[i]),
    ensures
        fields(joined(words) + seq![','] + rest, false) == words + fields(rest, false),
    decreases words.len(),
{
    if words.len() == 1 {
        lemma_word_is_first_field(words[0], rest);
        assert(words == seq![words[0]]);
    } else {
        let tail = words.drop_first();
        lemma_joined_first(words);
        assert forall|i: int| 0 <= i < tail.len() implies is_word(#[trigger] tail[i]) by {
            assert(tail[i] == words[i + 1]);
        }
        lemma_fields_after_words(tail, rest);
        let more = joined(tail) + seq![','] + rest;
        lemma_word_is_first_field(words[0], more);
        assert(joined(words) + seq![','] + rest == words[0] + seq![','] + more);
        assert(seq![words[0]] + (tail + fields(rest, false)) == words + fields(rest, false));
    }
}

/// The line written for a record holds, before the first line feed of the
/// description, the fields before the description and the fields that the
/// description is read as.
pub proof fn lemma_csv_line_parts(record: YPBankRecordView)
    ensures
        ({
            let words = fields_of_record(record).drop_last();
            let first = joined(words) + seq![','] + before_line_feed(record.description) + seq![
                '\n',
            ];
            &&& is_line(first)
            &&& csv_line(record) == first + after_first_line(record.description)
            &&& trim(first).len() > 0
            &&& split_fields(trim(first)) == words + description_fields(record.description)
        }),
{
    let all = fields_of_record(record);
    let words = all.drop_last();
    let d = record.description;
    let h = before_line_feed(d);
    let start = joined(words) + seq![','];
    let first = start + h + seq!['\n'];
    lemma_written_fields_are_words(record);
    lemma_before_line_feed(d);
    assert forall|i: int| 0 <= i < words.len() implies is_word(#[trigger] words[i]) by {
        assert(words[i] == all[i]);
    }
    assert forall|i: int, j: int|
        0 <= i < words.len() && 0 <= j < words[i].len() implies #[trigger] words[i][j]
        != '\n' by {
        assert(is_word(words[i]));
    }
    lemma_joined_without_line_feed(words);
    assert forall|i: int| 0 <= i < first.len() - 1 implies #[trigger] first[i] != '\n' by {
        if i < joined(words).len() {
            assert(first[i] == joined(words)[i]);
        } else if i == joined(words).len() {
            assert(first[i] == ',');
        } else {
            assert(first[i] == h[i - start.len()]);
        }
    }
    assert(all.last() == d);
    assert(joined(all) == start + d);
    if h.len() < d.len() {
        assert(d == h + seq!['\n'] + d.skip(h.len() as int + 1));
        assert(csv_line(record) == first + after_first_line(d));
    } else {
        assert(d == h);
        assert(csv_line(record) == first + Seq::<char>::empty());
    }
    lemma_joined_first(words);
    assert(is_word(words[0]));
    assert(start[0] == words[0][0]);
    assert(start.last() == ',');
    lemma_trim_after(start, h, seq!['\n']);
    lemma_fields_after_words(words, trim_end(h));
    assert(start + trim_end(h) == joined(words) + seq![','] + trim_end(h));
}

/// The bytes written for a record are read, whatever follows them, as what
/// the fields before the description and the fields that the description is
/// read as make. What is read ends with the first line of the description.
pub proof fn lemma_csv_decode(record: YPBankRecordView, rest: Seq<u8>)
    ensures
        ({
            let written = encode_utf8(csv_line(record)) + rest;
            let (first, used) = YPBankCsvRecordParser::decode_one(written);
            &&& first == read_outcome(
                csv_record_of_fields(
                    fields_of_record(record).drop_last() + description_fields(
                        record.description,
                    ),
                ),
            )
            &&& 0 < used <= written.len()
            &&& written.skip(used as int) == encode_utf8(after_first_line(record.description))
                + rest
        }),
{
    let words = fields_of_record(record).drop_last();
    let first = joined(words) + seq![','] + before_line_feed(record.description) + seq!['\n'];
    let after = after_first_line(record.description);
    let more = encode_utf8(after) + rest;
    let written = encode_utf8(csv_line(record)) + rest;
    lemma_csv_line_parts(record);
    lemma_encode_concat(first, after);
    assert(written == encode_utf8(first) + more);
    lemma_first_line_of_text(first, more);
    lemma_line_len(written);
}

/// A description that comes back from a line as it went in is read as the
/// one field that it is.
pub proof fn lemma_description_fields(description: Seq<char>)
    requires
        is_csv_description(description),
    ensures
        description_fields(description) == seq![description],
        after_first_line(description) == Seq::<char>::empty(),
{
    lemma_before_line_feed(description);
    lemma_trailing_whitespace_is(description, 0);
    assert(description.subrange(0, description.len() as int) == description);
    lemma_one_field(description, false);
}

/// The bytes written for a record whose description comes back as it went
/// in are read, whatever follows them, as what the fields written for the
/// record make, and are used up by that.
pub proof fn lemma_csv_read(record: YPBankRecordView, rest: Seq<u8>)
    requires
        is_csv_description(record.description),
    ensures
        YPBankCsvRecordParser::decode_one(encode_utf8(csv_line(record)) + rest) == (
            read_outcome(record_of_fields(fields_of_record(record))),
            encode_utf8(csv_line(record)).len(),
        ),
        encode_utf8(csv_line(record)).len() > 0,
        (encode_utf8(csv_line(record)) + rest).skip(encode_utf8(csv_line(record)).len() as int)
            == rest,
{
    let written = encode_utf8(csv_line(record)) + rest;
    lemma_csv_decode(record, rest);
    lemma_description_fields(record.description);
    let all = fields_of_record(record);
    assert(all.drop_last() + seq![record.description] == all);
    assert(encode_utf8(Seq::<char>::empty()) + rest == rest);
    let used = YPBankCsvRecordParser::decode_one(written).1;
    assert(written.skip(used as int).len() == written.len() - used);
}

/// The bytes written for a record that is not valid, with a description
/// that is read as one field, are refused: the user id of 0 that the
/// record's type does not allow gives the error.
pub proof fn lemma_csv_refused(record: YPBankRecordView, rest: Seq<u8>)
    requires
        !record.valid(),
        description_fields(record.description).len() == 1,
    ensures
        YPBankCsvRecordParser::decode_one(encode_utf8(csv_line(record)) + rest).0 == Err::<
            Option<YPBankRecordView>,
            ParseErrorView,
        >(ParseErrorView::InvalidUserId(decimal(0), record.transaction_type)),
{
    let read = record.with_description(description_fields(record.description)[0]);
    lemma_csv_decode(record, rest);
    lemma_written_fields_refused(read);
    assert(fields_of_record(record).drop_last() + description_fields(record.description)
        == fields_of_record(read));
}

/// The line that a stream begins with is one line.
pub proof fn lemma_header_is_line()
    ensures
        is_line(TARGET_HEADER@),
{
    reveal_strlit("TX_ID,TX_TYPE,FROM_USER_ID,TO_USER_ID,AMOUNT,TIMESTAMP,STATUS,DESCRIPTION\n");
}

} // verus!
