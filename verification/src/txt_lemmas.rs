//! Why records written in labeled text are read back as they were.

use crate::error::ParseErrorView;
use crate::parser::YPBankRecordParser;
use crate::fields::{fields_of_record, is_word, lemma_written_fields_are_words, record_of_fields};
use crate::record::{read_outcome, YPBankRecordView};
use crate::source::{first_line, lemma_line_len, line_len};
use crate::text::{
    after_first_line, before_line_feed, lemma_before_line_feed, lemma_trim_padded,
    lemma_trim_unchanged, trim,
};
use crate::txt_format::{
    collect_fields, distinct_keys, field_names, filled, first_colon, has_key, is_one_line,
    is_txt_value, key_value_of_line, labeled_fields, labeled_line, lines_of, missing_field,
    pairs_read, txt_text, value_read, YPBankTxtRecordParser,
};
use crate::utf8::{is_line, lemma_encode_concat, lemma_encode_line_feed, lemma_first_line_of_text};
use vstd::prelude::*;
use vstd::string::*;
use vstd::utf8::encode_utf8;

verus! {

/// Collecting fields uses up no more bytes than there are, and at least one
/// where eight fields are still to be collected and are.
pub proof fn lemma_collect_fields_len(
    bytes: Seq<u8>,
    found: Map<Seq<char>, Seq<char>>,
    count: nat,
)
    ensures
        collect_fields(bytes, found, count).1 <= bytes.len(),
        count < 8 && (collect_fields(bytes, found, count).0 matches Ok(Some(_)))
            ==> collect_fields(bytes, found, count).1 > 0,
    decreases bytes.len(),
{
    if count < 8 && bytes.len() > 0 {
        let n = line_len(bytes);
        lemma_line_len(bytes);
        match first_line(bytes) {
            Err(_) => {},
            Ok(line) => {
                lemma_collect_fields_len(bytes.skip(n as int), found, count);
                match key_value_of_line(line) {
                    Err(_) => {},
                    Ok((key, value)) => {
                        lemma_collect_fields_len(
                            bytes.skip(n as int),
                            found.insert(key, value),
                            count + 1,
                        );
                    },
                }
            },
        }
    }
}

/// The lines of pairs followed by one more pair are the lines of the pairs
/// followed by the line of that pair.
pub proof fn lemma_lines_of_push(pairs: Seq<(Seq<char>, Seq<char>)>, pair: (Seq<char>, Seq<char>))
    ensures
        lines_of(pairs.push(pair)) == lines_of(pairs) + labeled_line(pair.0, pair.1),
    decreases pairs.len(),
{
    let longer = pairs.push(pair);
    assert(lines_of(Seq::empty()) == Seq::<char>::empty());
    if pairs.len() == 0 {
        assert(longer[0] == pair);
        assert(longer.drop_first() == Seq::<(Seq<char>, Seq<char>)>::empty());
        assert(lines_of(longer) == labeled_line(pair.0, pair.1) + Seq::<char>::empty());
        assert(lines_of(pairs) + labeled_line(pair.0, pair.1) == labeled_line(pair.0, pair.1)
            + Seq::<char>::empty());
    } else {
        lemma_lines_of_push(pairs.drop_first(), pair);
        assert(longer.drop_first() == pairs.drop_first().push(pair));
        assert(longer[0] == pairs[0]);
        let first = labeled_line(pairs[0].0, pairs[0].1);
        assert(first + (lines_of(pairs.drop_first()) + labeled_line(pair.0, pair.1)) == (first
            + lines_of(pairs.drop_first())) + labeled_line(pair.0, pair.1));
    }
}

/// The line that gives a value without line feed to a key that is a word
/// is one line, no comment and not blank, and holds that key and the value
/// without the whitespace around it.
pub proof fn lemma_labeled_line(key: Seq<char>, value: Seq<char>)
    requires
        is_word(key),
        is_one_line(value),
    ensures
        is_line(labeled_line(key, value)),
        labeled_line(key, value)[0] != '#',
        labeled_line(key, value) != seq!['\n'],
        key_value_of_line(labeled_line(key, value)) == Ok::<
            (Seq<char>, Seq<char>),
            ParseErrorView,
        >((key, trim(value))),
{
    reveal_strlit(": ");
    let line = labeled_line(key, value);
    let after = ": "@ + value + seq!['\n'];
    assert(line == key + after);
    assert(line[0] == key[0]);
    assert forall|i: int| 0 <= i < line.len() - 1 implies #[trigger] line[i] != '\n' by {
        if i < key.len() {
            assert(line[i] == key[i]);
        } else if i < key.len() + 2 {
            assert(line[i] == ": "@[i - key.len()]);
        } else {
            assert(line[i] == value[i - key.len() - 2]);
        }
    }
    lemma_colon_after_word(key, after, key.len() as int);
    assert((key + after).skip(key.len() as int) == after);
    assert(after[0] == ':');
    assert(first_colon(line) == key.len());
    assert(line.subrange(0, key.len() as int) == key);
    lemma_trim_unchanged(key);
    let tail = line.skip(key.len() as int + 1);
    assert(tail == seq![' '] + value + seq!['\n']);
    lemma_trim_padded(seq![' '], value, seq!['\n']);
}

/// A value that comes back from its line as it went in is read as itself.
pub proof fn lemma_value_read(value: Seq<char>)
    requires
        is_txt_value(value),
    ensures
        trim(value) == value,
        value_read(value) == value,
{
    lemma_trim_unchanged(value);
    lemma_before_line_feed(value);
}

/// Looking for the first colon passes over the characters of a word.
pub(crate) proof fn lemma_colon_after_word(word: Seq<char>, rest: Seq<char>, k: int)
    requires
        is_word(word),
        0 <= k <= word.len(),
    ensures
        first_colon(word + rest) == k + first_colon((word + rest).skip(k)),
    decreases k,
{
    let s = word + rest;
    if k == 0 {
        assert(s.skip(0) == s);
    } else {
        lemma_colon_after_word(word, rest, k - 1);
        let here = s.skip(k - 1);
        assert(here[0] == word[k - 1]);
        assert(here.skip(1) == s.skip(k));
    }
}

/// The lines of pairs whose keys are words and whose values hold no line
/// feed, as many as are still to be collected, are collected as those pairs
/// with their values trimmed, whatever follows them.
pub proof fn lemma_collect_lines(
    pairs: Seq<(Seq<char>, Seq<char>)>,
    found: Map<Seq<char>, Seq<char>>,
    count: nat,
    rest: Seq<u8>,
)
    requires
        count + pairs.len() == 8,
        forall|i: int| 0 <= i < pairs.len() ==> is_word((#[trigger] pairs[i]).0),
        forall|i: int| 0 <= i < pairs.len() ==> is_one_line((#[trigger] pairs[i]).1),
    ensures
        collect_fields(encode_utf8(lines_of(pairs)) + rest, found, count) == (
            Ok::<Option<Map<Seq<char>, Seq<char>>>, ParseErrorView>(
                Some(filled(found, pairs_read(pairs))),
            ),
            encode_utf8(lines_of(pairs)).len(),
        ),
    decreases pairs.len(),
{
    if pairs.len() == 0 {
        assert(encode_utf8(lines_of(pairs)) == Seq::<u8>::empty());
        assert(pairs_read(pairs) == Seq::<(Seq<char>, Seq<char>)>::empty());
    } else {
        let line = labeled_line(pairs[0].0, pairs[0].1);
        let tail = pairs.drop_first();
        let more = encode_utf8(lines_of(tail)) + rest;
        let bytes = encode_utf8(lines_of(pairs)) + rest;
        assert(is_word(pairs[0].0));
        assert(is_one_line(pairs[0].1));
        lemma_labeled_line(pairs[0].0, pairs[0].1);
        lemma_encode_concat(line, lines_of(tail));
        assert(bytes == encode_utf8(line) + more);
        lemma_first_line_of_text(line, more);
        assert forall|i: int| 0 <= i < tail.len() implies is_word((#[trigger] tail[i]).0) by {
            assert(tail[i] == pairs[i + 1]);
        }
        assert forall|i: int| 0 <= i < tail.len() implies is_one_line((#[trigger] tail[i]).1) by {
            assert(tail[i] == pairs[i + 1]);
        }
        lemma_collect_lines(tail, found.insert(pairs[0].0, trim(pairs[0].1)), count + 1, rest);
        assert(pairs_read(pairs).drop_first() == pairs_read(tail));
        assert(pairs_read(pairs)[0] == (pairs[0].0, trim(pairs[0].1)));
        assert(bytes.len() > 0);
    }
}

/// What is collected holds a key where it was there before or is the key of
/// one of the pairs, and holds under the key of a pair that pair's value
/// where no key occurs twice.
pub proof fn lemma_filled(found: Map<Seq<char>, Seq<char>>, pairs: Seq<(Seq<char>, Seq<char>)>)
    ensures
        forall|key: Seq<char>|
            #[trigger] filled(found, pairs).contains_key(key) <==> (found.contains_key(key)
                || has_key(pairs, key)),
        distinct_keys(pairs) ==> forall|i: int|
            0 <= i < pairs.len() ==> filled(found, pairs).contains_key((#[trigger] pairs[i]).0)
                && filled(found, pairs)[pairs[i].0] == pairs[i].1,
    decreases pairs.len(),
{
    if pairs.len() > 0 {
        let tail = pairs.drop_first();
        let next = found.insert(pairs[0].0, pairs[0].1);
        lemma_filled(next, tail);
        assert forall|key: Seq<char>| #[trigger]
            filled(found, pairs).contains_key(key) <==> (found.contains_key(key) || has_key(
                pairs,
                key,
            )) by {
            assert(filled(found, pairs) == filled(next, tail));
            assert(filled(next, tail).contains_key(key) <==> (next.contains_key(key) || has_key(
                tail,
                key,
            )));
            assert(next.contains_key(key) <==> (found.contains_key(key) || key == pairs[0].0));
            if has_key(tail, key) {
                let i = choose|i: int| 0 <= i < tail.len() && (#[trigger] tail[i]).0 == key;
                assert(tail[i] == pairs[i + 1]);
                assert(pairs[i + 1].0 == key);
                assert(has_key(pairs, key));
            }
            if key == pairs[0].0 {
                assert(pairs[0].0 == key);
                assert(has_key(pairs, key));
            }
            if has_key(pairs, key) {
                let i = choose|i: int| 0 <= i < pairs.len() && (#[trigger] pairs[i]).0 == key;
                if i > 0 {
                    assert(tail[i - 1] == pairs[i]);
                    assert(tail[i - 1].0 == key);
                    assert(has_key(tail, key));
                }
            }
        }
        if distinct_keys(pairs) {
            assert forall|i: int, j: int|
                0 <= i < tail.len() && 0 <= j < tail.len() && i != j implies (#[trigger] tail[i]).0
                != (#[trigger] tail[j]).0 by {
                assert(tail[i] == pairs[i + 1]);
                assert(tail[j] == pairs[j + 1]);
            }
            assert forall|j: int| 0 <= j < tail.len() implies (#[trigger] tail[j]).0
                != pairs[0].0 by {
                assert(tail[j] == pairs[j + 1]);
            }
            lemma_filled_keeps(next, tail, pairs[0].0);
            assert forall|i: int| 0 <= i < pairs.len() implies filled(found, pairs).contains_key(
                (#[trigger] pairs[i]).0,
            ) && filled(found, pairs)[pairs[i].0] == pairs[i].1 by {
                if i > 0 {
                    assert(tail[i - 1] == pairs[i]);
                } else {
                    assert(has_key(pairs, pairs[0].0));
                }
            }
        }
    }
}

/// A key that is the key of none of the pairs keeps its value.
pub proof fn lemma_filled_keeps(
    found: Map<Seq<char>, Seq<char>>,
    pairs: Seq<(Seq<char>, Seq<char>)>,
    key: Seq<char>,
)
    requires
        found.contains_key(key),
        forall|i: int| 0 <= i < pairs.len() ==> (#[trigger] pairs[i]).0 != key,
    ensures
        filled(found, pairs)[key] == found[key],
    decreases pairs.len(),
{
    if pairs.len() > 0 {
        let tail = pairs.drop_first();
        assert(pairs[0].0 != key);
        assert forall|i: int| 0 <= i < tail.len() implies (#[trigger] tail[i]).0 != key by {
            assert(tail[i] == pairs[i + 1]);
        }
        lemma_filled_keeps(found.insert(pairs[0].0, pairs[0].1), tail, key);
    }
}

/// The keys of the eight fields are words, and no two of them are the same.
pub proof fn lemma_field_names()
    ensures
        forall|i: int| 0 <= i < 8 ==> is_word(#[trigger] field_names()[i]),
        forall|i: int, j: int|
            0 <= i < 8 && 0 <= j < 8 && i != j ==> #[trigger] field_names()[i]
                != #[trigger] field_names()[j],
{
    reveal_strlit("TX_ID");
    reveal_strlit("TX_TYPE");
    reveal_strlit("FROM_USER_ID");
    reveal_strlit("TO_USER_ID");
    reveal_strlit("AMOUNT");
    reveal_strlit("TIMESTAMP");
    reveal_strlit("STATUS");
    reveal_strlit("DESCRIPTION");
    let names = field_names();
    assert(is_word(names[0]));
    assert(is_word(names[1]));
    assert(is_word(names[2]));
    assert(is_word(names[3]));
    assert(is_word(names[4]));
    assert(is_word(names[5]));
    assert(is_word(names[6]));
    assert(is_word(names[7]));
    assert(names[4][0] != names[6][0]);
}

/// The fields written for a record have words for keys, no key twice, and
/// words for values, but for the description.
pub proof fn lemma_labeled_fields(record: YPBankRecordView)
    ensures
        labeled_fields(record).len() == 8,
        distinct_keys(labeled_fields(record)),
        forall|i: int| 0 <= i < 8 ==> is_word((#[trigger] labeled_fields(record)[i]).0),
        forall|i: int| 0 <= i < 7 ==> is_word((#[trigger] labeled_fields(record)[i]).1),
        labeled_fields(record)[7].1 == record.description,
{
    lemma_field_names();
    lemma_written_fields_are_words(record);
    let pairs = labeled_fields(record);
    let values = fields_of_record(record);
    assert forall|i: int| 0 <= i < 7 implies is_word((#[trigger] pairs[i]).1) by {
        assert(is_word(values[i]));
    }
    assert forall|i: int| 0 <= i < 8 implies is_word((#[trigger] pairs[i]).0) by {
        assert(is_word(field_names()[i]));
    }
}

/// What is collected from the fields written for a record holds each field
/// under its key.
pub proof fn lemma_filled_fields(record: YPBankRecordView)
    ensures
        missing_field(filled(Map::empty(), labeled_fields(record)), 0) is None,
        Seq::new(8, |i: int| filled(Map::empty(), labeled_fields(record))[field_names()[i]])
            == fields_of_record(record),
{
    let pairs = labeled_fields(record);
    let found = filled(Map::empty(), pairs);
    lemma_labeled_fields(record);
    lemma_filled(Map::empty(), pairs);
    assert forall|i: int| 0 <= i < 8 implies found.contains_key(#[trigger] field_names()[i])
        && found[field_names()[i]] == fields_of_record(record)[i] by {
        assert(pairs[i].0 == field_names()[i]);
        assert(pairs[i].1 == fields_of_record(record)[i]);
        assert(found.contains_key(pairs[i].0) && found[pairs[i].0] == pairs[i].1);
    }
    lemma_nothing_missing(found, 0);
    assert(Seq::new(8, |i: int| found[field_names()[i]]) == fields_of_record(record));
}

/// The text written for a record is the lines of its fields, the
/// description cut before its first line feed, and after them what is left
/// of the description and the blank line.
pub proof fn lemma_txt_text_parts(record: YPBankRecordView)
    ensures
        txt_text(record) == lines_of(
            labeled_fields(record.with_description(before_line_feed(record.description))),
        ) + after_first_line(record.description) + seq!['\n'],
{
    let d = record.description;
    let h = before_line_feed(d);
    let cut = record.with_description(h);
    let front = labeled_fields(record).drop_last();
    let key = field_names()[7];
    lemma_before_line_feed(d);
    assert(labeled_fields(record) == front.push((key, d)));
    assert(labeled_fields(cut) == front.push((key, h)));
    lemma_lines_of_push(front, (key, d));
    lemma_lines_of_push(front, (key, h));
    if h.len() < d.len() {
        assert(d == h + seq!['\n'] + d.skip(h.len() as int + 1));
        assert(labeled_line(key, d) == labeled_line(key, h) + (d.skip(h.len() as int + 1) + seq![
            '\n',
        ]));
    } else {
        assert(d == h);
        assert(labeled_line(key, d) == labeled_line(key, h) + Seq::<char>::empty());
    }
    assert(lines_of(front) + (labeled_line(key, h) + after_first_line(d)) == lines_of(front)
        + labeled_line(key, h) + after_first_line(d));
}

/// The bytes written for a record are read, whatever follows them, as what
/// its fields make, the description as it is read from its line. What is
/// read ends with the first line of the description.
pub proof fn lemma_txt_decode(record: YPBankRecordView, rest: Seq<u8>)
    ensures
        ({
            let written = encode_utf8(txt_text(record)) + rest;
            let (first, used) = YPBankTxtRecordParser::decode_one(written);
            &&& first == read_outcome(
                record_of_fields(
                    fields_of_record(record.with_description(value_read(record.description))),
                ),
            )
            &&& 0 < used <= written.len()
            &&& written.skip(used as int) == encode_utf8(
                after_first_line(record.description) + seq!['\n'],
            ) + rest
        }),
{
    let d = record.description;
    let cut = record.with_description(before_line_feed(d));
    let read = record.with_description(value_read(d));
    let pairs = labeled_fields(cut);
    let lines = lines_of(pairs);
    let after = after_first_line(d) + seq!['\n'];
    let more = encode_utf8(after) + rest;
    let written = encode_utf8(txt_text(record)) + rest;
    lemma_txt_text_parts(record);
    assert(txt_text(record) == lines + after);
    lemma_encode_concat(lines, after);
    assert(written == encode_utf8(lines) + more);
    lemma_labeled_fields(cut);
    lemma_before_line_feed(d);
    assert forall|i: int| 0 <= i < 8 implies is_one_line((#[trigger] pairs[i]).1) by {
        if i < 7 {
            assert(is_word(pairs[i].1));
        }
    }
    lemma_collect_lines(pairs, Map::empty(), 0, more);
    assert(pairs_read(pairs) == labeled_fields(read)) by {
        lemma_written_fields_are_words(record);
        assert forall|i: int| 0 <= i < 8 implies #[trigger] pairs_read(pairs)[i] == labeled_fields(
            read,
        )[i] by {
            if i < 7 {
                assert(is_word(fields_of_record(record)[i]));
                lemma_trim_unchanged(fields_of_record(record)[i]);
            }
        }
    }
    lemma_filled_fields(read);
    lemma_lines_of_len(pairs);
    assert(written.skip(encode_utf8(lines).len() as int) == more);
}

/// The bytes written for a record whose description comes back as it went
/// in are read, whatever follows them, as what the fields written for the
/// record make. The blank line after the record is left to the next read.
pub proof fn lemma_txt_read(record: YPBankRecordView, rest: Seq<u8>)
    requires
        is_txt_value(record.description),
    ensures
        ({
            let written = encode_utf8(txt_text(record)) + rest;
            let (first, used) = YPBankTxtRecordParser::decode_one(written);
            &&& first == read_outcome(record_of_fields(fields_of_record(record)))
            &&& 0 < used <= written.len()
            &&& written.skip(used as int) == seq![0x0au8] + rest
        }),
{
    lemma_txt_decode(record, rest);
    lemma_value_read(record.description);
    lemma_before_line_feed(record.description);
    lemma_encode_line_feed();
    assert(record.with_description(record.description) == record);
    assert(after_first_line(record.description) + seq!['\n'] == seq!['\n']);
}

/// No key is missing where each of the eight keys has a value.
pub proof fn lemma_nothing_missing(found: Map<Seq<char>, Seq<char>>, i: nat)
    requires
        forall|j: int| 0 <= j < 8 ==> found.contains_key(#[trigger] field_names()[j]),
    ensures
        missing_field(found, i) is None,
    decreases 8 - i,
{
    if i < 8 {
        assert(found.contains_key(field_names()[i as int]));
        lemma_nothing_missing(found, i + 1);
    }
}

/// The lines of pairs are not empty where there are pairs.
pub proof fn lemma_lines_of_len(pairs: Seq<(Seq<char>, Seq<char>)>)
    requires
        pairs.len() > 0,
    ensures
        encode_utf8(lines_of(pairs)).len() > 0,
{
    let line = labeled_line(pairs[0].0, pairs[0].1);
    lemma_encode_concat(line, lines_of(pairs.drop_first()));
    assert(line.len() > 0);
    assert(encode_utf8(line) == vstd::utf8::encode_scalar(line[0] as u32) + encode_utf8(
        line.drop_first(),
    ));
    crate::utf8::lemma_encode_scalar_line_feed(line[0]);
}

/// A blank line before a record is passed over: the read goes on as if it
/// began after the line.
pub proof fn lemma_blank_line(rest: Seq<u8>)
    ensures
        ({
            let blank = seq![0x0au8] + rest;
            &&& YPBankTxtRecordParser::decode_one(blank).0 == YPBankTxtRecordParser::decode_one(
                rest,
            ).0
            &&& YPBankTxtRecordParser::decode_one(blank).1 == 1
                + YPBankTxtRecordParser::decode_one(rest).1
            &&& blank.skip(YPBankTxtRecordParser::decode_one(blank).1 as int) == rest.skip(
                YPBankTxtRecordParser::decode_one(rest).1 as int,
            )
        }),
{
    let blank = seq![0x0au8] + rest;
    let line = seq!['\n'];
    lemma_encode_line_feed();
    lemma_first_line_of_text(line, rest);
    lemma_collect_fields_len(rest, Map::empty(), 0);
    assert(blank.skip(1) == rest);
    assert(blank.skip(1 + YPBankTxtRecordParser::decode_one(rest).1 as int) == rest.skip(
        YPBankTxtRecordParser::decode_one(rest).1 as int,
    ));
}

} // verus!
