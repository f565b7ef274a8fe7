//! The encoding in labeled text: one record in eight lines of the form
//! `KEY: VALUE`, in any order, and a blank line after each record.

use crate::decimal::{decimal_string, push_signed_decimal, signed_decimal};
use crate::error::{ParseError, ParseErrorView};
use crate::fields::{
    fields_of_record, lemma_record_of_written_fields, record_from_fields, record_of_fields,
    texts_of,
};
use crate::parser::{Parser, YPBankRecordParser};
use crate::record::{made_record_view, read_outcome, YPBankRecord, YPBankRecordView};
use crate::source::{ByteSource, first_line, lemma_line_len, line_len};
use crate::text::{
    before_line_feed, chars_of, is_whitespace, same_text, string_of_range, trim, trimmed,
};
use crate::txt_lemmas::{
    lemma_blank_line, lemma_collect_fields_len, lemma_lines_of_push, lemma_txt_read,
};
use vstd::prelude::*;
use vstd::string::*;
use vstd::utf8::{encode_utf8, valid_utf8};

verus! {

/// The character that parts a key from its value.
pub const SEP: char = ':';

/// The character that a comment line begins with.
pub const COMMENT_PREFIX: char = '#';

/// The character that ends a line.
pub const NEW_LINE: char = '\n';

/// The keys of the eight fields, in the order in which they are written.
pub open spec fn field_names() -> Seq<Seq<char>> {
    seq![
        "TX_ID"@,
        "TX_TYPE"@,
        "FROM_USER_ID"@,
        "TO_USER_ID"@,
        "AMOUNT"@,
        "TIMESTAMP"@,
        "STATUS"@,
        "DESCRIPTION"@,
    ]
}

/// The key of the field at place `i`.
pub fn field_name(i: usize) -> (name: &'static str)
    requires
        i < 8,
    ensures
        name@ == field_names()[i as int],
{
    if i == 0 {
        "TX_ID"
    } else if i == 1 {
        "TX_TYPE"
    } else if i == 2 {
        "FROM_USER_ID"
    } else if i == 3 {
        "TO_USER_ID"
    } else if i == 4 {
        "AMOUNT"
    } else if i == 5 {
        "TIMESTAMP"
    } else if i == 6 {
        "STATUS"
    } else {
        "DESCRIPTION"
    }
}

/// The place of the first colon in `line`; the length of `line` where it
/// holds none.
pub open spec fn first_colon(line: Seq<char>) -> nat
    decreases line.len(),
{
    if line.len() == 0 || line[0] == ':' {
        0
    } else {
        1 + first_colon(line.skip(1))
    }
}

/// The key and the value of a line: what stands before its first colon and
/// what stands after it, each without the whitespace around it;
/// `InvalidRow` with the line where it holds no colon.
pub open spec fn key_value_of_line(line: Seq<char>) -> Result<
    (Seq<char>, Seq<char>),
    ParseErrorView,
> {
    let colon = first_colon(line);
    if colon >= line.len() {
        Err(ParseErrorView::InvalidRow(line))
    } else {
        Ok((trim(line.subrange(0, colon as int)), trim(line.skip(colon as int + 1))))
    }
}

/// What the lines of `bytes` add to the `count` fields collected in `found`,
/// and how many bytes are used up. Lines are taken until eight fields are
/// collected. A comment line is passed over, a blank line too while no field
/// is collected. A blank line or the end of the bytes after the first field
/// is an error; the end of the bytes before it means that no record is left.
pub open spec fn collect_fields(
    bytes: Seq<u8>,
    found: Map<Seq<char>, Seq<char>>,
    count: nat,
) -> (Result<Option<Map<Seq<char>, Seq<char>>>, ParseErrorView>, nat)
    decreases bytes.len(),
{
    if count >= 8 {
        (Ok(Some(found)), 0)
    } else if bytes.len() == 0 {
        if count == 0 {
            (Ok(None), 0)
        } else {
            (
                Err(
                    ParseErrorView::InconsistentRecord("unexpected end of file while parsing"@),
                ),
                0,
            )
        }
    } else {
        let n = line_len(bytes);
        proof {
            lemma_line_len(bytes);
        }
        match first_line(bytes) {
            Err(error) => (Err(error), n),
            Ok(line) => {
                if line.len() > 0 && line[0] == '#' {
                    after_line(n, collect_fields(bytes.skip(n as int), found, count))
                } else if line == seq!['\n'] {
                    if count == 0 {
                        after_line(n, collect_fields(bytes.skip(n as int), found, count))
                    } else {
                        (
                            Err(
                                ParseErrorView::InconsistentRecord(
                                    "unexpected new line while parsing"@,
                                ),
                            ),
                            n,
                        )
                    }
                } else {
                    match key_value_of_line(line) {
                        Err(error) => (Err(error), n),
                        Ok((key, value)) => after_line(
                            n,
                            collect_fields(
                                bytes.skip(n as int),
                                found.insert(key, value),
                                count + 1,
                            ),
                        ),
                    }
                }
            },
        }
    }
}

/// `outcome` of the lines after a line of `n` bytes, the line counted in.
pub open spec fn after_line<T>(n: nat, outcome: (T, nat)) -> (T, nat) {
    (outcome.0, n + outcome.1)
}

/// The key, among the eight from place `i` on, that comes first of those
/// for which `found` holds no value.
pub open spec fn missing_field(found: Map<Seq<char>, Seq<char>>, i: nat) -> Option<Seq<char>>
    decreases 8 - i,
{
    if i >= 8 {
        None
    } else if !found.contains_key(field_names()[i as int]) {
        Some(field_names()[i as int])
    } else {
        missing_field(found, i + 1)
    }
}

/// The record that the collected fields make; `FieldNotFound` with the first
/// of the eight keys that has no value.
pub open spec fn txt_record_of_values(found: Map<Seq<char>, Seq<char>>) -> Result<
    YPBankRecordView,
    ParseErrorView,
> {
    match missing_field(found, 0) {
        Some(name) => Err(ParseErrorView::FieldNotFound(name)),
        None => record_of_fields(Seq::new(8, |i: int| found[field_names()[i]])),
    }
}

/// The line that gives `value` to `key`.
pub open spec fn labeled_line(key: Seq<char>, value: Seq<char>) -> Seq<char> {
    key + ": "@ + value + seq!['\n']
}

/// The lines that give each value of `pairs` to its key, in the order of
/// `pairs`.
pub open spec fn lines_of(pairs: Seq<(Seq<char>, Seq<char>)>) -> Seq<char>
    decreases pairs.len(),
{
    if pairs.len() == 0 {
        Seq::empty()
    } else {
        labeled_line(pairs[0].0, pairs[0].1) + lines_of(pairs.drop_first())
    }
}

/// The eight fields of `record`, each with its key, in the order in which
/// they are written.
pub open spec fn labeled_fields(record: YPBankRecordView) -> Seq<(Seq<char>, Seq<char>)> {
    Seq::new(8, |i: int| (field_names()[i], fields_of_record(record)[i]))
}

/// The text that stands for `record`: a line for each field, then a blank
/// line.
pub open spec fn txt_text(record: YPBankRecordView) -> Seq<char> {
    lines_of(labeled_fields(record)) + seq!['\n']
}

/// `found` after each value of `pairs` was given to its key, in the order
/// of `pairs`.
pub open spec fn filled(
    found: Map<Seq<char>, Seq<char>>,
    pairs: Seq<(Seq<char>, Seq<char>)>,
) -> Map<Seq<char>, Seq<char>>
    decreases pairs.len(),
{
    if pairs.len() == 0 {
        found
    } else {
        filled(found.insert(pairs[0].0, pairs[0].1), pairs.drop_first())
    }
}

/// The value that is read from the line written for `value`: what `value`
/// holds before its first line feed, without the whitespace around it.
pub open spec fn value_read(value: Seq<char>) -> Seq<char> {
    trim(before_line_feed(value))
}

/// `pairs` as they are read from the lines written for them, where no value
/// holds a line feed.
pub open spec fn pairs_read(pairs: Seq<(Seq<char>, Seq<char>)>) -> Seq<(Seq<char>, Seq<char>)> {
    Seq::new(pairs.len(), |i: int| (pairs[i].0, trim(pairs[i].1)))
}

/// Whether `value` holds no line feed.
pub open spec fn is_one_line(value: Seq<char>) -> bool {
    forall|i: int| 0 <= i < value.len() ==> #[trigger] value[i] != '\n'
}

/// Whether a value comes back from its line as it went in: it holds no line
/// feed and neither starts nor ends with whitespace.
pub open spec fn is_txt_value(value: Seq<char>) -> bool {
    &&& is_one_line(value)
    &&& value.len() > 0 ==> !is_whitespace(value.first()) && !is_whitespace(value.last())
}

/// Whether no key occurs twice in `pairs`.
pub open spec fn distinct_keys(pairs: Seq<(Seq<char>, Seq<char>)>) -> bool {
    forall|i: int, j: int|
        0 <= i < pairs.len() && 0 <= j < pairs.len() && i != j ==> (#[trigger] pairs[i]).0 != (
        #[trigger] pairs[j]).0
}

/// Whether each pair of `a` occurs in `b`.
pub open spec fn each_in(a: Seq<(Seq<char>, Seq<char>)>, b: Seq<(Seq<char>, Seq<char>)>) -> bool {
    forall|i: int| 0 <= i < a.len() ==> exists|j: int| 0 <= j < b.len() && b[j] == #[trigger] a[i]
}

/// The values collected for one record, each under its key. A value given
/// to a key that has one already takes its place.
pub struct RawValues {
    entries: Vec<(String, String)>,
}

/// The values that `entries` leave under their keys, given one after the
/// other.
pub open spec fn values_of_entries(entries: Seq<(String, String)>) -> Map<Seq<char>, Seq<char>>
    decreases entries.len(),
{
    if entries.len() == 0 {
        Map::empty()
    } else {
        values_of_entries(entries.drop_last()).insert(entries.last().0@, entries.last().1@)
    }
}

impl View for RawValues {
    type V = Map<Seq<char>, Seq<char>>;

    closed spec fn view(&self) -> Map<Seq<char>, Seq<char>> {
        values_of_entries(self.entries@)
    }
}

impl RawValues {
    /// No values.
    pub fn new() -> (values: Self)
        ensures
            values@ == Map::<Seq<char>, Seq<char>>::empty(),
    {
        RawValues { entries: Vec::new() }
    }

    /// Gives `value` to `key`.
    pub fn insert(&mut self, key: String, value: String)
        ensures
            final(self)@ == old(self)@.insert(key@, value@),
    {
        let ghost before = self.entries@;
        self.entries.push((key, value));
        assert(self.entries@.drop_last() == before);
    }

    /// The value of `key`, if it has one.
    pub fn get(&self, key: &str) -> (value: Option<String>)
        ensures
            match value {
                Some(v) => self@.contains_key(key@) && self@[key@] == v@,
                None => !self@.contains_key(key@),
            },
    {
        let mut value: Option<String> = None;
        let mut i: usize = 0;
        assert(self.entries@.subrange(0, 0) == Seq::<(String, String)>::empty());
        while i < self.entries.len()
            invariant
                i <= self.entries.len(),
                match value {
                    Some(v) => values_of_entries(self.entries@.subrange(0, i as int)).contains_key(
                        key@,
                    ) && values_of_entries(self.entries@.subrange(0, i as int))[key@] == v@,
                    None => !values_of_entries(self.entries@.subrange(0, i as int)).contains_key(
                        key@,
                    ),
                },
            decreases self.entries.len() - i,
        {
            proof {
                let done = self.entries@.subrange(0, i + 1);
                assert(done.drop_last() == self.entries@.subrange(0, i as int));
                assert(done.last() == self.entries@[i as int]);
            }
            if same_text(self.entries[i].0.as_str(), key) {
                value = Some(self.entries[i].1.clone());
            }
            i += 1;
        }
        assert(self.entries@.subrange(0, i as int) == self.entries@);
        value
    }
}

/// The encoding of single records in labeled text.
pub struct YPBankTxtRecordParser {}

impl YPBankTxtRecordParser {
    /// Collects the fields of the next record from the lines of `r`.
    pub fn parse_raw_values(r: &mut ByteSource) -> (values: Result<Option<RawValues>, ParseError>)
        ensures
            match values {
                Ok(Some(found)) => collect_fields(old(r)@, Map::empty(), 0).0 == Ok::<
                    Option<Map<Seq<char>, Seq<char>>>,
                    ParseErrorView,
                >(Some(found@)),
                Ok(None) => collect_fields(old(r)@, Map::empty(), 0).0 == Ok::<
                    Option<Map<Seq<char>, Seq<char>>>,
                    ParseErrorView,
                >(None),
                Err(error) => collect_fields(old(r)@, Map::empty(), 0).0 == Err::<
                    Option<Map<Seq<char>, Seq<char>>>,
                    ParseErrorView,
                >(error@),
            },
            final(r)@ == old(r)@.skip(collect_fields(old(r)@, Map::empty(), 0).1 as int),
    {
        let mut raw_values = RawValues::new();
        let mut parsed_values: usize = 0;
        let ghost start = r@;
        let ghost mut used: nat = 0;
        assert(start.skip(0) == start);
        while parsed_values < 8
            invariant
                start == old(r)@,
                parsed_values <= 8,
                used <= start.len(),
                r@ == start.skip(used as int),
                collect_fields(start, Map::empty(), 0) == after_line(
                    used,
                    collect_fields(r@, raw_values@, parsed_values as nat),
                ),
            decreases r@.len() + (8 - parsed_values),
        {
            let ghost before = r@;
            proof {
                lemma_line_len(before);
                assert(start.skip(used as int).skip(line_len(before) as int) == start.skip(
                    (used + line_len(before)) as int,
                ));
            }
            let at_end = r.remaining() == 0;
            proof {
                if before.len() == 0 {
                    assert(before.subrange(0, 0) == before);
                    assert(valid_utf8(before));
                }
            }
            let line = match r.read_line() {
                Ok(line) => line,
                Err(error) => {
                    return Err(error);
                },
            };
            if at_end {
                if parsed_values == 0 {
                    return Ok(None);
                }
                return Err(
                    ParseError::InconsistentRecord(
                        String::from_str("unexpected end of file while parsing"),
                    ),
                );
            }
            let chars = chars_of(line.as_str());
            if chars.len() > 0 && chars[0] == COMMENT_PREFIX {
                proof {
                    used = used + line_len(before);
                }
                continue ;
            }
            if chars.len() == 1 && chars[0] == NEW_LINE {
                assert(line@ == seq!['\n']);
                if parsed_values == 0 {
                    proof {
                        used = used + line_len(before);
                    }
                    continue ;
                }
                return Err(
                    ParseError::InconsistentRecord(
                        String::from_str("unexpected new line while parsing"),
                    ),
                );
            }
            assert(line@ != seq!['\n']) by {
                if line@ == seq!['\n'] {
                    assert(chars@.len() == 1);
                }
            }
            let (key, val) = match Self::parse_raw_line(line) {
                Ok(pair) => pair,
                Err(error) => {
                    return Err(error);
                },
            };
            raw_values.insert(key, val);
            parsed_values += 1;
            proof {
                used = used + line_len(before);
            }
        }
        Ok(Some(raw_values))
    }

    /// Makes the record whose fields are collected in `values_map`.
    pub fn from_raw_values(values_map: RawValues) -> (record: Result<YPBankRecord, ParseError>)
        ensures
            made_record_view(record) == txt_record_of_values(values_map@),
    {
        let mut values: Vec<String> = Vec::new();
        let mut i: usize = 0;
        while i < 8
            invariant
                i <= 8,
                values.len() == i,
                missing_field(values_map@, 0) == missing_field(values_map@, i as nat),
                forall|j: int|
                    0 <= j < i ==> #[trigger] values[j]@ == values_map@[field_names()[j]],
            decreases 8 - i,
        {
            let field = field_name(i);
            match values_map.get(field) {
                None => {
                    return Err(ParseError::FieldNotFound(String::from_str(field)));
                },
                Some(value) => {
                    values.push(value);
                },
            }
            i += 1;
        }
        assert(texts_of(values@) == Seq::new(8, |i: int| values_map@[field_names()[i]]));
        record_from_fields(&values)
    }

    /// The key and the value that `line` holds.
    pub fn parse_raw_line(line: String) -> (pair: Result<(String, String), ParseError>)
        ensures
            match pair {
                Ok((key, value)) => key_value_of_line(line@) == Ok::<
                    (Seq<char>, Seq<char>),
                    ParseErrorView,
                >((key@, value@)),
                Err(error) => key_value_of_line(line@) == Err::<
                    (Seq<char>, Seq<char>),
                    ParseErrorView,
                >(error@),
            },
    {
        let chars = chars_of(line.as_str());
        let mut colon: usize = 0;
        assert(chars@.skip(0) == chars@);
        while colon < chars.len() && chars[colon] != SEP
            invariant
                colon <= chars.len(),
                first_colon(chars@) == colon + first_colon(chars@.skip(colon as int)),
            decreases chars.len() - colon,
        {
            assert(chars@.skip(colon as int).skip(1) == chars@.skip(colon + 1));
            colon += 1;
        }
        if colon >= chars.len() {
            return Err(ParseError::InvalidRow(line));
        }
        let key = string_of_range(&chars, 0, colon);
        let value = string_of_range(&chars, colon + 1, chars.len());
        assert(chars@.subrange(colon + 1, chars.len() as int) == chars@.skip(colon + 1));
        Ok((trimmed(key.as_str()), trimmed(value.as_str())))
    }
}

impl YPBankRecordParser for YPBankTxtRecordParser {
    open spec fn decode_one(bytes: Seq<u8>) -> (
        Result<Option<YPBankRecordView>, ParseErrorView>,
        nat,
    ) {
        let (collected, used) = collect_fields(bytes, Map::empty(), 0);
        (
            match collected {
                Ok(Some(found)) => read_outcome(txt_record_of_values(found)),
                Ok(None) => Ok(None),
                Err(error) => Err(error),
            },
            used,
        )
    }

    open spec fn encode_one(record: YPBankRecordView) -> Seq<u8> {
        encode_utf8(txt_text(record))
    }

    open spec fn writable(record: YPBankRecordView) -> bool {
        true
    }

    open spec fn faithful(record: YPBankRecordView) -> bool {
        record.valid() && is_txt_value(record.description)
    }

    proof fn lemma_decode_one_len(bytes: Seq<u8>) {
        lemma_collect_fields_len(bytes, Map::empty(), 0);
    }

    proof fn lemma_decode_nothing() {
    }

    proof fn lemma_read_back(record: YPBankRecordView, rest: Seq<u8>) {
        lemma_txt_read(record, rest);
        lemma_record_of_written_fields(record);
        lemma_blank_line(rest);
    }

    fn from_read(r: &mut ByteSource) -> (record: Result<Option<YPBankRecord>, ParseError>) {
        let raw_values_opt = match Self::parse_raw_values(r) {
            Ok(values) => values,
            Err(error) => {
                return Err(error);
            },
        };
        match raw_values_opt {
            Some(raw_values) => {
                match Self::from_raw_values(raw_values) {
                    Ok(record) => Ok(Some(record)),
                    Err(error) => Err(error),
                }
            },
            None => Ok(None),
        }
    }

    fn write_to(record: &YPBankRecord, w: &mut Vec<u8>) -> (written: Result<(), ParseError>) {
        let mut record_values: Vec<String> = Vec::new();
        record_values.push(decimal_string(record.id));
        record_values.push(String::from_str(record.transaction_type.as_str()));
        record_values.push(decimal_string(record.from_user_id));
        record_values.push(decimal_string(record.to_user_id));
        let mut amount = String::new();
        push_signed_decimal(&mut amount, record.amount);
        assert(amount@ == signed_decimal(record.amount as int));
        record_values.push(amount);
        record_values.push(decimal_string(record.ts));
        record_values.push(String::from_str(record.status.as_str()));
        record_values.push(record.description.clone());
        assert(texts_of(record_values@) == fields_of_record(record@));

        let ghost pairs = labeled_fields(record@);
        let mut result = String::new();
        let mut i: usize = 0;
        assert(pairs.subrange(0, 0) == Seq::<(Seq<char>, Seq<char>)>::empty());
        while i < 8
            invariant
                i <= 8,
                record_values.len() == 8,
                texts_of(record_values@) == fields_of_record(record@),
                pairs == labeled_fields(record@),
                result@ == lines_of(pairs.subrange(0, i as int)),
            decreases 8 - i,
        {
            let ghost before = result@;
            result.append(field_name(i));
            result.append(": ");
            result.append(record_values[i].as_str());
            result.push(NEW_LINE);
            proof {
                assert(texts_of(record_values@)[i as int] == record_values[i as int]@);
                assert(result@ == before + labeled_line(pairs[i as int].0, pairs[i as int].1));
                lemma_lines_of_push(pairs.subrange(0, i as int), pairs[i as int]);
                assert(pairs.subrange(0, i as int).push(pairs[i as int]) == pairs.subrange(
                    0,
                    i + 1,
                ));
            }
            i += 1;
        }
        result.push(NEW_LINE);
        assert(result@ == txt_text(record@)) by {
            assert(pairs.subrange(0, 8) == pairs);
            assert(lines_of(pairs).push('\n') == lines_of(pairs) + seq!['\n']);
        }
        w.extend_from_slice(result.as_str().as_bytes());
        Ok(())
    }
}

/// Whether `key` is the key of one of `pairs`.
pub open spec fn has_key(pairs: Seq<(Seq<char>, Seq<char>)>, key: Seq<char>) -> bool {
    exists|i: int| 0 <= i < pairs.len() && (#[trigger] pairs[i]).0 == key
}

/// The encoding of whole streams in labeled text.
pub struct TxtParser {}

impl Parser<YPBankTxtRecordParser> for TxtParser {
    open spec fn check_prologue(bytes: Seq<u8>) -> (Result<(), ParseErrorView>, nat) {
        (Ok(()), 0)
    }

    open spec fn prologue() -> Seq<u8> {
        Seq::empty()
    }

    proof fn lemma_check_prologue_len(bytes: Seq<u8>) {
    }

    proof fn lemma_prologue_read_back(rest: Seq<u8>) {
    }

    fn pre_read(r: &mut ByteSource) -> (checked: Result<(), ParseError>) {
        assert(r@.skip(0) == r@);
        Ok(())
    }

    fn pre_write(w: &mut Vec<u8>) -> (written: Result<(), ParseError>) {
        assert(w@ + Seq::<u8>::empty() == w@);
        Ok(())
    }
}

} // verus!
