//! The encoding in delimited text: one record a line, its eight fields
//! parted by commas, after a line that names the fields.

use crate::csv_lemmas::{lemma_csv_read, lemma_header_is_line};
use crate::decimal::{
    decimal, decimal_string, push_decimal, push_signed_decimal, signed_decimal,
};
use crate::error::{ParseError, ParseErrorView};
use crate::fields::{
    fields_of_record, lemma_record_of_written_fields, record_from_fields, record_of_fields,
    texts_of,
};
use crate::parser::{Parser, YPBankRecordParser};
use crate::record::{made_record_view, read_outcome, YPBankRecord, YPBankRecordView};
use crate::source::{ByteSource, first_line, lemma_line_len, line_len};
use crate::text::{
    before_line_feed, chars_of, is_whitespace, same_text, string_of_range, trim, trim_end,
    trimmed,
};
use crate::utf8::lemma_first_line_of_text;
use vstd::prelude::*;
use vstd::string::*;
use vstd::utf8::{decode_utf8, encode_utf8};

verus! {

/// The character that parts the fields of a line.
pub const SEP: char = ',';

/// The character that opens and closes a quoted span.
pub const QUOTE: char = '"';

/// The line that a stream begins with.
pub const TARGET_HEADER: &'static str =
    "TX_ID,TX_TYPE,FROM_USER_ID,TO_USER_ID,AMOUNT,TIMESTAMP,STATUS,DESCRIPTION\n";

/// The length of the first field of `s`, where `inside` tells whether a
/// quoted span is open at the start of `s`. The field ends before the first
/// comma outside a quoted span; every quote opens or closes a span.
pub open spec fn field_len(s: Seq<char>, inside: bool) -> nat
    decreases s.len(),
{
    if s.len() == 0 || (!inside && s[0] == ',') {
        0
    } else {
        1 + field_len(s.skip(1), inside != (s[0] == '"'))
    }
}

/// Whether a quoted span is open after the first `n` characters of `s`,
/// where `inside` tells whether one is open at the start of `s`.
pub open spec fn inside_after(s: Seq<char>, n: nat, inside: bool) -> bool
    decreases n,
{
    if n == 0 || s.len() == 0 {
        inside
    } else {
        inside_after(s.skip(1), (n - 1) as nat, inside != (s[0] == '"'))
    }
}

/// The fields of `s`, where `inside` tells whether a quoted span is open at
/// the start of `s`. Quotes stay part of their field, and nothing follows
/// the comma that `s` may end with.
pub open spec fn fields(s: Seq<char>, inside: bool) -> Seq<Seq<char>>
    decreases s.len(),
{
    if s.len() == 0 {
        Seq::empty()
    } else {
        let n = field_len(s, inside);
        if n < s.len() {
            seq![s.subrange(0, n as int)] + fields(s.skip(n as int + 1), inside_after(s, n, inside))
        } else {
            seq![s]
        }
    }
}

/// The fields of a line.
pub open spec fn split_fields(line: Seq<char>) -> Seq<Seq<char>> {
    fields(line, false)
}

/// Splits a line into its fields, one after the other.
pub struct Separator {
    line: Vec<char>,
    index: usize,
    is_inside_quotes: bool,
}

impl View for Separator {
    type V = Seq<Seq<char>>;

    /// The fields that are still to come.
    closed spec fn view(&self) -> Seq<Seq<char>> {
        fields(self.line@.skip(self.index as int), self.is_inside_quotes)
    }
}

impl Separator {
    #[verifier::type_invariant]
    spec fn in_bounds(self) -> bool {
        self.index <= self.line.len()
    }

    /// A separator that has all fields of `line` still to give.
    pub fn new(line: String) -> (separator: Self)
        ensures
            separator@ == split_fields(line@),
    {
        let chars = chars_of(line.as_str());
        assert(chars@.skip(0) == chars@);
        Separator { line: chars, index: 0, is_inside_quotes: false }
    }

    /// The next field, or none where all fields have been given.
    pub fn next(&mut self) -> (field: Option<String>)
        ensures
            old(self)@.len() == 0 ==> field.is_none() && final(self)@ == old(self)@,
            old(self)@.len() > 0 ==> field.is_some() && field.unwrap()@ == old(self)@[0]
                && final(self)@ == old(self)@.skip(1),
    {
        proof {
            use_type_invariant(&*self);
        }
        if self.index >= self.line.len() {
            return None;
        }
        let start: usize = self.index;
        let ghost rest = self.line@.skip(start as int);
        let ghost inside0 = self.is_inside_quotes;
        let mut inside: bool = self.is_inside_quotes;
        let mut i: usize = start;
        let mut found: bool = false;
        while i < self.line.len() && !found
            invariant
                start <= i <= self.line.len(),
                start < self.line.len(),
                rest == self.line@.skip(start as int),
                !found ==> field_len(rest, inside0) == (i - start) + field_len(
                    self.line@.skip(i as int),
                    inside,
                ),
                !found ==> inside_after(rest, field_len(rest, inside0), inside0) == inside_after(
                    self.line@.skip(i as int),
                    field_len(self.line@.skip(i as int), inside),
                    inside,
                ),
                found ==> i < self.line.len() && field_len(rest, inside0) == i - start
                    && inside_after(rest, field_len(rest, inside0), inside0) == inside,
            decreases self.line.len() - i + (if found { 0int } else { 1int }),
        {
            let ch = self.line[i];
            let ghost here = self.line@.skip(i as int);
            assert(here[0] == ch);
            if !inside && ch == SEP {
                found = true;
            } else {
                assert(here.skip(1) == self.line@.skip(i + 1));
                if ch == QUOTE {
                    inside = !inside;
                }
                i += 1;
            }
        }
        let field = string_of_range(&self.line, start, i);
        proof {
            assert(self.line@.subrange(start as int, i as int) == rest.subrange(0, i - start));
            if found {
                assert(rest.skip((i - start) + 1) == self.line@.skip(i + 1));
            } else {
                assert(rest.subrange(0, rest.len() as int) == rest);
                assert(self.line@.skip(self.line.len() as int) == Seq::<char>::empty());
                assert(seq![rest].skip(1) == Seq::<Seq<char>>::empty());
            }
            assert(old(self)@.len() > 0);
            assert(old(self)@[0] == field@);
        }
        if found {
            assert((seq![rest.subrange(0, i - start)] + fields(
                self.line@.skip(i + 1),
                inside,
            )).skip(1) == fields(self.line@.skip(i + 1), inside));
            self.index = i + 1;
        } else {
            self.index = i;
        }
        self.is_inside_quotes = inside;
        Some(field)
    }

    /// All fields that are still to come.
    pub fn collect(self) -> (values: Vec<String>)
        ensures
            texts_of(values@) == self@,
    {
        let mut separator = self;
        let mut values: Vec<String> = Vec::new();
        assert(texts_of(values@) == Seq::<Seq<char>>::empty());
        assert(Seq::<Seq<char>>::empty() + separator@ == separator@);
        loop
            invariant
                self@ == texts_of(values@) + separator@,
            decreases separator@.len(),
        {
            let ghost before = separator@;
            let ghost so_far = texts_of(values@);
            match separator.next() {
                Some(value) => {
                    let ghost text = value@;
                    values.push(value);
                    assert(texts_of(values@) == so_far.push(text));
                    assert(so_far.push(before[0]) + before.skip(1) == so_far + before);
                },
                None => {
                    assert(so_far + Seq::<Seq<char>>::empty() == so_far);
                    return values;
                },
            }
        }
    }
}

/// `fields` one after the other, a comma between each two of them.
pub open spec fn joined(fields: Seq<Seq<char>>) -> Seq<char>
    decreases fields.len(),
{
    if fields.len() == 0 {
        Seq::empty()
    } else if fields.len() == 1 {
        fields[0]
    } else {
        joined(fields.drop_last()) + seq![','] + fields.last()
    }
}

/// The line that stands for `record`: its eight fields with commas between
/// them, and a line feed.
pub open spec fn csv_line(record: YPBankRecordView) -> Seq<char> {
    joined(fields_of_record(record)) + seq!['\n']
}

/// The record that the fields of a line make; `InvalidRow` where they are
/// not eight.
pub open spec fn csv_record_of_fields(fields: Seq<Seq<char>>) -> Result<
    YPBankRecordView,
    ParseErrorView,
> {
    if fields.len() != 8 {
        Err(ParseErrorView::InvalidRow("Expected 8 fields, got "@ + decimal(fields.len())))
    } else {
        record_of_fields(fields)
    }
}

/// What a line holds: no record where it is blank, else the record that its
/// fields make once the whitespace around it is gone.
pub open spec fn csv_record_of_line(line: Seq<char>) -> Result<
    Option<YPBankRecordView>,
    ParseErrorView,
> {
    let text = trim(line);
    if text.len() == 0 {
        Ok(None)
    } else {
        read_outcome(csv_record_of_fields(split_fields(text)))
    }
}

/// The fields that a description is read as from the line written for its
/// record: the fields of what it holds before its first line feed, without
/// the whitespace at the end.
pub open spec fn description_fields(description: Seq<char>) -> Seq<Seq<char>> {
    fields(trim_end(before_line_feed(description)), false)
}

/// Whether a description comes back from a line as it went in: it is not
/// empty, does not end with whitespace, holds no line feed, and holds a
/// comma inside quoted spans only.
pub open spec fn is_csv_description(description: Seq<char>) -> bool {
    &&& description.len() > 0
    &&& !is_whitespace(description.last())
    &&& forall|i: int| 0 <= i < description.len() ==> #[trigger] description[i] != '\n'
    &&& forall|i: int|
        0 <= i < description.len() && #[trigger] description[i] == ',' ==> inside_after(
            description,
            i as nat,
            false,
        )
}

/// The encoding of single records in delimited text.
pub struct YPBankCsvRecordParser {}

impl YPBankCsvRecordParser {
    /// Makes the record whose fields are `raw_values`.
    pub fn from_raw_values(raw_values: Vec<String>) -> (record: Result<YPBankRecord, ParseError>)
        ensures
            made_record_view(record) == csv_record_of_fields(texts_of(raw_values@)),
    {
        if raw_values.len() != 8 {
            let mut message = String::from_str("Expected 8 fields, got ");
            push_decimal(&mut message, raw_values.len() as u64);
            return Err(ParseError::InvalidRow(message));
        }
        record_from_fields(&raw_values)
    }
}

impl YPBankRecordParser for YPBankCsvRecordParser {
    open spec fn decode_one(bytes: Seq<u8>) -> (
        Result<Option<YPBankRecordView>, ParseErrorView>,
        nat,
    ) {
        (
            match first_line(bytes) {
                Ok(line) => csv_record_of_line(line),
                Err(error) => Err(error),
            },
            line_len(bytes),
        )
    }

    open spec fn encode_one(record: YPBankRecordView) -> Seq<u8> {
        encode_utf8(csv_line(record))
    }

    open spec fn writable(record: YPBankRecordView) -> bool {
        true
    }

    open spec fn faithful(record: YPBankRecordView) -> bool {
        record.valid() && is_csv_description(record.description)
    }

    proof fn lemma_decode_one_len(bytes: Seq<u8>) {
        lemma_line_len(bytes);
        if bytes.len() == 0 {
            Self::lemma_decode_nothing();
        }
    }

    proof fn lemma_decode_nothing() {
        let bytes = Seq::<u8>::empty();
        assert(bytes.subrange(0, 0) == bytes);
        assert(decode_utf8(bytes) == Seq::<char>::empty());
    }

    proof fn lemma_read_back(record: YPBankRecordView, rest: Seq<u8>) {
        lemma_csv_read(record, rest);
        lemma_record_of_written_fields(record);
    }

    fn from_read(r: &mut ByteSource) -> (record: Result<Option<YPBankRecord>, ParseError>) {
        let line = match r.read_line() {
            Ok(line) => line,
            Err(error) => {
                return Err(error);
            },
        };
        let text = trimmed(line.as_str());
        if text.as_str().is_empty() {
            return Ok(None);
        }
        let values = Separator::new(text).collect();
        match Self::from_raw_values(values) {
            Ok(record) => Ok(Some(record)),
            Err(error) => Err(error),
        }
    }

    fn write_to(record: &YPBankRecord, w: &mut Vec<u8>) -> (written: Result<(), ParseError>) {
        let mut values: Vec<String> = Vec::new();
        values.push(decimal_string(record.id));
        values.push(String::from_str(record.transaction_type.as_str()));
        values.push(decimal_string(record.from_user_id));
        values.push(decimal_string(record.to_user_id));
        let mut amount = String::new();
        push_signed_decimal(&mut amount, record.amount);
        assert(amount@ == signed_decimal(record.amount as int));
        values.push(amount);
        values.push(decimal_string(record.ts));
        values.push(String::from_str(record.status.as_str()));
        values.push(record.description.clone());
        assert(texts_of(values@) == fields_of_record(record@));
        let mut line = join_fields(&values);
        line.push('\n');
        assert(line@ == csv_line(record@)) by {
            let body = joined(fields_of_record(record@));
            assert(body.push('\n') == body + seq!['\n']);
        }
        w.extend_from_slice(line.as_str().as_bytes());
        Ok(())
    }
}

/// `values` one after the other, a comma between each two of them.
pub fn join_fields(values: &Vec<String>) -> (line: String)
    ensures
        line@ == joined(texts_of(values@)),
{
    let mut line = String::new();
    let mut i: usize = 0;
    while i < values.len()
        invariant
            i <= values.len(),
            line@ == joined(texts_of(values@).subrange(0, i as int)),
        decreases values.len() - i,
    {
        if i > 0 {
            line.push(SEP);
        }
        line.append(values[i].as_str());
        proof {
            let texts = texts_of(values@);
            let done = texts.subrange(0, i + 1);
            assert(done.drop_last() == texts.subrange(0, i as int));
            assert(done.last() == values[i as int]@);
            if i == 0 {
                assert(Seq::<char>::empty() + values[i as int]@ == values[i as int]@);
            }
        }
        i += 1;
    }
    assert(texts_of(values@).subrange(0, i as int) == texts_of(values@));
    line
}

/// The encoding of whole streams in delimited text.
pub struct CsvParser {}

impl Parser<YPBankCsvRecordParser> for CsvParser {
    open spec fn check_prologue(bytes: Seq<u8>) -> (Result<(), ParseErrorView>, nat) {
        (
            match first_line(bytes) {
                Ok(line) => if line == TARGET_HEADER@ {
                    Ok(())
                } else {
                    Err(ParseErrorView::InvalidCsvHeader(line))
                },
                Err(error) => Err(error),
            },
            line_len(bytes),
        )
    }

    open spec fn prologue() -> Seq<u8> {
        encode_utf8(TARGET_HEADER@)
    }

    proof fn lemma_check_prologue_len(bytes: Seq<u8>) {
        lemma_line_len(bytes);
    }

    proof fn lemma_prologue_read_back(rest: Seq<u8>) {
        lemma_header_is_line();
        lemma_first_line_of_text(TARGET_HEADER@, rest);
    }

    fn pre_read(r: &mut ByteSource) -> (checked: Result<(), ParseError>) {
        let line = match r.read_line() {
            Ok(line) => line,
            Err(error) => {
                return Err(error);
            },
        };
        if !same_text(line.as_str(), TARGET_HEADER) {
            return Err(ParseError::InvalidCsvHeader(line));
        }
        Ok(())
    }

    fn pre_write(w: &mut Vec<u8>) -> (written: Result<(), ParseError>) {
        w.extend_from_slice(TARGET_HEADER.as_bytes());
        Ok(())
    }
}

} // verus!
