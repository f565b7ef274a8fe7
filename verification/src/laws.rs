//! What holds of the three encodings together.

use crate::bin_format::{record_of_body, record_size, BinParser, YPBankBinRecordParser};
use crate::bin_lemmas::lemma_frame_refused;
use crate::common::{
    parse_format, parse_scalar, parse_transaction_type, transaction_type_of_code, Format,
    TransactionType,
};
use crate::csv_format::{
    description_fields, field_len, fields, inside_after, is_csv_description, joined, CsvParser,
    YPBankCsvRecordParser, TARGET_HEADER,
};
use crate::csv_lemmas::{lemma_csv_refused, lemma_joined_first, lemma_separator_after_field};
use crate::decimal::decimal;
use crate::error::ParseErrorView;
use crate::fields::{is_word, lemma_written_fields_refused, record_of_fields};
use crate::parser::{lemma_stream_round_trip, Parser, YPBankRecordParser};
use crate::record::YPBankRecordView;
use crate::source::{first_line, line_len, u64_of_be};
use crate::text::{
    ascii_lower, is_whitespace, leading_whitespace, lemma_leading_whitespace,
    lemma_trailing_whitespace, trailing_whitespace, trim,
};
use crate::txt_format::{
    distinct_keys, each_in, filled, has_key, is_one_line, is_txt_value, lines_of, pairs_read,
    value_read, TxtParser, YPBankTxtRecordParser,
};
use crate::txt_lemmas::{lemma_collect_lines, lemma_filled, lemma_txt_decode};
use crate::{read_all, write_all};
use vstd::prelude::*;
use vstd::utf8::encode_utf8;

verus! {

/// Whether `description` comes back from `format` as it went in. Delimited
/// text loses a description that is empty, ends with whitespace, or holds a
/// line feed or a comma outside quoted spans; labeled text loses one that
/// starts or ends with whitespace or holds a line feed; a binary frame has
/// no room for one of 4 GiB.
pub open spec fn keeps_description(format: Format, description: Seq<char>) -> bool {
    match format {
        Format::Csv => is_csv_description(description),
        Format::Txt => is_txt_value(description),
        Format::Bin => record_size(description) <= u32::MAX,
    }
}

/// Whether `record` is read back from `format` as it was written: it is
/// valid, and its description comes back as it went in.
pub open spec fn faithful(format: Format, record: YPBankRecordView) -> bool {
    record.valid() && keeps_description(format, record.description)
}

/// What one read in `format` makes of `bytes`.
pub open spec fn decode_one(format: Format, bytes: Seq<u8>) -> Result<
    Option<YPBankRecordView>,
    ParseErrorView,
> {
    match format {
        Format::Csv => YPBankCsvRecordParser::decode_one(bytes).0,
        Format::Txt => YPBankTxtRecordParser::decode_one(bytes).0,
        Format::Bin => YPBankBinRecordParser::decode_one(bytes).0,
    }
}

/// The bytes that stand for `record` in `format`.
pub open spec fn encode_one(format: Format, record: YPBankRecordView) -> Seq<u8> {
    match format {
        Format::Csv => YPBankCsvRecordParser::encode_one(record),
        Format::Txt => YPBankTxtRecordParser::encode_one(record),
        Format::Bin => YPBankBinRecordParser::encode_one(record),
    }
}

/// Records that are written to a stream and read from it again are as they
/// were, in every format: the same records in the same order, field for
/// field.
pub proof fn lemma_round_trip(format: Format, records: Seq<YPBankRecordView>)
    requires
        forall|i: int| 0 <= i < records.len() ==> faithful(format, #[trigger] records[i]),
    ensures
        read_all(format, write_all(format, records)).0 == Ok::<
            Seq<YPBankRecordView>,
            ParseErrorView,
        >(records),
{
    match format {
        Format::Csv => {
            assert forall|i: int| 0 <= i < records.len() implies YPBankCsvRecordParser::faithful(
                #[trigger] records[i],
            ) by {
                assert(faithful(format, records[i]));
            }
            lemma_stream_round_trip::<YPBankCsvRecordParser, CsvParser>(records);
        },
        Format::Txt => {
            assert forall|i: int| 0 <= i < records.len() implies YPBankTxtRecordParser::faithful(
                #[trigger] records[i],
            ) by {
                assert(faithful(format, records[i]));
            }
            lemma_stream_round_trip::<YPBankTxtRecordParser, TxtParser>(records);
        },
        Format::Bin => {
            assert forall|i: int| 0 <= i < records.len() implies YPBankBinRecordParser::faithful(
                #[trigger] records[i],
            ) by {
                assert(faithful(format, records[i]));
            }
            lemma_stream_round_trip::<YPBankBinRecordParser, BinParser>(records);
        },
    }
}

/// The same records written in two formats are read from both as the same
/// records.
pub proof fn lemma_formats_agree(a: Format, b: Format, records: Seq<YPBankRecordView>)
    requires
        forall|i: int| 0 <= i < records.len() ==> faithful(a, #[trigger] records[i]),
        forall|i: int| 0 <= i < records.len() ==> faithful(b, #[trigger] records[i]),
    ensures
        read_all(a, write_all(a, records)).0 == read_all(b, write_all(b, records)).0,
{
    lemma_round_trip(a, records);
    lemma_round_trip(b, records);
}

/// Whether a record with `description`, written in `format`, is read as far
/// as the check of its user ids. In delimited text the description must be
/// read as one field, or the line has not eight of them; a binary frame has
/// no room for a description of 4 GiB.
pub open spec fn reaches_check(format: Format, description: Seq<char>) -> bool {
    match format {
        Format::Csv => description_fields(description).len() == 1,
        Format::Txt => true,
        Format::Bin => record_size(description) <= u32::MAX,
    }
}

/// A record with a sender of 0 that is no deposit, or a receiver of 0 that
/// is no withdrawal, is refused by every format when it is read: the error
/// is `InvalidUserId` with `0` and the record's type.
pub proof fn lemma_invalid_record_refused(
    format: Format,
    record: YPBankRecordView,
    rest: Seq<u8>,
)
    requires
        !record.valid(),
        reaches_check(format, record.description),
    ensures
        decode_one(format, encode_one(format, record) + rest) == Err::<
            Option<YPBankRecordView>,
            ParseErrorView,
        >(ParseErrorView::InvalidUserId(decimal(0), record.transaction_type)),
        decimal(0) == seq!['0'],
{
    match format {
        Format::Csv => {
            lemma_csv_refused(record, rest);
        },
        Format::Txt => {
            lemma_written_fields_refused(
                record.with_description(value_read(record.description)),
            );
            lemma_txt_decode(record, rest);
        },
        Format::Bin => {
            lemma_frame_refused(record, rest);
        },
    }
}

/// In the text formats, fields that give a sender of 0 to a transaction
/// that is no deposit are refused with `InvalidUserId`, `0` and the type,
/// where the id before them can be read.
pub proof fn lemma_sender_of_zero_refused(
    fields: Seq<Seq<char>>,
    transaction_type: TransactionType,
)
    requires
        parse_transaction_type(fields[1]) == Ok::<TransactionType, ParseErrorView>(
            transaction_type,
        ),
        transaction_type != TransactionType::Deposit,
        parse_scalar::<u64>(fields[0]) is Ok,
        parse_scalar::<u64>(fields[2]) == Ok::<u64, ParseErrorView>(0),
    ensures
        record_of_fields(fields) == Err::<YPBankRecordView, ParseErrorView>(
            ParseErrorView::InvalidUserId(decimal(0), transaction_type),
        ),
{
}

/// In the text formats, fields that give a receiver of 0 to a transaction
/// that is no withdrawal are refused with `InvalidUserId`, `0` and the type,
/// where the id and the sender before them can be read.
pub proof fn lemma_receiver_of_zero_refused(
    fields: Seq<Seq<char>>,
    transaction_type: TransactionType,
)
    requires
        parse_transaction_type(fields[1]) == Ok::<TransactionType, ParseErrorView>(
            transaction_type,
        ),
        transaction_type != TransactionType::Withdrawal,
        parse_scalar::<u64>(fields[0]) is Ok,
        parse_scalar::<u64>(fields[2]) is Ok,
        parse_scalar::<u64>(fields[3]) == Ok::<u64, ParseErrorView>(0),
    ensures
        record_of_fields(fields) == Err::<YPBankRecordView, ParseErrorView>(
            ParseErrorView::InvalidUserId(decimal(0), transaction_type),
        ),
{
}

/// In a binary frame, a sender of 0 in a transaction that is no deposit is
/// refused with `InvalidUserId`, `0` and the type.
pub proof fn lemma_sender_of_zero_refused_in_frame(
    body: Seq<u8>,
    transaction_type: TransactionType,
)
    requires
        body.len() >= 17,
        transaction_type_of_code(body[8]) == Ok::<TransactionType, ParseErrorView>(
            transaction_type,
        ),
        transaction_type != TransactionType::Deposit,
        u64_of_be(body.subrange(9, 17)) == 0,
    ensures
        record_of_body(body).0 == Err::<YPBankRecordView, ParseErrorView>(
            ParseErrorView::InvalidUserId(decimal(0), transaction_type),
        ),
{
}

/// In a binary frame, a receiver of 0 in a transaction that is no
/// withdrawal is refused with `InvalidUserId`, `0` and the type.
pub proof fn lemma_receiver_of_zero_refused_in_frame(
    body: Seq<u8>,
    transaction_type: TransactionType,
)
    requires
        body.len() >= 25,
        transaction_type_of_code(body[8]) == Ok::<TransactionType, ParseErrorView>(
            transaction_type,
        ),
        transaction_type != TransactionType::Withdrawal,
        u64_of_be(body.subrange(17, 25)) == 0,
    ensures
        record_of_body(body).0 == Err::<YPBankRecordView, ParseErrorView>(
            ParseErrorView::InvalidUserId(decimal(0), transaction_type),
        ),
{
}

/// In labeled text the order of the lines of a record does not matter: the
/// same eight fields, each given once, make the same of a read in whatever
/// order their lines stand.
pub proof fn lemma_field_order(
    a: Seq<(Seq<char>, Seq<char>)>,
    b: Seq<(Seq<char>, Seq<char>)>,
    rest: Seq<u8>,
)
    requires
        a.len() == 8,
        b.len() == 8,
        distinct_keys(a),
        distinct_keys(b),
        each_in(a, b),
        each_in(b, a),
        forall|i: int| 0 <= i < 8 ==> is_word((#[trigger] a[i]).0) && is_one_line(a[i].1),
    ensures
        YPBankTxtRecordParser::decode_one(encode_utf8(lines_of(a)) + rest).0
            == YPBankTxtRecordParser::decode_one(encode_utf8(lines_of(b)) + rest).0,
{
    assert forall|j: int| 0 <= j < 8 implies is_word((#[trigger] b[j]).0) && is_one_line(
        b[j].1,
    ) by {
        let i = choose|i: int| 0 <= i < a.len() && a[i] == b[j];
        assert(is_word(a[i].0) && is_one_line(a[i].1));
    }
    lemma_collect_lines(a, Map::empty(), 0, rest);
    lemma_collect_lines(b, Map::empty(), 0, rest);
    let read_a = pairs_read(a);
    let read_b = pairs_read(b);
    lemma_filled(Map::empty(), read_a);
    lemma_filled(Map::empty(), read_b);
    let from_a = filled(Map::empty(), read_a);
    let from_b = filled(Map::empty(), read_b);
    assert(distinct_keys(read_a)) by {
        assert forall|i: int, j: int|
            0 <= i < read_a.len() && 0 <= j < read_a.len() && i != j implies (
        #[trigger] read_a[i]).0 != (#[trigger] read_a[j]).0 by {
            assert(a[i].0 != a[j].0);
        }
    }
    assert(distinct_keys(read_b)) by {
        assert forall|i: int, j: int|
            0 <= i < read_b.len() && 0 <= j < read_b.len() && i != j implies (
        #[trigger] read_b[i]).0 != (#[trigger] read_b[j]).0 by {
            assert(b[i].0 != b[j].0);
        }
    }
    assert forall|key: Seq<char>| from_a.contains_key(key) implies from_b.contains_key(key)
        && from_b[key] == from_a[key] by {
        let i = choose|i: int| 0 <= i < read_a.len() && (#[trigger] read_a[i]).0 == key;
        let j = choose|j: int| 0 <= j < b.len() && b[j] == a[i];
        assert(read_b[j].0 == key);
        assert(read_b[j].1 == read_a[i].1);
        assert(has_key(read_b, key));
    }
    assert forall|key: Seq<char>| from_b.contains_key(key) implies from_a.contains_key(key) by {
        let j = choose|j: int| 0 <= j < read_b.len() && (#[trigger] read_b[j]).0 == key;
        let i = choose|i: int| 0 <= i < a.len() && a[i] == b[j];
        assert(read_a[i].0 == key);
        assert(has_key(read_a, key));
    }
    assert(from_a =~= from_b);
}

/// The fields of a text, joined by commas, are that text, but for the comma
/// that the text may end with.
pub proof fn lemma_fields_rejoin(s: Seq<char>, inside: bool)
    requires
        s.len() > 0,
    ensures
        fields(s, inside).len() > 0,
        joined(fields(s, inside)) == s || joined(fields(s, inside)) + seq![','] == s,
    decreases s.len(),
{
    let n = field_len(s, inside);
    if n < s.len() {
        let first = s.subrange(0, n as int);
        let rest = s.skip(n as int + 1);
        let others = fields(rest, inside_after(s, n, inside));
        let all = seq![first] + others;
        lemma_separator_after_field(s, inside);
        assert(s == first + seq![','] + rest);
        if rest.len() == 0 {
            assert(all == seq![first]);
            assert(first + seq![','] + rest == first + seq![',']);
        } else {
            lemma_fields_rejoin(rest, inside_after(s, n, inside));
            lemma_joined_first(all);
            assert(all.drop_first() == others);
            assert(all.first() == first);
            if joined(others) == rest {
            } else {
                assert(first + seq![','] + joined(others) + seq![','] == first + seq![','] + (
                joined(others) + seq![',']));
            }
        }
    }
}

/// Trimming leaves no whitespace at either end.
pub proof fn lemma_trim_is_trimmed(s: Seq<char>)
    ensures
        trim(s).len() > 0 ==> !is_whitespace(trim(s).first()) && !is_whitespace(trim(s).last()),
{
    lemma_leading_whitespace(s);
    lemma_trailing_whitespace(s);
    if leading_whitespace(s) < s.len() {
        let a = leading_whitespace(s) as int;
        let b = s.len() - trailing_whitespace(s);
        if b <= a {
            assert(is_whitespace(s[a]));
        }
    }
}

/// The name of a format names that format.
pub proof fn lemma_format_name(format: Format)
    ensures
        parse_format(format.name()) == Ok::<Format, ParseErrorView>(format),
{
    reveal_strlit("csv");
    reveal_strlit("txt");
    reveal_strlit("binary");
    let name = format.name();
    assert(name.map_values(|c: char| ascii_lower(c)) == name);
    assert("csv"@[0] != "txt"@[0]);
    assert("csv"@[0] != "binary"@[0]);
    assert("txt"@[0] != "binary"@[0]);
}

/// A stream of delimited text whose first line is not the line that names
/// the fields is refused with `InvalidCsvHeader` and the line found, and no
/// more than that line is read.
pub proof fn lemma_header_enforced(bytes: Seq<u8>, line: Seq<char>)
    requires
        first_line(bytes) == Ok::<Seq<char>, ParseErrorView>(line),
        line != TARGET_HEADER@,
    ensures
        read_all(Format::Csv, bytes) == (
            Err::<Seq<YPBankRecordView>, ParseErrorView>(ParseErrorView::InvalidCsvHeader(line)),
            line_len(bytes),
        ),
{
}

/// A binary stream without bytes holds no records.
pub proof fn lemma_empty_binary_stream()
    ensures
        read_all(Format::Bin, Seq::empty()).0 == Ok::<Seq<YPBankRecordView>, ParseErrorView>(
            Seq::empty(),
        ),
{
    assert(Seq::<u8>::empty().skip(0) == Seq::<u8>::empty());
}

/// A binary stream that ends inside the four bytes that begin a frame is
/// refused with `UnexpectedEOF`.
pub proof fn lemma_truncated_magic(bytes: Seq<u8>)
    requires
        0 < bytes.len() < 4,
    ensures
        read_all(Format::Bin, bytes).0 == Err::<Seq<YPBankRecordView>, ParseErrorView>(
            ParseErrorView::UnexpectedEOF,
        ),
{
    assert(bytes.skip(0) == bytes);
}

} // verus!
