//! The binary encoding: each record a frame of its own, which begins with
//! four fixed bytes and its size; every number with the byte that weighs
//! most first.

use crate::bin_lemmas::{lemma_frame_read_back, lemma_record_of_body_len};
use crate::common::{
    checked_from_user_id, checked_to_user_id, transaction_status_of_code, transaction_type_of_code,
    TransactionStatus, TransactionType, validate_from_user_id, validate_to_user_id,
};
use crate::error::{ParseError, ParseErrorView};
use crate::parser::{Parser, YPBankRecordParser};
use crate::record::{made_record_view, read_outcome, YPBankRecord, YPBankRecordView};
use crate::source::{
    be_of_i64, be_of_u32, be_of_u64, ByteSource, i64_of_be, read_i64_from_bytes,
    read_u32_from_bytes, read_u64_from_bytes, read_u8_from_bytes, u32_of_be, u64_of_be,
    write_i64_to_bytes, write_u32_to_bytes, write_u64_to_bytes,
};
use crate::text::{string_from_utf8, utf8_error_text};
use vstd::prelude::*;
use vstd::string::*;
use vstd::utf8::{decode_utf8, encode_utf8, valid_utf8};

verus! {

/// The four bytes that a frame begins with.
pub open spec fn magic() -> Seq<u8> {
    seq![0x59u8, 0x50u8, 0x42u8, 0x4eu8]
}

/// The bytes of a frame that are counted in its size besides the description.
pub const FIXED_SIZE: u32 = 46;

/// The character that stands for the hexadecimal digit `d`.
pub open spec fn hex_digit(d: int) -> char {
    if d < 10 {
        ('0' as int + d) as char
    } else {
        ('A' as int + d - 10) as char
    }
}

/// `byte` as two hexadecimal digits.
pub open spec fn hex_byte(byte: u8) -> Seq<char> {
    seq![hex_digit(byte as int / 16), hex_digit(byte as int % 16)]
}

/// Four bytes as hexadecimal digits, a space between each two bytes.
pub open spec fn magic_text(found: Seq<u8>) -> Seq<char> {
    hex_byte(found[0]) + seq![' '] + hex_byte(found[1]) + seq![' '] + hex_byte(found[2]) + seq![
        ' ',
    ] + hex_byte(found[3])
}

/// What the check of a frame's first bytes makes of `bytes`, and how many
/// bytes it uses up: fewer than four bytes end the stream inside a frame,
/// four other bytes are reported as they were found.
pub open spec fn check_magic(bytes: Seq<u8>) -> (Result<(), ParseErrorView>, nat) {
    if bytes.len() < 4 {
        (Err(ParseErrorView::UnexpectedEOF), 0)
    } else if bytes.subrange(0, 4) != magic() {
        (Err(ParseErrorView::InvalidMagic(magic_text(bytes.subrange(0, 4)))), 4)
    } else {
        (Ok(()), 4)
    }
}

/// The description that `bytes` begin with, and how many bytes it takes:
/// its length in four bytes, then that many bytes of UTF-8.
pub open spec fn description_of(bytes: Seq<u8>) -> (Result<Seq<char>, ParseErrorView>, nat) {
    if bytes.len() < 4 {
        (Err(ParseErrorView::UnexpectedEOF), 0)
    } else {
        let len = u32_of_be(bytes.subrange(0, 4)) as nat;
        let rest = bytes.skip(4);
        if rest.len() < len {
            (Err(ParseErrorView::UnexpectedEOF), 4)
        } else {
            let text = rest.subrange(0, len as int);
            if valid_utf8(text) {
                (Ok(decode_utf8(text)), 4 + len)
            } else {
                (Err(ParseErrorView::InvalidRawValue(utf8_error_text(text))), 4 + len)
            }
        }
    }
}

/// The record that `bytes` begin with after a frame's first bytes and size,
/// and how many bytes it takes: id, type, sender, receiver, amount,
/// timestamp, status and description, each read and checked in its turn.
pub open spec fn record_of_body(bytes: Seq<u8>) -> (Result<YPBankRecordView, ParseErrorView>, nat) {
    if bytes.len() < 8 {
        (Err(ParseErrorView::UnexpectedEOF), 0)
    } else if bytes.len() < 9 {
        (Err(ParseErrorView::UnexpectedEOF), 8)
    } else {
        let id = u64_of_be(bytes.subrange(0, 8));
        match transaction_type_of_code(bytes[8]) {
            Err(error) => (Err(error), 9),
            Ok(transaction_type) => {
                if bytes.len() < 17 {
                    (Err(ParseErrorView::UnexpectedEOF), 9)
                } else {
                    match checked_from_user_id(
                        u64_of_be(bytes.subrange(9, 17)),
                        transaction_type,
                    ) {
                        Err(error) => (Err(error), 17),
                        Ok(from_user_id) => {
                            if bytes.len() < 25 {
                                (Err(ParseErrorView::UnexpectedEOF), 17)
                            } else {
                                match checked_to_user_id(
                                    u64_of_be(bytes.subrange(17, 25)),
                                    transaction_type,
                                ) {
                                    Err(error) => (Err(error), 25),
                                    Ok(to_user_id) => record_of_tail(
                                        bytes,
                                        id,
                                        transaction_type,
                                        from_user_id,
                                        to_user_id,
                                    ),
                                }
                            }
                        },
                    }
                }
            },
        }
    }
}

/// The record that `bytes` hold after a frame's first bytes and size, where
/// its id, type, sender and receiver are read already, and how many bytes
/// it takes.
pub open spec fn record_of_tail(
    bytes: Seq<u8>,
    id: u64,
    transaction_type: TransactionType,
    from_user_id: u64,
    to_user_id: u64,
) -> (Result<YPBankRecordView, ParseErrorView>, nat) {
    if bytes.len() < 33 {
        (Err(ParseErrorView::UnexpectedEOF), 25)
    } else if bytes.len() < 41 {
        (Err(ParseErrorView::UnexpectedEOF), 33)
    } else if bytes.len() < 42 {
        (Err(ParseErrorView::UnexpectedEOF), 41)
    } else {
        let amount = i64_of_be(bytes.subrange(25, 33));
        let ts = u64_of_be(bytes.subrange(33, 41));
        match transaction_status_of_code(bytes[41]) {
            Err(error) => (Err(error), 42),
            Ok(status) => {
                let (description, used) = description_of(bytes.skip(42));
                match description {
                    Err(error) => (Err(error), 42 + used),
                    Ok(text) => (
                        Ok(
                            YPBankRecordView {
                                id,
                                transaction_type,
                                from_user_id,
                                to_user_id,
                                amount,
                                ts,
                                status,
                                description: text,
                            },
                        ),
                        42 + used,
                    ),
                }
            },
        }
    }
}

/// The bytes of a frame that follow its first bytes and size.
pub open spec fn body_of_record(record: YPBankRecordView) -> Seq<u8> {
    be_of_u64(record.id) + seq![record.transaction_type.code()] + be_of_u64(record.from_user_id)
        + be_of_u64(record.to_user_id) + be_of_i64(record.amount) + be_of_u64(record.ts) + seq![
        record.status.code(),
    ] + be_of_u32(encode_utf8(record.description).len() as u32) + encode_utf8(record.description)
}

/// The size that is written in the frame of a record with `description`.
pub open spec fn record_size(description: Seq<char>) -> nat {
    46 + encode_utf8(description).len()
}

/// The frame that stands for `record`.
pub open spec fn frame_of_record(record: YPBankRecordView) -> Seq<u8> {
    magic() + be_of_u32(record_size(record.description) as u32) + body_of_record(record)
}

/// The encoding of single records in binary frames.
pub struct YPBankBinRecordParser {}

/// The character that stands for the hexadecimal digit `d`.
fn hex_char(d: u8) -> (c: char)
    requires
        d < 16,
    ensures
        c == hex_digit(d as int),
{
    if d < 10 {
        (48u8 + d) as char
    } else {
        (55u8 + d) as char
    }
}

/// Four bytes as hexadecimal digits, a space between each two bytes.
pub fn magic_string(found: &Vec<u8>) -> (text: String)
    requires
        found.len() == 4,
    ensures
        text@ == magic_text(found@),
{
    let mut text = String::new();
    text.push(hex_char(found[0] / 16));
    text.push(hex_char(found[0] % 16));
    text.push(' ');
    text.push(hex_char(found[1] / 16));
    text.push(hex_char(found[1] % 16));
    text.push(' ');
    text.push(hex_char(found[2] / 16));
    text.push(hex_char(found[2] % 16));
    text.push(' ');
    text.push(hex_char(found[3] / 16));
    text.push(hex_char(found[3] % 16));
    assert(text@ == magic_text(found@));
    text
}

/// The description that the bytes of a description were decoded to; where
/// they were no UTF-8, `InvalidRawValue` with what the decoding said of them.
pub fn description_of_decoded(decoded: Result<String, String>) -> (description: Result<
    String,
    ParseError,
>)
    ensures
        match decoded {
            Ok(text) => description == Ok::<String, ParseError>(text),
            Err(said) => description == Err::<String, ParseError>(
                ParseError::InvalidRawValue(said),
            ),
        },
{
    match decoded {
        Ok(text) => Ok(text),
        Err(said) => Err(ParseError::InvalidRawValue(said)),
    }
}

impl YPBankBinRecordParser {
    /// Reads the four bytes that a frame begins with and checks them.
    pub fn validate_magic(r: &mut ByteSource) -> (checked: Result<(), ParseError>)
        ensures
            match checked {
                Ok(_) => check_magic(old(r)@).0 is Ok,
                Err(error) => check_magic(old(r)@).0 == Err::<(), ParseErrorView>(error@),
            },
            final(r)@ == old(r)@.skip(check_magic(old(r)@).1 as int),
    {
        assert(r@.skip(0) == r@);
        let found = match r.take(4) {
            Some(found) => found,
            None => {
                return Err(ParseError::UnexpectedEOF);
            },
        };
        if found[0] != 0x59 || found[1] != 0x50 || found[2] != 0x42 || found[3] != 0x4e {
            return Err(ParseError::InvalidMagic(magic_string(&found)));
        }
        assert(found@ == magic());
        Ok(())
    }

    /// Reads the size that is written in a frame.
    pub fn parse_record_size(r: &mut ByteSource) -> (size: Result<u32, ParseError>)
        ensures
            match size {
                Ok(v) => old(r)@.len() >= 4 && v == u32_of_be(old(r)@.subrange(0, 4))
                    && final(r)@ == old(r)@.skip(4),
                Err(error) => old(r)@.len() < 4 && error@ == ParseErrorView::UnexpectedEOF
                    && final(r)@ == old(r)@,
            },
    {
        read_u32_from_bytes(r)
    }

    /// Reads what follows a frame's first bytes and size as a record.
    pub fn parse_record(r: &mut ByteSource) -> (record: Result<YPBankRecord, ParseError>)
        ensures
            made_record_view(record) == record_of_body(old(r)@).0,
            final(r)@ == old(r)@.skip(record_of_body(old(r)@).1 as int),
    {
        let ghost bytes = r@;
        assert(bytes.skip(0) == bytes);
        let id = match read_u64_from_bytes(r) {
            Ok(v) => v,
            Err(error) => {
                return Err(error);
            },
        };
        let code = match read_u8_from_bytes(r) {
            Ok(v) => v,
            Err(error) => {
                return Err(error);
            },
        };
        assert(code == bytes[8]);
        assert(r@ == bytes.skip(9));
        let transaction_type = match TransactionType::from_int(code) {
            Ok(v) => v,
            Err(error) => {
                return Err(error);
            },
        };
        let from_raw = match read_u64_from_bytes(r) {
            Ok(v) => v,
            Err(error) => {
                return Err(error);
            },
        };
        assert(bytes.skip(9).subrange(0, 8) == bytes.subrange(9, 17));
        assert(r@ == bytes.skip(17));
        let from_user_id = match validate_from_user_id(from_raw, transaction_type) {
            Ok(v) => v,
            Err(error) => {
                return Err(error);
            },
        };
        let to_raw = match read_u64_from_bytes(r) {
            Ok(v) => v,
            Err(error) => {
                return Err(error);
            },
        };
        assert(bytes.skip(17).subrange(0, 8) == bytes.subrange(17, 25));
        assert(r@ == bytes.skip(25));
        let to_user_id = match validate_to_user_id(to_raw, transaction_type) {
            Ok(v) => v,
            Err(error) => {
                return Err(error);
            },
        };
        let amount = match read_i64_from_bytes(r) {
            Ok(v) => v,
            Err(error) => {
                return Err(error);
            },
        };
        assert(bytes.skip(25).subrange(0, 8) == bytes.subrange(25, 33));
        assert(r@ == bytes.skip(33));
        let ts = match read_u64_from_bytes(r) {
            Ok(v) => v,
            Err(error) => {
                return Err(error);
            },
        };
        assert(bytes.skip(33).subrange(0, 8) == bytes.subrange(33, 41));
        assert(r@ == bytes.skip(41));
        let status_code = match read_u8_from_bytes(r) {
            Ok(v) => v,
            Err(error) => {
                return Err(error);
            },
        };
        assert(status_code == bytes[41]);
        assert(r@ == bytes.skip(42));
        let status = match TransactionStatus::from_int(status_code) {
            Ok(v) => v,
            Err(error) => {
                return Err(error);
            },
        };
        proof {
            let used = description_of(bytes.skip(42)).1;
            assert(bytes.skip(42).skip(used as int) == bytes.skip(42 + used as int));
        }
        let description = match Self::read_description_from_bytes(r) {
            Ok(v) => v,
            Err(error) => {
                return Err(error);
            },
        };
        Ok(
            YPBankRecord::new(
                id,
                transaction_type,
                from_user_id,
                to_user_id,
                amount,
                ts,
                status,
                description,
            ),
        )
    }

    /// Reads a description: its length, then that many bytes of UTF-8.
    pub fn read_description_from_bytes(r: &mut ByteSource) -> (description: Result<
        String,
        ParseError,
    >)
        ensures
            match description {
                Ok(text) => description_of(old(r)@).0 == Ok::<Seq<char>, ParseErrorView>(text@),
                Err(error) => description_of(old(r)@).0 == Err::<Seq<char>, ParseErrorView>(
                    error@,
                ),
            },
            final(r)@ == old(r)@.skip(description_of(old(r)@).1 as int),
            description_of(old(r)@).1 <= old(r)@.len(),
    {
        let ghost bytes = r@;
        assert(bytes.skip(0) == bytes);
        let desc_len = match read_u32_from_bytes(r) {
            Ok(v) => v as usize,
            Err(error) => {
                return Err(error);
            },
        };
        let desc_bytes = match r.take(desc_len) {
            Some(v) => v,
            None => {
                return Err(ParseError::UnexpectedEOF);
            },
        };
        assert(bytes.skip(4).skip(desc_len as int) == bytes.skip(4 + desc_len));
        description_of_decoded(string_from_utf8(desc_bytes))
    }

    /// The size that is written in the frame of a record with `description`.
    pub fn get_record_size(description: &str) -> (size: u32)
        requires
            record_size(description@) <= u32::MAX,
        ensures
            size == record_size(description@),
    {
        FIXED_SIZE + description.len() as u32
    }
}

impl YPBankRecordParser for YPBankBinRecordParser {
    open spec fn decode_one(bytes: Seq<u8>) -> (
        Result<Option<YPBankRecordView>, ParseErrorView>,
        nat,
    ) {
        if bytes.len() == 0 {
            (Ok(None), 0)
        } else {
            match check_magic(bytes).0 {
                Err(error) => (Err(error), check_magic(bytes).1),
                Ok(_) => {
                    if bytes.len() < 8 {
                        (Err(ParseErrorView::UnexpectedEOF), 4)
                    } else if u32_of_be(bytes.subrange(4, 8)) == 0 {
                        (Ok(None), 8)
                    } else {
                        let (record, used) = record_of_body(bytes.skip(8));
                        (read_outcome(record), 8 + used)
                    }
                },
            }
        }
    }

    open spec fn encode_one(record: YPBankRecordView) -> Seq<u8> {
        frame_of_record(record)
    }

    open spec fn writable(record: YPBankRecordView) -> bool {
        record_size(record.description) <= u32::MAX
    }

    open spec fn faithful(record: YPBankRecordView) -> bool {
        record.valid() && record_size(record.description) <= u32::MAX
    }

    proof fn lemma_decode_one_len(bytes: Seq<u8>) {
        if bytes.len() >= 8 {
            lemma_record_of_body_len(bytes.skip(8));
        }
    }

    proof fn lemma_decode_nothing() {
    }

    proof fn lemma_read_back(record: YPBankRecordView, rest: Seq<u8>) {
        lemma_frame_read_back(record, rest);
    }

    fn from_read(r: &mut ByteSource) -> (record: Result<Option<YPBankRecord>, ParseError>) {
        let ghost bytes = r@;
        assert(bytes.skip(0) == bytes);
        if r.remaining() == 0 {
            return Ok(None);
        }
        match Self::validate_magic(r) {
            Ok(_) => {},
            Err(error) => {
                return Err(error);
            },
        }
        let record_size = match Self::parse_record_size(r) {
            Ok(v) => v,
            Err(error) => {
                return Err(error);
            },
        };
        assert(bytes.skip(4).subrange(0, 4) == bytes.subrange(4, 8));
        assert(r@ == bytes.skip(8));
        if record_size == 0 {
            return Ok(None);
        }
        proof {
            let used = record_of_body(bytes.skip(8)).1;
            assert(bytes.skip(8).skip(used as int) == bytes.skip(8 + used as int));
        }
        match Self::parse_record(r) {
            Ok(record) => Ok(Some(record)),
            Err(error) => Err(error),
        }
    }

    fn write_to(record: &YPBankRecord, w: &mut Vec<u8>) -> (written: Result<(), ParseError>) {
        let mut bytes: Vec<u8> = Vec::new();
        bytes.push(0x59);
        bytes.push(0x50);
        bytes.push(0x42);
        bytes.push(0x4e);
        assert(bytes@ == magic());
        write_u32_to_bytes(&mut bytes, Self::get_record_size(record.description.as_str()));
        write_u64_to_bytes(&mut bytes, record.id);
        bytes.push(record.transaction_type.as_int());
        write_u64_to_bytes(&mut bytes, record.from_user_id);
        write_u64_to_bytes(&mut bytes, record.to_user_id);
        write_i64_to_bytes(&mut bytes, record.amount);
        write_u64_to_bytes(&mut bytes, record.ts);
        bytes.push(record.status.as_int());
        write_u32_to_bytes(&mut bytes, record.description.as_str().len() as u32);
        bytes.extend_from_slice(record.description.as_str().as_bytes());
        assert(bytes@ == frame_of_record(record@));
        w.extend_from_slice(bytes.as_slice());
        Ok(())
    }
}

/// The encoding of whole streams in binary frames.
pub struct BinParser {}

impl Parser<YPBankBinRecordParser> for BinParser {
    open spec fn check_prologue(bytes: Seq<u8>) -> (Result<(), ParseErrorView>, nat) {
        (Ok(()), 0)
    }

    open spec fn prologue() -> Seq<u8> {
        Seq::empty()
    }

    proof fn lemma_check_prologue_len(bytes: Seq<u8>) {
    }

    proof fn lemma_prologue_read_back(rest: Seq<u8>) {
    }

    fn pre_read(r: &mut ByteSource) -> (checked: Result<(), ParseError>) {
        assert(r@.skip(0) == r@);
        Ok(())
    }

    fn pre_write(w: &mut Vec<u8>) -> (written: Result<(), ParseError>) {
        assert(w@ + Seq::<u8>::empty() == w@);
        Ok(())
    }
}

} // verus!
