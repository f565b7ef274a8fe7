//! Why records written in binary frames are read back as they were.

use crate::bin_format::{
    body_of_record, description_of, frame_of_record, magic, record_of_body, record_size,
    YPBankBinRecordParser,
};
use crate::error::ParseErrorView;
use crate::parser::YPBankRecordParser;
use crate::record::YPBankRecordView;
use crate::source::{
    be_of_i64, be_of_u32, be_of_u64, i64_of_be, lemma_i64_be_round_trip, lemma_u32_be_round_trip,
    lemma_u64_be_round_trip, u32_of_be, u64_of_be,
};
use vstd::prelude::*;
use vstd::utf8::{encode_utf8, encode_utf8_decode_utf8, encode_utf8_valid_utf8};

verus! {

/// Where the parts of a frame's body lie in the bytes that begin with them.
pub(crate) proof fn lemma_body_layout(
    id: Seq<u8>,
    code: u8,
    from: Seq<u8>,
    to: Seq<u8>,
    amount: Seq<u8>,
    ts: Seq<u8>,
    status: u8,
    len: Seq<u8>,
    text: Seq<u8>,
    rest: Seq<u8>,
)
    requires
        id.len() == 8,
        from.len() == 8,
        to.len() == 8,
        amount.len() == 8,
        ts.len() == 8,
        len.len() == 4,
    ensures
        ({
            let body = id + seq![code] + from + to + amount + ts + seq![status] + len + text
                + rest;
            &&& body.len() == 46 + text.len() + rest.len()
            &&& body.subrange(0, 8) == id
            &&& body[8] == code
            &&& body.subrange(9, 17) == from
            &&& body.subrange(17, 25) == to
            &&& body.subrange(25, 33) == amount
            &&& body.subrange(33, 41) == ts
            &&& body[41] == status
            &&& body.skip(42).subrange(0, 4) == len
            &&& body.skip(42).skip(4).subrange(0, text.len() as int) == text
            &&& body.skip(46 + text.len() as int) == rest
        }),
{
}

/// Where the parts of a frame lie in the bytes that begin with them.
pub(crate) proof fn lemma_frame_layout(first: Seq<u8>, size: Seq<u8>, body: Seq<u8>, rest: Seq<u8>)
    requires
        first.len() == 4,
        size.len() == 4,
    ensures
        ({
            let written = first + size + body + rest;
            &&& written.len() == 8 + body.len() + rest.len()
            &&& written.subrange(0, 4) == first
            &&& written.subrange(4, 8) == size
            &&& written.skip(8) == body + rest
        }),
{
}

/// What the parts of the frame written for a record are read as, whatever
/// follows the frame.
pub proof fn lemma_frame_parts(record: YPBankRecordView, rest: Seq<u8>)
    requires
        record_size(record.description) <= u32::MAX,
    ensures
        ({
            let written = frame_of_record(record) + rest;
            let body = written.skip(8);
            &&& frame_of_record(record).len() == 8 + record_size(record.description)
            &&& written.len() == frame_of_record(record).len() + rest.len()
            &&& written.subrange(0, 4) == magic()
            &&& u32_of_be(written.subrange(4, 8)) == record_size(record.description)
            &&& u64_of_be(body.subrange(0, 8)) == record.id
            &&& body[8] == record.transaction_type.code()
            &&& u64_of_be(body.subrange(9, 17)) == record.from_user_id
            &&& u64_of_be(body.subrange(17, 25)) == record.to_user_id
            &&& i64_of_be(body.subrange(25, 33)) == record.amount
            &&& u64_of_be(body.subrange(33, 41)) == record.ts
            &&& body[41] == record.status.code()
            &&& description_of(body.skip(42)) == (
                Ok::<Seq<char>, ParseErrorView>(record.description),
                4 + encode_utf8(record.description).len(),
            )
            &&& written.skip(frame_of_record(record).len() as int) == rest
        }),
{
    let text = encode_utf8(record.description);
    let size = record_size(record.description) as u32;
    let id = be_of_u64(record.id);
    let from = be_of_u64(record.from_user_id);
    let to = be_of_u64(record.to_user_id);
    let amount = be_of_i64(record.amount);
    let ts = be_of_u64(record.ts);
    let len = be_of_u32(text.len() as u32);
    lemma_u32_be_round_trip(size);
    lemma_u32_be_round_trip(text.len() as u32);
    lemma_u64_be_round_trip(record.id);
    lemma_u64_be_round_trip(record.from_user_id);
    lemma_u64_be_round_trip(record.to_user_id);
    lemma_u64_be_round_trip(record.ts);
    lemma_i64_be_round_trip(record.amount);
    encode_utf8_valid_utf8(record.description);
    encode_utf8_decode_utf8(record.description);
    let body = body_of_record(record);
    lemma_frame_layout(magic(), be_of_u32(size), body, rest);
    lemma_frame_layout(magic(), be_of_u32(size), body, Seq::empty());
    lemma_body_layout(
        id,
        record.transaction_type.code(),
        from,
        to,
        amount,
        ts,
        record.status.code(),
        len,
        text,
        rest,
    );
    lemma_body_layout(
        id,
        record.transaction_type.code(),
        from,
        to,
        amount,
        ts,
        record.status.code(),
        len,
        text,
        Seq::empty(),
    );
    let written = frame_of_record(record) + rest;
    assert(frame_of_record(record) + Seq::<u8>::empty() == frame_of_record(record));
    assert(body + Seq::<u8>::empty() == body);
    assert(written == magic() + be_of_u32(size) + body + rest);
    assert(body + rest == id + seq![record.transaction_type.code()] + from + to + amount + ts
        + seq![record.status.code()] + len + text + rest);
    assert(written.skip(8).skip(46 + text.len() as int) == written.skip(
        frame_of_record(record).len() as int,
    ));
}

/// The frame written for a valid record whose size can be written holds
/// that record, whatever follows it, and is used up by reading it.
pub proof fn lemma_frame_read_back(record: YPBankRecordView, rest: Seq<u8>)
    requires
        record.valid(),
        record_size(record.description) <= u32::MAX,
    ensures
        YPBankBinRecordParser::decode_one(frame_of_record(record) + rest) == (
            Ok::<Option<YPBankRecordView>, ParseErrorView>(Some(record)),
            frame_of_record(record).len(),
        ),
        (frame_of_record(record) + rest).skip(frame_of_record(record).len() as int) == rest,
        frame_of_record(record).len() > 0,
{
    lemma_frame_parts(record, rest);
}

/// The frame written for a record that is not valid is refused: the user id
/// of 0 that the record's type does not allow gives the error.
pub proof fn lemma_frame_refused(record: YPBankRecordView, rest: Seq<u8>)
    requires
        !record.valid(),
        record_size(record.description) <= u32::MAX,
    ensures
        YPBankBinRecordParser::decode_one(frame_of_record(record) + rest).0 == Err::<
            Option<YPBankRecordView>,
            ParseErrorView,
        >(ParseErrorView::InvalidUserId(crate::decimal::decimal(0), record.transaction_type)),
{
    lemma_frame_parts(record, rest);
}

/// A record takes no more bytes than there are.
pub proof fn lemma_record_of_body_len(bytes: Seq<u8>)
    ensures
        record_of_body(bytes).1 <= bytes.len(),
{
}

} // verus!
