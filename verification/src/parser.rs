//! What every encoding offers, reading and writing one record, and what is
//! built on it once for all of them: reading and writing a whole stream.

use crate::error::{ParseError, ParseErrorView};
use crate::record::{
    record_result_view, records_result_view, views_of, YPBankRecord, YPBankRecordView,
};
use crate::source::ByteSource;
use vstd::prelude::*;

verus! {

/// An encoding of single records.
pub trait YPBankRecordParser {
    /// What one read makes of `bytes`, the unread bytes of a source: a
    /// record, the end of the records or an error, and how many of the bytes
    /// the read uses up.
    spec fn decode_one(bytes: Seq<u8>) -> (Result<Option<YPBankRecordView>, ParseErrorView>, nat);

    /// The bytes that stand for `record`.
    spec fn encode_one(record: YPBankRecordView) -> Seq<u8>;

    /// Whether the encoding has room for `record`.
    spec fn writable(record: YPBankRecordView) -> bool;

    /// Whether `record` is read back as it was written.
    spec fn faithful(record: YPBankRecordView) -> bool;

    /// A read uses up no more bytes than there are, and at least one where
    /// it gives a record.
    proof fn lemma_decode_one_len(bytes: Seq<u8>)
        ensures
            Self::decode_one(bytes).1 <= bytes.len(),
            Self::decode_one(bytes).0 matches Ok(Some(_)) ==> Self::decode_one(bytes).1 > 0,
    ;

    /// Nothing is read from an empty source.
    proof fn lemma_decode_nothing()
        ensures
            Self::decode_one(Seq::empty()).0 == Ok::<Option<YPBankRecordView>, ParseErrorView>(
                None,
            ),
    ;

    /// A faithful record that was written is read back as it was, whatever
    /// follows it, and the next read goes on as if it began at what follows.
    proof fn lemma_read_back(record: YPBankRecordView, rest: Seq<u8>)
        requires
            Self::faithful(record),
        ensures
            ({
                let written = Self::encode_one(record) + rest;
                let (first, used) = Self::decode_one(written);
                let left = written.skip(used as int);
                &&& first == Ok::<Option<YPBankRecordView>, ParseErrorView>(Some(record))
                &&& 0 < used <= written.len()
                &&& Self::decode_one(left).0 == Self::decode_one(rest).0
                &&& left.skip(Self::decode_one(left).1 as int) == rest.skip(
                    Self::decode_one(rest).1 as int,
                )
            }),
    ;

    /// Reads one record from `r`, or finds the records at their end.
    fn from_read(r: &mut ByteSource) -> (record: Result<Option<YPBankRecord>, ParseError>)
        ensures
            record_result_view(record) == Self::decode_one(old(r)@).0,
            final(r)@ == old(r)@.skip(Self::decode_one(old(r)@).1 as int),
    ;

    /// Appends the bytes that stand for `record` to `w`.
    fn write_to(record: &YPBankRecord, w: &mut Vec<u8>) -> (written: Result<(), ParseError>)
        requires
            Self::writable(record@),
        ensures
            written is Ok,
            final(w)@ == old(w)@ + Self::encode_one(record@),
    ;
}

/// The records read so far followed by what the rest of the reading gives.
pub open spec fn extended(
    so_far: Seq<YPBankRecordView>,
    rest: Result<Seq<YPBankRecordView>, ParseErrorView>,
) -> Result<Seq<YPBankRecordView>, ParseErrorView> {
    match rest {
        Ok(tail) => Ok(so_far + tail),
        Err(error) => Err(error),
    }
}

/// What reading record after record makes of `bytes`: the records up to the
/// first read that finds none, or the first error, and how many of the bytes
/// are used up.
pub open spec fn read_records<R: YPBankRecordParser + ?Sized>(bytes: Seq<u8>) -> (
    Result<Seq<YPBankRecordView>, ParseErrorView>,
    nat,
)
    decreases bytes.len(),
{
    let (first, used) = R::decode_one(bytes);
    match first {
        Err(error) => (Err(error), used),
        Ok(None) => (Ok(Seq::empty()), used),
        Ok(Some(record)) => {
            if 0 < used <= bytes.len() {
                let (rest, rest_used) = read_records::<R>(bytes.skip(used as int));
                (extended(seq![record], rest), used + rest_used)
            } else {
                (Ok(seq![record]), used)
            }
        },
    }
}

/// The bytes that stand for `records`, one record after the other.
pub open spec fn encode_records<R: YPBankRecordParser + ?Sized>(
    records: Seq<YPBankRecordView>,
) -> Seq<u8>
    decreases records.len(),
{
    if records.len() == 0 {
        Seq::empty()
    } else {
        encode_records::<R>(records.drop_last()) + R::encode_one(records.last())
    }
}

/// The bytes of a sequence of records begin with those of its first record.
pub proof fn lemma_encode_records_first<R: YPBankRecordParser + ?Sized>(
    records: Seq<YPBankRecordView>,
)
    requires
        records.len() > 0,
    ensures
        encode_records::<R>(records) == R::encode_one(records.first()) + encode_records::<R>(
            records.drop_first(),
        ),
    decreases records.len(),
{
    assert(encode_records::<R>(Seq::empty()) == Seq::<u8>::empty());
    if records.len() == 1 {
        assert(records.drop_last() == Seq::<YPBankRecordView>::empty());
        assert(records.drop_first() == Seq::<YPBankRecordView>::empty());
        assert(encode_records::<R>(records) == Seq::<u8>::empty() + R::encode_one(records.last()));
        assert(R::encode_one(records.first()) + Seq::<u8>::empty() == Seq::<u8>::empty()
            + R::encode_one(records.last()));
    } else {
        let front = records.drop_last();
        lemma_encode_records_first::<R>(front);
        assert(front.drop_first() == records.drop_first().drop_last());
        assert(front.first() == records.first());
        assert(records.drop_first().last() == records.last());
        assert(encode_records::<R>(records.drop_first()) == encode_records::<R>(
            front.drop_first(),
        ) + R::encode_one(records.last()));
        assert(encode_records::<R>(records) == (R::encode_one(records.first())
            + encode_records::<R>(front.drop_first())) + R::encode_one(records.last()));
        assert((R::encode_one(records.first()) + encode_records::<R>(front.drop_first()))
            + R::encode_one(records.last()) == R::encode_one(records.first()) + (
        encode_records::<R>(front.drop_first()) + R::encode_one(records.last())));
    }
}

/// Two runs of bytes of which the first read makes the same, and leaves the
/// same bytes, give the same records.
pub proof fn lemma_read_records_alike<R: YPBankRecordParser + ?Sized>(a: Seq<u8>, b: Seq<u8>)
    requires
        R::decode_one(a).0 == R::decode_one(b).0,
        a.skip(R::decode_one(a).1 as int) == b.skip(R::decode_one(b).1 as int),
    ensures
        read_records::<R>(a).0 == read_records::<R>(b).0,
{
    R::lemma_decode_one_len(a);
    R::lemma_decode_one_len(b);
}

/// Faithful records that were written one after the other are read back as
/// they were.
pub proof fn lemma_records_round_trip<R: YPBankRecordParser + ?Sized>(
    records: Seq<YPBankRecordView>,
)
    requires
        forall|i: int| 0 <= i < records.len() ==> R::faithful(#[trigger] records[i]),
    ensures
        read_records::<R>(encode_records::<R>(records)).0 == Ok::<
            Seq<YPBankRecordView>,
            ParseErrorView,
        >(records),
    decreases records.len(),
{
    if records.len() == 0 {
        R::lemma_decode_nothing();
        assert(records == Seq::<YPBankRecordView>::empty());
        assert(encode_records::<R>(records) == Seq::<u8>::empty());
    } else {
        let tail = records.drop_first();
        lemma_encode_records_first::<R>(records);
        assert forall|i: int| 0 <= i < tail.len() implies R::faithful(#[trigger] tail[i]) by {
            assert(tail[i] == records[i + 1]);
        }
        lemma_records_round_trip::<R>(tail);
        let rest = encode_records::<R>(tail);
        let written = R::encode_one(records.first()) + rest;
        R::lemma_read_back(records.first(), rest);
        let left = written.skip(R::decode_one(written).1 as int);
        lemma_read_records_alike::<R>(left, rest);
        assert(read_records::<R>(written).0 == extended(
            seq![records.first()],
            read_records::<R>(left).0,
        ));
        assert(read_records::<R>(rest).0 == Ok::<Seq<YPBankRecordView>, ParseErrorView>(tail));
        assert(seq![records.first()] + tail == records);
        assert(encode_records::<R>(records) == written);
    }
}

/// An encoding of whole streams: what may stand before the first record,
/// and the records in the encoding `RecordParser`.
pub trait Parser<RecordParser: YPBankRecordParser> {
    /// What the check of the stream's beginning makes of `bytes`, and how
    /// many of the bytes it uses up.
    spec fn check_prologue(bytes: Seq<u8>) -> (Result<(), ParseErrorView>, nat);

    /// The bytes that stand before the first record.
    spec fn prologue() -> Seq<u8>;

    /// The check uses up no more bytes than there are.
    proof fn lemma_check_prologue_len(bytes: Seq<u8>)
        ensures
            Self::check_prologue(bytes).1 <= bytes.len(),
    ;

    /// The check accepts what is written before the first record, and uses
    /// up just that.
    proof fn lemma_prologue_read_back(rest: Seq<u8>)
        ensures
            Self::check_prologue(Self::prologue() + rest) == (
                Ok::<(), ParseErrorView>(()),
                Self::prologue().len(),
            ),
    ;

    /// Reads what stands before the first record and checks it.
    fn pre_read(r: &mut ByteSource) -> (checked: Result<(), ParseError>)
        ensures
            match checked {
                Ok(_) => Self::check_prologue(old(r)@).0 is Ok,
                Err(error) => Self::check_prologue(old(r)@).0 == Err::<(), ParseErrorView>(
                    error@,
                ),
            },
            final(r)@ == old(r)@.skip(Self::check_prologue(old(r)@).1 as int),
    ;

    /// Appends what stands before the first record to `w`.
    fn pre_write(w: &mut Vec<u8>) -> (written: Result<(), ParseError>)
        ensures
            written is Ok,
            final(w)@ == old(w)@ + Self::prologue(),
    ;

    /// Reads a whole stream: checks its beginning, then reads record after
    /// record until a read finds none. The first error ends the reading and
    /// is the result.
    fn from_read(r: &mut ByteSource) -> (records: Result<Vec<YPBankRecord>, ParseError>)
        ensures
            records_result_view(records) == read_after_prologue::<RecordParser>(
                Self::check_prologue(old(r)@),
                old(r)@,
            ).0,
            final(r)@ == old(r)@.skip(
                read_after_prologue::<RecordParser>(Self::check_prologue(old(r)@), old(r)@).1 as int,
            ),
    {
        let ghost start = r@;
        proof {
            Self::lemma_check_prologue_len(start);
        }
        match Self::pre_read(r) {
            Ok(_) => {},
            Err(error) => {
                return Err(error);
            },
        }
        let ghost body = r@;
        let ghost mut used: nat = 0;
        let mut records: Vec<YPBankRecord> = Vec::new();
        assert(body.skip(0) == body);
        assert(views_of(records@) == Seq::<YPBankRecordView>::empty());
        assert(match read_records::<RecordParser>(body).0 {
            Ok(tail) => Seq::<YPBankRecordView>::empty() + tail == tail,
            Err(_) => true,
        });
        loop
            invariant
                start == old(r)@,
                Self::check_prologue(start).0 is Ok,
                Self::check_prologue(start).1 <= start.len(),
                body == start.skip(Self::check_prologue(start).1 as int),
                used <= body.len(),
                r@ == body.skip(used as int),
                read_records::<RecordParser>(body).0 == extended(
                    views_of(records@),
                    read_records::<RecordParser>(r@).0,
                ),
                read_records::<RecordParser>(body).1 == used + read_records::<RecordParser>(
                    r@,
                ).1,
            decreases r@.len(),
        {
            let ghost before = r@;
            let ghost so_far = views_of(records@);
            proof {
                RecordParser::lemma_decode_one_len(before);
            }
            match RecordParser::from_read(r) {
                Err(error) => {
                    proof {
                        let n = RecordParser::decode_one(before).1;
                        assert(body.skip(used as int).skip(n as int) == body.skip((used + n) as int));
                        assert(start.skip(Self::check_prologue(start).1 as int).skip(
                            (used + n) as int,
                        ) == start.skip((Self::check_prologue(start).1 + used + n) as int));
                    }
                    return Err(error);
                },
                Ok(None) => {
                    proof {
                        let n = RecordParser::decode_one(before).1;
                        assert(so_far + Seq::<YPBankRecordView>::empty() == so_far);
                        assert(body.skip(used as int).skip(n as int) == body.skip((used + n) as int));
                        assert(start.skip(Self::check_prologue(start).1 as int).skip(
                            (used + n) as int,
                        ) == start.skip((Self::check_prologue(start).1 + used + n) as int));
                    }
                    return Ok(records);
                },
                Ok(Some(record)) => {
                    let ghost view = record@;
                    records.push(record);
                    proof {
                        let n = RecordParser::decode_one(before).1;
                        assert(views_of(records@) == so_far.push(view));
                        assert(body.skip(used as int).skip(n as int) == body.skip((used + n) as int));
                        match read_records::<RecordParser>(r@).0 {
                            Ok(tail) => {
                                assert(so_far + (seq![view] + tail) == so_far.push(view) + tail);
                            },
                            Err(_) => {},
                        }
                        used = used + n;
                    }
                },
            }
        }
    }

    /// Writes a whole stream: what stands before the first record, then the
    /// records in their order.
    fn write_to(w: &mut Vec<u8>, records: &Vec<YPBankRecord>) -> (written: Result<
        (),
        ParseError,
    >)
        requires
            forall|i: int|
                0 <= i < records.len() ==> RecordParser::writable(#[trigger] records[i]@),
        ensures
            written is Ok,
            final(w)@ == old(w)@ + (Self::prologue() + encode_records::<RecordParser>(
                views_of(records@),
            )),
    {
        match Self::pre_write(w) {
            Ok(_) => {},
            Err(error) => {
                return Err(error);
            },
        }
        let mut i: usize = 0;
        while i < records.len()
            invariant
                i <= records.len(),
                forall|j: int|
                    0 <= j < records.len() ==> RecordParser::writable(#[trigger] records[j]@),
                w@ == old(w)@ + Self::prologue() + encode_records::<RecordParser>(
                    views_of(records@).subrange(0, i as int),
                ),
            decreases records.len() - i,
        {
            let ghost before = w@;
            match RecordParser::write_to(&records[i], w) {
                Ok(_) => {},
                Err(error) => {
                    return Err(error);
                },
            }
            proof {
                let views = views_of(records@);
                let done = views.subrange(0, i + 1);
                assert(done.drop_last() == views.subrange(0, i as int));
                assert(done.last() == records[i as int]@);
                assert(w@ == old(w)@ + Self::prologue() + encode_records::<RecordParser>(done));
            }
            i += 1;
        }
        proof {
            let views = views_of(records@);
            assert(views.subrange(0, i as int) == views);
            assert(old(w)@ + Self::prologue() + encode_records::<RecordParser>(views) == old(w)@
                + (Self::prologue() + encode_records::<RecordParser>(views)));
        }
        Ok(())
    }
}

/// What reading a whole stream makes of `bytes`, where `checked` is what
/// the check of its beginning gave: the error of the check, or what reading
/// record after record makes of the bytes that the check left.
pub open spec fn read_after_prologue<R: YPBankRecordParser + ?Sized>(
    checked: (Result<(), ParseErrorView>, nat),
    bytes: Seq<u8>,
) -> (Result<Seq<YPBankRecordView>, ParseErrorView>, nat) {
    match checked.0 {
        Err(error) => (Err(error), checked.1),
        Ok(_) => {
            let (records, more) = read_records::<R>(bytes.skip(checked.1 as int));
            (records, checked.1 + more)
        },
    }
}

/// What reading a whole stream makes of `bytes`: the records, or the first
/// error, and how many of the bytes are used up.
pub open spec fn read_stream<R: YPBankRecordParser, P: Parser<R> + ?Sized>(bytes: Seq<u8>) -> (
    Result<Seq<YPBankRecordView>, ParseErrorView>,
    nat,
) {
    read_after_prologue::<R>(P::check_prologue(bytes), bytes)
}

/// The bytes of a whole stream that holds `records`.
pub open spec fn write_stream<R: YPBankRecordParser, P: Parser<R> + ?Sized>(
    records: Seq<YPBankRecordView>,
) -> Seq<u8> {
    P::prologue() + encode_records::<R>(records)
}

/// A stream written from faithful records is read back as those records.
pub proof fn lemma_stream_round_trip<R: YPBankRecordParser, P: Parser<R> + ?Sized>(
    records: Seq<YPBankRecordView>,
)
    requires
        forall|i: int| 0 <= i < records.len() ==> R::faithful(#[trigger] records[i]),
    ensures
        read_stream::<R, P>(write_stream::<R, P>(records)).0 == Ok::<
            Seq<YPBankRecordView>,
            ParseErrorView,
        >(records),
{
    let body = encode_records::<R>(records);
    P::lemma_prologue_read_back(body);
    assert((P::prologue() + body).skip(P::prologue().len() as int) == body);
    lemma_records_round_trip::<R>(records);
}

} // verus!
