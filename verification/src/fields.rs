//! The eight fields of a record as text, which the two encodings made of
//! text share.

use crate::common::{
    lemma_transaction_status_name, lemma_transaction_type_name, parse_from_user_id, parse_scalar,
    parse_to_user_id, parse_transaction_status, parse_transaction_type, parse_value_from_string,
    parsed_from_user_id, parsed_to_user_id, TransactionStatus, TransactionType,
};
use crate::decimal::{
    decimal, is_digit, lemma_decimal_denotes, lemma_i64_of_decimal, lemma_u64_of_decimal,
    signed_decimal,
};
use crate::error::{ParseError, ParseErrorView};
use crate::record::{made_record_view, YPBankRecord, YPBankRecordView};
use vstd::prelude::*;
use vstd::string::*;

verus! {

/// The texts that `values` hold, in order.
pub open spec fn texts_of(values: Seq<String>) -> Seq<Seq<char>> {
    values.map_values(|s: String| s@)
}

/// The record whose eight fields are `fields`: id, type, sender, receiver,
/// amount, timestamp, status and description. The type is read first; the
/// first field after it that cannot be read gives the error.
pub open spec fn record_of_fields(fields: Seq<Seq<char>>) -> Result<
    YPBankRecordView,
    ParseErrorView,
>
    recommends
        fields.len() == 8,
{
    match parse_transaction_type(fields[1]) {
        Err(error) => Err(error),
        Ok(transaction_type) => match parse_scalar::<u64>(fields[0]) {
            Err(error) => Err(error),
            Ok(id) => match parsed_from_user_id(fields[2], transaction_type) {
                Err(error) => Err(error),
                Ok(from_user_id) => match parsed_to_user_id(fields[3], transaction_type) {
                    Err(error) => Err(error),
                    Ok(to_user_id) => match parse_scalar::<i64>(fields[4]) {
                        Err(error) => Err(error),
                        Ok(amount) => match parse_scalar::<u64>(fields[5]) {
                            Err(error) => Err(error),
                            Ok(ts) => match parse_transaction_status(fields[6]) {
                                Err(error) => Err(error),
                                Ok(status) => Ok(
                                    YPBankRecordView {
                                        id,
                                        transaction_type,
                                        from_user_id,
                                        to_user_id,
                                        amount,
                                        ts,
                                        status,
                                        description: fields[7],
                                    },
                                ),
                            },
                        },
                    },
                },
            },
        },
    }
}

/// The eight fields that are written for `record`.
pub open spec fn fields_of_record(record: YPBankRecordView) -> Seq<Seq<char>> {
    seq![
        decimal(record.id as nat),
        record.transaction_type.name(),
        decimal(record.from_user_id as nat),
        decimal(record.to_user_id as nat),
        signed_decimal(record.amount as int),
        decimal(record.ts as nat),
        record.status.name(),
        record.description,
    ]
}

/// Makes the record whose eight fields are `values`.
pub fn record_from_fields(values: &Vec<String>) -> (record: Result<YPBankRecord, ParseError>)
    requires
        values.len() == 8,
    ensures
        made_record_view(record) == record_of_fields(texts_of(values@)),
{
    let transaction_type = match TransactionType::from_str(values[1].as_str()) {
        Ok(v) => v,
        Err(error) => {
            return Err(error);
        },
    };
    let id = match parse_value_from_string::<u64>(values[0].clone()) {
        Ok(v) => v,
        Err(error) => {
            return Err(error);
        },
    };
    let from_user_id = match parse_from_user_id(values[2].clone(), transaction_type) {
        Ok(v) => v,
        Err(error) => {
            return Err(error);
        },
    };
    let to_user_id = match parse_to_user_id(values[3].clone(), transaction_type) {
        Ok(v) => v,
        Err(error) => {
            return Err(error);
        },
    };
    let amount = match parse_value_from_string::<i64>(values[4].clone()) {
        Ok(v) => v,
        Err(error) => {
            return Err(error);
        },
    };
    let ts = match parse_value_from_string::<u64>(values[5].clone()) {
        Ok(v) => v,
        Err(error) => {
            return Err(error);
        },
    };
    let status = match TransactionStatus::from_str(values[6].as_str()) {
        Ok(v) => v,
        Err(error) => {
            return Err(error);
        },
    };
    Ok(
        YPBankRecord::new(
            id,
            transaction_type,
            from_user_id,
            to_user_id,
            amount,
            ts,
            status,
            values[7].clone(),
        ),
    )
}

/// The fields written for a valid record make that record.
pub proof fn lemma_record_of_written_fields(record: YPBankRecordView)
    requires
        record.valid(),
    ensures
        record_of_fields(fields_of_record(record)) == Ok::<YPBankRecordView, ParseErrorView>(
            record,
        ),
{
    lemma_transaction_type_name(record.transaction_type);
    lemma_transaction_status_name(record.status);
    lemma_u64_of_decimal(record.id);
    lemma_u64_of_decimal(record.from_user_id);
    lemma_u64_of_decimal(record.to_user_id);
    lemma_u64_of_decimal(record.ts);
    lemma_i64_of_decimal(record.amount);
}

/// The fields written for a record that is not valid are refused: the user
/// id of 0 that the record's type does not allow gives the error.
pub proof fn lemma_written_fields_refused(record: YPBankRecordView)
    requires
        !record.valid(),
    ensures
        record_of_fields(fields_of_record(record)) == Err::<YPBankRecordView, ParseErrorView>(
            ParseErrorView::InvalidUserId(decimal(0), record.transaction_type),
        ),
{
    lemma_transaction_type_name(record.transaction_type);
    lemma_u64_of_decimal(record.id);
    lemma_u64_of_decimal(record.from_user_id);
    lemma_u64_of_decimal(record.to_user_id);
}

/// Whether `c` is a character of the words that fields are written with:
/// a digit, a capital letter, a minus sign or an underscore.
pub open spec fn is_word_char(c: char) -> bool {
    is_digit(c) || 'A' <= c <= 'Z' || c == '-' || c == '_'
}

/// Whether `s` is a word: not empty, and made of word characters alone.
pub open spec fn is_word(s: Seq<char>) -> bool {
    s.len() > 0 && forall|i: int| 0 <= i < s.len() ==> is_word_char(#[trigger] s[i])
}

/// All fields written for a record but its description are words.
pub proof fn lemma_written_fields_are_words(record: YPBankRecordView)
    ensures
        forall|i: int| 0 <= i < 7 ==> is_word(#[trigger] fields_of_record(record)[i]),
{
    reveal_strlit("DEPOSIT");
    reveal_strlit("TRANSFER");
    reveal_strlit("WITHDRAWAL");
    reveal_strlit("SUCCESS");
    reveal_strlit("FAILURE");
    reveal_strlit("PENDING");
    lemma_decimal_denotes(record.id as nat);
    lemma_decimal_denotes(record.from_user_id as nat);
    lemma_decimal_denotes(record.to_user_id as nat);
    lemma_decimal_denotes(record.ts as nat);
    let fields = fields_of_record(record);
    assert(is_word(fields[4])) by {
        if record.amount < 0 {
            let digits = decimal((-(record.amount as int)) as nat);
            lemma_decimal_denotes((-(record.amount as int)) as nat);
            assert forall|i: int| 0 <= i < fields[4].len() implies is_word_char(
                #[trigger] fields[4][i],
            ) by {
                if i > 0 {
                    assert(fields[4][i] == digits[i - 1]);
                }
            }
        } else {
            lemma_decimal_denotes(record.amount as nat);
        }
    }
    assert(is_word(fields[0]));
    assert(is_word(fields[1]));
    assert(is_word(fields[2]));
    assert(is_word(fields[3]));
    assert(is_word(fields[5]));
    assert(is_word(fields[6]));
}

} // verus!
