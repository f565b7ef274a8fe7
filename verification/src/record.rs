//! The bank transaction record that every encoding reads and writes.

use crate::common::{TransactionStatus, TransactionType};
use crate::error::{ParseError, ParseErrorView};
use vstd::prelude::*;
use vstd::string::*;

verus! {

/// Represents a bank transaction record.
#[derive(Debug, PartialEq, Eq)]
pub struct YPBankRecord {
    pub id: u64,
    pub transaction_type: TransactionType,
    pub from_user_id: u64,
    pub to_user_id: u64,
    pub amount: i64,
    pub ts: u64,
    pub status: TransactionStatus,
    pub description: String,
}

/// A record with its description as a sequence of characters.
pub ghost struct YPBankRecordView {
    pub id: u64,
    pub transaction_type: TransactionType,
    pub from_user_id: u64,
    pub to_user_id: u64,
    pub amount: i64,
    pub ts: u64,
    pub status: TransactionStatus,
    pub description: Seq<char>,
}

impl YPBankRecordView {
    /// A sender of 0 is allowed in a deposit only, a receiver of 0 in a
    /// withdrawal only.
    pub open spec fn valid(self) -> bool {
        &&& self.from_user_id == 0 ==> self.transaction_type == TransactionType::Deposit
        &&& self.to_user_id == 0 ==> self.transaction_type == TransactionType::Withdrawal
    }
}

impl YPBankRecordView {
    /// This record with `description` in place of its own.
    pub open spec fn with_description(self, description: Seq<char>) -> YPBankRecordView {
        YPBankRecordView {
            id: self.id,
            transaction_type: self.transaction_type,
            from_user_id: self.from_user_id,
            to_user_id: self.to_user_id,
            amount: self.amount,
            ts: self.ts,
            status: self.status,
            description,
        }
    }
}

impl View for YPBankRecord {
    type V = YPBankRecordView;

    open spec fn view(&self) -> YPBankRecordView {
        YPBankRecordView {
            id: self.id,
            transaction_type: self.transaction_type,
            from_user_id: self.from_user_id,
            to_user_id: self.to_user_id,
            amount: self.amount,
            ts: self.ts,
            status: self.status,
            description: self.description@,
        }
    }
}

/// The views of the records of `records`, in order.
pub open spec fn views_of(records: Seq<YPBankRecord>) -> Seq<YPBankRecordView> {
    records.map_values(|r: YPBankRecord| r@)
}

/// The outcome of making one record, seen through views.
pub open spec fn made_record_view(result: Result<YPBankRecord, ParseError>) -> Result<
    YPBankRecordView,
    ParseErrorView,
> {
    match result {
        Ok(record) => Ok(record@),
        Err(error) => Err(error@),
    }
}

/// A record that was made, or the error of making it, as the outcome of a
/// read that found a record.
pub open spec fn read_outcome(made: Result<YPBankRecordView, ParseErrorView>) -> Result<
    Option<YPBankRecordView>,
    ParseErrorView,
> {
    match made {
        Ok(record) => Ok(Some(record)),
        Err(error) => Err(error),
    }
}

/// The outcome of reading one record, seen through views.
pub open spec fn record_result_view(result: Result<Option<YPBankRecord>, ParseError>) -> Result<
    Option<YPBankRecordView>,
    ParseErrorView,
> {
    match result {
        Ok(Some(record)) => Ok(Some(record@)),
        Ok(None) => Ok(None),
        Err(error) => Err(error@),
    }
}

/// The outcome of reading a sequence of records, seen through views.
pub open spec fn records_result_view(result: Result<Vec<YPBankRecord>, ParseError>) -> Result<
    Seq<YPBankRecordView>,
    ParseErrorView,
> {
    match result {
        Ok(records) => Ok(views_of(records@)),
        Err(error) => Err(error@),
    }
}

impl YPBankRecord {
    pub fn new(
        id: u64,
        transaction_type: TransactionType,
        from_user_id: u64,
        to_user_id: u64,
        amount: i64,
        ts: u64,
        status: TransactionStatus,
        description: String,
    ) -> (record: Self)
        ensures
            record@ == (YPBankRecordView {
                id,
                transaction_type,
                from_user_id,
                to_user_id,
                amount,
                ts,
                status,
                description: description@,
            }),
    {
        Self { id, transaction_type, from_user_id, to_user_id, amount, ts, status, description }
    }
}

} // verus!
