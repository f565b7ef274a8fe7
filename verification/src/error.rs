//! The failures that reading and writing bank records can end in.

use crate::common::TransactionType;
use vstd::prelude::*;
use vstd::string::*;

verus! {

/// Errors that can occur during parsing or writing of bank records.
#[derive(Debug, PartialEq, Eq)]
pub enum ParseError {
    IOError(String),
    InvalidTransactionTypeValue(String),
    InvalidStatusValue(String),
    InvalidUserId(String, TransactionType),
    InvalidRawValue(String),
    InvalidRow(String),
    InvalidCsvHeader(String),
    UnexpectedEOF,
    FieldNotFound(String),
    InconsistentRecord(String),
    InvalidMagic(String),
    InvalidFormat(String),
}

/// A `ParseError` with the text it carries as a sequence of characters.
pub ghost enum ParseErrorView {
    IOError(Seq<char>),
    InvalidTransactionTypeValue(Seq<char>),
    InvalidStatusValue(Seq<char>),
    InvalidUserId(Seq<char>, TransactionType),
    InvalidRawValue(Seq<char>),
    InvalidRow(Seq<char>),
    InvalidCsvHeader(Seq<char>),
    UnexpectedEOF,
    FieldNotFound(Seq<char>),
    InconsistentRecord(Seq<char>),
    InvalidMagic(Seq<char>),
    InvalidFormat(Seq<char>),
}

impl View for ParseError {
    type V = ParseErrorView;

    open spec fn view(&self) -> ParseErrorView {
        match self {
            ParseError::IOError(msg) => ParseErrorView::IOError(msg@),
            ParseError::InvalidTransactionTypeValue(msg) => {
                ParseErrorView::InvalidTransactionTypeValue(msg@)
            },
            ParseError::InvalidStatusValue(msg) => ParseErrorView::InvalidStatusValue(msg@),
            ParseError::InvalidUserId(user_id, transaction_type) => ParseErrorView::InvalidUserId(
                user_id@,
                *transaction_type,
            ),
            ParseError::InvalidRawValue(msg) => ParseErrorView::InvalidRawValue(msg@),
            ParseError::InvalidRow(msg) => ParseErrorView::InvalidRow(msg@),
            ParseError::InvalidCsvHeader(msg) => ParseErrorView::InvalidCsvHeader(msg@),
            ParseError::UnexpectedEOF => ParseErrorView::UnexpectedEOF,
            ParseError::FieldNotFound(msg) => ParseErrorView::FieldNotFound(msg@),
            ParseError::InconsistentRecord(msg) => ParseErrorView::InconsistentRecord(msg@),
            ParseError::InvalidMagic(msg) => ParseErrorView::InvalidMagic(msg@),
            ParseError::InvalidFormat(msg) => ParseErrorView::InvalidFormat(msg@),
        }
    }
}

impl ParseErrorView {
    /// The sentence that describes this error to a reader.
    pub open spec fn message(self) -> Seq<char> {
        match self {
            ParseErrorView::IOError(msg) => "Read error: "@ + msg,
            ParseErrorView::InvalidTransactionTypeValue(msg) => {
                "Invalid transaction type value found: "@ + msg
            },
            ParseErrorView::InvalidStatusValue(msg) => "Invalid status value found: "@ + msg,
            ParseErrorView::InvalidUserId(user_id, transaction_type) => "Invalid user id "@
                + user_id + " for transaction type "@ + transaction_type.name(),
            ParseErrorView::InvalidRawValue(msg) => "Invalid raw value found: "@ + msg,
            ParseErrorView::InvalidRow(msg) => "Invalid row found: "@ + msg,
            ParseErrorView::InvalidCsvHeader(msg) => "Invalid CSV header: "@ + msg,
            ParseErrorView::UnexpectedEOF => "Unexpected EOF"@,
            ParseErrorView::FieldNotFound(msg) => "Value is not set for field: "@ + msg,
            ParseErrorView::InconsistentRecord(msg) => "Inconsistent record found: "@ + msg,
            ParseErrorView::InvalidMagic(msg) => "Invalid magic found: "@ + msg,
            ParseErrorView::InvalidFormat(msg) => "Invalid file format found: "@ + msg,
        }
    }
}

/// `result` with the error it may hold seen as its view.
pub open spec fn result_view<T>(result: Result<T, ParseError>) -> Result<T, ParseErrorView> {
    match result {
        Ok(value) => Ok(value),
        Err(error) => Err(error@),
    }
}

/// `prefix` followed by `detail`.
fn sentence(prefix: &str, detail: &str) -> (s: String)
    ensures
        s@ == prefix@ + detail@,
{
    let mut s = String::from_str(prefix);
    s.append(detail);
    s
}

impl ParseError {
    /// The sentence that describes this error to a reader.
    pub fn to_string(&self) -> (s: String)
        ensures
            s@ == self@.message(),
    {
        match self {
            ParseError::IOError(msg) => sentence("Read error: ", msg.as_str()),
            ParseError::InvalidTransactionTypeValue(msg) => sentence(
                "Invalid transaction type value found: ",
                msg.as_str(),
            ),
            ParseError::InvalidStatusValue(msg) => sentence(
                "Invalid status value found: ",
                msg.as_str(),
            ),
            ParseError::InvalidUserId(user_id, transaction_type) => {
                let mut s = sentence("Invalid user id ", user_id.as_str());
                s.append(" for transaction type ");
                s.append(transaction_type.as_str());
                s
            },
            ParseError::InvalidRawValue(msg) => sentence("Invalid raw value found: ", msg.as_str()),
            ParseError::InvalidRow(msg) => sentence("Invalid row found: ", msg.as_str()),
            ParseError::InvalidCsvHeader(msg) => sentence("Invalid CSV header: ", msg.as_str()),
            ParseError::UnexpectedEOF => String::from_str("Unexpected EOF"),
            ParseError::FieldNotFound(msg) => sentence(
                "Value is not set for field: ",
                msg.as_str(),
            ),
            ParseError::InconsistentRecord(msg) => sentence(
                "Inconsistent record found: ",
                msg.as_str(),
            ),
            ParseError::InvalidMagic(msg) => sentence("Invalid magic found: ", msg.as_str()),
            ParseError::InvalidFormat(msg) => sentence(
                "Invalid file format found: ",
                msg.as_str(),
            ),
        }
    }
}

} // verus!
