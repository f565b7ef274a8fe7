//! The closed sets of values that a record holds, the names and codes that
//! stand for them, and the rules that bind a record's user ids to its type.

use crate::constant::{DEPOSIT, FAILURE, PENDING, SUCCESS, TRANSFER, WITHDRAWAL};
use crate::decimal::{decimal, decimal_string, DecimalScalar};
use crate::error::{result_view, ParseError, ParseErrorView};
use crate::text::{ascii_upper, lowercase, lowercase_of, same_text, uppercase, uppercase_of};
use vstd::prelude::*;
use vstd::string::*;

verus! {

/// Supported file formats for bank transaction records.
#[derive(Debug, Clone, Copy, PartialEq, Eq, Structural)]
pub enum Format {
    Csv,
    Txt,
    Bin,
}

/// The format that `lower` names, where `lower` is `name` in lower case.
pub open spec fn format_of(lower: Seq<char>, name: Seq<char>) -> Result<Format, ParseErrorView> {
    if lower == "csv"@ {
        Ok(Format::Csv)
    } else if lower == "txt"@ {
        Ok(Format::Txt)
    } else if lower == "binary"@ {
        Ok(Format::Bin)
    } else {
        Err(ParseErrorView::InvalidFormat(name))
    }
}

/// The format that `name` names, whatever the case of its letters.
pub open spec fn parse_format(name: Seq<char>) -> Result<Format, ParseErrorView> {
    format_of(lowercase_of(name), name)
}

/// The format that `lower` names, where `lower` is `name` in lower case;
/// `InvalidFormat` with `name` where it names none.
pub fn format_of_lowercase(lower: &str, name: &str) -> (format: Result<Format, ParseError>)
    ensures
        result_view(format) == format_of(lower@, name@),
{
    if same_text(lower, "csv") {
        Ok(Format::Csv)
    } else if same_text(lower, "txt") {
        Ok(Format::Txt)
    } else if same_text(lower, "binary") {
        Ok(Format::Bin)
    } else {
        Err(ParseError::InvalidFormat(String::from_str(name)))
    }
}

impl Format {
    /// The name of this format.
    pub open spec fn name(self) -> Seq<char> {
        match self {
            Format::Csv => "csv"@,
            Format::Txt => "txt"@,
            Format::Bin => "binary"@,
        }
    }

    /// Returns the string representation of the format.
    pub fn as_str(&self) -> (name: &'static str)
        ensures
            name@ == self.name(),
    {
        match self {
            Format::Csv => "csv",
            Format::Txt => "txt",
            Format::Bin => "binary",
        }
    }

    /// The format that `s` names, whatever the case of its letters.
    pub fn from_str(s: &str) -> (format: Result<Format, ParseError>)
        ensures
            result_view(format) == parse_format(s@),
    {
        let lower = lowercase(s);
        format_of_lowercase(lower.as_str(), s)
    }
}

impl std::str::FromStr for Format {
    type Err = ParseError;

    fn from_str(s: &str) -> (format: Result<Self, Self::Err>)
        ensures
            result_view(format) == parse_format(s@),
    {
        Format::from_str(s)
    }
}

/// Type of bank transaction.
#[derive(Debug, Clone, Copy, PartialEq, Eq, Structural)]
pub enum TransactionType {
    Deposit,
    Transfer,
    Withdrawal,
}

/// The transaction type that `upper` names, where `upper` is `token` in
/// upper case.
pub open spec fn transaction_type_of(upper: Seq<char>, token: Seq<char>) -> Result<
    TransactionType,
    ParseErrorView,
> {
    if upper == "DEPOSIT"@ {
        Ok(TransactionType::Deposit)
    } else if upper == "TRANSFER"@ {
        Ok(TransactionType::Transfer)
    } else if upper == "WITHDRAWAL"@ {
        Ok(TransactionType::Withdrawal)
    } else {
        Err(ParseErrorView::InvalidTransactionTypeValue(token))
    }
}

/// The transaction type that `token` names, whatever the case of its letters.
pub open spec fn parse_transaction_type(token: Seq<char>) -> Result<
    TransactionType,
    ParseErrorView,
> {
    transaction_type_of(uppercase_of(token), token)
}

/// The transaction type that the code `val` stands for.
pub open spec fn transaction_type_of_code(val: u8) -> Result<TransactionType, ParseErrorView> {
    if val == 0 {
        Ok(TransactionType::Deposit)
    } else if val == 1 {
        Ok(TransactionType::Transfer)
    } else if val == 2 {
        Ok(TransactionType::Withdrawal)
    } else {
        Err(ParseErrorView::InvalidTransactionTypeValue(decimal(val as nat)))
    }
}

/// The transaction type that `upper` names, where `upper` is `token` in
/// upper case; `InvalidTransactionTypeValue` with `token` where it names none.
pub fn transaction_type_of_uppercase(upper: &str, token: &str) -> (transaction_type: Result<
    TransactionType,
    ParseError,
>)
    ensures
        result_view(transaction_type) == transaction_type_of(upper@, token@),
{
    if same_text(upper, DEPOSIT) {
        Ok(TransactionType::Deposit)
    } else if same_text(upper, TRANSFER) {
        Ok(TransactionType::Transfer)
    } else if same_text(upper, WITHDRAWAL) {
        Ok(TransactionType::Withdrawal)
    } else {
        Err(ParseError::InvalidTransactionTypeValue(String::from_str(token)))
    }
}

impl TransactionType {
    /// The token that stands for this type in text.
    pub open spec fn name(self) -> Seq<char> {
        match self {
            TransactionType::Deposit => "DEPOSIT"@,
            TransactionType::Transfer => "TRANSFER"@,
            TransactionType::Withdrawal => "WITHDRAWAL"@,
        }
    }

    /// The code that stands for this type in the binary encoding.
    pub open spec fn code(self) -> u8 {
        match self {
            TransactionType::Deposit => 0,
            TransactionType::Transfer => 1,
            TransactionType::Withdrawal => 2,
        }
    }

    pub fn as_str(&self) -> (name: &'static str)
        ensures
            name@ == self.name(),
    {
        match self {
            TransactionType::Deposit => DEPOSIT,
            TransactionType::Transfer => TRANSFER,
            TransactionType::Withdrawal => WITHDRAWAL,
        }
    }

    pub fn from_int(val: u8) -> (transaction_type: Result<Self, ParseError>)
        ensures
            result_view(transaction_type) == transaction_type_of_code(val),
    {
        match val {
            0 => Ok(TransactionType::Deposit),
            1 => Ok(TransactionType::Transfer),
            2 => Ok(TransactionType::Withdrawal),
            _ => Err(ParseError::InvalidTransactionTypeValue(decimal_string(val as u64))),
        }
    }

    pub fn as_int(&self) -> (code: u8)
        ensures
            code == self.code(),
    {
        match self {
            TransactionType::Deposit => 0,
            TransactionType::Transfer => 1,
            TransactionType::Withdrawal => 2,
        }
    }

    /// The transaction type that `s` names, whatever the case of its letters.
    pub fn from_str(s: &str) -> (transaction_type: Result<Self, ParseError>)
        ensures
            result_view(transaction_type) == parse_transaction_type(s@),
    {
        let upper = uppercase(s);
        transaction_type_of_uppercase(upper.as_str(), s)
    }
}

impl std::str::FromStr for TransactionType {
    type Err = ParseError;

    fn from_str(s: &str) -> (transaction_type: Result<Self, Self::Err>)
        ensures
            result_view(transaction_type) == parse_transaction_type(s@),
    {
        TransactionType::from_str(s)
    }
}

/// Status of a bank transaction.
#[derive(Debug, Clone, Copy, PartialEq, Eq, Structural)]
pub enum TransactionStatus {
    Success,
    Failure,
    Pending,
}

/// The status that `upper` names, where `upper` is `token` in upper case.
pub open spec fn transaction_status_of(upper: Seq<char>, token: Seq<char>) -> Result<
    TransactionStatus,
    ParseErrorView,
> {
    if upper == "SUCCESS"@ {
        Ok(TransactionStatus::Success)
    } else if upper == "FAILURE"@ {
        Ok(TransactionStatus::Failure)
    } else if upper == "PENDING"@ {
        Ok(TransactionStatus::Pending)
    } else {
        Err(ParseErrorView::InvalidStatusValue(token))
    }
}

/// The status that `token` names, whatever the case of its letters.
pub open spec fn parse_transaction_status(token: Seq<char>) -> Result<
    TransactionStatus,
    ParseErrorView,
> {
    transaction_status_of(uppercase_of(token), token)
}

/// The status that the code `val` stands for.
pub open spec fn transaction_status_of_code(val: u8) -> Result<TransactionStatus, ParseErrorView> {
    if val == 0 {
        Ok(TransactionStatus::Success)
    } else if val == 1 {
        Ok(TransactionStatus::Failure)
    } else if val == 2 {
        Ok(TransactionStatus::Pending)
    } else {
        Err(ParseErrorView::InvalidStatusValue(decimal(val as nat)))
    }
}

/// The status that `upper` names, where `upper` is `token` in upper case;
/// `InvalidStatusValue` with `token` where it names none.
pub fn transaction_status_of_uppercase(upper: &str, token: &str) -> (status: Result<
    TransactionStatus,
    ParseError,
>)
    ensures
        result_view(status) == transaction_status_of(upper@, token@),
{
    if same_text(upper, SUCCESS) {
        Ok(TransactionStatus::Success)
    } else if same_text(upper, FAILURE) {
        Ok(TransactionStatus::Failure)
    } else if same_text(upper, PENDING) {
        Ok(TransactionStatus::Pending)
    } else {
        Err(ParseError::InvalidStatusValue(String::from_str(token)))
    }
}

impl TransactionStatus {
    /// The token that stands for this status in text.
    pub open spec fn name(self) -> Seq<char> {
        match self {
            TransactionStatus::Success => "SUCCESS"@,
            TransactionStatus::Failure => "FAILURE"@,
            TransactionStatus::Pending => "PENDING"@,
        }
    }

    /// The code that stands for this status in the binary encoding.
    pub open spec fn code(self) -> u8 {
        match self {
            TransactionStatus::Success => 0,
            TransactionStatus::Failure => 1,
            TransactionStatus::Pending => 2,
        }
    }

    pub fn as_str(&self) -> (name: &'static str)
        ensures
            name@ == self.name(),
    {
        match self {
            TransactionStatus::Success => SUCCESS,
            TransactionStatus::Failure => FAILURE,
            TransactionStatus::Pending => PENDING,
        }
    }

    pub fn from_int(val: u8) -> (status: Result<Self, ParseError>)
        ensures
            result_view(status) == transaction_status_of_code(val),
    {
        match val {
            0 => Ok(TransactionStatus::Success),
            1 => Ok(TransactionStatus::Failure),
            2 => Ok(TransactionStatus::Pending),
            _ => Err(ParseError::InvalidStatusValue(decimal_string(val as u64))),
        }
    }

    pub fn as_int(&self) -> (code: u8)
        ensures
            code == self.code(),
    {
        match self {
            TransactionStatus::Success => 0,
            TransactionStatus::Failure => 1,
            TransactionStatus::Pending => 2,
        }
    }

    /// The status that `s` names, whatever the case of its letters.
    pub fn from_str(s: &str) -> (status: Result<Self, ParseError>)
        ensures
            result_view(status) == parse_transaction_status(s@),
    {
        let upper = uppercase(s);
        transaction_status_of_uppercase(upper.as_str(), s)
    }
}

impl std::str::FromStr for TransactionStatus {
    type Err = ParseError;

    fn from_str(s: &str) -> (status: Result<Self, Self::Err>)
        ensures
            result_view(status) == parse_transaction_status(s@),
    {
        TransactionStatus::from_str(s)
    }
}

/// The number that `text` denotes; `InvalidRawValue` with `text` where it
/// denotes none of the type asked for.
pub open spec fn parse_scalar<T: DecimalScalar>(text: Seq<char>) -> Result<T, ParseErrorView> {
    match T::of_decimal(text) {
        Some(value) => Ok(value),
        None => Err(ParseErrorView::InvalidRawValue(text)),
    }
}

/// `value` as the sender of a transaction of type `transaction_type`: 0 is
/// accepted in a deposit only.
pub open spec fn checked_from_user_id(value: u64, transaction_type: TransactionType) -> Result<
    u64,
    ParseErrorView,
> {
    if value == 0 && transaction_type != TransactionType::Deposit {
        Err(ParseErrorView::InvalidUserId(decimal(0), transaction_type))
    } else {
        Ok(value)
    }
}

/// `value` as the receiver of a transaction of type `transaction_type`: 0
/// is accepted in a withdrawal only.
pub open spec fn checked_to_user_id(value: u64, transaction_type: TransactionType) -> Result<
    u64,
    ParseErrorView,
> {
    if value == 0 && transaction_type != TransactionType::Withdrawal {
        Err(ParseErrorView::InvalidUserId(decimal(0), transaction_type))
    } else {
        Ok(value)
    }
}

/// The sender that `text` denotes in a transaction of type
/// `transaction_type`.
pub open spec fn parsed_from_user_id(text: Seq<char>, transaction_type: TransactionType) -> Result<
    u64,
    ParseErrorView,
> {
    match parse_scalar::<u64>(text) {
        Ok(value) => checked_from_user_id(value, transaction_type),
        Err(error) => Err(error),
    }
}

/// The receiver that `text` denotes in a transaction of type
/// `transaction_type`.
pub open spec fn parsed_to_user_id(text: Seq<char>, transaction_type: TransactionType) -> Result<
    u64,
    ParseErrorView,
> {
    match parse_scalar::<u64>(text) {
        Ok(value) => checked_to_user_id(value, transaction_type),
        Err(error) => Err(error),
    }
}

pub fn parse_value_from_string<T: DecimalScalar>(s: String) -> (value: Result<T, ParseError>)
    ensures
        result_view(value) == parse_scalar::<T>(s@),
{
    match T::parse_decimal(s.as_str()) {
        Some(v) => Ok(v),
        None => Err(ParseError::InvalidRawValue(s)),
    }
}

pub fn parse_from_user_id(s: String, transaction_type: TransactionType) -> (user_id: Result<
    u64,
    ParseError,
>)
    ensures
        result_view(user_id) == parsed_from_user_id(s@, transaction_type),
{
    match parse_value_from_string::<u64>(s) {
        Ok(val) => validate_from_user_id(val, transaction_type),
        Err(error) => Err(error),
    }
}

pub fn parse_to_user_id(s: String, transaction_type: TransactionType) -> (user_id: Result<
    u64,
    ParseError,
>)
    ensures
        result_view(user_id) == parsed_to_user_id(s@, transaction_type),
{
    match parse_value_from_string::<u64>(s) {
        Ok(val) => validate_to_user_id(val, transaction_type),
        Err(error) => Err(error),
    }
}

pub fn validate_from_user_id(val: u64, transaction_type: TransactionType) -> (user_id: Result<
    u64,
    ParseError,
>)
    ensures
        result_view(user_id) == checked_from_user_id(val, transaction_type),
{
    if val == 0 && transaction_type != TransactionType::Deposit {
        return Err(ParseError::InvalidUserId(decimal_string(val), transaction_type));
    }
    Ok(val)
}

pub fn validate_to_user_id(val: u64, transaction_type: TransactionType) -> (user_id: Result<
    u64,
    ParseError,
>)
    ensures
        result_view(user_id) == checked_to_user_id(val, transaction_type),
{
    if val == 0 && transaction_type != TransactionType::Withdrawal {
        return Err(ParseError::InvalidUserId(decimal_string(val), transaction_type));
    }
    Ok(val)
}

/// The token of a transaction type names that type.
pub proof fn lemma_transaction_type_name(transaction_type: TransactionType)
    ensures
        parse_transaction_type(transaction_type.name()) == Ok::<TransactionType, ParseErrorView>(
            transaction_type,
        ),
{
    reveal_strlit("DEPOSIT");
    reveal_strlit("TRANSFER");
    reveal_strlit("WITHDRAWAL");
    let name = transaction_type.name();
    assert(name.map_values(|c: char| ascii_upper(c)) == name);
    assert("DEPOSIT"@[0] != "TRANSFER"@[0]);
    assert("DEPOSIT"@[0] != "WITHDRAWAL"@[0]);
    assert("TRANSFER"@[0] != "WITHDRAWAL"@[0]);
}

/// The token of a status names that status.
pub proof fn lemma_transaction_status_name(status: TransactionStatus)
    ensures
        parse_transaction_status(status.name()) == Ok::<TransactionStatus, ParseErrorView>(
            status,
        ),
{
    reveal_strlit("SUCCESS");
    reveal_strlit("FAILURE");
    reveal_strlit("PENDING");
    let name = status.name();
    assert(name.map_values(|c: char| ascii_upper(c)) == name);
    assert("SUCCESS"@[0] != "FAILURE"@[0]);
    assert("SUCCESS"@[0] != "PENDING"@[0]);
    assert("FAILURE"@[0] != "PENDING"@[0]);
}

} // verus!
