use parser::common::{
    format_of_lowercase, parse_from_user_id, parse_to_user_id, parse_value_from_string,
    transaction_status_of_uppercase, transaction_type_of_uppercase, validate_from_user_id,
    validate_to_user_id,
};
use parser::{Format, ParseError, TransactionStatus, TransactionType, YPBankRecord};

#[test]
fn format_names_resolve_whatever_their_case() {
    assert_eq!(Format::from_str("CSV"), Ok(Format::Csv));
    assert_eq!(Format::from_str("Csv"), Ok(Format::Csv));
    assert_eq!(Format::from_str("csv"), Ok(Format::Csv));
    assert_eq!(Format::from_str("txt"), Ok(Format::Txt));
    assert_eq!(Format::from_str("TXT"), Ok(Format::Txt));
    assert_eq!(Format::from_str("binary"), Ok(Format::Bin));
    assert_eq!(Format::from_str("BiNaRy"), Ok(Format::Bin));
}

#[test]
fn unknown_format_name_is_refused() {
    assert_eq!(
        Format::from_str("json"),
        Err(ParseError::InvalidFormat("json".to_string()))
    );
    assert_eq!(
        Format::from_str("JSON"),
        Err(ParseError::InvalidFormat("JSON".to_string()))
    );
    assert_eq!(
        Format::from_str(""),
        Err(ParseError::InvalidFormat("".to_string()))
    );
    assert_eq!(
        Format::from_str("bin"),
        Err(ParseError::InvalidFormat("bin".to_string()))
    );
    assert_eq!(
        Format::from_str(" csv"),
        Err(ParseError::InvalidFormat(" csv".to_string()))
    );
}

#[test]
fn format_parses_through_the_standard_trait() {
    assert_eq!("Csv".parse::<Format>(), Ok(Format::Csv));
    assert_eq!("DEPOSIT".parse::<TransactionType>(), Ok(TransactionType::Deposit));
    assert_eq!("pending".parse::<TransactionStatus>(), Ok(TransactionStatus::Pending));
}

#[test]
fn format_names_are_read_back() {
    for format in [Format::Csv, Format::Txt, Format::Bin] {
        assert_eq!(Format::from_str(format.as_str()), Ok(format));
    }
    assert_eq!(Format::Csv.as_str(), "csv");
    assert_eq!(Format::Txt.as_str(), "txt");
    assert_eq!(Format::Bin.as_str(), "binary");
}

#[test]
fn format_of_lowercase_keeps_the_name_for_the_error() {
    assert_eq!(format_of_lowercase("csv", "CSV"), Ok(Format::Csv));
    assert_eq!(format_of_lowercase("txt", "whatever"), Ok(Format::Txt));
    assert_eq!(
        format_of_lowercase("CSV", "CSV"),
        Err(ParseError::InvalidFormat("CSV".to_string()))
    );
    assert_eq!(
        format_of_lowercase("yaml", "YAML"),
        Err(ParseError::InvalidFormat("YAML".to_string()))
    );
}

#[test]
fn transaction_type_tokens() {
    assert_eq!(TransactionType::Deposit.as_str(), "DEPOSIT");
    assert_eq!(TransactionType::Transfer.as_str(), "TRANSFER");
    assert_eq!(TransactionType::Withdrawal.as_str(), "WITHDRAWAL");
    assert_eq!(TransactionType::from_str("DEPOSIT"), Ok(TransactionType::Deposit));
    assert_eq!(TransactionType::from_str("deposit"), Ok(TransactionType::Deposit));
    assert_eq!(TransactionType::from_str("Transfer"), Ok(TransactionType::Transfer));
    assert_eq!(TransactionType::from_str("withDRAWal"), Ok(TransactionType::Withdrawal));
    assert_eq!(
        TransactionType::from_str("DEPOSITS"),
        Err(ParseError::InvalidTransactionTypeValue("DEPOSITS".to_string()))
    );
    assert_eq!(
        TransactionType::from_str(""),
        Err(ParseError::InvalidTransactionTypeValue("".to_string()))
    );
    assert_eq!(
        TransactionType::from_str(" DEPOSIT"),
        Err(ParseError::InvalidTransactionTypeValue(" DEPOSIT".to_string()))
    );
}

#[test]
fn transaction_type_tokens_follow_unicode_upper_case() {
    assert_eq!(
        TransactionType::from_str("depo\u{17f}it"),
        Ok(TransactionType::Deposit)
    );
    assert_eq!(
        TransactionStatus::from_str("succe\u{df}"),
        Ok(TransactionStatus::Success)
    );
}

#[test]
fn transaction_type_of_uppercase_keeps_the_token_for_the_error() {
    assert_eq!(
        transaction_type_of_uppercase("DEPOSIT", "Deposit"),
        Ok(TransactionType::Deposit)
    );
    assert_eq!(
        transaction_type_of_uppercase("deposit", "deposit"),
        Err(ParseError::InvalidTransactionTypeValue("deposit".to_string()))
    );
    assert_eq!(
        transaction_type_of_uppercase("REFUND", "Refund"),
        Err(ParseError::InvalidTransactionTypeValue("Refund".to_string()))
    );
    assert_eq!(
        transaction_status_of_uppercase("PENDING", "pending"),
        Ok(TransactionStatus::Pending)
    );
    assert_eq!(
        transaction_status_of_uppercase("DONE", "done"),
        Err(ParseError::InvalidStatusValue("done".to_string()))
    );
}

#[test]
fn transaction_type_codes() {
    assert_eq!(TransactionType::Deposit.as_int(), 0);
    assert_eq!(TransactionType::Transfer.as_int(), 1);
    assert_eq!(TransactionType::Withdrawal.as_int(), 2);
    assert_eq!(TransactionType::from_int(0), Ok(TransactionType::Deposit));
    assert_eq!(TransactionType::from_int(1), Ok(TransactionType::Transfer));
    assert_eq!(TransactionType::from_int(2), Ok(TransactionType::Withdrawal));
    assert_eq!(
        TransactionType::from_int(3),
        Err(ParseError::InvalidTransactionTypeValue("3".to_string()))
    );
    assert_eq!(
        TransactionType::from_int(255),
        Err(ParseError::InvalidTransactionTypeValue("255".to_string()))
    );
}

#[test]
fn transaction_status_tokens_and_codes() {
    assert_eq!(TransactionStatus::Success.as_str(), "SUCCESS");
    assert_eq!(TransactionStatus::Failure.as_str(), "FAILURE");
    assert_eq!(TransactionStatus::Pending.as_str(), "PENDING");
    assert_eq!(TransactionStatus::Success.as_int(), 0);
    assert_eq!(TransactionStatus::Failure.as_int(), 1);
    assert_eq!(TransactionStatus::Pending.as_int(), 2);
    assert_eq!(TransactionStatus::from_int(0), Ok(TransactionStatus::Success));
    assert_eq!(TransactionStatus::from_int(1), Ok(TransactionStatus::Failure));
    assert_eq!(TransactionStatus::from_int(2), Ok(TransactionStatus::Pending));
    assert_eq!(
        TransactionStatus::from_int(9),
        Err(ParseError::InvalidStatusValue("9".to_string()))
    );
    assert_eq!(TransactionStatus::from_str("failure"), Ok(TransactionStatus::Failure));
    assert_eq!(
        TransactionStatus::from_str("FAILED"),
        Err(ParseError::InvalidStatusValue("FAILED".to_string()))
    );
}

#[test]
fn scalars_are_read_from_decimal_text() {
    assert_eq!(parse_value_from_string::<u64>("1633036860000".to_string()), Ok(1633036860000));
    assert_eq!(parse_value_from_string::<i64>("-100".to_string()), Ok(-100));
    assert_eq!(parse_value_from_string::<i64>("+100".to_string()), Ok(100));
    assert_eq!(
        parse_value_from_string::<u64>("-100".to_string()),
        Err(ParseError::InvalidRawValue("-100".to_string()))
    );
    assert_eq!(
        parse_value_from_string::<u64>("12 ".to_string()),
        Err(ParseError::InvalidRawValue("12 ".to_string()))
    );
    assert_eq!(
        parse_value_from_string::<u64>("".to_string()),
        Err(ParseError::InvalidRawValue("".to_string()))
    );
    assert_eq!(
        parse_value_from_string::<i64>("9223372036854775808".to_string()),
        Err(ParseError::InvalidRawValue("9223372036854775808".to_string()))
    );
}

#[test]
fn sender_of_zero_is_allowed_in_a_deposit_only() {
    assert_eq!(validate_from_user_id(0, TransactionType::Deposit), Ok(0));
    assert_eq!(
        validate_from_user_id(0, TransactionType::Transfer),
        Err(ParseError::InvalidUserId("0".to_string(), TransactionType::Transfer))
    );
    assert_eq!(
        validate_from_user_id(0, TransactionType::Withdrawal),
        Err(ParseError::InvalidUserId("0".to_string(), TransactionType::Withdrawal))
    );
    assert_eq!(validate_from_user_id(5, TransactionType::Transfer), Ok(5));
    assert_eq!(validate_from_user_id(u64::MAX, TransactionType::Withdrawal), Ok(u64::MAX));
}

#[test]
fn receiver_of_zero_is_allowed_in_a_withdrawal_only() {
    assert_eq!(validate_to_user_id(0, TransactionType::Withdrawal), Ok(0));
    assert_eq!(
        validate_to_user_id(0, TransactionType::Transfer),
        Err(ParseError::InvalidUserId("0".to_string(), TransactionType::Transfer))
    );
    assert_eq!(
        validate_to_user_id(0, TransactionType::Deposit),
        Err(ParseError::InvalidUserId("0".to_string(), TransactionType::Deposit))
    );
    assert_eq!(validate_to_user_id(7, TransactionType::Deposit), Ok(7));
}

#[test]
fn user_ids_are_read_then_checked() {
    assert_eq!(parse_from_user_id("0".to_string(), TransactionType::Deposit), Ok(0));
    assert_eq!(
        parse_from_user_id("0".to_string(), TransactionType::Transfer),
        Err(ParseError::InvalidUserId("0".to_string(), TransactionType::Transfer))
    );
    assert_eq!(
        parse_from_user_id("000".to_string(), TransactionType::Transfer),
        Err(ParseError::InvalidUserId("0".to_string(), TransactionType::Transfer))
    );
    assert_eq!(
        parse_from_user_id("x".to_string(), TransactionType::Transfer),
        Err(ParseError::InvalidRawValue("x".to_string()))
    );
    assert_eq!(parse_to_user_id("0".to_string(), TransactionType::Withdrawal), Ok(0));
    assert_eq!(
        parse_to_user_id("0".to_string(), TransactionType::Deposit),
        Err(ParseError::InvalidUserId("0".to_string(), TransactionType::Deposit))
    );
    assert_eq!(
        parse_to_user_id("-1".to_string(), TransactionType::Deposit),
        Err(ParseError::InvalidRawValue("-1".to_string()))
    );
    assert_eq!(parse_to_user_id("42".to_string(), TransactionType::Deposit), Ok(42));
}

#[test]
fn record_new_keeps_its_arguments() {
    let record = YPBankRecord::new(
        1,
        TransactionType::Withdrawal,
        2,
        0,
        -5,
        3,
        TransactionStatus::Success,
        "d".to_string(),
    );
    assert_eq!(record.id, 1);
    assert_eq!(record.transaction_type, TransactionType::Withdrawal);
    assert_eq!(record.from_user_id, 2);
    assert_eq!(record.to_user_id, 0);
    assert_eq!(record.amount, -5);
    assert_eq!(record.ts, 3);
    assert_eq!(record.status, TransactionStatus::Success);
    assert_eq!(record.description, "d");
}
