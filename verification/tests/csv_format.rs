use parser::csv_format::Separator;
use parser::{
    ByteSource, CsvParser, ParseError, Parser, TransactionStatus, TransactionType,
    YPBankCsvRecordParser, YPBankRecord, YPBankRecordParser,
};

#[test]
fn test_regular_case() {
    let test_line = "val1,val 2, val 3 ".to_string();
    let target_values = vec!["val1", "val 2", " val 3 "];

    let sep = Separator::new(test_line);

    let result = sep.collect();
    assert_eq!(result, target_values);
}

#[test]
fn test_quotes() {
    let test_line = "val1,val 2, \" val,,,3 \" ".to_string();
    let target_values = vec!["val1", "val 2", " \" val,,,3 \" "];

    let sep = Separator::new(test_line);

    let result = sep.collect();
    assert_eq!(result, target_values);
}

#[test]
fn test_empty_line() {
    let test_line = "".to_string();
    let target_values: Vec<String> = vec![];

    let sep = Separator::new(test_line);

    let result = sep.collect();
    assert_eq!(result, target_values);
}

#[test]
fn test_empty_value_in_line() {
    let test_line = "val1,,val3".to_string();
    let target_values = vec!["val1", "", "val3"];

    let sep = Separator::new(test_line);

    let result = sep.collect();
    assert_eq!(result, target_values);
}

#[test]
fn csv_format_test_from_read_regular_case() {
    let raw_line = "1000000000000000,DEPOSIT,1,9223372036854775807,100,1633036860000,FAILURE,\"Record number 1\"\n";
    let mut reader = ByteSource::new(raw_line.as_bytes().to_vec());

    let target_record = YPBankRecord::new(
        1000000000000000,
        TransactionType::Deposit,
        1,
        9223372036854775807,
        100,
        1633036860000,
        TransactionStatus::Failure,
        "\"Record number 1\"".to_string(),
    );

    let result = YPBankCsvRecordParser::from_read(&mut reader);

    assert!(result.is_ok(), "Parsing should succeed");
    let record_opt = result.expect("Should parse successfully");
    assert!(record_opt.is_some(), "Should return Some(record)");
    assert_eq!(record_opt.expect("Should have a record"), target_record);
}

#[test]
fn test_from_read_invalid_from_user_id() {
    let raw_line = "1000000000000000,TRANSFER,0,9223372036854775807,100,1633036860000,FAILURE,\"Record number 1\"\n";
    let mut reader = ByteSource::new(raw_line.as_bytes().to_vec());

    let result = YPBankCsvRecordParser::from_read(&mut reader);

    assert!(result.is_err(), "Should return an error");

    let error = result.err().expect("Should return an error");
    assert_eq!(
        error,
        ParseError::InvalidUserId("0".to_string(), TransactionType::Transfer)
    );
}

#[test]
fn test_from_read_invalid_to_user_id() {
    let raw_line =
        "1000000000000000,TRANSFER,1,0,100,1633036860000,FAILURE,\"Record number 1\"\n";
    let mut reader = ByteSource::new(raw_line.as_bytes().to_vec());

    let result = YPBankCsvRecordParser::from_read(&mut reader);

    assert!(result.is_err(), "Should return an error");

    let error = result.err().expect("Should return an error");
    assert_eq!(
        error,
        ParseError::InvalidUserId("0".to_string(), TransactionType::Transfer)
    );
}

#[test]
fn csv_format_test_from_read_eof() {
    let mut reader = ByteSource::new(Vec::<u8>::new());
    let result = YPBankCsvRecordParser::from_read(&mut reader);

    assert!(result.is_ok(), "EOF should return Ok(None)");
    assert!(
        result.expect("Should parse successfully").is_none(),
        "Should return None on EOF"
    );
}

#[test]
fn test_from_read_empty_line() {
    let raw_line = "\n";
    let mut reader = ByteSource::new(raw_line.as_bytes().to_vec());

    let result = YPBankCsvRecordParser::from_read(&mut reader);

    assert!(result.is_ok(), "Empty line should return Ok(None)");
    assert!(
        result.expect("Should parse successfully").is_none(),
        "Should return None on empty line"
    );
}

#[test]
fn csv_format_test_write_to_regular_case() {
    let record = YPBankRecord::new(
        1000000000000000,
        TransactionType::Deposit,
        1,
        9223372036854775807,
        100,
        1633036860000,
        TransactionStatus::Failure,
        "\"Record number 1\"".to_string(),
    );
    let target_result = "1000000000000000,DEPOSIT,1,9223372036854775807,100,1633036860000,FAILURE,\"Record number 1\"\n";

    let mut writer: Vec<u8> = Vec::new();
    let result = YPBankCsvRecordParser::write_to(&record, &mut writer);
    assert!(result.is_ok(), "Writing should succeed");

    let written = String::from_utf8(writer).expect("Written data should be valid UTF-8");
    assert_eq!(written, target_result);
}

#[test]
fn test_from_read() {
    let raw_data = "TX_ID,TX_TYPE,FROM_USER_ID,TO_USER_ID,AMOUNT,TIMESTAMP,STATUS,DESCRIPTION\n1000000000000000,DEPOSIT,1,9223372036854775807,100,1633036860000,FAILURE,\"Record number 1\"\n1000000000000001,TRANSFER,1,9223372036854775807,200,1633036860000,PENDING,\"Record number 2\"\n";
    let target_records: Vec<YPBankRecord> = vec![
        YPBankRecord::new(
            1000000000000000,
            TransactionType::Deposit,
            1,
            9223372036854775807,
            100,
            1633036860000,
            TransactionStatus::Failure,
            "\"Record number 1\"".to_string(),
        ),
        YPBankRecord::new(
            1000000000000001,
            TransactionType::Transfer,
            1,
            9223372036854775807,
            200,
            1633036860000,
            TransactionStatus::Pending,
            "\"Record number 2\"".to_string(),
        ),
    ];

    let mut reader = ByteSource::new(raw_data.as_bytes().to_vec());
    let records = CsvParser::from_read(&mut reader).expect("Should parse successfully");
    assert_eq!(records.len(), 2);

    assert_eq!(records, target_records);
}

#[test]
fn test_write_to() {
    let records = vec![
        YPBankRecord::new(
            1000000000000000,
            TransactionType::Deposit,
            1,
            9223372036854775807,
            100,
            1633036860000,
            TransactionStatus::Failure,
            "\"Record number 1\"".to_string(),
        ),
        YPBankRecord::new(
            1000000000000001,
            TransactionType::Transfer,
            1,
            9223372036854775807,
            200,
            1633036860000,
            TransactionStatus::Pending,
            "\"Record number 2\"".to_string(),
        ),
    ];
    let raw_data = "TX_ID,TX_TYPE,FROM_USER_ID,TO_USER_ID,AMOUNT,TIMESTAMP,STATUS,DESCRIPTION\n1000000000000000,DEPOSIT,1,9223372036854775807,100,1633036860000,FAILURE,\"Record number 1\"\n1000000000000001,TRANSFER,1,9223372036854775807,200,1633036860000,PENDING,\"Record number 2\"\n";

    let mut writer: Vec<u8> = Vec::new();
    CsvParser::write_to(&mut writer, &records).expect("Should write successfully");
    let result = writer;
    assert_eq!(result, raw_data.as_bytes());
}
