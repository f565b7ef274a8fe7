use parser::{
    BinParser, ByteSource, ParseError, Parser, TransactionStatus, TransactionType,
    YPBankBinRecordParser, YPBankRecord, YPBankRecordParser,
};

#[test]
fn bin_format_test_from_read_regular_case() {
    let description = "\"Record number 1\"";
    let desc_bytes = description.as_bytes();
    let desc_len = desc_bytes.len() as u32;

    let mut data = Vec::new();

    let record_size: u32 = 46 + desc_len;

    data.extend_from_slice(&[0x59, 0x50, 0x42, 0x4E]); // MAGIC
    data.extend_from_slice(&record_size.to_be_bytes()); // RECORD_SIZE
    data.extend_from_slice(&1000000000000000u64.to_be_bytes()); // TX_ID
    data.push(TransactionType::Deposit.as_int()); // TX_TYPE
    data.extend_from_slice(&0u64.to_be_bytes()); // FROM_USER_ID
    data.extend_from_slice(&9223372036854775807u64.to_be_bytes()); // TO_USER_ID
    data.extend_from_slice(&100i64.to_be_bytes()); // AMOUNT
    data.extend_from_slice(&1633036860000u64.to_be_bytes()); // TIMESTAMP
    data.push(TransactionStatus::Failure.as_int()); // STATUS
    data.extend_from_slice(&desc_len.to_be_bytes()); // DESC_LEN
    data.extend_from_slice(desc_bytes); // DESCRIPTION

    let mut reader = ByteSource::new(data);
    let result = YPBankBinRecordParser::from_read(&mut reader);

    let target_record = YPBankRecord::new(
        1000000000000000,
        TransactionType::Deposit,
        0,
        9223372036854775807,
        100,
        1633036860000,
        TransactionStatus::Failure,
        description.to_string(),
    );

    assert!(result.is_ok(), "Parsing should succeed");
    let record_opt = result.expect("Should parse successfully");
    assert!(record_opt.is_some(), "Should return Some(record)");
    assert_eq!(record_opt.expect("Should have a record"), target_record);
}

#[test]
fn bin_format_test_write_to_regular_case() {
    let record = YPBankRecord::new(
        1000000000000000,
        TransactionType::Deposit,
        0,
        9223372036854775807,
        100,
        1633036860000,
        TransactionStatus::Failure,
        "\"Record number 1\"".to_string(),
    );

    let mut writer: Vec<u8> = Vec::new();
    let result = YPBankBinRecordParser::write_to(&record, &mut writer);
    assert!(result.is_ok(), "Writing should succeed");

    let written = writer;

    assert_eq!(&written[0..4], &[0x59, 0x50, 0x42, 0x4E]);

    let record_size = u32::from_be_bytes([written[4], written[5], written[6], written[7]]);
    assert_eq!(record_size, 46 + record.description.len() as u32);

    let mut reader = ByteSource::new(written.clone());
    let read_result = YPBankBinRecordParser::from_read(&mut reader);
    assert!(read_result.is_ok(), "Reading should succeed");
    let read_record_opt = read_result.expect("Should parse successfully");
    let read_record = read_record_opt.expect("Should have a record");
    assert_eq!(read_record, record);
}

#[test]
fn test_from_read_invalid_magic() {
    let mut data = Vec::new();

    data.extend_from_slice(&[0x00, 0x00, 0x00, 0x00]);
    data.extend_from_slice(&0u32.to_be_bytes());

    let mut reader = ByteSource::new(data);
    let result = YPBankBinRecordParser::from_read(&mut reader);

    assert!(result.is_err(), "Should return an error");

    let error = result.err().expect("Should return an error");
    assert!(matches!(error, ParseError::InvalidMagic(_)));
}

#[test]
fn bin_format_test_from_read_eof() {
    let mut reader = ByteSource::new(Vec::<u8>::new());
    let result = YPBankBinRecordParser::from_read(&mut reader);

    assert!(result.is_ok(), "EOF should return Ok(None)");
    assert!(
        result.expect("Should parse successfully").is_none(),
        "Should return None on EOF"
    );
}

fn create_record_data(
    id: u64,
    tx_type: u8,
    from: u64,
    to: u64,
    amount: i64,
    ts: u64,
    status: u8,
    desc: &str,
) -> Vec<u8> {
    let desc_bytes = desc.as_bytes();
    let desc_len = desc_bytes.len() as u32;
    let record_size: u32 = 46 + desc_len;

    let mut data = Vec::new();
    data.extend_from_slice(&[0x59, 0x50, 0x42, 0x4E]);
    data.extend_from_slice(&record_size.to_be_bytes());
    data.extend_from_slice(&id.to_be_bytes());
    data.push(tx_type);
    data.extend_from_slice(&from.to_be_bytes());
    data.extend_from_slice(&to.to_be_bytes());
    data.extend_from_slice(&amount.to_be_bytes());
    data.extend_from_slice(&ts.to_be_bytes());
    data.push(status);
    data.extend_from_slice(&desc_len.to_be_bytes());
    data.extend_from_slice(desc_bytes);
    data
}

#[test]
fn bin_format_test_from_read_multiple_records() {
    let mut data = Vec::new();
    data.extend_from_slice(&create_record_data(
        1000000000000000,
        0,
        0,
        9223372036854775807,
        100,
        1633036860000,
        1,
        "\"Record number 1\"",
    ));

    data.extend_from_slice(&create_record_data(
        1000000000000001,
        1,
        9223372036854775807,
        9223372036854775807,
        200,
        1633036920000,
        2,
        "\"Record number 2\"",
    ));

    let mut reader = ByteSource::new(data);
    let result = BinParser::from_read(&mut reader);

    let target_records = vec![
        YPBankRecord::new(
            1000000000000000,
            TransactionType::Deposit,
            0,
            9223372036854775807,
            100,
            1633036860000,
            TransactionStatus::Failure,
            "\"Record number 1\"".to_string(),
        ),
        YPBankRecord::new(
            1000000000000001,
            TransactionType::Transfer,
            9223372036854775807,
            9223372036854775807,
            200,
            1633036920000,
            TransactionStatus::Pending,
            "\"Record number 2\"".to_string(),
        ),
    ];

    assert!(result.is_ok(), "Parsing should succeed");
    let records = result.expect("Should parse successfully");
    assert_eq!(records.len(), 2);
    assert_eq!(records, target_records);
}

#[test]
fn bin_format_test_write_to_multiple_records() {
    let records = vec![
        YPBankRecord::new(
            1000000000000000,
            TransactionType::Deposit,
            0,
            9223372036854775807,
            100,
            1633036860000,
            TransactionStatus::Failure,
            "\"Record number 1\"".to_string(),
        ),
        YPBankRecord::new(
            1000000000000001,
            TransactionType::Transfer,
            9223372036854775807,
            9223372036854775807,
            200,
            1633036920000,
            TransactionStatus::Pending,
            "\"Record number 2\"".to_string(),
        ),
    ];

    let mut writer: Vec<u8> = Vec::new();
    let result = BinParser::write_to(&mut writer, &records);
    assert!(result.is_ok(), "Writing should succeed");

    let written = writer;

    let mut reader = ByteSource::new(written.clone());
    let read_result = BinParser::from_read(&mut reader);
    assert!(read_result.is_ok(), "Reading should succeed");
    let read_records = read_result.expect("Should parse successfully");
    assert_eq!(read_records.len(), 2);
    assert_eq!(read_records, records);
}
