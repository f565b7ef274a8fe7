use parser::txt_format::{field_name, RawValues};
use parser::{
    ByteSource, CommonParser, Format, ParseError, Parser, TransactionStatus, TransactionType,
    TxtParser, YPBankRecord, YPBankRecordParser, YPBankTxtRecordParser,
};

const CANONICAL: &str = "TX_ID: 1000000000000000\nTX_TYPE: DEPOSIT\nFROM_USER_ID: 0\nTO_USER_ID: 9223372036854775807\nAMOUNT: 100\nTIMESTAMP: 1633036860000\nSTATUS: FAILURE\nDESCRIPTION: \"Record number 1\"\n\n";

fn first_record() -> YPBankRecord {
    YPBankRecord::new(
        1000000000000000,
        TransactionType::Deposit,
        0,
        9223372036854775807,
        100,
        1633036860000,
        TransactionStatus::Failure,
        "\"Record number 1\"".to_string(),
    )
}

fn second_record() -> YPBankRecord {
    YPBankRecord::new(
        1000000000000001,
        TransactionType::Transfer,
        9223372036854775807,
        9223372036854775807,
        200,
        1633036920000,
        TransactionStatus::Pending,
        "\"Record number 2\"".to_string(),
    )
}

fn read_one(text: &str) -> Result<Option<YPBankRecord>, ParseError> {
    let mut reader = ByteSource::new(text.as_bytes().to_vec());
    YPBankTxtRecordParser::from_read(&mut reader)
}

fn read_all_txt(text: &str) -> Result<Vec<YPBankRecord>, ParseError> {
    let mut reader = ByteSource::new(text.as_bytes().to_vec());
    CommonParser::new(Format::Txt).from_read(&mut reader)
}

#[test]
fn two_records_are_written_with_a_blank_line_after_each() {
    let records = vec![first_record(), second_record()];
    let expected = "TX_ID: 1000000000000000\nTX_TYPE: DEPOSIT\nFROM_USER_ID: 0\nTO_USER_ID: 9223372036854775807\nAMOUNT: 100\nTIMESTAMP: 1633036860000\nSTATUS: FAILURE\nDESCRIPTION: \"Record number 1\"\n\nTX_ID: 1000000000000001\nTX_TYPE: TRANSFER\nFROM_USER_ID: 9223372036854775807\nTO_USER_ID: 9223372036854775807\nAMOUNT: 200\nTIMESTAMP: 1633036920000\nSTATUS: PENDING\nDESCRIPTION: \"Record number 2\"\n\n";

    let mut writer: Vec<u8> = Vec::new();
    let result = TxtParser::write_to(&mut writer, &records);
    assert!(result.is_ok(), "Writing should succeed");

    let written = String::from_utf8(writer).expect("Written data should be valid UTF-8");
    assert_eq!(written, expected);
    assert_eq!(read_all_txt(&written), Ok(records));
}

#[test]
fn records_without_blank_lines_between_are_read_too() {
    let text = "TX_ID: 1000000000000000\nTX_TYPE: DEPOSIT\nFROM_USER_ID: 0\nTO_USER_ID: 9223372036854775807\nAMOUNT: 100\nTIMESTAMP: 1633036860000\nSTATUS: FAILURE\nDESCRIPTION: \"Record number 1\"\nTX_ID: 1000000000000001\nTX_TYPE: TRANSFER\nFROM_USER_ID: 9223372036854775807\nTO_USER_ID: 9223372036854775807\nAMOUNT: 200\nTIMESTAMP: 1633036920000\nSTATUS: PENDING\nDESCRIPTION: \"Record number 2\"\n";
    assert_eq!(read_all_txt(text), Ok(vec![first_record(), second_record()]));
}

#[test]
fn fields_in_any_order_make_the_same_record() {
    let canonical = read_one(CANONICAL).expect("canonical order");
    let orders = vec![
        "DESCRIPTION: \"Record number 1\"\nSTATUS: FAILURE\nTIMESTAMP: 1633036860000\nAMOUNT: 100\nTO_USER_ID: 9223372036854775807\nFROM_USER_ID: 0\nTX_TYPE: DEPOSIT\nTX_ID: 1000000000000000\n",
        "TX_TYPE: DEPOSIT\nTO_USER_ID: 9223372036854775807\nFROM_USER_ID: 0\nTIMESTAMP: 1633036860000\nDESCRIPTION: \"Record number 1\"\nTX_ID: 1000000000000000\nAMOUNT: 100\nSTATUS: FAILURE\n",
        "AMOUNT: 100\nTX_ID: 1000000000000000\nSTATUS: FAILURE\nTX_TYPE: DEPOSIT\nDESCRIPTION: \"Record number 1\"\nFROM_USER_ID: 0\nTIMESTAMP: 1633036860000\nTO_USER_ID: 9223372036854775807\n",
    ];
    for order in orders {
        assert_eq!(read_one(order).expect("another order"), canonical);
    }
    assert_eq!(canonical, Some(first_record()));
}

#[test]
fn comments_are_passed_over_anywhere() {
    let text = "# before\nTX_ID: 1000000000000000\n#between\nTX_TYPE: DEPOSIT\nFROM_USER_ID: 0\nTO_USER_ID: 9223372036854775807\n# TX_ID: 5\nAMOUNT: 100\nTIMESTAMP: 1633036860000\nSTATUS: FAILURE\n#\nDESCRIPTION: \"Record number 1\"\n# after\n";
    assert_eq!(read_all_txt(text), Ok(vec![first_record()]));
}

#[test]
fn blank_lines_before_a_record_are_passed_over() {
    let text = format!("\n\n# comment\n\n{}\n\n", CANONICAL);
    assert_eq!(read_all_txt(&text), Ok(vec![first_record()]));
    assert_eq!(read_all_txt("\n\n\n"), Ok(vec![]));
    assert_eq!(read_all_txt("# only a comment\n"), Ok(vec![]));
    assert_eq!(read_all_txt(""), Ok(vec![]));
}

#[test]
fn a_blank_line_inside_a_record_is_inconsistent() {
    assert_eq!(
        read_one("TX_ID: 1\n\nTX_TYPE: DEPOSIT\n"),
        Err(ParseError::InconsistentRecord(
            "unexpected new line while parsing".to_string()
        ))
    );
    let seven = "TX_ID: 1000000000000000\nTX_TYPE: DEPOSIT\nFROM_USER_ID: 0\nTO_USER_ID: 9223372036854775807\nAMOUNT: 100\nTIMESTAMP: 1633036860000\nSTATUS: FAILURE\n\nDESCRIPTION: x\n";
    assert_eq!(
        read_all_txt(seven),
        Err(ParseError::InconsistentRecord(
            "unexpected new line while parsing".to_string()
        ))
    );
}

#[test]
fn the_end_inside_a_record_is_inconsistent() {
    assert_eq!(
        read_one("TX_ID: 1\n"),
        Err(ParseError::InconsistentRecord(
            "unexpected end of file while parsing".to_string()
        ))
    );
    let seven = "TX_ID: 1000000000000000\nTX_TYPE: DEPOSIT\nFROM_USER_ID: 0\nTO_USER_ID: 9223372036854775807\nAMOUNT: 100\nTIMESTAMP: 1633036860000\nSTATUS: FAILURE\n# DESCRIPTION: x\n";
    assert_eq!(
        read_all_txt(seven),
        Err(ParseError::InconsistentRecord(
            "unexpected end of file while parsing".to_string()
        ))
    );
}

#[test]
fn a_line_without_colon_is_an_invalid_row() {
    assert_eq!(
        read_one("TX_ID 1\n"),
        Err(ParseError::InvalidRow("TX_ID 1\n".to_string()))
    );
    assert_eq!(
        read_one(" \n"),
        Err(ParseError::InvalidRow(" \n".to_string()))
    );
    assert_eq!(
        read_one("\r\n"),
        Err(ParseError::InvalidRow("\r\n".to_string()))
    );
    assert_eq!(
        YPBankTxtRecordParser::parse_raw_line("no colon here".to_string()),
        Err(ParseError::InvalidRow("no colon here".to_string()))
    );
}

#[test]
fn a_line_is_parted_at_its_first_colon() {
    assert_eq!(
        YPBankTxtRecordParser::parse_raw_line("TX_ID: 1\n".to_string()),
        Ok(("TX_ID".to_string(), "1".to_string()))
    );
    assert_eq!(
        YPBankTxtRecordParser::parse_raw_line("  KEY  :   spaced value \t\n".to_string()),
        Ok(("KEY".to_string(), "spaced value".to_string()))
    );
    assert_eq!(
        YPBankTxtRecordParser::parse_raw_line("DESCRIPTION: at 10:30: done\n".to_string()),
        Ok(("DESCRIPTION".to_string(), "at 10:30: done".to_string()))
    );
    assert_eq!(
        YPBankTxtRecordParser::parse_raw_line(":".to_string()),
        Ok(("".to_string(), "".to_string()))
    );
    assert_eq!(
        YPBankTxtRecordParser::parse_raw_line("KEY:".to_string()),
        Ok(("KEY".to_string(), "".to_string()))
    );
}

#[test]
fn a_description_may_hold_colons_and_commas() {
    let record = YPBankRecord::new(
        1,
        TransactionType::Transfer,
        2,
        3,
        -4,
        5,
        TransactionStatus::Success,
        "paid at 10:30, twice: yes".to_string(),
    );
    let mut writer: Vec<u8> = Vec::new();
    assert_eq!(YPBankTxtRecordParser::write_to(&record, &mut writer), Ok(()));
    let mut reader = ByteSource::new(writer);
    assert_eq!(YPBankTxtRecordParser::from_read(&mut reader), Ok(Some(record)));
}

#[test]
fn a_key_given_twice_leaves_another_without_value() {
    let text = "TX_ID: 1\nTX_ID: 2\nTX_TYPE: DEPOSIT\nFROM_USER_ID: 0\nTO_USER_ID: 9\nAMOUNT: 100\nTIMESTAMP: 5\nSTATUS: FAILURE\nDESCRIPTION: x\n";
    assert_eq!(
        read_one(text),
        Err(ParseError::FieldNotFound("DESCRIPTION".to_string()))
    );
    let unknown = "ID: 1\nTX_TYPE: DEPOSIT\nFROM_USER_ID: 0\nTO_USER_ID: 9\nAMOUNT: 100\nTIMESTAMP: 5\nSTATUS: FAILURE\nDESCRIPTION: x\n";
    assert_eq!(
        read_one(unknown),
        Err(ParseError::FieldNotFound("TX_ID".to_string()))
    );
    let lower = "tx_id: 1\nTX_TYPE: DEPOSIT\nFROM_USER_ID: 0\nTO_USER_ID: 9\namount: 100\nTIMESTAMP: 5\nSTATUS: FAILURE\nDESCRIPTION: x\n";
    assert_eq!(
        read_one(lower),
        Err(ParseError::FieldNotFound("TX_ID".to_string()))
    );
}

#[test]
fn values_are_checked_once_all_fields_are_there() {
    let text = "TX_ID: abc\nTX_TYPE: REFUND\nFROM_USER_ID: 0\nTO_USER_ID: 9\nAMOUNT: 100\nTIMESTAMP: 5\nSTATUS: FAILURE\nDESCRIPTION: x\n";
    assert_eq!(
        read_one(text),
        Err(ParseError::InvalidTransactionTypeValue("REFUND".to_string()))
    );
    let bad_id = "TX_ID: abc\nTX_TYPE: TRANSFER\nFROM_USER_ID: 0\nTO_USER_ID: 9\nAMOUNT: 100\nTIMESTAMP: 5\nSTATUS: FAILURE\nDESCRIPTION: x\n";
    assert_eq!(
        read_one(bad_id),
        Err(ParseError::InvalidRawValue("abc".to_string()))
    );
    let bad_status = "TX_ID: 1\nTX_TYPE: TRANSFER\nFROM_USER_ID: 1\nTO_USER_ID: 9\nAMOUNT: 100\nTIMESTAMP: 5\nSTATUS: DONE\nDESCRIPTION: x\n";
    assert_eq!(
        read_one(bad_status),
        Err(ParseError::InvalidStatusValue("DONE".to_string()))
    );
}

#[test]
fn raw_values_keep_the_last_value_of_a_key() {
    let mut values = RawValues::new();
    assert_eq!(values.get("A"), None);
    values.insert("A".to_string(), "1".to_string());
    values.insert("B".to_string(), "2".to_string());
    assert_eq!(values.get("A"), Some("1".to_string()));
    values.insert("A".to_string(), "3".to_string());
    assert_eq!(values.get("A"), Some("3".to_string()));
    assert_eq!(values.get("B"), Some("2".to_string()));
    assert_eq!(values.get("C"), None);
    assert_eq!(
        YPBankTxtRecordParser::from_raw_values(values),
        Err(ParseError::FieldNotFound("TX_ID".to_string()))
    );
}

#[test]
fn the_eight_keys_in_their_order() {
    let names: Vec<&str> = (0..8).map(field_name).collect();
    assert_eq!(
        names,
        vec![
            "TX_ID",
            "TX_TYPE",
            "FROM_USER_ID",
            "TO_USER_ID",
            "AMOUNT",
            "TIMESTAMP",
            "STATUS",
            "DESCRIPTION"
        ]
    );
}

#[test]
fn a_last_line_without_line_feed_counts() {
    let text = "TX_ID: 1000000000000000\nTX_TYPE: DEPOSIT\nFROM_USER_ID: 0\nTO_USER_ID: 9223372036854775807\nAMOUNT: 100\nTIMESTAMP: 1633036860000\nSTATUS: FAILURE\nDESCRIPTION: \"Record number 1\"";
    assert_eq!(read_all_txt(text), Ok(vec![first_record()]));
}

#[test]
fn the_stream_has_no_first_line_of_its_own() {
    let mut reader = ByteSource::new(CANONICAL.as_bytes().to_vec());
    assert_eq!(TxtParser::pre_read(&mut reader), Ok(()));
    assert_eq!(reader.remaining(), CANONICAL.len());
    let mut writer: Vec<u8> = vec![7];
    assert_eq!(TxtParser::pre_write(&mut writer), Ok(()));
    assert_eq!(writer, vec![7]);
    let mut nothing: Vec<u8> = Vec::new();
    assert_eq!(TxtParser::write_to(&mut nothing, &vec![]), Ok(()));
    assert!(nothing.is_empty());
}

#[test]
fn one_read_leaves_the_blank_line_to_the_next() {
    let text = format!("{}{}", CANONICAL, CANONICAL);
    let mut reader = ByteSource::new(text.as_bytes().to_vec());
    assert_eq!(YPBankTxtRecordParser::from_read(&mut reader), Ok(Some(first_record())));
    assert_eq!(reader.remaining(), CANONICAL.len() + 1);
    assert_eq!(YPBankTxtRecordParser::from_read(&mut reader), Ok(Some(first_record())));
    assert_eq!(reader.remaining(), 1);
    assert_eq!(YPBankTxtRecordParser::from_read(&mut reader), Ok(None));
    assert_eq!(reader.remaining(), 0);
}

#[test]
fn raw_values_are_collected_from_eight_lines() {
    let mut reader = ByteSource::new(
        "# c\n\nA: 1\nB: 2\nA: 3\nC: 4\nD: 5\nE: 6\nF: 7\nG: 8\nH: 9\n".as_bytes().to_vec(),
    );
    let values = YPBankTxtRecordParser::parse_raw_values(&mut reader)
        .expect("eight lines")
        .expect("some values");
    assert_eq!(values.get("A"), Some("3".to_string()));
    assert_eq!(values.get("G"), Some("8".to_string()));
    assert_eq!(values.get("H"), None);
    assert_eq!(reader.remaining(), 5);
    let mut empty = ByteSource::new(Vec::new());
    assert!(matches!(YPBankTxtRecordParser::parse_raw_values(&mut empty), Ok(None)));
}
