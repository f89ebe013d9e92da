use yp_bank_parser_lib::parser::Parser;
use yp_bank_parser_lib::bin_format::YPBankBinParser;
use yp_bank_parser_lib::csv_format::YPBankCsvParser;
use yp_bank_parser_lib::txt_format::YPBankTxtParser;
use yp_bank_parser_lib::error::ParserError;
use yp_bank_parser_lib::types::{YPBankRecord, TransactionType, Status};

fn sample_record() -> YPBankRecord {
    YPBankRecord {
        tx_id: 123,
        tx_type: TransactionType::Deposit,
        from_user_id: 456,
        to_user_id: 789,
        amount: 1000,
        timestamp: 1640995200,
        status: Status::Success,
        description: "Test transaction".to_string(),
    }
}

fn bin_frame_with(record_size: u32, body: &[u8]) -> Vec<u8> {
    let mut out = vec![0x59u8, 0x50, 0x42, 0x4E];
    out.extend_from_slice(&record_size.to_be_bytes());
    out.extend_from_slice(body);
    out
}

fn valid_body(tx_type: u8, status: u8, desc_len: u32, desc: &[u8]) -> Vec<u8> {
    let mut body = Vec::new();
    body.extend_from_slice(&123u64.to_be_bytes());
    body.push(tx_type);
    body.extend_from_slice(&456u64.to_be_bytes());
    body.extend_from_slice(&789u64.to_be_bytes());
    body.extend_from_slice(&1000i64.to_be_bytes());
    body.extend_from_slice(&1640995200u64.to_be_bytes());
    body.push(status);
    body.extend_from_slice(&desc_len.to_be_bytes());
    body.extend_from_slice(desc);
    body
}

#[test]
fn empty_sequence_encode_fails_every_format() {
    let records: Vec<YPBankRecord> = vec![];
    for format in ["csv", "txt", "bin"] {
        let mut output = Vec::new();
        let result = Parser::write_to(&mut output, &records, format);
        assert!(matches!(result, Err(ParserError::ParseError(_))));
        assert!(output.is_empty());
    }
}

#[test]
fn malformed_csv_header_is_wrong_csv_header() {
    let data = "WRONG,HEADER\n123,Deposit,456,789,1000,1640995200,Success,x\n";
    let result = YPBankCsvParser::from_read(data.as_bytes());
    match result {
        Err(ParserError::WrongCsvHeader(h)) => assert_eq!(h, "WRONG,HEADER"),
        other => panic!("expected WrongCsvHeader, got {:?}", other),
    }
}

#[test]
fn csv_row_with_wrong_field_count_is_parse_error() {
    let header = "TX_ID,TX_TYPE,FROM_USER_ID,TO_USER_ID,AMOUNT,TIMESTAMP,STATUS,DESCRIPTION";
    let seven = format!("{}\n123,Deposit,456,789,1000,1640995200,Success\n", header);
    assert!(matches!(
        YPBankCsvParser::from_read(seven.as_bytes()),
        Err(ParserError::ParseError(_))
    ));
    let nine = format!(
        "{}\n123,Deposit,456,789,1000,1640995200,Success,desc,extra\n",
        header
    );
    assert!(matches!(
        YPBankCsvParser::from_read(nine.as_bytes()),
        Err(ParserError::ParseError(_))
    ));
}

#[test]
fn csv_header_is_case_insensitive_and_trimmed() {
    let data = "  tx_id,tx_type,from_user_id,to_user_id,amount,timestamp,status,description \n123,Deposit,456,789,1000,1640995200,Success,x\n";
    let records = YPBankCsvParser::from_read(data.as_bytes()).unwrap();
    assert_eq!(records.len(), 1);
}

#[test]
fn bin_record_too_small() {
    let body = valid_body(0, 0, 0, b"");
    let data = bin_frame_with(45, &body[..45]);
    assert!(matches!(
        YPBankBinParser::from_read(&data),
        Err(ParserError::RecordTooSmall(45, 46))
    ));
}

#[test]
fn bin_record_too_large() {
    let data = bin_frame_with(10 * 1024 * 1024 + 1, b"");
    assert!(matches!(
        YPBankBinParser::from_read(&data),
        Err(ParserError::RecordTooLarge(x, _)) if x == 10 * 1024 * 1024 + 1
    ));
}

#[test]
fn bin_description_overflow() {
    let body = valid_body(0, 0, 5, b"abc");
    let data = bin_frame_with(49, &body);
    assert!(matches!(
        YPBankBinParser::from_read(&data),
        Err(ParserError::DescriptionOverflow { desc_len: 5, remaining: 3 })
    ));
}

#[test]
fn bin_invalid_magic() {
    let body = valid_body(0, 0, 0, b"");
    let mut data = bin_frame_with(46, &body);
    data[0] = 0x58;
    assert!(matches!(
        YPBankBinParser::from_read(&data),
        Err(ParserError::InvalidMagic([0x58, 0x50, 0x42, 0x4E]))
    ));
}

#[test]
fn bin_partial_header_fails() {
    let data = vec![0x59u8, 0x50, 0x42];
    assert!(matches!(
        YPBankBinParser::from_read(&data),
        Err(ParserError::UnexpectedEof { expected: 8, actual: 3 })
    ));
}

#[test]
fn bin_invalid_utf8_description() {
    let body = valid_body(0, 0, 2, &[0xFF, 0xFE]);
    let data = bin_frame_with(48, &body);
    assert!(matches!(
        YPBankBinParser::from_read(&data),
        Err(ParserError::Utf8Error)
    ));
}

#[test]
fn enum_boundaries() {
    assert!(matches!(
        TransactionType::from_byte(3),
        Err(ParserError::WrongTransactionType(3))
    ));
    assert!(matches!(Status::from_byte(3), Err(ParserError::WrongStatusType(3))));
    assert_eq!(TransactionType::from_byte(0).unwrap(), TransactionType::Deposit);
    assert_eq!(TransactionType::from_byte(1).unwrap(), TransactionType::Transfer);
    assert_eq!(TransactionType::from_byte(2).unwrap(), TransactionType::Withdrawal);
    assert_eq!(Status::from_byte(0).unwrap(), Status::Success);
    assert_eq!(Status::from_byte(1).unwrap(), Status::Failure);
    assert_eq!(Status::from_byte(2).unwrap(), Status::Pending);
    assert_eq!(TransactionType::to_byte(TransactionType::Transfer), 1);
    assert_eq!(Status::to_byte(Status::Pending), 2);
}

#[test]
fn textual_refund_is_rejected() {
    let body = "123,REFUND,456,789,1000,1640995200,Success,x";
    assert!(matches!(
        YPBankRecord::from_string(body),
        Err(ParserError::ParseError(_))
    ));
}

#[test]
fn csv_scenario_single_record() {
    let data = "TX_ID,TX_TYPE,FROM_USER_ID,TO_USER_ID,AMOUNT,TIMESTAMP,STATUS,DESCRIPTION\n123,Deposit,456,789,1000,1640995200,Success,Test transaction\n";
    let records = Parser::from_read(data.as_bytes(), "csv").unwrap();
    assert_eq!(records.len(), 1);
    assert_eq!(records[0].tx_id, 123);
    assert_eq!(records[0].tx_type, TransactionType::Deposit);
    assert_eq!(records[0].amount, 1000);
    assert_eq!(records[0].status, Status::Success);
    assert_eq!(records[0].description, "Test transaction");
}

#[test]
fn bin_scenario_single_record_layout() {
    let records = vec![sample_record()];
    let mut output = Vec::new();
    Parser::write_to(&mut output, &records, "bin").unwrap();
    assert_eq!(output.len(), 8 + 46 + "Test transaction".len());
    assert_eq!(&output[0..4], &[0x59, 0x50, 0x42, 0x4E]);
    let decoded = Parser::from_read(&output, "bin").unwrap();
    assert_eq!(decoded, records);
}

#[test]
fn unsupported_format_scenario() {
    let result = Parser::from_read(b"<xml>data</xml>", "xml");
    match result {
        Err(ParserError::UnsupportedFormat(f)) => assert_eq!(f, "xml"),
        other => panic!("expected UnsupportedFormat, got {:?}", other),
    }
    let mut output = Vec::new();
    let result = Parser::write_to(&mut output, &vec![sample_record()], "xml");
    assert!(matches!(result, Err(ParserError::UnsupportedFormat(_))));
    assert!(output.is_empty());
}

#[test]
fn format_selector_is_case_insensitive() {
    let records = vec![sample_record()];
    let mut output = Vec::new();
    Parser::write_to(&mut output, &records, "CSV").unwrap();
    let decoded = Parser::from_read(&output, "Csv").unwrap();
    assert_eq!(decoded, records);
}

#[test]
fn txt_missing_key_gives_field_error() {
    let data = "# Record 0 (Deposit)\ntx_id: 1\ntx_type: Deposit\nfrom_user_id: 2\nto_user_id: 3\namount: 4\nstatus: Success\ndescription: x\n";
    assert!(matches!(
        YPBankTxtParser::from_read(data.as_bytes()),
        Err(ParserError::MissingTimestamp)
    ));
}

#[test]
fn txt_line_without_colon_fails() {
    let data = "tx_id: 123\ninvalid line without colon\ntx_type: Deposit\n";
    assert!(matches!(
        YPBankTxtParser::from_read(data.as_bytes()),
        Err(ParserError::ParseError(_))
    ));
}

#[test]
fn txt_duplicate_key_last_wins() {
    let data = "# one\ntx_id: 1\ntx_id: 7\ntx_type: Transfer\nfrom_user_id: 2\nto_user_id: 3\namount: -4\ntimestamp: 5\nstatus: Pending\ndescription: d\n";
    let records = YPBankTxtParser::from_read(data.as_bytes()).unwrap();
    assert_eq!(records.len(), 1);
    assert_eq!(records[0].tx_id, 7);
    assert_eq!(records[0].amount, -4);
    assert_eq!(records[0].status, Status::Pending);
}

#[test]
fn txt_scenario_written_shape() {
    let records = vec![sample_record()];
    let mut output = Vec::new();
    Parser::write_to(&mut output, &records, "txt").unwrap();
    let text = String::from_utf8(output).unwrap();
    assert!(text.starts_with("# Record 0 (Deposit)\n"));
    assert!(text.contains("tx_id: 123\n"));
    assert!(text.contains("description: Test transaction\n"));
    assert!(!text.ends_with("\n\n"));
}

#[test]
fn extreme_integer_values_round_trip() {
    let mut rec = sample_record();
    rec.tx_id = u64::MAX;
    rec.amount = i64::MIN;
    rec.timestamp = u64::MAX;
    let records = vec![rec];
    for format in ["csv", "txt", "bin"] {
        let mut output = Vec::new();
        Parser::write_to(&mut output, &records, format).unwrap();
        let decoded = Parser::from_read(&output, format).unwrap();
        assert_eq!(decoded, records);
    }
}

#[test]
fn empty_description_round_trips() {
    let mut rec = sample_record();
    rec.description = String::new();
    let records = vec![rec];
    for format in ["csv", "txt", "bin"] {
        let mut output = Vec::new();
        Parser::write_to(&mut output, &records, format).unwrap();
        let decoded = Parser::from_read(&output, format).unwrap();
        assert_eq!(decoded, records);
    }
}

#[test]
fn multibyte_description_round_trips() {
    let mut rec = sample_record();
    rec.description = "caf\u{e9} \u{1f600} r\u{e9}sum\u{e9}".to_string();
    let records = vec![rec];
    for format in ["csv", "txt", "bin"] {
        let mut output = Vec::new();
        Parser::write_to(&mut output, &records, format).unwrap();
        let decoded = Parser::from_read(&output, format).unwrap();
        assert_eq!(decoded, records);
    }
}

#[test]
fn plus_sign_and_junk_numbers_are_rejected() {
    let header = "TX_ID,TX_TYPE,FROM_USER_ID,TO_USER_ID,AMOUNT,TIMESTAMP,STATUS,DESCRIPTION";
    for bad in ["+123", "12x3", "", "184467440737095516160"] {
        let data = format!(
            "{}\n{},Deposit,456,789,1000,1640995200,Success,x\n",
            header, bad
        );
        assert!(
            matches!(
                YPBankCsvParser::from_read(data.as_bytes()),
                Err(ParserError::ParseError(_))
            ),
            "tx_id {:?} should be rejected",
            bad
        );
    }
    let data = format!(
        "{}\n1,Deposit,456,789,007,1640995200,Success,x\n",
        header
    );
    let records = YPBankCsvParser::from_read(data.as_bytes()).unwrap();
    assert_eq!(records[0].amount, 7);
}

#[test]
fn negative_amount_round_trips() {
    let mut rec = sample_record();
    rec.amount = -250;
    let records = vec![rec];
    for format in ["csv", "txt", "bin"] {
        let mut output = Vec::new();
        Parser::write_to(&mut output, &records, format).unwrap();
        let decoded = Parser::from_read(&output, format).unwrap();
        assert_eq!(decoded, records);
    }
}

#[test]
fn bin_extra_body_bytes_are_ignored() {
    let desc = b"hi";
    let mut body = valid_body(1, 2, 2, desc);
    body.extend_from_slice(b"XX");
    let data = bin_frame_with(50, &body);
    let records = YPBankBinParser::from_read(&data).unwrap();
    assert_eq!(records.len(), 1);
    assert_eq!(records[0].tx_type, TransactionType::Transfer);
    assert_eq!(records[0].status, Status::Pending);
    assert_eq!(records[0].description, "hi");
}

#[test]
fn parse_record_body_short_body() {
    let result = YPBankBinParser::parse_record_body(&[0u8; 10]);
    assert!(matches!(
        result,
        Err(ParserError::UnexpectedEof { expected: 46, actual: 10 })
    ));
}

#[test]
fn csv_empty_stream_is_parse_error() {
    assert!(matches!(
        YPBankCsvParser::from_read(b""),
        Err(ParserError::ParseError(_))
    ));
}
