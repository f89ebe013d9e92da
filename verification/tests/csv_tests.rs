use yp_bank_parser_lib::types::{YPBankRecord, TransactionType, Status};

#[test]
fn test_csv_parse_description_with_comma() {
    let csv_line = "123,Deposit,456,789,1000,1640995200,Success,\"Payment, with comma\"";
    let record = YPBankRecord::from_string(csv_line).unwrap();
    assert_eq!(record.description, "Payment, with comma");
}

#[test]
fn test_csv_parse_description_with_colon() {
    let csv_line = "123,Deposit,456,789,1000,1640995200,Success,\"Payment: with colon\"";
    let record = YPBankRecord::from_string(csv_line).unwrap();
    assert_eq!(record.description, "Payment: with colon");
}

#[test]
fn test_csv_parse_description_with_comma_and_colon() {
    let csv_line = "123,Deposit,456,789,1000,1640995200,Success,\"Payment, with: both\"";
    let record = YPBankRecord::from_string(csv_line).unwrap();
    assert_eq!(record.description, "Payment, with: both");
}

#[test]
fn test_csv_write_description_with_comma() {
    let record = YPBankRecord {
        tx_id: 123,
        tx_type: TransactionType::Deposit,
        from_user_id: 456,
        to_user_id: 789,
        amount: 1000,
        timestamp: 1640995200,
        status: Status::Success,
        description: "Payment, with comma".to_string(),
    };

    let mut output = Vec::new();
    record.write_to(&mut output).unwrap();
    let output_str = String::from_utf8(output).unwrap();
    assert!(output_str.contains("\"Payment, with comma\""));
}

#[test]
fn test_csv_write_description_with_colon() {
    let record = YPBankRecord {
        tx_id: 123,
        tx_type: TransactionType::Deposit,
        from_user_id: 456,
        to_user_id: 789,
        amount: 1000,
        timestamp: 1640995200,
        status: Status::Success,
        description: "Payment: with colon".to_string(),
    };

    let mut output = Vec::new();
    record.write_to(&mut output).unwrap();
    let output_str = String::from_utf8(output).unwrap();
    assert!(output_str.contains("\"Payment: with colon\""));
}

#[test]
fn test_csv_roundtrip_with_special_chars() {
    let original_record = YPBankRecord {
        tx_id: 123,
        tx_type: TransactionType::Transfer,
        from_user_id: 456,
        to_user_id: 789,
        amount: 1000,
        timestamp: 1640995200,
        status: Status::Success,
        description: "Transfer, from: account A".to_string(),
    };

    let mut output = Vec::new();
    original_record.write_to(&mut output).unwrap();
    let csv_line = String::from_utf8(output).unwrap();

    let parsed_record = YPBankRecord::from_string(csv_line.trim()).unwrap();
    assert_eq!(original_record.description, parsed_record.description);
}
