use yp_bank_parser_lib::parser::Parser;
use yp_bank_parser_lib::types::YPBankRecord;
use yp_bank_parser_lib::test_helpers::create_test_records;
use yp_bank_parser_lib::{extract_format, parse_cli_args};

#[test]
fn test_csv_read_write_positive() {
    let csv_data = "TX_ID,TX_TYPE,FROM_USER_ID,TO_USER_ID,AMOUNT,TIMESTAMP,STATUS,DESCRIPTION\n123,Deposit,456,789,1000,1640995200,Success,Test transaction\n";

    let records = Parser::from_read(csv_data.as_bytes(), "csv").unwrap();
    assert_eq!(records.len(), 1);
    assert_eq!(records[0].tx_id, 123);

    let mut output = Vec::new();
    Parser::write_to(&mut output, &records, "csv").unwrap();
    let output_str = String::from_utf8(output).unwrap();
    assert!(output_str.contains("123"));
    assert!(output_str.contains("Deposit"));
}

#[test]
fn test_csv_multiple_records() {
    let records = create_test_records(15, 100);

    let mut csv_output = Vec::new();
    Parser::write_to(&mut csv_output, &records, "csv").unwrap();

    let parsed_records = Parser::from_read(&csv_output, "csv").unwrap();

    assert_eq!(parsed_records.len(), 15);
    for (original, parsed) in records.iter().zip(parsed_records.iter()) {
        assert_eq!(original.tx_id, parsed.tx_id);
        assert_eq!(original.amount, parsed.amount);
    }
}

#[test]
fn test_txt_multiple_records() {
    let records = create_test_records(10, 200);

    let mut txt_output = Vec::new();
    Parser::write_to(&mut txt_output, &records, "txt").unwrap();

    let parsed_records = Parser::from_read(&txt_output, "txt").unwrap();

    assert_eq!(parsed_records.len(), 10);
    for (original, parsed) in records.iter().zip(parsed_records.iter()) {
        assert_eq!(original.tx_id, parsed.tx_id);
        assert_eq!(original.description, parsed.description);
    }
}

#[test]
fn test_bin_multiple_records() {
    let records = create_test_records(25, 400);

    let mut bin_output = Vec::new();
    Parser::write_to(&mut bin_output, &records, "bin").unwrap();

    let parsed_records = Parser::from_read(&bin_output, "bin").unwrap();

    assert_eq!(parsed_records.len(), 25);
    for (original, parsed) in records.iter().zip(parsed_records.iter()) {
        assert_eq!(original.tx_id, parsed.tx_id);
        assert_eq!(original.tx_type, parsed.tx_type);
        assert_eq!(original.status, parsed.status);
    }
}

#[test]
fn test_format_conversion_multiple_records() {
    let records = create_test_records(8, 1000);

    let mut csv_output = Vec::new();
    Parser::write_to(&mut csv_output, &records, "csv").unwrap();

    let csv_records = Parser::from_read(&csv_output, "csv").unwrap();

    let mut txt_output = Vec::new();
    Parser::write_to(&mut txt_output, &csv_records, "txt").unwrap();

    let txt_records = Parser::from_read(&txt_output, "txt").unwrap();

    assert_eq!(records.len(), txt_records.len());

    let mut bin_output = Vec::new();
    Parser::write_to(&mut bin_output, &txt_records, "bin").unwrap();

    let bin_records = Parser::from_read(&bin_output, "bin").unwrap();

    assert_eq!(records.len(), bin_records.len());
    for (original, final_record) in records.iter().zip(bin_records.iter()) {
        assert_eq!(original.tx_id, final_record.tx_id);
        assert_eq!(original.amount, final_record.amount);
    }
}

#[test]
fn test_edge_case_small_batch() {
    let records = create_test_records(5, 500);

    for format in ["csv", "txt", "bin"] {
        let mut output = Vec::new();
        Parser::write_to(&mut output, &records, format).unwrap();

        let parsed_records = Parser::from_read(&output, format).unwrap();

        assert_eq!(parsed_records.len(), 5);
    }
}

#[test]
fn test_edge_case_large_batch() {
    let records = create_test_records(20, 2000);

    for format in ["csv", "txt", "bin"] {
        let mut output = Vec::new();
        Parser::write_to(&mut output, &records, format).unwrap();

        let parsed_records = Parser::from_read(&output, format).unwrap();

        assert_eq!(parsed_records.len(), 20);
    }
}

#[test]
fn test_csv_read_invalid_header() {
    let csv_data = "INVALID,HEADER\n123,Deposit";

    let result = Parser::from_read(csv_data.as_bytes(), "csv");
    assert!(result.is_err());
}

#[test]
fn test_unsupported_format() {
    let data = "some data";

    let result = Parser::from_read(data.as_bytes(), "xml");
    assert!(result.is_err());
}

#[test]
fn test_empty_records_write() {
    let records: Vec<YPBankRecord> = vec![];
    let mut output = Vec::new();

    let result = Parser::write_to(&mut output, &records, "bin");
    assert!(result.is_err());
}

#[test]
fn extract_fromat_works_correclty() {
    assert_eq!(extract_format("a.csv"), "csv");
    assert_eq!(extract_format("ab.txt"), "txt");
    assert_eq!(extract_format("abc.bin"), "bin");
    assert_eq!(extract_format("abcde"), "csv");

    assert_eq!(extract_format("file1.csv2"), "csv");
    assert_eq!(extract_format("file100.cs"), "csv");
}

#[test]
fn parse_cli_args_tests() {
    let dict = parse_cli_args(
        &[
            "--file1".to_string(),
            "abc.csv".to_string(),
            "--file3".to_string(),
            "efgh.bin".to_string(),
        ],
        &["--file1", "--file2", "--file3"],
    );

    assert_eq!(dict.get("--file1"), Some(&"abc.csv".to_string()));
    assert_eq!(dict.get("--file3"), Some(&"efgh.bin".to_string()));
    assert_eq!(dict.len(), 2);

    assert_eq!(dict.get("--file2"), None);
    assert_eq!(dict.get("--file10"), None);
}
