use yp_bank_parser_lib::compare::compare_records;
use yp_bank_parser_lib::parser::Parser;
use yp_bank_parser_lib::test_helpers::create_test_records;
use yp_bank_parser_lib::types::{YPBankRecord, Status};

#[test]
fn test_identical_records() {
    let records1 = create_test_records(10, 100);
    let records2 = records1.clone();

    let diffs = compare_records(&records1, &records2);
    assert_eq!(diffs, 0);
}

#[test]
fn test_different_records() {
    let records1 = create_test_records(5, 100);
    let mut records2 = records1.clone();

    records2[0].amount = 999999;

    let diffs = compare_records(&records1, &records2);
    assert_eq!(diffs, 1);
}

#[test]
fn test_missing_records() {
    let records1 = create_test_records(10, 100);
    let records2 = create_test_records(8, 100);

    let diffs = compare_records(&records1, &records2);
    assert_eq!(diffs, 2);
}

#[test]
fn test_extra_records() {
    let records1 = create_test_records(5, 100);
    let records2 = create_test_records(8, 100);

    let diffs = compare_records(&records1, &records2);
    assert_eq!(diffs, 3);
}

#[test]
fn test_completely_different_records() {
    let records1 = create_test_records(5, 100);
    let records2 = create_test_records(5, 200);

    let diffs = compare_records(&records1, &records2);
    assert_eq!(diffs, 10);
}

#[test]
fn test_multiple_differences() {
    let records1 = create_test_records(10, 100);
    let mut records2 = records1.clone();

    records2[0].amount = 999999;
    records2[1].description = "Modified".to_string();
    records2[2].status = Status::Failure;

    let diffs = compare_records(&records1, &records2);
    assert_eq!(diffs, 3);
}

#[test]
fn test_empty_files() {
    let records1: Vec<YPBankRecord> = vec![];
    let records2: Vec<YPBankRecord> = vec![];

    let diffs = compare_records(&records1, &records2);
    assert_eq!(diffs, 0);
}

#[test]
fn test_one_empty_file() {
    let records1 = create_test_records(5, 100);
    let records2: Vec<YPBankRecord> = vec![];

    let diffs = compare_records(&records1, &records2);
    assert_eq!(diffs, 5);
}

#[test]
fn test_large_dataset_comparison() {
    let records1 = create_test_records(100, 1000);
    let records2 = records1.clone();

    let diffs = compare_records(&records1, &records2);
    assert_eq!(diffs, 0);
}

#[test]
fn test_large_dataset_with_differences() {
    let records1 = create_test_records(100, 1000);
    let mut records2 = records1.clone();

    for i in (0..records2.len()).step_by(10) {
        records2[i].amount += 1;
    }

    let diffs = compare_records(&records1, &records2);
    assert_eq!(diffs, 10);
}

#[test]
fn test_duplicate_tx_ids() {
    let mut records1 = create_test_records(5, 100);
    let mut records2 = create_test_records(5, 100);

    records1[1].tx_id = records1[0].tx_id;
    records2[1].tx_id = records2[0].tx_id;

    let diffs = compare_records(&records1, &records2);
    assert_eq!(diffs, 0);
}

#[test]
fn test_format_independence() {
    let records1 = create_test_records(5, 100);

    let mut csv_output = Vec::new();
    Parser::write_to(&mut csv_output, &records1, "csv").unwrap();

    let records2 = Parser::from_read(&csv_output, "csv").unwrap();

    let diffs = compare_records(&records1, &records2);
    assert_eq!(diffs, 0);
}

#[test]
fn test_cross_format_comparison() {
    let records1 = create_test_records(3, 100);

    let mut txt_output = Vec::new();
    Parser::write_to(&mut txt_output, &records1, "txt").unwrap();

    let records2 = Parser::from_read(&txt_output, "txt").unwrap();

    let diffs = compare_records(&records1, &records2);
    assert_eq!(diffs, 0);
}

#[test]
fn test_binary_format_comparison() {
    let records1 = create_test_records(5, 100);

    let mut bin_output = Vec::new();
    Parser::write_to(&mut bin_output, &records1, "bin").unwrap();

    let records2 = Parser::from_read(&bin_output, "bin").unwrap();

    let diffs = compare_records(&records1, &records2);
    assert_eq!(diffs, 0);
}
