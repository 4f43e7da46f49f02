use wombat::importer::{parse_binary_string, parse_hex_string, parse_octal_string};

#[test]
fn importer_test_basic_space_separated() {
    let s = "45 89 45 12 45";
    let expected = vec![0x45, 0x89, 0x45, 0x12, 0x45];
    assert_eq!(parse_hex_string(s).unwrap(), expected);
}

#[test]
fn importer_test_no_separators() {
    let s = "4589451245";
    let expected = vec![0x45, 0x89, 0x45, 0x12, 0x45];
    assert_eq!(parse_hex_string(s).unwrap(), expected);
}

#[test]
fn importer_test_0x_prefix() {
    let s = "0x45 0x84";
    let expected = vec![0x45, 0x84];
    assert_eq!(parse_hex_string(s).unwrap(), expected);

    let s2 = "0x450x84";
    assert_eq!(parse_hex_string(s2).unwrap(), expected);
}

#[test]
fn importer_test_colon_and_dash_separators() {
    let s = "45:89:45:12:45";
    let expected = vec![0x45, 0x89, 0x45, 0x12, 0x45];
    assert_eq!(parse_hex_string(s).unwrap(), expected);

    let s2 = "45-89-45-12-45";
    assert_eq!(parse_hex_string(s2).unwrap(), expected);
}

#[test]
fn importer_test_comma_separators() {
    let s = "45,89,45,12,45";
    let expected = vec![0x45, 0x89, 0x45, 0x12, 0x45];
    assert_eq!(parse_hex_string(s).unwrap(), expected);
}

#[test]
fn importer_test_backslash_x_escape() {
    let s = r"\x45\x89\x45\x12\x45";
    let expected = vec![0x45, 0x89, 0x45, 0x12, 0x45];
    assert_eq!(parse_hex_string(s).unwrap(), expected);
}

#[test]
fn importer_test_mixed_case_hex() {
    let s = "45 89 aF 12 45";
    let expected = vec![0x45, 0x89, 0xAF, 0x12, 0x45];
    assert_eq!(parse_hex_string(s).unwrap(), expected);
}

#[test]
fn importer_test_invalid_characters() {
    let s = "45 89 GG 12";
    assert!(parse_hex_string(s).is_err());

    let s2 = "45 89 4z";
    assert!(parse_hex_string(s2).is_err());
}

#[test]
fn importer_test_odd_number_of_digits() {
    let s = "458945124";
    assert!(parse_hex_string(s).is_err());
}

#[test]
fn importer_test_empty_string() {
    let s = "";
    let expected: Vec<u8> = vec![];
    assert_eq!(parse_hex_string(s).unwrap(), expected);
}

#[test]
fn importer_test_only_separators() {
    let s = " ,:- \t\n";
    let expected: Vec<u8> = vec![];
    assert_eq!(parse_hex_string(s).unwrap(), expected);
}

// =====================
// Binary parser tests
// =====================

#[test]
fn importer_test_binary_simple_prefixed() {
    // Binary
    let s = "0b00000001 0b00000010 00000011";
    let expected = vec![1, 2, 3];
    assert_eq!(parse_binary_string(s).unwrap(), expected);
}

#[test]
fn importer_test_binary_simple_prefixed_concat() {
    // Binary
    let s = "0b000000010b000000100b00000011";
    let expected = vec![1, 2, 3];
    assert_eq!(parse_binary_string(s).unwrap(), expected);
}

#[test]
fn importer_test_binary_simple() {
    let s = "00000001 00000010 00000011";
    let expected = vec![1, 2, 3];
    assert_eq!(parse_binary_string(s).unwrap(), expected);
}

#[test]
fn importer_test_binary_no_spaces() {
    let s = "000000010000001000000011";
    let expected = vec![1, 2, 3];
    assert_eq!(parse_binary_string(s).unwrap(), expected);
}

#[test]
fn importer_test_binary_with_separators() {
    let s = "00000001:00000010-00000011,00000100\t00000101\n00000110";
    let expected = vec![1, 2, 3, 4, 5, 6];
    assert_eq!(parse_binary_string(s).unwrap(), expected);
}

#[test]
fn importer_test_binary_odd_padding() {
    let s = "1"; // single bit, padded to 8 bits
    let expected = vec![1];
    assert_eq!(parse_binary_string(s).unwrap(), expected);
}

#[test]
fn importer_test_binary_empty() {
    let s = "";
    let expected: Vec<u8> = vec![];
    assert_eq!(parse_binary_string(s).unwrap(), expected);
}

#[test]
fn importer_test_binary_invalid_char() {
    let s = "00000001 00000002";
    assert!(parse_binary_string(s).is_err());

    let s2 = "0000000a";
    assert!(parse_binary_string(s2).is_err());
}

// =====================
// Octal parser tests
// =====================

#[test]
fn importer_test_octal_simple_prefixed() {
    // octal
    let s = "0o44 0o7 0o12";
    let expected = vec![36, 7, 10];
    assert_eq!(parse_octal_string(s).unwrap(), expected);
}

#[test]
fn importer_test_octal_simple() {
    let s = "123 77 7";
    let expected = vec![83, 63, 7];
    let bytes = parse_octal_string(s).unwrap();
    assert_eq!(bytes, expected); // just ensure it parses without panic
}

#[test]
fn importer_test_octal_with_separators() {
    let s = "123:77-7,0 1\t2\n3";
    let expected = vec![83, 63, 7, 0, 1, 2, 3];
    let bytes = parse_octal_string(s).unwrap();
    assert_eq!(bytes, expected);
}

#[test]
fn importer_test_octal_empty() {
    let s = "";
    let expected: Vec<u8> = vec![];
    assert_eq!(parse_octal_string(s).unwrap(), expected);
}

#[test]
fn importer_test_octal_invalid_char() {
    let s = "128 456"; // 8 is invalid in octal
    assert!(parse_octal_string(s).is_err());

    let s2 = "123a"; // a is invalid
    assert!(parse_octal_string(s2).is_err());
}

#[test]
fn importer_test_octal_padding() {
    let s = "7"; // single octal digit -> 3 bits, padded to 8 bits
    let bytes = parse_octal_string(s).unwrap();
    assert_eq!(bytes.len(), 1);
}
