use snek::runtime::{parse_input, print_value, snek_error};
use snek::tagging::{decode_num, encode_num, FALSE_VAL, TRUE_VAL};

#[test]
fn input_booleans() {
    assert_eq!(parse_input("true"), Some(TRUE_VAL));
    assert_eq!(parse_input("false"), Some(FALSE_VAL));
}

#[test]
fn input_numbers_are_shifted() {
    assert_eq!(parse_input("21"), Some(42));
    assert_eq!(parse_input("0"), Some(0));
    assert_eq!(parse_input("-5"), Some(-10));
    assert_eq!(parse_input("+7"), Some(14));
    assert_eq!(parse_input("2147483647"), Some(4294967294));
    assert_eq!(parse_input("-2147483648"), Some(-4294967296));
}

#[test]
fn input_rejected() {
    assert_eq!(parse_input(""), None);
    assert_eq!(parse_input("abc"), None);
    assert_eq!(parse_input("True"), None);
    assert_eq!(parse_input("2147483648"), None);
    assert_eq!(parse_input("1.5"), None);
    assert_eq!(parse_input(" 3"), None);
}

#[test]
fn print_booleans() {
    assert_eq!(print_value(TRUE_VAL), Some("true".to_string()));
    assert_eq!(print_value(FALSE_VAL), Some("false".to_string()));
}

#[test]
fn print_numbers() {
    assert_eq!(print_value(42), Some("21".to_string()));
    assert_eq!(print_value(0), Some("0".to_string()));
    assert_eq!(print_value(-10), Some("-5".to_string()));
    assert_eq!(print_value(i64::MIN), Some("-4611686018427387904".to_string()));
}

#[test]
fn print_rejects_odd_values() {
    assert_eq!(print_value(5), None);
    assert_eq!(print_value(-1), None);
    assert_eq!(print_value(7), None);
}

#[test]
fn printed_input_reads_back() {
    for text in ["true", "false", "0", "17", "-17", "2147483647", "-2147483648"] {
        let value = parse_input(text).unwrap();
        assert_eq!(print_value(value), Some(text.to_string()));
    }
}

#[test]
fn printed_value_reads_back() {
    for value in [TRUE_VAL, FALSE_VAL, 0, 2, -2, 84, -4294967296] {
        let text = print_value(value).unwrap();
        assert_eq!(parse_input(&text), Some(value));
    }
}

#[test]
fn error_messages() {
    assert_eq!(snek_error(1), "invalid argument");
    assert_eq!(snek_error(2), "an error occurred");
    assert_eq!(snek_error(0), "an error occurred");
}

#[test]
fn encode_then_decode() {
    for n in [0, 1, -1, 12345, i32::MAX, i32::MIN] {
        assert_eq!(encode_num(n), 2 * n as i64);
        assert_eq!(decode_num(encode_num(n)), n);
        assert_eq!(encode_num(n) & 1, 0);
    }
    assert_eq!(TRUE_VAL & 1, 1);
    assert_eq!(FALSE_VAL & 1, 1);
}
