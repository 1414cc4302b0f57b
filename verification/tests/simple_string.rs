use bytes::Bytes;
use resp_protocol::{RespError, SimpleString};

#[test]
fn simple_string_test_new() {
    let string = "OK";
    let simple_string = SimpleString::new(string.as_bytes());
    assert_eq!(
        simple_string,
        SimpleString::from_bytes(Bytes::from_static(b"+OK\r\n"))
    );
}

#[test]
fn mod_test_value() {
    let simple_string = SimpleString::from_bytes(Bytes::from_static(b"+OK\r\n"));
    assert_eq!(simple_string.value(), Vec::from("OK"));
    assert_eq!(simple_string.value(), Vec::from("OK"));
}

#[test]
fn test_value_len() {
    let simple_string = SimpleString::from_bytes(Bytes::from_static(b"+OK\r\n"));
    assert_eq!(simple_string.value_len(), 2);
    assert_eq!(simple_string.value_len(), 2);
}

#[test]
fn simple_string_test_bytes() {
    let simple_string = SimpleString::from_bytes(Bytes::from_static(b"+OK\r\n"));
    assert_eq!(simple_string.bytes(), Bytes::from_static(b"+OK\r\n"));
    assert_eq!(simple_string.bytes(), Bytes::from_static(b"+OK\r\n"));
}

#[test]
fn test_len() {
    let simple_string = SimpleString::from_bytes(Bytes::from_static(b"+OK\r\n"));
    assert_eq!(simple_string.len(), 5);
    assert_eq!(simple_string.len(), 5);
}

#[test]
fn simple_string_test_validate_valid_value() {
    let value = b"OK";
    assert_eq!(SimpleString::validate_value(value).unwrap(), ())
}

#[test]
fn simple_string_test_validate_invalid_value() {
    let value = b"O\r\nK";
    assert_eq!(
        SimpleString::validate_value(value).unwrap_err(),
        RespError::InvalidValue
    )
}

#[test]
fn simple_string_test_parse() {
    let string = "+foo\r\n+bar\r\n";
    let mut cursor = 0;
    let end = string.len();
    assert_eq!(
        SimpleString::parse(string.as_bytes(), &mut cursor, &end).unwrap(),
        SimpleString::new("foo".as_bytes())
    );
    assert_eq!(cursor, 6);
}
