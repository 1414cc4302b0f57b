use bytes::Bytes;
use resp_protocol::Integer;

#[test]
fn integer_test_new() {
    let integer = Integer::new(100);
    assert_eq!(integer, Integer::from_bytes(Bytes::from_static(b":100\r\n")));
}

#[test]
fn test_raw_value() {
    let integer = Integer::from_bytes(Bytes::from_static(b":100\r\n"));
    assert_eq!(integer.raw_value(), Vec::from("100"));
    assert_eq!(integer.raw_value(), Vec::from("100"));
}

#[test]
fn mod_test_bytes() {
    let integer = Integer::from_bytes(Bytes::from_static(b":100\r\n"));
    assert_eq!(integer.bytes(), Bytes::from_static(b":100\r\n"));
    assert_eq!(integer.bytes(), Bytes::from_static(b":100\r\n"));
}

#[test]
fn mod_test_validate_valid_value() {
    let value = 100i64.to_string();
    assert_eq!(Integer::validate_value(value.as_bytes()).unwrap(), ())
}

#[test]
#[should_panic(expected = "InvalidValue")]
fn mod_test_validate_invalid_value() {
    let value = b"100\r\n";
    assert_eq!(Integer::validate_value(value).unwrap(), ())
}

#[test]
fn integer_test_parse() {
    let string = ":100\r\n+bar\r\n";
    let mut cursor = 0;
    let end = string.len();
    assert_eq!(
        Integer::parse(string.as_bytes(), &mut cursor, &end).unwrap(),
        Integer::new(100)
    );
    assert_eq!(cursor, 6);
}
