use bytes::Bytes;
use resp_protocol::{empty_bulk_string, null_bulk_string, BulkString};

#[test]
fn test_new() {
    let bulk_string: BulkString = BulkString::new(b"foobar");
    assert_eq!(bulk_string.bytes(), Bytes::from_static(b"$6\r\nfoobar\r\n"));
}

#[test]
fn test_new_empty() {
    let bulk_string: BulkString = BulkString::new(b"");
    assert_eq!(bulk_string.bytes(), Bytes::from_static(b"$0\r\n\r\n"));
}

#[test]
fn test_from_bytes() {
    let bulk_string: BulkString =
        BulkString::from_bytes(Bytes::from_static(b"$6\r\nfoobar\r\n"));
    assert_eq!(bulk_string.bytes(), Bytes::from_static(b"$6\r\nfoobar\r\n"));
}

#[test]
fn test_from_slice() {
    let bulk_string: BulkString =
        BulkString::from_slice(Vec::from("$6\r\nfoobar\r\n").as_slice());
    assert_eq!(bulk_string.bytes(), Bytes::from_static(b"$6\r\nfoobar\r\n"));
}

#[test]
fn test_is_empty() {
    assert_eq!(empty_bulk_string().is_empty(), true)
}

#[test]
fn test_is_null() {
    assert_eq!(null_bulk_string().is_null(), true)
}

#[test]
fn test_parse() {
    let string = "$6\r\nfoobar\r\n";
    let mut cursor = 0;
    assert_eq!(
        BulkString::parse(string.as_bytes(), &mut cursor, &string.len()).unwrap(),
        BulkString::new(b"foobar")
    );
    assert_eq!(cursor, 12);
}

#[test]
fn test_parse_empty() {
    let string = "$0\r\n\r\n";
    let mut cursor = 0;
    assert_eq!(
        BulkString::parse(string.as_bytes(), &mut cursor, &string.len()).unwrap(),
        empty_bulk_string()
    );
    assert_eq!(cursor, 6);
}

#[test]
fn test_parse_null() {
    let string = "$-1\r\n";
    let mut cursor = 0;
    assert_eq!(
        BulkString::parse(string.as_bytes(), &mut cursor, &string.len()).unwrap(),
        null_bulk_string()
    );
    assert_eq!(cursor, 5);
}
