use bytes::Bytes;
use resp_protocol::{
    empty_array, null_array, Array, ArrayBuilder, BulkString, Integer, RespType, SimpleString,
};

#[test]
fn test_build_empty_array() {
    let array_builder = ArrayBuilder::new();
    assert_eq!(array_builder.build(), empty_array())
}

#[test]
fn test_build_array() {
    let mut array_builder = ArrayBuilder::new();
    array_builder.insert(RespType::SimpleString(SimpleString::new(b"foo")));
    assert_eq!(
        array_builder.build().bytes(),
        Bytes::from_static(b"*1\r\n+foo\r\n")
    );
    array_builder.insert(RespType::BulkString(BulkString::new(b"bar")));
    assert_eq!(
        array_builder.build().bytes(),
        Bytes::from_static(b"*2\r\n+foo\r\n$3\r\nbar\r\n")
    );
    array_builder.insert(RespType::Integer(Integer::new(-100)));
    assert_eq!(
        array_builder.build().bytes(),
        Bytes::from_static(b"*3\r\n+foo\r\n$3\r\nbar\r\n:-100\r\n")
    );
    let mut subarray_builder = ArrayBuilder::new();
    subarray_builder.insert(RespType::SimpleString(SimpleString::new(b"foo")));
    subarray_builder.insert(RespType::SimpleString(SimpleString::new(b"bar")));
    let subarray = subarray_builder.build();
    assert_eq!(
        subarray.bytes(),
        Bytes::from_static(b"*2\r\n+foo\r\n+bar\r\n")
    );
    array_builder.insert(RespType::Array(subarray));
    assert_eq!(
        array_builder.build().bytes(),
        Bytes::from_static(b"*4\r\n+foo\r\n$3\r\nbar\r\n:-100\r\n*2\r\n+foo\r\n+bar\r\n")
    );
}

#[test]
fn mod_test_parse_empty() {
    let string = "*0\r\n";
    let mut cursor = 0;
    let array = Array::parse(string.as_bytes(), &mut cursor, &string.len()).unwrap();

    assert_eq!(array, empty_array());
    assert_eq!(cursor, 4);
}

#[test]
fn mod_test_parse_null() {
    let string = "*-1\r\n";
    let mut cursor = 0;
    let array = Array::parse(string.as_bytes(), &mut cursor, &string.len()).unwrap();

    assert_eq!(array, null_array());
    assert_eq!(cursor, 5);
}

#[test]
fn parse_array_with_integers() {
    let string = "*3\r\n:1\r\n:2\r\n:3\r\n";
    let mut cursor = 0;
    let array = Array::parse(string.as_bytes(), &mut cursor, &string.len()).unwrap();

    let referance_array = ArrayBuilder::new()
        .insert(RespType::Integer(Integer::new(1)))
        .insert(RespType::Integer(Integer::new(2)))
        .insert(RespType::Integer(Integer::new(3)))
        .build();

    assert_eq!(array, referance_array);
    assert_eq!(cursor, 16);
}

#[test]
fn parse_array_with_bulk_strings() {
    let string = "*2\r\n$3\r\nfoo\r\n$3\r\nbar\r\n";
    let mut cursor = 0;
    let array = Array::parse(string.as_bytes(), &mut cursor, &string.len()).unwrap();

    let referance_array = ArrayBuilder::new()
        .insert(RespType::BulkString(BulkString::new(b"foo")))
        .insert(RespType::BulkString(BulkString::new(b"bar")))
        .build();

    assert_eq!(array, referance_array);
    assert_eq!(cursor, 22);
}
