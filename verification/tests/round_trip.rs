use bytes::Bytes;
use resp_protocol::{
    empty_array, empty_bulk_string, null_array, null_bulk_string, Array, ArrayBuilder,
    BulkString, Error, Integer, RespType, SimpleString,
};

#[test]
fn simple_string_round_trip() {
    let value = SimpleString::new(b"hello world");
    let bytes = value.bytes();
    let mut cursor = 0;
    let decoded = SimpleString::parse(&bytes, &mut cursor, &bytes.len()).unwrap();
    assert_eq!(decoded, value);
    assert_eq!(cursor, value.len());
    assert_eq!(decoded.value(), b"hello world".to_vec());
}

#[test]
fn simple_string_round_trip_of_empty_payload() {
    let value = SimpleString::new(b"");
    assert_eq!(value.bytes(), Bytes::from_static(b"+\r\n"));
    let bytes = value.bytes();
    let mut cursor = 0;
    let decoded = SimpleString::parse(&bytes, &mut cursor, &bytes.len()).unwrap();
    assert_eq!(decoded, value);
    assert_eq!(cursor, 3);
    assert_eq!(decoded.value(), Vec::<u8>::new());
    assert_eq!(decoded.value_len(), 0);
}

#[test]
fn error_round_trip() {
    let value = Error::new(b"ERR unknown command");
    let bytes = value.bytes();
    let mut cursor = 0;
    let decoded = Error::parse(&bytes, &mut cursor, &bytes.len()).unwrap();
    assert_eq!(decoded, value);
    assert_eq!(cursor, value.len());
    assert_eq!(decoded.value(), b"ERR unknown command".to_vec());
}

#[test]
fn integer_round_trip() {
    for number in [0i64, 7, -7, 10, 99, 100, -100, 1234567890, i64::MAX, i64::MIN] {
        let value = Integer::new(number);
        assert_eq!(value.raw_value(), number.to_string().into_bytes());
        let bytes = value.bytes();
        let mut cursor = 0;
        let decoded = Integer::parse(&bytes, &mut cursor, &bytes.len()).unwrap();
        assert_eq!(decoded, value);
        assert_eq!(cursor, value.len());
    }
}

#[test]
fn integer_encodings() {
    assert_eq!(Integer::new(-100).bytes(), Bytes::from_static(b":-100\r\n"));
    assert_eq!(Integer::new(0).bytes(), Bytes::from_static(b":0\r\n"));
    assert_eq!(
        Integer::new(i64::MIN).bytes(),
        Bytes::from_static(b":-9223372036854775808\r\n")
    );
    assert_eq!(
        Integer::new(i64::MAX).bytes(),
        Bytes::from_static(b":9223372036854775807\r\n")
    );
}

#[test]
fn bulk_string_round_trip() {
    for payload in [&b""[..], b"a", b"foobar", b"0123456789", b"twelve bytes"] {
        let value = BulkString::new(payload);
        let bytes = value.bytes();
        let mut cursor = 0;
        let decoded = BulkString::parse(&bytes, &mut cursor, &bytes.len()).unwrap();
        assert_eq!(decoded, value);
        assert_eq!(cursor, value.len());
    }
}

#[test]
fn bulk_string_length_of_two_digits() {
    let value = BulkString::new(b"0123456789");
    assert_eq!(value.bytes(), Bytes::from_static(b"$10\r\n0123456789\r\n"));
    assert_eq!(value.len(), 17);
}

#[test]
fn round_trip_in_the_middle_of_a_buffer() {
    let input = b"junk+OK\r\n$3\r\nfoo\r\n:42\r\n-ERR\r\n*1\r\n:1\r\nrest";
    let end = input.len();
    let mut cursor = 4;
    assert_eq!(
        SimpleString::parse(input, &mut cursor, &end).unwrap(),
        SimpleString::new(b"OK")
    );
    assert_eq!(cursor, 9);
    assert_eq!(
        BulkString::parse(input, &mut cursor, &end).unwrap(),
        BulkString::new(b"foo")
    );
    assert_eq!(cursor, 18);
    assert_eq!(Integer::parse(input, &mut cursor, &end).unwrap(), Integer::new(42));
    assert_eq!(cursor, 23);
    assert_eq!(Error::parse(input, &mut cursor, &end).unwrap(), Error::new(b"ERR"));
    assert_eq!(cursor, 29);
    let array = Array::parse(input, &mut cursor, &end).unwrap();
    assert_eq!(array.bytes(), Bytes::from_static(b"*1\r\n:1\r\n"));
    assert_eq!(cursor, 37);
}

#[test]
fn empty_forms_are_the_fixed_ones() {
    assert_eq!(BulkString::new(b""), empty_bulk_string());
    assert_eq!(empty_bulk_string().bytes(), Bytes::from_static(b"$0\r\n\r\n"));
    assert_eq!(ArrayBuilder::new().build(), empty_array());
    assert_eq!(empty_array().bytes(), Bytes::from_static(b"*0\r\n"));
    assert!(BulkString::new(b"").is_empty());
    assert!(ArrayBuilder::new().build().is_empty());
    assert!(!BulkString::new(b"x").is_empty());
    assert!(!empty_bulk_string().is_null());
    assert!(!empty_array().is_null());
}

#[test]
fn null_forms_decode_to_the_fixed_ones() {
    let input = b"*-1\r\n";
    let mut cursor = 0;
    let array = Array::parse(input, &mut cursor, &input.len()).unwrap();
    assert_eq!(array, null_array());
    assert!(array.is_null());
    assert!(!array.is_empty());
    assert_eq!(cursor, 5);

    let input = b"$-1\r\n";
    let mut cursor = 0;
    let bulk_string = BulkString::parse(input, &mut cursor, &input.len()).unwrap();
    assert_eq!(bulk_string, null_bulk_string());
    assert!(bulk_string.is_null());
    assert!(!bulk_string.is_empty());
    assert_eq!(cursor, 5);
    assert_eq!(null_bulk_string().bytes(), Bytes::from_static(b"$-1\r\n"));
    assert_eq!(null_array().bytes(), Bytes::from_static(b"*-1\r\n"));
}

#[test]
fn array_gives_back_its_elements_in_order() {
    let elements = vec![
        RespType::SimpleString(SimpleString::new(b"foo")),
        RespType::Error(Error::new(b"bad")),
        RespType::Integer(Integer::new(-5)),
        RespType::BulkString(BulkString::new(b"bar")),
        RespType::BulkString(null_bulk_string()),
        RespType::Array(
            ArrayBuilder::new()
                .insert(RespType::Integer(Integer::new(1)))
                .insert(RespType::Array(empty_array()))
                .build(),
        ),
        RespType::Array(null_array()),
    ];
    let mut builder = ArrayBuilder::new();
    for element in &elements {
        builder.insert(element.clone());
    }
    let built = builder.build();
    let bytes = built.bytes();
    let end = bytes.len();

    let mut cursor = 0;
    let decoded = Array::parse(&bytes, &mut cursor, &end).unwrap();
    assert_eq!(decoded, built);
    assert_eq!(cursor, built.len());

    let mut cursor = 4;
    assert_eq!(&bytes[..4], b"*7\r\n");
    for element in &elements {
        let from = cursor;
        match element {
            RespType::SimpleString(_) => SimpleString::while_valid(&bytes, &mut cursor, &end),
            RespType::Error(_) => Error::while_valid(&bytes, &mut cursor, &end),
            RespType::Integer(_) => Integer::while_valid(&bytes, &mut cursor, &end),
            RespType::BulkString(_) => BulkString::while_valid(&bytes, &mut cursor, &end),
            RespType::Array(_) => Array::while_valid(&bytes, &mut cursor, &end),
        }
        .unwrap();
        assert_eq!(&bytes[from..cursor], &element.bytes()[..]);
        assert_eq!(cursor - from, element.len());
    }
    assert_eq!(cursor, end);
}

#[test]
fn array_of_ten_elements_has_a_count_of_two_digits() {
    let mut builder = ArrayBuilder::new();
    for number in 0..10 {
        builder.insert(RespType::Integer(Integer::new(number)));
    }
    let built = builder.build();
    assert_eq!(
        built.bytes(),
        Bytes::from_static(b"*10\r\n:0\r\n:1\r\n:2\r\n:3\r\n:4\r\n:5\r\n:6\r\n:7\r\n:8\r\n:9\r\n")
    );
    assert_eq!(built.len(), 45);
    let bytes = built.bytes();
    let mut cursor = 0;
    assert_eq!(Array::parse(&bytes, &mut cursor, &bytes.len()).unwrap(), built);
    assert_eq!(cursor, 45);
}

#[test]
fn scenario_simple_string_ok() {
    let value = SimpleString::new(b"OK");
    assert_eq!(value.bytes(), Bytes::from_static(b"+OK\r\n"));
    assert_eq!(value.len(), 5);
}

#[test]
fn scenario_array_of_three_integers() {
    let input = b"*3\r\n:1\r\n:2\r\n:3\r\n";
    let mut cursor = 0;
    let array = Array::parse(input, &mut cursor, &input.len()).unwrap();
    let built = ArrayBuilder::new()
        .insert(RespType::Integer(Integer::new(1)))
        .insert(RespType::Integer(Integer::new(2)))
        .insert(RespType::Integer(Integer::new(3)))
        .build();
    assert_eq!(array, built);
    assert_eq!(cursor, 16);
}
