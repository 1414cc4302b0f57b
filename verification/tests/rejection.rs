use resp_protocol::{Array, BulkString, Error, ErrorError, Integer, RespError, SimpleString};

fn bulk(input: &[u8]) -> (Result<BulkString, RespError>, usize) {
    let mut cursor = 0;
    let result = BulkString::parse(input, &mut cursor, &input.len());
    (result, cursor)
}

fn array(input: &[u8]) -> (Result<Array, RespError>, usize) {
    let mut cursor = 0;
    let result = Array::parse(input, &mut cursor, &input.len());
    (result, cursor)
}

fn simple(input: &[u8]) -> (Result<SimpleString, RespError>, usize) {
    let mut cursor = 0;
    let result = SimpleString::parse(input, &mut cursor, &input.len());
    (result, cursor)
}

#[test]
fn leading_zero_is_rejected() {
    assert_eq!(bulk(b"$012\r\n012345678901\r\n").0.unwrap_err(), RespError::InvalidLength);
    assert_eq!(bulk(b"$00\r\n\r\n").0.unwrap_err(), RespError::InvalidLength);
    assert_eq!(array(b"*012\r\n:1\r\n").0.unwrap_err(), RespError::InvalidLength);
    assert_eq!(array(b"*01\r\n:1\r\n").0.unwrap_err(), RespError::InvalidLength);
    assert_eq!(array(b"*00\r\n").0.unwrap_err(), RespError::InvalidLength);
}

#[test]
fn a_single_zero_is_no_leading_zero() {
    assert_eq!(bulk(b"$0\r\n\r\n").1, 6);
    assert_eq!(array(b"*0\r\n").1, 4);
}

#[test]
fn malformed_null_markers_are_rejected() {
    assert_eq!(bulk(b"$-2\r\n").0.unwrap_err(), RespError::InvalidValue);
    assert_eq!(bulk(b"$-1\n\r").0.unwrap_err(), RespError::InvalidValue);
    assert_eq!(bulk(b"$-1").0.unwrap_err(), RespError::InvalidValue);
    assert_eq!(array(b"*-2\r\n").0.unwrap_err(), RespError::InvalidValue);
    assert_eq!(array(b"*-1\r").0.unwrap_err(), RespError::InvalidValue);
    assert_eq!(array(b"*-1\rx").0.unwrap_err(), RespError::InvalidValue);
}

#[test]
fn wrong_first_byte_is_rejected() {
    assert_eq!(simple(b"-OK\r\n").0.unwrap_err(), RespError::InvalidFirstChar);
    assert_eq!(simple(b"").0.unwrap_err(), RespError::InvalidFirstChar);
    assert_eq!(bulk(b"+OK\r\n").0.unwrap_err(), RespError::InvalidFirstChar);
    assert_eq!(bulk(b"").0.unwrap_err(), RespError::InvalidFirstChar);
    assert_eq!(array(b"+OK\r\n").0.unwrap_err(), RespError::InvalidFirstChar);
    let input = b"+OK\r\n";
    let mut cursor = 0;
    assert_eq!(
        Integer::parse(input, &mut cursor, &input.len()).unwrap_err(),
        RespError::InvalidFirstChar
    );
    assert_eq!(
        Error::parse(input, &mut cursor, &input.len()).unwrap_err(),
        ErrorError::InvalidFirstChar
    );
    assert_eq!(cursor, 0);
}

#[test]
fn tag_is_read_before_anything_else() {
    assert_eq!(array(b"").0.unwrap_err(), RespError::InvalidFirstChar);
    assert_eq!(array(b"+").0.unwrap_err(), RespError::InvalidFirstChar);
    assert_eq!(array(b"+OK").0.unwrap_err(), RespError::InvalidFirstChar);
    assert_eq!(array(b"+\r\n").0.unwrap_err(), RespError::InvalidFirstChar);
    assert_eq!(bulk(b"*").0.unwrap_err(), RespError::InvalidFirstChar);
    assert_eq!(bulk(b"*3\r").0.unwrap_err(), RespError::InvalidFirstChar);
}

#[test]
fn length_cut_short_lacks_its_separator_however_short_the_buffer() {
    assert_eq!(bulk(b"$").0.unwrap_err(), RespError::InvalidLengthSeparator);
    assert_eq!(bulk(b"$1").0.unwrap_err(), RespError::InvalidLengthSeparator);
    assert_eq!(bulk(b"$6\r").0.unwrap_err(), RespError::InvalidLengthSeparator);
    assert_eq!(bulk(b"$12").0.unwrap_err(), RespError::InvalidLengthSeparator);
    assert_eq!(bulk(b"$12\r").0.unwrap_err(), RespError::InvalidLengthSeparator);
    assert_eq!(bulk(b"$0").0.unwrap_err(), RespError::InvalidLengthSeparator);
    assert_eq!(array(b"*").0.unwrap_err(), RespError::InvalidLengthSeparator);
    assert_eq!(array(b"*3").0.unwrap_err(), RespError::InvalidLengthSeparator);
    assert_eq!(array(b"*3\r").0.unwrap_err(), RespError::InvalidLengthSeparator);
    assert_eq!(array(b"*0\r").0.unwrap_err(), RespError::InvalidLengthSeparator);
    assert_eq!(array(b"*12").0.unwrap_err(), RespError::InvalidLengthSeparator);
}

#[test]
fn bulk_string_that_ends_behind_its_length_is_rejected_for_what_is_missing() {
    assert_eq!(bulk(b"$0\r\n").0.unwrap_err(), RespError::InvalidTerminate);
    assert_eq!(bulk(b"$0\r\n\r").0.unwrap_err(), RespError::InvalidTerminate);
    assert_eq!(bulk(b"$1\r\n").0.unwrap_err(), RespError::LengthsNotMatch);
    assert_eq!(bulk(b"$1\r\nx").0.unwrap_err(), RespError::InvalidTerminate);
}

#[test]
fn null_marker_cut_short_is_rejected() {
    assert_eq!(bulk(b"$-").0.unwrap_err(), RespError::InvalidValue);
    assert_eq!(bulk(b"$-1").0.unwrap_err(), RespError::InvalidValue);
    assert_eq!(bulk(b"$-1\r").0.unwrap_err(), RespError::InvalidValue);
    assert_eq!(array(b"*-").0.unwrap_err(), RespError::InvalidValue);
    assert_eq!(array(b"*-1").0.unwrap_err(), RespError::InvalidValue);
    assert_eq!(array(b"*-1\r").0.unwrap_err(), RespError::InvalidValue);
}

#[test]
fn leading_zero_is_rejected_where_the_buffer_ends_behind_it() {
    assert_eq!(bulk(b"$01").0.unwrap_err(), RespError::InvalidLength);
    assert_eq!(array(b"*00").0.unwrap_err(), RespError::InvalidLength);
}

#[test]
fn truncated_leaf_values_are_rejected() {
    let whole = b"+hello\r\n";
    for cut in 1..whole.len() {
        let (result, cursor) = simple(&whole[..cut]);
        assert_eq!(result.unwrap_err(), RespError::InvalidTerminate);
        assert_eq!(cursor, 0);
    }
    let whole = b":12345\r\n";
    for cut in 1..whole.len() {
        let mut cursor = 0;
        assert_eq!(
            Integer::parse(&whole[..cut], &mut cursor, &cut).unwrap_err(),
            RespError::InvalidTerminate
        );
    }
    let whole = b"-ERR x\r\n";
    for cut in 1..whole.len() {
        let mut cursor = 0;
        assert_eq!(
            Error::parse(&whole[..cut], &mut cursor, &cut).unwrap_err(),
            ErrorError::InvalidTerminate
        );
    }
}

#[test]
fn leaf_value_with_a_bare_line_break_is_rejected() {
    assert_eq!(simple(b"+foo\nbar\r\n").0.unwrap_err(), RespError::InvalidTerminate);
    assert_eq!(simple(b"+foo\rbar\r\n").0.unwrap_err(), RespError::InvalidTerminate);
    assert_eq!(simple(b"+foo\n\r").0.unwrap_err(), RespError::InvalidTerminate);
}

#[test]
fn truncated_bulk_string_is_rejected() {
    let whole = b"$1000\r\nfoobar\r\n";
    assert_eq!(bulk(&whole[..5]).0.unwrap_err(), RespError::InvalidLengthSeparator);
    assert_eq!(bulk(&whole[..6]).0.unwrap_err(), RespError::InvalidLengthSeparator);
    let whole = b"$6\r\nfoobar\r\n";
    assert_eq!(bulk(&whole[..0]).0.unwrap_err(), RespError::InvalidFirstChar);
    for cut in 1..4 {
        assert_eq!(bulk(&whole[..cut]).0.unwrap_err(), RespError::InvalidLengthSeparator);
    }
    for cut in 4..10 {
        assert_eq!(bulk(&whole[..cut]).0.unwrap_err(), RespError::LengthsNotMatch);
    }
    assert_eq!(bulk(&whole[..10]).0.unwrap_err(), RespError::InvalidTerminate);
    assert_eq!(bulk(&whole[..11]).0.unwrap_err(), RespError::InvalidTerminate);
    assert_eq!(bulk(whole).1, 12);
    for cut in 0..whole.len() {
        let (result, cursor) = bulk(&whole[..cut]);
        assert!(result.is_err());
        assert_eq!(cursor, 0);
    }
}

#[test]
fn truncated_array_is_rejected() {
    let whole = b"*1000\r\n:1\r\n";
    assert_eq!(array(&whole[..5]).0.unwrap_err(), RespError::InvalidLengthSeparator);
    assert_eq!(array(&whole[..6]).0.unwrap_err(), RespError::InvalidLengthSeparator);
    let whole = b"*2\r\n:1\r\n+ab\r\n";
    assert_eq!(array(&whole[..0]).0.unwrap_err(), RespError::InvalidFirstChar);
    for cut in 1..4 {
        assert_eq!(array(&whole[..cut]).0.unwrap_err(), RespError::InvalidLengthSeparator);
    }
    assert_eq!(array(&whole[..4]).0.unwrap_err(), RespError::InvalidValue);
    for cut in 5..8 {
        assert_eq!(array(&whole[..cut]).0.unwrap_err(), RespError::InvalidTerminate);
    }
    assert_eq!(array(&whole[..8]).0.unwrap_err(), RespError::InvalidValue);
    for cut in 9..13 {
        assert_eq!(array(&whole[..cut]).0.unwrap_err(), RespError::InvalidTerminate);
    }
    for cut in 0..whole.len() {
        let (result, cursor) = array(&whole[..cut]);
        assert!(result.is_err());
        assert_eq!(cursor, 0);
    }
    assert_eq!(array(whole).1, 13);
}

#[test]
fn length_without_separator_is_rejected() {
    assert_eq!(bulk(b"$3foo\r\n").0.unwrap_err(), RespError::InvalidLengthSeparator);
    assert_eq!(bulk(b"$3\nfoo\r\n").0.unwrap_err(), RespError::InvalidLengthSeparator);
    assert_eq!(bulk(b"$abc\r\n").0.unwrap_err(), RespError::InvalidLengthSeparator);
    assert_eq!(array(b"*1:1\r\n").0.unwrap_err(), RespError::InvalidLengthSeparator);
    assert_eq!(array(b"*x\r\n").0.unwrap_err(), RespError::InvalidLengthSeparator);
}

#[test]
fn length_without_digits_is_rejected() {
    assert_eq!(bulk(b"$\r\nab\r\n").0.unwrap_err(), RespError::InvalidLength);
    assert_eq!(array(b"*\r\n:1\r\n").0.unwrap_err(), RespError::InvalidLength);
}

#[test]
fn bulk_string_payload_of_another_length_is_rejected() {
    assert_eq!(bulk(b"$3\r\nfoobar\r\n").0.unwrap_err(), RespError::LengthsNotMatch);
    assert_eq!(bulk(b"$6\r\nfoo\r\n").0.unwrap_err(), RespError::LengthsNotMatch);
    assert_eq!(bulk(b"$1\r\n\r\n").0.unwrap_err(), RespError::LengthsNotMatch);
    assert_eq!(bulk(b"$0\r\nx\r\n").0.unwrap_err(), RespError::LengthsNotMatch);
}

#[test]
fn bulk_string_payload_with_a_line_break_is_rejected() {
    let value = BulkString::new(b"a\rb");
    assert_eq!(&value.bytes()[..], b"$3\r\na\rb\r\n");
    assert_eq!(bulk(&value.bytes()).0.unwrap_err(), RespError::LengthsNotMatch);
    let value = BulkString::new(b"a\nb");
    assert_eq!(bulk(&value.bytes()).0.unwrap_err(), RespError::LengthsNotMatch);
    let value = BulkString::new(b"a\r\nb");
    assert_eq!(bulk(&value.bytes()).0.unwrap_err(), RespError::LengthsNotMatch);
}

#[test]
fn bulk_string_without_its_end_is_rejected() {
    assert_eq!(bulk(b"$3\r\nfoo\n\r").0.unwrap_err(), RespError::InvalidTerminate);
    assert_eq!(bulk(b"$3\r\nfoo\rx").0.unwrap_err(), RespError::InvalidTerminate);
}

#[test]
fn length_beyond_the_machine_word_is_rejected() {
    assert_eq!(
        bulk(b"$99999999999999999999999999\r\nfoo\r\n").0.unwrap_err(),
        RespError::LengthsNotMatch
    );
    assert_eq!(
        array(b"*99999999999999999999999999\r\n:1\r\n:2\r\n").0.unwrap_err(),
        RespError::InvalidValue
    );
    assert_eq!(
        array(b"*99999999999999999999999999\r\n:1\r\n:2").0.unwrap_err(),
        RespError::InvalidTerminate
    );
}

#[test]
fn array_with_an_unknown_element_is_rejected() {
    assert_eq!(array(b"*1\r\nx\r\n").0.unwrap_err(), RespError::InvalidValue);
    assert_eq!(array(b"*2\r\n:1\r\n!2\r\n").0.unwrap_err(), RespError::InvalidValue);
}

#[test]
fn array_is_rejected_with_the_error_of_its_element() {
    assert_eq!(array(b"*1\r\n$01\r\nx\r\n").0.unwrap_err(), RespError::InvalidLength);
    assert_eq!(array(b"*1\r\n$3\r\nfoobar\r\n").0.unwrap_err(), RespError::LengthsNotMatch);
    assert_eq!(array(b"*1\r\n$3foo\r\n").0.unwrap_err(), RespError::InvalidLengthSeparator);
    assert_eq!(array(b"*1\r\n*1\r\n+ok").0.unwrap_err(), RespError::InvalidTerminate);
    assert_eq!(array(b"*2\r\n:1\r\n*-2\r\n").0.unwrap_err(), RespError::InvalidValue);
}

#[test]
fn array_with_more_bytes_than_elements_stops_behind_its_last_element() {
    let input = b"*1\r\n:1\r\n:2\r\n";
    let (result, cursor) = array(input);
    assert_eq!(&result.unwrap().bytes()[..], b"*1\r\n:1\r\n");
    assert_eq!(cursor, 8);
}

#[test]
fn cursor_bound_inside_the_buffer_hides_what_lies_behind_it() {
    let input = b"+hello\r\n";
    let mut cursor = 0;
    assert_eq!(
        SimpleString::parse(input, &mut cursor, &7).unwrap_err(),
        RespError::InvalidTerminate
    );
    assert_eq!(cursor, 0);
    let input = b"$3\r\nfoo\r\n";
    assert_eq!(
        BulkString::parse(input, &mut cursor, &6).unwrap_err(),
        RespError::LengthsNotMatch
    );
    let input = b"*1\r\n:1\r\n";
    assert_eq!(
        Array::parse(input, &mut cursor, &4).unwrap_err(),
        RespError::InvalidValue
    );
}

#[test]
fn cursor_bound_beyond_the_buffer_reads_the_buffer_and_no_more() {
    let input = b"+hello\r\n";
    let mut cursor = 0;
    assert_eq!(
        SimpleString::parse(input, &mut cursor, &100).unwrap(),
        SimpleString::new(b"hello")
    );
    assert_eq!(cursor, 8);
    let mut cursor = 0;
    assert_eq!(
        SimpleString::parse(&input[..7], &mut cursor, &100).unwrap_err(),
        RespError::InvalidTerminate
    );
    let mut cursor = 50;
    assert_eq!(
        SimpleString::parse(input, &mut cursor, &100).unwrap_err(),
        RespError::InvalidFirstChar
    );
    assert_eq!(cursor, 50);
    let mut cursor = 50;
    assert_eq!(
        BulkString::parse(input, &mut cursor, &100).unwrap_err(),
        RespError::InvalidFirstChar
    );
    assert_eq!(
        Array::parse(input, &mut cursor, &usize::MAX).unwrap_err(),
        RespError::InvalidFirstChar
    );
    let input = b"*2\r\n:1\r\n";
    let mut cursor = 0;
    assert_eq!(
        Array::parse(input, &mut cursor, &usize::MAX).unwrap_err(),
        RespError::InvalidValue
    );
}

#[test]
fn while_valid_moves_the_cursor_as_parse_does() {
    let input = b"+a\r\n-b\r\n:3\r\n$1\r\nc\r\n*0\r\n";
    let end = input.len();
    let mut cursor = 0;
    SimpleString::while_valid(input, &mut cursor, &end).unwrap();
    assert_eq!(cursor, 4);
    Error::while_valid(input, &mut cursor, &end).unwrap();
    assert_eq!(cursor, 8);
    Integer::while_valid(input, &mut cursor, &end).unwrap();
    assert_eq!(cursor, 12);
    BulkString::while_valid(input, &mut cursor, &end).unwrap();
    assert_eq!(cursor, 19);
    Array::while_valid(input, &mut cursor, &end).unwrap();
    assert_eq!(cursor, 23);
    assert_eq!(
        Array::while_valid(input, &mut cursor, &end).unwrap_err(),
        RespError::InvalidFirstChar
    );
    assert_eq!(
        BulkString::while_valid(input, &mut cursor, &end).unwrap_err(),
        RespError::InvalidFirstChar
    );
    assert_eq!(
        SimpleString::while_valid(input, &mut cursor, &end).unwrap_err(),
        RespError::InvalidFirstChar
    );
    assert_eq!(
        Error::while_valid(input, &mut cursor, &end).unwrap_err(),
        RespError::InvalidFirstChar
    );
    assert_eq!(cursor, 23);
}

#[test]
fn no_cut_of_a_value_is_accepted() {
    let whole = b"*5\r\n+foo\r\n$3\r\nbar\r\n*2\r\n:1\r\n*-1\r\n$-1\r\n-ERR\r\n";
    assert_eq!(array(whole).1, whole.len());
    for cut in 0..whole.len() {
        let (result, cursor) = array(&whole[..cut]);
        assert!(result.is_err());
        assert_eq!(cursor, 0);
    }
    let whole = b"$-1\r\n";
    assert_eq!(bulk(&whole[..1]).0.unwrap_err(), RespError::InvalidLengthSeparator);
    for cut in 2..whole.len() {
        assert_eq!(bulk(&whole[..cut]).0.unwrap_err(), RespError::InvalidValue);
    }
}

