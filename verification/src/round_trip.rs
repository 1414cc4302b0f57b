//! Round trips: what the encoders write is what the validators accept, and
//! an array gives back the elements it was built from.

use crate::RespError;
use crate::encoding::{
    array_encoding, bulk_encoding, decimal_digits, empty_array_encoding,
    empty_bulk_string_encoding, leaf_encoding, lemma_canonical_digits,
    lemma_decimal_digits_shape, lemma_decimal_value_of_digits, lemma_signed_digits_is_line,
    line_ending, null_array_encoding, null_bulk_string_encoding, payload_of, signed_digits,
};
use crate::grammar::{
    array_validate, bulk_validate, digits_end, elements_validate, field_validate, field_value,
    is_digit, is_line, is_line_break, leaf_validate, line_end, opens_null_marker, value_validate,
    window, CR, LF, TAG_ARRAY, TAG_BULK_STRING, TAG_ERROR, TAG_INTEGER, TAG_SIMPLE_STRING,
};
use crate::laws::{
    lemma_array_frame, lemma_bulk_frame, lemma_digits_end_bounds, lemma_digits_end_is,
    lemma_elements_in_bounds, lemma_leaf_frame, lemma_line_end_bounds, lemma_line_end_is,
    lemma_same_span_part, lemma_value_frame, lemma_value_in_bounds, same_span,
};
use vstd::prelude::*;

verus! {

/// The bytes are one whole value: a validator accepts them from their first
/// byte to their last.
pub open spec fn is_value(encoded: Seq<u8>) -> bool {
    value_validate(encoded, 0) == Ok::<int, RespError>(encoded.len() as int)
}

/// The payload of an encoded simple string, error or integer is the payload
/// that was encoded.
pub proof fn lemma_payload_of_leaf_encoding(tag: u8, payload: Seq<u8>)
    ensures
        payload_of(leaf_encoding(tag, payload)) == payload,
        leaf_encoding(tag, payload).len() == payload.len() + 3,
{
    assert(payload_of(leaf_encoding(tag, payload)) =~= payload);
}

/// Round trip of a simple string, an error or an integer: the encoding of a
/// payload is accepted whole exactly when the payload holds no line break.
pub proof fn lemma_leaf_round_trip(tag: u8, payload: Seq<u8>)
    ensures
        is_line(payload) <==> leaf_validate(leaf_encoding(tag, payload), 0, tag) == Ok::<
            int,
            RespError,
        >(leaf_encoding(tag, payload).len() as int),
{
    let s = leaf_encoding(tag, payload);
    let stop = 1 + payload.len() as int;
    assert(s[0] == tag);
    assert(s[stop] == CR);
    assert(s[stop + 1] == LF);
    assert forall|j: int| 1 <= j < stop implies s[j] == payload[j - 1] by {}
    if is_line(payload) {
        assert forall|j: int| 1 <= j < stop implies !is_line_break(#[trigger] s[j]) by {
            assert(s[j] == payload[j - 1]);
        }
        lemma_line_end_is(s, 1, stop);
    }
    if leaf_validate(s, 0, tag) == Ok::<int, RespError>(s.len() as int) {
        lemma_line_end_bounds(s, 1);
        assert forall|k: int| 0 <= k < payload.len() implies !is_line_break(
            #[trigger] payload[k],
        ) by {
            assert(s[k + 1] == payload[k]);
        }
    }
}

/// Round trip of an integer: the encoding of any number is accepted whole.
pub proof fn lemma_integer_round_trip(v: int)
    ensures
        leaf_validate(leaf_encoding(TAG_INTEGER, signed_digits(v)), 0, TAG_INTEGER) == Ok::<
            int,
            RespError,
        >(leaf_encoding(TAG_INTEGER, signed_digits(v)).len() as int),
{
    lemma_signed_digits_is_line(v);
    lemma_leaf_round_trip(TAG_INTEGER, signed_digits(v));
}

/// Where the field of a length or count `n` ends that stands right behind a
/// tag: behind the tag, the decimal digits of `n` and a line ending.
pub open spec fn field_end(n: nat) -> int {
    (decimal_digits(n).len() + 3) as int
}

/// A length or count that was written is read again: where the decimal digits
/// of `n` and a line ending stand right behind the tag, the field is
/// accepted, ends behind that line ending, and writes `n`.
pub proof fn lemma_field_written(s: Seq<u8>, n: nat)
    requires
        s.len() >= field_end(n),
        s.subrange(1, field_end(n)) == decimal_digits(n) + line_ending(),
    ensures
        field_validate(s, 0) == Ok::<int, RespError>(field_end(n)),
        field_value(s, 1, field_end(n) - 2) == n,
        !opens_null_marker(s, 0),
{
    let digits = decimal_digits(n);
    let d = digits.len() as int;
    let field = s.subrange(1, d + 3);
    lemma_decimal_digits_shape(n);
    lemma_decimal_value_of_digits(n);
    assert forall|j: int| 1 <= j < d + 3 implies s[j] == #[trigger] field[j - 1] by {}
    assert forall|j: int| 1 <= j < 1 + d implies is_digit(#[trigger] s[j]) by {
        assert(s[j] == field[j - 1]);
        assert(field[j - 1] == digits[j - 1]);
    }
    assert(s[1] == field[0]);
    assert(s[1 + d] == field[d]);
    assert(s[2 + d] == field[d + 1]);
    lemma_digits_end_is(s, 1, 1 + d);
    assert(s.subrange(1, 1 + d) =~= digits);
}

/// Round trip of a bulk string: the encoding of a payload is accepted whole
/// exactly when the payload holds no line break.
pub proof fn lemma_bulk_round_trip(payload: Seq<u8>)
    ensures
        is_line(payload) <==> bulk_validate(bulk_encoding(payload), 0) == Ok::<int, RespError>(
            bulk_encoding(payload).len() as int,
        ),
{
    let s = bulk_encoding(payload);
    let start = field_end(payload.len());
    let stop = start + payload.len();
    assert(s.subrange(1, start) =~= decimal_digits(payload.len()) + line_ending());
    lemma_field_written(s, payload.len());
    assert(s[0] == TAG_BULK_STRING);
    assert(s[stop] == CR);
    assert(s[stop + 1] == LF);
    assert forall|j: int| start <= j < stop implies s[j] == payload[j - start] by {}
    lemma_line_end_bounds(s, start);
    if is_line(payload) {
        assert forall|j: int| start <= j < stop implies !is_line_break(#[trigger] s[j]) by {
            assert(s[j] == payload[j - start]);
        }
        lemma_line_end_is(s, start, stop);
    }
    if bulk_validate(s, 0) == Ok::<int, RespError>(s.len() as int) {
        assert(line_end(s, start) == stop);
        assert forall|k: int| 0 <= k < payload.len() implies !is_line_break(
            #[trigger] payload[k],
        ) by {
            assert(s[k + start] == payload[k]);
        }
    }
}

/// The values that stand one behind the other from `pos` on, `count` of them
/// or as many as are accepted: each as the bytes it takes.
pub open spec fn elements_at(s: Seq<u8>, pos: int, count: nat) -> Seq<Seq<u8>>
    decreases count,
{
    if count == 0 {
        Seq::empty()
    } else {
        match value_validate(s, pos) {
            Ok(next) => seq![s.subrange(pos, next)] + elements_at(s, next, (count - 1) as nat),
            Err(_) => Seq::empty(),
        }
    }
}

/// The elements of an encoded array, read from it again: the values behind
/// its count, each as the bytes it takes.
pub open spec fn array_elements(encoded: Seq<u8>) -> Seq<Seq<u8>> {
    match field_validate(encoded, 0) {
        Ok(first) => elements_at(encoded, first, field_value(encoded, 1, first - 2)),
        Err(_) => Seq::empty(),
    }
}

/// The first of the values written one behind the other is accepted where
/// they start, with the bytes it was written with, and the others stand
/// behind it as they were written.
pub proof fn lemma_first_element(s: Seq<u8>, pos: int, elements: Seq<Seq<u8>>)
    requires
        same_span(s, pos, elements.flatten(), 0, elements.flatten().len() as int),
        forall|k: int| 0 <= k < elements.len() ==> is_value(#[trigger] elements[k]),
        elements.len() > 0,
    ensures
        elements.first().len() > 0,
        pos + elements.first().len() <= s.len(),
        value_validate(s, pos) == Ok::<int, RespError>(pos + elements.first().len()),
        s.subrange(pos, pos + elements.first().len()) == elements.first(),
        elements.flatten().len() == elements.first().len() + elements.drop_first().flatten().len(),
        same_span(
            s,
            pos + elements.first().len(),
            elements.drop_first().flatten(),
            0,
            elements.drop_first().flatten().len() as int,
        ),
        forall|k: int|
            0 <= k < elements.drop_first().len() ==> is_value(#[trigger] elements.drop_first()[k]),
{
    let all = elements.flatten();
    let first = elements.first();
    let rest = elements.drop_first();
    let m = first.len() as int;
    assert(is_value(elements[0]));
    lemma_value_in_bounds(first, 0);
    assert(all =~= first + rest.flatten());
    lemma_same_span_part(s, pos, all, 0, all.len() as int, 0, m);
    assert(all.subrange(0, m) =~= first.subrange(0, m));
    lemma_value_frame(first, 0, s, pos, m);
    lemma_same_span_part(s, pos, all, 0, all.len() as int, m, all.len() - m);
    assert(all.subrange(m, all.len() as int) =~= rest.flatten().subrange(
        0,
        rest.flatten().len() as int,
    ));
    assert(s.subrange(pos, pos + m) =~= first);
    assert forall|k: int| 0 <= k < rest.len() implies is_value(#[trigger] rest[k]) by {
        assert(rest[k] == elements[k + 1]);
    }
}

/// Values written one behind the other are accepted one behind the other,
/// wherever they stand, and are read again as they were written.
pub proof fn lemma_elements_written(s: Seq<u8>, pos: int, elements: Seq<Seq<u8>>)
    requires
        same_span(s, pos, elements.flatten(), 0, elements.flatten().len() as int),
        forall|k: int| 0 <= k < elements.len() ==> is_value(#[trigger] elements[k]),
    ensures
        elements_validate(s, pos, elements.len()) == Ok::<int, RespError>(
            pos + elements.flatten().len(),
        ),
        elements_at(s, pos, elements.len()) == elements,
    decreases elements.len(),
{
    if elements.len() > 0 {
        let first = elements.first();
        let rest = elements.drop_first();
        lemma_first_element(s, pos, elements);
        lemma_elements_written(s, pos + first.len() as int, rest);
        assert(elements =~= seq![first] + rest);
    } else {
        assert(elements =~= Seq::<Seq<u8>>::empty());
    }
}

/// The head of an encoded array: the tag, then the count field, which is
/// accepted and writes the number of elements, and behind it the elements as
/// they were written.
pub proof fn lemma_array_header(elements: Seq<Seq<u8>>)
    ensures
        array_encoding(elements)[0] == TAG_ARRAY,
        !opens_null_marker(array_encoding(elements), 0),
        field_validate(array_encoding(elements), 0) == Ok::<int, RespError>(
            element_offset(elements, 0),
        ),
        field_value(array_encoding(elements), 1, element_offset(elements, 0) - 2)
            == elements.len(),
        same_span(
            array_encoding(elements),
            element_offset(elements, 0),
            elements.flatten(),
            0,
            elements.flatten().len() as int,
        ),
        array_encoding(elements).len() == element_offset(elements, 0) + elements.flatten().len(),
{
    let s = array_encoding(elements);
    let first = field_end(elements.len());
    let all = elements.flatten();
    assert(elements.take(0) =~= Seq::<Seq<u8>>::empty());
    assert(s.subrange(1, first) =~= decimal_digits(elements.len()) + line_ending());
    lemma_field_written(s, elements.len());
    assert(s.subrange(first, first + all.len()) =~= all.subrange(0, all.len() as int));
}

/// Round trip of an array: the encoding of elements that are whole values is
/// accepted whole.
pub proof fn lemma_array_round_trip(elements: Seq<Seq<u8>>)
    requires
        forall|k: int| 0 <= k < elements.len() ==> is_value(#[trigger] elements[k]),
    ensures
        array_validate(array_encoding(elements), 0) == Ok::<int, RespError>(
            array_encoding(elements).len() as int,
        ),
{
    lemma_array_header(elements);
    lemma_elements_written(array_encoding(elements), element_offset(elements, 0), elements);
}

/// An array gives back the elements it was built from: read again from the
/// encoding, they are the same sequence, each with the same bytes, in the
/// order in which they were put in.
pub proof fn lemma_array_elements_of_encoding(elements: Seq<Seq<u8>>)
    requires
        forall|k: int| 0 <= k < elements.len() ==> is_value(#[trigger] elements[k]),
    ensures
        array_elements(array_encoding(elements)) == elements,
{
    lemma_array_header(elements);
    lemma_elements_written(array_encoding(elements), element_offset(elements, 0), elements);
}

/// Where element `k` of an encoded array starts: behind the tag, the count,
/// its line ending and the elements before it. With `k` the number of
/// elements it is where the array ends.
pub open spec fn element_offset(elements: Seq<Seq<u8>>, k: int) -> int {
    field_end(elements.len()) + elements.take(k).flatten().len()
}

/// An array gives back its elements: read again from the encoding, element
/// `k` is accepted where it starts, ends where the next one starts, and its
/// bytes are those of the element that the array was built from.
pub proof fn lemma_array_elements_in_order(elements: Seq<Seq<u8>>, k: int)
    requires
        forall|i: int| 0 <= i < elements.len() ==> is_value(#[trigger] elements[i]),
        0 <= k < elements.len(),
    ensures
        value_validate(array_encoding(elements), element_offset(elements, k)) == Ok::<
            int,
            RespError,
        >(element_offset(elements, k + 1)),
        array_encoding(elements).subrange(
            element_offset(elements, k),
            element_offset(elements, k + 1),
        ) == elements[k],
        element_offset(elements, elements.len() as int) == array_encoding(elements).len(),
{
    let s = array_encoding(elements);
    let before = elements.take(k);
    let element = elements[k];
    let behind = elements.skip(k + 1);
    let from = element_offset(elements, k);
    assert(elements.take(k + 1) =~= before.push(element));
    before.lemma_flatten_push(element);
    assert(elements =~= elements.take(k + 1) + behind);
    vstd::seq_lib::lemma_flatten_concat(elements.take(k + 1), behind);
    assert(elements.flatten() =~= before.flatten() + element + behind.flatten());
    assert(elements.take(elements.len() as int) =~= elements);
    assert(s.subrange(from, from + element.len()) =~= element);
    assert(element.subrange(0, element.len() as int) =~= element);
    lemma_value_frame(element, 0, s, from, element.len() as int);
}

/// The empty bulk string is what encoding no payload gives, and is accepted
/// whole.
pub proof fn lemma_empty_bulk_string()
    ensures
        bulk_encoding(Seq::<u8>::empty()) == empty_bulk_string_encoding(),
        bulk_validate(empty_bulk_string_encoding(), 0) == Ok::<int, RespError>(6),
{
    assert(bulk_encoding(Seq::<u8>::empty()) =~= empty_bulk_string_encoding());
    lemma_bulk_round_trip(Seq::<u8>::empty());
}

/// The empty array is what encoding no elements gives, and is accepted whole.
pub proof fn lemma_empty_array()
    ensures
        array_encoding(Seq::<Seq<u8>>::empty()) == empty_array_encoding(),
        array_validate(empty_array_encoding(), 0) == Ok::<int, RespError>(4),
{
    assert(array_encoding(Seq::<Seq<u8>>::empty()) =~= empty_array_encoding());
    lemma_array_round_trip(Seq::<Seq<u8>>::empty());
}

/// The null bulk string and the null array are accepted whole, five bytes
/// each.
pub proof fn lemma_null_values()
    ensures
        bulk_validate(null_bulk_string_encoding(), 0) == Ok::<int, RespError>(5),
        array_validate(null_array_encoding(), 0) == Ok::<int, RespError>(5),
{
}

/// A value that is well formed for one of the five kinds is a whole value.
pub proof fn lemma_kinds_are_values(encoded: Seq<u8>)
    ensures
        leaf_validate(encoded, 0, TAG_SIMPLE_STRING) == Ok::<int, RespError>(encoded.len() as int)
            ==> is_value(encoded),
        leaf_validate(encoded, 0, TAG_ERROR) == Ok::<int, RespError>(encoded.len() as int)
            ==> is_value(encoded),
        leaf_validate(encoded, 0, TAG_INTEGER) == Ok::<int, RespError>(encoded.len() as int)
            ==> is_value(encoded),
        bulk_validate(encoded, 0) == Ok::<int, RespError>(encoded.len() as int) ==> is_value(
            encoded,
        ),
        array_validate(encoded, 0) == Ok::<int, RespError>(encoded.len() as int) ==> is_value(
            encoded,
        ),
{
}

/// A cursor whose upper bound is `end` reads all of the `n` bytes that start
/// at `start`: they lie inside the bytes and below the bound.
pub open spec fn in_window(input: Seq<u8>, start: int, n: int, end: int) -> bool {
    0 <= start && 0 <= n && start + n <= end && start + n <= input.len()
}

/// What a cursor may read holds the same bytes, where it reads them, as the
/// bytes it was made on.
pub proof fn lemma_window_span(input: Seq<u8>, start: int, n: int, end: int)
    requires
        in_window(input, start, n, end),
    ensures
        same_span(input, start, window(input, end), start, n),
{
    let w = window(input, end);
    assert(w.subrange(start, start + n) =~= input.subrange(start, start + n));
}

/// Decoding gives back what was encoded: where the encoding of a payload
/// without line breaks stands in a buffer, a simple string, an error or an
/// integer is accepted there, and the cursor moves on by the length of the
/// encoding.
pub proof fn lemma_leaf_decodes(input: Seq<u8>, start: int, end: int, tag: u8, payload: Seq<u8>)
    requires
        is_line(payload),
        in_window(input, start, leaf_encoding(tag, payload).len() as int, end),
        input.subrange(start, start + leaf_encoding(tag, payload).len()) == leaf_encoding(
            tag,
            payload,
        ),
    ensures
        leaf_validate(window(input, end), start, tag) == Ok::<int, RespError>(
            start + leaf_encoding(tag, payload).len(),
        ),
{
    let encoded = leaf_encoding(tag, payload);
    let n = encoded.len() as int;
    lemma_leaf_round_trip(tag, payload);
    lemma_window_span(input, start, n, end);
    assert(encoded.subrange(0, n) =~= encoded);
    lemma_leaf_frame(encoded, 0, window(input, end), start, n, tag);
}

/// Decoding gives back what was encoded: where the encoding of a payload
/// without line breaks stands in a buffer, a bulk string is accepted there,
/// and the cursor moves on by the length of the encoding.
pub proof fn lemma_bulk_decodes(input: Seq<u8>, start: int, end: int, payload: Seq<u8>)
    requires
        is_line(payload),
        in_window(input, start, bulk_encoding(payload).len() as int, end),
        input.subrange(start, start + bulk_encoding(payload).len()) == bulk_encoding(payload),
    ensures
        bulk_validate(window(input, end), start) == Ok::<int, RespError>(
            start + bulk_encoding(payload).len(),
        ),
{
    let encoded = bulk_encoding(payload);
    let n = encoded.len() as int;
    lemma_bulk_round_trip(payload);
    lemma_window_span(input, start, n, end);
    assert(encoded.subrange(0, n) =~= encoded);
    lemma_bulk_frame(encoded, 0, window(input, end), start, n);
}

/// Decoding gives back what was built: where the encoding of elements that
/// are whole values stands in a buffer, an array is accepted there, and the
/// cursor moves on by the length of the encoding.
pub proof fn lemma_array_decodes(input: Seq<u8>, start: int, end: int, elements: Seq<Seq<u8>>)
    requires
        forall|k: int| 0 <= k < elements.len() ==> is_value(#[trigger] elements[k]),
        in_window(input, start, array_encoding(elements).len() as int, end),
        input.subrange(start, start + array_encoding(elements).len()) == array_encoding(
            elements,
        ),
    ensures
        array_validate(window(input, end), start) == Ok::<int, RespError>(
            start + array_encoding(elements).len(),
        ),
{
    let encoded = array_encoding(elements);
    let n = encoded.len() as int;
    lemma_array_round_trip(elements);
    lemma_window_span(input, start, n, end);
    assert(encoded.subrange(0, n) =~= encoded);
    lemma_array_frame(encoded, 0, window(input, end), start, n);
}

/// What is accepted was encoded: a well formed simple string, error or
/// integer is the encoding of its payload, and the payload holds no line
/// break.
pub proof fn lemma_leaf_accepted(encoded: Seq<u8>, tag: u8)
    requires
        leaf_validate(encoded, 0, tag) == Ok::<int, RespError>(encoded.len() as int),
    ensures
        encoded == leaf_encoding(tag, payload_of(encoded)),
        is_line(payload_of(encoded)),
{
    let payload = payload_of(encoded);
    lemma_line_end_bounds(encoded, 1);
    assert(encoded =~= leaf_encoding(tag, payload));
    assert forall|k: int| 0 <= k < payload.len() implies !is_line_break(#[trigger] payload[k]) by {
        assert(payload[k] == encoded[k + 1]);
    }
}

/// The payload of an encoded bulk string: what lies between the line ending
/// of the length and the closing line ending.
pub open spec fn bulk_payload_of(encoded: Seq<u8>) -> Seq<u8> {
    encoded.subrange(digits_end(encoded, 1) + 2, encoded.len() - 2)
}

/// A length or count that is accepted was written in the one way there is:
/// its digits are the decimal digits of the number it writes, and a line
/// ending follows them.
pub proof fn lemma_field_accepted(s: Seq<u8>, first: int)
    requires
        0 < s.len(),
        field_validate(s, 0) == Ok::<int, RespError>(first),
    ensures
        first == field_end(field_value(s, 1, first - 2)),
        first == digits_end(s, 1) + 2,
        first <= s.len(),
        s.subrange(1, first) == decimal_digits(field_value(s, 1, first - 2)) + line_ending(),
        forall|j: int|
            1 <= j < first ==> #[trigger] s[j] == (decimal_digits(field_value(s, 1, first - 2))
                + line_ending())[j - 1],
{
    let stop = digits_end(s, 1);
    let digits = s.subrange(1, stop);
    lemma_digits_end_bounds(s, 1);
    assert forall|j: int| 0 <= j < digits.len() implies is_digit(#[trigger] digits[j]) by {
        assert(digits[j] == s[j + 1]);
    }
    lemma_canonical_digits(digits);
    assert(s.subrange(1, first) =~= digits + line_ending());
    assert forall|j: int| 1 <= j < first implies #[trigger] s[j] == (digits + line_ending())[j
        - 1] by {
        assert(s.subrange(1, first)[j - 1] == s[j]);
    }
}

/// What is accepted was encoded: a well formed bulk string is the null bulk
/// string or the encoding of its payload, and the payload holds no line
/// break.
pub proof fn lemma_bulk_accepted(encoded: Seq<u8>)
    requires
        bulk_validate(encoded, 0) == Ok::<int, RespError>(encoded.len() as int),
    ensures
        encoded == null_bulk_string_encoding() || (encoded == bulk_encoding(
            bulk_payload_of(encoded),
        ) && is_line(bulk_payload_of(encoded))),
{
    if opens_null_marker(encoded, 0) {
        assert(encoded =~= null_bulk_string_encoding());
    } else {
        let start = field_validate(encoded, 0)->Ok_0;
        let payload = bulk_payload_of(encoded);
        lemma_field_accepted(encoded, start);
        lemma_line_end_bounds(encoded, start);
        assert(encoded =~= bulk_encoding(payload));
        assert forall|k: int| 0 <= k < payload.len() implies !is_line_break(
            #[trigger] payload[k],
        ) by {
            assert(payload[k] == encoded[k + start]);
        }
    }
}

/// Values that are accepted one behind the other are whole values, as many
/// as were asked for, and between them take all the bytes that were read.
pub proof fn lemma_elements_at_accepted(s: Seq<u8>, pos: int, count: nat, next: int)
    requires
        0 <= pos <= s.len(),
        elements_validate(s, pos, count) == Ok::<int, RespError>(next),
    ensures
        elements_at(s, pos, count).len() == count,
        forall|k: int| 0 <= k < count ==> is_value(#[trigger] elements_at(s, pos, count)[k]),
        elements_at(s, pos, count).flatten() == s.subrange(pos, next),
    decreases count,
{
    if count > 0 {
        lemma_value_in_bounds(s, pos);
        let after = value_validate(s, pos)->Ok_0;
        let element = s.subrange(pos, after);
        let rest = elements_at(s, after, (count - 1) as nat);
        let all = elements_at(s, pos, count);
        lemma_elements_in_bounds(s, after, (count - 1) as nat);
        lemma_elements_at_accepted(s, after, (count - 1) as nat, next);
        assert(element.subrange(0, element.len() as int) =~= element);
        lemma_value_frame(s, pos, element, 0, after - pos);
        assert(all == seq![element] + rest);
        assert forall|k: int| 0 <= k < count implies is_value(#[trigger] all[k]) by {
            if k > 0 {
                assert(all[k] == rest[k - 1]);
            }
        }
        assert(all.first() == element);
        assert(all.drop_first() =~= rest);
        assert(all.flatten() =~= element + rest.flatten());
        assert(all.flatten() =~= s.subrange(pos, next));
    } else {
        assert(elements_at(s, pos, count).flatten() =~= s.subrange(pos, next));
    }
}

/// What is accepted was built: a well formed array is the null array or the
/// encoding of its elements, as many as its count says, and each of them is
/// a whole value.
pub proof fn lemma_array_accepted(encoded: Seq<u8>)
    requires
        array_validate(encoded, 0) == Ok::<int, RespError>(encoded.len() as int),
    ensures
        encoded == null_array_encoding() || (encoded == array_encoding(array_elements(encoded))
            && forall|k: int|
            0 <= k < array_elements(encoded).len() ==> is_value(
                #[trigger] array_elements(encoded)[k],
            )),
{
    if opens_null_marker(encoded, 0) {
        assert(encoded =~= null_array_encoding());
    } else {
        let first = field_validate(encoded, 0)->Ok_0;
        let count = field_value(encoded, 1, first - 2);
        lemma_field_accepted(encoded, first);
        lemma_elements_at_accepted(encoded, first, count, encoded.len() as int);
        assert(encoded =~= array_encoding(array_elements(encoded)));
    }
}

} // verus!
