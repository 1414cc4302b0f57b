//! What holds of the grammar and the encodings together: where a validator
//! may stop, that it reads nothing but the value itself, and that what the
//! encoders write is what the validators accept.

use crate::RespError;
use crate::grammar::{
    array_validate, bulk_validate, digits_end, elements_validate, field_validate, field_value,
    is_digit, is_line_break, leaf_validate, line_end, opens_null_marker, value_validate,
    TAG_ARRAY, TAG_BULK_STRING, TAG_ERROR,
};
use vstd::prelude::*;

verus! {

/// Where a line ends: at or after its start and inside the bytes, with no
/// line break before it, and on a line break unless the bytes end there.
pub proof fn lemma_line_end_bounds(s: Seq<u8>, from: int)
    requires
        0 <= from <= s.len(),
    ensures
        from <= line_end(s, from) <= s.len(),
        forall|j: int| from <= j < line_end(s, from) ==> !is_line_break(#[trigger] s[j]),
        line_end(s, from) < s.len() ==> is_line_break(s[line_end(s, from)]),
    decreases s.len() - from,
{
    if from < s.len() && !is_line_break(s[from]) {
        lemma_line_end_bounds(s, from + 1);
    }
}

/// Where the digits end: at or after their start and inside the bytes, with
/// nothing but digits before it, and on a byte that is none unless the bytes
/// end there.
pub proof fn lemma_digits_end_bounds(s: Seq<u8>, from: int)
    requires
        0 <= from <= s.len(),
    ensures
        from <= digits_end(s, from) <= s.len(),
        forall|j: int| from <= j < digits_end(s, from) ==> is_digit(#[trigger] s[j]),
        digits_end(s, from) < s.len() ==> !is_digit(s[digits_end(s, from)]),
    decreases s.len() - from,
{
    if from < s.len() && is_digit(s[from]) {
        lemma_digits_end_bounds(s, from + 1);
    }
}

/// A line ends at the first line break: at `stop`, where no byte from `from`
/// up to it is one and the byte at `stop` is, or the bytes end there.
pub proof fn lemma_line_end_is(s: Seq<u8>, from: int, stop: int)
    requires
        0 <= from <= stop <= s.len(),
        forall|j: int| from <= j < stop ==> !is_line_break(#[trigger] s[j]),
        stop < s.len() ==> is_line_break(s[stop]),
    ensures
        line_end(s, from) == stop,
    decreases stop - from,
{
    if from < stop {
        lemma_line_end_is(s, from + 1, stop);
    }
}

/// The digits end at the first byte that is none: at `stop`, where every byte
/// from `from` up to it is a digit and the byte at `stop` is none, or the
/// bytes end there.
pub proof fn lemma_digits_end_is(s: Seq<u8>, from: int, stop: int)
    requires
        0 <= from <= stop <= s.len(),
        forall|j: int| from <= j < stop ==> is_digit(#[trigger] s[j]),
        stop < s.len() ==> !is_digit(s[stop]),
    ensures
        digits_end(s, from) == stop,
    decreases stop - from,
{
    if from < stop {
        lemma_digits_end_is(s, from + 1, stop);
    }
}

/// A simple string, an error or an integer that is accepted ends behind its
/// start, at least three bytes on, and inside the bytes.
pub proof fn lemma_leaf_in_bounds(s: Seq<u8>, start: int, tag: u8)
    ensures
        leaf_validate(s, start, tag) matches Ok(next) ==> start + 3 <= next <= s.len(),
{
    if 0 <= start < s.len() {
        lemma_line_end_bounds(s, start + 1);
    }
}

/// A length or count field that is accepted ends at least four bytes behind
/// the tag, and inside the bytes.
pub proof fn lemma_field_in_bounds(s: Seq<u8>, start: int)
    requires
        0 <= start < s.len(),
    ensures
        field_validate(s, start) matches Ok(next) ==> start + 4 <= next <= s.len(),
{
    lemma_digits_end_bounds(s, start + 1);
}

/// A bulk string that is accepted ends behind its start, at least five bytes
/// on, and inside the bytes.
pub proof fn lemma_bulk_in_bounds(s: Seq<u8>, start: int)
    ensures
        bulk_validate(s, start) matches Ok(next) ==> start + 5 <= next <= s.len(),
{
    if 0 <= start < s.len() {
        lemma_field_in_bounds(s, start);
        if let Ok(payload) = field_validate(s, start) {
            lemma_line_end_bounds(s, payload);
        }
    }
}

/// An array that is accepted ends behind its start, at least four bytes on,
/// and inside the bytes.
pub proof fn lemma_array_in_bounds(s: Seq<u8>, start: int)
    ensures
        array_validate(s, start) matches Ok(next) ==> start + 4 <= next <= s.len(),
    decreases s.len() - start, 0int, 0nat,
{
    if 0 <= start < s.len() && s[start] == TAG_ARRAY && !opens_null_marker(s, start) {
        lemma_field_in_bounds(s, start);
        if let Ok(first) = field_validate(s, start) {
            lemma_elements_in_bounds(
                s,
                first,
                field_value(s, start + 1, first - 2),
            );
        }
    }
}

/// Values in a row that are accepted end at or behind their start, and
/// inside the bytes where they started there.
pub proof fn lemma_elements_in_bounds(s: Seq<u8>, pos: int, count: nat)
    requires
        0 <= pos <= s.len(),
    ensures
        elements_validate(s, pos, count) matches Ok(next) ==> pos <= next <= s.len(),
    decreases s.len() - pos, 2int, count,
{
    if count > 0 {
        lemma_value_in_bounds(s, pos);
        if let Ok(next) = value_validate(s, pos) {
            lemma_elements_in_bounds(s, next, (count - 1) as nat);
        }
    }
}

/// A value that is accepted ends behind its start and inside the bytes.
pub proof fn lemma_value_in_bounds(s: Seq<u8>, pos: int)
    ensures
        value_validate(s, pos) matches Ok(next) ==> pos < next <= s.len(),
    decreases s.len() - pos, 1int, 0nat,
{
    if 0 <= pos < s.len() {
        lemma_leaf_in_bounds(s, pos, s[pos]);
        lemma_bulk_in_bounds(s, pos);
        if s[pos] == TAG_ARRAY {
            lemma_array_in_bounds(s, pos);
        }
    }
}

/// The `n` bytes of `a` from `i` on are the `n` bytes of `b` from `j` on.
pub open spec fn same_span(a: Seq<u8>, i: int, b: Seq<u8>, j: int, n: int) -> bool {
    &&& 0 <= i
    &&& 0 <= j
    &&& 0 <= n
    &&& i + n <= a.len()
    &&& j + n <= b.len()
    &&& a.subrange(i, i + n) == b.subrange(j, j + n)
}

/// Two equal spans hold the same byte at the same offset.
pub proof fn lemma_same_span_at(a: Seq<u8>, i: int, b: Seq<u8>, j: int, n: int, k: int)
    requires
        same_span(a, i, b, j, n),
        0 <= k < n,
    ensures
        a[i + k] == b[j + k],
{
    assert(a.subrange(i, i + n)[k] == a[i + k]);
    assert(b.subrange(j, j + n)[k] == b[j + k]);
}

/// Parts of two equal spans, at the same offset and of the same length, are
/// equal spans.
pub proof fn lemma_same_span_part(
    a: Seq<u8>,
    i: int,
    b: Seq<u8>,
    j: int,
    n: int,
    k: int,
    m: int,
)
    requires
        same_span(a, i, b, j, n),
        0 <= k,
        0 <= m,
        k + m <= n,
    ensures
        same_span(a, i + k, b, j + k, m),
{
    assert(a.subrange(i + k, i + k + m) =~= a.subrange(i, i + n).subrange(k, k + m));
    assert(b.subrange(j + k, j + k + m) =~= b.subrange(j, j + n).subrange(k, k + m));
}

/// A line that ends inside a span ends at the same offset in an equal span.
pub proof fn lemma_line_end_frame(a: Seq<u8>, i: int, b: Seq<u8>, j: int, n: int)
    requires
        same_span(a, i, b, j, n),
        line_end(a, i) < i + n,
    ensures
        line_end(b, j) == j + (line_end(a, i) - i),
{
    lemma_line_end_bounds(a, i);
    let stop = line_end(a, i);
    assert forall|x: int| j <= x < j + (stop - i) implies !is_line_break(#[trigger] b[x]) by {
        lemma_same_span_at(a, i, b, j, n, x - j);
        assert(!is_line_break(a[i + (x - j)]));
    }
    lemma_same_span_at(a, i, b, j, n, stop - i);
    lemma_line_end_is(b, j, j + (stop - i));
}

/// Digits that end inside a span end at the same offset in an equal span.
pub proof fn lemma_digits_end_frame(a: Seq<u8>, i: int, b: Seq<u8>, j: int, n: int)
    requires
        same_span(a, i, b, j, n),
        digits_end(a, i) < i + n,
    ensures
        digits_end(b, j) == j + (digits_end(a, i) - i),
{
    lemma_digits_end_bounds(a, i);
    let stop = digits_end(a, i);
    assert forall|x: int| j <= x < j + (stop - i) implies is_digit(#[trigger] b[x]) by {
        lemma_same_span_at(a, i, b, j, n, x - j);
        assert(is_digit(a[i + (x - j)]));
    }
    lemma_same_span_at(a, i, b, j, n, stop - i);
    lemma_digits_end_is(b, j, j + (stop - i));
}

/// A simple string, an error or an integer is accepted for its own bytes
/// alone: the same bytes are accepted wherever they stand, whatever stands
/// before and behind them.
pub proof fn lemma_leaf_frame(a: Seq<u8>, i: int, b: Seq<u8>, j: int, n: int, tag: u8)
    requires
        leaf_validate(a, i, tag) == Ok::<int, RespError>(i + n),
        same_span(a, i, b, j, n),
    ensures
        leaf_validate(b, j, tag) == Ok::<int, RespError>(j + n),
{
    lemma_leaf_in_bounds(a, i, tag);
    let stop = line_end(a, i + 1);
    lemma_same_span_at(a, i, b, j, n, 0);
    lemma_same_span_part(a, i, b, j, n, 1, n - 1);
    lemma_line_end_frame(a, i + 1, b, j + 1, n - 1);
    lemma_same_span_at(a, i, b, j, n, stop - i);
    lemma_same_span_at(a, i, b, j, n, stop - i + 1);
}

/// A length or count field is accepted for its own bytes alone, and writes
/// the same number wherever it stands.
pub proof fn lemma_field_frame(a: Seq<u8>, i: int, b: Seq<u8>, j: int, n: int, m: int)
    requires
        0 <= i < a.len(),
        field_validate(a, i) == Ok::<int, RespError>(i + m),
        m <= n,
        same_span(a, i, b, j, n),
    ensures
        field_validate(b, j) == Ok::<int, RespError>(j + m),
        field_value(b, j + 1, j + m - 2) == field_value(a, i + 1, i + m - 2),
{
    lemma_field_in_bounds(a, i);
    let stop = digits_end(a, i + 1);
    lemma_same_span_at(a, i, b, j, n, 1);
    lemma_same_span_at(a, i, b, j, n, 2);
    lemma_same_span_part(a, i, b, j, n, 1, n - 1);
    lemma_digits_end_frame(a, i + 1, b, j + 1, n - 1);
    lemma_same_span_at(a, i, b, j, n, stop - i);
    lemma_same_span_at(a, i, b, j, n, stop - i + 1);
    lemma_same_span_part(a, i, b, j, n, 1, m - 3);
}

/// A bulk string is accepted for its own bytes alone.
pub proof fn lemma_bulk_frame(a: Seq<u8>, i: int, b: Seq<u8>, j: int, n: int)
    requires
        bulk_validate(a, i) == Ok::<int, RespError>(i + n),
        same_span(a, i, b, j, n),
    ensures
        bulk_validate(b, j) == Ok::<int, RespError>(j + n),
{
    lemma_bulk_in_bounds(a, i);
    lemma_same_span_at(a, i, b, j, n, 0);
    lemma_same_span_at(a, i, b, j, n, 1);
    lemma_same_span_at(a, i, b, j, n, 2);
    lemma_same_span_at(a, i, b, j, n, 3);
    lemma_same_span_at(a, i, b, j, n, 4);
    if a[i + 1] != TAG_ERROR {
        lemma_field_in_bounds(a, i);
        let payload = field_validate(a, i)->Ok_0;
        let m = payload - i;
        lemma_line_end_bounds(a, payload);
        let stop = line_end(a, payload);
        lemma_field_frame(a, i, b, j, n, m);
        lemma_same_span_part(a, i, b, j, n, m, n - m);
        lemma_line_end_frame(a, payload, b, j + m, n - m);
        lemma_same_span_at(a, i, b, j, n, stop - i);
        lemma_same_span_at(a, i, b, j, n, stop - i + 1);
    }
}

/// An array is accepted for its own bytes alone.
pub proof fn lemma_array_frame(a: Seq<u8>, i: int, b: Seq<u8>, j: int, n: int)
    requires
        array_validate(a, i) == Ok::<int, RespError>(i + n),
        same_span(a, i, b, j, n),
    ensures
        array_validate(b, j) == Ok::<int, RespError>(j + n),
    decreases a.len() - i, 0int, 0nat,
{
    lemma_array_in_bounds(a, i);
    lemma_same_span_at(a, i, b, j, n, 0);
    lemma_same_span_at(a, i, b, j, n, 1);
    lemma_same_span_at(a, i, b, j, n, 2);
    lemma_same_span_at(a, i, b, j, n, 3);
    if a[i + 1] == TAG_ERROR {
        lemma_same_span_at(a, i, b, j, n, 4);
    } else {
        lemma_field_in_bounds(a, i);
        let first = field_validate(a, i)->Ok_0;
        let m = first - i;
        let count = field_value(a, i + 1, first - 2);
        lemma_elements_in_bounds(a, first, count);
        lemma_field_frame(a, i, b, j, n, m);
        lemma_same_span_part(a, i, b, j, n, m, n - m);
        lemma_elements_frame(a, first, b, j + m, n - m, count);
    }
}

/// Values in a row are accepted for their own bytes alone.
pub proof fn lemma_elements_frame(a: Seq<u8>, i: int, b: Seq<u8>, j: int, n: int, count: nat)
    requires
        elements_validate(a, i, count) == Ok::<int, RespError>(i + n),
        same_span(a, i, b, j, n),
    ensures
        elements_validate(b, j, count) == Ok::<int, RespError>(j + n),
    decreases a.len() - i, 2int, count,
{
    if count > 0 {
        lemma_value_in_bounds(a, i);
        let next = value_validate(a, i)->Ok_0;
        let m = next - i;
        lemma_elements_in_bounds(a, next, (count - 1) as nat);
        lemma_same_span_part(a, i, b, j, n, 0, m);
        lemma_value_frame(a, i, b, j, m);
        lemma_same_span_part(a, i, b, j, n, m, n - m);
        lemma_elements_frame(a, next, b, j + m, n - m, (count - 1) as nat);
    }
}

/// A value of any kind is accepted for its own bytes alone: the same bytes
/// are accepted wherever they stand, whatever stands before and behind them.
pub proof fn lemma_value_frame(a: Seq<u8>, i: int, b: Seq<u8>, j: int, n: int)
    requires
        value_validate(a, i) == Ok::<int, RespError>(i + n),
        same_span(a, i, b, j, n),
    ensures
        value_validate(b, j) == Ok::<int, RespError>(j + n),
    decreases a.len() - i, 1int, 0nat,
{
    lemma_value_in_bounds(a, i);
    lemma_same_span_at(a, i, b, j, n, 0);
    if a[i] == TAG_ARRAY {
        lemma_array_frame(a, i, b, j, n);
    } else if a[i] == TAG_BULK_STRING {
        lemma_bulk_frame(a, i, b, j, n);
    } else {
        lemma_leaf_frame(a, i, b, j, n, a[i]);
    }
}

} // verus!
