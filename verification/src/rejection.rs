//! What the validators reject, and with which error.

use crate::RespError;
use crate::grammar::{
    array_validate, bulk_validate, digits_end, elements_validate, field_validate, field_value,
    has_crlf_at, has_leading_zero, is_digit, is_line_break, leaf_validate, line_end,
    opens_null_marker, value_validate, TAG_ARRAY, TAG_BULK_STRING, ZERO,
};
use crate::laws::{
    lemma_array_in_bounds, lemma_bulk_in_bounds, lemma_digits_end_bounds, lemma_digits_end_is,
    lemma_elements_in_bounds, lemma_field_frame, lemma_field_in_bounds, lemma_line_end_bounds,
    lemma_line_end_is, lemma_value_frame, lemma_value_in_bounds,
};
use vstd::prelude::*;

verus! {

/// No carriage return with a line feed behind it stands anywhere at or after
/// `from`: the bytes end before the next line does.
pub open spec fn ends_before_crlf(s: Seq<u8>, from: int) -> bool {
    forall|j: int| from <= j ==> !#[trigger] has_crlf_at(s, j)
}

/// A length that opens with a redundant zero is rejected: a bulk string whose
/// length field starts with `0` and another digit is no valid length.
pub proof fn lemma_bulk_leading_zero(s: Seq<u8>, start: int)
    requires
        0 <= start,
        start + 2 < s.len(),
        s[start] == TAG_BULK_STRING,
        s[start + 1] == ZERO,
        is_digit(s[start + 2]),
    ensures
        bulk_validate(s, start) == Err::<int, RespError>(RespError::InvalidLength),
{
}

/// A count that opens with a redundant zero is rejected: an array whose count
/// field starts with `0` and another digit is no valid count.
pub proof fn lemma_array_leading_zero(s: Seq<u8>, start: int)
    requires
        0 <= start,
        start + 2 < s.len(),
        s[start] == TAG_ARRAY,
        s[start + 1] == ZERO,
        is_digit(s[start + 2]),
    ensures
        array_validate(s, start) == Err::<int, RespError>(RespError::InvalidLength),
{
}

/// A simple string, an error or an integer whose bytes end before its line
/// does is rejected for its missing end.
pub proof fn lemma_leaf_truncated(s: Seq<u8>, start: int, tag: u8)
    requires
        0 <= start < s.len(),
        s[start] == tag,
        ends_before_crlf(s, start + 1),
    ensures
        leaf_validate(s, start, tag) == Err::<int, RespError>(RespError::InvalidTerminate),
{
    lemma_line_end_bounds(s, start + 1);
    assert(!has_crlf_at(s, line_end(s, start + 1)));
}

/// Cut short anywhere behind its tag, a simple string, error or integer that
/// was accepted is rejected for its missing end.
pub proof fn lemma_leaf_cut(s: Seq<u8>, start: int, tag: u8, next: int, k: int)
    requires
        leaf_validate(s, start, tag) == Ok::<int, RespError>(next),
        start < k < next,
    ensures
        leaf_validate(s.take(k), start, tag) == Err::<int, RespError>(
            RespError::InvalidTerminate,
        ),
{
    let cut = s.take(k);
    let stop = line_end(s, start + 1);
    lemma_line_end_bounds(s, start + 1);
    assert forall|j: int| start + 1 <= j < stop && j < k implies !is_line_break(
        #[trigger] cut[j],
    ) by {
        assert(cut[j] == s[j]);
    }
    if k <= stop {
        lemma_line_end_is(cut, start + 1, k);
    } else {
        assert(cut[stop] == s[stop]);
        lemma_line_end_is(cut, start + 1, stop);
    }
}

/// A length or count field whose bytes end before its line does is rejected
/// for its missing separator, unless it opens with a redundant zero.
pub proof fn lemma_field_truncated(s: Seq<u8>, start: int)
    requires
        0 <= start < s.len(),
        !has_leading_zero(s, start),
        ends_before_crlf(s, start + 1),
    ensures
        field_validate(s, start) == Err::<int, RespError>(RespError::InvalidLengthSeparator),
{
    lemma_digits_end_bounds(s, start + 1);
    assert(!has_crlf_at(s, digits_end(s, start + 1)));
}

/// A bulk string whose bytes end before the line of its length does is
/// rejected for the missing separator, however few bytes stand behind the
/// tag. This holds where they open neither a null marker nor a length with a
/// redundant zero.
pub proof fn lemma_bulk_truncated_length(s: Seq<u8>, start: int)
    requires
        0 <= start < s.len(),
        s[start] == TAG_BULK_STRING,
        !opens_null_marker(s, start),
        !has_leading_zero(s, start),
        ends_before_crlf(s, start + 1),
    ensures
        bulk_validate(s, start) == Err::<int, RespError>(RespError::InvalidLengthSeparator),
{
    lemma_field_truncated(s, start);
}

/// A bulk string whose bytes end before the line of its payload does is
/// rejected for its missing end. This holds where the length field is
/// accepted and as many bytes as it says are there.
pub proof fn lemma_bulk_truncated_payload(s: Seq<u8>, start: int, payload: int)
    requires
        0 <= start < s.len(),
        s[start] == TAG_BULK_STRING,
        !opens_null_marker(s, start),
        field_validate(s, start) == Ok::<int, RespError>(payload),
        line_end(s, payload) - payload == field_value(s, start + 1, payload - 2),
        ends_before_crlf(s, payload),
    ensures
        bulk_validate(s, start) == Err::<int, RespError>(RespError::InvalidTerminate),
{
    lemma_field_in_bounds(s, start);
    lemma_line_end_bounds(s, payload);
    assert(!has_crlf_at(s, line_end(s, payload)));
}

/// An array whose bytes end before the line of its count does is rejected for
/// the missing separator, however few bytes stand behind the tag. This holds
/// where they open neither a null marker nor a count with a redundant zero.
pub proof fn lemma_array_truncated_count(s: Seq<u8>, start: int)
    requires
        0 <= start < s.len(),
        s[start] == TAG_ARRAY,
        !opens_null_marker(s, start),
        !has_leading_zero(s, start),
        ends_before_crlf(s, start + 1),
    ensures
        array_validate(s, start) == Err::<int, RespError>(RespError::InvalidLengthSeparator),
{
    lemma_field_truncated(s, start);
}

/// Values in a row are rejected with the error of the first value among them
/// that is rejected.
pub proof fn lemma_elements_rejected(
    s: Seq<u8>,
    pos: int,
    accepted: nat,
    count: nat,
    at: int,
    e: RespError,
)
    requires
        0 <= pos <= s.len(),
        accepted < count,
        elements_validate(s, pos, accepted) == Ok::<int, RespError>(at),
        value_validate(s, at) == Err::<int, RespError>(e),
    ensures
        elements_validate(s, pos, count) == Err::<int, RespError>(e),
    decreases accepted,
{
    if accepted > 0 {
        lemma_value_in_bounds(s, pos);
        let next = value_validate(s, pos)->Ok_0;
        lemma_elements_rejected(s, next, (accepted - 1) as nat, (count - 1) as nat, at, e);
    }
}

/// An array is rejected with the error of the first of its elements that is
/// rejected: a simple string cut short in it, say, with the error for a
/// missing end.
pub proof fn lemma_array_element_rejected(
    s: Seq<u8>,
    start: int,
    first: int,
    accepted: nat,
    at: int,
    e: RespError,
)
    requires
        0 <= start < s.len(),
        s[start] == TAG_ARRAY,
        !opens_null_marker(s, start),
        field_validate(s, start) == Ok::<int, RespError>(first),
        accepted < field_value(s, start + 1, first - 2),
        elements_validate(s, first, accepted) == Ok::<int, RespError>(at),
        value_validate(s, at) == Err::<int, RespError>(e),
    ensures
        array_validate(s, start) == Err::<int, RespError>(e),
{
    lemma_field_in_bounds(s, start);
    lemma_elements_rejected(s, first, accepted, field_value(s, start + 1, first - 2), at, e);
}

/// A bulk string or an array whose bytes end inside its null marker is
/// rejected as no value: behind a minus sign nothing but the whole marker is
/// accepted.
pub proof fn lemma_null_marker_truncated(s: Seq<u8>, start: int)
    requires
        0 <= start,
        opens_null_marker(s, start),
        s.len() < start + 5,
    ensures
        s[start] == TAG_BULK_STRING ==> bulk_validate(s, start) == Err::<int, RespError>(
            RespError::InvalidValue,
        ),
        s[start] == TAG_ARRAY ==> array_validate(s, start) == Err::<int, RespError>(
            RespError::InvalidValue,
        ),
{
}

/// The tag is read before anything else: where the byte at the cursor is not
/// the tag of the kind, or no byte is there, the first byte is what is wrong,
/// however few bytes follow.
pub proof fn lemma_wrong_tag(s: Seq<u8>, start: int, tag: u8)
    requires
        !(0 <= start < s.len()) || s[start] != tag,
    ensures
        leaf_validate(s, start, tag) == Err::<int, RespError>(RespError::InvalidFirstChar),
        tag == TAG_BULK_STRING ==> bulk_validate(s, start) == Err::<int, RespError>(
            RespError::InvalidFirstChar,
        ),
        tag == TAG_ARRAY ==> array_validate(s, start) == Err::<int, RespError>(
            RespError::InvalidFirstChar,
        ),
{
}

/// Cut short anywhere inside its line, a length or count field that was
/// accepted is rejected for its missing separator.
pub proof fn lemma_field_cut(s: Seq<u8>, start: int, first: int, k: int)
    requires
        0 <= start,
        field_validate(s, start) == Ok::<int, RespError>(first),
        start < k < first,
        k <= s.len(),
    ensures
        field_validate(s.take(k), start) == Err::<int, RespError>(
            RespError::InvalidLengthSeparator,
        ),
{
    let cut = s.take(k);
    let stop = digits_end(s, start + 1);
    lemma_digits_end_bounds(s, start + 1);
    assert forall|j: int| start + 1 <= j < stop && j < k implies is_digit(#[trigger] cut[j]) by {
        assert(cut[j] == s[j]);
    }
    if start + 2 < k {
        assert(cut[start + 1] == s[start + 1]);
        assert(cut[start + 2] == s[start + 2]);
    }
    if k <= stop {
        lemma_digits_end_is(cut, start + 1, k);
    } else {
        assert(cut[stop] == s[stop]);
        lemma_digits_end_is(cut, start + 1, stop);
    }
}

/// Cut short anywhere, a bulk string that was accepted is rejected: inside
/// the line of its length for the missing separator, inside its payload for
/// a payload that is too short, and inside its closing line for the missing
/// end. Of the null bulk string, what is left behind the minus sign is no
/// value.
pub proof fn lemma_bulk_cut(s: Seq<u8>, start: int, next: int, k: int)
    requires
        bulk_validate(s, start) == Ok::<int, RespError>(next),
        start < k < next,
    ensures
        bulk_validate(s.take(k), start) == Err::<int, RespError>(
            if opens_null_marker(s, start) {
                if k == start + 1 {
                    RespError::InvalidLengthSeparator
                } else {
                    RespError::InvalidValue
                }
            } else if k < field_validate(s, start)->Ok_0 {
                RespError::InvalidLengthSeparator
            } else if k < next - 2 {
                RespError::LengthsNotMatch
            } else {
                RespError::InvalidTerminate
            },
        ),
{
    let cut = s.take(k);
    lemma_bulk_in_bounds(s, start);
    assert(cut[start] == s[start]);
    if start + 1 < k {
        assert(cut[start + 1] == s[start + 1]);
    }
    if opens_null_marker(s, start) {
        if k == start + 1 {
            lemma_digits_end_is(cut, start + 1, k);
        }
    } else {
        let first = field_validate(s, start)->Ok_0;
        lemma_field_in_bounds(s, start);
        if k < first {
            lemma_field_cut(s, start, first, k);
        } else {
            let stop = line_end(s, first);
            lemma_line_end_bounds(s, first);
            assert(cut.subrange(start, k) =~= s.subrange(start, k));
            lemma_field_frame(s, start, cut, start, k - start, first - start);
            assert forall|j: int| first <= j < stop && j < k implies !is_line_break(
                #[trigger] cut[j],
            ) by {
                assert(cut[j] == s[j]);
            }
            if k <= stop {
                lemma_line_end_is(cut, first, k);
            } else {
                assert(cut[stop] == s[stop]);
                lemma_line_end_is(cut, first, stop);
            }
        }
    }
}

/// Cut short anywhere, an array that was accepted is rejected.
pub proof fn lemma_array_cut(s: Seq<u8>, start: int, next: int, k: int)
    requires
        array_validate(s, start) == Ok::<int, RespError>(next),
        start < k < next,
    ensures
        array_validate(s.take(k), start) is Err,
    decreases s.len() - start, 0int, 0nat,
{
    let cut = s.take(k);
    lemma_array_in_bounds(s, start);
    assert(cut[start] == s[start]);
    if start + 1 < k {
        assert(cut[start + 1] == s[start + 1]);
    }
    if opens_null_marker(s, start) {
        if k == start + 1 {
            lemma_digits_end_is(cut, start + 1, k);
        }
    } else {
        let first = field_validate(s, start)->Ok_0;
        let count = field_value(s, start + 1, first - 2);
        lemma_field_in_bounds(s, start);
        if k < first {
            lemma_field_cut(s, start, first, k);
        } else {
            assert(cut.subrange(start, k) =~= s.subrange(start, k));
            lemma_field_frame(s, start, cut, start, k - start, first - start);
            lemma_elements_cut(s, first, count, next, k);
        }
    }
}

/// Cut short anywhere, values in a row that were accepted are rejected.
pub proof fn lemma_elements_cut(s: Seq<u8>, pos: int, count: nat, next: int, k: int)
    requires
        0 <= pos <= s.len(),
        elements_validate(s, pos, count) == Ok::<int, RespError>(next),
        pos <= k < next,
    ensures
        elements_validate(s.take(k), pos, count) is Err,
    decreases s.len() - pos, 2int, count,
{
    let cut = s.take(k);
    lemma_elements_in_bounds(s, pos, count);
    lemma_value_in_bounds(s, pos);
    let after = value_validate(s, pos)->Ok_0;
    if k < after {
        lemma_value_cut(s, pos, after, k);
    } else {
        lemma_elements_in_bounds(s, after, (count - 1) as nat);
        assert(cut.subrange(pos, after) =~= s.subrange(pos, after));
        lemma_value_frame(s, pos, cut, pos, after - pos);
        lemma_elements_cut(s, after, (count - 1) as nat, next, k);
    }
}

/// Truncation is never accepted: a value of any kind that was accepted is
/// rejected where the bytes end anywhere before its own end, even right at
/// its start.
pub proof fn lemma_value_cut(s: Seq<u8>, pos: int, next: int, k: int)
    requires
        value_validate(s, pos) == Ok::<int, RespError>(next),
        pos <= k < next,
    ensures
        value_validate(s.take(k), pos) is Err,
    decreases s.len() - pos, 1int, 0nat,
{
    let cut = s.take(k);
    lemma_value_in_bounds(s, pos);
    if pos < k {
        assert(cut[pos] == s[pos]);
        if s[pos] == TAG_ARRAY {
            lemma_array_cut(s, pos, next, k);
        } else if s[pos] == TAG_BULK_STRING {
            lemma_bulk_cut(s, pos, next, k);
        } else {
            lemma_leaf_cut(s, pos, s[pos], next, k);
        }
    }
}

} // verus!
