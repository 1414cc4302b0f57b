//! The wire grammar as mathematics: what each validator answers, over a
//! sequence of bytes and an integer position in it.
//!
//! A validator's answer is a `Result`: `Ok(next)` with the position just
//! past the value that starts at `start`, or the error that rejects it.

use crate::RespError;
use vstd::prelude::*;

verus! {

/// Carriage return.
pub const CR: u8 = 0x0d;

/// Line feed.
pub const LF: u8 = 0x0a;

/// `+`, the tag of a simple string.
pub const TAG_SIMPLE_STRING: u8 = 0x2b;

/// `-`, the tag of an error; also the sign that opens a null marker.
pub const TAG_ERROR: u8 = 0x2d;

/// `:`, the tag of an integer.
pub const TAG_INTEGER: u8 = 0x3a;

/// `$`, the tag of a bulk string.
pub const TAG_BULK_STRING: u8 = 0x24;

/// `*`, the tag of an array.
pub const TAG_ARRAY: u8 = 0x2a;

/// The digit `0`.
pub const ZERO: u8 = 0x30;

/// The digit `1`.
pub const ONE: u8 = 0x31;

/// The digit `9`.
pub const NINE: u8 = 0x39;

/// A byte that ends a line: carriage return or line feed.
pub open spec fn is_line_break(b: u8) -> bool {
    b == CR || b == LF
}

/// An ASCII decimal digit.
pub open spec fn is_digit(b: u8) -> bool {
    ZERO <= b <= NINE
}

/// No byte of `s` is a carriage return or a line feed.
pub open spec fn is_line(s: Seq<u8>) -> bool {
    forall|i: int| 0 <= i < s.len() ==> !is_line_break(#[trigger] s[i])
}

/// The part of `input` that a cursor with upper bound `end` may read: its
/// first `end` bytes, or all of it where `end` lies beyond its length.
pub open spec fn window(input: Seq<u8>, end: int) -> Seq<u8> {
    if end <= 0 {
        Seq::empty()
    } else if end <= input.len() {
        input.subrange(0, end)
    } else {
        input
    }
}

/// A carriage return at `i` with a line feed right behind it, both inside `s`.
pub open spec fn has_crlf_at(s: Seq<u8>, i: int) -> bool {
    0 <= i && i + 1 < s.len() && s[i] == CR && s[i + 1] == LF
}

/// The position of the first line break at or after `from`, or the length of
/// `s` where there is none.
pub open spec fn line_end(s: Seq<u8>, from: int) -> int
    decreases s.len() - from,
{
    if 0 <= from < s.len() && !is_line_break(s[from]) {
        line_end(s, from + 1)
    } else {
        from
    }
}

/// The position of the first byte at or after `from` that is no digit, or the
/// length of `s` where every byte from there on is one.
pub open spec fn digits_end(s: Seq<u8>, from: int) -> int
    decreases s.len() - from,
{
    if 0 <= from < s.len() && is_digit(s[from]) {
        digits_end(s, from + 1)
    } else {
        from
    }
}

/// The number that a run of decimal digits writes, most significant first.
/// The empty run writes zero.
pub open spec fn decimal_value(digits: Seq<u8>) -> nat
    decreases digits.len(),
{
    if digits.len() == 0 {
        0
    } else {
        (decimal_value(digits.drop_last()) * 10 + (digits.last() - ZERO)) as nat
    }
}

/// The number written by the digits of `s` from `from` up to `to`.
pub open spec fn field_value(s: Seq<u8>, from: int, to: int) -> nat {
    decimal_value(s.subrange(from, to))
}

/// What validating a simple string, an error or an integer answers: the byte
/// at `start` must be `tag`, and the first line break after it must be a
/// carriage return followed by a line feed.
pub open spec fn leaf_validate(s: Seq<u8>, start: int, tag: u8) -> Result<int, RespError> {
    if !(0 <= start < s.len()) || s[start] != tag {
        Err(RespError::InvalidFirstChar)
    } else if !has_crlf_at(s, line_end(s, start + 1)) {
        Err(RespError::InvalidTerminate)
    } else {
        Ok(line_end(s, start + 1) + 2)
    }
}

/// A minus sign stands right behind the tag at `start`: what follows can
/// only be the null marker.
pub open spec fn opens_null_marker(s: Seq<u8>, start: int) -> bool {
    start + 1 < s.len() && s[start + 1] == TAG_ERROR
}

/// The four bytes behind a tag at `start` are the null marker `-1` and its
/// line ending, all of them inside `s`.
pub open spec fn has_null_marker(s: Seq<u8>, start: int) -> bool {
    &&& start + 4 < s.len()
    &&& s[start + 1] == TAG_ERROR
    &&& s[start + 2] == ONE
    &&& s[start + 3] == CR
    &&& s[start + 4] == LF
}

/// The length or count field behind a tag at `start` opens with a zero that
/// another digit follows, both of them inside `s`.
pub open spec fn has_leading_zero(s: Seq<u8>, start: int) -> bool {
    start + 2 < s.len() && s[start + 1] == ZERO && is_digit(s[start + 2])
}

/// What reading the length or count field behind a tag at `start` answers:
/// the position just past the field's line ending.
///
/// The field is the run of digits behind the tag. It must not open with a
/// redundant zero, a carriage return and a line feed must follow it inside
/// `s`, and it must hold a digit. Where `s` ends in the digits or right
/// behind them, the line ending is missing.
pub open spec fn field_validate(s: Seq<u8>, start: int) -> Result<int, RespError> {
    let stop = digits_end(s, start + 1);
    if has_leading_zero(s, start) {
        Err(RespError::InvalidLength)
    } else if !has_crlf_at(s, stop) {
        Err(RespError::InvalidLengthSeparator)
    } else if stop == start + 1 {
        Err(RespError::InvalidLength)
    } else {
        Ok(stop + 2)
    }
}

/// What validating a bulk string answers.
///
/// The byte at `start` must be the tag. Where a minus sign follows it, the
/// null marker must follow, whole. Otherwise a length follows, in decimal
/// digits with its line ending. The payload is the run of bytes up to the
/// next line break: it must be as long as the length says, and a carriage
/// return and a line feed must end it.
pub open spec fn bulk_validate(s: Seq<u8>, start: int) -> Result<int, RespError> {
    if !(0 <= start < s.len()) || s[start] != TAG_BULK_STRING {
        Err(RespError::InvalidFirstChar)
    } else if opens_null_marker(s, start) {
        if has_null_marker(s, start) {
            Ok(start + 5)
        } else {
            Err(RespError::InvalidValue)
        }
    } else {
        match field_validate(s, start) {
            Err(e) => Err(e),
            Ok(payload) => {
                let stop = line_end(s, payload);
                if stop - payload != field_value(s, start + 1, payload - 2) {
                    Err(RespError::LengthsNotMatch)
                } else if !has_crlf_at(s, stop) {
                    Err(RespError::InvalidTerminate)
                } else {
                    Ok(stop + 2)
                }
            },
        }
    }
}

/// What validating an array answers.
///
/// The byte at `start` must be the tag. Where a minus sign follows it, the
/// null marker must follow, whole. Otherwise a count follows, in decimal
/// digits with its line ending, and then as many values as the count says,
/// one behind the other.
///
/// The count field always ends behind the tag, so the test on `first` never
/// fails: it is there to show that the definition terminates.
pub open spec fn array_validate(s: Seq<u8>, start: int) -> Result<int, RespError>
    decreases s.len() - start, 0int, 0nat,
{
    if !(0 <= start < s.len()) || s[start] != TAG_ARRAY {
        Err(RespError::InvalidFirstChar)
    } else if opens_null_marker(s, start) {
        if has_null_marker(s, start) {
            Ok(start + 5)
        } else {
            Err(RespError::InvalidValue)
        }
    } else {
        match field_validate(s, start) {
            Err(e) => Err(e),
            Ok(first) => if start < first {
                elements_validate(s, first, field_value(s, start + 1, first - 2))
            } else {
                Err(RespError::InvalidValue)
            },
        }
    }
}

/// What validating `count` values in a row answers, the first of them at
/// `pos`: the error of the first value that is rejected, or the position just
/// past the last one.
///
/// A value always ends behind its start and inside `s`
/// ([`crate::laws::lemma_value_in_bounds`]), so the test on `next` never
/// fails: it is there to show that the definition terminates.
pub open spec fn elements_validate(s: Seq<u8>, pos: int, count: nat) -> Result<int, RespError>
    decreases s.len() - pos, 2int, count,
{
    if count == 0 {
        Ok(pos)
    } else {
        match value_validate(s, pos) {
            Err(e) => Err(e),
            Ok(next) => if pos < next <= s.len() {
                elements_validate(s, next, (count - 1) as nat)
            } else {
                Err(RespError::InvalidValue)
            },
        }
    }
}

/// What validating the value at `pos` answers, whatever its kind: the byte at
/// `pos` says which of the five validators is asked.
pub open spec fn value_validate(s: Seq<u8>, pos: int) -> Result<int, RespError>
    decreases s.len() - pos, 1int, 0nat,
{
    if !(0 <= pos < s.len()) {
        Err(RespError::InvalidValue)
    } else if s[pos] == TAG_SIMPLE_STRING || s[pos] == TAG_ERROR || s[pos] == TAG_INTEGER {
        leaf_validate(s, pos, s[pos])
    } else if s[pos] == TAG_BULK_STRING {
        bulk_validate(s, pos)
    } else if s[pos] == TAG_ARRAY {
        array_validate(s, pos)
    } else {
        Err(RespError::InvalidValue)
    }
}

/// A validator's answer as the mathematics has it: the position as an `int`.
pub open spec fn as_answer(r: Result<usize, RespError>) -> Result<int, RespError> {
    match r {
        Ok(next) => Ok(next as int),
        Err(e) => Err(e),
    }
}

} // verus!
