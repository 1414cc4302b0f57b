//! The scans that the validators share, each proved against the grammar.
//!
//! Every function here reads a slice below a bound `limit` that lies inside
//! it, and speaks of the bytes below that bound as one sequence.

use crate::RespError;
use crate::encoding::lemma_decimal_value_prefix;
use crate::grammar::{
    array_validate, as_answer, bulk_validate, decimal_value, digits_end, elements_validate,
    field_validate, field_value, has_crlf_at, is_digit, is_line_break, leaf_validate, line_end,
    value_validate, window, CR, LF, NINE, ONE, TAG_ARRAY, TAG_BULK_STRING, TAG_ERROR, TAG_INTEGER,
    TAG_SIMPLE_STRING, ZERO,
};
use crate::laws::{lemma_digits_end_is, lemma_line_end_is};
use vstd::prelude::*;

verus! {

/// The upper bound that a cursor really has on a slice.
pub(crate) fn limit_of(input: &[u8], end: usize) -> (limit: usize)
    ensures
        limit == window(input@, end as int).len(),
        limit <= input@.len(),
        limit <= end,
        window(input@, end as int) == input@.subrange(0, limit as int),
{
    if end <= input.len() {
        end
    } else {
        input.len()
    }
}

/// The position of the first line break at or after `from`, below `limit`.
pub(crate) fn find_line_end(input: &[u8], from: usize, limit: usize) -> (stop: usize)
    requires
        from <= limit <= input@.len(),
    ensures
        from <= stop <= limit,
        stop == line_end(input@.subrange(0, limit as int), from as int),
{
    let ghost s = input@.subrange(0, limit as int);
    let mut index: usize = from;
    while index < limit && input[index] != CR && input[index] != LF
        invariant
            from <= index <= limit <= input@.len(),
            s == input@.subrange(0, limit as int),
            forall|j: int| from <= j < index ==> !is_line_break(#[trigger] s[j]),
        decreases limit - index,
    {
        index += 1;
    }
    proof {
        lemma_line_end_is(s, from as int, index as int);
    }
    index
}

/// The position of the first byte at or after `from` that is no digit, below
/// `limit`.
pub(crate) fn find_digits_end(input: &[u8], from: usize, limit: usize) -> (stop: usize)
    requires
        from <= limit <= input@.len(),
    ensures
        from <= stop <= limit,
        stop == digits_end(input@.subrange(0, limit as int), from as int),
        forall|j: int| from <= j < stop ==> is_digit(#[trigger] input@[j]),
{
    let ghost s = input@.subrange(0, limit as int);
    let mut index: usize = from;
    while index < limit && input[index] >= ZERO && input[index] <= NINE
        invariant
            from <= index <= limit <= input@.len(),
            s == input@.subrange(0, limit as int),
            forall|j: int| from <= j < index ==> is_digit(#[trigger] s[j]),
            forall|j: int| from <= j < index ==> is_digit(#[trigger] input@[j]),
        decreases limit - index,
    {
        index += 1;
    }
    proof {
        lemma_digits_end_is(s, from as int, index as int);
    }
    index
}

/// Whether a carriage return and a line feed stand at `index`, below `limit`.
pub(crate) fn crlf_at(input: &[u8], index: usize, limit: usize) -> (found: bool)
    requires
        index <= limit <= input@.len(),
    ensures
        found == has_crlf_at(input@.subrange(0, limit as int), index as int),
{
    limit - index >= 2 && input[index] == CR && input[index + 1] == LF
}

/// Validates the simple string, error or integer that starts at `start`.
pub(crate) fn validate_leaf(input: &[u8], start: usize, limit: usize, tag: u8) -> (r: Result<
    usize,
    RespError,
>)
    requires
        limit <= input@.len(),
    ensures
        leaf_validate(input@.subrange(0, limit as int), start as int, tag) == as_answer(r),
        r matches Ok(next) ==> start < next <= limit,
{
    if start >= limit || input[start] != tag {
        return Err(RespError::InvalidFirstChar);
    }
    let stop = find_line_end(input, start + 1, limit);
    if !crlf_at(input, stop, limit) {
        return Err(RespError::InvalidTerminate);
    }
    Ok(stop + 2)
}

/// The number written by the digits from `from` up to `to`, or `None` where
/// it does not fit a `usize`.
pub(crate) fn read_decimal(input: &[u8], from: usize, to: usize) -> (r: Option<usize>)
    requires
        from <= to <= input@.len(),
        forall|j: int| from <= j < to ==> is_digit(#[trigger] input@[j]),
    ensures
        match r {
            Some(value) => value == decimal_value(input@.subrange(from as int, to as int)),
            None => decimal_value(input@.subrange(from as int, to as int)) > usize::MAX,
        },
{
    let ghost digits = input@.subrange(from as int, to as int);
    let mut value: usize = 0;
    let mut index: usize = from;
    while index < to
        invariant
            from <= index <= to <= input@.len(),
            digits == input@.subrange(from as int, to as int),
            forall|j: int| from <= j < to ==> is_digit(#[trigger] input@[j]),
            forall|j: int| 0 <= j < digits.len() ==> is_digit(#[trigger] digits[j]),
            value == decimal_value(digits.take(index - from)),
        decreases to - index,
    {
        let digit: usize = (input[index] - ZERO) as usize;
        proof {
            let longer = digits.take(index + 1 - from);
            assert(longer.drop_last() =~= digits.take(index - from));
            assert(longer.last() == digits[index - from]);
            assert(decimal_value(longer) == value * 10 + digit);
            lemma_decimal_value_prefix(digits, index + 1 - from);
        }
        match value.checked_mul(10) {
            None => {
                return None;
            },
            Some(tens) => match tens.checked_add(digit) {
                None => {
                    return None;
                },
                Some(sum) => {
                    value = sum;
                },
            },
        }
        index += 1;
    }
    proof {
        assert(digits.take(to - from) =~= digits);
    }
    Some(value)
}

/// Reads the length or count field behind the tag at `start`: where its first
/// line ends, and the number it writes (`None` where that does not fit a
/// `usize`).
pub(crate) fn validate_field(input: &[u8], start: usize, limit: usize) -> (r: Result<
    (usize, Option<usize>),
    RespError,
>)
    requires
        start < limit <= input@.len(),
    ensures
        match r {
            Ok((first, count)) => {
                let s = input@.subrange(0, limit as int);
                &&& field_validate(s, start as int) == Ok::<int, RespError>(first as int)
                &&& start + 4 <= first <= limit
                &&& match count {
                    Some(c) => c == field_value(s, start + 1, first - 2),
                    None => field_value(s, start + 1, first - 2) > usize::MAX,
                }
            },
            Err(e) => field_validate(input@.subrange(0, limit as int), start as int) == Err::<
                int,
                RespError,
            >(e),
        },
{
    if limit - start >= 3 && input[start + 1] == ZERO && input[start + 2] >= ZERO && input[start
        + 2] <= NINE {
        return Err(RespError::InvalidLength);
    }
    let stop = find_digits_end(input, start + 1, limit);
    if !crlf_at(input, stop, limit) {
        return Err(RespError::InvalidLengthSeparator);
    }
    if stop == start + 1 {
        return Err(RespError::InvalidLength);
    }
    let count = read_decimal(input, start + 1, stop);
    proof {
        assert(input@.subrange(0, limit as int).subrange(start + 1, stop as int)
            =~= input@.subrange(start + 1, stop as int));
    }
    Ok((stop + 2, count))
}

/// Validates the bulk string that starts at `start`.
pub(crate) fn validate_bulk(input: &[u8], start: usize, limit: usize) -> (r: Result<
    usize,
    RespError,
>)
    requires
        limit <= input@.len(),
    ensures
        bulk_validate(input@.subrange(0, limit as int), start as int) == as_answer(r),
        r matches Ok(next) ==> start < next <= limit,
{
    if start >= limit || input[start] != TAG_BULK_STRING {
        return Err(RespError::InvalidFirstChar);
    }
    if limit - start >= 2 && input[start + 1] == TAG_ERROR {
        if limit - start < 5 || input[start + 2] != ONE || input[start + 3] != CR || input[start
            + 4] != LF {
            return Err(RespError::InvalidValue);
        }
        return Ok(start + 5);
    }
    let (payload, length) = match validate_field(input, start, limit) {
        Ok(field) => field,
        Err(e) => {
            return Err(e);
        },
    };
    let stop = find_line_end(input, payload, limit);
    match length {
        None => {
            return Err(RespError::LengthsNotMatch);
        },
        Some(declared) => {
            if stop - payload != declared {
                return Err(RespError::LengthsNotMatch);
            }
        },
    }
    if !crlf_at(input, stop, limit) {
        return Err(RespError::InvalidTerminate);
    }
    Ok(stop + 2)
}

/// Validates the array that starts at `start`, and every value in it.
pub(crate) fn validate_array(input: &[u8], start: usize, limit: usize) -> (r: Result<
    usize,
    RespError,
>)
    requires
        limit <= input@.len(),
    ensures
        array_validate(input@.subrange(0, limit as int), start as int) == as_answer(r),
        r matches Ok(next) ==> start < next <= limit,
    decreases limit - start, 0int,
{
    if start >= limit || input[start] != TAG_ARRAY {
        return Err(RespError::InvalidFirstChar);
    }
    if limit - start >= 2 && input[start + 1] == TAG_ERROR {
        if limit - start < 5 || input[start + 2] != ONE || input[start + 3] != CR || input[start
            + 4] != LF {
            return Err(RespError::InvalidValue);
        }
        return Ok(start + 5);
    }
    let (first, count) = match validate_field(input, start, limit) {
        Ok(field) => field,
        Err(e) => {
            return Err(e);
        },
    };
    let ghost s = input@.subrange(0, limit as int);
    let ghost total = field_value(s, start + 1, first - 2);
    let mut index: usize = first;
    let mut done: usize = 0;
    let mut more: bool = match count {
        Some(c) => done < c,
        None => true,
    };
    while more
        invariant
            limit <= input@.len(),
            s == input@.subrange(0, limit as int),
            start < first <= index <= limit,
            done <= index - first,
            done <= total,
            more == (done < total),
            match count {
                Some(c) => c == total,
                None => total > usize::MAX,
            },
            array_validate(s, start as int) == elements_validate(
                s,
                index as int,
                (total - done) as nat,
            ),
        decreases limit - index,
    {
        match validate_value(input, index, limit) {
            Err(e) => {
                return Err(e);
            },
            Ok(next) => {
                index = next;
                done += 1;
            },
        }
        more = match count {
            Some(c) => done < c,
            None => true,
        };
    }
    Ok(index)
}

/// Validates the value that starts at `pos`, whatever its kind.
pub(crate) fn validate_value(input: &[u8], pos: usize, limit: usize) -> (r: Result<
    usize,
    RespError,
>)
    requires
        limit <= input@.len(),
    ensures
        value_validate(input@.subrange(0, limit as int), pos as int) == as_answer(r),
        r matches Ok(next) ==> pos < next <= limit,
    decreases limit - pos, 1int,
{
    if pos >= limit {
        return Err(RespError::InvalidValue);
    }
    let tag = input[pos];
    if tag == TAG_SIMPLE_STRING || tag == TAG_ERROR || tag == TAG_INTEGER {
        validate_leaf(input, pos, limit, tag)
    } else if tag == TAG_BULK_STRING {
        validate_bulk(input, pos, limit)
    } else if tag == TAG_ARRAY {
        validate_array(input, pos, limit)
    } else {
        Err(RespError::InvalidValue)
    }
}

} // verus!
