//! What each kind of value looks like on the wire, and numbers in decimal.

use crate::grammar::{
    decimal_value, is_digit, is_line, CR, LF, ONE, TAG_ARRAY, TAG_BULK_STRING, TAG_ERROR, ZERO,
};
use vstd::prelude::*;

verus! {

/// The digits of `n` in decimal, most significant first, with no leading
/// zero; zero itself is the single digit `0`.
pub open spec fn decimal_digits(n: nat) -> Seq<u8>
    decreases n,
{
    if n < 10 {
        seq![(ZERO + n) as u8]
    } else {
        decimal_digits(n / 10).push((ZERO + n % 10) as u8)
    }
}

/// A signed number in decimal: a minus sign before the digits of a negative
/// one.
pub open spec fn signed_digits(v: int) -> Seq<u8> {
    if v < 0 {
        seq![TAG_ERROR] + decimal_digits((-v) as nat)
    } else {
        decimal_digits(v as nat)
    }
}

/// The two bytes that end a line.
pub open spec fn line_ending() -> Seq<u8> {
    seq![CR, LF]
}

/// A simple string, an error or an integer on the wire: the tag, the payload
/// and a line ending.
pub open spec fn leaf_encoding(tag: u8, payload: Seq<u8>) -> Seq<u8> {
    seq![tag] + payload + line_ending()
}

/// What lies between the tag and the closing line ending of an encoding.
pub open spec fn payload_of(encoded: Seq<u8>) -> Seq<u8> {
    encoded.subrange(1, encoded.len() - 2)
}

/// A bulk string on the wire: the tag, the payload's length in decimal, a
/// line ending, the payload and a line ending.
pub open spec fn bulk_encoding(payload: Seq<u8>) -> Seq<u8> {
    seq![TAG_BULK_STRING] + decimal_digits(payload.len()) + line_ending() + payload
        + line_ending()
}

/// An array on the wire: the tag, the number of elements in decimal, a line
/// ending, and the elements' own encodings one behind the other.
pub open spec fn array_encoding(elements: Seq<Seq<u8>>) -> Seq<u8> {
    seq![TAG_ARRAY] + decimal_digits(elements.len()) + line_ending() + elements.flatten()
}

/// The bulk string without a payload, `$0\r\n\r\n`.
pub open spec fn empty_bulk_string_encoding() -> Seq<u8> {
    seq![TAG_BULK_STRING, ZERO, CR, LF, CR, LF]
}

/// The bulk string that stands for no value, `$-1\r\n`.
pub open spec fn null_bulk_string_encoding() -> Seq<u8> {
    seq![TAG_BULK_STRING, TAG_ERROR, ONE, CR, LF]
}

/// The array without elements, `*0\r\n`.
pub open spec fn empty_array_encoding() -> Seq<u8> {
    seq![TAG_ARRAY, ZERO, CR, LF]
}

/// The array that stands for no value, `*-1\r\n`.
pub open spec fn null_array_encoding() -> Seq<u8> {
    seq![TAG_ARRAY, TAG_ERROR, ONE, CR, LF]
}

/// A number in decimal has at most twenty digits where it fits 64 bits.
pub proof fn lemma_decimal_digits_len(n: nat)
    ensures
        1 <= decimal_digits(n).len(),
        n <= u64::MAX ==> decimal_digits(n).len() <= 20,
{
    reveal_with_fuel(decimal_digits, 21);
}

/// A number in decimal is written in digits, and opens with a zero only
/// where it is zero.
pub proof fn lemma_decimal_digits_shape(n: nat)
    ensures
        forall|k: int|
            0 <= k < decimal_digits(n).len() ==> is_digit(#[trigger] decimal_digits(n)[k]),
        n > 0 ==> decimal_digits(n)[0] != ZERO,
        n == 0 ==> decimal_digits(n) == seq![ZERO],
    decreases n,
{
    if n >= 10 {
        lemma_decimal_digits_shape(n / 10);
    }
}

/// The digits of a number in decimal write that number.
pub proof fn lemma_decimal_value_of_digits(n: nat)
    ensures
        decimal_value(decimal_digits(n)) == n,
    decreases n,
{
    let digits = decimal_digits(n);
    if n >= 10 {
        lemma_decimal_value_of_digits(n / 10);
        assert(digits.drop_last() =~= decimal_digits(n / 10));
        assert(digits.last() == ZERO + n % 10);
    } else {
        assert(digits.drop_last() =~= Seq::<u8>::empty());
        assert(decimal_value(Seq::<u8>::empty()) == 0);
        assert(digits.last() == ZERO + n);
    }
}

/// A run of digits writes at least the number that any of its prefixes writes.
pub proof fn lemma_decimal_value_prefix(digits: Seq<u8>, k: int)
    requires
        0 <= k <= digits.len(),
        forall|j: int| 0 <= j < digits.len() ==> is_digit(#[trigger] digits[j]),
    ensures
        decimal_value(digits.take(k)) <= decimal_value(digits),
    decreases digits.len(),
{
    if k < digits.len() {
        lemma_decimal_value_prefix(digits.drop_last(), k);
        assert(digits.drop_last().take(k) =~= digits.take(k));
    } else {
        assert(digits.take(k) =~= digits);
    }
}

/// Digits without a redundant leading zero are the decimal digits of the
/// number they write: no number is written in two ways.
pub proof fn lemma_canonical_digits(digits: Seq<u8>)
    requires
        digits.len() >= 1,
        forall|j: int| 0 <= j < digits.len() ==> is_digit(#[trigger] digits[j]),
        digits.len() >= 2 ==> digits[0] != ZERO,
    ensures
        decimal_digits(decimal_value(digits)) == digits,
    decreases digits.len(),
{
    let shorter = digits.drop_last();
    if digits.len() == 1 {
        assert(shorter =~= Seq::<u8>::empty());
        assert(decimal_value(shorter) == 0);
        assert(decimal_digits(decimal_value(digits)) =~= digits);
    } else {
        lemma_canonical_digits(shorter);
        lemma_decimal_value_prefix(shorter, 1);
        let first = shorter.take(1);
        assert(first.drop_last() =~= Seq::<u8>::empty());
        assert(decimal_value(first.drop_last()) == 0);
        assert(first.last() == digits[0]);
        assert(decimal_value(shorter) >= 1);
        let value = decimal_value(digits);
        assert(value == decimal_value(shorter) * 10 + (digits.last() - ZERO));
        assert(value / 10 == decimal_value(shorter));
        assert(value % 10 == digits.last() - ZERO);
        assert(decimal_digits(value) =~= shorter.push(digits.last()));
        assert(shorter.push(digits.last()) =~= digits);
    }
}

/// A signed number in decimal holds no line break.
pub proof fn lemma_signed_digits_is_line(v: int)
    ensures
        is_line(signed_digits(v)),
{
    if v < 0 {
        lemma_decimal_digits_shape((-v) as nat);
    } else {
        lemma_decimal_digits_shape(v as nat);
    }
}

/// Appends the decimal digits of `n` to `out`.
pub(crate) fn push_decimal(out: &mut Vec<u8>, n: u64)
    ensures
        final(out)@ == old(out)@ + decimal_digits(n as nat),
    decreases n,
{
    if n >= 10 {
        push_decimal(out, n / 10);
    }
    let digit: u8 = ZERO + (n % 10) as u8;
    out.push(digit);
    proof {
        assert(final(out)@ =~= old(out)@ + decimal_digits(n as nat));
    }
}

/// The decimal digits of `n`.
pub(crate) fn decimal_of(n: u64) -> (digits: Vec<u8>)
    ensures
        digits@ == decimal_digits(n as nat),
        1 <= digits@.len() <= 20,
{
    let mut digits: Vec<u8> = Vec::new();
    push_decimal(&mut digits, n);
    proof {
        lemma_decimal_digits_len(n as nat);
        assert(digits@ =~= decimal_digits(n as nat));
    }
    digits
}

/// The decimal digits of `v`, behind a minus sign where it is negative.
pub(crate) fn signed_decimal_of(v: i64) -> (digits: Vec<u8>)
    ensures
        digits@ == signed_digits(v as int),
        1 <= digits@.len() <= 21,
{
    let mut digits: Vec<u8> = Vec::new();
    if v < 0 {
        digits.push(TAG_ERROR);
        let magnitude: u64 = (-(v + 1)) as u64 + 1;
        push_decimal(&mut digits, magnitude);
        proof {
            lemma_decimal_digits_len(magnitude as nat);
            assert(digits@ =~= signed_digits(v as int));
        }
    } else {
        push_decimal(&mut digits, v as u64);
        proof {
            lemma_decimal_digits_len(v as nat);
            assert(digits@ =~= signed_digits(v as int));
        }
    }
    digits
}

} // verus!
