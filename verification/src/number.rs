//! Decimal numbers as they appear in frames and replies.

use crate::ascii::{DIGIT_0, DIGIT_9};
use vstd::prelude::*;

verus! {

/// Whether `byte` is one of the ASCII digits `0` to `9`.
pub open spec fn is_digit(byte: u8) -> bool {
    DIGIT_0 <= byte <= DIGIT_9
}

/// Whether every byte of `bytes` is an ASCII digit.
pub open spec fn all_digits(bytes: Seq<u8>) -> bool {
    forall|i: int| 0 <= i < bytes.len() ==> is_digit(#[trigger] bytes[i])
}

/// The number that a run of ASCII digits denotes, most significant digit
/// first. The empty run denotes zero.
pub open spec fn digits_value(bytes: Seq<u8>) -> nat
    decreases bytes.len(),
{
    if bytes.len() == 0 {
        0
    } else {
        (digits_value(bytes.drop_last()) * 10 + (bytes.last() - DIGIT_0)) as nat
    }
}

/// What a byte string means as a number: `Some` exactly when it is a
/// non-empty run of ASCII digits whose value fits in a `usize`.
pub open spec fn number_of(bytes: Seq<u8>) -> Option<usize> {
    if bytes.len() > 0 && all_digits(bytes) && digits_value(bytes) <= usize::MAX {
        Some(digits_value(bytes) as usize)
    } else {
        None
    }
}

/// The shortest decimal representation of `n`, as ASCII digits.
pub open spec fn decimal_digits(n: nat) -> Seq<u8>
    decreases n,
{
    if n < 10 {
        seq![(DIGIT_0 + n) as u8]
    } else {
        decimal_digits(n / 10).push((DIGIT_0 + n % 10) as u8)
    }
}

/// A run of digits denotes at least what any of its prefixes denotes.
pub proof fn lemma_digits_value_prefix(bytes: Seq<u8>, k: int)
    requires
        0 <= k <= bytes.len(),
        all_digits(bytes),
    ensures
        digits_value(bytes.take(k)) <= digits_value(bytes),
    decreases bytes.len() - k,
{
    if k == bytes.len() {
        assert(bytes.take(k) =~= bytes);
    } else {
        let shorter = bytes.drop_last();
        assert(shorter.take(k) =~= bytes.take(k));
        assert(is_digit(bytes[bytes.len() - 1]));
        assert forall|i: int| 0 <= i < shorter.len() implies is_digit(#[trigger] shorter[i]) by {
            assert(shorter[i] == bytes[i]);
        }
        lemma_digits_value_prefix(shorter, k);
    }
}

/// The decimal representation of a number is never empty and holds digits only.
pub proof fn lemma_decimal_digits_shape(n: nat)
    ensures
        decimal_digits(n).len() >= 1,
        all_digits(decimal_digits(n)),
    decreases n,
{
    if n >= 10 {
        lemma_decimal_digits_shape(n / 10);
        let head = decimal_digits(n / 10);
        let whole = head.push((DIGIT_0 + n % 10) as u8);
        assert forall|i: int| 0 <= i < whole.len() implies is_digit(#[trigger] whole[i]) by {
            if i < head.len() {
                assert(whole[i] == head[i]);
            }
        }
    }
}

/// Reading back the decimal representation of a number gives that number.
pub proof fn lemma_decimal_round_trip(n: nat)
    ensures
        digits_value(decimal_digits(n)) == n,
    decreases n,
{
    if n < 10 {
        let one = seq![(DIGIT_0 + n) as u8];
        assert(one.drop_last().len() == 0);
        assert(digits_value(one.drop_last()) == 0);
    } else {
        lemma_decimal_round_trip(n / 10);
        let head = decimal_digits(n / 10);
        let whole = head.push((DIGIT_0 + n % 10) as u8);
        assert(whole.drop_last() =~= head);
    }
}

/// Every `usize`, written in decimal, is read back as itself.
pub proof fn lemma_number_of_decimal(n: usize)
    ensures
        number_of(decimal_digits(n as nat)) == Some(n),
{
    lemma_decimal_digits_shape(n as nat);
    lemma_decimal_round_trip(n as nat);
}

/// Reads a decimal number: `None` for the empty string, for a string that
/// holds anything but ASCII digits, and for a value beyond `usize::MAX`.
pub fn ascii_to_number(ascii_bytes: &[u8]) -> (number: Option<usize>)
    ensures
        number == number_of(ascii_bytes@),
{
    let len: usize = ascii_bytes.len();
    if len == 0 {
        return None;
    }
    let mut number: usize = 0;
    let mut index: usize = 0;
    while index < len
        invariant
            len == ascii_bytes@.len(),
            index <= len,
            all_digits(ascii_bytes@.take(index as int)),
            number == digits_value(ascii_bytes@.take(index as int)),
        decreases len - index,
    {
        let byte: u8 = ascii_bytes[index];
        if byte < DIGIT_0 || byte > DIGIT_9 {
            return None;
        }
        let digit: usize = (byte - DIGIT_0) as usize;
        proof {
            let before = ascii_bytes@.take(index as int);
            let after = ascii_bytes@.take(index + 1);
            assert(after.drop_last() =~= before);
            assert(after.last() == byte);
            assert forall|i: int| 0 <= i < after.len() implies is_digit(#[trigger] after[i]) by {
                if i < index {
                    assert(after[i] == before[i]);
                }
            }
            assert(digits_value(after) == number * 10 + digit);
        }
        if number > (usize::MAX - digit) / 10 {
            proof {
                if all_digits(ascii_bytes@) {
                    lemma_digits_value_prefix(ascii_bytes@, index + 1);
                }
            }
            return None;
        }
        number = number * 10 + digit;
        index += 1;
    }
    proof {
        assert(ascii_bytes@.take(index as int) =~= ascii_bytes@);
    }
    Some(number)
}

/// Writes `n` in decimal, without sign or leading zeros.
pub fn number_to_ascii(n: usize) -> (digits: Vec<u8>)
    ensures
        digits@ == decimal_digits(n as nat),
    decreases n,
{
    if n < 10 {
        let mut digits: Vec<u8> = Vec::new();
        digits.push(DIGIT_0 + n as u8);
        digits
    } else {
        let mut digits: Vec<u8> = number_to_ascii(n / 10);
        digits.push(DIGIT_0 + (n % 10) as u8);
        digits
    }
}

} // verus!
