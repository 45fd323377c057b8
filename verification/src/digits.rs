//! ASCII decimal digits and the numbers that runs of them denote.

use vstd::prelude::*;

verus! {

pub const ASCII_ZERO: u8 = 48;

pub const ASCII_NINE: u8 = 57;

/// Whether `byte` is one of the ASCII characters `0` to `9`.
pub open spec fn is_digit(byte: u8) -> bool {
    ASCII_ZERO <= byte <= ASCII_NINE
}

/// Whether every byte of `bytes` is an ASCII decimal digit.
pub open spec fn all_digits(bytes: Seq<u8>) -> bool {
    forall|i: int| 0 <= i < bytes.len() ==> is_digit(#[trigger] bytes[i])
}

/// The number that `digits` denotes in base ten, most significant digit first.
/// Leading zeros count for nothing and the empty run denotes zero.
pub open spec fn decimal_value(digits: Seq<u8>) -> nat
    decreases digits.len(),
{
    if digits.len() == 0 {
        0
    } else {
        (10 * decimal_value(digits.drop_last()) + (digits.last() - ASCII_ZERO)) as nat
    }
}

/// A run of digits denotes at least as much as any of its prefixes.
pub proof fn lemma_decimal_value_prefix(digits: Seq<u8>, n: int)
    requires
        all_digits(digits),
        0 <= n <= digits.len(),
    ensures
        decimal_value(digits.take(n)) <= decimal_value(digits),
    decreases digits.len(),
{
    if n == digits.len() {
        assert(digits.take(n) == digits);
    } else {
        lemma_decimal_value_prefix(digits.drop_last(), n);
        assert(digits.drop_last().take(n) == digits.take(n));
    }
}

/// Ten to the power `exponent`.
pub open spec fn power_of_ten(exponent: nat) -> nat
    decreases exponent,
{
    if exponent == 0 {
        1
    } else {
        10 * power_of_ten((exponent - 1) as nat)
    }
}

/// A run of `n` digits denotes a number below ten to the power `n`.
pub proof fn lemma_decimal_value_bound(digits: Seq<u8>)
    requires
        all_digits(digits),
    ensures
        decimal_value(digits) < power_of_ten(digits.len()),
    decreases digits.len(),
{
    if digits.len() > 0 {
        lemma_decimal_value_bound(digits.drop_last());
    }
}

/// Whether `byte` is one of the ASCII characters `0` to `9`.
pub fn is_ascii_digit(byte: u8) -> (digit: bool)
    ensures
        digit == is_digit(byte),
{
    ASCII_ZERO <= byte && byte <= ASCII_NINE
}

/// Reads the digits of `integer_accumulator` as one number and empties it.
pub fn ascii_to_integer(integer_accumulator: &mut Vec<u8>) -> (value: u64)
    requires
        all_digits(old(integer_accumulator)@),
        decimal_value(old(integer_accumulator)@) <= u64::MAX,
    ensures
        value == decimal_value(old(integer_accumulator)@),
        final(integer_accumulator)@ == Seq::<u8>::empty(),
{
    let mut value: u64 = 0;
    let mut index: usize = 0;
    while index < integer_accumulator.len()
        invariant
            index <= integer_accumulator.len(),
            integer_accumulator@ == old(integer_accumulator)@,
            all_digits(integer_accumulator@),
            decimal_value(integer_accumulator@) <= u64::MAX,
            value == decimal_value(integer_accumulator@.take(index as int)),
        decreases integer_accumulator.len() - index,
    {
        let next: u8 = integer_accumulator[index];
        proof {
            let longer = integer_accumulator@.take(index + 1);
            assert(longer.drop_last() == integer_accumulator@.take(index as int));
            lemma_decimal_value_prefix(integer_accumulator@, index + 1);
        }
        value = value * 10 + (next - ASCII_ZERO) as u64;
        index += 1;
    }
    proof {
        assert(integer_accumulator@.take(index as int) == integer_accumulator@);
    }
    integer_accumulator.clear();
    value
}

} // verus!
