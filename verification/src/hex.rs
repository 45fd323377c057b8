//! Converts numerals between decimal and hexadecimal.

use vstd::prelude::*;
use vstd::utf8::encode_utf8;
use crate::bytes::append_range;
use crate::digits::{
    all_digits, ascii_to_integer, decimal_value, is_ascii_digit, is_digit,
    lemma_decimal_value_prefix, ASCII_ZERO,
};
use crate::numeral::{append_numeral, numeral};

verus! {

pub const ASCII_LOWERCASE_A: u8 = 97;

pub const ASCII_UPPERCASE_A: u8 = 65;

pub const ASCII_LOWERCASE_F: u8 = 102;

pub const ASCII_UPPERCASE_F: u8 = 70;

pub const ASCII_LOWERCASE_X: u8 = 120;

/// What marks a numeral as hexadecimal.
pub const HEX_INDICATOR: &'static str = "0x";

/// Whether `byte` is an ASCII hexadecimal digit, in either case.
pub open spec fn is_hex_digit(byte: u8) -> bool {
    is_digit(byte) || ASCII_UPPERCASE_A <= byte <= ASCII_UPPERCASE_F || ASCII_LOWERCASE_A <= byte
        <= ASCII_LOWERCASE_F
}

/// Whether every byte of `bytes` is an ASCII hexadecimal digit.
pub open spec fn all_hex_digits(bytes: Seq<u8>) -> bool {
    forall|i: int| 0 <= i < bytes.len() ==> is_hex_digit(#[trigger] bytes[i])
}

/// The number from zero to fifteen that the hexadecimal digit `byte` denotes.
pub open spec fn hex_digit_value(byte: u8) -> nat
    recommends
        is_hex_digit(byte),
{
    if ASCII_UPPERCASE_A <= byte <= ASCII_UPPERCASE_F {
        (10 + (byte - ASCII_UPPERCASE_A)) as nat
    } else if ASCII_LOWERCASE_A <= byte <= ASCII_LOWERCASE_F {
        (10 + (byte - ASCII_LOWERCASE_A)) as nat
    } else {
        (byte - ASCII_ZERO) as nat
    }
}

/// The number that `digits` denotes in base sixteen, most significant digit
/// first. The empty run denotes zero.
pub open spec fn hex_value(digits: Seq<u8>) -> nat
    decreases digits.len(),
{
    if digits.len() == 0 {
        0
    } else {
        16 * hex_value(digits.drop_last()) + hex_digit_value(digits.last())
    }
}

/// Whether `chars` begins with the indicator `0x`.
pub open spec fn begins_with_indicator(chars: Seq<u8>) -> bool {
    chars.len() > 1 && chars[0] == ASCII_ZERO && chars[1] == ASCII_LOWERCASE_X
}

/// The digits of a hexadecimal token: all of it, or what follows the indicator.
pub open spec fn hex_digits_of(token: Seq<u8>) -> Seq<u8> {
    if begins_with_indicator(token) {
        token.skip(2)
    } else {
        token
    }
}

/// The bytes of the token `text`.
pub open spec fn token_bytes(text: Seq<char>) -> Seq<u8> {
    encode_utf8(text)
}

/// Whether `token` is a decimal numeral of a number that fits in 64 bits.
pub open spec fn is_decimal_numeral(token: Seq<u8>) -> bool {
    all_digits(token) && decimal_value(token) <= u64::MAX
}

/// Whether `token` is a hexadecimal numeral, with or without the indicator, of
/// a number that fits in 64 bits.
pub open spec fn is_hex_numeral(token: Seq<u8>) -> bool {
    all_hex_digits(hex_digits_of(token)) && hex_value(hex_digits_of(token)) <= u64::MAX
}

/// The hexadecimal text for the decimal numeral `token`.
pub open spec fn enhexed(token: Seq<u8>) -> Seq<char> {
    HEX_INDICATOR@ + numeral(decimal_value(token), 16)
}

/// The decimal text for the hexadecimal numeral `token`.
pub open spec fn dehexed(token: Seq<u8>) -> Seq<char> {
    numeral(hex_value(hex_digits_of(token)), 10)
}

/// A run of hexadecimal digits denotes at least as much as any of its prefixes.
pub proof fn lemma_hex_value_prefix(digits: Seq<u8>, n: int)
    requires
        0 <= n <= digits.len(),
    ensures
        hex_value(digits.take(n)) <= hex_value(digits),
    decreases digits.len(),
{
    if n == digits.len() {
        assert(digits.take(n) == digits);
    } else {
        lemma_hex_value_prefix(digits.drop_last(), n);
        assert(digits.drop_last().take(n) == digits.take(n));
    }
}

/// Whether `byte` is an ASCII hexadecimal digit, in either case.
pub fn is_ascii_hex_digit(byte: u8) -> (digit: bool)
    ensures
        digit == is_hex_digit(byte),
{
    is_ascii_digit(byte) || (ASCII_UPPERCASE_A <= byte && byte <= ASCII_UPPERCASE_F) || (
    ASCII_LOWERCASE_A <= byte && byte <= ASCII_LOWERCASE_F)
}

/// The number that the hexadecimal digit `hex_char` denotes.
pub fn hex_digit_to_integer(hex_char: u8) -> (value: u64)
    requires
        is_hex_digit(hex_char),
    ensures
        value == hex_digit_value(hex_char),
{
    if hex_char >= ASCII_UPPERCASE_A && hex_char <= ASCII_UPPERCASE_F {
        10 + (hex_char - ASCII_UPPERCASE_A) as u64
    } else if hex_char >= ASCII_LOWERCASE_A && hex_char <= ASCII_LOWERCASE_F {
        10 + (hex_char - ASCII_LOWERCASE_A) as u64
    } else {
        (hex_char - ASCII_ZERO) as u64
    }
}

/// Whether `chars` begins with the indicator `0x`.
pub fn has_hex_indicator(chars: &[u8]) -> (indicated: bool)
    ensures
        indicated == begins_with_indicator(chars@),
{
    chars.len() > 1 && chars[0] == ASCII_ZERO && chars[1] == ASCII_LOWERCASE_X
}

/// Reads the hexadecimal digits of `integer_accumulator` as one number and
/// empties it.
pub fn hex_ascii_to_integer(integer_accumulator: &mut Vec<u8>) -> (value: u64)
    requires
        all_hex_digits(old(integer_accumulator)@),
        hex_value(old(integer_accumulator)@) <= u64::MAX,
    ensures
        value == hex_value(old(integer_accumulator)@),
        final(integer_accumulator)@ == Seq::<u8>::empty(),
{
    let mut value: u64 = 0;
    let mut index: usize = 0;
    while index < integer_accumulator.len()
        invariant
            index <= integer_accumulator.len(),
            integer_accumulator@ == old(integer_accumulator)@,
            all_hex_digits(integer_accumulator@),
            hex_value(integer_accumulator@) <= u64::MAX,
            value == hex_value(integer_accumulator@.take(index as int)),
        decreases integer_accumulator.len() - index,
    {
        let hex_char: u8 = integer_accumulator[index];
        proof {
            let longer = integer_accumulator@.take(index + 1);
            assert(longer.drop_last() == integer_accumulator@.take(index as int));
            lemma_hex_value_prefix(integer_accumulator@, index + 1);
        }
        value = value * 16 + hex_digit_to_integer(hex_char);
        index += 1;
    }
    proof {
        assert(integer_accumulator@.take(index as int) == integer_accumulator@);
    }
    integer_accumulator.clear();
    value
}

/// The text of `input` in hexadecimal, behind the indicator `0x`.
pub fn to_hex_chars(input: u64) -> (text: String)
    ensures
        text@ == HEX_INDICATOR@ + numeral(input as nat, 16),
{
    let mut text = String::from_str(HEX_INDICATOR);
    append_numeral(&mut text, input, 16);
    text
}

/// The decimal text of the number that the hexadecimal numeral `input` denotes.
pub fn to_decimal_chars(input: &String) -> (text: String)
    requires
        is_hex_numeral(token_bytes(input@)),
    ensures
        text@ == dehexed(token_bytes(input@)),
{
    let chars = input.as_str().as_bytes();
    let start: usize = if has_hex_indicator(chars) {
        2
    } else {
        0
    };
    let mut digits: Vec<u8> = Vec::new();
    append_range(&mut digits, chars, start, chars.len());
    proof {
        assert(chars@.subrange(start as int, chars@.len() as int) == hex_digits_of(chars@));
    }
    let value = hex_ascii_to_integer(&mut digits);
    let mut text = String::new();
    append_numeral(&mut text, value, 10);
    text
}

/// Whether `token` is a decimal numeral of a number that fits in 64 bits.
pub fn is_decimal_token(token: &String) -> (valid: bool)
    ensures
        valid == is_decimal_numeral(token_bytes(token@)),
{
    let chars = token.as_str().as_bytes();
    let mut value: u64 = 0;
    let mut index: usize = 0;
    while index < chars.len()
        invariant
            index <= chars@.len(),
            chars@ == token_bytes(token@),
            all_digits(chars@.take(index as int)),
            value == decimal_value(chars@.take(index as int)),
        decreases chars@.len() - index,
    {
        let next: u8 = chars[index];
        proof {
            let longer = chars@.take(index + 1);
            assert(longer.drop_last() == chars@.take(index as int));
            if all_digits(chars@) {
                lemma_decimal_value_prefix(chars@, index + 1);
            }
        }
        if !is_ascii_digit(next) {
            return false;
        }
        let digit: u64 = (next - ASCII_ZERO) as u64;
        if value > (u64::MAX - digit) / 10 {
            return false;
        }
        value = value * 10 + digit;
        index += 1;
    }
    proof {
        assert(chars@.take(index as int) == chars@);
    }
    true
}

/// Whether `token` is a hexadecimal numeral, with or without the indicator, of
/// a number that fits in 64 bits.
pub fn is_hex_token(token: &String) -> (valid: bool)
    ensures
        valid == is_hex_numeral(token_bytes(token@)),
{
    let chars = token.as_str().as_bytes();
    let start: usize = if has_hex_indicator(chars) {
        2
    } else {
        0
    };
    let ghost digits = hex_digits_of(chars@);
    let mut value: u64 = 0;
    let mut index: usize = start;
    while index < chars.len()
        invariant
            start <= index <= chars@.len(),
            digits == hex_digits_of(token_bytes(token@)),
            digits == chars@.skip(start as int),
            all_hex_digits(digits.take(index - start)),
            value == hex_value(digits.take(index - start)),
        decreases chars@.len() - index,
    {
        let hex_char: u8 = chars[index];
        proof {
            let longer = digits.take(index - start + 1);
            assert(longer.drop_last() == digits.take(index - start));
            lemma_hex_value_prefix(digits, index - start + 1);
        }
        if !is_ascii_hex_digit(hex_char) {
            return false;
        }
        let digit: u64 = hex_digit_to_integer(hex_char);
        if value > (u64::MAX - digit) / 16 {
            return false;
        }
        value = value * 16 + digit;
        index += 1;
    }
    proof {
        assert(digits.take(index - start) == digits);
    }
    true
}

/// The hexadecimal text for each of the decimal numerals `tokens`, in order.
pub fn enhex(tokens: &[String]) -> (lines: Vec<String>)
    requires
        forall|i: int|
            0 <= i < tokens@.len() ==> is_decimal_numeral(token_bytes(#[trigger] tokens@[i]@)),
    ensures
        lines@.len() == tokens@.len(),
        forall|i: int|
            0 <= i < tokens@.len() ==> (#[trigger] lines@[i])@ == enhexed(token_bytes(tokens@[i]@)),
{
    let mut lines: Vec<String> = Vec::new();
    let mut index: usize = 0;
    while index < tokens.len()
        invariant
            index <= tokens@.len(),
            lines@.len() == index,
            forall|i: int|
                0 <= i < tokens@.len() ==> is_decimal_numeral(token_bytes(#[trigger] tokens@[i]@)),
            forall|i: int|
                0 <= i < index ==> (#[trigger] lines@[i])@ == enhexed(token_bytes(tokens@[i]@)),
        decreases tokens@.len() - index,
    {
        let token = &tokens[index];
        let chars = token.as_str().as_bytes();
        let mut tmp: Vec<u8> = Vec::new();
        append_range(&mut tmp, chars, 0, chars.len());
        proof {
            assert(chars@.subrange(0, chars@.len() as int) == chars@);
        }
        lines.push(to_hex_chars(ascii_to_integer(&mut tmp)));
        index += 1;
    }
    lines
}

/// The decimal text for each of the hexadecimal numerals `tokens`, in order.
pub fn dehex(tokens: &[String]) -> (lines: Vec<String>)
    requires
        forall|i: int|
            0 <= i < tokens@.len() ==> is_hex_numeral(token_bytes(#[trigger] tokens@[i]@)),
    ensures
        lines@.len() == tokens@.len(),
        forall|i: int|
            0 <= i < tokens@.len() ==> (#[trigger] lines@[i])@ == dehexed(token_bytes(tokens@[i]@)),
{
    let mut lines: Vec<String> = Vec::new();
    let mut index: usize = 0;
    while index < tokens.len()
        invariant
            index <= tokens@.len(),
            lines@.len() == index,
            forall|i: int|
                0 <= i < tokens@.len() ==> is_hex_numeral(token_bytes(#[trigger] tokens@[i]@)),
            forall|i: int|
                0 <= i < index ==> (#[trigger] lines@[i])@ == dehexed(token_bytes(tokens@[i]@)),
        decreases tokens@.len() - index,
    {
        lines.push(to_decimal_chars(&tokens[index]));
        index += 1;
    }
    lines
}

} // verus!
