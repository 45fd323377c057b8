//! The text of a number in a given base.

use vstd::prelude::*;

verus! {

/// The characters that stand for the digits zero to fifteen.
pub const NUMERALS: &'static str = "0123456789abcdef";

/// The character that stands for `digit`.
pub open spec fn numeral_char(digit: nat) -> char
    recommends
        digit < 16,
{
    NUMERALS@[digit as int]
}

/// The text of `value` in `base`, most significant digit first, without
/// leading zeros: zero is written as one digit.
pub open spec fn numeral(value: nat, base: nat) -> Seq<char>
    recommends
        2 <= base <= 16,
    decreases value,
{
    if base < 2 || value < base {
        seq![numeral_char(value)]
    } else {
        proof {
            assert(value / base < value) by (nonlinear_arith)
                requires
                    base >= 2,
                    value >= base,
            ;
        }
        numeral(value / base, base).push(numeral_char(value % base))
    }
}

/// Appends the text of `value` in `base` to `text`.
pub fn append_numeral(text: &mut String, value: u64, base: u64)
    requires
        2 <= base <= 16,
    ensures
        final(text)@ == old(text)@ + numeral(value as nat, base as nat),
    decreases value,
{
    if value >= base {
        assert(value / base < value) by (nonlinear_arith)
            requires
                base >= 2,
                value >= base,
        ;
        append_numeral(text, value / base, base);
    }
    let digit: usize = (value % base) as usize;
    proof {
        reveal_strlit("0123456789abcdef");
    }
    let character = NUMERALS.substring_ascii(digit, digit + 1);
    text.append(character);
}

} // verus!
