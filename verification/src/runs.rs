//! Maximal runs of digits in a byte sequence.

use vstd::prelude::*;
use crate::digits::{all_digits, is_digit};

verus! {

/// The number of digits that `bytes` ends with.
#[verifier::opaque]
pub open spec fn trailing_digits(bytes: Seq<u8>) -> nat
    decreases bytes.len(),
{
    if bytes.len() > 0 && is_digit(bytes.last()) {
        1 + trailing_digits(bytes.drop_last())
    } else {
        0
    }
}

/// The number of digits that `bytes` begins with.
#[verifier::opaque]
pub open spec fn leading_digits(bytes: Seq<u8>) -> nat
    decreases bytes.len(),
{
    if bytes.len() > 0 && is_digit(bytes.first()) {
        1 + leading_digits(bytes.drop_first())
    } else {
        0
    }
}

/// Whether the bytes of `bytes` from `start` up to `end` are a run of digits
/// that no digit precedes and no digit follows.
pub open spec fn is_maximal_run(bytes: Seq<u8>, start: int, end: int) -> bool {
    &&& 0 <= start < end <= bytes.len()
    &&& all_digits(bytes.subrange(start, end))
    &&& (start == 0 || !is_digit(bytes[start - 1]))
    &&& (end == bytes.len() || !is_digit(bytes[end]))
}

/// Whether a digit at the end of `left` would meet a digit at the start of
/// `right` if the two were joined: a run of digits would then span the seam.
pub open spec fn run_spans_seam(left: Seq<u8>, right: Seq<u8>) -> bool {
    left.len() > 0 && right.len() > 0 && is_digit(left.last()) && is_digit(right.first())
}

/// The trailing digits are a suffix of digits, and no digit stands before them.
pub proof fn lemma_trailing_digits(bytes: Seq<u8>)
    ensures
        trailing_digits(bytes) <= bytes.len(),
        all_digits(bytes.skip(bytes.len() - trailing_digits(bytes))),
        trailing_digits(bytes) < bytes.len() ==> !is_digit(
            bytes[bytes.len() - trailing_digits(bytes) - 1],
        ),
        trailing_digits(bytes) > 0 <==> bytes.len() > 0 && is_digit(bytes.last()),
    decreases bytes.len(),
{
    reveal(trailing_digits);
    if bytes.len() > 0 && is_digit(bytes.last()) {
        let shorter = bytes.drop_last();
        lemma_trailing_digits(shorter);
        let count = trailing_digits(bytes);
        let suffix = bytes.skip(bytes.len() - count);
        assert forall|i: int| 0 <= i < suffix.len() implies is_digit(#[trigger] suffix[i]) by {
            if i < suffix.len() - 1 {
                assert(suffix[i] == shorter.skip(shorter.len() - trailing_digits(shorter))[i]);
            }
        }
    }
}

/// A suffix of digits that no digit precedes is the trailing run.
pub proof fn lemma_trailing_digits_is(bytes: Seq<u8>, count: int)
    requires
        0 <= count <= bytes.len(),
        all_digits(bytes.skip(bytes.len() - count)),
        count < bytes.len() ==> !is_digit(bytes[bytes.len() - count - 1]),
    ensures
        trailing_digits(bytes) == count,
    decreases bytes.len(),
{
    reveal(trailing_digits);
    if count > 0 {
        let suffix = bytes.skip(bytes.len() - count);
        assert(suffix[count - 1] == bytes.last());
        let shorter = bytes.drop_last();
        let shorter_suffix = shorter.skip(shorter.len() - (count - 1));
        assert forall|i: int| 0 <= i < shorter_suffix.len() implies is_digit(
            #[trigger] shorter_suffix[i],
        ) by {
            assert(shorter_suffix[i] == suffix[i]);
        }
        lemma_trailing_digits_is(shorter, count - 1);
    }
}

/// The leading digits are a prefix of digits, and no digit stands behind them.
pub proof fn lemma_leading_digits(bytes: Seq<u8>)
    ensures
        leading_digits(bytes) <= bytes.len(),
        all_digits(bytes.take(leading_digits(bytes) as int)),
        leading_digits(bytes) < bytes.len() ==> !is_digit(bytes[leading_digits(bytes) as int]),
    decreases bytes.len(),
{
    reveal(leading_digits);
    if bytes.len() > 0 && is_digit(bytes.first()) {
        let shorter = bytes.drop_first();
        lemma_leading_digits(shorter);
        let count = leading_digits(bytes);
        let prefix = bytes.take(count as int);
        assert forall|i: int| 0 <= i < prefix.len() implies is_digit(#[trigger] prefix[i]) by {
            if i > 0 {
                assert(prefix[i] == shorter.take(leading_digits(shorter) as int)[i - 1]);
            }
        }
    }
}

/// A prefix of digits that no digit follows is the leading run.
pub proof fn lemma_leading_digits_is(bytes: Seq<u8>, count: int)
    requires
        0 <= count <= bytes.len(),
        all_digits(bytes.take(count)),
        count < bytes.len() ==> !is_digit(bytes[count]),
    ensures
        leading_digits(bytes) == count,
    decreases bytes.len(),
{
    reveal(leading_digits);
    if count > 0 {
        let prefix = bytes.take(count);
        assert(prefix[0] == bytes.first());
        let shorter = bytes.drop_first();
        let shorter_prefix = shorter.take(count - 1);
        assert forall|i: int| 0 <= i < shorter_prefix.len() implies is_digit(
            #[trigger] shorter_prefix[i],
        ) by {
            assert(shorter_prefix[i] == prefix[i + 1]);
        }
        lemma_leading_digits_is(shorter, count - 1);
    }
}

/// Where no run spans the seam, the joined sequence ends with the digits that
/// `right` ends with, or, if `right` is empty, with those that `left` ends with.
pub proof fn lemma_trailing_digits_of_joined(left: Seq<u8>, right: Seq<u8>)
    requires
        !run_spans_seam(left, right),
    ensures
        trailing_digits(left + right) == if right.len() == 0 {
            trailing_digits(left)
        } else {
            trailing_digits(right)
        },
{
    let joined = left + right;
    if right.len() > 0 {
        lemma_trailing_digits(right);
        let count = trailing_digits(right);
        assert(joined.skip(joined.len() - count) == right.skip(right.len() - count));
        if count == right.len() && left.len() > 0 {
            assert(right.skip(0)[0] == right.first());
        }
        lemma_trailing_digits_is(joined, count as int);
    }
}

/// Digits joined to the end of a sequence lengthen the run that it ends with.
pub proof fn lemma_trailing_digits_extended(left: Seq<u8>, digits: Seq<u8>)
    requires
        all_digits(digits),
    ensures
        trailing_digits(left + digits) == trailing_digits(left) + digits.len(),
    decreases digits.len(),
{
    reveal(trailing_digits);
    if digits.len() > 0 {
        assert((left + digits).drop_last() == left + digits.drop_last());
        lemma_trailing_digits_extended(left, digits.drop_last());
    }
}

} // verus!
