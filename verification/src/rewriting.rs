//! What the rewriting of a whole byte sequence is, and the laws it obeys.

use vstd::prelude::*;
use crate::digits::{all_digits, is_digit};
use crate::runs::{
    is_maximal_run, lemma_trailing_digits, lemma_trailing_digits_is,
    lemma_trailing_digits_of_joined, run_spans_seam, trailing_digits,
};
use crate::timestamp::{
    is_timestamp_length, millisecond_timestamp_text, resolved_run, second_timestamp_text,
    DIGITS_IN_EPOCH_MILLISECOND_TIMESTAMP, DIGITS_IN_EPOCH_SECOND_TIMESTAMP,
};

verus! {

/// The rewriting of `input`, read from its end. A byte that is no digit stays
/// as it is, behind the rewriting of what precedes it. The digits that `input`
/// ends with are one run that has ended: what is written for the run stands
/// behind the rewriting of what precedes the run.
#[verifier::opaque]
pub open spec fn rewritten(input: Seq<u8>) -> Seq<u8>
    decreases input.len(),
{
    if input.len() == 0 {
        input
    } else if !is_digit(input.last()) {
        rewritten(input.drop_last()).push(input.last())
    } else {
        let start = input.len() - trailing_digits(input);
        proof {
            lemma_trailing_digits(input);
        }
        rewritten(input.take(start)) + resolved_run(input.skip(start))
    }
}

/// Whether no run of digits in `bytes` has the length of a timestamp.
pub open spec fn has_no_timestamp(bytes: Seq<u8>) -> bool {
    forall|start: int, end: int| #[trigger]
        is_maximal_run(bytes, start, end) ==> !is_timestamp_length(end - start)
}

/// A sequence of digits alone is one run: its rewriting is what is written
/// for that run.
pub proof fn lemma_rewritten_run(run: Seq<u8>)
    requires
        all_digits(run),
    ensures
        rewritten(run) == resolved_run(run),
{
    reveal(rewritten);
    if run.len() > 0 {
        assert(run.skip(0) == run);
        lemma_trailing_digits_is(run, run.len() as int);
        assert(rewritten(run.take(0)) == Seq::<u8>::empty());
    }
}

/// The digits that a sequence ends with are resolved on their own, whether
/// there are any or not.
pub proof fn lemma_rewritten_open_run(input: Seq<u8>)
    ensures
        rewritten(input) == rewritten(input.take(input.len() - trailing_digits(input)))
            + resolved_run(input.skip(input.len() - trailing_digits(input))),
{
    reveal(rewritten);
    lemma_trailing_digits(input);
    if trailing_digits(input) == 0 {
        assert(input.take(input.len() as int) == input);
    }
}

/// Only the empty sequence is rewritten to nothing.
pub proof fn lemma_rewritten_is_empty(input: Seq<u8>)
    ensures
        rewritten(input).len() == 0 <==> input.len() == 0,
{
    reveal(rewritten);
    if input.len() > 0 && is_digit(input.last()) {
        lemma_trailing_digits(input);
    }
}

/// Rewriting goes through a seam that no run of digits spans: where `left`
/// does not end with a digit or `right` does not begin with one, the rewriting
/// of the two joined is the rewriting of `left` followed by that of `right`.
pub proof fn lemma_rewritten_of_joined(left: Seq<u8>, right: Seq<u8>)
    requires
        !run_spans_seam(left, right),
    ensures
        rewritten(left + right) == rewritten(left) + rewritten(right),
    decreases right.len(),
{
    reveal(rewritten);
    let joined = left + right;
    if left.len() > 0 && right.len() > 0 {
        if !is_digit(right.last()) {
            assert(joined.drop_last() == left + right.drop_last());
            lemma_rewritten_of_joined(left, right.drop_last());
        } else {
            lemma_trailing_digits(right);
            lemma_trailing_digits_of_joined(left, right);
            let count = trailing_digits(right);
            let before = right.take(right.len() - count);
            assert(joined.take(joined.len() - count) == left + before);
            assert(joined.skip(joined.len() - count) == right.skip(right.len() - count));
            lemma_rewritten_of_joined(left, before);
        }
    }
}

/// Every byte that is no digit is kept, in its place: the rewriting of `input`
/// is the rewriting of what precedes the byte, the byte itself, and the
/// rewriting of what follows it.
pub proof fn lemma_other_byte_is_kept(input: Seq<u8>, position: int)
    requires
        0 <= position < input.len(),
        !is_digit(input[position]),
    ensures
        rewritten(input) == rewritten(input.take(position)).push(input[position]) + rewritten(
            input.skip(position + 1),
        ),
{
    reveal(rewritten);
    let before = input.take(position + 1);
    let after = input.skip(position + 1);
    assert(input == before + after);
    assert(before.drop_last() == input.take(position));
    lemma_rewritten_of_joined(before, after);
}

/// Every maximal run of digits is resolved on its own: the rewriting of
/// `input` is the rewriting of what precedes the run, what is written for the
/// run, and the rewriting of what follows it.
pub proof fn lemma_run_is_resolved(input: Seq<u8>, start: int, end: int)
    requires
        is_maximal_run(input, start, end),
    ensures
        rewritten(input) == rewritten(input.take(start)) + resolved_run(
            input.subrange(start, end),
        ) + rewritten(input.skip(end)),
{
    let before = input.take(start);
    let run = input.subrange(start, end);
    let after = input.skip(end);
    assert(input == before + (run + after));
    lemma_rewritten_of_joined(before, run + after);
    lemma_rewritten_of_joined(run, after);
    lemma_rewritten_run(run);
}

/// A maximal run of exactly ten digits is replaced by the bracketed date-time
/// of the second that its decimal value counts.
pub proof fn lemma_second_timestamp_is_replaced(input: Seq<u8>, start: int, end: int)
    requires
        is_maximal_run(input, start, end),
        end - start == DIGITS_IN_EPOCH_SECOND_TIMESTAMP,
    ensures
        rewritten(input) == rewritten(input.take(start)) + second_timestamp_text(
            input.subrange(start, end),
        ) + rewritten(input.skip(end)),
{
    lemma_run_is_resolved(input, start, end);
}

/// A maximal run of exactly thirteen digits is replaced by the bracketed
/// date-time of the millisecond that its decimal value counts.
pub proof fn lemma_millisecond_timestamp_is_replaced(input: Seq<u8>, start: int, end: int)
    requires
        is_maximal_run(input, start, end),
        end - start == DIGITS_IN_EPOCH_MILLISECOND_TIMESTAMP,
    ensures
        rewritten(input) == rewritten(input.take(start)) + millisecond_timestamp_text(
            input.subrange(start, end),
        ) + rewritten(input.skip(end)),
{
    lemma_run_is_resolved(input, start, end);
}

/// A maximal run of any other length stays as it is.
pub proof fn lemma_other_run_is_kept(input: Seq<u8>, start: int, end: int)
    requires
        is_maximal_run(input, start, end),
        !is_timestamp_length(end - start),
    ensures
        rewritten(input) == rewritten(input.take(start)) + input.subrange(start, end) + rewritten(
            input.skip(end),
        ),
{
    lemma_run_is_resolved(input, start, end);
}

/// A sequence in which no run of digits has the length of a timestamp is
/// rewritten to itself.
pub proof fn lemma_nothing_to_rewrite(input: Seq<u8>)
    requires
        has_no_timestamp(input),
    ensures
        rewritten(input) == input,
    decreases input.len(),
{
    reveal(rewritten);
    if input.len() > 0 && !is_digit(input.last()) {
        let shorter = input.drop_last();
        assert forall|start: int, end: int| #[trigger]
            is_maximal_run(shorter, start, end) implies !is_timestamp_length(end - start) by {
            assert(shorter.subrange(start, end) == input.subrange(start, end));
            assert(is_maximal_run(input, start, end));
        }
        lemma_nothing_to_rewrite(shorter);
    } else if input.len() > 0 {
        lemma_trailing_digits(input);
        let first = input.len() - trailing_digits(input);
        let before = input.take(first);
        assert(is_maximal_run(input, first, input.len() as int));
        assert forall|start: int, end: int| #[trigger]
            is_maximal_run(before, start, end) implies !is_timestamp_length(end - start) by {
            assert(before.subrange(start, end) == input.subrange(start, end));
            if end == first {
                assert(before.subrange(start, end)[end - start - 1] == input[first - 1]);
            }
            assert(is_maximal_run(input, start, end));
        }
        lemma_nothing_to_rewrite(before);
    }
}

} // verus!
