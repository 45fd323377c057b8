//! The laws of rewriting in chunks: however a stream is split, what is written
//! in all is the rewriting of the whole.

use vstd::prelude::*;
use crate::digits::{all_digits, ASCII_ZERO};
use crate::replacement::{left_over, settled};
use crate::rewriting::{
    lemma_rewritten_is_empty, lemma_rewritten_of_joined, lemma_rewritten_open_run,
    lemma_rewritten_run, rewritten,
};
use crate::runs::{
    leading_digits, lemma_leading_digits, lemma_trailing_digits, lemma_trailing_digits_extended,
    lemma_trailing_digits_is, lemma_trailing_digits_of_joined, run_spans_seam, trailing_digits,
};
use crate::stream::StreamState;
use crate::timestamp::{run_class, RunClass, DIGITS_IN_EPOCH_MILLISECOND_TIMESTAMP};

verus! {

/// The state that follows a valid state is valid.
pub proof fn lemma_next_is_valid(state: StreamState, chunk: Seq<u8>, is_final_chunk: bool)
    requires
        state.is_valid(),
    ensures
        state.next(chunk, is_final_chunk).is_valid(),
{
    lemma_trailing_digits(state.pending(chunk));
}

/// An empty chunk that is not the final one writes nothing and changes nothing.
pub proof fn lemma_empty_chunk(state: StreamState)
    requires
        state.is_valid(),
    ensures
        state.written(Seq::empty(), false) == Seq::<u8>::empty(),
        state.next(Seq::empty(), false) == state,
{
    let nothing = Seq::<u8>::empty();
    lemma_leading_digits(nothing);
    assert(state.carry.skip(0) == state.carry);
    lemma_trailing_digits_is(state.carry, state.carry.len() as int);
    lemma_rewritten_is_empty(state.carry.take(0));
}

/// A whole input that arrives as one final chunk is rewritten.
pub proof fn lemma_whole_input_is_rewritten(input: Seq<u8>)
    ensures
        StreamState::start().written(input, true) == rewritten(input),
        StreamState::start().next(input, true) == StreamState::start(),
{
    assert(input.skip(0) == input);
}

/// Whether a stream arrives as one chunk or split in two makes no difference
/// to what is written nor to the state it leaves: from any valid state, what
/// is written for `first` and then for `second` is what is written for the
/// two joined, and the states after them are the same.
pub proof fn lemma_split_chunk(
    state: StreamState,
    first: Seq<u8>,
    second: Seq<u8>,
    is_final_chunk: bool,
)
    requires
        state.is_valid(),
    ensures
        state.written(first + second, is_final_chunk) == state.written(first, false) + state.next(
            first,
            false,
        ).written(second, is_final_chunk),
        state.next(first + second, is_final_chunk) == state.next(first, false).next(
            second,
            is_final_chunk,
        ),
{
    let start = StreamState::start();
    let past = history(state);
    lemma_history(state);
    lemma_split_from_start(past, first, false);
    lemma_split_from_start(past + first, second, is_final_chunk);
    lemma_split_from_start(past, first + second, is_final_chunk);
    assert((past + first) + second == past + (first + second));
    let before = start.written(past, false);
    let in_one = state.written(first + second, is_final_chunk);
    let in_two = state.written(first, false) + state.next(first, false).written(
        second,
        is_final_chunk,
    );
    assert forall|i: int| 0 <= i < in_one.len() implies in_one[i] == in_two[i] by {
        assert((before + in_one)[before.len() + i] == (before + in_two)[before.len() + i]);
    }
}

/// Whether a stream is ended with its last chunk or by an empty chunk behind
/// it makes no difference to what is written.
pub proof fn lemma_end_behind_last_chunk(state: StreamState, chunk: Seq<u8>)
    requires
        state.is_valid(),
    ensures
        state.written(chunk, true) == state.written(chunk, false) + state.next(
            chunk,
            false,
        ).written(Seq::empty(), true),
{
    lemma_split_chunk(state, chunk, Seq::empty(), true);
    assert(chunk + Seq::<u8>::empty() == chunk);
}

/// However a stream is split into chunks, of any sizes and in any number, what
/// is written in all is what is written for the whole stream as one chunk.
pub proof fn lemma_chunking_makes_no_difference(state: StreamState, chunks: Seq<Seq<u8>>)
    requires
        state.is_valid(),
    ensures
        state.written_in_all(chunks) == state.written(chunks.flatten(), true),
    decreases chunks.len(),
{
    if chunks.len() > 0 {
        lemma_next_is_valid(state, chunks.first(), false);
        lemma_chunking_makes_no_difference(state.next(chunks.first(), false), chunks.drop_first());
        lemma_split_chunk(state, chunks.first(), chunks.drop_first().flatten(), true);
    }
}

/// A stream that arrives in chunks from the start is rewritten as a whole.
pub proof fn lemma_chunked_stream_is_rewritten(chunks: Seq<Seq<u8>>)
    ensures
        StreamState::start().written_in_all(chunks) == rewritten(chunks.flatten()),
{
    lemma_chunking_makes_no_difference(StreamState::start(), chunks);
    lemma_whole_input_is_rewritten(chunks.flatten());
}

/// Whether it makes no difference, from `state`, that `first` and `second`
/// arrive apart and not as one chunk.
spec fn split_changes_nothing(
    state: StreamState,
    first: Seq<u8>,
    second: Seq<u8>,
    is_final_chunk: bool,
) -> bool {
    &&& state.written(first + second, is_final_chunk) == state.written(first, false) + state.next(
        first,
        false,
    ).written(second, is_final_chunk)
    &&& state.next(first + second, is_final_chunk) == state.next(first, false).next(
        second,
        is_final_chunk,
    )
}

/// A stream that gives rise to `state`: the carry, or digits enough for a run
/// that is too long.
spec fn history(state: StreamState) -> Seq<u8> {
    if state.in_long_run {
        Seq::new((DIGITS_IN_EPOCH_MILLISECOND_TIMESTAMP + 1) as nat, |i: int| ASCII_ZERO)
    } else {
        state.carry
    }
}

/// A valid state is the state after its history, for which the digits of a
/// run that is too long have been written and nothing else.
proof fn lemma_history(state: StreamState)
    requires
        state.is_valid(),
    ensures
        StreamState::start().next(history(state), false) == state,
        StreamState::start().written(history(state), false) == if state.in_long_run {
            history(state)
        } else {
            Seq::empty()
        },
{
    let past = history(state);
    lemma_written_from_start(past, false);
    lemma_trailing_digits_is(past, past.len() as int);
    lemma_rewritten_is_empty(past.take(0));
    if state.in_long_run {
        assert(state.carry == Seq::<u8>::empty());
    }
}

/// From the start, what is pending is the chunk, and what is written is what
/// is settled of it and, behind that, the digits of a run that is too long.
proof fn lemma_written_from_start(input: Seq<u8>, is_final_chunk: bool)
    ensures
        StreamState::start().pending(input) == input,
        StreamState::start().written(input, is_final_chunk) == settled(input, is_final_chunk) + (
        if run_class(left_over(input, is_final_chunk), true) == RunClass::Unrecognized {
            input.skip(input.len() - left_over(input, is_final_chunk))
        } else {
            Seq::empty()
        }),
{
    assert(input.skip(0) == input);
}

/// In a run that is too long, what is written for a chunk is the digits it
/// begins with and, behind them, what is written from the start for the rest.
proof fn lemma_written_in_long_run(chunk: Seq<u8>, is_final_chunk: bool)
    ensures
        (StreamState { carry: Seq::empty(), in_long_run: true }).written(chunk, is_final_chunk)
            == chunk.take(leading_digits(chunk) as int) + StreamState::start().written(
            chunk.skip(leading_digits(chunk) as int),
            is_final_chunk,
        ),
{
    lemma_written_from_start(chunk.skip(leading_digits(chunk) as int), is_final_chunk);
}

/// Nothing is written from the start for an empty chunk.
proof fn lemma_nothing_written_for_nothing(is_final_chunk: bool)
    ensures
        StreamState::start().written(Seq::empty(), is_final_chunk) == Seq::<u8>::empty(),
{
    let nothing = Seq::<u8>::empty();
    lemma_trailing_digits(nothing);
    lemma_rewritten_is_empty(nothing.take(0));
}

/// What holds of a first part that ends inside a run that is too long.
proof fn lemma_first_part_in_long_run(first: Seq<u8>)
    requires
        StreamState::start().next(first, false).in_long_run,
    ensures
        trailing_digits(first) > DIGITS_IN_EPOCH_MILLISECOND_TIMESTAMP,
        trailing_digits(first) <= first.len(),
        all_digits(first.skip(first.len() - trailing_digits(first))),
        !run_spans_seam(
            first.take(first.len() - trailing_digits(first)),
            first.skip(first.len() - trailing_digits(first)),
        ),
        StreamState::start().next(first, false) == (StreamState {
            carry: Seq::empty(),
            in_long_run: true,
        }),
        StreamState::start().written(first, false) == rewritten(
            first.take(first.len() - trailing_digits(first)),
        ) + first.skip(first.len() - trailing_digits(first)),
{
    lemma_written_from_start(first, false);
    lemma_trailing_digits(first);
}

/// The split law from the start, where the first part leaves digits to carry.
proof fn lemma_split_with_carry(first: Seq<u8>, second: Seq<u8>, is_final_chunk: bool)
    requires
        !StreamState::start().next(first, false).in_long_run,
    ensures
        split_changes_nothing(StreamState::start(), first, second, is_final_chunk),
{
    let start = StreamState::start();
    let joined = first + second;
    lemma_written_from_start(first, false);
    lemma_written_from_start(joined, is_final_chunk);
    lemma_trailing_digits(first);
    let open = trailing_digits(first);
    let head = first.take(first.len() - open);
    let tail = first.skip(first.len() - open);
    let pending = tail + second;
    assert(second.skip(0) == second);
    assert(joined == head + pending);
    if is_final_chunk {
        assert(pending.take(pending.len() as int) == pending);
        lemma_rewritten_of_joined(head, pending);
    } else {
        lemma_trailing_digits_of_joined(head, pending);
        lemma_trailing_digits(pending);
        let still_open = trailing_digits(pending);
        let settled_part = pending.take(pending.len() - still_open);
        let open_part = pending.skip(pending.len() - still_open);
        assert(joined.take(joined.len() - still_open) == head + settled_part);
        assert(joined.skip(joined.len() - still_open) == open_part);
        lemma_rewritten_of_joined(head, settled_part);
        let rest = if run_class(still_open, true) == RunClass::Unrecognized {
            open_part
        } else {
            Seq::empty()
        };
        assert(rewritten(head) + rewritten(settled_part) + rest == rewritten(head) + (rewritten(
            settled_part,
        ) + rest));
    }
}

/// The split law from the start, where the first part ends inside a run that
/// is too long and the second part is digits alone.
proof fn lemma_split_long_run_goes_on(first: Seq<u8>, second: Seq<u8>, is_final_chunk: bool)
    requires
        StreamState::start().next(first, false).in_long_run,
        leading_digits(second) == second.len(),
    ensures
        split_changes_nothing(StreamState::start(), first, second, is_final_chunk),
{
    let start = StreamState::start();
    let middle = start.next(first, false);
    let joined = first + second;
    lemma_first_part_in_long_run(first);
    lemma_nothing_written_for_nothing(is_final_chunk);
    lemma_written_from_start(joined, is_final_chunk);
    lemma_leading_digits(second);
    let open = trailing_digits(first);
    let head = first.take(first.len() - open);
    let tail = first.skip(first.len() - open);
    assert(middle.written(second, is_final_chunk) == second);
    lemma_trailing_digits_extended(first, second);
    let run = tail + second;
    assert(joined.take(joined.len() - trailing_digits(joined)) == head);
    assert(joined.skip(joined.len() - trailing_digits(joined)) == run);
    assert(rewritten(head) + run == rewritten(head) + tail + second);
    if is_final_chunk {
        lemma_rewritten_open_run(joined);
    }
}

/// The split law from the start, where the first part ends inside a run that
/// is too long and the second part ends that run.
proof fn lemma_split_long_run_ends(first: Seq<u8>, second: Seq<u8>, is_final_chunk: bool)
    requires
        StreamState::start().next(first, false).in_long_run,
        leading_digits(second) < second.len(),
    ensures
        split_changes_nothing(StreamState::start(), first, second, is_final_chunk),
{
    let start = StreamState::start();
    let joined = first + second;
    let nothing = Seq::<u8>::empty();
    lemma_first_part_in_long_run(first);
    lemma_written_in_long_run(second, is_final_chunk);
    lemma_written_from_start(joined, is_final_chunk);
    lemma_leading_digits(second);
    let open = trailing_digits(first);
    let head = first.take(first.len() - open);
    let tail = first.skip(first.len() - open);
    let passed = second.take(leading_digits(second) as int);
    let rest = second.skip(leading_digits(second) as int);
    lemma_written_from_start(rest, is_final_chunk);
    let run = tail + passed;
    let before = head + run;
    assert(joined == before + rest);
    lemma_rewritten_of_joined(head, run);
    lemma_rewritten_run(run);
    if is_final_chunk {
        lemma_rewritten_of_joined(before, rest);
        assert(rewritten(head) + run + rewritten(rest) + nothing == rewritten(head) + tail + (
        passed + (rewritten(rest) + nothing)));
    } else {
        lemma_trailing_digits(rest);
        let still_open = trailing_digits(rest);
        lemma_trailing_digits_of_joined(before, rest);
        let settled_part = rest.take(rest.len() - still_open);
        let open_part = rest.skip(rest.len() - still_open);
        assert(joined.take(joined.len() - still_open) == before + settled_part);
        assert(joined.skip(joined.len() - still_open) == open_part);
        lemma_rewritten_of_joined(before, settled_part);
        let last = if run_class(still_open, true) == RunClass::Unrecognized {
            open_part
        } else {
            nothing
        };
        assert(rewritten(head) + run + rewritten(settled_part) + last == rewritten(head) + tail + (
        passed + (rewritten(settled_part) + last)));
    }
}

/// The split law from the start.
proof fn lemma_split_from_start(first: Seq<u8>, second: Seq<u8>, is_final_chunk: bool)
    ensures
        split_changes_nothing(StreamState::start(), first, second, is_final_chunk),
{
    lemma_leading_digits(second);
    if !StreamState::start().next(first, false).in_long_run {
        lemma_split_with_carry(first, second, is_final_chunk);
    } else if leading_digits(second) == second.len() {
        lemma_split_long_run_goes_on(first, second, is_final_chunk);
    } else {
        lemma_split_long_run_ends(first, second, is_final_chunk);
    }
}

} // verus!
