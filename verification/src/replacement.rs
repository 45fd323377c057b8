//! Rewrites one buffer of input, leaving open the run of digits it ends with.

use vstd::prelude::*;
use crate::bytes::append_range;
use crate::digits::{all_digits, is_ascii_digit};
use crate::rewriting::{lemma_rewritten_is_empty, lemma_rewritten_open_run, rewritten};
use crate::runs::{lemma_trailing_digits, trailing_digits};
use crate::timestamp::process_possible_timestamp;

verus! {

/// The outcome of rewriting one buffer.
pub struct ReplacementResult {
    /// The rewritten bytes.
    pub data: Vec<u8>,
    /// How many digits at the end of the buffer belong to a run that has not
    /// ended, and are not part of `data` unless `data` is the buffer itself.
    pub left_over_data: u64,
}

/// How many bytes at the end of `buffer` are left unresolved: none at the end
/// of the input, and otherwise the digits that the buffer ends with, since
/// their run may go on in what follows.
pub open spec fn left_over(buffer: Seq<u8>, end_of_input: bool) -> nat {
    if end_of_input {
        0
    } else {
        trailing_digits(buffer)
    }
}

/// The rewriting of `buffer` without the bytes that are left unresolved.
pub open spec fn settled(buffer: Seq<u8>, end_of_input: bool) -> Seq<u8> {
    rewritten(buffer.take(buffer.len() - left_over(buffer, end_of_input)))
}

/// The bytes handed back for `buffer`: what is settled of it, or, where
/// nothing is, the buffer as it is.
pub open spec fn replacement_data(buffer: Seq<u8>, end_of_input: bool) -> Seq<u8> {
    if settled(buffer, end_of_input).len() == 0 {
        buffer
    } else {
        settled(buffer, end_of_input)
    }
}

/// Rewrites all of `input`.
pub fn replace_epoch_timestamps(input: &Vec<u8>, end_of_input: bool) -> (result: ReplacementResult)
    ensures
        result.data@ == replacement_data(input@, end_of_input),
        result.left_over_data == left_over(input@, end_of_input),
        end_of_input ==> result.data@ == rewritten(input@),
{
    proof {
        assert(input@.take(input@.len() as int) == input@);
    }
    replace_epoch_timestamps_in_buffer(input, input.len(), end_of_input)
}

/// Rewrites the first `input_length` bytes of `input`.
pub fn replace_epoch_timestamps_in_buffer(
    input: &Vec<u8>,
    input_length: usize,
    end_of_input: bool,
) -> (result: ReplacementResult)
    requires
        input_length <= input@.len(),
    ensures
        result.data@ == replacement_data(input@.take(input_length as int), end_of_input),
        result.left_over_data == left_over(input@.take(input_length as int), end_of_input),
        end_of_input ==> result.data@ == rewritten(input@.take(input_length as int)),
{
    let ghost buffer = input@.take(input_length as int);
    let mut replaced: Vec<u8> = Vec::new();
    let mut integer_accumulator: Vec<u8> = Vec::new();
    let mut index: usize = 0;
    proof {
        lemma_trailing_digits(buffer.take(0));
        lemma_rewritten_is_empty(buffer.take(0));
    }
    while index < input_length
        invariant
            index <= input_length <= input@.len(),
            buffer == input@.take(input_length as int),
            all_digits(integer_accumulator@),
            integer_accumulator@.len() == trailing_digits(buffer.take(index as int)),
            integer_accumulator@ == buffer.subrange(
                index - integer_accumulator@.len(),
                index as int,
            ),
            replaced@ == rewritten(buffer.take(index - integer_accumulator@.len())),
        decreases input_length - index,
    {
        let byte: u8 = input[index];
        let ghost seen = buffer.take(index as int);
        let ghost longer = buffer.take(index + 1);
        proof {
            reveal(trailing_digits);
            reveal(rewritten);
            assert(longer.drop_last() == seen);
            lemma_trailing_digits(seen);
            lemma_rewritten_open_run(seen);
            assert(seen.take(seen.len() - trailing_digits(seen)) == buffer.take(
                index - integer_accumulator@.len(),
            ));
            assert(seen.skip(seen.len() - trailing_digits(seen)) == integer_accumulator@);
        }
        if is_ascii_digit(byte) {
            integer_accumulator.push(byte);
        } else {
            process_possible_timestamp(&mut integer_accumulator, &mut replaced);
            replaced.push(byte);
        }
        index += 1;
    }
    proof {
        assert(buffer.take(index as int) == buffer);
        lemma_rewritten_open_run(buffer);
    }
    if end_of_input {
        process_possible_timestamp(&mut integer_accumulator, &mut replaced);
        proof {
            lemma_rewritten_is_empty(buffer);
            assert(buffer.take(buffer.len() as int) == buffer);
        }
    }
    if replaced.len() != 0 {
        ReplacementResult { data: replaced, left_over_data: integer_accumulator.len() as u64 }
    } else {
        append_range(&mut replaced, input.as_slice(), 0, input_length);
        ReplacementResult { data: replaced, left_over_data: integer_accumulator.len() as u64 }
    }
}

} // verus!
