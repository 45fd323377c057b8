//! Rewrites a stream that arrives in chunks, carrying an open run of digits
//! from one chunk to the next.

use vstd::prelude::*;
use vstd::slice::slice_subrange;
use crate::bytes::{append_bytes, append_range};
use crate::chunking::{lemma_empty_chunk, lemma_split_chunk, lemma_whole_input_is_rewritten};
use crate::digits::{all_digits, is_ascii_digit};
use crate::replacement::{left_over, replace_epoch_timestamps_in_buffer, settled};
use crate::rewriting::{lemma_rewritten_is_empty, rewritten};
use crate::runs::{leading_digits, lemma_leading_digits_is, lemma_trailing_digits};
use crate::timestamp::{classify_run, run_class, RunClass, DIGITS_IN_EPOCH_MILLISECOND_TIMESTAMP};

verus! {

/// What is kept between two chunks of a stream.
pub struct StreamState {
    /// The digits of a run that has not ended and may still be a timestamp.
    /// They have not been written.
    pub carry: Seq<u8>,
    /// Whether the stream so far ends inside a run that is already too long
    /// for a timestamp. Its digits have been written as they are.
    pub in_long_run: bool,
}

impl StreamState {
    /// The state before the first chunk.
    pub open spec fn start() -> StreamState {
        StreamState { carry: Seq::empty(), in_long_run: false }
    }

    /// The carry holds digits alone, no more than the longest timestamp has,
    /// and none inside a run that is too long.
    pub open spec fn is_valid(self) -> bool {
        &&& all_digits(self.carry)
        &&& self.carry.len() <= DIGITS_IN_EPOCH_MILLISECOND_TIMESTAMP
        &&& self.in_long_run ==> self.carry.len() == 0
    }

    /// How many bytes at the start of `chunk` go on a run that is too long.
    pub open spec fn passed_through(self, chunk: Seq<u8>) -> nat {
        if self.in_long_run {
            leading_digits(chunk)
        } else {
            0
        }
    }

    /// The bytes that are yet to be rewritten once `chunk` has arrived: the
    /// carry and, behind it, the chunk without the bytes that pass through.
    pub open spec fn pending(self, chunk: Seq<u8>) -> Seq<u8> {
        self.carry + chunk.skip(self.passed_through(chunk) as int)
    }

    /// What is written when `chunk` arrives. The digits that go on a run that
    /// is too long pass through. Of the pending bytes, all but the digits left
    /// over are rewritten. The digits left over are written as they are as
    /// soon as their run is too long for a timestamp.
    pub open spec fn written(self, chunk: Seq<u8>, is_final_chunk: bool) -> Seq<u8> {
        let passed = chunk.take(self.passed_through(chunk) as int);
        let pending = self.pending(chunk);
        let open = left_over(pending, is_final_chunk);
        let long_run = if run_class(open, true) == RunClass::Unrecognized {
            pending.skip(pending.len() - open)
        } else {
            Seq::empty()
        };
        passed + settled(pending, is_final_chunk) + long_run
    }

    /// The state after `chunk`. After the final chunk nothing is kept. Digits
    /// alone do not end a run that is too long. Otherwise the digits left over
    /// are carried, unless their run is too long for a timestamp.
    pub open spec fn next(self, chunk: Seq<u8>, is_final_chunk: bool) -> StreamState {
        let pending = self.pending(chunk);
        let open = left_over(pending, is_final_chunk);
        if is_final_chunk {
            StreamState::start()
        } else if self.in_long_run && leading_digits(chunk) == chunk.len() {
            self
        } else if run_class(open, true) == RunClass::Unrecognized {
            StreamState { carry: Seq::empty(), in_long_run: true }
        } else {
            StreamState { carry: pending.skip(pending.len() - open), in_long_run: false }
        }
    }

    /// What is written in all when the `chunks` arrive one after the other and
    /// the stream then ends.
    pub open spec fn written_in_all(self, chunks: Seq<Seq<u8>>) -> Seq<u8>
        decreases chunks.len(),
    {
        if chunks.len() == 0 {
            self.written(Seq::empty(), true)
        } else {
            self.written(chunks.first(), false) + self.next(
                chunks.first(),
                false,
            ).written_in_all(chunks.drop_first())
        }
    }
}

/// Rewrites one stream, chunk by chunk.
pub struct StreamRewriter {
    carry: Vec<u8>,
    in_long_run: bool,
}

impl View for StreamRewriter {
    type V = StreamState;

    closed spec fn view(&self) -> StreamState {
        StreamState { carry: self.carry@, in_long_run: self.in_long_run }
    }
}

impl StreamRewriter {
    #[verifier::type_invariant]
    closed spec fn holds_valid_state(&self) -> bool {
        self@.is_valid()
    }

    /// A rewriter at the start of a stream.
    pub fn new() -> (rewriter: StreamRewriter)
        ensures
            rewriter@ == StreamState::start(),
    {
        StreamRewriter { carry: Vec::new(), in_long_run: false }
    }

    /// How many digits are carried to the next chunk.
    pub fn carry_length(&self) -> (length: usize)
        ensures
            length == self@.carry.len(),
            self@.is_valid(),
    {
        proof {
            use_type_invariant(self);
        }
        self.carry.len()
    }

    /// Whether the stream so far ends inside a run that is too long for a
    /// timestamp.
    pub fn is_in_long_run(&self) -> (in_long_run: bool)
        ensures
            in_long_run == self@.in_long_run,
            self@.is_valid(),
    {
        proof {
            use_type_invariant(self);
        }
        self.in_long_run
    }

    /// Takes the next chunk of the stream and hands back what is to be
    /// written for it.
    pub fn process_chunk(&mut self, chunk: &[u8], is_final_chunk: bool) -> (output: Vec<u8>)
        ensures
            old(self)@.is_valid(),
            output@ == old(self)@.written(chunk@, is_final_chunk),
            final(self)@ == old(self)@.next(chunk@, is_final_chunk),
            final(self)@.is_valid(),
    {
        proof {
            use_type_invariant(&*self);
        }
        let mut output: Vec<u8> = Vec::new();
        let mut passed: usize = 0;
        if self.in_long_run {
            while passed < chunk.len() && is_ascii_digit(chunk[passed])
                invariant
                    passed <= chunk@.len(),
                    all_digits(chunk@.take(passed as int)),
                    output@ == chunk@.take(passed as int),
                decreases chunk@.len() - passed,
            {
                output.push(chunk[passed]);
                passed += 1;
            }
            proof {
                lemma_leading_digits_is(chunk@, passed as int);
            }
            // Digits alone: the long run goes on into the next chunk.
            if !is_final_chunk && passed == chunk.len() {
                proof {
                    let nothing = Seq::<u8>::empty();
                    assert(chunk@.skip(passed as int) == nothing);
                    lemma_trailing_digits(nothing);
                    lemma_rewritten_is_empty(nothing.take(0));
                }
                return output;
            }
        }
        let mut buffer: Vec<u8> = Vec::new();
        append_bytes(&mut buffer, &self.carry);
        append_range(&mut buffer, chunk, passed, chunk.len());
        let replacement = replace_epoch_timestamps_in_buffer(&buffer, buffer.len(), is_final_chunk);
        proof {
            assert(buffer@.take(buffer@.len() as int) == buffer@);
            lemma_trailing_digits(buffer@);
        }
        let open: usize = replacement.left_over_data as usize;
        let first_open: usize = buffer.len() - open;
        proof {
            lemma_rewritten_is_empty(buffer@.take(first_open as int));
        }
        // Where nothing is settled, the data handed back is the buffer itself,
        // all of whose digits are still open: none of it is written yet.
        if first_open != 0 {
            append_bytes(&mut output, &replacement.data);
        }
        let open_run = buffer.split_off(first_open);
        if is_final_chunk {
            *self = StreamRewriter::new();
        } else {
            match classify_run(&open_run, true) {
                RunClass::Unrecognized => {
                    append_bytes(&mut output, &open_run);
                    *self = StreamRewriter { carry: Vec::new(), in_long_run: true };
                },
                _ => {
                    *self = StreamRewriter { carry: open_run, in_long_run: false };
                },
            }
        }
        output
    }
}

/// Rewrites `input` as a stream read in chunks of `buffer_size` bytes.
pub fn process_input(input: &[u8], buffer_size: usize) -> (output: Vec<u8>)
    requires
        buffer_size >= 1,
    ensures
        output@ == rewritten(input@),
{
    let ghost start = StreamState::start();
    let mut rewriter = StreamRewriter::new();
    let mut output: Vec<u8> = Vec::new();
    let mut position: usize = 0;
    proof {
        lemma_empty_chunk(start);
    }
    while input.len() - position > buffer_size
        invariant
            buffer_size >= 1,
            position <= input@.len(),
            start == StreamState::start(),
            rewriter@ == start.next(input@.take(position as int), false),
            output@ == start.written(input@.take(position as int), false),
        decreases input@.len() - position,
    {
        let chunk = slice_subrange(input, position, position + buffer_size);
        let written = rewriter.process_chunk(chunk, false);
        proof {
            lemma_split_chunk(start, input@.take(position as int), chunk@, false);
            assert(input@.take(position as int) + chunk@ == input@.take(
                position + buffer_size,
            ));
        }
        append_bytes(&mut output, &written);
        position += buffer_size;
    }
    let chunk = slice_subrange(input, position, input.len());
    let written = rewriter.process_chunk(chunk, true);
    proof {
        lemma_split_chunk(start, input@.take(position as int), chunk@, true);
        assert(input@.take(position as int) + chunk@ == input@);
        lemma_whole_input_is_rewritten(input@);
    }
    append_bytes(&mut output, &written);
    output
}

} // verus!
