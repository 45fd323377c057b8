//! Classifies a run of digits by its length and renders the recognized ones.

use vstd::prelude::*;
use crate::bytes::append_bytes;
use crate::calendar::{format_utc, utc_text, MILLISECOND_PATTERN, SECOND_PATTERN};
use crate::digits::{
    all_digits, ascii_to_integer, decimal_value, lemma_decimal_value_bound, power_of_ten,
};

verus! {

pub const DIGITS_IN_EPOCH_SECOND_TIMESTAMP: usize = 10;

pub const DIGITS_IN_EPOCH_MILLISECOND_TIMESTAMP: usize = 13;

pub const MILLISECONDS_PER_SECOND: u64 = 1_000;

pub const NANOS_PER_MILLISECOND: u64 = 1_000_000;

pub const OPENING_BRACKET: u8 = 91;

pub const CLOSING_BRACKET: u8 = 93;

/// What can be said of a run of digits from its length.
#[derive(Clone, Copy, Debug, PartialEq, Eq)]
pub enum RunClass {
    /// The run may still grow and is not yet too long: nothing is decided.
    Indeterminate,
    /// Ten digits: whole seconds since the epoch.
    SecondTimestamp,
    /// Thirteen digits: milliseconds since the epoch.
    MillisecondTimestamp,
    /// Any other length, or too long already: the digits stay as they are.
    Unrecognized,
}

/// Whether a run of `length` digits that has ended is a timestamp.
pub open spec fn is_timestamp_length(length: int) -> bool {
    length == DIGITS_IN_EPOCH_SECOND_TIMESTAMP || length == DIGITS_IN_EPOCH_MILLISECOND_TIMESTAMP
}

/// The class of a run of `length` digits. A run that `may_grow` has not ended:
/// it is undecided until it is longer than every timestamp. A run that has
/// ended is a timestamp exactly when it has ten or thirteen digits.
pub open spec fn run_class(length: nat, may_grow: bool) -> RunClass {
    if may_grow {
        if length > DIGITS_IN_EPOCH_MILLISECOND_TIMESTAMP {
            RunClass::Unrecognized
        } else {
            RunClass::Indeterminate
        }
    } else if length == DIGITS_IN_EPOCH_SECOND_TIMESTAMP {
        RunClass::SecondTimestamp
    } else if length == DIGITS_IN_EPOCH_MILLISECOND_TIMESTAMP {
        RunClass::MillisecondTimestamp
    } else {
        RunClass::Unrecognized
    }
}

/// `text` between square brackets.
pub open spec fn bracketed(text: Seq<u8>) -> Seq<u8> {
    seq![OPENING_BRACKET] + text + seq![CLOSING_BRACKET]
}

/// The date-time that stands for a run of ten digits: the run's value is a
/// count of seconds, rendered without a fraction.
pub open spec fn second_timestamp_text(run: Seq<u8>) -> Seq<u8> {
    bracketed(utc_text(decimal_value(run) as int, 0, SECOND_PATTERN@))
}

/// The date-time that stands for a run of thirteen digits: the run's value is
/// a count of milliseconds, split into whole seconds and the nanoseconds of
/// the remainder, rendered with three fractional digits.
pub open spec fn millisecond_timestamp_text(run: Seq<u8>) -> Seq<u8> {
    let value = decimal_value(run) as int;
    bracketed(
        utc_text(
            value / (MILLISECONDS_PER_SECOND as int),
            (value % (MILLISECONDS_PER_SECOND as int)) * NANOS_PER_MILLISECOND,
            MILLISECOND_PATTERN@,
        ),
    )
}

/// What is written for a run of digits that has ended: its date-time if it has
/// the length of a timestamp, and otherwise the digits themselves.
pub open spec fn resolved_run(run: Seq<u8>) -> Seq<u8> {
    match run_class(run.len(), false) {
        RunClass::SecondTimestamp => second_timestamp_text(run),
        RunClass::MillisecondTimestamp => millisecond_timestamp_text(run),
        _ => run,
    }
}

/// Whether `input` has the length of a timestamp in milliseconds.
pub fn is_epoch_millisecond_timestamp(input: &Vec<u8>) -> (matches: bool)
    ensures
        matches == (input@.len() == DIGITS_IN_EPOCH_MILLISECOND_TIMESTAMP),
{
    input.len() == DIGITS_IN_EPOCH_MILLISECOND_TIMESTAMP
}

/// Whether `input` has the length of a timestamp in seconds.
pub fn is_epoch_second_timestamp(input: &Vec<u8>) -> (matches: bool)
    ensures
        matches == (input@.len() == DIGITS_IN_EPOCH_SECOND_TIMESTAMP),
{
    input.len() == DIGITS_IN_EPOCH_SECOND_TIMESTAMP
}

/// The class of `run`, which may still grow or has ended.
pub fn classify_run(run: &Vec<u8>, may_grow: bool) -> (class: RunClass)
    ensures
        class == run_class(run@.len(), may_grow),
{
    if may_grow {
        if run.len() > DIGITS_IN_EPOCH_MILLISECOND_TIMESTAMP {
            RunClass::Unrecognized
        } else {
            RunClass::Indeterminate
        }
    } else if is_epoch_second_timestamp(run) {
        RunClass::SecondTimestamp
    } else if is_epoch_millisecond_timestamp(run) {
        RunClass::MillisecondTimestamp
    } else {
        RunClass::Unrecognized
    }
}

/// Splits a count of milliseconds into whole seconds and the nanoseconds of
/// the remainder.
pub fn split_milliseconds(milliseconds: u64) -> (instant: (i64, u32))
    ensures
        instant.0 == milliseconds / MILLISECONDS_PER_SECOND,
        instant.1 == (milliseconds % MILLISECONDS_PER_SECOND) * NANOS_PER_MILLISECOND,
{
    let seconds: u64 = milliseconds / MILLISECONDS_PER_SECOND;
    let nanos: u64 = (milliseconds % MILLISECONDS_PER_SECOND) * NANOS_PER_MILLISECOND;
    (seconds as i64, nanos as u32)
}

/// Appends `text` between square brackets to `append_buffer`.
pub fn append_bracketed(append_buffer: &mut Vec<u8>, text: &Vec<u8>)
    ensures
        final(append_buffer)@ == old(append_buffer)@ + bracketed(text@),
{
    append_buffer.push(OPENING_BRACKET);
    append_bytes(append_buffer, text);
    append_buffer.push(CLOSING_BRACKET);
}

/// Appends to `append_buffer` the date-time for the timestamp whose digits
/// `integer_accumulator` holds, and empties the accumulator.
pub fn append_epoch_timestamp(integer_accumulator: &mut Vec<u8>, append_buffer: &mut Vec<u8>)
    requires
        all_digits(old(integer_accumulator)@),
        is_timestamp_length(old(integer_accumulator)@.len() as int),
    ensures
        final(integer_accumulator)@ == Seq::<u8>::empty(),
        final(append_buffer)@ == old(append_buffer)@ + resolved_run(old(integer_accumulator)@),
{
    let digit_count: usize = integer_accumulator.len();
    proof {
        lemma_decimal_value_bound(integer_accumulator@);
        reveal_with_fuel(power_of_ten, 14);
    }
    let timestamp: u64 = ascii_to_integer(integer_accumulator);
    let text = if digit_count == DIGITS_IN_EPOCH_MILLISECOND_TIMESTAMP {
        let (seconds, nanos) = split_milliseconds(timestamp);
        format_utc(seconds, nanos, MILLISECOND_PATTERN)
    } else {
        format_utc(timestamp as i64, 0, SECOND_PATTERN)
    };
    append_bracketed(append_buffer, &text);
}

/// Resolves the run of digits that has just ended: appends to `replaced` what
/// is written for it and empties the accumulator.
pub fn process_possible_timestamp(integer_accumulator: &mut Vec<u8>, replaced: &mut Vec<u8>)
    requires
        all_digits(old(integer_accumulator)@),
    ensures
        final(integer_accumulator)@ == Seq::<u8>::empty(),
        final(replaced)@ == old(replaced)@ + resolved_run(old(integer_accumulator)@),
{
    match classify_run(integer_accumulator, false) {
        RunClass::SecondTimestamp | RunClass::MillisecondTimestamp => {
            append_epoch_timestamp(integer_accumulator, replaced)
        },
        _ => {
            append_bytes(replaced, integer_accumulator);
            integer_accumulator.clear();
        },
    }
}

} // verus!
