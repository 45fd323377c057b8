//! Rewrites Unix epoch timestamps found in a byte stream into readable UTC
//! date-times, and converts numerals between decimal and hexadecimal.
//!
//! A timestamp is a maximal run of exactly ten decimal digits, read as seconds
//! since 1970-01-01 00:00:00 UTC, or of exactly thirteen, read as milliseconds.
//! It is replaced by its date-time between square brackets. Every other byte
//! stays as it is.
//!
//! - [`rewriting`] says what the rewriting of a whole input is and states the
//!   laws it obeys.
//! - [`replacement`] rewrites one buffer and reports the digits it ends with,
//!   whose run may go on.
//! - [`stream`] rewrites a stream chunk by chunk, and [`chunking`] proves that
//!   the chunks' sizes make no difference.
//! - [`timestamp`] classifies and renders a single run, [`calendar`] holds the
//!   call into `chrono` that turns an instant into text.
//! - [`hex`] and [`numeral`] convert between decimal and hexadecimal numerals.

pub mod bytes;
pub mod calendar;
pub mod chunking;
pub mod digits;
pub mod files;
pub mod hex;
pub mod numeral;
pub mod replacement;
pub mod rewriting;
pub mod runs;
pub mod stream;
pub mod timestamp;

pub use digits::{ascii_to_integer, is_ascii_digit};
pub use files::{target_file_name, BUFFER_SIZE, TARGET_SUFFIX};
pub use hex::{
    dehex, enhex, has_hex_indicator, hex_ascii_to_integer, is_decimal_token, is_hex_token,
    to_decimal_chars, to_hex_chars,
};
pub use replacement::{
    replace_epoch_timestamps, replace_epoch_timestamps_in_buffer, ReplacementResult,
};
pub use stream::{process_input, StreamRewriter, StreamState};
pub use timestamp::{
    append_bracketed, append_epoch_timestamp, classify_run, is_epoch_millisecond_timestamp,
    is_epoch_second_timestamp, process_possible_timestamp, split_milliseconds, RunClass,
};
