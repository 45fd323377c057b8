//! The calendar rendering of an instant, which the `chrono` crate provides.

use vstd::prelude::*;

verus! {

/// The last second that a run of ten decimal digits can denote.
pub const LAST_SECOND: i64 = 9_999_999_999;

pub const NANOS_PER_SECOND: u32 = 1_000_000_000;

/// Renders an instant to the second: date, time of day and the zone's name.
pub const SECOND_PATTERN: &'static str = "%Y-%m-%d %H:%M:%S UTC";

/// Renders an instant to the millisecond, always with three fractional digits.
pub const MILLISECOND_PATTERN: &'static str = "%Y-%m-%d %H:%M:%S%.3f UTC";

/// The text, as bytes, that `chrono` writes for the instant `seconds` whole
/// seconds and `nanos` nanoseconds after 1970-01-01 00:00:00 UTC when it is
/// asked to format that instant in UTC by the `strftime` pattern `pattern`.
pub uninterp spec fn utc_text(seconds: int, nanos: int, pattern: Seq<char>) -> Seq<u8>;

/// Whether `pattern` is one of the two patterns that this library renders with.
pub open spec fn is_known_pattern(pattern: Seq<char>) -> bool {
    pattern == SECOND_PATTERN@ || pattern == MILLISECOND_PATTERN@
}

/// Builds the instant with `chrono::DateTime::from_timestamp`, has it formatted
/// by `pattern` with `chrono::DateTime::format`, and hands back the bytes of
/// the text that the formatted value displays as.
///
/// Trusted, not proved: for an instant between the epoch and `LAST_SECOND`
/// with less than a second of nanoseconds, and one of the two patterns above,
/// `chrono` builds the instant, formats it without failing, and the bytes it
/// writes depend on the instant and the pattern alone.
#[verifier::external_body]
pub(crate) fn format_utc(seconds: i64, nanos: u32, pattern: &str) -> (text: Vec<u8>)
    requires
        0 <= seconds <= LAST_SECOND,
        nanos < NANOS_PER_SECOND,
        is_known_pattern(pattern@),
    ensures
        text@ == utc_text(seconds as int, nanos as int, pattern@),
{
    let instant = chrono::DateTime::from_timestamp(seconds, nanos).unwrap();
    instant.format(pattern).to_string().into_bytes()
}

} // verus!
