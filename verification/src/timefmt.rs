//! RFC 3339 rendering of record timestamps. An entry's epoch seconds are
//! widened to millisecond precision before formatting, as the archive schema
//! asks.

use vstd::prelude::*;

verus! {

/// The RFC 3339 text for a UTC instant given as non-leap milliseconds since
/// the epoch. Left unspecified: the rendering is a function of the
/// millisecond count alone.
pub uninterp spec fn rfc3339_utc_of(millis: int) -> Seq<char>;

/// The largest millisecond count this module ever formats: `u32::MAX`
/// seconds, widened to milliseconds.
pub const MAX_TIMESTAMP_MILLIS: i64 = 4294967295000;

/// Relies on chrono's `DateTime::<Utc>::from_timestamp_millis` and
/// `DateTime::to_rfc3339`: for a millisecond count well inside the supported
/// range (chrono accepts ca. 262,000 years around the common era) the
/// conversion succeeds, and the rendering depends on the instant alone.
#[verifier::external_body]
fn rfc3339_from_millis(millis: i64) -> (r: String)
    requires
        0 <= millis <= MAX_TIMESTAMP_MILLIS,
    ensures
        r@ == rfc3339_utc_of(millis as int),
{
    chrono::DateTime::<chrono::Utc>::from_timestamp_millis(millis)
        .unwrap()
        .to_rfc3339()
}

/// The RFC 3339 column derived from an entry's epoch seconds.
pub open spec fn timestamp_text_of(seconds: u32) -> Seq<char> {
    rfc3339_utc_of(seconds * 1000)
}

/// Renders an entry's epoch seconds as the RFC 3339 timestamp column,
/// widening to milliseconds first.
pub fn format_timestamp(seconds: u32) -> (r: String)
    ensures
        r@ == timestamp_text_of(seconds),
{
    let millis: i64 = seconds as i64 * 1000;
    rfc3339_from_millis(millis)
}

} // verus!
