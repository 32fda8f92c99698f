//! The system clock, and points in time written out for people.

use std::fmt::Write;
use vstd::prelude::*;
use crate::data::Timestamp;

verus! {

/// The time now, read from the system clock by `chrono::Utc::now`.
///
/// Nothing is claimed of the reading: two readings need not even rise.
/// `Utc::now` gives up on a clock that stands before 1970.
#[verifier::external_body]
pub(crate) fn current_time() -> (now: Timestamp) {
    let now = chrono::Utc::now();
    Timestamp { secs: now.timestamp(), nanos: now.timestamp_subsec_nanos() }
}

/// What chrono writes for the point in time `secs` seconds and `nanos`
/// nanoseconds after the start of 1970 in UTC under the strftime pattern
/// `pattern`, or `None` where it has no date for that point or cannot
/// follow the pattern.
pub uninterp spec fn utc_text(secs: i64, nanos: u32, pattern: Seq<char>) -> Option<Seq<char>>;

/// Writes a point in time out under a strftime pattern.
///
/// The point is handed to `chrono::DateTime::from_timestamp` and the date
/// and time that it returns to `DateTime::format`, which is written into a
/// string. The contract gives that outcome its name, [`utc_text`], and
/// claims no more: the text is a function of the three arguments alone,
/// as chrono's formatting in UTC is.
#[verifier::external_body]
pub(crate) fn format_utc(secs: i64, nanos: u32, pattern: &str) -> (r: Option<String>)
    ensures
        match r {
            Some(text) => utc_text(secs, nanos, pattern@) == Some(text@),
            None => utc_text(secs, nanos, pattern@).is_none(),
        },
{
    let mut text = String::new();
    match chrono::DateTime::from_timestamp(secs, nanos) {
        Some(time) => match write!(text, "{}", time.format(pattern)) {
            Ok(()) => Some(text),
            Err(_) => None,
        },
        None => None,
    }
}

} // verus!
