//! The server's wall clock, the one outside effect of the conversion step.

use vstd::prelude::*;

verus! {

/// Relies on chrono's `From<SystemTime>` conversion to a UTC date-time and on
/// `DateTime::timestamp_millis`: the current wall-clock instant, reduced to
/// whole milliseconds since the Unix epoch. The conversion represents a clock
/// standing before the epoch as a negative count rather than failing; only a
/// clock beyond chrono's ±262,000-year range would abort. Nothing is promised
/// of the value: it depends on the machine's clock alone.
#[verifier::external_body]
pub(crate) fn now_millis() -> i64 {
    chrono::DateTime::<chrono::Utc>::from(std::time::SystemTime::now()).timestamp_millis()
}

} // verus!
