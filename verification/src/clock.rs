//! The wall clock and the local calendar, as `chrono` has them.
//!
//! Nothing in this file is proved, and nothing is promised of the results:
//! what the clock says changes from one reading to the next, and how an
//! instant is written depends on the time zone of the machine.

use chrono::Local;
use chrono::MappedLocalTime;
use chrono::TimeZone;
use chrono::Timelike;
use chrono::Utc;
use vstd::prelude::*;

verus! {

/// `Utc::now`, taken apart by `DateTime::timestamp` and
/// `Timelike::nanosecond`: the whole seconds from the epoch to the present,
/// and the nanoseconds into the running second. Neither depends on the
/// time zone.
#[verifier::external_body]
pub(crate) fn read_clock() -> (r: (i64, u32)) {
    let t = Utc::now();
    (t.timestamp(), t.nanosecond())
}

/// `TimeZone::timestamp_opt` of `Local`, written out by `DateTime::format`
/// and `DelayedFormat::write_to` with the pattern `fmt`: the instant `secs`
/// seconds and `nanos` nanoseconds after the epoch as local date and time.
/// `None` where `chrono` has no date for the instant, or the pattern holds
/// a specifier that it does not know.
#[verifier::external_body]
pub(crate) fn format_time(secs: i64, nanos: u32, fmt: &str) -> (r: Option<String>) {
    let mut out = String::new();
    match Local.timestamp_opt(secs, nanos) {
        MappedLocalTime::Single(t) => match t.format(fmt).write_to(&mut out) {
            Ok(()) => Some(out),
            Err(_) => None,
        },
        _ => None,
    }
}

} // verus!
