//! The wall clock, read once per signal and handed on as a plain number.

use vstd::prelude::*;

verus! {

/// `std::time::SystemTime`: a reading of the system clock, handed from one
/// call to the next and never looked into.
#[verifier::external_type_specification]
#[verifier::external_body]
pub struct ExSystemTime(std::time::SystemTime);

/// `std::time::SystemTime::now`: the current reading of the system clock.
/// Nothing is claimed of it: two readings need not even be in order.
#[verifier::external_body]
fn system_time_now() -> std::time::SystemTime {
    std::time::SystemTime::now()
}

/// `std::time::SystemTime::duration_since`, taken against
/// `std::time::UNIX_EPOCH`: the span from the epoch to `at`, or `None` where
/// `at` lies before the epoch. Nothing is claimed of the span.
#[verifier::external_body]
fn since_unix_epoch(at: &std::time::SystemTime) -> Option<std::time::Duration> {
    match at.duration_since(std::time::UNIX_EPOCH) {
        Ok(span) => Some(span),
        Err(_) => None,
    }
}

/// `std::time::Duration::as_secs`: the whole seconds of `span`. Nothing is
/// claimed of the number.
#[verifier::external_body]
fn whole_seconds(span: &std::time::Duration) -> u64 {
    span.as_secs()
}

/// The current time in whole seconds since the Unix epoch, or `None` where
/// the system clock stands before the epoch.
///
/// The reading depends on the machine's clock alone, so nothing is promised
/// of it; everything that is decided from a reading takes it as a parameter.
pub fn unix_time_secs() -> Option<u64> {
    let at = system_time_now();
    match since_unix_epoch(&at) {
        Some(span) => Some(whole_seconds(&span)),
        None => None,
    }
}

} // verus!
