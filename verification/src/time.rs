//! The wall clock, and durations.
use vstd::prelude::*;

verus! {

/// Reads the wall clock as (seconds, nanoseconds) since the UNIX epoch.
///
/// Calls `std::time::SystemTime::now` (a time before the epoch reads as
/// zero); what it returns depends on the machine's clock, so nothing is
/// stated of it but the range of the nanoseconds, which
/// `Duration::subsec_nanos` documents.
#[verifier::external_body]
pub(crate) fn system_time_now() -> (r: (u64, u32))
    ensures
        r.1 < 1_000_000_000,
{
    let d = std::time::SystemTime::now().duration_since(std::time::UNIX_EPOCH).unwrap_or_default();
    (d.as_secs(), d.subsec_nanos())
}

/// The `Duration` of `secs` whole seconds.
pub uninterp spec fn duration_from_secs(secs: u64) -> core::time::Duration;

/// The `Duration` of `millis` milliseconds.
pub uninterp spec fn duration_from_millis(millis: u64) -> core::time::Duration;

/// What `Duration::as_nanos` gives: the whole duration in nanoseconds.
pub uninterp spec fn duration_nanos(d: core::time::Duration) -> nat;

/// `Duration::from_secs`: the duration of that many whole seconds, that
/// is `secs * 10^9` nanoseconds.
pub assume_specification[ core::time::Duration::from_secs ](secs: u64) -> (r: core::time::Duration)
    ensures
        r == duration_from_secs(secs),
        duration_nanos(r) == secs * 1_000_000_000,
;

/// `Duration::from_millis`: the duration of that many milliseconds, that
/// is `millis * 10^6` nanoseconds.
pub assume_specification[ core::time::Duration::from_millis ](millis: u64) -> (r:
    core::time::Duration)
    ensures
        r == duration_from_millis(millis),
        duration_nanos(r) == millis * 1_000_000,
;

/// `Duration::from_nanos`: the duration of that many nanoseconds.
pub assume_specification[ core::time::Duration::from_nanos ](nanos: u64) -> (r:
    core::time::Duration)
    ensures
        duration_nanos(r) == nanos,
;

/// `Duration::as_nanos`: the total number of nanoseconds in the duration.
pub assume_specification[ core::time::Duration::as_nanos ](d: &core::time::Duration) -> (r: u128)
    ensures
        r == duration_nanos(*d),
;

/// `std::time::Instant`, a reading of the monotonic clock; opaque here.
#[verifier::external_type_specification]
#[verifier::external_body]
pub struct ExInstant(std::time::Instant);

/// `Instant::now`: reads the monotonic clock. What it returns depends on
/// when it is called, so nothing is stated of it.
pub assume_specification[ std::time::Instant::now ]() -> std::time::Instant;

/// `Instant::duration_since`: the time from `earlier` to `this` (zero when
/// `earlier` is the later one). It depends on the two clock readings, of
/// which nothing is known here, so nothing is stated of it.
pub assume_specification[ std::time::Instant::duration_since ](
    this: &std::time::Instant,
    earlier: std::time::Instant,
) -> core::time::Duration;

} // verus!
