//! The wall clock.

use vstd::prelude::*;

verus! {

/// A point in time, as the system's clock shows it.
#[verifier::external_type_specification]
#[verifier::external_body]
pub struct ExSystemTime(std::time::SystemTime);

/// Says that one point in time was not before another.
#[verifier::external_type_specification]
#[verifier::external_body]
pub struct ExSystemTimeError(std::time::SystemTimeError);

/// Where a point in time lies: nanoseconds after the Unix epoch, negative before
/// it.
pub uninterp spec fn unix_nanos(t: std::time::SystemTime) -> int;

/// The length of a span, in nanoseconds.
pub uninterp spec fn span_nanos(d: std::time::Duration) -> nat;

/// Whether `r` is the span from `earlier` to `t`, or an error where `earlier` is the
/// later one.
pub open spec fn is_span(
    r: Result<std::time::Duration, std::time::SystemTimeError>,
    earlier: std::time::SystemTime,
    t: std::time::SystemTime,
) -> bool {
    match r {
        Ok(d) => span_nanos(d) == unix_nanos(t) - unix_nanos(earlier),
        Err(_) => unix_nanos(t) < unix_nanos(earlier),
    }
}

/// `SystemTime::now` reads the clock; nothing is claimed of what it shows.
pub assume_specification[ std::time::SystemTime::now ]() -> std::time::SystemTime
;

/// `SystemTime::duration_since` measures the span from one point in time to
/// another; it fails exactly where the other is the earlier one.
pub assume_specification[ std::time::SystemTime::duration_since ](
    t: &std::time::SystemTime,
    earlier: std::time::SystemTime,
) -> (r: Result<std::time::Duration, std::time::SystemTimeError>)
    ensures
        is_span(r, earlier, *t),
;

/// `Duration::as_secs` gives the whole seconds of a span, without what is left of a
/// second.
pub assume_specification[ std::time::Duration::as_secs ](d: &std::time::Duration) -> (secs: u64)
    ensures
        secs == span_nanos(*d) / 1_000_000_000,
;

/// `UNIX_EPOCH` is the point in time that others are measured from.
#[verifier::external_body]
fn unix_epoch() -> (t: std::time::SystemTime)
    ensures
        unix_nanos(t) == 0,
{
    std::time::UNIX_EPOCH
}

/// The whole seconds from the Unix epoch to a point in time, or zero where that
/// lies before the epoch.
pub open spec fn unix_secs(t: std::time::SystemTime) -> int {
    if unix_nanos(t) >= 0 {
        unix_nanos(t) / 1_000_000_000
    } else {
        0
    }
}

/// The seconds from the Unix epoch to the point in time `t`, or zero where that
/// lies before the epoch.
pub fn unix_time(t: &std::time::SystemTime) -> (secs: u64)
    ensures
        secs == unix_secs(*t),
{
    match t.duration_since(unix_epoch()) {
        Ok(d) => d.as_secs(),
        Err(_) => 0,
    }
}

/// The seconds since the Unix epoch, or zero where the clock shows a time before
/// it.
pub fn now_unix() -> (secs: u64)
    ensures
        exists|t: std::time::SystemTime| secs == #[trigger] unix_secs(t),
{
    unix_time(&std::time::SystemTime::now())
}

/// The seconds since the epoch are the whole ones: the point in time lies within the
/// second that begins then. Before the epoch there are none.
pub proof fn law_whole_seconds_are_counted(t: std::time::SystemTime)
    ensures
        unix_nanos(t) >= 0 ==> unix_secs(t) * 1_000_000_000 <= unix_nanos(t) < (unix_secs(t) + 1)
            * 1_000_000_000,
        unix_nanos(t) < 0 ==> unix_secs(t) == 0,
{
}

} // verus!
