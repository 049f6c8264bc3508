use vstd::prelude::*;

verus! {

/// Nanoseconds in one second.
pub const NANOS_PER_SECOND: u64 = 1_000_000_000;

/// Relies on time::precise_time_ns: a reading of a high-resolution counter in
/// nanoseconds since an unspecified epoch. Nothing is known of the value read.
#[verifier::external_body]
fn precise_time_ns() -> (r: u64) {
    time::precise_time_ns()
}

/// Whole seconds in a clock reading given in nanoseconds.
pub fn seconds_from_nanos(nanos: u64) -> (r: u64)
    ensures
        r == nanos / NANOS_PER_SECOND,
{
    nanos / NANOS_PER_SECOND
}

/// The current time in whole seconds, read from the high-resolution counter.
pub fn now_seconds() -> (r: u64)
    ensures
        r <= u64::MAX / NANOS_PER_SECOND,
{
    seconds_from_nanos(precise_time_ns())
}

} // verus!
