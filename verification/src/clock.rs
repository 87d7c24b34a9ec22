//! The wall clock.

use vstd::prelude::*;

verus! {

/// `std::time::SystemTime::now`, as nanoseconds since the Unix epoch and 0 before
/// it. Nothing is claimed of the time.
#[verifier::external_body]
pub(crate) fn nanos_now() -> u128 {
    std::time::SystemTime::now()
        .duration_since(std::time::UNIX_EPOCH)
        .map(|d| d.as_nanos())
        .unwrap_or(0)
}

/// Whole seconds of a time in nanoseconds, at most the largest `i64`.
pub open spec fn seconds(nanos: nat) -> int {
    let s = nanos / 1_000_000_000;
    if s <= i64::MAX {
        s as int
    } else {
        i64::MAX as int
    }
}

/// Whole seconds of a time in nanoseconds.
pub fn unix_seconds(nanos: u128) -> (r: i64)
    ensures
        r == seconds(nanos as nat),
        r >= 0,
{
    let s: u128 = nanos / 1_000_000_000;
    if s <= i64::MAX as u128 {
        s as i64
    } else {
        i64::MAX
    }
}

/// The seconds since the Unix epoch. What the clock shows is left open.
pub fn now_unix() -> (r: i64)
    ensures
        r >= 0,
{
    unix_seconds(nanos_now())
}

} // verus!
