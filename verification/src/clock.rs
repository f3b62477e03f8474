//! Times on a monotonic clock, in nanoseconds.

use vstd::prelude::*;

verus! {

/// Whole microseconds from one time to another; none if the clock went back.
pub open spec fn elapsed_us(from: u64, to: u64) -> u128 {
    if from <= to {
        ((to - from) / 1000) as u128
    } else {
        0
    }
}

/// Whole microseconds from one time to another; none if the clock went back.
pub fn micros(from: u64, to: u64) -> (us: u128)
    ensures
        us == elapsed_us(from, to),
        from <= to ==> 1000 * us <= to - from < 1000 * us + 1000,
        to < from ==> us == 0,
{
    (to.saturating_sub(from) / 1000) as u128
}

/// When a run that may take `max_ms` milliseconds has used them up.
pub open spec fn time_limit(max_ms: u64) -> u64 {
    if max_ms * 1_000_000 <= u64::MAX {
        (max_ms * 1_000_000) as u64
    } else {
        u64::MAX
    }
}

/// When a run that may take `max_ms` milliseconds has used them up.
pub fn duration_limit(max_ms: u64) -> (t: u64)
    ensures
        t == time_limit(max_ms),
        max_ms * 1_000_000 <= u64::MAX ==> t == max_ms * 1_000_000,
        max_ms * 1_000_000 > u64::MAX ==> t == u64::MAX,
{
    if max_ms <= u64::MAX / 1_000_000 {
        max_ms * 1_000_000
    } else {
        u64::MAX
    }
}

// ---- laws ----

/// A time in microseconds is the time on the clock, less what is left of the
/// last microsecond.
pub proof fn law_microseconds_are_whole(from: u64, to: u64)
    ensures
        from <= to ==> 1000 * elapsed_us(from, to) <= to - from < 1000 * elapsed_us(from, to) + 1000,
        to < from ==> elapsed_us(from, to) == 0,
{
}

/// A time is over after as many milliseconds as it was given, or at the end of
/// the clock.
pub proof fn law_limits_are_in_milliseconds(max_ms: u64)
    ensures
        max_ms * 1_000_000 <= u64::MAX ==> time_limit(max_ms) == max_ms * 1_000_000,
        max_ms * 1_000_000 > u64::MAX ==> time_limit(max_ms) == u64::MAX,
{
}

} // verus!
