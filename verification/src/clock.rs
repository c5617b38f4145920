//! The time as the host counts it.
use vstd::prelude::*;

verus! {

/// Seconds and nanoseconds in milliseconds, as far as 64 bits hold them.
pub open spec fn millis(secs: u64, nanos: u32) -> int {
    (secs * 1000 + nanos / 1_000_000) % 0x1_0000_0000_0000_0000
}

/// The time in milliseconds since the start of 1970, from what the system
/// clock shows since then; zero where it shows an earlier time.
pub fn now_ms(since_epoch: Option<(u64, u32)>) -> (r: u64)
    ensures
        r == (match since_epoch {
            Some((secs, nanos)) => millis(secs, nanos),
            None => 0,
        }),
{
    match since_epoch {
        Some((secs, nanos)) => {
            let ms: u128 = secs as u128 * 1000 + (nanos / 1_000_000) as u128;
            (ms % 0x1_0000_0000_0000_0000) as u64
        },
        None => 0,
    }
}

/// The time in milliseconds is a thousand for each second and what the
/// nanoseconds make of one.
pub proof fn law_time_is_in_milliseconds(secs: u64, nanos: u32)
    requires
        secs < 1_000_000_000_000,
        nanos < 1_000_000_000,
    ensures
        millis(secs, nanos) == 1000 * secs + nanos / 1_000_000,
        1000 * secs <= millis(secs, nanos) < 1000 * secs + 1000,
{
}

} // verus!
