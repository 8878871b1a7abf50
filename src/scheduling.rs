//! When certificate work is tried next.
use vstd::prelude::*;

verus! {

/// Nanoseconds in one second.
pub const NANOS_PER_SEC: u128 = 1_000_000_000;

/// A certificate is renewed sixty days after it was issued.
pub const RENEWAL_DELAY_SECS: u128 = 5_184_000;

/// The time, in nanoseconds since the Unix epoch, at which a task is due when
/// it is scheduled `delay_nanos` after `now_nanos`. The queue stores the
/// time as a `u64`: larger values keep their low 64 bits.
pub fn schedule_at(now_nanos: u128, delay_nanos: u128) -> (r: u64)
    requires
        now_nanos + delay_nanos <= u128::MAX,
    ensures
        r == (now_nanos + delay_nanos) % 0x1_0000_0000_0000_0000,
{
    let t: u128 = now_nanos + delay_nanos;
    let r = t as u64;
    assert(r == t % 0x1_0000_0000_0000_0000) by (bit_vector)
        requires
            r == t as u64;
    r
}

/// When a freshly issued certificate is due for renewal.
pub fn renewal_time(now_nanos: u128) -> (r: u64)
    requires
        now_nanos + RENEWAL_DELAY_SECS * NANOS_PER_SEC <= u128::MAX,
    ensures
        r == (now_nanos + RENEWAL_DELAY_SECS * NANOS_PER_SEC) % 0x1_0000_0000_0000_0000,
{
    schedule_at(now_nanos, RENEWAL_DELAY_SECS * NANOS_PER_SEC)
}

} // verus!
