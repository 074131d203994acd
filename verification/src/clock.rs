//! Wall-clock readings. Nothing is known of a reading but its shape: every function
//! that depends on time takes the reading as an argument and is verified for all of them.
use vstd::prelude::*;

verus! {

/// Seconds and sub-second nanoseconds since the Unix epoch, or `None` when the system
/// clock is set before the epoch. Calls `std::time::SystemTime::now` and
/// `duration_since(UNIX_EPOCH)`; only the range of the nanoseconds is stated, the reading
/// depends on the moment of the call.
#[verifier::external_body]
pub fn unix_time() -> (r: Option<(u64, u32)>)
    ensures
        r matches Some((_, nanos)) ==> nanos < 1_000_000_000,
{
    match std::time::SystemTime::now().duration_since(std::time::UNIX_EPOCH) {
        Ok(d) => Some((d.as_secs(), d.subsec_nanos())),
        Err(_) => None,
    }
}

/// Whole milliseconds of a reading, truncated to 64 bits; 0 for a clock before the epoch.
pub open spec fn reading_ms(r: Option<(u64, u32)>) -> u64 {
    match r {
        Some((secs, nanos)) => (secs * 1000 + nanos / 1_000_000) as u64,
        None => 0,
    }
}

/// Milliseconds since the Unix epoch (0 if the clock is before the epoch).
pub fn now_ms() -> (r: u64)
    ensures
        exists|reading: Option<(u64, u32)>| r == reading_ms(reading),
{
    let reading = unix_time();
    let ms = match reading {
        Some((secs, nanos)) => ((secs as u128) * 1000 + (nanos / 1_000_000) as u128) as u64,
        None => 0,
    };
    assert(ms == reading_ms(reading));
    ms
}

} // verus!
