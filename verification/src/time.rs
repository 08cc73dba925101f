use std::time::{SystemTime, UNIX_EPOCH};
use vstd::prelude::*;

verus! {

/// `SystemTime::now` and `SystemTime::duration_since`: the whole seconds
/// since the epoch and the milliseconds of the second that has begun, or
/// nothing if the clock stands before the epoch.
#[verifier::external_body]
fn since_epoch() -> (elapsed: Option<(u64, u32)>)
    ensures
        match elapsed {
            Some(parts) => parts.1 < 1000,
            None => true,
        },
{
    SystemTime::now().duration_since(UNIX_EPOCH).ok().map(|d| (d.as_secs(), d.subsec_millis()))
}

/// The milliseconds that make `secs` seconds and `millis` milliseconds, cut
/// to 64 bits.
pub open spec fn millis_of(secs: u64, millis: u32) -> u64 {
    ((secs * 1000 + millis) % 0x1_0000_0000_0000_0000) as u64
}

/// The milliseconds that make `secs` seconds and `millis` milliseconds, cut
/// to 64 bits.
pub fn to_millis(secs: u64, millis: u32) -> (ms: u64)
    ensures
        ms == millis_of(secs, millis),
{
    let wide: u128 = secs as u128 * 1000 + millis as u128;
    (wide % 0x1_0000_0000_0000_0000) as u64
}

/// The seconds that a reading of the clock stands for: the whole seconds
/// since the epoch, and zero for a clock that stands before the epoch.
pub open spec fn seconds_read(elapsed: Option<(u64, u32)>) -> u64 {
    match elapsed {
        Some(parts) => parts.0,
        None => 0,
    }
}

/// The milliseconds that a reading of the clock stands for: those of its
/// seconds and milliseconds, cut to 64 bits, and zero for a clock that
/// stands before the epoch.
pub open spec fn millis_read(elapsed: Option<(u64, u32)>) -> u64 {
    match elapsed {
        Some(parts) => millis_of(parts.0, parts.1),
        None => 0,
    }
}

/// The seconds that a reading of the clock stands for.
pub fn seconds_from(elapsed: Option<(u64, u32)>) -> (secs: u64)
    ensures
        secs == seconds_read(elapsed),
{
    match elapsed {
        Some((secs, _)) => secs,
        None => 0,
    }
}

/// The milliseconds that a reading of the clock stands for.
pub fn millis_from(elapsed: Option<(u64, u32)>) -> (ms: u64)
    ensures
        ms == millis_read(elapsed),
{
    match elapsed {
        Some((secs, millis)) => to_millis(secs, millis),
        None => 0,
    }
}

/// The seconds since the epoch by the system's clock. A clock that stands
/// before the epoch reads as zero.
pub fn get_now() -> u64 {
    seconds_from(since_epoch())
}

/// The milliseconds since the epoch by the system's clock. A clock that
/// stands before the epoch reads as zero.
pub fn get_now_ms() -> u64 {
    millis_from(since_epoch())
}

} // verus!
