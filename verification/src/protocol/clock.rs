//! The time that goes into messages.

use vstd::prelude::*;

verus! {

/// The clock reading that goes into messages: milliseconds since the Unix epoch, without what does
/// not fit in 64 bits, and 0 for a clock that stands before the epoch.
pub open spec fn clock_reading(elapsed: Option<u128>) -> u64 {
    match elapsed {
        Some(ms) => (ms % 0x1_0000_0000_0000_0000) as u64,
        None => 0,
    }
}

/// Calls `std::time::SystemTime::elapsed` on the Unix epoch: the whole milliseconds since then, or
/// `None` if the system clock stands before it. Nothing is claimed of the result, which depends on
/// the machine's clock.
#[verifier::external_body]
fn since_epoch() -> Option<u128> {
    match std::time::UNIX_EPOCH.elapsed() {
        Ok(passed) => Some(passed.as_millis()),
        Err(_) => None,
    }
}

/// Turns the time since the Unix epoch into a clock reading.
pub fn reading_of(elapsed: Option<u128>) -> (reading: u64)
    ensures
        reading == clock_reading(elapsed),
{
    match elapsed {
        Some(ms) => (ms % 0x1_0000_0000_0000_0000) as u64,
        None => 0,
    }
}

/// The system clock said that this time has passed since the Unix epoch.
pub closed spec fn clock_said(elapsed: Option<u128>) -> bool {
    call_ensures(since_epoch, (), elapsed)
}

/// The system clock was read, and this is the reading.
pub open spec fn was_read(now: u64) -> bool {
    exists|elapsed: Option<u128>| #[trigger] clock_said(elapsed) && now == clock_reading(elapsed)
}

/// The current time in milliseconds since the Unix epoch.
pub fn timestamp_ms() -> (now: u64)
    ensures
        was_read(now),
{
    let elapsed: Option<u128> = since_epoch();
    assert(clock_said(elapsed));
    reading_of(elapsed)
}

/// A time after the epoch whose milliseconds fit in 64 bits is read exactly, so of two such times
/// the later one has no earlier reading.
pub proof fn law_readings_are_ordered(earlier: u128, later: u128)
    requires
        earlier <= later <= u64::MAX,
    ensures
        clock_reading(Some(earlier)) == earlier,
        clock_reading(Some(later)) == later,
        clock_reading(Some(earlier)) <= clock_reading(Some(later)),
{
}

/// The reading differs from the milliseconds since the epoch by a multiple of 2 to the power of 64,
/// and a clock before the epoch reads 0.
pub proof fn law_reading_keeps_64_bits(elapsed: u128)
    ensures
        (elapsed - clock_reading(Some(elapsed))) % 0x1_0000_0000_0000_0000 == 0,
        clock_reading(None) == 0,
{
}

} // verus!
