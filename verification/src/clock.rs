//! The clock.

use vstd::prelude::*;

verus! {

/// A moment of the system's clock, carried as it comes.
#[verifier::external_type_specification]
#[verifier::external_body]
pub struct ExSystemTime(std::time::SystemTime);

/// The error of a moment before another, carried as it comes.
#[verifier::external_type_specification]
#[verifier::external_body]
pub struct ExSystemTimeError(std::time::SystemTimeError);

/// `std::time::SystemTime::now`. Nothing is claimed of which moment it is.
#[verifier::external_body]
fn system_time() -> std::time::SystemTime {
    std::time::SystemTime::now()
}

/// `std::time::SystemTime::duration_since` the beginning of 1970. It fails for a moment before that;
/// nothing is claimed of how long it is.
#[verifier::external_body]
fn since_epoch(t: std::time::SystemTime) -> Result<std::time::Duration, std::time::SystemTimeError> {
    t.duration_since(std::time::UNIX_EPOCH)
}

/// `std::time::Duration::as_nanos`. A span holds a 64-bit number of whole seconds, so that many and
/// a part of a second is the most that comes out. Which number it is rests on the clock, and is left
/// unsaid.
#[verifier::external_body]
fn nanoseconds(d: &std::time::Duration) -> (r: u128)
    ensures
        r as int / 1_000_000_000 <= u64::MAX,
{
    d.as_nanos()
}

/// The time since the beginning of 1970, in nanoseconds and in whole seconds; zero before that.
pub(crate) fn now() -> (r: (u128, u64))
    ensures
        r.1 as int == r.0 as int / 1_000_000_000,
{
    let nanos: u128 = match since_epoch(system_time()) {
        Ok(elapsed) => nanoseconds(&elapsed),
        Err(_) => 0,
    };
    (nanos, (nanos / 1_000_000_000) as u64)
}

} // verus!
