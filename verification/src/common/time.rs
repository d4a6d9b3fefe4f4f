//! Wall-clock helpers in milliseconds since the UNIX epoch.
use crate::wire::{i64_of_pattern, u64_to_i64};
use vstd::prelude::*;

verus! {

/// A UNIX millisecond timestamp.
#[derive(Copy, Clone, Eq, PartialEq, Ord, PartialOrd, Debug, Structural)]
pub struct MilliInstant(pub i64);

impl MilliInstant {
    pub fn now() -> Self {
        MilliInstant(now_millis())
    }

    pub fn ms(&self) -> (r: i64)
        ensures
            r == self.0,
    {
        self.0
    }

    /// The milliseconds from `earlier` to this instant.
    pub fn elapsed_since(&self, earlier: Self) -> (r: i64)
        requires
            i64::MIN <= self.0 - earlier.0 <= i64::MAX,
        ensures
            r == self.0 - earlier.0,
    {
        self.0 - earlier.0
    }
}

/// Calls `std::time::SystemTime::now` and hands its reading out: the whole seconds since the
/// epoch and the nanoseconds beyond them, which are less than a second, or nothing if the
/// clock is before the epoch. Nothing more is said of the reading.
#[verifier::external_body]
fn clock_reading() -> (r: Option<(u64, u32)>)
    ensures
        r matches Some(p) ==> p.1 < 1_000_000_000,
{
    let since = std::time::SystemTime::now().duration_since(std::time::UNIX_EPOCH).ok()?;
    Some((since.as_secs(), since.subsec_nanos()))
}

/// A reading of the clock in whole milliseconds, rounded down: the low 64 bits as a signed
/// number, and zero before the epoch.
pub fn millis_of(reading: Option<(u64, u32)>) -> (r: i64)
    ensures
        match reading {
            None => r == 0,
            Some((secs, nanos)) => r == i64_of_pattern(
                ((secs * 1000 + nanos / 1_000_000) as nat) % 0x1_0000_0000_0000_0000,
            ),
        },
{
    match reading {
        None => 0,
        Some((secs, nanos)) => {
            let ms: u128 = secs as u128 * 1000 + (nanos / 1_000_000) as u128;
            u64_to_i64((ms % 0x1_0000_0000_0000_0000) as u64)
        },
    }
}

/// The milliseconds since the epoch, by the machine's clock.
pub fn now_millis() -> i64 {
    millis_of(clock_reading())
}

} // verus!
