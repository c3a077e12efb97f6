use vstd::prelude::*;
use std::time::{Duration, Instant};

verus! {

#[verifier::external_type_specification]
#[verifier::external_body]
pub struct ExInstant(Instant);

/// `std::time::Instant::now`: the current instant of the monotonic clock.
/// What it returns depends on the time, so nothing is stated of it.
#[verifier::external_body]
fn instant_now() -> Instant {
    Instant::now()
}

/// `std::time::Instant::elapsed`: the time passed since `origin`. It depends
/// on the time, so nothing is stated of it.
#[verifier::external_body]
fn elapsed_since(origin: &Instant) -> Duration {
    origin.elapsed()
}

/// `std::time::Duration::as_millis`: the whole milliseconds in `d`. The
/// result is the only `u128` the documentation names; no clause relates it
/// to `d`, which Verus sees as opaque.
#[verifier::external_body]
fn whole_millis(d: &Duration) -> u128 {
    d.as_millis()
}

/// A millisecond count narrowed to `u64`, saturating at the largest `u64`.
pub open spec fn saturated_ms(ms: u128) -> u64 {
    if ms > u64::MAX as u128 { u64::MAX } else { ms as u64 }
}

/// Narrows a millisecond count to `u64`, saturating at the largest `u64`.
pub fn saturate_ms(ms: u128) -> (r: u64)
    ensures
        r == saturated_ms(ms),
{
    if ms > 0xffff_ffff_ffff_ffff {
        u64::MAX
    } else {
        ms as u64
    }
}

/// The monotonic clock a run is timed on: every time in the library is a
/// number of milliseconds since the clock was started.
pub struct Clock {
    origin: Instant,
}

impl Clock {
    /// A clock started now.
    pub fn start() -> Clock {
        Clock { origin: instant_now() }
    }

    /// Whole milliseconds since the clock started, saturating at the
    /// largest `u64`. The count itself depends on the time.
    pub fn now_ms(&self) -> u64 {
        let d = elapsed_since(&self.origin);
        let ms = whole_millis(&d);
        saturate_ms(ms)
    }
}

} // verus!
