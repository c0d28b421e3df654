//! Rate limiter for a log line that an outside party can trigger at will.
//!
//! The proxy and the resolver both refuse work under load, and a client can
//! provoke those refusals as fast as it can open sockets. The message is
//! emitted at most once per interval and carries the number suppressed since.

use vstd::prelude::*;

verus! {

/// `std::time::Instant`, held opaque: a throttle and the activity tracker
/// each keep one as the origin of their clock, and read nothing inside it.
#[verifier::external_type_specification]
#[verifier::external_body]
pub struct ExInstant(std::time::Instant);

/// The current instant.
///
/// Calls `Instant::now`; it depends on the clock, so nothing is stated.
#[verifier::external_body]
pub(crate) fn instant_now() -> (t: std::time::Instant) {
    std::time::Instant::now()
}

/// The time elapsed since `origin`.
///
/// Calls `Instant::elapsed`; it depends on the clock, so nothing is stated.
#[verifier::external_body]
fn elapsed_since(origin: &std::time::Instant) -> (d: std::time::Duration) {
    origin.elapsed()
}

/// The length of `d` in whole nanoseconds.
pub uninterp spec fn duration_nanos(d: std::time::Duration) -> u128;

/// The length of `d` in whole nanoseconds.
///
/// Calls `Duration::as_nanos`, whose result is a function of `d` alone:
/// the contract names it and says nothing more.
#[verifier::external_body]
fn nanos_of(d: &std::time::Duration) -> (n: u128)
    ensures
        n == duration_nanos(*d),
{
    d.as_nanos()
}

/// `n` held in 64 bits, saturating.
pub open spec fn saturated(n: u128) -> u64 {
    if n > u64::MAX as u128 {
        u64::MAX
    } else {
        n as u64
    }
}

/// `d` in nanoseconds, saturated to `u64`.
pub fn duration_as_nanos(d: &std::time::Duration) -> (n: u64)
    ensures
        n == saturated(duration_nanos(*d)),
{
    let n = nanos_of(d);
    if n > u64::MAX as u128 {
        u64::MAX
    } else {
        n as u64
    }
}

/// Whether `n` is a reading of a clock in nanoseconds: the length,
/// saturated to `u64`, of some span of time.
pub open spec fn clock_reading(n: u64) -> bool {
    exists|d: std::time::Duration| n == saturated(#[trigger] duration_nanos(d))
}

/// Nanoseconds elapsed since `origin`, saturated to `u64`: the length of
/// the time the clock says has passed, which no contract can know.
pub(crate) fn nanos_since(origin: &std::time::Instant) -> (n: u64)
    ensures
        clock_reading(n),
{
    let d = elapsed_since(origin);
    let n = duration_as_nanos(&d);
    assert(n == saturated(duration_nanos(d)));
    n
}

/// Throttle state: when the message was last let through, and how many
/// were held back since.
pub struct LogThrottle {
    pub origin: std::time::Instant,
    pub last: Option<u64>,
    pub suppressed: u64,
}

/// Whether a message at `now` falls inside the window opened at `last`.
pub open spec fn within_window(last: Option<u64>, now: u64, every: u64) -> bool {
    match last {
        Some(t) => (if now >= t { now - t } else { 0 }) < every,
        None => false,
    }
}

impl LogThrottle {
    pub fn new() -> (t: Self)
        ensures
            t.last is None,
            t.suppressed == 0,
    {
        LogThrottle { origin: instant_now(), last: None, suppressed: 0 }
    }

    /// Whether to log at time `now` (nanoseconds on this throttle's clock),
    /// given a window of `every` nanoseconds, and how many were suppressed
    /// since the last time.
    pub fn allow_at(&mut self, now: u64, every: u64) -> (r: Option<u64>)
        ensures
            within_window(old(self).last, now, every) ==> r is None && final(self).last == old(self).last
                && final(self).suppressed == old(self).suppressed.wrapping_add(1),
            !within_window(old(self).last, now, every) ==> r == Some(old(self).suppressed)
                && final(self).last == Some(now) && final(self).suppressed == 0,
            final(self).origin == old(self).origin,
    {
        let inside = match self.last {
            Some(t) => now.saturating_sub(t) < every,
            None => false,
        };
        if inside {
            self.suppressed = self.suppressed.wrapping_add(1);
            None
        } else {
            self.last = Some(now);
            let n = self.suppressed;
            self.suppressed = 0;
            Some(n)
        }
    }

    /// Whether to log now, and how many were suppressed since the last time.
    ///
    /// `None` means stay quiet. Which instant "now" is depends on the clock:
    /// the contract says what holds for the reading taken, whatever it was,
    /// with the window `every` long.
    pub fn allow(&mut self, every: std::time::Duration) -> (r: Option<u64>)
        ensures
            exists|t: u64|
                clock_reading(t) && (within_window(old(self).last, t, saturated(duration_nanos(every))) ==> r is None
                    && final(self).last == old(self).last && final(self).suppressed
                    == old(self).suppressed.wrapping_add(1)) && (!within_window(
                    old(self).last,
                    t,
                    saturated(duration_nanos(every)),
                ) ==> r == Some(old(self).suppressed) && final(self).last == Some(t) && final(self).suppressed
                    == 0),
            final(self).origin == old(self).origin,
    {
        let now = nanos_since(&self.origin);
        let every_ns = duration_as_nanos(&every);
        let r = self.allow_at(now, every_ns);
        assert(clock_reading(now));
        r
    }
}

} // verus!
