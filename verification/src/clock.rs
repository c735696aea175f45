//! Clocks: a manual one for tests and demos, and the system clock.

use vstd::prelude::*;
use std::time::{Duration, SystemTime};

verus! {

/// A source of the current time in milliseconds since the Unix epoch.
pub trait Clock {
    fn now_ms(&self) -> u64;
}

/// A clock that only moves when told to.
#[derive(Debug, Default)]
pub struct ManualClock {
    now_ms: u64,
}

impl ManualClock {
    pub closed spec fn time(&self) -> u64 {
        self.now_ms
    }

    pub fn new(now_ms: u64) -> (c: ManualClock)
        ensures
            c.time() == now_ms,
    {
        ManualClock { now_ms }
    }

    pub fn set(&mut self, now_ms: u64)
        ensures
            final(self).time() == now_ms,
    {
        self.now_ms = now_ms;
    }

    /// Moves the clock forward and returns the new time.
    pub fn advance(&mut self, by_ms: u64) -> (t: u64)
        requires
            old(self).time() + by_ms <= u64::MAX,
        ensures
            t == old(self).time() + by_ms,
            final(self).time() == t,
    {
        self.now_ms = self.now_ms + by_ms;
        self.now_ms
    }

    pub fn read(&self) -> (t: u64)
        ensures
            t == self.time(),
    {
        self.now_ms
    }
}

impl Clock for ManualClock {
    fn now_ms(&self) -> (t: u64)
        ensures
            t == self.time(),
    {
        self.now_ms
    }
}

/// The wall clock of the machine.
#[derive(Debug, Default, Clone, Copy)]
pub struct SystemClock;

#[verifier::external_type_specification]
#[verifier::external_body]
pub struct ExSystemTime(std::time::SystemTime);

/// The machine's time now.
///
/// Trusted: calls `std::time::SystemTime::now`; nothing is promised of the
/// value, which is the machine's time.
#[verifier::external_body]
fn system_now() -> SystemTime {
    SystemTime::now()
}

/// How long after the Unix epoch `t` lies, or nothing when it lies before.
///
/// Trusted: calls `std::time::SystemTime::duration_since` with the epoch;
/// its error, a time before the epoch, becomes nothing. Nothing is promised
/// of the duration.
#[verifier::external_body]
fn since_epoch(t: &SystemTime) -> Option<Duration> {
    match t.duration_since(std::time::UNIX_EPOCH) {
        Ok(d) => Some(d),
        Err(_) => None,
    }
}

/// The whole milliseconds in `d`.
///
/// Trusted: calls `std::time::Duration::as_millis`; nothing is promised of
/// the value here, since nothing here knows `d`.
#[verifier::external_body]
fn whole_millis(d: &Duration) -> u128 {
    d.as_millis()
}

/// Milliseconds since the Unix epoch, cut to 64 bits, 0 if the system clock
/// is before it.
fn system_time_ms() -> u64 {
    match since_epoch(&system_now()) {
        Some(d) => {
            let ms = whole_millis(&d);
            #[verifier::truncate]
            (ms as u64)
        },
        None => 0,
    }
}

impl Clock for SystemClock {
    fn now_ms(&self) -> u64 {
        system_time_ms()
    }
}

} // verus!
