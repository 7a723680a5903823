//! Application-owned time contract and deterministic test clock.
use vstd::prelude::*;

verus! {

/// Time quality supplied alongside every policy-relevant timestamp.
#[derive(Clone, Copy, Debug, PartialEq, Eq, Structural)]
pub enum ClockQuality {
    Synchronized,
    Uncertain { maximum_skew_ms: u64 },
    Unsynchronized,
}

/// A timestamp and its explicit quality.
#[derive(Clone, Copy, Debug, PartialEq, Eq, Structural)]
pub struct ClockReading {
    pub unix_ms: u64,
    pub quality: ClockQuality,
}

/// Supplies time to deterministic application and doctrine decisions.
pub trait Clock: Send + Sync {
    fn now(&self) -> ClockReading;
}

/// Deterministic clock for tests and scripted exercises.
#[derive(Debug)]
pub struct FakeClock {
    unix_ms: u64,
    quality: ClockQuality,
}

impl FakeClock {
    /// The current reading.
    pub closed spec fn reading(&self) -> ClockReading {
        ClockReading { unix_ms: self.unix_ms, quality: self.quality }
    }

    pub fn new(unix_ms: u64, quality: ClockQuality) -> (r: Self)
        ensures
            r.reading() == (ClockReading { unix_ms, quality }),
    {
        FakeClock { unix_ms, quality }
    }

    /// Moves the clock to an absolute time, keeping its quality.
    pub fn set(&mut self, unix_ms: u64)
        ensures
            final(self).reading() == (ClockReading { unix_ms, quality: old(self).reading().quality }),
    {
        self.unix_ms = unix_ms;
    }

    /// Advances the clock, wrapping around on overflow as an atomic
    /// fetch-and-add does.
    pub fn advance(&mut self, duration_ms: u64)
        ensures
            final(self).reading() == (ClockReading {
                unix_ms: if old(self).reading().unix_ms + duration_ms <= u64::MAX {
                    (old(self).reading().unix_ms + duration_ms) as u64
                } else {
                    (old(self).reading().unix_ms + duration_ms - u64::MAX - 1) as u64
                },
                quality: old(self).reading().quality,
            }),
    {
        if self.unix_ms <= u64::MAX - duration_ms {
            self.unix_ms = self.unix_ms + duration_ms;
        } else {
            self.unix_ms = duration_ms - (u64::MAX - self.unix_ms) - 1;
        }
    }

    /// The current reading (the same as [`Clock::now`]).
    pub fn read(&self) -> (r: ClockReading)
        ensures
            r == self.reading(),
    {
        ClockReading { unix_ms: self.unix_ms, quality: self.quality }
    }
}

impl Clock for FakeClock {
    fn now(&self) -> (r: ClockReading)
        ensures
            r == self.reading(),
    {
        self.read()
    }
}

} // verus!
