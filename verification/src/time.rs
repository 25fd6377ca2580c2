//! Timers: a hierarchical timing wheel, and the sleeps, periodic timers and
//! timeouts that wait on it.
//!
//! All times are whole milliseconds.
pub mod sleep;
pub mod timeout;
pub mod timer;
pub mod wheel;

pub use sleep::{sleep, sleep_until, Sleep};
pub use timeout::{timeout, Timeout};
pub use timer::{timer, timer_at, Timer};

use vstd::prelude::*;

verus! {

/// Why a timed wait ended without its result.
#[derive(Debug, Clone, Copy, PartialEq, Eq, Structural)]
pub enum TimerError {
    /// The deadline passed first.
    Elapsed,
}

impl TimerError {
    /// A description of the error.
    pub fn as_str(&self) -> (s: &'static str)
        ensures
            s@ == "timer elapsed"@,
    {
        match self {
            TimerError::Elapsed => "timer elapsed",
        }
    }
}

/// Names one clock to the wheel that holds it.
#[derive(Debug, Clone, Copy, PartialEq, Eq, Structural)]
pub struct TimerHandle {
    /// The identity of the clock.
    pub inner: u64,
}

impl TimerHandle {
    /// The identity of the clock this handle names.
    pub fn inner(&self) -> (r: u64)
        ensures
            r == self.inner,
    {
        self.inner
    }
}

/// The record that a wheel keeps of one timed wait.
#[derive(Debug, Clone, Copy, PartialEq, Eq, Structural)]
pub struct Clock {
    /// The identity of the clock.
    pub id: u64,
    /// When it expires, counted from the start of the wheel.
    pub expiration: u64,
    /// The level of the wheel it was put in.
    pub level: usize,
    /// How far ahead of the wheel it was when it was put in.
    pub duration: u64,
    /// Whether it has fired.
    pub result: bool,
}

impl Clock {
    /// A clock with identity `id` that has not fired.
    pub open spec fn new_spec(id: u64) -> Clock {
        Clock { id, expiration: 0, level: 0, duration: 0, result: false }
    }

    /// A clock with the given identity that has not fired.
    pub fn new(id: u64) -> (c: Clock)
        ensures
            c == Clock::new_spec(id),
    {
        Clock { id, expiration: 0, level: 0, duration: 0, result: false }
    }

    /// When the clock expires.
    pub fn expiration(&self) -> (r: u64)
        ensures
            r == self.expiration,
    {
        self.expiration
    }

    /// Sets when the clock expires.
    pub fn set_expiration(&mut self, expiration: u64)
        ensures
            *final(self) == (Clock { expiration, ..*old(self) }),
    {
        self.expiration = expiration;
    }

    /// The level of the wheel the clock was put in.
    pub fn level(&self) -> (r: usize)
        ensures
            r == self.level,
    {
        self.level
    }

    /// Sets the level of the wheel the clock is put in.
    pub fn set_level(&mut self, level: usize)
        ensures
            *final(self) == (Clock { level, ..*old(self) }),
    {
        self.level = level;
    }

    /// How far ahead of the wheel the clock was when it was put in.
    pub fn duration(&self) -> (r: u64)
        ensures
            r == self.duration,
    {
        self.duration
    }

    /// Sets how far ahead of the wheel the clock is.
    pub fn set_duration(&mut self, duration: u64)
        ensures
            *final(self) == (Clock { duration, ..*old(self) }),
    {
        self.duration = duration;
    }

    /// Whether the clock has fired.
    pub fn result(&self) -> (r: bool)
        ensures
            r == self.result,
    {
        self.result
    }

    /// Sets whether the clock has fired.
    pub fn set_result(&mut self, result: bool)
        ensures
            *final(self) == (Clock { result, ..*old(self) }),
    {
        self.result = result;
    }

    /// The handle that names this clock.
    pub fn handle(&self) -> (h: TimerHandle)
        ensures
            h == (TimerHandle { inner: self.id }),
    {
        TimerHandle { inner: self.id }
    }
}

} // verus!
