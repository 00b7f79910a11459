//! The countdown value: a configured duration and the ticks seen so far.
use vstd::prelude::*;
use vstd::string::*;

use crate::parse::DurationParseError;
use crate::text::{clock, push_clock, push_signed, signed_decimal};

verus! {

/// The longest countdown accepted: one day, in seconds.
pub const MAX_SECONDS: i32 = 86400;

/// A configured duration, kept as parsed (no carrying between fields), and
/// the number of one-second ticks observed so far.
#[derive(Debug, PartialEq, Eq, Structural)]
pub struct TimeoutDuration {
    pub hours: i32,
    pub minutes: i32,
    pub seconds: i32,
    /// Ticks observed so far.
    pub progress: i32,
}

impl TimeoutDuration {
    /// The configured length in seconds.
    pub open spec fn total(&self) -> int {
        (self.hours * 60 + self.minutes) * 60 + self.seconds
    }

    /// The fields are non-negative and the total fits the `i32` it is
    /// reported in.
    pub open spec fn representable(&self) -> bool {
        &&& 0 <= self.hours
        &&& 0 <= self.minutes
        &&& 0 <= self.seconds
        &&& self.total() <= i32::MAX
    }

    /// A duration that a countdown may be started from: more than zero
    /// seconds and at most one day.
    pub open spec fn valid(&self) -> bool {
        &&& self.representable()
        &&& 0 < self.total() <= MAX_SECONDS
    }

    /// Seconds still to go; negative in overtime.
    pub open spec fn remaining(&self) -> int {
        self.total() - self.progress
    }

    /// The timeout fires one tick after the remaining time reaches zero.
    pub open spec fn timed_out(&self) -> bool {
        self.progress > self.total()
    }

    /// The same value after one more tick.
    pub open spec fn ticked(&self) -> TimeoutDuration {
        TimeoutDuration {
            hours: self.hours,
            minutes: self.minutes,
            seconds: self.seconds,
            progress: (self.progress + 1) as i32,
        }
    }

    /// The same value after `n` more ticks.
    pub open spec fn ticked_n(&self, n: nat) -> TimeoutDuration
        decreases n,
    {
        if n == 0 {
            *self
        } else {
            self.ticked_n((n - 1) as nat).ticked()
        }
    }

    /// The text of `summary`.
    pub open spec fn summary_text(&self) -> Seq<char> {
        "Total time: "@ + signed_decimal(self.hours as int) + " Hour "@ + signed_decimal(
            self.minutes as int,
        ) + " Minutes "@ + signed_decimal(self.seconds as int) + " Seconds"@
    }

    /// The text of `total_duration`: the ticks so far as a clock.
    pub open spec fn elapsed_text(&self) -> Seq<char> {
        "Total duration: "@ + clock(self.progress as nat)
    }

    /// The text of `remaining_display`: a `-` unless time remains, then the
    /// magnitude of the remaining time as a clock.
    pub open spec fn remaining_text(&self) -> Seq<char> {
        let r = self.remaining();
        if r > 0 {
            clock(r as nat)
        } else {
            seq!['-'] + clock((-r) as nat)
        }
    }

    /// The configured length in seconds, `(hours * 60 + minutes) * 60 + seconds`.
    pub fn total_seconds(&self) -> (r: i32)
        requires
            self.representable(),
        ensures
            r == self.total(),
    {
        let inner: i32 = self.hours * 60 + self.minutes;
        assert(inner <= inner * 60) by (nonlinear_arith)
            requires
                inner >= 0,
        ;
        inner * 60 + self.seconds
    }

    /// Whether the configured length is zero seconds.
    pub fn is_zero(&self) -> (r: bool)
        requires
            self.representable(),
        ensures
            r == (self.total() == 0),
    {
        self.total_seconds() == 0
    }

    /// Accepts a duration of at most one day, and rejects a longer one.
    pub fn is_valid(self) -> (r: Result<Self, DurationParseError>)
        requires
            self.representable(),
        ensures
            self.total() <= MAX_SECONDS ==> r == Ok::<Self, DurationParseError>(self),
            self.total() > MAX_SECONDS ==> r matches Err(DurationParseError::OverLimit),
    {
        if self.total_seconds() > MAX_SECONDS {
            return Err(DurationParseError::OverLimit);
        }
        Ok(self)
    }

    /// A duration with the given fields and no ticks yet.
    pub fn new(hours: i32, minutes: i32, seconds: i32) -> (r: Self)
        ensures
            r == (TimeoutDuration { hours, minutes, seconds, progress: 0 }),
    {
        Self { hours, minutes, seconds, progress: 0 }
    }

    /// Records one more tick.
    pub fn tick(&mut self)
        requires
            old(self).progress < i32::MAX,
        ensures
            *final(self) == old(self).ticked(),
    {
        self.progress = self.progress + 1;
    }

    /// Whether more ticks than the configured seconds have been observed.
    pub fn is_timeout(&self) -> (r: bool)
        requires
            self.representable(),
        ensures
            r == self.timed_out(),
    {
        self.progress > self.total_seconds()
    }

    /// The configured fields as text, e.g. `Total time: 1 Hour 15 Minutes 0 Seconds`.
    pub fn summary(&self) -> (r: String)
        ensures
            r@ == self.summary_text(),
    {
        let mut out = String::from_str("Total time: ");
        push_signed(&mut out, self.hours);
        out.append(" Hour ");
        push_signed(&mut out, self.minutes);
        out.append(" Minutes ");
        push_signed(&mut out, self.seconds);
        out.append(" Seconds");
        out
    }

    /// The ticks observed so far, as `Total duration: HH:MM:SS`.
    pub fn total_duration(&self) -> (r: String)
        requires
            self.progress >= 0,
        ensures
            r@ == self.elapsed_text(),
    {
        let mut out = String::from_str("Total duration: ");
        push_clock(&mut out, self.progress as u64);
        out
    }

    /// The remaining time as `[-]HH:MM:SS`: the sign is written unless time
    /// remains, so both zero and overtime are written with a `-`.
    pub fn remaining_display(&self) -> (r: String)
        requires
            self.representable(),
            self.progress >= 0,
        ensures
            r@ == self.remaining_text(),
    {
        let current: i32 = self.total_seconds() - self.progress;
        let magnitude: u64 = if current < 0 {
            (-(current as i64)) as u64
        } else {
            current as u64
        };
        let mut out = if current > 0 {
            String::from_str("")
        } else {
            String::from_str("-")
        };
        proof {
            reveal_strlit("");
            reveal_strlit("-");
        }
        push_clock(&mut out, magnitude);
        assert(out@ =~= self.remaining_text());
        out
    }
}

impl Default for TimeoutDuration {
    fn default() -> (r: Self)
        ensures
            r == (TimeoutDuration { hours: 0, minutes: 0, seconds: 0, progress: 0 }),
    {
        Self { hours: 0, minutes: 0, seconds: 0, progress: 0 }
    }
}

/// From a fresh countdown, `n` ticks leave exactly `n` ticks recorded and the
/// configured fields unchanged, and the timeout holds exactly when `n`
/// exceeds the configured seconds: it stays false up to the total and true
/// from one past it on.
pub proof fn lemma_ticks_and_timeout(d: TimeoutDuration, n: nat)
    requires
        d.representable(),
        d.progress == 0,
        n <= i32::MAX,
    ensures
        d.ticked_n(n).progress == n,
        d.ticked_n(n).hours == d.hours,
        d.ticked_n(n).minutes == d.minutes,
        d.ticked_n(n).seconds == d.seconds,
        d.ticked_n(n).timed_out() <==> n > d.total(),
    decreases n,
{
    if n > 0 {
        lemma_ticks_and_timeout(d, (n - 1) as nat);
    }
}

} // verus!
