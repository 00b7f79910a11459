//! The state a timer window keeps between events, and how each event
//! changes it.
use vstd::prelude::*;
use vstd::string::*;

use crate::cmd::TimerOpt;
use crate::timer::TimeoutDuration;

verus! {

/// An event delivered to a running timer.
#[derive(Debug, Clone, Copy, PartialEq, Eq, Structural)]
pub enum Message {
    /// Pause the countdown.
    Stop,
    /// One second has passed.
    Tick,
    /// Resume the countdown.
    Start,
}

/// A running timer: the countdown, its title, whether it is paused, and
/// whether the expiry notification has been sent.
#[derive(Debug)]
pub struct TimerState {
    pub value: TimeoutDuration,
    pub title: String,
    pub pause: bool,
    pub notified: bool,
}

impl TimerState {
    /// A running, unpaused timer that has sent no notification.
    pub fn new(opt: TimerOpt) -> (r: Self)
        ensures
            r.value == opt.duration,
            r.title@ == opt.title@,
            !r.pause,
            !r.notified,
    {
        TimerState { value: opt.duration, title: opt.title, pause: false, notified: false }
    }

    /// Handles one event and returns whether the expiry notification must be
    /// sent now. A tick advances the countdown unless paused; the
    /// notification is asked for once, on the first event after which the
    /// countdown has timed out.
    pub fn update(&mut self, message: Message) -> (notify: bool)
        requires
            old(self).value.representable(),
            old(self).value.progress < i32::MAX,
        ensures
            final(self).title@ == old(self).title@,
            message == Message::Tick ==> {
                &&& final(self).value == if old(self).pause {
                    old(self).value
                } else {
                    old(self).value.ticked()
                }
                &&& final(self).pause == old(self).pause
                &&& notify == (final(self).value.timed_out() && !old(self).notified)
                &&& final(self).notified == (old(self).notified || final(self).value.timed_out())
            },
            message == Message::Stop ==> {
                &&& final(self).value == old(self).value
                &&& final(self).pause
                &&& final(self).notified == old(self).notified
                &&& !notify
            },
            message == Message::Start ==> {
                &&& final(self).value == old(self).value
                &&& !final(self).pause
                &&& final(self).notified == old(self).notified
                &&& !notify
            },
    {
        match message {
            Message::Tick => {
                if !self.pause {
                    self.value.tick();
                }
                if self.value.is_timeout() && !self.notified {
                    self.notified = true;
                    true
                } else {
                    false
                }
            },
            Message::Stop => {
                self.pause = true;
                false
            },
            Message::Start => {
                self.pause = false;
                false
            },
        }
    }

    /// The event the pause/resume button sends: resume when paused, pause
    /// otherwise.
    pub fn on_press_command(&self) -> (r: Message)
        ensures
            r == if self.pause {
                Message::Start
            } else {
                Message::Stop
            },
    {
        if self.pause {
            Message::Start
        } else {
            Message::Stop
        }
    }

    /// The label of the pause/resume button.
    pub fn button_label(&self) -> (r: String)
        ensures
            r@ == if self.pause {
                "Start"@
            } else {
                "Pause"@
            },
    {
        if self.pause {
            String::from_str("Start")
        } else {
            String::from_str("Pause")
        }
    }
}

} // verus!
