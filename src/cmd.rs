//! The options a countdown is started with.
use vstd::prelude::*;

use crate::timer::TimeoutDuration;

verus! {

/// A countdown to run: its duration and the title shown above it.
#[derive(Debug)]
pub struct TimerOpt {
    pub duration: TimeoutDuration,
    pub title: String,
}

} // verus!
