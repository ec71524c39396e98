//! Waiting for the panel to become idle.
//!
//! The panel raises its busy line while it works. The driver reads the line,
//! and while it is high sleeps ten milliseconds at a time, thirty seconds at
//! most. The reading and the sleeping are the caller's; what to do after each
//! reading is decided here.

use vstd::prelude::*;

verus! {

/// Longest time to wait for the panel, in milliseconds.
pub const BUSY_TIMEOUT_MS: u32 = 30_000;

/// Time between two readings of the busy line, in milliseconds.
pub const BUSY_WAIT_DELAY_MS: u32 = 10;

/// What to do after a reading of the busy line.
#[derive(Copy, Clone, Debug, PartialEq, Eq, Structural)]
pub enum WaitStep {
    /// The panel is idle: the wait is over.
    Ready,
    /// Sleep for so many milliseconds, then read the line again.
    Delay(u32),
    /// The panel was busy for the whole of the allowed time: give up.
    TimedOut,
}

/// A wait for the panel: the time that is left of it.
pub struct BusyWait {
    remaining: u32,
}

impl View for BusyWait {
    type V = int;

    /// Milliseconds left.
    closed spec fn view(&self) -> int {
        self.remaining as int
    }
}

/// What follows a reading of the busy line when `remaining` milliseconds
/// are left.
pub open spec fn step_after(remaining: int, busy: bool) -> WaitStep {
    if !busy {
        WaitStep::Ready
    } else if remaining == 0 {
        WaitStep::TimedOut
    } else if remaining < BUSY_WAIT_DELAY_MS {
        WaitStep::Delay(remaining as u32)
    } else {
        WaitStep::Delay(BUSY_WAIT_DELAY_MS)
    }
}

impl BusyWait {
    /// Begins a wait with the whole of the allowed time left.
    pub fn new() -> (wait: BusyWait)
        ensures
            wait@ == BUSY_TIMEOUT_MS,
    {
        BusyWait { remaining: BUSY_TIMEOUT_MS }
    }

    /// Takes a reading of the busy line and says what to do next. A delay
    /// is taken off the time that is left.
    pub fn poll(&mut self, busy: bool) -> (step: WaitStep)
        ensures
            step == step_after(old(self)@, busy),
            final(self)@ == (match step {
                WaitStep::Delay(ms) => old(self)@ - ms,
                _ => old(self)@,
            }),
            0 <= final(self)@ <= old(self)@,
    {
        if !busy {
            return WaitStep::Ready;
        }
        if self.remaining == 0 {
            return WaitStep::TimedOut;
        }
        let delay_step: u32 = if self.remaining < BUSY_WAIT_DELAY_MS {
            self.remaining
        } else {
            BUSY_WAIT_DELAY_MS
        };
        self.remaining = self.remaining - delay_step;
        WaitStep::Delay(delay_step)
    }
}

/// A wait ends: every delay is at least a millisecond long and uses up time
/// that is left, so after at most `remaining` delays a busy panel times out.
pub proof fn lemma_wait_ends(remaining: int, busy: bool)
    requires
        0 <= remaining <= u32::MAX,
    ensures
        step_after(remaining, busy) matches WaitStep::Delay(ms) ==> 1 <= ms <= remaining && ms
            <= BUSY_WAIT_DELAY_MS,
        step_after(remaining, busy) == WaitStep::TimedOut <==> busy && remaining == 0,
        step_after(remaining, busy) == WaitStep::Ready <==> !busy,
{
}

} // verus!
