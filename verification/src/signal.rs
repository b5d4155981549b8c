//! The control signal: a single tri-state word observed by every worker.
//!
//! 0 means running, 1 means a stop was requested, 2 means the executor has
//! drained its workers and stopped. Within one executor lifecycle the word
//! only moves forward (0 to 1 to 2); a restart resets it to 0.

use vstd::prelude::*;

verus! {

/// Signal value meaning the run is proceeding.
pub const SIG_RUNNING: u8 = 0;

/// Signal value meaning a cooperative stop was requested.
pub const SIG_STOP_REQUESTED: u8 = 1;

/// Signal value meaning the executor has drained its workers.
pub const SIG_STOPPED: u8 = 2;

/// The cooperative stop word. The process shares one `Signal` between the
/// dashboard (which requests stops) and the executor's workers (which poll
/// it at every safe boundary).
pub struct Signal {
    value: u8,
}

impl Signal {
    /// The current word, for contracts.
    pub closed spec fn spec_get(self) -> u8 {
        self.value
    }

    /// A signal holds one of the three states.
    pub open spec fn wf(self) -> bool {
        self.spec_get() == SIG_RUNNING || self.spec_get() == SIG_STOP_REQUESTED
            || self.spec_get() == SIG_STOPPED
    }

    /// A fresh signal reads `running`.
    pub fn new() -> (s: Signal)
        ensures
            s.spec_get() == SIG_RUNNING,
            s.wf(),
    {
        Signal { value: SIG_RUNNING }
    }

    /// Reads the word.
    pub fn get(&self) -> (v: u8)
        ensures
            v == self.spec_get(),
    {
        self.value
    }

    /// Writes the word. Transitions only move forward within a lifecycle,
    /// or reset to `running` for a new run.
    pub fn set(&mut self, v: u8)
        requires
            v == SIG_RUNNING || (v == old(self).spec_get() + 1 && v <= SIG_STOPPED),
        ensures
            final(self).spec_get() == v,
            final(self).wf(),
    {
        self.value = v;
    }
}

} // verus!
