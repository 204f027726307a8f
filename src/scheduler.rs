//! The update scheduler's run state and the decisions of its loops.

use vstd::prelude::*;

verus! {

/// Whether the process is running or shutting down.
#[derive(Clone, Copy, Debug, PartialEq, Eq, Structural)]
pub enum State {
    Running,
    Shutdown,
}

/// What the update loop does on a tick.
#[derive(Clone, Copy, Debug, PartialEq, Eq, Structural)]
pub enum TickAction {
    /// Run the pipeline once.
    Update,
    /// Leave the loop.
    Stop,
}

/// How many failed reads of the run state in a row are taken for a still running process.
pub const MAX_STATE_READ_FAILURES: u32 = 2;

/// How many failed starts of a command front-end in a row are retried.
pub const MAX_START_FAILURES: u32 = 2;

/// The update loop's memory between ticks.
pub struct UpdateLoop {
    pub failures: u32,
}

impl UpdateLoop {
    pub fn new() -> (r: UpdateLoop)
        ensures
            r.failures == 0,
    {
        UpdateLoop { failures: 0 }
    }

    /// Decides a tick from what reading the run state gave (`None`: the read
    /// failed). A running process updates, a shut down one stops; failed
    /// reads count as running until they come more than
    /// `MAX_STATE_READ_FAILURES` times in a row, then as shut down.
    pub fn on_tick(&mut self, read: Option<State>) -> (r: TickAction)
        ensures
            match read {
                Some(State::Running) => r == TickAction::Update && final(self).failures == 0,
                Some(State::Shutdown) => r == TickAction::Stop && final(self).failures == 0,
                None => {
                    &&& final(self).failures == if old(self).failures < u32::MAX {
                        old(self).failures + 1
                    } else {
                        old(self).failures as int
                    }
                    &&& (r == TickAction::Stop <==> final(self).failures > MAX_STATE_READ_FAILURES)
                },
            },
    {
        match read {
            Some(State::Running) => {
                self.failures = 0;
                TickAction::Update
            },
            Some(State::Shutdown) => {
                self.failures = 0;
                TickAction::Stop
            },
            None => {
                if self.failures < u32::MAX {
                    self.failures = self.failures + 1;
                }
                if self.failures > MAX_STATE_READ_FAILURES {
                    TickAction::Stop
                } else {
                    TickAction::Update
                }
            },
        }
    }
}

/// The state after an external shutdown request: shut down, whatever it was.
pub fn request_shutdown(state: &mut State)
    ensures
        *final(state) == State::Shutdown,
{
    *state = State::Shutdown;
}

/// Counts a failed start of a command front-end; the result says whether
/// to give up on it.
pub fn on_start_failure(failures: &mut u32) -> (give_up: bool)
    ensures
        *final(failures) == if *old(failures) < u32::MAX { *old(failures) + 1 } else { *old(failures) as int },
        give_up == (*final(failures) > MAX_START_FAILURES),
{
    if *failures < u32::MAX {
        *failures = *failures + 1;
    }
    *failures > MAX_START_FAILURES
}

} // verus!
