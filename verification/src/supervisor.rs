//! The worker's lifecycle: spawn, monitor, observe termination.
//!
//! The supervisor owns the state machine `NotStarted -> Starting -> Running
//! -> Terminated` and synthesizes the termination notice that the
//! dispatcher fans out. One supervisor stands for one worker instance; it
//! never restarts the worker — a host that wants a restart makes a new
//! supervisor after observing termination.
use vstd::prelude::*;

use crate::classify::ClassifiedMessage;
use crate::classify::ClassifiedView;

verus! {

/// Where the worker stands in its lifecycle.
#[derive(Clone, Copy, PartialEq, Eq, Structural, Debug)]
pub enum WorkerState {
    /// No spawn has been requested yet.
    NotStarted,
    /// The process has been spawned; its output is not yet being read.
    Starting,
    /// The process is alive and its output stream is being read.
    Running,
    /// The process exited, was stopped, or failed to spawn.
    Terminated { exit_code: Option<i32> },
}

/// What a stop request obliges the host to do.
#[derive(Clone, Copy, PartialEq, Eq, Structural, Debug)]
pub enum StopAction {
    /// Close the worker's input, wait a bounded grace period, then force
    /// termination if it has not exited.
    Shutdown,
    /// The worker is not running; there is nothing to do.
    AlreadyStopped,
}

/// What a stop request does: a running or starting worker is shut down; a
/// worker never started or already terminated is left as it is, and the
/// second of two stop requests is always a no-op.
pub open spec fn spec_stop(s: WorkerState) -> (WorkerState, StopAction) {
    match s {
        WorkerState::Starting => (s, StopAction::Shutdown),
        WorkerState::Running => (s, StopAction::Shutdown),
        _ => (s, StopAction::AlreadyStopped),
    }
}

/// Owns one worker instance's lifecycle. The transitions are driven by the
/// host, which performs the process work and reports what it observed.
pub struct Supervisor {
    state: WorkerState,
}

impl View for Supervisor {
    type V = WorkerState;

    closed spec fn view(&self) -> WorkerState {
        self.state
    }
}

impl Supervisor {
    /// A supervisor for a worker not yet started.
    pub fn new() -> (s: Supervisor)
        ensures
            s@ == WorkerState::NotStarted,
    {
        Supervisor { state: WorkerState::NotStarted }
    }

    /// The current lifecycle state.
    pub fn state(&self) -> (r: WorkerState)
        ensures
            r == self@,
    {
        self.state
    }

    /// Whether requests may be written to the worker.
    pub fn is_running(&self) -> (r: bool)
        ensures
            r == (self@ is Running),
    {
        match self.state {
            WorkerState::Running => true,
            _ => false,
        }
    }

    /// The host has spawned the worker process.
    pub fn mark_starting(&mut self)
        requires
            old(self)@ is NotStarted,
        ensures
            final(self)@ == WorkerState::Starting,
    {
        self.state = WorkerState::Starting;
    }

    /// The reader of the worker's output stream is attached and reading.
    pub fn mark_running(&mut self)
        requires
            old(self)@ is Starting,
        ensures
            final(self)@ == WorkerState::Running,
    {
        self.state = WorkerState::Running;
    }

    /// The spawn failed; the failure is fatal to the start request and the
    /// worker goes straight to terminated, with no exit code.
    pub fn mark_spawn_failed(&mut self)
        requires
            old(self)@ is NotStarted,
        ensures
            final(self)@ == (WorkerState::Terminated { exit_code: None }),
    {
        self.state = WorkerState::Terminated { exit_code: None };
    }

    /// The host observed end-of-stream and process exit. The returned
    /// synthetic termination notice must be published through the
    /// dispatcher, so that every outstanding request fails and the reserved
    /// terminated channel is notified.
    pub fn observe_exit(&mut self, exit_code: Option<i32>) -> (m: ClassifiedMessage)
        requires
            old(self)@ is Starting || old(self)@ is Running,
        ensures
            final(self)@ == (WorkerState::Terminated { exit_code }),
            m@ == (ClassifiedView::Terminated { exit_code }),
    {
        self.state = WorkerState::Terminated { exit_code };
        ClassifiedMessage::Terminated { exit_code }
    }

    /// Requests a stop. The state is unchanged: termination is recorded
    /// when the host observes the exit that the shutdown forces. A stop of
    /// a worker that is already terminated, or was never started, does
    /// nothing and is not an error.
    pub fn stop(&mut self) -> (r: StopAction)
        ensures
            (final(self)@, r) == spec_stop(old(self)@),
    {
        match self.state {
            WorkerState::Starting => StopAction::Shutdown,
            WorkerState::Running => StopAction::Shutdown,
            _ => StopAction::AlreadyStopped,
        }
    }
}

/// Stopping is idempotent: a stop never changes the state, a second stop
/// asks for nothing new, and on a terminated or never-started worker a
/// stop is a no-op rather than an error.
pub proof fn lemma_stop_idempotent(s: WorkerState)
    ensures
        spec_stop(s).0 == s,
        spec_stop(spec_stop(s).0) == spec_stop(s),
        (s is Terminated || s is NotStarted) ==> spec_stop(s).1 == StopAction::AlreadyStopped,
{
}

} // verus!
