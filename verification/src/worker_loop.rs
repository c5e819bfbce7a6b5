//! The decisions of the background workers: after each iteration a worker
//! either runs again at once, or waits for its wake-up signal, possibly with a
//! timeout. The caller performs the waiting and reports what the iteration
//! and the retry-timer query gave.
use vstd::prelude::*;

verus! {

/// How long a worker pauses after a failed iteration or retry-timer query,
/// unless it is woken first.
pub const FAILURE_PAUSE_MS: u64 = 30_000;

/// What the earliest scheduled retry is.
#[derive(Clone, Copy, Debug, PartialEq, Eq, Structural)]
pub enum RetryTimer {
    /// A retry is due in this many milliseconds (0: now).
    In(u64),
    /// Nothing is scheduled.
    Nothing,
    /// The query for it failed.
    Unknown,
}

/// What one iteration of a worker found.
#[derive(Clone, Copy, Debug, PartialEq, Eq, Structural)]
pub enum IterationOutcome {
    /// It did some work.
    Worked,
    /// It found nothing to do; the retry timer says what comes next.
    Idle(RetryTimer),
    /// It failed.
    Failed,
}

/// What the worker does next.
#[derive(Clone, Copy, Debug, PartialEq, Eq, Structural)]
pub enum WorkerAction {
    RunNow,
    WaitForSignal,
    /// Wait for the signal, at most this many milliseconds.
    WaitForSignalAtMost(u64),
}

pub open spec fn action_after(outcome: IterationOutcome) -> WorkerAction {
    match outcome {
        IterationOutcome::Worked => WorkerAction::RunNow,
        IterationOutcome::Idle(RetryTimer::In(ms)) => if ms == 0 {
            WorkerAction::RunNow
        } else {
            WorkerAction::WaitForSignalAtMost(ms)
        },
        IterationOutcome::Idle(RetryTimer::Nothing) => WorkerAction::WaitForSignal,
        IterationOutcome::Idle(RetryTimer::Unknown) => WorkerAction::WaitForSignalAtMost(FAILURE_PAUSE_MS),
        IterationOutcome::Failed => WorkerAction::WaitForSignalAtMost(FAILURE_PAUSE_MS),
    }
}

/// A worker that did work, or whose next retry is due, runs again at once;
/// one with a retry scheduled waits until then unless woken; one with
/// nothing scheduled waits for its signal; after a failure it pauses.
pub fn next_action(outcome: IterationOutcome) -> (r: WorkerAction)
    ensures
        r == action_after(outcome),
{
    match outcome {
        IterationOutcome::Worked => WorkerAction::RunNow,
        IterationOutcome::Idle(RetryTimer::In(ms)) => if ms == 0 {
            WorkerAction::RunNow
        } else {
            WorkerAction::WaitForSignalAtMost(ms)
        },
        IterationOutcome::Idle(RetryTimer::Nothing) => WorkerAction::WaitForSignal,
        IterationOutcome::Idle(RetryTimer::Unknown) => WorkerAction::WaitForSignalAtMost(FAILURE_PAUSE_MS),
        IterationOutcome::Failed => WorkerAction::WaitForSignalAtMost(FAILURE_PAUSE_MS),
    }
}

/// A worker never sleeps without bound while a retry is scheduled or after a
/// failure: only an idle worker with nothing scheduled waits for its signal
/// alone, and no wait is longer than the scheduled retry or the failure pause.
pub proof fn law_waits_are_bounded_unless_idle(outcome: IterationOutcome)
    ensures
        action_after(outcome) == WorkerAction::WaitForSignal <==> outcome == IterationOutcome::Idle(RetryTimer::Nothing),
        action_after(outcome) matches WorkerAction::WaitForSignalAtMost(ms) ==> ms > 0 && (ms == FAILURE_PAUSE_MS || outcome
            == IterationOutcome::Idle(RetryTimer::In(ms))),
{
}

} // verus!
