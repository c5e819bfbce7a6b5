use otamoryx::worker_loop::{next_action, IterationOutcome, RetryTimer, WorkerAction, FAILURE_PAUSE_MS};

#[test]
fn workers_run_again_wait_or_pause() {
    assert_eq!(next_action(IterationOutcome::Worked), WorkerAction::RunNow);
    assert_eq!(next_action(IterationOutcome::Idle(RetryTimer::In(0))), WorkerAction::RunNow);
    assert_eq!(
        next_action(IterationOutcome::Idle(RetryTimer::In(1_500))),
        WorkerAction::WaitForSignalAtMost(1_500)
    );
    assert_eq!(next_action(IterationOutcome::Idle(RetryTimer::Nothing)), WorkerAction::WaitForSignal);
    assert_eq!(
        next_action(IterationOutcome::Idle(RetryTimer::Unknown)),
        WorkerAction::WaitForSignalAtMost(30_000)
    );
    assert_eq!(next_action(IterationOutcome::Failed), WorkerAction::WaitForSignalAtMost(FAILURE_PAUSE_MS));
}
