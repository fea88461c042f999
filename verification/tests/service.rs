use windows_volume_guard::cli::GuardError;
use windows_volume_guard::service::{
    next_step, single_instance_check, GuardStep, Wakeup, REFRESH_INTERVAL_MS,
};

#[test]
fn refresh_interval_is_two_seconds() {
    assert_eq!(REFRESH_INTERVAL_MS, 2000);
}

#[test]
fn stop_signal_finishes_and_timeout_refreshes() {
    assert_eq!(next_step(Wakeup::StopSignaled), GuardStep::Finish);
    assert_eq!(next_step(Wakeup::TimedOut), GuardStep::RefreshOutputs);
}

#[test]
fn second_instance_is_refused() {
    assert_eq!(single_instance_check(false), Ok(()));
    assert_eq!(single_instance_check(true), Err(GuardError::AlreadyRunning));
    assert_eq!(GuardError::AlreadyRunning.message(), "windows-volume-guard is already running");
}
