//! The decisions of the running guard: whether it may start, and what it
//! does each time its wait for the stop signal ends.
use vstd::prelude::*;
use crate::cli::GuardError;

verus! {

/// How long the guard waits for the stop signal before it looks for newly
/// attached audio outputs, in milliseconds.
pub const REFRESH_INTERVAL_MS: u32 = 2000;

/// Why the guard's wait ended.
#[derive(Clone, Copy, Debug, PartialEq, Eq, Structural)]
pub enum Wakeup {
    /// The stop signal was set.
    StopSignaled,
    /// The wait ended without the stop signal: the refresh interval passed,
    /// or the wait itself failed.
    TimedOut,
}

/// What the guard does next.
#[derive(Clone, Copy, Debug, PartialEq, Eq, Structural)]
pub enum GuardStep {
    /// Stop watching and end the process.
    Finish,
    /// Look for audio outputs again; a failure there is only warned about.
    RefreshOutputs,
}

/// The step after a wait: finish once the stop signal is set, and refresh
/// the watched outputs otherwise.
pub fn next_step(wakeup: Wakeup) -> (r: GuardStep)
    ensures
        r == (if wakeup is StopSignaled {
            GuardStep::Finish
        } else {
            GuardStep::RefreshOutputs
        }),
{
    match wakeup {
        Wakeup::StopSignaled => GuardStep::Finish,
        Wakeup::TimedOut => GuardStep::RefreshOutputs,
    }
}

/// Whether the guard may start: only one guard runs per user, so it is
/// refused where the single-instance mutex already existed.
pub fn single_instance_check(mutex_already_existed: bool) -> (r: Result<(), GuardError>)
    ensures
        r is Err <==> mutex_already_existed,
        r is Err ==> r == Err::<(), GuardError>(GuardError::AlreadyRunning),
{
    if mutex_already_existed {
        Err(GuardError::AlreadyRunning)
    } else {
        Ok(())
    }
}

} // verus!
