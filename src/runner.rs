//! The run's policy on failures: a task that fails is counted and the run
//! goes on; a task that cannot even be started stops the run; a run that
//! counted failures ends in an error.
use vstd::prelude::*;

verus! {

/// What came of one task.
#[derive(Debug, Clone, Copy, PartialEq, Eq, Structural)]
pub enum TaskOutcome {
    /// It succeeded.
    Done,
    /// It ran and failed: a nonzero exit, or a file that could not be put in place.
    Failed,
    /// It could not be started at all.
    Unstartable,
}

/// The failure count after a task, or `None` when the run stops. The count
/// saturates at its largest value.
pub fn after_task(failures: u64, outcome: TaskOutcome) -> (r: Option<u64>)
    ensures
        match outcome {
            TaskOutcome::Done => r == Some(failures),
            TaskOutcome::Failed => r == Some(if failures < u64::MAX {
                (failures + 1) as u64
            } else {
                failures
            }),
            TaskOutcome::Unstartable => r is None,
        },
{
    match outcome {
        TaskOutcome::Done => Some(failures),
        TaskOutcome::Failed => {
            if failures < u64::MAX {
                Some(failures + 1)
            } else {
                Some(failures)
            }
        },
        TaskOutcome::Unstartable => None,
    }
}

/// The result of a run that went through every module: an error with the
/// number of failures when there were any.
pub fn run_result(failures: u64) -> (r: Result<(), u64>)
    ensures
        failures == 0 ==> r is Ok,
        failures != 0 ==> r == Err::<(), u64>(failures),
{
    if failures == 0 {
        Ok(())
    } else {
        Err(failures)
    }
}

} // verus!
