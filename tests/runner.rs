use yrice::runner::{after_task, run_result, TaskOutcome};

#[test]
fn failures_are_counted_and_run_goes_on() {
    assert_eq!(after_task(0, TaskOutcome::Done), Some(0));
    assert_eq!(after_task(2, TaskOutcome::Failed), Some(3));
    assert_eq!(after_task(u64::MAX, TaskOutcome::Failed), Some(u64::MAX));
}

#[test]
fn unstartable_task_stops_run() {
    assert_eq!(after_task(5, TaskOutcome::Unstartable), None);
}

#[test]
fn run_result_reports_failures() {
    assert_eq!(run_result(0), Ok(()));
    assert_eq!(run_result(4), Err(4));
}
