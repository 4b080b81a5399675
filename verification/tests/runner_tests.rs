use subforge::runner::occupies_runner_slot;
use subforge::task::{STATUS_PAUSE_REQUESTED, STATUS_PENDING, STATUS_QUEUED, STATUS_RUNNING};

#[test]
fn queued_tasks_do_not_consume_runner_slots() {
    assert!(!occupies_runner_slot(STATUS_PENDING));
    assert!(!occupies_runner_slot(STATUS_QUEUED));
    assert!(occupies_runner_slot(STATUS_RUNNING));
    assert!(occupies_runner_slot(STATUS_PAUSE_REQUESTED));
}
