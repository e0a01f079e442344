use block_stm::scheduler::{ExecutionState, Scheduler, Task};

#[test]
fn hands_out_executions_in_order_of_index() {
    let mut s = Scheduler::new(3);
    assert_eq!(s.next_task_for(0), Task::Execute { txn_idx: 0, incarnation: 0 });
    assert_eq!(s.next_task_for(1), Task::Execute { txn_idx: 1, incarnation: 0 });
    assert_eq!(s.next_task_for(2), Task::Execute { txn_idx: 2, incarnation: 0 });
    assert_eq!(s.next_task_for(3), Task::Wait);
    assert_eq!(s.status(1).state, ExecutionState::Executing);
    assert_eq!(s.status(1).owner, Some(1));
}

#[test]
fn empty_block_is_done_at_once() {
    let mut s = Scheduler::new(0);
    assert!(s.done());
    assert_eq!(s.next_task_for(0), Task::Done);
}

#[test]
fn validation_of_a_lower_index_comes_before_execution_of_a_higher() {
    let mut s = Scheduler::new(3);
    assert_eq!(s.next_task_for(0), Task::Execute { txn_idx: 0, incarnation: 0 });
    assert!(s.finish_execution(0, 0, true));
    assert_eq!(s.status(0).state, ExecutionState::Executed);
    assert_eq!(s.wave(), 1);
    assert_eq!(s.next_task_for(0), Task::Validate { txn_idx: 0, incarnation: 0 });
    // The validation is held by a worker: it is not handed out twice.
    assert_eq!(s.next_task_for(1), Task::Execute { txn_idx: 1, incarnation: 0 });
}

#[test]
fn commit_needs_execution_and_validation() {
    let mut s = Scheduler::new(2);
    assert!(!s.is_commit_ready());
    assert_eq!(s.try_commit(), None);
    s.next_task_for(0);
    assert!(s.finish_execution(0, 0, true));
    assert!(!s.is_commit_ready());
    assert!(s.finish_validation(0, 0, true));
    assert!(s.is_commit_ready());
    assert_eq!(s.try_commit(), Some(0));
    assert_eq!(s.commit_idx(), 1);
    assert_eq!(s.status(0).state, ExecutionState::Committed);
    assert!(!s.done());
    assert_eq!(s.try_commit(), None);
}

#[test]
fn commit_is_strictly_in_order() {
    let mut s = Scheduler::new(2);
    s.next_task_for(0);
    s.next_task_for(1);
    assert!(s.finish_execution(1, 0, true));
    assert!(s.finish_validation(1, 0, true));
    // Transaction 1 is validated, but transaction 0 has not run.
    assert!(!s.is_commit_ready());
    assert_eq!(s.try_commit(), None);
    assert!(s.finish_execution(0, 0, true));
    assert!(s.finish_validation(0, 0, true));
    assert_eq!(s.try_commit(), Some(0));
    // Transaction 0 set off a wave after transaction 1 was validated.
    assert!(!s.is_commit_ready());
    assert_eq!(s.next_task_for(0), Task::Validate { txn_idx: 1, incarnation: 0 });
    assert!(s.finish_validation(1, 0, true));
    assert_eq!(s.try_commit(), Some(1));
    assert!(s.done());
    assert_eq!(s.next_task_for(0), Task::Done);
}

#[test]
fn execution_without_new_keys_sets_off_no_wave() {
    let mut s = Scheduler::new(2);
    s.next_task_for(0);
    s.next_task_for(1);
    assert!(s.finish_execution(1, 0, true));
    assert!(s.finish_validation(1, 0, true));
    assert!(s.finish_execution(0, 0, false));
    assert_eq!(s.wave(), 1);
    assert!(s.finish_validation(0, 0, true));
    assert_eq!(s.try_commit(), Some(0));
    // The validation of transaction 1 still stands.
    assert_eq!(s.try_commit(), Some(1));
}

#[test]
fn failed_validation_raises_the_incarnation_and_requeues() {
    let mut s = Scheduler::new(2);
    s.next_task_for(0);
    assert!(s.finish_execution(0, 0, true));
    let wave = s.wave();
    assert!(s.finish_validation(0, 0, false));
    assert_eq!(s.status(0).incarnation, 1);
    assert_eq!(s.status(0).state, ExecutionState::ReadyToExecute);
    assert_eq!(s.wave(), wave + 1);
    assert_eq!(s.next_task_for(0), Task::Execute { txn_idx: 0, incarnation: 1 });
}

#[test]
fn aborted_execution_waits_for_the_transaction_that_blocks_it() {
    let mut s = Scheduler::new(3);
    s.next_task_for(0);
    s.next_task_for(1);
    assert!(s.abort_execution(1, 0, Some(0)));
    assert_eq!(s.status(1).incarnation, 1);
    assert_eq!(s.status(1).blocked_on, Some(0));
    // Transaction 0 has not run yet: transaction 1 is passed over.
    assert_eq!(s.next_task_for(1), Task::Execute { txn_idx: 2, incarnation: 0 });
    assert_eq!(s.next_task_for(1), Task::Wait);
    assert!(s.finish_execution(0, 0, true));
    assert_eq!(s.next_task_for(1), Task::Validate { txn_idx: 0, incarnation: 0 });
    assert_eq!(s.next_task_for(1), Task::Execute { txn_idx: 1, incarnation: 1 });
}

#[test]
fn stale_reports_are_not_taken() {
    let mut s = Scheduler::new(2);
    // Nothing is executing.
    assert!(!s.finish_execution(0, 0, true));
    assert!(!s.abort_execution(0, 0, None));
    assert!(!s.finish_validation(0, 0, true));
    s.next_task_for(0);
    // Wrong incarnation, index out of range.
    assert!(!s.finish_execution(0, 1, true));
    assert!(!s.finish_execution(5, 0, true));
    assert!(s.finish_execution(0, 0, true));
    assert!(!s.finish_execution(0, 0, true));
    assert!(!s.finish_validation(0, 3, true));
    assert_eq!(s.wave(), 1);
}

#[test]
fn halt_stops_the_block() {
    let mut s = Scheduler::new(2);
    assert!(!s.halt());
    s.next_task_for(0);
    assert!(s.finish_execution(0, 0, false));
    assert!(s.finish_validation(0, 0, true));
    assert!(s.halt());
    assert!(s.is_halted());
    assert!(s.done());
    assert_eq!(s.status(0).state, ExecutionState::Aborted);
    assert_eq!(s.next_task_for(0), Task::Done);
    assert_eq!(s.try_commit(), None);
    assert_eq!(s.commit_idx(), 0);
}
