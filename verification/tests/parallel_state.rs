use block_stm::block_executor::{worker_step, FallbackController, FallbackReason};
use block_stm::parallel_state::{
    CommitOutcome, ExecutionOutcome, ParallelState, ValidationOutcome,
};
use block_stm::scheduler::{ExecutionState, Task};
use block_stm::sequential::BlockExecutionError;
use block_stm::synthetic::{SyntheticTask, SyntheticTransaction};
use block_stm::task::VMError;
use block_stm::types::CODE_KEYS_FROM;
use std::collections::HashMap;

const A: u128 = 1;
const B: u128 = 2;
const C: u128 = 3;

fn chain() -> Vec<SyntheticTransaction> {
    vec![
        SyntheticTransaction::new(vec![], vec![(A, 1)], 1),
        SyntheticTransaction::new(vec![A], vec![(B, 1)], 1),
        SyntheticTransaction::new(vec![B], vec![(C, 1)], 1),
    ]
}

fn state_of(txns: Vec<SyntheticTransaction>) -> ParallelState<SyntheticTask> {
    ParallelState::new(SyntheticTask, txns, HashMap::new(), None)
}

#[test]
fn stale_read_is_caught_by_validation_and_mended_by_re_execution() {
    let mut s = state_of(chain());
    assert_eq!(s.next_task_for(0), Task::Execute { txn_idx: 0, incarnation: 0 });
    assert_eq!(s.next_task_for(1), Task::Execute { txn_idx: 1, incarnation: 0 });
    // Transaction 1 runs before transaction 0 has written: it reads nothing
    // under A and writes B = 0 + 1.
    assert_eq!(s.advance(1, 0), ExecutionOutcome::InProgress);
    assert_eq!(s.advance(1, 0), ExecutionOutcome::Executed { wrote_new_keys: true });
    assert_eq!(s.try_commit(), CommitOutcome::NotReady);
    assert!(s.try_validate(1, 0));
    assert_eq!(s.validate(1, 0), ValidationOutcome::Valid);
    assert_eq!(s.try_commit(), CommitOutcome::NotReady);
    // Now transaction 0 writes A.
    assert_eq!(s.execute(0, 0), ExecutionOutcome::Executed { wrote_new_keys: true });
    assert!(!s.try_validate(1, 0));
    assert_eq!(s.validate(0, 0), ValidationOutcome::Valid);
    assert_eq!(s.try_commit(), CommitOutcome::Committed(0));
    // The validation of transaction 1 is older than the wave that
    // transaction 0 set off.
    assert_eq!(s.try_commit(), CommitOutcome::NotReady);
    assert_eq!(s.validate(1, 0), ValidationOutcome::Aborted);
    assert_eq!(s.status(1).incarnation, 1);
    assert_eq!(s.status(1).state, ExecutionState::ReadyToExecute);
    assert_eq!(s.next_task_for(0), Task::Execute { txn_idx: 1, incarnation: 1 });
    assert_eq!(s.execute(1, 1), ExecutionOutcome::Executed { wrote_new_keys: false });
    assert_eq!(s.validate(1, 1), ValidationOutcome::Valid);
    // After a validation that succeeded, checking again succeeds.
    assert!(s.try_validate(1, 1));
    assert!(s.try_validate(1, 1));
    assert_eq!(s.try_commit(), CommitOutcome::Committed(1));
    assert_eq!(s.committed_output(0).write_set, vec![(A, 1)]);
    assert_eq!(s.committed_output(1).write_set, vec![(B, 2)]);
    assert_eq!(s.num_committed(), 2);
    assert_eq!(s.committed_at(0), 0);
    assert_eq!(s.committed_at(1), 1);
}

#[test]
fn steps_in_the_order_of_the_block_commit_each_incarnation_zero() {
    let mut s = state_of(chain());
    s.next_task_for(0);
    assert_eq!(s.execute(0, 0), ExecutionOutcome::Executed { wrote_new_keys: true });
    assert_eq!(s.next_task_for(0), Task::Validate { txn_idx: 0, incarnation: 0 });
    assert_eq!(s.next_task_for(1), Task::Execute { txn_idx: 1, incarnation: 0 });
    assert_eq!(s.execute(1, 0), ExecutionOutcome::Executed { wrote_new_keys: true });
    assert_eq!(s.validate(0, 0), ValidationOutcome::Valid);
    assert_eq!(s.validate(1, 0), ValidationOutcome::Valid);
    assert_eq!(s.try_commit(), CommitOutcome::Committed(0));
    assert_eq!(s.try_commit(), CommitOutcome::Committed(1));
    assert_eq!(s.next_task_for(0), Task::Execute { txn_idx: 2, incarnation: 0 });
    assert_eq!(s.execute(2, 0), ExecutionOutcome::Executed { wrote_new_keys: true });
    assert_eq!(s.validate(2, 0), ValidationOutcome::Valid);
    assert_eq!(s.try_commit(), CommitOutcome::Committed(2));
    assert!(s.done());
    assert_eq!(s.try_commit(), CommitOutcome::NotReady);
    assert_eq!(s.committed_output(2).write_set, vec![(C, 3)]);
    for idx in 0..3 {
        assert_eq!(s.status(idx).incarnation, 0);
        assert_eq!(s.status(idx).state, ExecutionState::Committed);
    }
}

#[test]
fn reads_of_one_execution_interleave_with_the_steps_of_others() {
    // Transaction 1 reads B, then A; transaction 0 writes A.
    let txns = vec![
        SyntheticTransaction::new(vec![C], vec![(A, 1)], 1),
        SyntheticTransaction::new(vec![B, A], vec![(B, 1)], 1),
    ];
    let mut base = HashMap::new();
    base.insert(B, 10u64);
    let mut s = ParallelState::new(SyntheticTask, txns, base, None);
    s.next_task_for(0);
    s.next_task_for(1);
    // Transaction 1 reads B from the snapshot before transaction 0 has
    // written anything.
    assert_eq!(s.advance(1, 0), ExecutionOutcome::InProgress);
    assert_eq!(s.execute(0, 0), ExecutionOutcome::Executed { wrote_new_keys: true });
    // Its second read finds the write of transaction 0 to A.
    assert_eq!(s.advance(1, 0), ExecutionOutcome::InProgress);
    assert_eq!(s.advance(1, 0), ExecutionOutcome::Executed { wrote_new_keys: true });
    assert_eq!(s.validate(0, 0), ValidationOutcome::Valid);
    assert_eq!(s.validate(1, 0), ValidationOutcome::Valid);
    assert_eq!(s.try_commit(), CommitOutcome::Committed(0));
    assert_eq!(s.try_commit(), CommitOutcome::Committed(1));
    assert_eq!(s.committed_output(1).write_set, vec![(B, 12)]);
}

#[test]
fn read_of_estimate_aborts_the_execution() {
    let mut s = state_of(chain());
    s.next_task_for(0);
    s.next_task_for(1);
    s.next_task_for(2);
    assert_eq!(s.execute(1, 0), ExecutionOutcome::Executed { wrote_new_keys: true });
    assert_eq!(s.execute(0, 0), ExecutionOutcome::Executed { wrote_new_keys: true });
    assert_eq!(s.validate(1, 0), ValidationOutcome::Aborted);
    // The write of transaction 1 to B is an estimate now: transaction 2
    // meets it at its first read.
    assert_eq!(s.advance(2, 0), ExecutionOutcome::Aborted { blocked_on: Some(1) });
    assert_eq!(s.status(2).incarnation, 1);
    assert_eq!(s.status(2).blocked_on, Some(1));
}

#[test]
fn stale_tasks_do_nothing() {
    let mut s = state_of(chain());
    assert_eq!(s.advance(0, 0), ExecutionOutcome::Stale);
    assert_eq!(s.execute(0, 0), ExecutionOutcome::Stale);
    assert_eq!(s.validate(0, 0), ValidationOutcome::Stale);
    assert!(!s.try_validate(0, 0));
    s.next_task_for(0);
    assert_eq!(s.execute(0, 7), ExecutionOutcome::Stale);
    assert_eq!(s.execute(9, 0), ExecutionOutcome::Stale);
    assert_eq!(s.execute(0, 0), ExecutionOutcome::Executed { wrote_new_keys: true });
    assert_eq!(s.execute(0, 0), ExecutionOutcome::Stale);
    assert_eq!(s.validate(0, 1), ValidationOutcome::Stale);
}

#[test]
fn fatal_error_at_the_commit_point_fails_the_block() {
    let mut bad = SyntheticTransaction::new(vec![], vec![(A, 1)], 1);
    bad.abort_on = Some(0);
    let mut s = state_of(vec![bad]);
    s.next_task_for(0);
    assert_eq!(s.execute(0, 0), ExecutionOutcome::Executed { wrote_new_keys: false });
    assert_eq!(s.failure(), None);
    assert_eq!(s.validate(0, 0), ValidationOutcome::Valid);
    assert_eq!(
        s.try_commit(),
        CommitOutcome::Failed(BlockExecutionError::FatalVMError(VMError::Fatal(0)))
    );
    assert!(s.done());
    assert_eq!(s.failure(), Some(BlockExecutionError::FatalVMError(VMError::Fatal(0))));
    assert_eq!(
        s.finish_sequentially().err(),
        Some(BlockExecutionError::FatalVMError(VMError::Fatal(0)))
    );
}

#[test]
fn finishing_in_order_keeps_what_is_committed() {
    let mut s = state_of(chain());
    s.next_task_for(0);
    s.next_task_for(1);
    s.next_task_for(2);
    // Transactions 2 and 1 run on nothing; transaction 0 is committed.
    assert_eq!(s.execute(2, 0), ExecutionOutcome::Executed { wrote_new_keys: true });
    assert_eq!(s.execute(1, 0), ExecutionOutcome::Executed { wrote_new_keys: true });
    assert_eq!(s.execute(0, 0), ExecutionOutcome::Executed { wrote_new_keys: true });
    assert_eq!(s.validate(0, 0), ValidationOutcome::Valid);
    assert_eq!(s.try_commit(), CommitOutcome::Committed(0));
    let outputs = s.finish_sequentially().unwrap();
    assert_eq!(outputs.len(), 3);
    assert_eq!(outputs[0].write_set, vec![(A, 1)]);
    assert_eq!(outputs[1].write_set, vec![(B, 2)]);
    assert_eq!(outputs[2].write_set, vec![(C, 3)]);
}

#[test]
fn commit_stops_at_the_gas_limit() {
    let mut s = ParallelState::new(SyntheticTask, chain(), HashMap::new(), Some(1));
    s.next_task_for(0);
    assert_eq!(s.execute(0, 0), ExecutionOutcome::Executed { wrote_new_keys: true });
    assert_eq!(s.validate(0, 0), ValidationOutcome::Valid);
    assert!(!s.is_limit_hit());
    assert_eq!(s.try_commit(), CommitOutcome::Committed(0));
    assert!(s.is_limit_hit());
    assert!(s.done());
    assert_eq!(s.try_commit(), CommitOutcome::LimitReached);
    assert_eq!(s.next_task_for(0), Task::Done);
    let outputs = s.finish_sequentially().unwrap();
    assert_eq!(outputs[0].write_set, vec![(A, 1)]);
    assert!(outputs[1].write_set.is_empty());
    assert!(outputs[2].write_set.is_empty());
}

#[test]
fn worker_steps_drive_the_block_to_its_end() {
    let mut s = state_of(chain());
    let mut controller = FallbackController::new(2, 3);
    let mut held = [Task::Wait, Task::Wait];
    let mut turn = 0usize;
    while !s.done() {
        assert!(controller.tick());
        let w = turn % 2;
        held[w] = worker_step(&mut s, &mut controller, w, held[w]);
        turn += 1;
    }
    assert_eq!(controller.tripped(), None);
    assert_eq!(s.num_committed(), 3);
    assert_eq!(s.committed_output(2).write_set, vec![(C, 3)]);
}

#[test]
fn published_code_that_was_read_is_a_conflict() {
    let code = CODE_KEYS_FROM + 5;
    let txns = vec![
        SyntheticTransaction::new(vec![], vec![(code, 1)], 1),
        SyntheticTransaction::new(vec![code], vec![(A, 0)], 1),
    ];
    let mut s = state_of(txns);
    let mut controller = FallbackController::new(2, 2);
    assert_eq!(worker_step(&mut s, &mut controller, 0, Task::Wait), Task::Execute {
        txn_idx: 0,
        incarnation: 0
    });
    let t1 = worker_step(&mut s, &mut controller, 1, Task::Wait);
    assert_eq!(t1, Task::Execute { txn_idx: 1, incarnation: 0 });
    // Transaction 1 reads the code before transaction 0 publishes it.
    assert_eq!(worker_step(&mut s, &mut controller, 1, t1), t1);
    assert_eq!(worker_step(&mut s, &mut controller, 1, t1), Task::Wait);
    assert!(!s.has_code_conflict(0));
    assert_eq!(controller.tripped(), None);
    let t0 = Task::Execute { txn_idx: 0, incarnation: 0 };
    assert_eq!(worker_step(&mut s, &mut controller, 0, t0), Task::Wait);
    assert!(s.has_code_conflict(0));
    assert_eq!(
        controller.tripped(),
        Some(FallbackReason::CodePublishConflict { txn_idx: 0 })
    );
    assert!(!controller.tick());
    let outputs = s.finish_sequentially().unwrap();
    assert_eq!(outputs[1].write_set, vec![(A, 1)]);
}

#[test]
fn data_written_and_read_is_no_code_conflict() {
    let mut s = state_of(chain());
    s.next_task_for(0);
    s.next_task_for(1);
    assert_eq!(s.execute(1, 0), ExecutionOutcome::Executed { wrote_new_keys: true });
    assert_eq!(s.execute(0, 0), ExecutionOutcome::Executed { wrote_new_keys: true });
    assert!(!s.has_code_conflict(0));
    assert!(!s.has_code_conflict(1));
    assert!(!s.has_code_conflict(2));
    assert!(!s.has_code_conflict(99));
}
