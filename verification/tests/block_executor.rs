use block_stm::block_executor::{
    worker_step, BlockExecutor, BlockExecutorConfig, BlockExecutorConfigFromOnchain,
    BlockExecutorLocalConfig, FallbackController, FallbackReason,
};
use block_stm::parallel_state::ParallelState;
use block_stm::scheduler::Task;
use block_stm::sequential::{execute_block_sequential, BlockExecutionError, PanicError};
use block_stm::synthetic::{SyntheticTask, SyntheticTransaction};
use block_stm::task::{TransactionOutput, TransactionStatus, VMError};
use std::collections::HashMap;

const A: u128 = 10;
const B: u128 = 11;
const C: u128 = 12;

fn config(concurrency_level: usize, allow_fallback: bool) -> BlockExecutorConfig {
    BlockExecutorConfig {
        local: BlockExecutorLocalConfig { concurrency_level, allow_fallback },
        onchain: BlockExecutorConfigFromOnchain::new_no_block_limit(),
    }
}

fn chain() -> Vec<SyntheticTransaction> {
    vec![
        SyntheticTransaction::new(vec![], vec![(A, 1)], 1),
        SyntheticTransaction::new(vec![A], vec![(B, 1)], 1),
        SyntheticTransaction::new(vec![B], vec![(C, 1)], 1),
    ]
}

fn final_state(base: &HashMap<u128, u64>, outputs: &[TransactionOutput]) -> HashMap<u128, u64> {
    let mut state = base.clone();
    for out in outputs {
        for (k, v) in &out.write_set {
            state.insert(*k, *v);
        }
    }
    state
}

fn write_sets(outputs: &[TransactionOutput]) -> Vec<Vec<(u128, u64)>> {
    outputs.iter().map(|o| o.write_set.clone()).collect()
}

#[test]
fn chain_of_three_with_four_workers() {
    let executor = BlockExecutor::new(config(4, true));
    let out = executor.execute_block(SyntheticTask, chain(), HashMap::new()).unwrap();
    let outputs = out.transaction_outputs;
    assert_eq!(outputs.len(), 3);
    assert_eq!(outputs[0].write_set, vec![(A, 1)]);
    assert_eq!(outputs[1].write_set, vec![(B, 2)]);
    assert_eq!(outputs[2].write_set, vec![(C, 3)]);
    let state = final_state(&HashMap::new(), &outputs);
    assert_eq!(state.get(&A), Some(&1));
    assert_eq!(state.get(&B), Some(&2));
    assert_eq!(state.get(&C), Some(&3));
    let info = out.block_end_info.unwrap();
    assert_eq!(info.block_gas_used, 3);
    assert_eq!(info.committed_in_parallel, 3);
    assert_eq!(info.fallback, None);
}

#[test]
fn chain_of_three_under_many_schedules() {
    let expected = vec![vec![(A, 1u64)], vec![(B, 2)], vec![(C, 3)]];
    let mut seed: u64 = 7;
    for _ in 0..200 {
        let mut schedule = Vec::new();
        for _ in 0..64 {
            seed = seed.wrapping_mul(6364136223846793005).wrapping_add(1442695040888963407);
            schedule.push((seed >> 33) as usize);
        }
        let executor = BlockExecutor::new(config(4, true));
        let out = executor
            .execute_block_with_schedule(SyntheticTask, chain(), HashMap::new(), &schedule)
            .unwrap();
        assert_eq!(write_sets(&out.transaction_outputs), expected);
    }
}

#[test]
fn speculation_out_of_order_converges() {
    // Worker 2 is handed the last transaction first and runs it before the
    // others have written anything.
    let schedule = vec![0, 1, 2, 2, 1, 0, 0, 1, 2, 0, 1, 2];
    let executor = BlockExecutor::new(config(3, true));
    let out = executor
        .execute_block_with_schedule(SyntheticTask, chain(), HashMap::new(), &schedule)
        .unwrap();
    assert_eq!(
        write_sets(&out.transaction_outputs),
        vec![vec![(A, 1u64)], vec![(B, 2)], vec![(C, 3)]]
    );
}

#[test]
fn parallel_equals_sequential_on_dependent_blocks() {
    let mut seed: u64 = 99;
    let mut next = move |bound: u64| {
        seed = seed.wrapping_mul(6364136223846793005).wrapping_add(1442695040888963407);
        (seed >> 33) % bound
    };
    for round in 0..60 {
        let n = 1 + next(12) as usize;
        let mut base = HashMap::new();
        for k in 0..4u128 {
            base.insert(k, next(100));
        }
        let make = |next: &mut dyn FnMut(u64) -> u64| {
            let mut txns = Vec::new();
            for _ in 0..n {
                let reads = (0..next(3)).map(|_| next(6) as u128).collect();
                let writes = (0..next(3)).map(|_| (next(6) as u128, next(5))).collect();
                txns.push(SyntheticTransaction::new(reads, writes, next(10)));
            }
            txns
        };
        let mut recorded: Vec<(Vec<u128>, Vec<(u128, u64)>, u64)> = Vec::new();
        for t in make(&mut next) {
            recorded.push((t.reads, t.writes, t.gas));
        }
        let build = || {
            recorded
                .iter()
                .map(|(r, w, g)| SyntheticTransaction::new(r.clone(), w.clone(), *g))
                .collect::<Vec<_>>()
        };
        let sequential = execute_block_sequential(&SyntheticTask, &build(), &base).unwrap();
        for workers in [2usize, 3, 8] {
            let schedule: Vec<usize> = (0..40).map(|_| next(16) as usize).collect();
            let executor = BlockExecutor::new(config(workers, true));
            let parallel = executor
                .execute_block_with_schedule(SyntheticTask, build(), base.clone(), &schedule)
                .unwrap();
            assert_eq!(
                write_sets(&parallel.transaction_outputs),
                write_sets(&sequential),
                "round {round}, {workers} workers"
            );
            assert_eq!(
                final_state(&base, &parallel.transaction_outputs),
                final_state(&base, &sequential)
            );
        }
    }
}

#[test]
fn one_worker_runs_in_order() {
    let executor = BlockExecutor::new(config(1, true));
    let out = executor.execute_block(SyntheticTask, chain(), HashMap::new()).unwrap();
    assert_eq!(
        write_sets(&out.transaction_outputs),
        vec![vec![(A, 1u64)], vec![(B, 2)], vec![(C, 3)]]
    );
    let info = out.block_end_info.unwrap();
    assert_eq!(info.fallback, Some(FallbackReason::ParallelismDisabled));
    assert_eq!(info.committed_in_parallel, 0);
}

#[test]
fn forced_fallback_gives_the_same_outputs() {
    let parallel = BlockExecutor::new(config(4, true))
        .execute_block(SyntheticTask, chain(), HashMap::new())
        .unwrap();
    let in_order = BlockExecutor::new(config(0, true))
        .execute_block(SyntheticTask, chain(), HashMap::new())
        .unwrap();
    assert_eq!(
        write_sets(&parallel.transaction_outputs),
        write_sets(&in_order.transaction_outputs)
    );
}

#[test]
fn empty_block_has_no_outputs() {
    let executor = BlockExecutor::new(config(4, false));
    let out = executor.execute_block(SyntheticTask, Vec::new(), HashMap::new()).unwrap();
    assert!(out.transaction_outputs.is_empty());
    assert_eq!(out.block_end_info.unwrap().block_gas_used, 0);
}

#[test]
fn base_snapshot_is_read_where_no_transaction_wrote() {
    let mut base = HashMap::new();
    base.insert(A, 40u64);
    let txns = vec![SyntheticTransaction::new(vec![A, B], vec![(C, 2)], 5)];
    let out = BlockExecutor::new(config(2, true)).execute_block(SyntheticTask, txns, base).unwrap();
    assert_eq!(out.transaction_outputs[0].write_set, vec![(C, 42)]);
    assert_eq!(out.transaction_outputs[0].gas_used, 5);
    assert_eq!(out.transaction_outputs[0].status, TransactionStatus::Keep);
}

#[test]
fn fatal_error_fails_the_block() {
    let mut bad = SyntheticTransaction::new(vec![A], vec![(B, 1)], 1);
    bad.abort_on = Some(1);
    let txns = || {
        let mut bad = SyntheticTransaction::new(vec![A], vec![(B, 1)], 1);
        bad.abort_on = Some(1);
        vec![SyntheticTransaction::new(vec![], vec![(A, 1)], 1), bad]
    };
    let _ = bad;
    for workers in [1usize, 2, 4] {
        let result = BlockExecutor::new(config(workers, true))
            .execute_block(SyntheticTask, txns(), HashMap::new());
        assert_eq!(
            result.err(),
            Some(BlockExecutionError::FatalVMError(VMError::Fatal(1)))
        );
    }
}

#[test]
fn error_seen_only_speculatively_is_not_surfaced() {
    // The second transaction fails on the sum zero, which it sees only if it
    // runs before the first has written.
    let txns = || {
        let mut second = SyntheticTransaction::new(vec![A], vec![(B, 1)], 1);
        second.abort_on = Some(0);
        vec![SyntheticTransaction::new(vec![], vec![(A, 1)], 1), second]
    };
    // Worker 1 takes and runs the second transaction first.
    let schedule = vec![0, 1, 1, 0, 0, 1, 0, 1];
    let out = BlockExecutor::new(config(2, true))
        .execute_block_with_schedule(SyntheticTask, txns(), HashMap::new(), &schedule)
        .unwrap();
    assert_eq!(write_sets(&out.transaction_outputs), vec![vec![(A, 1u64)], vec![(B, 2)]]);
}

#[test]
fn task_that_always_gives_up_fails_the_block_in_order() {
    let txns = || {
        let mut t = SyntheticTransaction::new(vec![A], vec![(B, 1)], 1);
        t.give_up_on = Some(0);
        vec![t]
    };
    let expected = Some(BlockExecutionError::FatalBlockExecutorError(
        PanicError::SpeculativeAbortInSequentialExecution,
    ));
    let result =
        BlockExecutor::new(config(4, true)).execute_block(SyntheticTask, txns(), HashMap::new());
    assert_eq!(result.err(), expected);
    let result =
        BlockExecutor::new(config(1, true)).execute_block(SyntheticTask, txns(), HashMap::new());
    assert_eq!(result.err(), expected);
}

#[test]
fn thrashing_without_fallback_is_reported() {
    let txns = || {
        let mut t = SyntheticTransaction::new(vec![A], vec![(B, 1)], 1);
        t.give_up_on = Some(0);
        vec![t]
    };
    let result =
        BlockExecutor::new(config(4, false)).execute_block(SyntheticTask, txns(), HashMap::new());
    assert_eq!(
        result.err(),
        Some(BlockExecutionError::FatalBlockExecutorError(PanicError::FallbackNotAllowed))
    );
}

#[test]
fn gas_is_summed_and_capped() {
    let txns = vec![
        SyntheticTransaction::new(vec![], vec![], u64::MAX - 1),
        SyntheticTransaction::new(vec![], vec![], 5),
    ];
    let out = BlockExecutor::new(config(2, true))
        .execute_block(SyntheticTask, txns, HashMap::new())
        .unwrap();
    assert_eq!(out.block_end_info.unwrap().block_gas_used, u64::MAX);
}

#[test]
fn later_write_to_a_key_wins() {
    let txns = vec![
        SyntheticTransaction::new(vec![], vec![(A, 1), (A, 7)], 0),
        SyntheticTransaction::new(vec![A], vec![(B, 0)], 0),
    ];
    let out = BlockExecutor::new(config(3, true))
        .execute_block(SyntheticTask, txns, HashMap::new())
        .unwrap();
    assert_eq!(out.transaction_outputs[1].write_set, vec![(B, 7)]);
}

fn limited(concurrency_level: usize, limit: u64) -> BlockExecutorConfig {
    BlockExecutorConfig {
        local: BlockExecutorLocalConfig { concurrency_level, allow_fallback: true },
        onchain: BlockExecutorConfigFromOnchain { block_gas_limit: Some(limit) },
    }
}

#[test]
fn gas_limit_leaves_out_the_rest_of_the_block() {
    // Each transaction uses one unit of gas: with a limit of two the third
    // transaction is left out.
    for workers in [1usize, 2, 4] {
        let out = BlockExecutor::new(limited(workers, 2))
            .execute_block(SyntheticTask, chain(), HashMap::new())
            .unwrap();
        let outputs = &out.transaction_outputs;
        assert_eq!(outputs.len(), 3);
        assert_eq!(outputs[0].write_set, vec![(A, 1)]);
        assert_eq!(outputs[1].write_set, vec![(B, 2)]);
        assert!(outputs[2].write_set.is_empty());
        assert_eq!(outputs[2].status, TransactionStatus::Retry);
        assert_eq!(outputs[2].gas_used, 0);
        let info = out.block_end_info.unwrap();
        assert!(info.block_gas_limit_reached);
        assert_eq!(info.block_gas_used, 2);
    }
}

#[test]
fn first_transaction_runs_whatever_the_limit() {
    for workers in [1usize, 3] {
        let out = BlockExecutor::new(limited(workers, 0))
            .execute_block(SyntheticTask, chain(), HashMap::new())
            .unwrap();
        assert_eq!(out.transaction_outputs[0].write_set, vec![(A, 1)]);
        assert_eq!(out.transaction_outputs[1].status, TransactionStatus::Retry);
        assert_eq!(out.transaction_outputs[2].status, TransactionStatus::Retry);
    }
}

#[test]
fn failure_behind_the_limit_does_not_fail_the_block() {
    let txns = || {
        let mut bad = SyntheticTransaction::new(vec![], vec![], 1);
        bad.abort_on = Some(0);
        vec![
            SyntheticTransaction::new(vec![], vec![(A, 1)], 5),
            SyntheticTransaction::new(vec![A], vec![(B, 1)], 5),
            bad,
        ]
    };
    for workers in [1usize, 4] {
        let out = BlockExecutor::new(limited(workers, 10))
            .execute_block(SyntheticTask, txns(), HashMap::new())
            .unwrap();
        assert_eq!(out.transaction_outputs[1].write_set, vec![(B, 2)]);
        assert_eq!(out.transaction_outputs[2].status, TransactionStatus::Retry);
        let failed = BlockExecutor::new(limited(workers, 11))
            .execute_block(SyntheticTask, txns(), HashMap::new());
        assert_eq!(
            failed.err(),
            Some(BlockExecutionError::FatalVMError(VMError::Fatal(0)))
        );
    }
}

#[test]
fn limit_that_is_not_reached_changes_nothing() {
    let out = BlockExecutor::new(limited(4, 100))
        .execute_block(SyntheticTask, chain(), HashMap::new())
        .unwrap();
    assert_eq!(
        write_sets(&out.transaction_outputs),
        vec![vec![(A, 1u64)], vec![(B, 2)], vec![(C, 3)]]
    );
    assert!(!out.block_end_info.unwrap().block_gas_limit_reached);
}

#[test]
fn code_publish_conflict_falls_back_with_the_same_outputs() {
    let code = block_stm::types::CODE_KEYS_FROM + 1;
    let txns = || {
        vec![
            SyntheticTransaction::new(vec![], vec![(code, 9)], 1),
            SyntheticTransaction::new(vec![code], vec![(A, 0)], 1),
            SyntheticTransaction::new(vec![A], vec![(B, 1)], 1),
        ]
    };
    // Worker 1 runs the second transaction to its end before the first
    // publishes.
    let schedule = vec![0, 1, 1, 1, 0, 0, 0, 1];
    let out = BlockExecutor::new(config(2, true))
        .execute_block_with_schedule(SyntheticTask, txns(), HashMap::new(), &schedule)
        .unwrap();
    assert_eq!(
        write_sets(&out.transaction_outputs),
        vec![vec![(code, 9u64)], vec![(A, 9)], vec![(B, 10)]]
    );
    assert_eq!(
        out.block_end_info.unwrap().fallback,
        Some(FallbackReason::CodePublishConflict { txn_idx: 0 })
    );
    let refused = BlockExecutor::new(config(2, false))
        .execute_block_with_schedule(SyntheticTask, txns(), HashMap::new(), &schedule);
    assert_eq!(
        refused.err(),
        Some(BlockExecutionError::FatalBlockExecutorError(PanicError::FallbackNotAllowed))
    );
}

#[test]
fn thrashing_falls_back_and_reports_it() {
    let txns = || {
        let mut t = SyntheticTransaction::new(vec![A], vec![(B, 1)], 1);
        t.give_up_on = Some(5);
        vec![t]
    };
    let mut base = HashMap::new();
    base.insert(A, 5u64);
    let result = BlockExecutor::new(config(2, true)).execute_block(SyntheticTask, txns(), base);
    assert_eq!(
        result.err(),
        Some(BlockExecutionError::FatalBlockExecutorError(
            PanicError::SpeculativeAbortInSequentialExecution
        ))
    );
}

#[test]
fn code_published_by_transaction_five_is_seen_by_six_to_nine_only() {
    let code = block_stm::types::CODE_KEYS_FROM + 42;
    let txns = || {
        (0..10u128)
            .map(|i| {
                if i == 5 {
                    SyntheticTransaction::new(vec![], vec![(code, 1000), (100 + i, 0)], 1)
                } else {
                    // Writes what it finds under the code's key.
                    SyntheticTransaction::new(vec![code], vec![(100 + i, 0)], 1)
                }
            })
            .collect::<Vec<_>>()
    };
    let mut seed: u64 = 3;
    for round in 0..40 {
        let schedule: Vec<usize> = (0..80)
            .map(|_| {
                seed = seed.wrapping_mul(6364136223846793005).wrapping_add(1442695040888963407);
                (seed >> 33) as usize
            })
            .collect();
        for allow_fallback in [true] {
            let out = BlockExecutor::new(config(2 + round % 5, allow_fallback))
                .execute_block_with_schedule(SyntheticTask, txns(), HashMap::new(), &schedule)
                .unwrap();
            for (i, output) in out.transaction_outputs.iter().enumerate() {
                let seen = output.write_set.last().unwrap().1;
                let expected = if i > 5 { 1000 } else { 0 };
                assert_eq!(seen, expected, "transaction {i}, round {round}");
            }
        }
    }
}

#[test]
fn finishing_without_fallback_gives_up_what_is_not_done() {
    let state = ParallelState::new(SyntheticTask, chain(), HashMap::new(), None);
    let controller = FallbackController::new(4, 3);
    assert!(!state.done());
    assert_eq!(
        BlockExecutor::new(config(4, false)).finish(&state, &controller).err(),
        Some(BlockExecutionError::FatalBlockExecutorError(PanicError::FallbackNotAllowed))
    );
    // Where falling back is permitted the rest is run in order.
    let out = BlockExecutor::new(config(4, true)).finish(&state, &controller).unwrap();
    assert_eq!(write_sets(&out.transaction_outputs), vec![
        vec![(A, 1)],
        vec![(B, 2)],
        vec![(C, 3)]
    ]);
    let info = out.block_end_info.unwrap();
    assert_eq!(info.committed_in_parallel, 0);
    assert_eq!(info.fallback, None);
    assert_eq!(info.block_gas_used, 3);
}

#[test]
fn finishing_after_the_workers_are_done() {
    let mut state = ParallelState::new(SyntheticTask, chain(), HashMap::new(), None);
    let mut controller = FallbackController::new(2, 3);
    let mut held = [Task::Wait, Task::Wait];
    let mut step = 0usize;
    while !state.done() && controller.tick() {
        let worker = step % 2;
        held[worker] = worker_step(&mut state, &mut controller, worker, held[worker]);
        step += 1;
    }
    assert!(state.done());
    let out = BlockExecutor::new(config(2, false)).finish(&state, &controller).unwrap();
    assert_eq!(write_sets(&out.transaction_outputs), vec![
        vec![(A, 1)],
        vec![(B, 2)],
        vec![(C, 3)]
    ]);
    let info = out.block_end_info.unwrap();
    assert_eq!(info.committed_in_parallel, 3);
    assert_eq!(info.fallback, None);
}

#[test]
fn empty_block_is_never_given_up() {
    let state = ParallelState::new(SyntheticTask, Vec::new(), HashMap::new(), None);
    let controller = FallbackController::new(4, 0);
    let out = BlockExecutor::new(config(4, false)).finish(&state, &controller).unwrap();
    assert!(out.transaction_outputs.is_empty());
    let out = BlockExecutor::new(config(4, false))
        .execute_block(SyntheticTask, Vec::new(), HashMap::new())
        .unwrap();
    assert!(out.transaction_outputs.is_empty());
}

#[test]
fn without_a_conflicting_writer_each_transaction_runs_once() {
    // Of two workers one takes every step: no transaction runs before the
    // write that it reads, so none is aborted and each is committed in its
    // first incarnation.
    let mut state = ParallelState::new(SyntheticTask, chain(), HashMap::new(), None);
    let mut controller = FallbackController::new(2, 3);
    let mut held = Task::Wait;
    let mut started = 0;
    while !state.done() && controller.tick() {
        let next = worker_step(&mut state, &mut controller, 0, held);
        if !matches!(held, Task::Execute { .. }) && matches!(next, Task::Execute { .. }) {
            started += 1;
        }
        held = next;
    }
    assert!(state.done());
    assert_eq!(state.num_committed(), 3);
    assert_eq!(started, 3);
    for idx in 0..3u32 {
        assert_eq!(state.status(idx).incarnation, 0);
    }
    assert_eq!(controller.tripped(), None);
}
