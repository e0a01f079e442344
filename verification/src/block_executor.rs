//! The block executor: the loop in which workers pull tasks from the
//! scheduler and perform them, the controller that gives parallel execution
//! up where it makes no acceptable progress, and the entry points that turn a
//! block and a snapshot into the block's outputs.

use vstd::prelude::*;
use std::collections::HashMap;
use crate::types::{TxnIndex, Incarnation, StateKey, StateValue};
use crate::scheduler::Task;
use crate::task::{ExecutorTask, State, TransactionOutput, TransactionOutputView};
use crate::sequential::{
    BlockExecutionError, PanicError, block_result, execute_block_in_order, limit_reached,
    outputs_view, over_limit, sequential_result,
};
use crate::parallel_state::{CommitOutcome, ExecutionOutcome, ParallelState, ValidationOutcome};

verus! {

/// The incarnation from which on a transaction counts as thrashing.
pub const MAX_INCARNATIONS: Incarnation = 32;

/// The steps that parallel execution may take for each transaction of the
/// block before it is given up.
pub const STEPS_PER_TXN: u64 = 256;

/// What the node's operator decides about execution.
#[derive(Clone, Copy, Debug, PartialEq, Eq, Structural)]
pub struct BlockExecutorLocalConfig {
    /// The number of workers. With one worker or none the block runs in
    /// order from the start.
    pub concurrency_level: usize,
    /// Whether the block may be finished in order where parallel execution
    /// is given up.
    pub allow_fallback: bool,
}

/// What the chain decides about execution.
#[derive(Clone, Copy, Debug, PartialEq, Eq, Structural)]
pub struct BlockExecutorConfigFromOnchain {
    /// The gas that a block may use, if it is limited.
    pub block_gas_limit: Option<u64>,
}

/// The configuration of one block's execution.
#[derive(Clone, Copy, Debug, PartialEq, Eq, Structural)]
pub struct BlockExecutorConfig {
    pub local: BlockExecutorLocalConfig,
    pub onchain: BlockExecutorConfigFromOnchain,
}

impl BlockExecutorConfigFromOnchain {
    pub fn new_no_block_limit() -> (c: Self)
        ensures
            c.block_gas_limit is None,
    {
        BlockExecutorConfigFromOnchain { block_gas_limit: None }
    }
}

/// Why parallel execution was given up.
#[derive(Clone, Copy, Debug, PartialEq, Eq, Structural)]
pub enum FallbackReason {
    /// The configuration asks for one worker or none.
    ParallelismDisabled,
    /// A transaction was aborted too often.
    Thrashing { txn_idx: TxnIndex },
    /// A transaction published code that a higher transaction had read.
    CodePublishConflict { txn_idx: TxnIndex },
    /// The steps allotted to the block are used up.
    OutOfSteps,
    /// A counter of the scheduler is spent.
    CountersSpent,
}

/// The state of the fallback controller.
pub struct ControllerView {
    pub steps_left: u64,
    pub tripped: Option<FallbackReason>,
}

/// The steps allotted to a block of `num_txns` transactions.
pub open spec fn step_budget(num_txns: nat) -> u64 {
    if (num_txns + 1) * STEPS_PER_TXN <= u64::MAX {
        ((num_txns + 1) * STEPS_PER_TXN) as u64
    } else {
        u64::MAX
    }
}

/// The controller's state before the first step.
pub open spec fn initial_controller(concurrency_level: usize, num_txns: nat) -> ControllerView {
    ControllerView {
        steps_left: step_budget(num_txns),
        tripped: if concurrency_level <= 1 {
            Some(FallbackReason::ParallelismDisabled)
        } else {
            None
        },
    }
}

/// The controller's state after a worker's step was counted.
pub open spec fn after_tick(c: ControllerView) -> ControllerView {
    if c.tripped is Some {
        c
    } else if c.steps_left == 0 {
        ControllerView { tripped: Some(FallbackReason::OutOfSteps), ..c }
    } else {
        ControllerView { steps_left: (c.steps_left - 1) as u64, ..c }
    }
}

/// The controller's state after it was told that the incarnation
/// `incarnation` of `txn_idx` was aborted.
pub open spec fn after_abort(
    c: ControllerView,
    txn_idx: TxnIndex,
    incarnation: Incarnation,
) -> ControllerView {
    if c.tripped is None && incarnation >= MAX_INCARNATIONS {
        ControllerView { tripped: Some(FallbackReason::Thrashing { txn_idx }), ..c }
    } else {
        c
    }
}

/// The controller's state after it was told that `txn_idx` published code
/// that a higher transaction had read.
pub open spec fn after_code_conflict(c: ControllerView, txn_idx: TxnIndex) -> ControllerView {
    if c.tripped is None {
        ControllerView { tripped: Some(FallbackReason::CodePublishConflict { txn_idx }), ..c }
    } else {
        c
    }
}

/// The controller's state after it was told that a counter is spent.
pub open spec fn after_exhausted(c: ControllerView) -> ControllerView {
    if c.tripped is None {
        ControllerView { tripped: Some(FallbackReason::CountersSpent), ..c }
    } else {
        c
    }
}

/// Watches parallel execution and says when to give it up: when a
/// transaction is aborted over and over, when a transaction publishes code
/// that a higher transaction has read, when the block has used up its steps,
/// when the scheduler can count no further, and at once where the
/// configuration wants no parallelism.
pub struct FallbackController {
    steps_left: u64,
    tripped: Option<FallbackReason>,
}

impl View for FallbackController {
    type V = ControllerView;

    closed spec fn view(&self) -> ControllerView {
        ControllerView { steps_left: self.steps_left, tripped: self.tripped }
    }
}

impl FallbackController {
    pub fn new(concurrency_level: usize, num_txns: usize) -> (c: Self)
        ensures
            c@ == initial_controller(concurrency_level, num_txns as nat),
    {
        let steps_left = match (num_txns as u64).checked_add(1) {
            Some(n) => match n.checked_mul(STEPS_PER_TXN) {
                Some(s) => s,
                None => u64::MAX,
            },
            None => u64::MAX,
        };
        FallbackController {
            steps_left,
            tripped: if concurrency_level <= 1 {
                Some(FallbackReason::ParallelismDisabled)
            } else {
                None
            },
        }
    }

    /// Why parallel execution is to be given up, if it is.
    pub fn tripped(&self) -> (r: Option<FallbackReason>)
        ensures
            r == self@.tripped,
    {
        self.tripped
    }

    /// Counts one step of a worker. Returns whether the step may be taken.
    pub fn tick(&mut self) -> (go: bool)
        ensures
            final(self)@ == after_tick(old(self)@),
            go == (old(self)@.tripped is None && old(self)@.steps_left > 0),
    {
        if self.tripped.is_some() {
            false
        } else if self.steps_left == 0 {
            self.tripped = Some(FallbackReason::OutOfSteps);
            false
        } else {
            self.steps_left = self.steps_left - 1;
            true
        }
    }

    /// Notes that the incarnation `incarnation` of `txn_idx` was aborted.
    pub fn note_abort(&mut self, txn_idx: TxnIndex, incarnation: Incarnation)
        ensures
            final(self)@ == after_abort(old(self)@, txn_idx, incarnation),
    {
        if self.tripped.is_none() && incarnation >= MAX_INCARNATIONS {
            self.tripped = Some(FallbackReason::Thrashing { txn_idx });
        }
    }

    /// Notes that `txn_idx` published code that a higher transaction had
    /// read: the store holds values, not what a reader made of code.
    pub fn note_code_conflict(&mut self, txn_idx: TxnIndex)
        ensures
            final(self)@ == after_code_conflict(old(self)@, txn_idx),
    {
        if self.tripped.is_none() {
            self.tripped = Some(FallbackReason::CodePublishConflict { txn_idx });
        }
    }

    /// Notes that a counter of the scheduler is spent.
    pub fn note_exhausted(&mut self)
        ensures
            final(self)@ == after_exhausted(old(self)@),
    {
        if self.tripped.is_none() {
            self.tripped = Some(FallbackReason::CountersSpent);
        }
    }
}

/// What the block yields beside the outputs.
#[derive(Clone, Copy, Debug, PartialEq, Eq, Structural)]
pub struct BlockEndInfo {
    /// Whether the block used the gas that it may use.
    pub block_gas_limit_reached: bool,
    /// The gas that the block's transactions used, capped at `u64::MAX`.
    pub block_gas_used: u64,
    /// The number of transactions that were committed in parallel execution.
    pub committed_in_parallel: usize,
    /// Why parallel execution was given up, if it was.
    pub fallback: Option<FallbackReason>,
}

/// The outputs of a block, one for each transaction, in the block's order.
pub struct BlockOutput {
    pub transaction_outputs: Vec<TransactionOutput>,
    pub block_end_info: Option<BlockEndInfo>,
}

impl BlockOutput {
    pub fn new(transaction_outputs: Vec<TransactionOutput>, block_end_info: Option<BlockEndInfo>) -> (out:
        Self)
        ensures
            out.transaction_outputs == transaction_outputs,
            out.block_end_info == block_end_info,
    {
        BlockOutput { transaction_outputs, block_end_info }
    }

    pub fn into_inner(self) -> (parts: (Vec<TransactionOutput>, Option<BlockEndInfo>))
        ensures
            parts.0 == self.transaction_outputs,
            parts.1 == self.block_end_info,
    {
        (self.transaction_outputs, self.block_end_info)
    }

    pub fn into_transaction_outputs_forced(self) -> (outputs: Vec<TransactionOutput>)
        ensures
            outputs == self.transaction_outputs,
    {
        self.transaction_outputs
    }
}

/// The sum of the gas of the first `n` outputs, capped at `u64::MAX`.
pub open spec fn gas_used(outputs: Seq<TransactionOutputView>, n: int) -> u64
    decreases n,
{
    if n <= 0 || n > outputs.len() {
        0
    } else if gas_used(outputs, n - 1) + outputs[n - 1].gas_used > u64::MAX {
        u64::MAX
    } else {
        (gas_used(outputs, n - 1) + outputs[n - 1].gas_used) as u64
    }
}

fn total_gas(outputs: &Vec<TransactionOutput>) -> (gas: u64)
    ensures
        gas == gas_used(outputs_view(outputs@), outputs@.len() as int),
{
    let mut gas: u64 = 0;
    let mut i: usize = 0;
    while i < outputs.len()
        invariant
            i <= outputs@.len(),
            gas == gas_used(outputs_view(outputs@), i as int),
        decreases outputs@.len() - i,
    {
        gas = gas.saturating_add(outputs[i].gas_used);
        i = i + 1;
    }
    gas
}

/// Whether `end_info` is what is found at the end of a block of `n`
/// transactions with the given outputs: the gas that the outputs used,
/// whether that reached the limit, and how the block was run. With one
/// worker nothing is committed in parallel.
pub open spec fn end_info_of(
    config: BlockExecutorConfig,
    n: nat,
    outputs: Seq<TransactionOutputView>,
    end_info: Option<BlockEndInfo>,
) -> bool {
    end_info matches Some(info) && info.block_gas_used == gas_used(outputs, n as int)
        && info.block_gas_limit_reached == limit_reached(
        config.onchain.block_gas_limit,
        info.block_gas_used,
    ) && info.committed_in_parallel <= n && (config.local.concurrency_level <= 1 ==> info.fallback
        == Some(FallbackReason::ParallelismDisabled) && info.committed_in_parallel == 0)
}

/// Whether `result` is what the configuration may make of the block: the
/// result of running the block in order under the limit on its gas, or,
/// where falling back is not permitted, the report that parallel execution
/// was given up. A block without transactions is never given up.
pub open spec fn is_block_result<T: ExecutorTask>(
    config: BlockExecutorConfig,
    task: T,
    txns: Seq<T::Txn>,
    base: State,
    result: Result<BlockOutput, BlockExecutionError>,
) -> bool {
    let in_order = block_result(task, txns, base, config.onchain.block_gas_limit);
    match result {
        Ok(out) => {
            &&& txns.len() <= u32::MAX
            &&& in_order == Ok::<Seq<TransactionOutputView>, BlockExecutionError>(
                outputs_view(out.transaction_outputs@),
            )
            &&& end_info_of(
                config,
                txns.len(),
                outputs_view(out.transaction_outputs@),
                out.block_end_info,
            )
        },
        Err(BlockExecutionError::FatalBlockExecutorError(PanicError::BlockTooLarge)) => txns.len()
            > u32::MAX,
        Err(BlockExecutionError::FatalBlockExecutorError(PanicError::FallbackNotAllowed)) => {
            &&& !config.local.allow_fallback
            &&& config.local.concurrency_level > 1
            &&& 0 < txns.len() <= u32::MAX
        },
        Err(e) => txns.len() <= u32::MAX && in_order == Err::<
            Seq<TransactionOutputView>,
            BlockExecutionError,
        >(e),
    }
}

/// Commits, in order, every transaction that is ready to commit.
pub fn commit_all_ready<T: ExecutorTask>(state: &mut ParallelState<T>)
    requires
        old(state).wf(),
    ensures
        final(state).wf(),
        final(state).same_block(old(state)),
        final(state).store() == old(state).store(),
        final(state).records() == old(state).records(),
        final(state).in_flight() == old(state).in_flight(),
        old(state).commit_log().is_prefix_of(final(state).commit_log()),
        !(crate::parallel_state::spec_commit_outcome(
            final(state).scheduler(),
            final(state).records(),
            final(state).limit_hit(),
        ) is Committed),
        final(state).committed_all(old(state)),
{
    let ghost mut chain: Seq<ParallelState<T>> = seq![*state];
    loop
        invariant
            state.wf(),
            state.same_block(old(state)),
            state.store() == old(state).store(),
            state.records() == old(state).records(),
            state.in_flight() == old(state).in_flight(),
            old(state).commit_log().is_prefix_of(state.commit_log()),
            chain.len() >= 1,
            chain[0] == *old(state),
            chain[chain.len() - 1] == *state,
            forall|i: int| 0 <= i < chain.len() ==> (#[trigger] chain[i]).wf(),
            forall|i: int|
                0 <= i < chain.len() - 1 ==> (#[trigger] chain[i + 1]).tried_commit(&chain[i]),
            forall|i: int|
                0 <= i < chain.len() - 1 ==> (#[trigger] chain[i]).commit_outcome() is Committed,
        decreases state.txns().len() - state.scheduler().commit_idx,
    {
        proof {
            state.lemma_wf();
        }
        let ghost log = state.commit_log();
        let ghost before = chain;
        match state.try_commit() {
            CommitOutcome::Committed(idx) => {
                proof {
                    assert(log.is_prefix_of(log.push(idx)));
                    chain = before.push(*state);
                    assert forall|i: int| 0 <= i < chain.len() implies (#[trigger] chain[i]).wf() by {
                        if i < before.len() {
                            assert(chain[i] == before[i]);
                        }
                    }
                    assert forall|i: int| 0 <= i < chain.len() - 1 implies (#[trigger] chain[i
                        + 1]).tried_commit(&chain[i]) by {
                        if i < before.len() - 1 {
                            assert(chain[i + 1] == before[i + 1]);
                            assert(chain[i] == before[i]);
                        }
                    }
                    assert forall|i: int| 0 <= i < chain.len() - 1 implies (
                    #[trigger] chain[i]).commit_outcome() is Committed by {
                        assert(chain[i] == before[i]);
                    }
                }
            },
            _ => {
                proof {
                    chain = before.push(*state);
                    assert forall|i: int| 0 <= i < chain.len() implies (#[trigger] chain[i]).wf() by {
                        if i < before.len() {
                            assert(chain[i] == before[i]);
                        }
                    }
                    assert forall|i: int| 0 <= i < chain.len() - 1 implies (#[trigger] chain[i
                        + 1]).tried_commit(&chain[i]) by {
                        if i < before.len() - 1 {
                            assert(chain[i + 1] == before[i + 1]);
                            assert(chain[i] == before[i]);
                        }
                    }
                    assert forall|i: int| 0 <= i < chain.len() - 2 implies (
                    #[trigger] chain[i]).commit_outcome() is Committed by {
                        assert(chain[i] == before[i]);
                    }
                    assert(chain[chain.len() - 2] == before[before.len() - 1]);
                    assert(crate::parallel_state::commit_chain(chain, *old(state), *state));
                }
                return ;
            },
        }
    }
}

/// State `mid` is what the step of a worker that held `held` made of the
/// state `before`, the commits that follow it left aside: the next step of
/// the execution, the validation, or the asking for a task.
pub open spec fn stepped<T: ExecutorTask>(
    mid: ParallelState<T>,
    before: ParallelState<T>,
    worker: usize,
    held: Task,
) -> bool {
    match held {
        Task::Execute { txn_idx, incarnation } => {
            &&& mid.same_block(&before)
            &&& mid.commit_log() == before.commit_log()
            &&& mid.gas() == before.gas()
            &&& mid.advanced(
                &before,
                txn_idx,
                incarnation,
                crate::parallel_state::spec_advance_outcome(
                    before.task(),
                    before.txns(),
                    before.store(),
                    before.scheduler(),
                    before.in_flight(),
                    txn_idx,
                    incarnation,
                ),
            )
        },
        Task::Validate { txn_idx, incarnation } => mid.validated(&before, txn_idx, incarnation),
        _ => mid.asked(&before, worker),
    }
}

/// What the controller knows after the step of a worker that held `held`
/// made `mid` of the state `before`: it is told of an abort, of published
/// code that a higher transaction has read, and of a counter that is spent.
pub open spec fn controller_after_step<T: ExecutorTask>(
    c: ControllerView,
    mid: ParallelState<T>,
    before: ParallelState<T>,
    held: Task,
) -> ControllerView {
    match held {
        Task::Execute { txn_idx, incarnation } => match crate::parallel_state::spec_advance_outcome(
            before.task(),
            before.txns(),
            before.store(),
            before.scheduler(),
            before.in_flight(),
            txn_idx,
            incarnation,
        ) {
            ExecutionOutcome::Executed { .. } => if mid.code_conflict(txn_idx) {
                after_code_conflict(c, txn_idx)
            } else {
                c
            },
            ExecutionOutcome::Aborted { .. } => after_abort(c, txn_idx, incarnation),
            ExecutionOutcome::Exhausted => after_exhausted(c),
            _ => c,
        },
        Task::Validate { txn_idx, incarnation } => match crate::parallel_state::spec_validation_outcome(
            before.store(),
            before.scheduler(),
            before.records(),
            txn_idx,
            incarnation,
        ) {
            ValidationOutcome::Aborted => after_abort(c, txn_idx, incarnation),
            ValidationOutcome::Exhausted => after_exhausted(c),
            _ => c,
        },
        _ => c,
    }
}

/// The task that a worker holds after its step.
pub open spec fn task_after_step(held: Task, outcome: ExecutionOutcome, handed: Task) -> Task {
    match held {
        Task::Execute { .. } => if outcome is InProgress {
            held
        } else {
            Task::Wait
        },
        Task::Validate { .. } => Task::Wait,
        _ => handed,
    }
}

/// One step of a worker that holds the task `held`: the next step of the
/// execution that it holds, the validation that it holds, or, where it holds
/// neither, asking the scheduler for a task. After the step every
/// transaction that is ready to commit is committed: the state is what
/// `stepped` and then `committed_all` make of it. The controller is told
/// of aborts, of published code that a higher transaction has read, and of
/// counters that are spent. Returns the task that the worker holds now.
pub fn worker_step<T: ExecutorTask>(
    state: &mut ParallelState<T>,
    controller: &mut FallbackController,
    worker: usize,
    held: Task,
) -> (next: Task)
    requires
        old(state).wf(),
    ensures
        final(state).wf(),
        final(state).same_block(old(state)),
        old(state).commit_log().is_prefix_of(final(state).commit_log()),
        !(crate::parallel_state::spec_commit_outcome(
            final(state).scheduler(),
            final(state).records(),
            final(state).limit_hit(),
        ) is Committed),
        final(controller)@.steps_left == old(controller)@.steps_left,
        old(controller)@.tripped is Some ==> final(controller)@ == old(controller)@,
        exists|mid: ParallelState<T>| #[trigger]
            stepped(mid, *old(state), worker, held) && final(state).committed_all(&mid)
                && final(controller)@ == controller_after_step(old(controller)@, mid, *old(state), held),
        next == task_after_step(
            held,
            match held {
                Task::Execute { txn_idx, incarnation } => crate::parallel_state::spec_advance_outcome(
                    old(state).task(),
                    old(state).txns(),
                    old(state).store(),
                    old(state).scheduler(),
                    old(state).in_flight(),
                    txn_idx,
                    incarnation,
                ),
                _ => ExecutionOutcome::Stale,
            },
            if old(state).limit_hit() {
                Task::Done
            } else {
                crate::scheduler::spec_next_task(old(state).scheduler())
            },
        ),
{
    let next = match held {
        Task::Execute { txn_idx, incarnation } => {
            match state.advance(txn_idx, incarnation) {
                ExecutionOutcome::InProgress => held,
                ExecutionOutcome::Executed { wrote_new_keys } => {
                    if state.has_code_conflict(txn_idx) {
                        controller.note_code_conflict(txn_idx);
                    }
                    Task::Wait
                },
                ExecutionOutcome::Aborted { blocked_on } => {
                    controller.note_abort(txn_idx, incarnation);
                    Task::Wait
                },
                ExecutionOutcome::Exhausted => {
                    controller.note_exhausted();
                    Task::Wait
                },
                ExecutionOutcome::Stale => Task::Wait,
            }
        },
        Task::Validate { txn_idx, incarnation } => {
            match state.validate(txn_idx, incarnation) {
                ValidationOutcome::Aborted => {
                    controller.note_abort(txn_idx, incarnation);
                },
                ValidationOutcome::Exhausted => {
                    controller.note_exhausted();
                },
                _ => {},
            }
            Task::Wait
        },
        _ => state.next_task_for(worker),
    };
    let ghost mid = *state;
    proof {
        assert(stepped(mid, *old(state), worker, held));
    }
    commit_all_ready(state);
    proof {
        assert(state.committed_all(&mid));
        assert(controller@ == controller_after_step(old(controller)@, mid, *old(state), held));
    }
    next
}

/// Executes blocks: optimistically in parallel, with the outputs of running
/// them in order.
pub struct BlockExecutor {
    config: BlockExecutorConfig,
}

impl BlockExecutor {
    pub closed spec fn config(&self) -> BlockExecutorConfig {
        self.config
    }

    pub fn new(config: BlockExecutorConfig) -> (executor: Self)
        ensures
            executor.config() == config,
    {
        BlockExecutor { config }
    }

    /// Executes the block with the workers taking their steps in turn.
    pub fn execute_block<T: ExecutorTask>(
        &self,
        task: T,
        txns: Vec<T::Txn>,
        base: HashMap<StateKey, StateValue>,
    ) -> (result: Result<BlockOutput, BlockExecutionError>)
        requires
            crate::task::accepts_all(task, txns@),
        ensures
            is_block_result(self.config(), task, txns@, base@, result),
            self.config().local.allow_fallback && txns@.len() <= u32::MAX ==> (result is Ok
                <==> block_result(
                task,
                txns@,
                base@,
                self.config().onchain.block_gas_limit,
            ) is Ok),
    {
        let schedule: Vec<usize> = Vec::new();
        self.execute_block_with_schedule(task, txns, base, &schedule)
    }

    /// Executes the block with the workers taking their steps in the order
    /// that `schedule` gives: its `i`-th entry, taken modulo the number of
    /// workers, names the worker that takes the `i`-th step. Past the end of
    /// the schedule the workers take turns. A worker's step is to ask the
    /// scheduler for a task, to take the next step of the execution that it
    /// holds (one read, or the recording of its end), or to perform the
    /// validation that it holds. Whatever the order, the outputs are those
    /// of running the block in order.
    pub fn execute_block_with_schedule<T: ExecutorTask>(
        &self,
        task: T,
        txns: Vec<T::Txn>,
        base: HashMap<StateKey, StateValue>,
        schedule: &Vec<usize>,
    ) -> (result: Result<BlockOutput, BlockExecutionError>)
        requires
            crate::task::accepts_all(task, txns@),
        ensures
            is_block_result(self.config(), task, txns@, base@, result),
            self.config().local.allow_fallback && txns@.len() <= u32::MAX ==> (result is Ok
                <==> block_result(
                task,
                txns@,
                base@,
                self.config().onchain.block_gas_limit,
            ) is Ok),
    {
        let n = txns.len();
        if n > u32::MAX as usize {
            return Err(BlockExecutionError::FatalBlockExecutorError(PanicError::BlockTooLarge));
        }
        let workers = self.config.local.concurrency_level;
        let mut controller = FallbackController::new(workers, n);
        let limit = self.config.onchain.block_gas_limit;
        proof {
            crate::sequential::lemma_block_errors(task, txns@, base@, limit);
        }
        if workers <= 1 {
            return match execute_block_in_order(&task, &txns, &base, limit) {
                Ok(outputs) => {
                    let gas = total_gas(&outputs);
                    proof {
                        assert(outputs_view(outputs@).len() == txns@.len());
                    }
                    Ok(
                        BlockOutput {
                            transaction_outputs: outputs,
                            block_end_info: Some(
                                BlockEndInfo {
                                    block_gas_limit_reached: over_limit(limit, gas),
                                    block_gas_used: gas,
                                    committed_in_parallel: 0,
                                    fallback: controller.tripped(),
                                },
                            ),
                        },
                    )
                },
                Err(e) => Err(e),
            };
        }
        let ghost task0 = task;
        let ghost txns0 = txns@;
        let ghost base0 = base@;
        let mut state = ParallelState::new(task, txns, base, limit);
        let mut slots: Vec<Task> = Vec::new();
        let mut w: usize = 0;
        while w < workers
            invariant
                w <= workers,
                slots@.len() == w,
            decreases workers - w,
        {
            slots.push(Task::Wait);
            w = w + 1;
        }
        let mut step: usize = 0;
        loop
            invariant
                state.wf(),
                state.task() == task0,
                state.txns() == txns0,
                state.base() == base0,
                state.limit() == limit,
                workers > 1,
                slots@.len() == workers,
            decreases controller@.steps_left,
        {
            if state.done() || !controller.tick() {
                break;
            }
            let worker = if step < schedule.len() {
                schedule[step] % workers
            } else {
                step % workers
            };
            step = step.saturating_add(1);
            let held = slots[worker];
            let next = worker_step(&mut state, &mut controller, worker, held);
            slots.set(worker, next);
        }
        self.finish(&state, &controller)
    }

    /// What the block comes to once the workers have stopped. Where nothing
    /// is left to do in parallel, or where falling back is permitted, these
    /// are the outputs of the committed transactions followed by those of
    /// running the rest in order, with the gas they used, the number of
    /// transactions committed in parallel, and the reason for which the
    /// rest was run in order, if any was. Otherwise it is the report that
    /// parallel execution was given up.
    pub fn finish<T: ExecutorTask>(
        &self,
        state: &ParallelState<T>,
        controller: &FallbackController,
    ) -> (result: Result<BlockOutput, BlockExecutionError>)
        requires
            state.wf(),
            state.limit() == self.config().onchain.block_gas_limit,
            self.config().local.concurrency_level > 1,
        ensures
            is_block_result(self.config(), state.task(), state.txns(), state.base(), result),
            !state.finished() && !self.config().local.allow_fallback <==> result == Err::<
                BlockOutput,
                BlockExecutionError,
            >(BlockExecutionError::FatalBlockExecutorError(PanicError::FallbackNotAllowed)),
            state.finished() || self.config().local.allow_fallback ==> (result is Ok
                <==> block_result(
                state.task(),
                state.txns(),
                state.base(),
                self.config().onchain.block_gas_limit,
            ) is Ok),
            result matches Ok(out) ==> out.block_end_info matches Some(info)
                && info.committed_in_parallel == state.commit_log().len() && info.fallback == (
            if state.commit_log().len() == state.txns().len() {
                None
            } else {
                controller@.tripped
            }),
    {
        let n = state.num_txns();
        let limit = self.config.onchain.block_gas_limit;
        let committed = state.num_committed();
        proof {
            state.lemma_wf();
            crate::sequential::lemma_block_errors(state.task(), state.txns(), state.base(), limit);
        }
        if !state.done() && !self.config.local.allow_fallback {
            return Err(
                BlockExecutionError::FatalBlockExecutorError(PanicError::FallbackNotAllowed),
            );
        }
        match state.finish_sequentially() {
            Ok(outputs) => {
                let gas = total_gas(&outputs);
                proof {
                    assert(outputs_view(outputs@).len() == state.txns().len());
                }
                Ok(
                    BlockOutput {
                        transaction_outputs: outputs,
                        block_end_info: Some(
                            BlockEndInfo {
                                block_gas_limit_reached: over_limit(limit, gas),
                                block_gas_used: gas,
                                committed_in_parallel: committed,
                                fallback: if committed == n {
                                    None
                                } else {
                                    controller.tripped()
                                },
                            },
                        ),
                    },
                )
            },
            Err(e) => Err(e),
        }
    }
}

/// The step of a worker that held `held` aborts the incarnation that
/// transaction `i` runs in state `before`: its execution met an estimate,
/// or its validation found a read that resolves otherwise than it did.
pub open spec fn aborts<T: ExecutorTask>(before: ParallelState<T>, held: Task, i: int) -> bool {
    match held {
        Task::Execute { txn_idx, incarnation } => txn_idx == i
            && crate::parallel_state::spec_advance_outcome(
            before.task(),
            before.txns(),
            before.store(),
            before.scheduler(),
            before.in_flight(),
            txn_idx,
            incarnation,
        ) is Aborted,
        Task::Validate { txn_idx, incarnation } => txn_idx == i
            && crate::parallel_state::spec_validation_outcome(
            before.store(),
            before.scheduler(),
            before.records(),
            txn_idx,
            incarnation,
        ) is Aborted,
        _ => false,
    }
}

/// Attempts to commit change no incarnation.
proof fn lemma_commits_keep_incarnations<T: ExecutorTask>(
    chain: Seq<ParallelState<T>>,
    k: int,
    i: int,
)
    requires
        0 <= k < chain.len(),
        forall|j: int| 0 <= j < chain.len() ==> (#[trigger] chain[j]).wf(),
        forall|j: int|
            0 <= j < chain.len() - 1 ==> (#[trigger] chain[j + 1]).tried_commit(&chain[j]),
        0 <= i < chain[0].txns().len(),
    ensures
        chain[k].txns() == chain[0].txns(),
        chain[k].scheduler().statuses[i].incarnation
            == chain[0].scheduler().statuses[i].incarnation,
    decreases k,
{
    if k > 0 {
        lemma_commits_keep_incarnations(chain, k - 1, i);
        let j = k - 1;
        let a = chain[j];
        assert(a.wf());
        assert(chain[j + 1].tried_commit(&chain[j]));
        a.lemma_wf();
        crate::parallel_state::lemma_incarnations_only_grow(a.scheduler(), 0, 0, 0, None, true, i);
    }
}

/// Abort convergence over the step of a worker: the step lowers the
/// incarnation of no transaction, and a transaction whose incarnation it
/// aborts is left in the next incarnation, to be run again. The speculative
/// abort shows in no output: an output is that of the incarnation that is
/// committed, which is no lower than any that was aborted before.
pub proof fn lemma_step_raises_incarnations<T: ExecutorTask>(
    before: ParallelState<T>,
    mid: ParallelState<T>,
    after: ParallelState<T>,
    worker: usize,
    held: Task,
    i: int,
)
    requires
        before.wf(),
        stepped(mid, before, worker, held),
        after.committed_all(&mid),
        0 <= i < before.txns().len(),
    ensures
        after.scheduler().statuses[i].incarnation >= before.scheduler().statuses[i].incarnation,
        aborts(before, held, i) ==> after.scheduler().statuses[i].incarnation
            == before.scheduler().statuses[i].incarnation + 1,
{
    before.lemma_wf();
    let sv = before.scheduler();
    match held {
        Task::Execute { txn_idx, incarnation } => {
            crate::parallel_state::lemma_incarnations_only_grow(
                sv,
                txn_idx,
                incarnation,
                worker,
                None,
                true,
                i,
            );
            crate::parallel_state::lemma_incarnations_only_grow(
                sv,
                txn_idx,
                incarnation,
                worker,
                None,
                false,
                i,
            );
            let outcome = crate::parallel_state::spec_advance_outcome(
                before.task(),
                before.txns(),
                before.store(),
                before.scheduler(),
                before.in_flight(),
                txn_idx,
                incarnation,
            );
            if let ExecutionOutcome::Aborted { blocked_on } = outcome {
                crate::parallel_state::lemma_incarnations_only_grow(
                    sv,
                    txn_idx,
                    incarnation,
                    worker,
                    blocked_on,
                    true,
                    i,
                );
            }
        },
        Task::Validate { txn_idx, incarnation } => {
            crate::parallel_state::lemma_incarnations_only_grow(
                sv,
                txn_idx,
                incarnation,
                worker,
                None,
                true,
                i,
            );
        },
        _ => {
            crate::parallel_state::lemma_incarnations_only_grow(sv, 0, 0, worker, None, true, i);
        },
    }
    let chain = choose|chain: Seq<ParallelState<T>>| #[trigger]
        crate::parallel_state::commit_chain(chain, mid, after);
    assert(chain[0].txns() == before.txns());
    lemma_commits_keep_incarnations(chain, chain.len() - 1, i);
}

/// Fallback equivalence: whatever the number of workers, whether or not
/// parallel execution was given up, and for whatever reason, two executions
/// of one block against one snapshot under one limit that both yield outputs
/// yield the same outputs; and where falling back is permitted, both yield
/// outputs or both fail with the same error.
pub proof fn lemma_fallback_equivalence<T: ExecutorTask>(
    first: BlockExecutorConfig,
    second: BlockExecutorConfig,
    task: T,
    txns: Seq<T::Txn>,
    base: State,
    first_result: Result<BlockOutput, BlockExecutionError>,
    second_result: Result<BlockOutput, BlockExecutionError>,
)
    requires
        first.onchain == second.onchain,
        is_block_result(first, task, txns, base, first_result),
        is_block_result(second, task, txns, base, second_result),
    ensures
        first_result is Ok && second_result is Ok ==> outputs_view(
            first_result->Ok_0.transaction_outputs@,
        ) == outputs_view(second_result->Ok_0.transaction_outputs@),
        first.local.allow_fallback && second.local.allow_fallback ==> (first_result is Ok
            <==> second_result is Ok),
        first.local.allow_fallback && second.local.allow_fallback && first_result is Err
            ==> first_result->Err_0 == second_result->Err_0,
{
    crate::sequential::lemma_block_errors(task, txns, base, first.onchain.block_gas_limit);
}

/// Serializability: what the engine makes of a block is what running the
/// block strictly in order makes of it, output for output. Without a limit
/// on the block's gas the engine yields the outputs of that run where the
/// run succeeds, and fails with the run's error where the run fails, unless
/// the block is too large or parallel execution was given up where falling
/// back is not permitted.
pub proof fn lemma_block_result_is_sequential<T: ExecutorTask>(
    config: BlockExecutorConfig,
    task: T,
    txns: Seq<T::Txn>,
    base: State,
    result: Result<BlockOutput, BlockExecutionError>,
)
    requires
        config.onchain.block_gas_limit is None,
        is_block_result(config, task, txns, base, result),
    ensures
        result matches Ok(out) ==> sequential_result(task, txns, base) matches Ok(outputs)
            && outputs == outputs_view(out.transaction_outputs@) && out.transaction_outputs@.len()
            == txns.len(),
        result matches Err(e) ==> sequential_result(task, txns, base) == Err::<
            Seq<TransactionOutputView>,
            BlockExecutionError,
        >(e) || e == BlockExecutionError::FatalBlockExecutorError(PanicError::BlockTooLarge) || e
            == BlockExecutionError::FatalBlockExecutorError(PanicError::FallbackNotAllowed),
{
    crate::sequential::lemma_no_limit(task, txns, base);
    crate::sequential::lemma_sequential_errors(task, txns, base);
    match result {
        Ok(out) => {
            crate::sequential::lemma_first_failure(task, txns, base, txns.len() as int);
            assert(outputs_view(out.transaction_outputs@).len() == txns.len());
        },
        Err(_) => {},
    }
}

} // verus!
