//! What a block means: the outcome of running its transactions one after the
//! other, each against the state that its predecessors left. The executable
//! part of this module does exactly that, and is what the engine falls back to.

use vstd::prelude::*;
use std::collections::HashMap;
use crate::types::{StateKey, StateValue};
use crate::task::{
    ExecutorTask, ExecutionStatus, ExecutionStatusView, State, Step, TransactionOutput,
    TransactionOutputView, VMError, WriteOp, accepts_all, drive, lookup, run,
};

verus! {

/// An error of the engine itself.
#[derive(Clone, Copy, Debug, PartialEq, Eq, Structural)]
pub enum PanicError {
    /// A task gave up speculatively where nothing is speculative: with every
    /// lower transaction committed, running it again cannot end otherwise.
    SpeculativeAbortInSequentialExecution,
    /// Parallel execution made no acceptable progress and falling back to
    /// sequential execution is not permitted.
    FallbackNotAllowed,
    /// The block holds more transactions than an index can count.
    BlockTooLarge,
}

/// Why a block failed. A failed block has no output at all.
#[derive(Clone, Copy, Debug, PartialEq, Eq, Structural)]
pub enum BlockExecutionError {
    /// A transaction ended in an error that no retry can mend.
    FatalVMError(VMError),
    /// The engine could not finish the block.
    FatalBlockExecutorError(PanicError),
}

/// The value that the write set leaves under `key`: that of its last write
/// to it.
pub open spec fn last_write(writes: Seq<WriteOp>, key: StateKey) -> Option<StateValue>
    decreases writes.len(),
{
    if writes.len() == 0 {
        None
    } else if writes.last().0 == key {
        Some(writes.last().1)
    } else {
        last_write(writes.drop_last(), key)
    }
}

/// The state after the writes were applied in order.
pub open spec fn apply_writes(state: State, writes: Seq<WriteOp>) -> State
    decreases writes.len(),
{
    if writes.len() == 0 {
        state
    } else {
        apply_writes(state, writes.drop_last()).insert(writes.last().0, writes.last().1)
    }
}

/// Under each key the state after a write set holds the set's last write to
/// it, and what it held before where the set does not write to it.
pub proof fn lemma_apply_writes(state: State, writes: Seq<WriteOp>, key: StateKey)
    ensures
        lookup(apply_writes(state, writes), key) == (match last_write(writes, key) {
            Some(v) => Some(v),
            None => lookup(state, key),
        }),
    decreases writes.len(),
{
    if writes.len() > 0 {
        lemma_apply_writes(state, writes.drop_last(), key);
    }
}

/// A key has a last write exactly if some write is to it.
pub proof fn lemma_last_write_some(writes: Seq<WriteOp>, key: StateKey)
    ensures
        last_write(writes, key) is Some <==> exists|i: int|
            0 <= i < writes.len() && (#[trigger] writes[i]).0 == key,
    decreases writes.len(),
{
    if writes.len() > 0 {
        let init = writes.drop_last();
        lemma_last_write_some(init, key);
        if writes.last().0 == key {
            assert(writes[writes.len() - 1].0 == key);
        } else {
            if last_write(init, key) is Some {
                let i = choose|i: int| 0 <= i < init.len() && (#[trigger] init[i]).0 == key;
                assert(writes[i].0 == key);
            }
            if exists|i: int| 0 <= i < writes.len() && (#[trigger] writes[i]).0 == key {
                let i = choose|i: int| 0 <= i < writes.len() && (#[trigger] writes[i]).0 == key;
                assert(init[i].0 == key);
            }
        }
    }
}

/// What an execution that ended in `status` wrote.
pub open spec fn writes_of(status: ExecutionStatusView) -> Seq<WriteOp> {
    match status {
        ExecutionStatusView::Success(out) => out.write_set,
        _ => Seq::empty(),
    }
}

/// The state that the first `n` transactions leave when they run in order.
pub open spec fn state_after<T: ExecutorTask>(task: T, txns: Seq<T::Txn>, base: State, n: int) -> State
    decreases n,
{
    if n <= 0 {
        base
    } else {
        let prev = state_after(task, txns, base, n - 1);
        apply_writes(prev, writes_of(run(task, txns[n - 1], prev).status))
    }
}

/// How transaction `i` ends when the block runs in order.
pub open spec fn outcome_at<T: ExecutorTask>(
    task: T,
    txns: Seq<T::Txn>,
    base: State,
    i: int,
) -> ExecutionStatusView {
    run(task, txns[i], state_after(task, txns, base, i)).status
}

/// The first of the first `n` transactions that does not end in success when
/// the block runs in order.
pub open spec fn first_failure<T: ExecutorTask>(
    task: T,
    txns: Seq<T::Txn>,
    base: State,
    n: int,
) -> Option<int>
    decreases n,
{
    if n <= 0 {
        None
    } else {
        match first_failure(task, txns, base, n - 1) {
            Some(i) => Some(i),
            None => if outcome_at(task, txns, base, n - 1) is Success {
                None
            } else {
                Some(n - 1)
            },
        }
    }
}

/// The error with which a transaction that did not end in success fails the
/// block.
pub open spec fn error_of(status: ExecutionStatusView) -> BlockExecutionError {
    match status {
        ExecutionStatusView::Abort(e) => BlockExecutionError::FatalVMError(e),
        _ => BlockExecutionError::FatalBlockExecutorError(
            PanicError::SpeculativeAbortInSequentialExecution,
        ),
    }
}

/// The output of a transaction that ended in success.
pub open spec fn output_of(status: ExecutionStatusView) -> TransactionOutputView {
    status->Success_0
}

/// What the block yields when its transactions run strictly in order: the
/// output of each of them, or the error of the first that fails.
pub open spec fn sequential_result<T: ExecutorTask>(task: T, txns: Seq<T::Txn>, base: State) -> Result<
    Seq<TransactionOutputView>,
    BlockExecutionError,
> {
    match first_failure(task, txns, base, txns.len() as int) {
        Some(i) => Err(error_of(outcome_at(task, txns, base, i))),
        None => Ok(
            Seq::new(txns.len(), |i: int| output_of(outcome_at(task, txns, base, i))),
        ),
    }
}

/// The mathematical content of a list of outputs.
pub open spec fn outputs_view(outputs: Seq<TransactionOutput>) -> Seq<TransactionOutputView> {
    Seq::new(outputs.len(), |i: int| outputs[i]@)
}

/// `first_failure` is `None` exactly if each of the first `n` transactions
/// succeeds; else it names the first that does not.
pub proof fn lemma_first_failure<T: ExecutorTask>(task: T, txns: Seq<T::Txn>, base: State, n: int)
    ensures
        match first_failure(task, txns, base, n) {
            Some(i) => 0 <= i < n && !(outcome_at(task, txns, base, i) is Success) && forall|j: int|
                0 <= j < i ==> outcome_at(task, txns, base, j) is Success,
            None => forall|j: int| 0 <= j < n ==> outcome_at(task, txns, base, j) is Success,
        },
    decreases n,
{
    if n > 0 {
        lemma_first_failure(task, txns, base, n - 1);
    }
}

/// A failure among the first `n` transactions is also the first failure of
/// any longer prefix.
pub proof fn lemma_first_failure_stays<T: ExecutorTask>(
    task: T,
    txns: Seq<T::Txn>,
    base: State,
    n: int,
    m: int,
)
    requires
        n <= m,
        first_failure(task, txns, base, n) is Some,
    ensures
        first_failure(task, txns, base, m) == first_failure(task, txns, base, n),
    decreases m - n,
{
    if n < m {
        lemma_first_failure_stays(task, txns, base, n, m - 1);
    }
}

/// A block that fails in sequential execution fails with the error of a
/// transaction, or because a task gave up where nothing is speculative.
pub proof fn lemma_sequential_errors<T: ExecutorTask>(task: T, txns: Seq<T::Txn>, base: State)
    ensures
        sequential_result(task, txns, base) matches Err(e) ==> e is FatalVMError || e
            == BlockExecutionError::FatalBlockExecutorError(
            PanicError::SpeculativeAbortInSequentialExecution,
        ),
{
}

/// Runs one transaction against a state and returns how it ended.
pub fn execute_on_state<T: ExecutorTask>(
    task: &T,
    txn: &T::Txn,
    state: &HashMap<StateKey, StateValue>,
) -> (status: ExecutionStatus)
    requires
        task.spec_accepts(*txn),
    ensures
        status@ == run(*task, *txn, state@).status,
{
    broadcast use vstd::std_specs::hash::group_hash_axioms;

    let mut fuel = task.max_reads(txn);
    let mut step = task.start(txn);
    loop
        invariant
            task.spec_accepts(*txn),
            run(*task, *txn, state@).status == drive(
                *task,
                *txn,
                step@,
                state@,
                fuel as nat,
            ).status,
        decreases fuel,
    {
        match step {
            Step::Done(status) => {
                return status;
            },
            Step::Read(key, cont) => {
                if fuel == 0 {
                    return ExecutionStatus::Abort(VMError::ReadLimitExceeded);
                }
                let value = match state.get(&key) {
                    Some(v) => Some(*v),
                    None => None,
                };
                assert(value == lookup(state@, key));
                step = task.resume(txn, cont, value);
                fuel = fuel - 1;
            },
        }
    }
}

/// Applies a write set to a state, in order.
pub fn apply_write_set(state: &mut HashMap<StateKey, StateValue>, writes: &Vec<WriteOp>)
    ensures
        final(state)@ == apply_writes(old(state)@, writes@),
{
    broadcast use vstd::std_specs::hash::group_hash_axioms;

    let mut i: usize = 0;
    assert(writes@.subrange(0, 0) =~= Seq::empty());
    while i < writes.len()
        invariant
            i <= writes@.len(),
            state@ == apply_writes(old(state)@, writes@.subrange(0, i as int)),
        decreases writes@.len() - i,
    {
        let (key, value) = writes[i];
        state.insert(key, value);
        proof {
            let next = writes@.subrange(0, i + 1);
            assert(next.drop_last() =~= writes@.subrange(0, i as int));
            assert(next.last() == writes@[i as int]);
        }
        i = i + 1;
    }
    assert(writes@.subrange(0, i as int) =~= writes@);
}

/// The gas that an execution used.
pub open spec fn gas_of(status: ExecutionStatusView) -> u64 {
    match status {
        ExecutionStatusView::Success(out) => out.gas_used,
        _ => 0,
    }
}

/// The gas that the first `n` transactions use when the block runs in
/// order, capped at `u64::MAX`.
pub open spec fn gas_after<T: ExecutorTask>(task: T, txns: Seq<T::Txn>, base: State, n: int) -> u64
    decreases n,
{
    if n <= 0 {
        0
    } else {
        gas_after(task, txns, base, n - 1).saturating_add(gas_of(outcome_at(task, txns, base, n - 1)))
    }
}

/// Whether the gas used has reached the block's limit.
pub open spec fn limit_reached(limit: Option<u64>, gas: u64) -> bool {
    limit matches Some(l) && gas >= l
}

/// The number of the first `upto` transactions that run under the limit.
/// The first transaction always runs; each further one runs if its
/// predecessor ran and the gas used until then is below the limit.
pub open spec fn executed_len<T: ExecutorTask>(
    task: T,
    txns: Seq<T::Txn>,
    base: State,
    limit: Option<u64>,
    upto: int,
) -> int
    decreases upto,
{
    if upto <= 0 {
        0
    } else if upto == 1 {
        1
    } else {
        let before = executed_len(task, txns, base, limit, upto - 1);
        if before < upto - 1 {
            before
        } else if limit_reached(limit, gas_after(task, txns, base, upto - 1)) {
            upto - 1
        } else {
            upto
        }
    }
}

/// What the block yields when its transactions run strictly in order under
/// the limit on the block's gas: for each transaction that runs its output,
/// for each that the limit leaves out the output of a transaction that was
/// not run; or the error of the first transaction that runs and fails.
pub open spec fn block_result<T: ExecutorTask>(
    task: T,
    txns: Seq<T::Txn>,
    base: State,
    limit: Option<u64>,
) -> Result<Seq<TransactionOutputView>, BlockExecutionError> {
    let run = executed_len(task, txns, base, limit, txns.len() as int);
    match first_failure(task, txns, base, run) {
        Some(i) => Err(error_of(outcome_at(task, txns, base, i))),
        None => Ok(
            Seq::new(
                txns.len(),
                |i: int|
                    if i < run {
                        output_of(outcome_at(task, txns, base, i))
                    } else {
                        crate::task::skipped_output()
                    },
            ),
        ),
    }
}

/// Of the first `upto` transactions at most `upto` run, and at least one
/// where there is one.
pub proof fn lemma_executed_len_bounds<T: ExecutorTask>(
    task: T,
    txns: Seq<T::Txn>,
    base: State,
    limit: Option<u64>,
    upto: int,
)
    ensures
        0 <= executed_len(task, txns, base, limit, upto) <= upto || upto < 0,
        upto >= 1 ==> executed_len(task, txns, base, limit, upto) >= 1,
        upto <= 0 ==> executed_len(task, txns, base, limit, upto) == 0,
    decreases upto,
{
    if upto > 1 {
        lemma_executed_len_bounds(task, txns, base, limit, upto - 1);
    }
}

/// Once the limit leaves a transaction out, it leaves out all that follow.
pub proof fn lemma_executed_len_stays<T: ExecutorTask>(
    task: T,
    txns: Seq<T::Txn>,
    base: State,
    limit: Option<u64>,
    cut: int,
    upto: int,
)
    requires
        1 <= cut <= upto,
        executed_len(task, txns, base, limit, cut) == cut,
        cut < upto ==> limit_reached(limit, gas_after(task, txns, base, cut)),
    ensures
        executed_len(task, txns, base, limit, upto) == cut,
    decreases upto - cut,
{
    if cut < upto {
        lemma_executed_len_stays(task, txns, base, limit, cut, upto - 1);
    }
}

/// Without a limit every transaction runs: the block yields what running
/// it in order yields.
pub proof fn lemma_no_limit<T: ExecutorTask>(task: T, txns: Seq<T::Txn>, base: State)
    ensures
        block_result(task, txns, base, None) == sequential_result(task, txns, base),
{
    lemma_all_run(task, txns, base, txns.len() as int);
    let a = block_result(task, txns, base, None);
    let b = sequential_result(task, txns, base);
    if first_failure(task, txns, base, txns.len() as int) is None {
        assert(a->Ok_0 =~= b->Ok_0);
    }
}

proof fn lemma_all_run<T: ExecutorTask>(task: T, txns: Seq<T::Txn>, base: State, upto: int)
    requires
        upto >= 0,
    ensures
        executed_len(task, txns, base, None, upto) == upto,
    decreases upto,
{
    if upto > 1 {
        lemma_all_run(task, txns, base, upto - 1);
    }
}

/// A block that fails under a limit fails with the error of a transaction,
/// or because a task gave up where nothing is speculative.
pub proof fn lemma_block_errors<T: ExecutorTask>(
    task: T,
    txns: Seq<T::Txn>,
    base: State,
    limit: Option<u64>,
)
    ensures
        block_result(task, txns, base, limit) matches Err(e) ==> e is FatalVMError || e
            == BlockExecutionError::FatalBlockExecutorError(
            PanicError::SpeculativeAbortInSequentialExecution,
        ),
        block_result(task, txns, base, limit) matches Ok(outputs) ==> outputs.len() == txns.len(),
{
}

/// Runs the transactions from index `from` on, in order and under the
/// limit, against the state that the transactions before them left, and
/// appends to the outputs of those. `gas` is what those have used.
pub(crate) fn execute_sequential_from<T: ExecutorTask>(
    task: &T,
    txns: &Vec<T::Txn>,
    from: usize,
    state: HashMap<StateKey, StateValue>,
    outputs: Vec<TransactionOutput>,
    gas: u64,
    limit: Option<u64>,
    Ghost(base): Ghost<State>,
) -> (result: Result<Vec<TransactionOutput>, BlockExecutionError>)
    requires
        accepts_all(*task, txns@),
        from <= txns@.len(),
        state@ == state_after(*task, txns@, base, from as int),
        first_failure(*task, txns@, base, from as int) is None,
        executed_len(*task, txns@, base, limit, from as int) == from,
        gas == gas_after(*task, txns@, base, from as int),
        outputs@.len() == from,
        forall|i: int|
            0 <= i < from ==> (#[trigger] outputs@[i])@ == output_of(
                outcome_at(*task, txns@, base, i),
            ),
    ensures
        match result {
            Ok(outs) => block_result(*task, txns@, base, limit) == Ok::<
                Seq<TransactionOutputView>,
                BlockExecutionError,
            >(outputs_view(outs@)),
            Err(e) => block_result(*task, txns@, base, limit) == Err::<
                Seq<TransactionOutputView>,
                BlockExecutionError,
            >(e),
        },
{
    let mut state = state;
    let mut outputs = outputs;
    let mut gas = gas;
    let mut i: usize = from;
    let n = txns.len();
    while i < n && (i == 0 || !over_limit(limit, gas))
        invariant
            accepts_all(*task, txns@),
            n == txns@.len(),
            from <= i <= n,
            state@ == state_after(*task, txns@, base, i as int),
            first_failure(*task, txns@, base, i as int) is None,
            executed_len(*task, txns@, base, limit, i as int) == i,
            gas == gas_after(*task, txns@, base, i as int),
            outputs@.len() == i,
            forall|j: int|
                0 <= j < i ==> (#[trigger] outputs@[j])@ == output_of(
                    outcome_at(*task, txns@, base, j),
                ),
        decreases n - i,
    {
        let status = execute_on_state(task, &txns[i], &state);
        assert(status@ == outcome_at(*task, txns@, base, i as int));
        proof {
            lemma_executed_len_bounds(*task, txns@, base, limit, i as int);
        }
        match status {
            ExecutionStatus::Success(out) => {
                apply_write_set(&mut state, &out.write_set);
                gas = gas.saturating_add(out.gas_used);
                outputs.push(out);
            },
            ExecutionStatus::Abort(e) => {
                proof {
                    if i + 1 < n {
                        lemma_executed_len_bounds(*task, txns@, base, limit, n as int);
                        lemma_runs_past(*task, txns@, base, limit, i as int, n as int);
                    }
                    lemma_first_failure_stays(
                        *task,
                        txns@,
                        base,
                        i + 1,
                        executed_len(*task, txns@, base, limit, n as int),
                    );
                }
                return Err(BlockExecutionError::FatalVMError(e));
            },
            ExecutionStatus::SpeculativeExecutionAbortError(_) => {
                proof {
                    if i + 1 < n {
                        lemma_executed_len_bounds(*task, txns@, base, limit, n as int);
                        lemma_runs_past(*task, txns@, base, limit, i as int, n as int);
                    }
                    lemma_first_failure_stays(
                        *task,
                        txns@,
                        base,
                        i + 1,
                        executed_len(*task, txns@, base, limit, n as int),
                    );
                }
                return Err(
                    BlockExecutionError::FatalBlockExecutorError(
                        PanicError::SpeculativeAbortInSequentialExecution,
                    ),
                );
            },
        }
        i = i + 1;
    }
    let ran = i;
    proof {
        if ran < n {
            lemma_executed_len_stays(*task, txns@, base, limit, ran as int, n as int);
        }
    }
    while i < n
        invariant
            n == txns@.len(),
            ran <= i <= n,
            outputs@.len() == i,
            forall|j: int|
                0 <= j < ran ==> (#[trigger] outputs@[j])@ == output_of(
                    outcome_at(*task, txns@, base, j),
                ),
            forall|j: int| ran <= j < i ==> (#[trigger] outputs@[j])@ == crate::task::skipped_output(),
        decreases n - i,
    {
        outputs.push(TransactionOutput::skipped());
        i = i + 1;
    }
    proof {
        assert(outputs_view(outputs@) =~= block_result(*task, txns@, base, limit)->Ok_0);
    }
    Ok(outputs)
}

/// A transaction that runs and that the gas before it does not stop is
/// among those that run of any longer prefix.
pub proof fn lemma_runs_past<T: ExecutorTask>(
    task: T,
    txns: Seq<T::Txn>,
    base: State,
    limit: Option<u64>,
    i: int,
    upto: int,
)
    requires
        0 <= i < upto,
        executed_len(task, txns, base, limit, i) == i,
        i == 0 || !limit_reached(limit, gas_after(task, txns, base, i)),
    ensures
        executed_len(task, txns, base, limit, upto) >= i + 1,
    decreases upto - i,
{
    lemma_executed_len_bounds(task, txns, base, limit, upto);
    if upto > i + 1 {
        lemma_runs_past(task, txns, base, limit, i, upto - 1);
        lemma_executed_len_bounds(task, txns, base, limit, upto - 1);
    } else {
        lemma_executed_len_bounds(task, txns, base, limit, i);
    }
}

/// Whether the gas used has reached the limit.
pub fn over_limit(limit: Option<u64>, gas: u64) -> (over: bool)
    ensures
        over == limit_reached(limit, gas),
{
    match limit {
        Some(l) => gas >= l,
        None => false,
    }
}

/// Runs the block strictly in order under the limit on its gas: each
/// transaction that the limit does not leave out once, against the state
/// that its predecessors left.
pub fn execute_block_in_order<T: ExecutorTask>(
    task: &T,
    txns: &Vec<T::Txn>,
    base: &HashMap<StateKey, StateValue>,
    limit: Option<u64>,
) -> (result: Result<Vec<TransactionOutput>, BlockExecutionError>)
    requires
        accepts_all(*task, txns@),
    ensures
        match result {
            Ok(outs) => block_result(*task, txns@, base@, limit) == Ok::<
                Seq<TransactionOutputView>,
                BlockExecutionError,
            >(outputs_view(outs@)),
            Err(e) => block_result(*task, txns@, base@, limit) == Err::<
                Seq<TransactionOutputView>,
                BlockExecutionError,
            >(e),
        },
{
    let state = base.clone();
    execute_sequential_from(task, txns, 0, state, Vec::new(), 0, limit, Ghost(base@))
}

/// Runs the block strictly in order: each transaction once, against the
/// state that its predecessors left.
pub fn execute_block_sequential<T: ExecutorTask>(
    task: &T,
    txns: &Vec<T::Txn>,
    base: &HashMap<StateKey, StateValue>,
) -> (result: Result<Vec<TransactionOutput>, BlockExecutionError>)
    requires
        accepts_all(*task, txns@),
    ensures
        match result {
            Ok(outs) => sequential_result(*task, txns@, base@) == Ok::<
                Seq<TransactionOutputView>,
                BlockExecutionError,
            >(outputs_view(outs@)),
            Err(e) => sequential_result(*task, txns@, base@) == Err::<
                Seq<TransactionOutputView>,
                BlockExecutionError,
            >(e),
        },
{
    proof {
        lemma_no_limit(*task, txns@, base@);
    }
    execute_block_in_order(task, txns, base, None)
}

} // verus!
