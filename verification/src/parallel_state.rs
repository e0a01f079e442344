//! The state that the workers of one block share, and the steps that they
//! take on it: hand out a task, run a transaction against its speculative
//! view and record what it wrote, check a transaction's reads, commit.
//!
//! Each step is atomic. Workers may take their steps in any order: after each
//! of them the store, the scheduler and the records are related as `safety`
//! says, which is why a commit can only ever add the next output of the
//! block as sequential execution yields it.

use vstd::prelude::*;
use std::collections::HashMap;
use crate::types::{TxnIndex, Incarnation, StateKey, StateValue};
use crate::versioned_data::{StoreView, VersionedData, without_writes};
use crate::scheduler::{
    ExecutionState, Scheduler, SchedulerView, Task, TxnStatus, after_abort_execution, after_commit,
    after_finish_execution, after_finish_validation, after_halt, after_next_task,
    can_abort_validation, commit_ready, initial_view, is_executed, is_executing, spec_next_task,
    view_wf,
};
use crate::task::{
    ExecutorTask, ExecutionStatus, ExecutionStatusView, ReadRecord, State, Step, Trace,
    TransactionOutput, VMError, WriteOp, accepts_all, drive, lookup, run,
};
use crate::trace::ended;
use crate::versioned_data::{ReadResult, resolve};
use crate::sequential::{
    BlockExecutionError, block_result, executed_len, first_failure, gas_after, last_write,
    lemma_last_write_some, limit_reached, outcome_at, output_of, over_limit, state_after,
    writes_of,
};
use crate::txn_view::{
    ReadDescriptor, ReadKind, check_reads, describe, first_blocked, reads_valid, speculative_view,
};
use crate::safety::{
    InFlightView, InFlights, RecordView, Records, after_read, inv, lemma_commit_outcome,
    lemma_committed_prefix, lemma_inv_commit, lemma_inv_finish_execution, lemma_inv_halt,
    lemma_inv_initial, lemma_inv_read, lemma_inv_rescheduled, lemma_inv_validated,
    lemma_inv_validation_aborted, reads_so_far, standing_of, store_estimated, store_replaced,
    writes_new_key,
};

verus! {

/// What the last finished execution of a transaction left behind.
pub struct TxnRecord {
    incarnation: Incarnation,
    reads: Vec<ReadDescriptor>,
    status: ExecutionStatus,
}

impl View for TxnRecord {
    type V = RecordView;

    closed spec fn view(&self) -> RecordView {
        RecordView {
            incarnation: self.incarnation,
            reads: self.reads@,
            status: self.status@,
        }
    }
}

/// An execution that is under way.
pub struct InFlight<C> {
    incarnation: Incarnation,
    reads: Vec<ReadDescriptor>,
    step: Step<C>,
    fuel: usize,
}

impl<C> View for InFlight<C> {
    type V = InFlightView<C>;

    closed spec fn view(&self) -> InFlightView<C> {
        InFlightView {
            incarnation: self.incarnation,
            reads: self.reads@,
            step: self.step@,
            fuel: self.fuel as nat,
        }
    }
}

/// The executions under way as the relation of `safety` sees them.
pub closed spec fn inflights_view<C>(in_flight: Seq<Option<InFlight<C>>>) -> InFlights<C> {
    Seq::new(
        in_flight.len(),
        |i: int|
            match in_flight[i] {
                Some(x) => Some(x@),
                None => None,
            },
    )
}

/// The records as the relation of `safety` sees them.
pub closed spec fn records_view(records: Seq<Option<TxnRecord>>) -> Records {
    Seq::new(
        records.len(),
        |i: int|
            match records[i] {
                Some(r) => Some(r@),
                None => None,
            },
    )
}

/// How the execution of a task ended.
#[derive(Clone, Copy, Debug, PartialEq, Eq, Structural)]
pub enum ExecutionOutcome {
    /// The transaction made a read and goes on.
    InProgress,
    /// The transaction ran; its writes are in the store.
    Executed { wrote_new_keys: bool },
    /// The transaction gave up and waits for its next incarnation.
    Aborted { blocked_on: Option<TxnIndex> },
    /// The task was not the execution under way: nothing was done.
    Stale,
    /// A counter is spent: nothing was done, and nothing more can be done
    /// in parallel.
    Exhausted,
}

/// How the validation of a task ended.
#[derive(Clone, Copy, Debug, PartialEq, Eq, Structural)]
pub enum ValidationOutcome {
    /// The reads resolve as they did.
    Valid,
    /// A read resolves otherwise: the incarnation is aborted, its writes are
    /// estimates, the transaction waits for its next incarnation.
    Aborted,
    /// The task was not on the incarnation that has run: nothing was done.
    Stale,
    /// A counter is spent: nothing was done, and nothing more can be done
    /// in parallel.
    Exhausted,
}

/// What an attempt to commit did.
#[derive(Clone, Copy, Debug, PartialEq, Eq, Structural)]
pub enum CommitOutcome {
    /// The transaction at this index is committed.
    Committed(TxnIndex),
    /// The next transaction in commit order ended in an error: the block has
    /// failed.
    Failed(BlockExecutionError),
    /// The next transaction in commit order is not ready.
    NotReady,
    /// The block has used the gas that it may use: what is not committed is
    /// left out.
    LimitReached,
}

/// The keys of a write set.
pub open spec fn keys_of(writes: Seq<WriteOp>) -> Seq<StateKey> {
    Seq::new(writes.len(), |i: int| writes[i].0)
}

fn write_keys(writes: &Vec<WriteOp>) -> (keys: Vec<StateKey>)
    ensures
        keys@ == keys_of(writes@),
{
    let mut keys: Vec<StateKey> = Vec::new();
    let mut i: usize = 0;
    while i < writes.len()
        invariant
            i <= writes@.len(),
            keys@.len() == i,
            forall|j: int| 0 <= j < i ==> keys@[j] == writes@[j].0,
        decreases writes@.len() - i,
    {
        keys.push(writes[i].0);
        i = i + 1;
    }
    assert(keys@ =~= keys_of(writes@));
    keys
}

proof fn lemma_keys_of(writes: Seq<WriteOp>, key: StateKey)
    ensures
        keys_of(writes).contains(key) <==> last_write(writes, key) is Some,
{
    lemma_last_write_some(writes, key);
    if keys_of(writes).contains(key) {
        let i = choose|i: int| 0 <= i < keys_of(writes).len() && keys_of(writes)[i] == key;
        assert(writes[i].0 == key);
    }
    if last_write(writes, key) is Some {
        let i = choose|i: int| 0 <= i < writes.len() && (#[trigger] writes[i]).0 == key;
        assert(keys_of(writes)[i] == key);
    }
}

/// Whether the writes go to a key under which `idx` has no entry.
fn has_new_key(store: &VersionedData, idx: TxnIndex, writes: &Vec<WriteOp>) -> (b: bool)
    requires
        store.wf(),
    ensures
        b == writes_new_key(store@, idx, writes@),
{
    let mut i: usize = 0;
    while i < writes.len()
        invariant
            store.wf(),
            i <= writes@.len(),
            forall|j: int| 0 <= j < i ==> store@.contains_key(((#[trigger] writes@[j]).0, idx)),
        decreases writes@.len() - i,
    {
        if store.get(writes[i].0, idx).is_none() {
            proof {
                let k = writes@[i as int].0;
                lemma_last_write_some(writes@, k);
                assert(last_write(writes@, k) is Some && !store@.contains_key((k, idx)));
            }
            return true;
        }
        i = i + 1;
    }
    proof {
        if writes_new_key(store@, idx, writes@) {
            let k = choose|k: StateKey|
                last_write(writes@, k) is Some && !store@.contains_key((k, idx));
            lemma_last_write_some(writes@, k);
            let j = choose|j: int| 0 <= j < writes@.len() && (#[trigger] writes@[j]).0 == k;
            assert(store@.contains_key((writes@[j].0, idx)));
        }
    }
    false
}

/// Replaces the entries of `idx`, which all are under `prev_keys`, by the
/// writes of incarnation `incarnation`.
fn replace_writes(
    store: &mut VersionedData,
    idx: TxnIndex,
    incarnation: Incarnation,
    prev_keys: &Vec<StateKey>,
    writes: &Vec<WriteOp>,
)
    requires
        old(store).wf(),
        forall|k: StateKey| #[trigger]
            old(store)@.contains_key((k, idx)) ==> prev_keys@.contains(k),
    ensures
        final(store).wf(),
        store_replaced(old(store)@, final(store)@, idx, incarnation, writes@),
{
    store.remove_writes(prev_keys, idx);
    let ghost cleared = store@;
    proof {
        assert forall|k: StateKey| !#[trigger] cleared.contains_key((k, idx)) by {
            if old(store)@.contains_key((k, idx)) {
                assert(prev_keys@.contains(k));
            }
        }
        assert(writes@.subrange(0, 0) =~= Seq::<WriteOp>::empty());
    }
    let mut i: usize = 0;
    while i < writes.len()
        invariant
            store.wf(),
            i <= writes@.len(),
            cleared == without_writes(old(store)@, prev_keys@, idx),
            forall|k: StateKey| !#[trigger] cleared.contains_key((k, idx)),
            store_replaced(cleared, store@, idx, incarnation, writes@.subrange(0, i as int)),
        decreases writes@.len() - i,
    {
        let (key, value) = writes[i];
        let ghost before = store@;
        store.record_write(key, idx, incarnation, value);
        proof {
            let pre = writes@.subrange(0, i as int);
            let next = writes@.subrange(0, i + 1);
            assert(next.drop_last() =~= pre);
            assert(next.last() == (key, value));
            assert forall|p: (StateKey, TxnIndex)| p.1 != idx implies (#[trigger] cleared.contains_key(
                p,
            ) <==> store@.contains_key(p)) by {
                assert(cleared.contains_key(p) <==> before.contains_key(p));
            }
            assert forall|k: StateKey| #[trigger]
                store@.contains_key((k, idx)) <==> last_write(next, k) is Some by {
                assert(before.contains_key((k, idx)) <==> last_write(pre, k) is Some);
            }
            assert forall|k: StateKey| #[trigger] store@.contains_key((k, idx)) implies store@[(
                k,
                idx,
            )] == crate::versioned_data::written_entry(
                incarnation,
                last_write(next, k).unwrap(),
            ) by {
                if k != key {
                    assert(before.contains_key((k, idx)));
                }
            }
        }
        i = i + 1;
    }
    proof {
        assert(writes@.subrange(0, i as int) =~= writes@);
        assert forall|p: (StateKey, TxnIndex)| p.1 != idx implies (#[trigger] old(
            store,
        )@.contains_key(p) <==> store@.contains_key(p)) by {
            assert(cleared.contains_key(p) <==> store@.contains_key(p));
        }
        assert forall|p: (StateKey, TxnIndex)| p.1 != idx && #[trigger] old(store)@.contains_key(
            p,
        ) implies old(store)@[p] == store@[p] by {
            assert(cleared.contains_key(p));
        }
    }
}

/// The shared state of one block under parallel execution.
pub struct ParallelState<T: ExecutorTask> {
    task: T,
    txns: Vec<T::Txn>,
    base: HashMap<StateKey, StateValue>,
    store: VersionedData,
    scheduler: Scheduler,
    records: Vec<Option<TxnRecord>>,
    in_flight: Vec<Option<InFlight<T::Cont>>>,
    commit_log: Vec<TxnIndex>,
    /// The gas that the block may use, if it is limited.
    limit: Option<u64>,
    /// The gas that the committed transactions used.
    gas: u64,
}

impl<T: ExecutorTask> ParallelState<T> {
    /// The task that runs the transactions.
    pub closed spec fn task(&self) -> T {
        self.task
    }

    /// The transactions of the block.
    pub closed spec fn txns(&self) -> Seq<T::Txn> {
        self.txns@
    }

    /// The state before the block.
    pub closed spec fn base(&self) -> State {
        self.base@
    }

    /// The multi-version store.
    pub closed spec fn store(&self) -> StoreView {
        self.store@
    }

    /// The scheduler's state.
    pub closed spec fn scheduler(&self) -> SchedulerView {
        self.scheduler@
    }

    /// What the last finished execution of each transaction recorded.
    pub closed spec fn records(&self) -> Records {
        records_view(self.records@)
    }

    /// The executions that are under way.
    pub closed spec fn in_flight(&self) -> InFlights<T::Cont> {
        inflights_view(self.in_flight@)
    }

    /// The indices of the committed transactions, in the order of their
    /// commits.
    pub closed spec fn commit_log(&self) -> Seq<TxnIndex> {
        self.commit_log@
    }

    /// The gas that the block may use, if it is limited.
    pub closed spec fn limit(&self) -> Option<u64> {
        self.limit
    }

    /// The gas that the committed transactions used, capped at `u64::MAX`.
    pub closed spec fn gas(&self) -> u64 {
        self.gas
    }

    /// The committed transactions have used the gas that the block may use,
    /// and a transaction is left that the limit leaves out.
    pub open spec fn limit_hit(&self) -> bool {
        &&& 1 <= self.scheduler().commit_idx < self.txns().len()
        &&& limit_reached(self.limit(), self.gas())
    }

    /// Nothing is left to do in parallel: all is committed, the block has
    /// failed, or the limit leaves out what is not committed.
    pub open spec fn finished(&self) -> bool {
        crate::scheduler::is_done(self.scheduler()) || self.limit_hit()
    }

    /// The store, the scheduler and the records are related as `safety` says,
    /// and the gas used is that of the committed transactions.
    pub closed spec fn wf(&self) -> bool {
        &&& self.store.wf()
        &&& self.scheduler.wf()
        &&& accepts_all(self.task, self.txns@)
        &&& self.gas == gas_after(self.task, self.txns@, self.base@, self.scheduler@.commit_idx)
        &&& executed_len(self.task, self.txns@, self.base@, self.limit, self.scheduler@.commit_idx)
            == self.scheduler@.commit_idx
        &&& self.scheduler@.halted ==> self.scheduler@.commit_idx == 0 || !limit_reached(
            self.limit,
            self.gas,
        )
        &&& inv(
            self.task,
            self.txns@,
            self.base@,
            self.store@,
            self.scheduler@,
            records_view(self.records@),
            inflights_view(self.in_flight@),
            self.commit_log@,
        )
    }

    /// A well-formed state satisfies the relation of `safety`.
    pub proof fn lemma_wf(&self)
        requires
            self.wf(),
        ensures
            accepts_all(self.task(), self.txns()),
            self.gas() == gas_after(
                self.task(),
                self.txns(),
                self.base(),
                self.scheduler().commit_idx,
            ),
            executed_len(
                self.task(),
                self.txns(),
                self.base(),
                self.limit(),
                self.scheduler().commit_idx,
            ) == self.scheduler().commit_idx,
            inv(
                self.task(),
                self.txns(),
                self.base(),
                self.store(),
                self.scheduler(),
                self.records(),
                self.in_flight(),
                self.commit_log(),
            ),
    {
    }

    /// The state of a block of which nothing has run.
    pub fn new(
        task: T,
        txns: Vec<T::Txn>,
        base: HashMap<StateKey, StateValue>,
        limit: Option<u64>,
    ) -> (state: Self)
        requires
            txns@.len() <= u32::MAX,
            accepts_all(task, txns@),
        ensures
            state.wf(),
            state.limit() == limit,
            state.gas() == 0,
            state.task() == task,
            state.txns() == txns@,
            state.base() == base@,
            state.store() == StoreView::empty(),
            state.scheduler() == initial_view(txns@.len()),
            state.commit_log() == Seq::<TxnIndex>::empty(),
            forall|i: int| 0 <= i < txns@.len() ==> state.records()[i] is None,
            forall|i: int| 0 <= i < txns@.len() ==> state.in_flight()[i] is None,
    {
        let n = txns.len();
        let mut records: Vec<Option<TxnRecord>> = Vec::new();
        let mut in_flight: Vec<Option<InFlight<T::Cont>>> = Vec::new();
        let mut i: usize = 0;
        while i < n
            invariant
                i <= n,
                records@.len() == i,
                in_flight@.len() == i,
                forall|j: int| 0 <= j < i ==> records@[j] is None,
                forall|j: int| 0 <= j < i ==> in_flight@[j] is None,
            decreases n - i,
        {
            records.push(None);
            in_flight.push(None);
            i = i + 1;
        }
        let state = ParallelState {
            task,
            txns,
            base,
            store: VersionedData::new(),
            scheduler: Scheduler::new(n as TxnIndex),
            records,
            in_flight,
            commit_log: Vec::new(),
            limit,
            gas: 0,
        };
        proof {
            lemma_inv_initial(
                state.task,
                state.txns@,
                state.base@,
                state.store@,
                state.scheduler@,
                records_view(state.records@),
                inflights_view(state.in_flight@),
                state.commit_log@,
            );
            assert(state.commit_log@ =~= Seq::<TxnIndex>::empty());
        }
        state
    }

    /// The number of transactions of the block.
    pub fn num_txns(&self) -> (n: usize)
        requires
            self.wf(),
        ensures
            n == self.txns().len(),
    {
        self.txns.len()
    }

    /// The number of committed transactions.
    pub fn num_committed(&self) -> (n: usize)
        requires
            self.wf(),
        ensures
            n == self.scheduler().commit_idx,
            n == self.commit_log().len(),
    {
        self.scheduler.commit_idx()
    }

    /// The scheduler's record of transaction `idx`.
    pub fn status(&self, idx: TxnIndex) -> (s: TxnStatus)
        requires
            self.wf(),
            idx < self.txns().len(),
        ensures
            s == self.scheduler().statuses[idx as int],
    {
        self.scheduler.status(idx)
    }

    /// Whether the limit on the block's gas leaves out what is not committed.
    pub fn is_limit_hit(&self) -> (hit: bool)
        requires
            self.wf(),
        ensures
            hit == self.limit_hit(),
    {
        let c = self.scheduler.commit_idx();
        1 <= c && c < self.txns.len() && over_limit(self.limit, self.gas)
    }

    /// Whether nothing is left to do in parallel.
    pub fn done(&self) -> (b: bool)
        requires
            self.wf(),
        ensures
            b == self.finished(),
    {
        proof {
            self.scheduler.lemma_wf();
        }
        self.scheduler.done() || self.is_limit_hit()
    }

    /// The index committed by the `position`-th commit.
    pub fn committed_at(&self, position: usize) -> (idx: TxnIndex)
        requires
            self.wf(),
            position < self.commit_log().len(),
        ensures
            idx == self.commit_log()[position as int],
            idx == position,
    {
        self.commit_log[position]
    }

    /// Hands the next task to `worker`. Where the limit on the block's gas
    /// is reached, nothing is left to hand out.
    pub fn next_task_for(&mut self, worker: usize) -> (task: Task)
        requires
            old(self).wf(),
        ensures
            final(self).wf(),
            final(self).limit() == old(self).limit(),
            final(self).gas() == old(self).gas(),
            final(self).asked(old(self), worker),
            task == (if old(self).limit_hit() {
                Task::Done
            } else {
                spec_next_task(old(self).scheduler())
            }),
            final(self).scheduler() == (if old(self).limit_hit() {
                old(self).scheduler()
            } else {
                after_next_task(old(self).scheduler(), worker)
            }),
            final(self).store() == old(self).store(),
            final(self).records() == old(self).records(),
            final(self).in_flight() == old(self).in_flight(),
            final(self).commit_log() == old(self).commit_log(),
            final(self).gas() == old(self).gas(),
            final(self).task() == old(self).task(),
            final(self).txns() == old(self).txns(),
            final(self).base() == old(self).base(),
    {
        if self.is_limit_hit() {
            return Task::Done;
        }
        let task = self.scheduler.next_task_for(worker);
        proof {
            self.scheduler.lemma_wf();
            old(self).scheduler.lemma_wf();
            let a = old(self).scheduler@;
            let b = self.scheduler@;
            crate::scheduler::lemma_next_task_rescheduled(a, worker);
            lemma_next_task_keeps_executing(a, worker);
            let inflight = inflights_view(self.in_flight@);
            assert forall|i: int| 0 <= i < inflight.len() implies (#[trigger] inflight[i]) is None
                || (b.statuses[i].state == a.statuses[i].state && b.statuses[i].incarnation
                == a.statuses[i].incarnation) by {
                assert(crate::safety::inflight_ok(self.task, self.txns@, a, inflight, i));
            }
            lemma_inv_rescheduled(
                self.task,
                self.txns@,
                self.base@,
                self.store@,
                a,
                b,
                records_view(self.records@),
                inflight,
                inflight,
                self.commit_log@,
            );
        }
        task
    }
}

/// Handing out a task leaves every execution that is under way as it is.
proof fn lemma_next_task_keeps_executing(sv: SchedulerView, worker: usize)
    requires
        view_wf(sv),
    ensures
        forall|i: int|
            0 <= i < sv.statuses.len() && (#[trigger] sv.statuses[i]).state
                == ExecutionState::Executing ==> after_next_task(sv, worker).statuses[i].state
                == ExecutionState::Executing && after_next_task(sv, worker).statuses[i].incarnation
                == sv.statuses[i].incarnation,
{
    crate::scheduler::lemma_next_execution(sv.statuses, sv.execution_idx);
    crate::scheduler::lemma_next_validation(sv.statuses, sv.wave, sv.validation_idx);
}

/// What giving up the incarnation comes to: the transaction is left to its
/// next incarnation, unless the incarnations are spent.
pub open spec fn giving_up_outcome(
    incarnation: Incarnation,
    blocked_on: Option<TxnIndex>,
) -> ExecutionOutcome {
    if incarnation < u32::MAX {
        ExecutionOutcome::Aborted { blocked_on }
    } else {
        ExecutionOutcome::Exhausted
    }
}

/// What recording an execution that ended in `status` comes to.
pub open spec fn finishing_outcome(
    store: StoreView,
    sv: SchedulerView,
    idx: TxnIndex,
    incarnation: Incarnation,
    status: ExecutionStatusView,
) -> ExecutionOutcome {
    match status {
        ExecutionStatusView::SpeculativeExecutionAbortError(_) => giving_up_outcome(
            incarnation,
            None,
        ),
        _ => {
            let wrote_new_keys = writes_new_key(store, idx, writes_of(status));
            if wrote_new_keys && sv.wave == u64::MAX {
                ExecutionOutcome::Exhausted
            } else {
                ExecutionOutcome::Executed { wrote_new_keys }
            }
        },
    }
}

/// What the next step of the execution `(idx, incarnation)` comes to in the
/// given state: an execution that has ended is recorded; one that asks for a
/// key reads it, unless the key holds an estimate.
pub open spec fn spec_advance_outcome<T: ExecutorTask>(
    task: T,
    txns: Seq<T::Txn>,
    store: StoreView,
    sv: SchedulerView,
    inflight: InFlights<T::Cont>,
    idx: TxnIndex,
    incarnation: Incarnation,
) -> ExecutionOutcome {
    if !is_executing(sv, idx, incarnation) {
        ExecutionOutcome::Stale
    } else {
        let standing = standing_of(task, txns, inflight, idx as int);
        match ended(standing.0, standing.1) {
            Some(status) => finishing_outcome(store, sv, idx, incarnation, status),
            None => match resolve(store, standing.0->Read_0, idx) {
                ReadResult::Dependency { blocking_idx } => giving_up_outcome(
                    incarnation,
                    Some(blocking_idx),
                ),
                _ => ExecutionOutcome::InProgress,
            },
        }
    }
}

/// What is left of the execution of `idx` when it goes on, from where it
/// stands, against the store as it is.
pub open spec fn remaining_trace<T: ExecutorTask>(
    task: T,
    txns: Seq<T::Txn>,
    base: State,
    store: StoreView,
    inflight: InFlights<T::Cont>,
    idx: TxnIndex,
) -> Trace {
    let standing = standing_of(task, txns, inflight, idx as int);
    drive(task, txns[idx as int], standing.0, speculative_view(store, base, idx), standing.1)
}

/// What running the execution `(idx, incarnation)` to its end comes to in
/// the given state, with no other step in between.
pub open spec fn spec_execution_outcome<T: ExecutorTask>(
    task: T,
    txns: Seq<T::Txn>,
    base: State,
    store: StoreView,
    sv: SchedulerView,
    inflight: InFlights<T::Cont>,
    idx: TxnIndex,
    incarnation: Incarnation,
) -> ExecutionOutcome {
    if !is_executing(sv, idx, incarnation) {
        ExecutionOutcome::Stale
    } else {
        let trace = remaining_trace(task, txns, base, store, inflight, idx);
        match first_blocked(store, idx, trace.reads) {
            Some(b) => giving_up_outcome(incarnation, Some(b)),
            None => finishing_outcome(store, sv, idx, incarnation, trace.status),
        }
    }
}

/// What a worker decides to do with an execution, having looked at where it
/// stands.
enum Decision {
    Exhausted,
    GiveUp(Option<TxnIndex>),
    Finish { wrote_new_keys: bool },
    ReadLimit,
    Read { value: Option<StateValue>, kind: ReadKind },
}
/// What checking the reads of `(idx, incarnation)` comes to in the given
/// state.
pub open spec fn spec_validation_outcome(
    store: StoreView,
    sv: SchedulerView,
    recs: Records,
    idx: TxnIndex,
    incarnation: Incarnation,
) -> ValidationOutcome {
    if !is_executed(sv, idx, incarnation) {
        ValidationOutcome::Stale
    } else if reads_valid(store, idx, recs[idx as int].unwrap().reads) {
        ValidationOutcome::Valid
    } else if can_abort_validation(sv, idx, incarnation) {
        ValidationOutcome::Aborted
    } else {
        ValidationOutcome::Exhausted
    }
}

/// The states are those of attempts to commit, one after the other, from
/// `before` to `after`: each but the last commits a transaction, the last
/// commits none.
pub open spec fn commit_chain<T: ExecutorTask>(
    chain: Seq<ParallelState<T>>,
    before: ParallelState<T>,
    after: ParallelState<T>,
) -> bool {
    &&& chain.len() >= 2
    &&& chain[0] == before
    &&& chain[chain.len() - 1] == after
    &&& forall|i: int| 0 <= i < chain.len() ==> (#[trigger] chain[i]).wf()
    &&& forall|i: int|
        0 <= i < chain.len() - 1 ==> (#[trigger] chain[i + 1]).tried_commit(&chain[i])
    &&& forall|i: int|
        0 <= i < chain.len() - 2 ==> (#[trigger] chain[i]).commit_outcome() is Committed
    &&& !(chain[chain.len() - 2].commit_outcome() is Committed)
}

/// What an attempt to commit comes to in the given state.
pub open spec fn spec_commit_outcome(sv: SchedulerView, recs: Records, limit_hit: bool) -> CommitOutcome {
    if sv.halted {
        CommitOutcome::NotReady
    } else if limit_hit {
        CommitOutcome::LimitReached
    } else if !commit_ready(sv) {
        CommitOutcome::NotReady
    } else {
        match recs[sv.commit_idx].unwrap().status {
            ExecutionStatusView::Abort(e) => CommitOutcome::Failed(
                BlockExecutionError::FatalVMError(e),
            ),
            _ => CommitOutcome::Committed(sv.commit_idx as TxnIndex),
        }
    }
}

impl<T: ExecutorTask> ParallelState<T> {
    /// Nothing but the scheduler, the store and the records differs.
    pub open spec fn same_block(&self, other: &Self) -> bool {
        &&& self.task() == other.task()
        &&& self.txns() == other.txns()
        &&& self.base() == other.base()
        &&& self.limit() == other.limit()
    }

    /// What an attempt to commit comes to in this state.
    pub open spec fn commit_outcome(&self) -> CommitOutcome {
        spec_commit_outcome(self.scheduler(), self.records(), self.limit_hit())
    }

    /// The state is what the step `validate(idx, incarnation)` made of the
    /// state `before`.
    pub open spec fn validated(
        &self,
        before: &Self,
        idx: TxnIndex,
        incarnation: Incarnation,
    ) -> bool {
        &&& self.same_block(before)
        &&& self.commit_log() == before.commit_log()
        &&& self.gas() == before.gas()
        &&& self.records() == before.records()
        &&& self.in_flight() == before.in_flight()
        &&& match spec_validation_outcome(
            before.store(),
            before.scheduler(),
            before.records(),
            idx,
            incarnation,
        ) {
            ValidationOutcome::Valid => {
                &&& self.scheduler() == after_finish_validation(
                    before.scheduler(),
                    idx,
                    incarnation,
                    true,
                )
                &&& self.store() == before.store()
            },
            ValidationOutcome::Aborted => {
                &&& self.scheduler() == after_finish_validation(
                    before.scheduler(),
                    idx,
                    incarnation,
                    false,
                )
                &&& store_estimated(before.store(), self.store(), idx)
            },
            _ => {
                &&& self.scheduler() == before.scheduler()
                &&& self.store() == before.store()
            },
        }
    }

    /// The state is what `next_task_for(worker)` made of the state `before`.
    pub open spec fn asked(&self, before: &Self, worker: usize) -> bool {
        &&& self.same_block(before)
        &&& self.commit_log() == before.commit_log()
        &&& self.gas() == before.gas()
        &&& self.records() == before.records()
        &&& self.in_flight() == before.in_flight()
        &&& self.store() == before.store()
        &&& self.scheduler() == (if before.limit_hit() {
            before.scheduler()
        } else {
            after_next_task(before.scheduler(), worker)
        })
    }

    /// The state is what one attempt to commit made of the state `before`:
    /// the next transaction is committed, or the block has failed, or
    /// nothing has changed.
    pub open spec fn tried_commit(&self, before: &Self) -> bool {
        &&& self.same_block(before)
        &&& self.store() == before.store()
        &&& self.records() == before.records()
        &&& self.in_flight() == before.in_flight()
        &&& match before.commit_outcome() {
            CommitOutcome::Committed(idx) => {
                &&& self.scheduler() == after_commit(before.scheduler())
                &&& self.commit_log() == before.commit_log().push(idx)
                &&& self.gas() == before.gas().saturating_add(
                    crate::sequential::gas_of(before.records()[idx as int].unwrap().status),
                )
            },
            CommitOutcome::Failed(e) => {
                &&& self.scheduler() == after_halt(before.scheduler())
                &&& self.commit_log() == before.commit_log()
                &&& self.gas() == before.gas()
            },
            _ => {
                &&& self.scheduler() == before.scheduler()
                &&& self.commit_log() == before.commit_log()
                &&& self.gas() == before.gas()
            },
        }
    }

    /// The state is what committing every transaction that was ready made
    /// of the state `before`: attempts to commit, one after the other, of
    /// which the last, and no other, committed nothing.
    pub open spec fn committed_all(&self, before: &Self) -> bool {
        exists|chain: Seq<Self>| #[trigger] commit_chain(chain, *before, *self)
    }

    /// What the step `advance(idx, incarnation)` with the given outcome made
    /// of the state `before`.
    pub open spec fn advanced(
        &self,
        before: &Self,
        idx: TxnIndex,
        incarnation: Incarnation,
        outcome: ExecutionOutcome,
    ) -> bool {
        let standing = standing_of(before.task(), before.txns(), before.in_flight(), idx as int);
        match outcome {
            ExecutionOutcome::InProgress => {
                &&& self.scheduler() == before.scheduler()
                &&& self.store() == before.store()
                &&& self.records() == before.records()
                &&& self.in_flight() == after_read(
                    before.task(),
                    before.txns(),
                    before.in_flight(),
                    idx,
                    incarnation,
                    describe(before.store(), before.base(), standing.0->Read_0, idx),
                )
            },
            ExecutionOutcome::Executed { wrote_new_keys } => {
                let status = ended(standing.0, standing.1).unwrap();
                &&& self.scheduler() == after_finish_execution(
                    before.scheduler(),
                    idx,
                    incarnation,
                    wrote_new_keys,
                )
                &&& store_replaced(
                    before.store(),
                    self.store(),
                    idx,
                    incarnation,
                    writes_of(status),
                )
                &&& self.records() == before.records().update(
                    idx as int,
                    Some(
                        RecordView {
                            incarnation,
                            reads: reads_so_far(before.in_flight(), idx as int),
                            status,
                        },
                    ),
                )
                &&& self.in_flight() == before.in_flight().update(idx as int, None)
            },
            ExecutionOutcome::Aborted { blocked_on } => {
                &&& self.scheduler() == after_abort_execution(
                    before.scheduler(),
                    idx,
                    incarnation,
                    blocked_on,
                )
                &&& self.store() == before.store()
                &&& self.records() == before.records()
                &&& self.in_flight() == before.in_flight().update(idx as int, None)
            },
            _ => {
                &&& self.scheduler() == before.scheduler()
                &&& self.store() == before.store()
                &&& self.records() == before.records()
                &&& self.in_flight() == before.in_flight()
            },
        }
    }

    /// Takes the next step of the execution `(idx, incarnation)` that a
    /// worker was handed. An execution that is not under way yet is begun.
    /// An execution that asks for a key reads it through the transaction's
    /// speculative view and resumes; where the key holds an estimate, the
    /// execution is given up and the transaction left to its next
    /// incarnation. An execution that has ended is recorded: its writes
    /// replace those of the previous incarnation in the store and the
    /// scheduler is told.
    pub fn advance(&mut self, idx: TxnIndex, incarnation: Incarnation) -> (outcome: ExecutionOutcome)
        requires
            old(self).wf(),
        ensures
            final(self).wf(),
            final(self).same_block(old(self)),
            final(self).commit_log() == old(self).commit_log(),
            final(self).gas() == old(self).gas(),
            outcome == spec_advance_outcome(
                old(self).task(),
                old(self).txns(),
                old(self).store(),
                old(self).scheduler(),
                old(self).in_flight(),
                idx,
                incarnation,
            ),
            final(self).advanced(old(self), idx, incarnation, outcome),
    {
        proof {
            self.scheduler.lemma_wf();
        }
        let i = idx as usize;
        if self.scheduler.is_halted() || i >= self.scheduler.num_txns() {
            return ExecutionOutcome::Stale;
        }
        let st = self.scheduler.status(idx);
        let executing = match st.state {
            ExecutionState::Executing => true,
            _ => false,
        };
        if !executing || st.incarnation != incarnation {
            return ExecutionOutcome::Stale;
        }
        let ghost recs = records_view(self.records@);
        let ghost inflight = inflights_view(self.in_flight@);
        let ghost sv = self.scheduler@;
        let ghost store = self.store@;
        let ghost standing = standing_of(self.task, self.txns@, inflight, i as int);
        let ghost prior = reads_so_far(inflight, i as int);
        let mut slot: Option<InFlight<T::Cont>> = None;
        self.in_flight.set_and_swap(i, &mut slot);
        proof {
            assert(inflights_view(self.in_flight@) =~= inflight.update(i as int, None));
            assert(crate::safety::inflight_ok(self.task, self.txns@, sv, inflight, i as int));
            crate::scheduler::lemma_abort_execution_rescheduled(sv, idx, incarnation, None);
            lemma_inv_rescheduled(
                self.task,
                self.txns@,
                self.base@,
                store,
                sv,
                sv,
                recs,
                inflight,
                inflight.update(i as int, None),
                self.commit_log@,
            );
        }
        let under_way = slot.is_some();
        let cur = match slot {
            Some(x) => x,
            None => InFlight {
                incarnation,
                reads: Vec::new(),
                step: self.task.start(&self.txns[i]),
                fuel: self.task.max_reads(&self.txns[i]),
            },
        };
        assert(cur@.step == standing.0 && cur@.fuel == standing.1 && cur@.reads == prior
            && cur@.incarnation == incarnation);
        let decision = match &cur.step {
            Step::Done(status) => {
                match status {
                    ExecutionStatus::SpeculativeExecutionAbortError(_) => {
                        if incarnation == u32::MAX {
                            Decision::Exhausted
                        } else {
                            Decision::GiveUp(None)
                        }
                    },
                    ExecutionStatus::Success(out) => {
                        let wrote_new_keys = has_new_key(&self.store, idx, &out.write_set);
                        if wrote_new_keys && self.scheduler.wave() == u64::MAX {
                            Decision::Exhausted
                        } else {
                            Decision::Finish { wrote_new_keys }
                        }
                    },
                    ExecutionStatus::Abort(_) => {
                        proof {
                            assert(!writes_new_key(store, idx, Seq::<WriteOp>::empty()));
                        }
                        Decision::Finish { wrote_new_keys: false }
                    },
                }
            },
            Step::Read(key, _) => {
                if cur.fuel == 0 {
                    proof {
                        assert(!writes_new_key(store, idx, Seq::<WriteOp>::empty()));
                    }
                    Decision::ReadLimit
                } else {
                    match self.store.read(*key, idx) {
                        ReadResult::Found { value, version } => Decision::Read {
                            value: Some(value),
                            kind: ReadKind::Versioned(version),
                        },
                        ReadResult::NotFound => {
                            broadcast use vstd::std_specs::hash::group_hash_axioms;

                            match self.base.get(key) {
                                Some(v) => Decision::Read { value: Some(*v), kind: ReadKind::Base },
                                None => Decision::Read { value: None, kind: ReadKind::NotFound },
                            }
                        },
                        ReadResult::Dependency { blocking_idx } => {
                            if incarnation == u32::MAX {
                                Decision::Exhausted
                            } else {
                                Decision::GiveUp(Some(blocking_idx))
                            }
                        },
                    }
                }
            },
        };
        match decision {
            Decision::Exhausted => {
                if under_way {
                    self.in_flight.set(i, Some(cur));
                }
                proof {
                    assert(inflights_view(self.in_flight@) =~= inflight);
                }
                ExecutionOutcome::Exhausted
            },
            Decision::GiveUp(blocked_on) => self.give_up(idx, incarnation, blocked_on),
            Decision::Finish { wrote_new_keys } => {
                let InFlight { incarnation: _, reads, step, fuel: _ } = cur;
                match step {
                    Step::Done(status) => self.record(idx, incarnation, reads, status, wrote_new_keys),
                    Step::Read(_, _) => ExecutionOutcome::Stale,
                }
            },
            Decision::ReadLimit => {
                let InFlight { incarnation: _, reads, step: _, fuel: _ } = cur;
                self.record(
                    idx,
                    incarnation,
                    reads,
                    ExecutionStatus::Abort(VMError::ReadLimitExceeded),
                    false,
                )
            },
            Decision::Read { value, kind } => {
                let InFlight { incarnation: _, reads, step, fuel } = cur;
                let mut reads = reads;
                match step {
                    Step::Read(key, cont) => {
                        reads.push(ReadDescriptor { key, kind, value });
                        let next = self.task.resume(&self.txns[i], cont, value);
                        self.in_flight.set(
                            i,
                            Some(InFlight { incarnation, reads, step: next, fuel: fuel - 1 }),
                        );
                        proof {
                            let d = describe(store, self.base@, key, idx);
                            assert(d == (ReadDescriptor { key, kind, value }));
                            assert(inflights_view(self.in_flight@) =~= after_read(
                                self.task,
                                self.txns@,
                                inflight,
                                idx,
                                incarnation,
                                d,
                            ));
                            lemma_inv_read(
                                self.task,
                                self.txns@,
                                self.base@,
                                store,
                                sv,
                                recs,
                                inflight,
                                self.commit_log@,
                                idx,
                                incarnation,
                            );
                        }
                        ExecutionOutcome::InProgress
                    },
                    Step::Done(_) => ExecutionOutcome::Stale,
                }
            },
        }
    }

    /// What the call `execute(idx, incarnation)` with the given outcome made
    /// of the state `before`.
    pub open spec fn executed(
        &self,
        before: &Self,
        idx: TxnIndex,
        incarnation: Incarnation,
        outcome: ExecutionOutcome,
    ) -> bool {
        let trace = remaining_trace(
            before.task(),
            before.txns(),
            before.base(),
            before.store(),
            before.in_flight(),
            idx,
        );
        let prior = reads_so_far(before.in_flight(), idx as int);
        match outcome {
            ExecutionOutcome::InProgress => false,
            ExecutionOutcome::Executed { wrote_new_keys } => {
                &&& self.scheduler() == after_finish_execution(
                    before.scheduler(),
                    idx,
                    incarnation,
                    wrote_new_keys,
                )
                &&& store_replaced(
                    before.store(),
                    self.store(),
                    idx,
                    incarnation,
                    writes_of(trace.status),
                )
                &&& self.in_flight() == before.in_flight().update(idx as int, None)
                &&& self.records().len() == before.records().len()
                &&& forall|j: int|
                    0 <= j < before.records().len() && j != idx ==> self.records()[j]
                        == before.records()[j]
                &&& self.records()[idx as int] matches Some(r) && r.incarnation == incarnation
                    && r.status == trace.status && r.reads.len() == prior.len()
                    + trace.reads.len() && (forall|p: int|
                    0 <= p < prior.len() ==> r.reads[p] == prior[p]) && (forall|p: int|
                    0 <= p < trace.reads.len() ==> #[trigger] r.reads[prior.len() + p] == describe(
                        before.store(),
                        before.base(),
                        trace.reads[p].0,
                        idx,
                    ))
            },
            ExecutionOutcome::Aborted { blocked_on } => {
                &&& self.scheduler() == after_abort_execution(
                    before.scheduler(),
                    idx,
                    incarnation,
                    blocked_on,
                )
                &&& self.store() == before.store()
                &&& self.records() == before.records()
                &&& self.in_flight() == before.in_flight().update(idx as int, None)
            },
            ExecutionOutcome::Exhausted => {
                &&& self.scheduler() == before.scheduler()
                &&& self.store() == before.store()
                &&& self.records() == before.records()
                &&& self.in_flight().len() == before.in_flight().len()
                &&& forall|j: int|
                    0 <= j < before.in_flight().len() && j != idx ==> self.in_flight()[j]
                        == before.in_flight()[j]
            },
            ExecutionOutcome::Stale => {
                &&& self.scheduler() == before.scheduler()
                &&& self.store() == before.store()
                &&& self.records() == before.records()
                &&& self.in_flight() == before.in_flight()
            },
        }
    }

    /// Runs the execution `(idx, incarnation)` that a worker was handed from
    /// where it stands to its end, step after step with no other step in
    /// between: to the record of the execution, or to the estimate at which
    /// it is given up.
    pub fn execute(&mut self, idx: TxnIndex, incarnation: Incarnation) -> (outcome: ExecutionOutcome)
        requires
            old(self).wf(),
        ensures
            final(self).wf(),
            final(self).same_block(old(self)),
            final(self).commit_log() == old(self).commit_log(),
            final(self).gas() == old(self).gas(),
            outcome == spec_execution_outcome(
                old(self).task(),
                old(self).txns(),
                old(self).base(),
                old(self).store(),
                old(self).scheduler(),
                old(self).in_flight(),
                idx,
                incarnation,
            ),
            final(self).executed(old(self), idx, incarnation, outcome),
    {
        proof {
            self.scheduler.lemma_wf();
        }
        let i = idx as usize;
        if self.scheduler.is_halted() || i >= self.scheduler.num_txns() {
            return ExecutionOutcome::Stale;
        }
        let st = self.scheduler.status(idx);
        let executing = match st.state {
            ExecutionState::Executing => true,
            _ => false,
        };
        if !executing || st.incarnation != incarnation {
            return ExecutionOutcome::Stale;
        }
        let ghost view = speculative_view(self.store@, self.base@, idx);
        let ghost trace = remaining_trace(
            self.task,
            self.txns@,
            self.base@,
            self.store@,
            inflights_view(self.in_flight@),
            idx,
        );
        let ghost prior = reads_so_far(inflights_view(self.in_flight@), i as int);
        let ghost mut seen: Seq<ReadRecord> = Seq::empty();
        proof {
            assert(seen + trace.reads =~= trace.reads);
            assert(inflights_view(self.in_flight@).len() == self.txns@.len());
        }
        loop
            invariant
                self.wf(),
                self.same_block(old(self)),
                self.commit_log() == old(self).commit_log(),
                self.gas() == old(self).gas(),
                self.scheduler() == old(self).scheduler(),
                self.store() == old(self).store(),
                self.records() == old(self).records(),
                is_executing(self.scheduler(), idx, incarnation),
                i == idx,
                view == speculative_view(old(self).store(), old(self).base(), idx),
                trace == remaining_trace(
                    old(self).task(),
                    old(self).txns(),
                    old(self).base(),
                    old(self).store(),
                    old(self).in_flight(),
                    idx,
                ),
                prior == reads_so_far(old(self).in_flight(), idx as int),
                self.in_flight().len() == old(self).in_flight().len(),
                old(self).in_flight().len() == old(self).txns().len(),
                forall|j: int|
                    0 <= j < old(self).in_flight().len() && j != idx ==> self.in_flight()[j]
                        == old(self).in_flight()[j],
                ({
                    let standing = standing_of(self.task(), self.txns(), self.in_flight(), idx as int);
                    let rest = drive(
                        self.task(),
                        self.txns()[idx as int],
                        standing.0,
                        view,
                        standing.1,
                    );
                    &&& trace.status == rest.status
                    &&& trace.reads == seen + rest.reads
                }),
                ({
                    let now = reads_so_far(self.in_flight(), idx as int);
                    &&& now.len() == prior.len() + seen.len()
                    &&& forall|p: int| 0 <= p < prior.len() ==> now[p] == prior[p]
                    &&& forall|p: int|
                        0 <= p < seen.len() ==> #[trigger] now[prior.len() + p] == describe(
                            old(self).store(),
                            old(self).base(),
                            seen[p].0,
                            idx,
                        )
                }),
                forall|p: int|
                    0 <= p < seen.len() ==> !(resolve(
                        old(self).store(),
                        (#[trigger] seen[p]).0,
                        idx,
                    ) is Dependency),
            decreases standing_of(self.task(), self.txns(), self.in_flight(), idx as int).1,
        {
            let ghost before = *self;
            let ghost standing = standing_of(self.task(), self.txns(), self.in_flight(), idx as int);
            let ghost rest = drive(
                self.task(),
                self.txns()[idx as int],
                standing.0,
                view,
                standing.1,
            );
            let outcome = self.advance(idx, incarnation);
            proof {
                if ended(standing.0, standing.1) is Some {
                    assert(rest.reads =~= Seq::<ReadRecord>::empty());
                    assert(trace.reads =~= seen);
                    crate::txn_view::lemma_first_blocked_none(
                        old(self).store(),
                        idx,
                        trace.reads,
                    );
                } else {
                    let key = standing.0->Read_0;
                    let value = lookup(view, key);
                    let next = drive(
                        self.task(),
                        self.txns()[idx as int],
                        self.task().spec_resume(
                            self.txns()[idx as int],
                            standing.0->Read_1,
                            value,
                        ),
                        view,
                        (standing.1 - 1) as nat,
                    );
                    assert(rest.reads =~= seq![(key, value)] + next.reads);
                    assert(trace.reads =~= seen.push((key, value)) + next.reads);
                    assert(trace.reads[seen.len() as int] == (key, value));
                    match resolve(old(self).store(), key, idx) {
                        ReadResult::Dependency { blocking_idx } => {
                            assert forall|p: int| 0 <= p < seen.len() implies !(resolve(
                                old(self).store(),
                                (#[trigger] trace.reads[p]).0,
                                idx,
                            ) is Dependency) by {
                                assert(trace.reads[p] == seen[p]);
                            }
                            crate::txn_view::lemma_first_blocked_at(
                                old(self).store(),
                                idx,
                                trace.reads,
                                seen.len() as int,
                                blocking_idx,
                            );
                        },
                        _ => {
                            let d = describe(old(self).store(), old(self).base(), key, idx);
                            assert(d.value == value);
                            let ghost_now = reads_so_far(self.in_flight(), idx as int);
                            let was = reads_so_far(before.in_flight(), idx as int);
                            assert(ghost_now == was.push(d));
                            assert forall|p: int| 0 <= p < seen.len() + 1 implies #[trigger] ghost_now[prior.len()
                                + p] == describe(
                                old(self).store(),
                                old(self).base(),
                                seen.push((key, value))[p].0,
                                idx,
                            ) by {
                                if p < seen.len() {
                                    assert(ghost_now[prior.len() + p] == was[prior.len() + p]);
                                }
                            }
                            assert forall|p: int| 0 <= p < prior.len() implies ghost_now[p]
                                == prior[p] by {
                                assert(ghost_now[p] == was[p]);
                            }
                        },
                    }
                }
            }
            match outcome {
                ExecutionOutcome::InProgress => {
                    proof {
                        let key = standing.0->Read_0;
                        seen = seen.push((key, lookup(view, key)));
                    }
                },
                _ => {
                    proof {
                        match outcome {
                            ExecutionOutcome::Executed { wrote_new_keys } => {
                                let r = self.records()[idx as int].unwrap();
                                let was = reads_so_far(before.in_flight(), idx as int);
                                assert(r.reads == was);
                                assert forall|p: int| 0 <= p < trace.reads.len() implies #[trigger] r.reads[prior.len()
                                    + p] == describe(
                                    old(self).store(),
                                    old(self).base(),
                                    trace.reads[p].0,
                                    idx,
                                ) by {
                                    assert(trace.reads[p] == seen[p]);
                                }
                                assert(self.in_flight() =~= old(self).in_flight().update(
                                    idx as int,
                                    None,
                                ));
                            },
                            ExecutionOutcome::Aborted { blocked_on } => {
                                assert(self.in_flight() =~= old(self).in_flight().update(
                                    idx as int,
                                    None,
                                ));
                            },
                            _ => {},
                        }
                    }
                    return outcome;
                },
            }
        }
    }

    /// Records the execution `(idx, incarnation)`, which has ended in
    /// `status` after the reads `reads`.
    fn record(
        &mut self,
        idx: TxnIndex,
        incarnation: Incarnation,
        reads: Vec<ReadDescriptor>,
        status: ExecutionStatus,
        wrote_new_keys: bool,
    ) -> (outcome: ExecutionOutcome)
        requires
            old(self).wf(),
            is_executing(old(self).scheduler(), idx, incarnation),
            old(self).in_flight()[idx as int] is None,
            !(status@ is SpeculativeExecutionAbortError),
            wrote_new_keys == writes_new_key(old(self).store(), idx, writes_of(status@)),
            wrote_new_keys ==> old(self).scheduler().wave < u64::MAX,
            exists|was: InFlights<T::Cont>|
                #![trigger was.update(idx as int, None)]
                {
                    &&& was.update(idx as int, None) == old(self).in_flight()
                    &&& inv(
                        old(self).task(),
                        old(self).txns(),
                        old(self).base(),
                        old(self).store(),
                        old(self).scheduler(),
                        old(self).records(),
                        was,
                        old(self).commit_log(),
                    )
                    &&& reads_so_far(was, idx as int) == reads@
                    &&& ended(
                        standing_of(old(self).task(), old(self).txns(), was, idx as int).0,
                        standing_of(old(self).task(), old(self).txns(), was, idx as int).1,
                    ) == Some(status@)
                },
        ensures
            final(self).wf(),
            final(self).same_block(old(self)),
            final(self).commit_log() == old(self).commit_log(),
            final(self).gas() == old(self).gas(),
            final(self).in_flight() == old(self).in_flight(),
            outcome == (ExecutionOutcome::Executed { wrote_new_keys }),
            final(self).scheduler() == after_finish_execution(
                old(self).scheduler(),
                idx,
                incarnation,
                wrote_new_keys,
            ),
            store_replaced(old(self).store(), final(self).store(), idx, incarnation, writes_of(status@)),
            final(self).records() == old(self).records().update(
                idx as int,
                Some(RecordView { incarnation, reads: reads@, status: status@ }),
            ),
    {
        proof {
            self.scheduler.lemma_wf();
        }
        let i = idx as usize;
        let ghost recs = records_view(self.records@);
        let ghost was = choose|was: InFlights<T::Cont>|
            #![trigger was.update(idx as int, None)]
            {
                &&& was.update(idx as int, None) == old(self).in_flight()
                &&& inv(
                    old(self).task(),
                    old(self).txns(),
                    old(self).base(),
                    old(self).store(),
                    old(self).scheduler(),
                    old(self).records(),
                    was,
                    old(self).commit_log(),
                )
                &&& reads_so_far(was, idx as int) == reads@
                &&& ended(
                    standing_of(old(self).task(), old(self).txns(), was, idx as int).0,
                    standing_of(old(self).task(), old(self).txns(), was, idx as int).1,
                ) == Some(status@)
            };
        let prev_keys = match &self.records[i] {
            Some(r) => match &r.status {
                ExecutionStatus::Success(out) => write_keys(&out.write_set),
                _ => Vec::new(),
            },
            None => Vec::new(),
        };
        proof {
            assert(crate::safety::entries_ok(self.store@, self.scheduler@, recs, i as int));
            assert forall|k: StateKey| #[trigger]
                self.store@.contains_key((k, idx)) implies prev_keys@.contains(k) by {
                let r = recs[i as int].unwrap();
                lemma_keys_of(writes_of(r.status), k);
            }
        }
        let no_writes: Vec<WriteOp> = Vec::new();
        match &status {
            ExecutionStatus::Success(out) => {
                replace_writes(&mut self.store, idx, incarnation, &prev_keys, &out.write_set);
            },
            _ => {
                replace_writes(&mut self.store, idx, incarnation, &prev_keys, &no_writes);
            },
        }
        let rec = TxnRecord { incarnation, reads, status };
        let ghost rv = rec@;
        self.records.set(i, Some(rec));
        let taken = self.scheduler.finish_execution(idx, incarnation, wrote_new_keys);
        proof {
            assert(taken);
            self.scheduler.lemma_wf();
            assert(records_view(self.records@) =~= recs.update(i as int, Some(rv)));
            lemma_inv_finish_execution(
                self.task,
                self.txns@,
                self.base@,
                old(self).store@,
                old(self).scheduler@,
                recs,
                was,
                self.commit_log@,
                idx,
                incarnation,
                rv,
                wrote_new_keys,
                self.store@,
                self.scheduler@,
            );
        }
        ExecutionOutcome::Executed { wrote_new_keys }
    }

    /// Leaves the execution `(idx, incarnation)`, of which nothing is under
    /// way any more, to its next incarnation.
    fn give_up(
        &mut self,
        idx: TxnIndex,
        incarnation: Incarnation,
        blocked_on: Option<TxnIndex>,
    ) -> (outcome: ExecutionOutcome)
        requires
            old(self).wf(),
            is_executing(old(self).scheduler(), idx, incarnation),
            old(self).in_flight()[idx as int] is None,
            incarnation < u32::MAX,
        ensures
            final(self).wf(),
            final(self).same_block(old(self)),
            final(self).commit_log() == old(self).commit_log(),
            final(self).gas() == old(self).gas(),
            final(self).store() == old(self).store(),
            final(self).records() == old(self).records(),
            final(self).in_flight() == old(self).in_flight(),
            outcome == (ExecutionOutcome::Aborted { blocked_on }),
            final(self).scheduler() == after_abort_execution(
                old(self).scheduler(),
                idx,
                incarnation,
                blocked_on,
            ),
    {
        proof {
            self.scheduler.lemma_wf();
        }
        let taken = self.scheduler.abort_execution(idx, incarnation, blocked_on);
        proof {
            self.scheduler.lemma_wf();
            crate::scheduler::lemma_abort_execution_rescheduled(
                old(self).scheduler@,
                idx,
                incarnation,
                blocked_on,
            );
            lemma_inv_rescheduled(
                self.task,
                self.txns@,
                self.base@,
                self.store@,
                old(self).scheduler@,
                self.scheduler@,
                records_view(self.records@),
                inflights_view(self.in_flight@),
                inflights_view(self.in_flight@),
                self.commit_log@,
            );
        }
        ExecutionOutcome::Aborted { blocked_on }
    }

    /// Whether `(idx, incarnation)` has run and each of its reads still
    /// resolves to the writer and incarnation that it observed.
    pub fn try_validate(&self, idx: TxnIndex, incarnation: Incarnation) -> (valid: bool)
        requires
            self.wf(),
        ensures
            valid == (is_executed(self.scheduler(), idx, incarnation) && reads_valid(
                self.store(),
                idx,
                self.records()[idx as int].unwrap().reads,
            )),
            is_executed(self.scheduler(), idx, incarnation) ==> self.records()[idx as int] is Some,
    {
        proof {
            self.scheduler.lemma_wf();
        }
        let i = idx as usize;
        if self.scheduler.is_halted() || i >= self.scheduler.num_txns() {
            return false;
        }
        let st = self.scheduler.status(idx);
        let executed = match st.state {
            ExecutionState::Executed => true,
            _ => false,
        };
        if !executed || st.incarnation != incarnation {
            return false;
        }
        proof {
            assert(crate::safety::entries_ok(
                self.store@,
                self.scheduler@,
                records_view(self.records@),
                i as int,
            ));
        }
        match &self.records[i] {
            Some(r) => check_reads(&self.store, idx, &r.reads),
            None => false,
        }
    }

    /// Validates `(idx, incarnation)` that a worker was handed: checks its
    /// reads against the store and tells the scheduler. Where a read resolves
    /// otherwise than it did, the incarnation is aborted: its writes become
    /// estimates and the transaction waits for its next incarnation.
    pub fn validate(&mut self, idx: TxnIndex, incarnation: Incarnation) -> (outcome:
        ValidationOutcome)
        requires
            old(self).wf(),
        ensures
            final(self).wf(),
            final(self).same_block(old(self)),
            final(self).commit_log() == old(self).commit_log(),
            final(self).gas() == old(self).gas(),
            final(self).records() == old(self).records(),
            final(self).in_flight() == old(self).in_flight(),
            final(self).validated(old(self), idx, incarnation),
            outcome == spec_validation_outcome(
                old(self).store(),
                old(self).scheduler(),
                old(self).records(),
                idx,
                incarnation,
            ),
            match outcome {
                ValidationOutcome::Valid => {
                    &&& final(self).scheduler() == after_finish_validation(
                        old(self).scheduler(),
                        idx,
                        incarnation,
                        true,
                    )
                    &&& final(self).store() == old(self).store()
                    &&& reads_valid(
                        final(self).store(),
                        idx,
                        final(self).records()[idx as int].unwrap().reads,
                    )
                },
                ValidationOutcome::Aborted => {
                    &&& final(self).scheduler() == after_finish_validation(
                        old(self).scheduler(),
                        idx,
                        incarnation,
                        false,
                    )
                    &&& store_estimated(old(self).store(), final(self).store(), idx)
                },
                _ => {
                    &&& final(self).scheduler() == old(self).scheduler()
                    &&& final(self).store() == old(self).store()
                },
            },
    {
        proof {
            self.scheduler.lemma_wf();
        }
        let i = idx as usize;
        if self.scheduler.is_halted() || i >= self.scheduler.num_txns() {
            return ValidationOutcome::Stale;
        }
        let st = self.scheduler.status(idx);
        let executed = match st.state {
            ExecutionState::Executed => true,
            _ => false,
        };
        if !executed || st.incarnation != incarnation {
            return ValidationOutcome::Stale;
        }
        let ghost recs = records_view(self.records@);
        if self.try_validate(idx, incarnation) {
            let taken = self.scheduler.finish_validation(idx, incarnation, true);
            proof {
                self.scheduler.lemma_wf();
                lemma_inv_validated(
                    self.task,
                    self.txns@,
                    self.base@,
                    self.store@,
                    old(self).scheduler@,
                    recs,
                    inflights_view(self.in_flight@),
                    self.commit_log@,
                    idx,
                    incarnation,
                    self.scheduler@,
                );
            }
            ValidationOutcome::Valid
        } else {
            if incarnation == u32::MAX || self.scheduler.wave() == u64::MAX {
                return ValidationOutcome::Exhausted;
            }
            let keys = match &self.records[i] {
                Some(r) => match &r.status {
                    ExecutionStatus::Success(out) => write_keys(&out.write_set),
                    _ => Vec::new(),
                },
                None => Vec::new(),
            };
            self.store.mark_estimate(&keys, idx);
            let taken = self.scheduler.finish_validation(idx, incarnation, false);
            proof {
                self.scheduler.lemma_wf();
                assert(crate::safety::entries_ok(
                    old(self).store@,
                    old(self).scheduler@,
                    recs,
                    i as int,
                ));
                assert forall|p: (StateKey, TxnIndex)| #[trigger]
                    old(self).store@.contains_key(p) implies self.store@[p] == (if p.1 == idx {
                    crate::versioned_data::as_estimate(old(self).store@[p])
                } else {
                    old(self).store@[p]
                }) by {
                    if p.1 == idx {
                        let r = recs[i as int].unwrap();
                        assert(old(self).store@.contains_key((p.0, idx)));
                        lemma_keys_of(writes_of(r.status), p.0);
                    }
                }
                lemma_inv_validation_aborted(
                    self.task,
                    self.txns@,
                    self.base@,
                    old(self).store@,
                    old(self).scheduler@,
                    recs,
                    inflights_view(self.in_flight@),
                    self.commit_log@,
                    idx,
                    incarnation,
                    self.store@,
                    self.scheduler@,
                );
            }
            ValidationOutcome::Aborted
        }
    }

    /// Commits the next transaction in commit order, if it has run and its
    /// reads were found valid after every wave that could have touched
    /// them. A committed transaction ended as it does when the block runs in
    /// order. Where the transaction ended in an error, the block fails.
    /// Where the committed transactions have used the gas that the block may
    /// use, nothing more is committed.
    pub fn try_commit(&mut self) -> (outcome: CommitOutcome)
        requires
            old(self).wf(),
        ensures
            final(self).wf(),
            final(self).same_block(old(self)),
            final(self).store() == old(self).store(),
            final(self).records() == old(self).records(),
            final(self).in_flight() == old(self).in_flight(),
            outcome == spec_commit_outcome(
                old(self).scheduler(),
                old(self).records(),
                old(self).limit_hit(),
            ),
            final(self).tried_commit(old(self)),
            match outcome {
                CommitOutcome::Committed(idx) => {
                    &&& idx == old(self).scheduler().commit_idx
                    &&& final(self).scheduler() == after_commit(old(self).scheduler())
                    &&& final(self).commit_log() == old(self).commit_log().push(idx)
                    &&& final(self).records()[idx as int] is Some
                    &&& final(self).records()[idx as int].unwrap().status == outcome_at(
                        final(self).task(),
                        final(self).txns(),
                        final(self).base(),
                        idx as int,
                    )
                    &&& final(self).records()[idx as int].unwrap().status is Success
                    &&& reads_valid(
                        final(self).store(),
                        idx,
                        final(self).records()[idx as int].unwrap().reads,
                    )
                    &&& final(self).gas() == old(self).gas().saturating_add(
                        crate::sequential::gas_of(final(self).records()[idx as int].unwrap().status),
                    )
                },
                CommitOutcome::Failed(e) => {
                    &&& final(self).scheduler() == after_halt(old(self).scheduler())
                    &&& final(self).commit_log() == old(self).commit_log()
                    &&& final(self).gas() == old(self).gas()
                    &&& block_result(
                        final(self).task(),
                        final(self).txns(),
                        final(self).base(),
                        final(self).limit(),
                    ) == Err::<Seq<crate::task::TransactionOutputView>, BlockExecutionError>(e)
                },
                _ => {
                    &&& final(self).scheduler() == old(self).scheduler()
                    &&& final(self).commit_log() == old(self).commit_log()
                    &&& final(self).gas() == old(self).gas()
                },
            },
    {
        proof {
            self.scheduler.lemma_wf();
        }
        if self.scheduler.is_halted() {
            return CommitOutcome::NotReady;
        }
        if self.is_limit_hit() {
            return CommitOutcome::LimitReached;
        }
        if !self.scheduler.is_commit_ready() {
            return CommitOutcome::NotReady;
        }
        let c = self.scheduler.commit_idx();
        let ghost recs = records_view(self.records@);
        proof {
            lemma_commit_outcome(
                self.task,
                self.txns@,
                self.base@,
                self.store@,
                self.scheduler@,
                recs,
                inflights_view(self.in_flight@),
                self.commit_log@,
            );
            assert(crate::safety::trace_ok(self.task, self.txns@, recs, c as int));
        }
        let (failed, used) = match &self.records[c] {
            Some(r) => match &r.status {
                ExecutionStatus::Abort(e) => (Some(*e), 0),
                ExecutionStatus::Success(out) => (None, out.gas_used),
                _ => (None, 0),
            },
            None => (None, 0),
        };
        match failed {
            Some(e) => {
                let halted = self.scheduler.halt();
                proof {
                    self.scheduler.lemma_wf();
                    lemma_inv_halt(
                        self.task,
                        self.txns@,
                        self.base@,
                        self.store@,
                        old(self).scheduler@,
                        recs,
                        inflights_view(self.in_flight@),
                        self.commit_log@,
                        self.scheduler@,
                    );
                    self.lemma_failure_at_commit_point();
                }
                CommitOutcome::Failed(BlockExecutionError::FatalVMError(e))
            },
            None => {
                let committed = self.scheduler.try_commit();
                self.commit_log.push(c as TxnIndex);
                self.gas = self.gas.saturating_add(used);
                proof {
                    self.scheduler.lemma_wf();
                    lemma_inv_commit(
                        self.task,
                        self.txns@,
                        self.base@,
                        self.store@,
                        old(self).scheduler@,
                        recs,
                        inflights_view(self.in_flight@),
                        old(self).commit_log@,
                        self.scheduler@,
                    );
                    crate::sequential::lemma_executed_len_bounds(
                        self.task,
                        self.txns@,
                        self.base@,
                        self.limit,
                        c as int,
                    );
                }
                CommitOutcome::Committed(c as TxnIndex)
            },
        }
    }

    /// Where the block was stopped, running it in order under the limit
    /// fails with the error of the transaction at the commit point.
    proof fn lemma_failure_at_commit_point(&self)
        requires
            self.store.wf(),
            self.scheduler.wf(),
            inv(
                self.task,
                self.txns@,
                self.base@,
                self.store@,
                self.scheduler@,
                records_view(self.records@),
                inflights_view(self.in_flight@),
                self.commit_log@,
            ),
            self.gas == gas_after(self.task, self.txns@, self.base@, self.scheduler@.commit_idx),
            executed_len(self.task, self.txns@, self.base@, self.limit, self.scheduler@.commit_idx)
                == self.scheduler@.commit_idx,
            self.scheduler@.halted,
            self.scheduler@.commit_idx == 0 || !limit_reached(self.limit, self.gas),
        ensures
            block_result(self.task, self.txns@, self.base@, self.limit) == Err::<
                Seq<crate::task::TransactionOutputView>,
                BlockExecutionError,
            >(
                crate::sequential::error_of(
                    records_view(self.records@)[self.scheduler@.commit_idx].unwrap().status,
                ),
            ),
            records_view(self.records@)[self.scheduler@.commit_idx] is Some,
            records_view(self.records@)[self.scheduler@.commit_idx].unwrap().status is Abort,
    {
        let c = self.scheduler@.commit_idx;
        let n = self.txns@.len() as int;
        lemma_committed_prefix(
            self.task,
            self.txns@,
            self.base@,
            self.store@,
            self.scheduler@,
            records_view(self.records@),
            inflights_view(self.in_flight@),
            self.commit_log@,
            c,
        );
        crate::sequential::lemma_executed_len_bounds(
            self.task,
            self.txns@,
            self.base@,
            self.limit,
            n,
        );
        crate::sequential::lemma_runs_past(self.task, self.txns@, self.base@, self.limit, c, n);
        crate::sequential::lemma_first_failure_stays(
            self.task,
            self.txns@,
            self.base@,
            c + 1,
            executed_len(self.task, self.txns@, self.base@, self.limit, n),
        );
    }
}

impl<T: ExecutorTask> ParallelState<T> {
    /// The output of the committed transaction at `idx`.
    pub fn committed_output(&self, idx: TxnIndex) -> (out: TransactionOutput)
        requires
            self.wf(),
            idx < self.scheduler().commit_idx,
        ensures
            out@ == output_of(outcome_at(self.task(), self.txns(), self.base(), idx as int)),
    {
        proof {
            self.scheduler.lemma_wf();
            assert(crate::safety::committed_ok(
                self.task,
                self.txns@,
                self.base@,
                self.scheduler@,
                records_view(self.records@),
                idx as int,
            ));
        }
        match &self.records[idx as usize] {
            Some(r) => match &r.status {
                ExecutionStatus::Success(out) => out.duplicate(),
                _ => TransactionOutput::skipped(),
            },
            None => TransactionOutput::skipped(),
        }
    }

    /// The error that stopped the block, if one did.
    pub fn failure(&self) -> (e: Option<BlockExecutionError>)
        requires
            self.wf(),
        ensures
            e is Some == self.scheduler().halted,
            e matches Some(err) ==> block_result(
                self.task(),
                self.txns(),
                self.base(),
                self.limit(),
            ) == Err::<Seq<crate::task::TransactionOutputView>, BlockExecutionError>(err),
    {
        proof {
            self.scheduler.lemma_wf();
        }
        if !self.scheduler.is_halted() {
            return None;
        }
        let c = self.scheduler.commit_idx();
        proof {
            self.lemma_failure_at_commit_point();
        }
        match &self.records[c] {
            Some(r) => match &r.status {
                ExecutionStatus::Abort(e) => Some(BlockExecutionError::FatalVMError(*e)),
                _ => Some(BlockExecutionError::FatalVMError(VMError::ReadLimitExceeded)),
            },
            None => Some(BlockExecutionError::FatalVMError(VMError::ReadLimitExceeded)),
        }
    }

    /// Finishes the block in order: keeps what is committed, drops every
    /// speculative result above the commit point, and runs the transactions
    /// from there on one after the other, each once, as far as the limit on
    /// the block's gas lets them run. Whatever was done in parallel before,
    /// the result is that of running the whole block in order.
    pub fn finish_sequentially(&self) -> (result: Result<Vec<TransactionOutput>, BlockExecutionError>)
        requires
            self.wf(),
        ensures
            match result {
                Ok(outs) => block_result(self.task(), self.txns(), self.base(), self.limit())
                    == Ok::<Seq<crate::task::TransactionOutputView>, BlockExecutionError>(
                    crate::sequential::outputs_view(outs@),
                ),
                Err(e) => block_result(self.task(), self.txns(), self.base(), self.limit())
                    == Err::<Seq<crate::task::TransactionOutputView>, BlockExecutionError>(e),
            },
    {
        proof {
            self.scheduler.lemma_wf();
        }
        match self.failure() {
            Some(e) => {
                return Err(e);
            },
            None => {},
        }
        let c = self.scheduler.commit_idx();
        let ghost recs = records_view(self.records@);
        let mut state = self.base.clone();
        let mut outputs: Vec<TransactionOutput> = Vec::new();
        let mut i: usize = 0;
        while i < c
            invariant
                self.wf(),
                recs == records_view(self.records@),
                c == self.scheduler@.commit_idx,
                c <= self.txns@.len(),
                self.records@.len() == self.txns@.len(),
                i <= c,
                state@ == state_after(self.task, self.txns@, self.base@, i as int),
                outputs@.len() == i,
                forall|j: int|
                    0 <= j < i ==> (#[trigger] outputs@[j])@ == output_of(
                        outcome_at(self.task, self.txns@, self.base@, j),
                    ),
            decreases c - i,
        {
            proof {
                assert(crate::safety::committed_ok(
                    self.task,
                    self.txns@,
                    self.base@,
                    self.scheduler@,
                    recs,
                    i as int,
                ));
            }
            match &self.records[i] {
                Some(r) => match &r.status {
                    ExecutionStatus::Success(out) => {
                        crate::sequential::apply_write_set(&mut state, &out.write_set);
                        outputs.push(out.duplicate());
                    },
                    _ => {},
                },
                None => {},
            }
            i = i + 1;
        }
        proof {
            lemma_committed_prefix(
                self.task,
                self.txns@,
                self.base@,
                self.store@,
                self.scheduler@,
                recs,
                inflights_view(self.in_flight@),
                self.commit_log@,
                c as int,
            );
        }
        crate::sequential::execute_sequential_from(
            &self.task,
            &self.txns,
            c,
            state,
            outputs,
            self.gas,
            self.limit,
            Ghost(self.base@),
        )
    }
}

impl<T: ExecutorTask> ParallelState<T> {
    /// Serializability: in every state that the workers can reach, whatever
    /// the order of their steps, each committed transaction ended in
    /// success with the output that it has when the block runs strictly in
    /// order, and no transaction of the committed prefix fails in that run.
    pub proof fn lemma_committed_as_in_order(&self, i: int)
        requires
            self.wf(),
            0 <= i < self.scheduler().commit_idx,
        ensures
            self.records()[i] is Some,
            self.records()[i].unwrap().status == outcome_at(self.task(), self.txns(), self.base(), i),
            self.records()[i].unwrap().status is Success,
            first_failure(self.task(), self.txns(), self.base(), self.scheduler().commit_idx)
                is None,
    {
        assert(crate::safety::committed_ok(
            self.task,
            self.txns@,
            self.base@,
            self.scheduler@,
            records_view(self.records@),
            i,
        ));
        lemma_committed_prefix(
            self.task,
            self.txns@,
            self.base@,
            self.store@,
            self.scheduler@,
            records_view(self.records@),
            inflights_view(self.in_flight@),
            self.commit_log@,
            self.scheduler@.commit_idx,
        );
    }

    /// Commit monotonicity: the commits happen in the order of the block.
    /// The `i`-th commit is that of transaction `i`: the output of a
    /// transaction is final strictly before that of the next, an index is
    /// committed once, and none is left out.
    pub proof fn lemma_commits_in_order(&self)
        requires
            self.wf(),
        ensures
            self.commit_log().len() == self.scheduler().commit_idx,
            forall|i: int| 0 <= i < self.commit_log().len() ==> #[trigger] self.commit_log()[i] == i,
            forall|i: int, j: int|
                0 <= i < j < self.commit_log().len() ==> self.commit_log()[i]
                    < self.commit_log()[j],
            forall|i: int|
                0 <= i < self.txns().len() ==> (self.scheduler().statuses[i].state
                    == ExecutionState::Committed <==> i < self.commit_log().len()),
    {
    }

    /// No transaction is held validated on stale reads: wherever the
    /// scheduler holds the current incarnation of a transaction validated,
    /// after every wave that a transaction up to it set off, checking its
    /// reads again succeeds.
    pub proof fn lemma_validated_reads_stay_valid(&self, idx: TxnIndex)
        requires
            self.wf(),
            crate::scheduler::validated_ok(self.scheduler(), idx as int),
        ensures
            self.records()[idx as int] is Some,
            reads_valid(self.store(), idx, self.records()[idx as int].unwrap().reads),
            spec_validation_outcome(
                self.store(),
                self.scheduler(),
                self.records(),
                idx,
                self.scheduler().statuses[idx as int].incarnation,
            ) == ValidationOutcome::Valid || self.scheduler().halted,
    {
        assert(crate::safety::validation_ok(
            self.store@,
            self.scheduler@,
            records_view(self.records@),
            idx as int,
        ));
    }
}

/// Abort convergence, step by step: an abort, be it of an execution or after
/// a failed validation, leaves the transaction ready to run in the next
/// incarnation; no other step of the scheduler changes an incarnation; and a
/// commit makes final the incarnation that has run. So a transaction that
/// was aborted is committed, if at all, in a higher incarnation than any in
/// which it was aborted.
pub proof fn lemma_incarnations_only_grow(
    sv: SchedulerView,
    idx: TxnIndex,
    incarnation: Incarnation,
    worker: usize,
    blocked_on: Option<TxnIndex>,
    flag: bool,
    i: int,
)
    requires
        view_wf(sv),
        0 <= i < sv.statuses.len(),
    ensures
        after_next_task(sv, worker).statuses[i].incarnation == sv.statuses[i].incarnation,
        after_finish_execution(sv, idx, incarnation, flag).statuses[i].incarnation
            == sv.statuses[i].incarnation,
        after_commit(sv).statuses[i].incarnation == sv.statuses[i].incarnation,
        after_halt(sv).statuses[i].incarnation == sv.statuses[i].incarnation,
        after_finish_validation(sv, idx, incarnation, true).statuses[i].incarnation
            == sv.statuses[i].incarnation,
        after_abort_execution(sv, idx, incarnation, blocked_on).statuses[i].incarnation == (if i
            == idx && is_executing(sv, idx, incarnation) && incarnation < u32::MAX {
            (incarnation + 1) as Incarnation
        } else {
            sv.statuses[i].incarnation
        }),
        after_finish_validation(sv, idx, incarnation, false).statuses[i].incarnation == (if i
            == idx && can_abort_validation(sv, idx, incarnation) {
            (incarnation + 1) as Incarnation
        } else {
            sv.statuses[i].incarnation
        }),
        i == idx && is_executing(sv, idx, incarnation) && incarnation < u32::MAX
            ==> after_abort_execution(sv, idx, incarnation, blocked_on).statuses[i].state
            == ExecutionState::ReadyToExecute,
        i == idx && can_abort_validation(sv, idx, incarnation) ==> after_finish_validation(
            sv,
            idx,
            incarnation,
            false,
        ).statuses[i].state == ExecutionState::ReadyToExecute,
        commit_ready(sv) && i == sv.commit_idx ==> after_commit(sv).statuses[i].state
            == ExecutionState::Committed,
{
    crate::scheduler::lemma_next_execution(sv.statuses, sv.execution_idx);
    crate::scheduler::lemma_next_validation(sv.statuses, sv.wave, sv.validation_idx);
}

/// One of the reads is of a key under which code is kept and to which the
/// write set writes.
pub open spec fn reads_published_code(reads: Seq<ReadDescriptor>, writes: Seq<WriteOp>) -> bool {
    exists|p: int|
        0 <= p < reads.len() && crate::types::is_code_key((#[trigger] reads[p]).key) && last_write(
            writes,
            reads[p].key,
        ) is Some
}

/// One of the transactions from `from` on has read, in the execution that
/// stands or in the one under way, code that the write set publishes.
pub open spec fn code_conflict_from<C>(
    sv: SchedulerView,
    recs: Records,
    inflight: InFlights<C>,
    writes: Seq<WriteOp>,
    from: int,
) -> bool {
    exists|j: int|
        from <= j < sv.statuses.len() && reads_published_code(
            #[trigger] crate::safety::pending_reads(sv, recs, inflight, j),
            writes,
        )
}

fn writes_to(writes: &Vec<WriteOp>, key: StateKey) -> (found: bool)
    ensures
        found == (last_write(writes@, key) is Some),
{
    let mut i: usize = 0;
    while i < writes.len()
        invariant
            i <= writes@.len(),
            forall|q: int| 0 <= q < i ==> (#[trigger] writes@[q]).0 != key,
        decreases writes@.len() - i,
    {
        if writes[i].0 == key {
            proof {
                lemma_last_write_some(writes@, key);
            }
            return true;
        }
        i = i + 1;
    }
    proof {
        lemma_last_write_some(writes@, key);
    }
    false
}

fn reads_code(reads: &Vec<ReadDescriptor>, writes: &Vec<WriteOp>) -> (found: bool)
    ensures
        found == reads_published_code(reads@, writes@),
{
    let mut p: usize = 0;
    while p < reads.len()
        invariant
            p <= reads@.len(),
            forall|q: int|
                0 <= q < p ==> !(crate::types::is_code_key((#[trigger] reads@[q]).key) && last_write(
                    writes@,
                    reads@[q].key,
                ) is Some),
        decreases reads@.len() - p,
    {
        let key = reads[p].key;
        if crate::types::code_key(key) && writes_to(writes, key) {
            return true;
        }
        p = p + 1;
    }
    false
}

impl<T: ExecutorTask> ParallelState<T> {
    /// Whether a transaction above `idx` has read, in the execution that
    /// stands or in the one under way, code that the execution of `idx` that
    /// stands has published.
    pub open spec fn code_conflict(&self, idx: TxnIndex) -> bool {
        &&& idx < self.txns().len()
        &&& crate::scheduler::has_run(self.scheduler().statuses[idx as int].state)
        &&& self.records()[idx as int] matches Some(r) && code_conflict_from(
            self.scheduler(),
            self.records(),
            self.in_flight(),
            writes_of(r.status),
            idx + 1,
        )
    }

    /// Whether the code that the transaction at `idx` published was read by
    /// a transaction above it that ran, or is running, on the assumption of
    /// other code.
    pub fn has_code_conflict(&self, idx: TxnIndex) -> (conflict: bool)
        requires
            self.wf(),
        ensures
            conflict == self.code_conflict(idx),
    {
        proof {
            self.scheduler.lemma_wf();
        }
        let i = idx as usize;
        let n = self.txns.len();
        if i >= n {
            return false;
        }
        let ran = match self.scheduler.status(idx).state {
            ExecutionState::Executed => true,
            ExecutionState::Committed => true,
            ExecutionState::Aborted => true,
            _ => false,
        };
        if !ran {
            return false;
        }
        let ghost sv = self.scheduler@;
        let ghost recs = records_view(self.records@);
        let ghost inflight = inflights_view(self.in_flight@);
        proof {
            assert(crate::safety::entries_ok(self.store@, sv, recs, i as int));
        }
        match &self.records[i] {
            Some(r) => match &r.status {
                ExecutionStatus::Success(out) => {
                    let mut j: usize = i + 1;
                    while j < n
                        invariant
                            self.wf(),
                            sv == self.scheduler@,
                            recs == records_view(self.records@),
                            inflight == inflights_view(self.in_flight@),
                            n == self.txns@.len(),
                            n == sv.statuses.len(),
                            n == self.records@.len(),
                            n == self.in_flight@.len(),
                            i < j <= n,
                            recs[i as int] == Some(r@),
                            writes_of(r@.status) == out.write_set@,
                            crate::scheduler::has_run(sv.statuses[i as int].state),
                            i == idx,
                            forall|q: int|
                                i < q < j ==> !reads_published_code(
                                    #[trigger] crate::safety::pending_reads(sv, recs, inflight, q),
                                    out.write_set@,
                                ),
                        decreases n - j,
                    {
                        let ran = match self.scheduler.status(j as TxnIndex).state {
                            ExecutionState::Executed => true,
                            ExecutionState::Committed => true,
                            ExecutionState::Aborted => true,
                            _ => false,
                        };
                        let found = if ran {
                            match &self.records[j] {
                                Some(r) => reads_code(&r.reads, &out.write_set),
                                None => false,
                            }
                        } else {
                            match &self.in_flight[j] {
                                Some(x) => reads_code(&x.reads, &out.write_set),
                                None => false,
                            }
                        };
                        proof {
                            let pending = crate::safety::pending_reads(sv, recs, inflight, j as int);
                            if ran {
                                match self.records@[j as int] {
                                    Some(r) => {
                                        assert(pending == r@.reads);
                                    },
                                    None => {},
                                }
                            } else {
                                match self.in_flight@[j as int] {
                                    Some(x) => {
                                        assert(pending == x@.reads);
                                    },
                                    None => {},
                                }
                            }
                            assert(found == reads_published_code(pending, out.write_set@));
                            if found {
                                assert(recs[i as int] == Some(r@));
                                assert(writes_of(r@.status) == out.write_set@);
                                assert(code_conflict_from(
                                    sv,
                                    recs,
                                    inflight,
                                    out.write_set@,
                                    i + 1,
                                ));
                            }
                        }
                        if found {
                            return true;
                        }
                        j = j + 1;
                    }
                    false
                },
                _ => false,
            },
            None => false,
        }
    }
}

} // verus!
