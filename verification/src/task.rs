//! The executor task: the capability that runs one transaction's logic, and
//! what running it means.
//!
//! A task never touches state itself. It asks for one key at a time and is
//! resumed with the value, until it reports how the transaction ended. What a
//! transaction does is therefore a function of the values it was given, which
//! is what makes re-execution safe.

use vstd::prelude::*;
use crate::types::{StateKey, StateValue};

verus! {

/// The address of an account.
pub type AccountAddress = u64;

/// What kind of event a transaction emitted.
#[derive(Clone, Copy, Debug, PartialEq, Eq, Structural)]
pub enum EventKind {
    /// Fungible assets left a store.
    Withdraw,
    /// Fungible assets entered a store.
    Deposit,
    /// Coins left an account.
    CoinWithdraw,
    /// Coins entered an account.
    CoinDeposit,
    /// The fee of a transaction.
    FeeStatement,
    Other,
}

/// An event emitted by a transaction.
#[derive(Clone, Copy, Debug, PartialEq, Eq, Structural)]
pub struct ContractEvent {
    pub kind: EventKind,
    pub account: AccountAddress,
    pub amount: u64,
}

/// Whether a transaction's effects are kept.
#[derive(Clone, Copy, Debug, PartialEq, Eq, Structural)]
pub enum TransactionStatus {
    /// The transaction ran to its end; its writes are applied.
    Keep,
    /// The transaction's own logic aborted, in the module and with the code
    /// given; it is charged and whatever it wrote is applied.
    KeepAborted { module: u64, code: u64 },
    /// The transaction is dropped.
    Discard(u64),
    /// The transaction was not run in this block.
    Retry,
}

/// One write of a transaction.
pub type WriteOp = (StateKey, StateValue);

/// What a transaction tells beside its effects.
#[derive(Clone, Copy, Debug, PartialEq, Eq, Structural)]
pub enum TransactionAuxiliaryData {
    /// Nothing to tell.
    Empty,
    /// The code of the error behind the transaction's status.
    V1 { detail_error_code: u64 },
}

/// What one transaction produced.
#[derive(Debug, PartialEq, Eq)]
pub struct TransactionOutput {
    pub write_set: Vec<WriteOp>,
    pub events: Vec<ContractEvent>,
    pub gas_used: u64,
    pub status: TransactionStatus,
    pub auxiliary_data: TransactionAuxiliaryData,
}

/// The mathematical content of a `TransactionOutput`.
pub struct TransactionOutputView {
    pub write_set: Seq<WriteOp>,
    pub events: Seq<ContractEvent>,
    pub gas_used: u64,
    pub status: TransactionStatus,
    pub auxiliary_data: TransactionAuxiliaryData,
}

impl View for TransactionOutput {
    type V = TransactionOutputView;

    open spec fn view(&self) -> TransactionOutputView {
        TransactionOutputView {
            write_set: self.write_set@,
            events: self.events@,
            gas_used: self.gas_used,
            status: self.status,
            auxiliary_data: self.auxiliary_data,
        }
    }
}

impl TransactionOutput {
    pub fn new(
        write_set: Vec<WriteOp>,
        events: Vec<ContractEvent>,
        gas_used: u64,
        status: TransactionStatus,
        auxiliary_data: TransactionAuxiliaryData,
    ) -> (out: Self)
        ensures
            out@ == (TransactionOutputView {
                write_set: write_set@,
                events: events@,
                gas_used,
                status,
                auxiliary_data,
            }),
    {
        TransactionOutput { write_set, events, gas_used, status, auxiliary_data }
    }

    /// An output without effects, for a transaction that was not run.
    pub fn skipped() -> (out: Self)
        ensures
            out@ == skipped_output(),
    {
        TransactionOutput {
            write_set: Vec::new(),
            events: Vec::new(),
            gas_used: 0,
            status: TransactionStatus::Retry,
            auxiliary_data: TransactionAuxiliaryData::Empty,
        }
    }

    /// A copy of the output.
    pub fn duplicate(&self) -> (out: Self)
        ensures
            out@ == self@,
    {
        let mut write_set: Vec<WriteOp> = Vec::new();
        let mut i: usize = 0;
        while i < self.write_set.len()
            invariant
                i <= self.write_set@.len(),
                write_set@ == self.write_set@.subrange(0, i as int),
            decreases self.write_set@.len() - i,
        {
            write_set.push(self.write_set[i]);
            assert(write_set@ =~= self.write_set@.subrange(0, i + 1));
            i = i + 1;
        }
        assert(write_set@ =~= self.write_set@);
        let mut events: Vec<ContractEvent> = Vec::new();
        let mut j: usize = 0;
        while j < self.events.len()
            invariant
                j <= self.events@.len(),
                events@ == self.events@.subrange(0, j as int),
            decreases self.events@.len() - j,
        {
            events.push(self.events[j]);
            assert(events@ =~= self.events@.subrange(0, j + 1));
            j = j + 1;
        }
        assert(events@ =~= self.events@);
        TransactionOutput {
            write_set,
            events,
            gas_used: self.gas_used,
            status: self.status,
            auxiliary_data: self.auxiliary_data,
        }
    }
}

/// The output of a transaction that was not run.
pub open spec fn skipped_output() -> TransactionOutputView {
    TransactionOutputView {
        write_set: Seq::empty(),
        events: Seq::empty(),
        gas_used: 0,
        status: TransactionStatus::Retry,
        auxiliary_data: TransactionAuxiliaryData::Empty,
    }
}

/// Why an execution could not go on.
#[derive(Clone, Copy, Debug, PartialEq, Eq, Structural)]
pub enum VMError {
    /// The transaction's logic reported an error that no retry can mend.
    Fatal(u64),
    /// The transaction asked for more reads than its task allows.
    ReadLimitExceeded,
}

/// How one execution of one transaction ended.
#[derive(Debug, PartialEq, Eq)]
pub enum ExecutionStatus {
    /// The transaction ran; the output says what it did.
    Success(TransactionOutput),
    /// A non-retryable error: fatal for the block once it is certain that the
    /// transaction saw the state it should have seen.
    Abort(VMError),
    /// The task gave up on what it saw; the transaction has to run again.
    SpeculativeExecutionAbortError(u64),
}

/// The mathematical content of an `ExecutionStatus`.
pub enum ExecutionStatusView {
    Success(TransactionOutputView),
    Abort(VMError),
    SpeculativeExecutionAbortError(u64),
}

impl View for ExecutionStatus {
    type V = ExecutionStatusView;

    open spec fn view(&self) -> ExecutionStatusView {
        match self {
            ExecutionStatus::Success(out) => ExecutionStatusView::Success(out@),
            ExecutionStatus::Abort(e) => ExecutionStatusView::Abort(*e),
            ExecutionStatus::SpeculativeExecutionAbortError(r) =>
                ExecutionStatusView::SpeculativeExecutionAbortError(*r),
        }
    }
}

impl ExecutionStatus {
    /// A copy of the status.
    pub fn duplicate(&self) -> (s: Self)
        ensures
            s@ == self@,
    {
        match self {
            ExecutionStatus::Success(out) => ExecutionStatus::Success(out.duplicate()),
            ExecutionStatus::Abort(e) => ExecutionStatus::Abort(*e),
            ExecutionStatus::SpeculativeExecutionAbortError(r) =>
                ExecutionStatus::SpeculativeExecutionAbortError(*r),
        }
    }
}

/// What a task does next: read a key and go on, or stop.
pub enum Step<C> {
    /// The task needs the value under the key; it resumes from the
    /// continuation.
    Read(StateKey, C),
    /// The execution ended.
    Done(ExecutionStatus),
}

/// The mathematical content of a `Step`.
pub enum StepView<C> {
    Read(StateKey, C),
    Done(ExecutionStatusView),
}

impl<C> View for Step<C> {
    type V = StepView<C>;

    open spec fn view(&self) -> StepView<C> {
        match self {
            Step::Read(key, cont) => StepView::Read(*key, *cont),
            Step::Done(status) => StepView::Done(status@),
        }
    }
}

/// The logic of one kind of transaction, as the engine sees it.
///
/// `spec_start` and `spec_resume` say what the transaction does; `start` and
/// `resume` compute it. Between two steps the task holds nothing but the
/// continuation, so an execution is determined by the values it was resumed
/// with.
pub trait ExecutorTask: Sized {
    /// A transaction of the block.
    type Txn;

    /// Where an execution stands between two reads.
    type Cont;

    /// What the task is made from.
    type Environment;

    spec fn spec_init(env: Self::Environment) -> Self;

    /// An upper bound on the reads of one execution of `txn`.
    spec fn spec_max_reads(&self, txn: Self::Txn) -> nat;

    spec fn spec_start(&self, txn: Self::Txn) -> StepView<Self::Cont>;

    spec fn spec_resume(
        &self,
        txn: Self::Txn,
        cont: Self::Cont,
        value: Option<StateValue>,
    ) -> StepView<Self::Cont>;

    spec fn spec_dynamic_change_set_capable(txn: Self::Txn) -> bool;

    /// Whether the task can run `txn` at all. A transaction that it cannot
    /// run is not handed to it.
    spec fn spec_accepts(&self, txn: Self::Txn) -> bool;

    /// Whether the task can run `txn` at all.
    fn accepts(&self, txn: &Self::Txn) -> (accepted: bool)
        ensures
            accepted == self.spec_accepts(*txn),
    ;

    /// Makes the task of one worker.
    fn init(env: &Self::Environment) -> (task: Self)
        ensures
            task == Self::spec_init(*env),
    ;

    fn max_reads(&self, txn: &Self::Txn) -> (n: usize)
        ensures
            n == self.spec_max_reads(*txn),
    ;

    /// Begins an execution of `txn`.
    fn start(&self, txn: &Self::Txn) -> (step: Step<Self::Cont>)
        requires
            self.spec_accepts(*txn),
        ensures
            step@ == self.spec_start(*txn),
    ;

    /// Goes on after a read: `value` is what the key held, `None` if nothing.
    fn resume(&self, txn: &Self::Txn, cont: Self::Cont, value: Option<StateValue>) -> (step: Step<
        Self::Cont,
    >)
        requires
            self.spec_accepts(*txn),
        ensures
            step@ == self.spec_resume(*txn, cont, value),
    ;

    /// Whether the transaction's output may take part in the optimisations
    /// that merge changes instead of re-reading them. `false` is always safe.
    fn is_transaction_dynamic_change_set_capable(txn: &Self::Txn) -> (capable: bool)
        ensures
            capable == Self::spec_dynamic_change_set_capable(*txn),
    ;
}

/// A state: what each key holds.
pub type State = Map<StateKey, StateValue>;

/// The task can run every transaction of the block.
pub open spec fn accepts_all<T: ExecutorTask>(task: T, txns: Seq<T::Txn>) -> bool {
    forall|i: int| 0 <= i < txns.len() ==> task.spec_accepts(#[trigger] txns[i])
}

/// The value under `key`, `None` where there is none.
pub open spec fn lookup(state: State, key: StateKey) -> Option<StateValue> {
    if state.contains_key(key) {
        Some(state[key])
    } else {
        None
    }
}

/// One read of an execution: the key and what it held.
pub type ReadRecord = (StateKey, Option<StateValue>);

/// An execution: what was read, in order, and how it ended.
pub struct Trace {
    pub reads: Seq<ReadRecord>,
    pub status: ExecutionStatusView,
}

/// The execution that goes on from `step` against `state`, with `fuel` reads
/// left.
pub open spec fn drive<T: ExecutorTask>(
    task: T,
    txn: T::Txn,
    step: StepView<T::Cont>,
    state: State,
    fuel: nat,
) -> Trace
    decreases fuel,
{
    match step {
        StepView::Done(status) => Trace { reads: Seq::empty(), status },
        StepView::Read(key, cont) => if fuel == 0 {
            Trace {
                reads: Seq::empty(),
                status: ExecutionStatusView::Abort(VMError::ReadLimitExceeded),
            }
        } else {
            let value = lookup(state, key);
            let rest = drive(
                task,
                txn,
                task.spec_resume(txn, cont, value),
                state,
                (fuel - 1) as nat,
            );
            Trace { reads: seq![(key, value)] + rest.reads, status: rest.status }
        },
    }
}

/// The execution of `txn` against `state`.
pub open spec fn run<T: ExecutorTask>(task: T, txn: T::Txn, state: State) -> Trace {
    drive(task, txn, task.spec_start(txn), state, task.spec_max_reads(txn))
}

/// `other` holds what `state` holds under every key that the trace read.
pub open spec fn agree_on_reads(reads: Seq<ReadRecord>, other: State) -> bool {
    forall|i: int| 0 <= i < reads.len() ==> lookup(other, (#[trigger] reads[i]).0) == reads[i].1
}

proof fn lemma_drive_agree<T: ExecutorTask>(
    task: T,
    txn: T::Txn,
    step: StepView<T::Cont>,
    state: State,
    other: State,
    fuel: nat,
)
    requires
        agree_on_reads(drive(task, txn, step, state, fuel).reads, other),
    ensures
        drive(task, txn, step, other, fuel) == drive(task, txn, step, state, fuel),
    decreases fuel,
{
    match step {
        StepView::Done(status) => {},
        StepView::Read(key, cont) => {
            if fuel > 0 {
                let value = lookup(state, key);
                let next = task.spec_resume(txn, cont, value);
                let rest = drive(task, txn, next, state, (fuel - 1) as nat);
                let reads = seq![(key, value)] + rest.reads;
                assert(reads[0] == (key, value));
                assert(lookup(other, key) == value);
                assert forall|i: int| 0 <= i < rest.reads.len() implies lookup(
                    other,
                    (#[trigger] rest.reads[i]).0,
                ) == rest.reads[i].1 by {
                    assert(reads[i + 1] == rest.reads[i]);
                }
                lemma_drive_agree(task, txn, next, state, other, (fuel - 1) as nat);
            }
        },
    }
}

/// Re-execution is idempotent: against any state that holds, under the keys
/// that an execution read, what that execution saw, the transaction reads the
/// same, ends the same and writes the same.
pub proof fn lemma_same_view_same_execution<T: ExecutorTask>(
    task: T,
    txn: T::Txn,
    state: State,
    other: State,
)
    requires
        agree_on_reads(run(task, txn, state).reads, other),
    ensures
        run(task, txn, other) == run(task, txn, state),
{
    lemma_drive_agree(
        task,
        txn,
        task.spec_start(txn),
        state,
        other,
        task.spec_max_reads(txn),
    );
}

} // verus!
