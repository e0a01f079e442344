//! A small family of transactions with chosen reads and writes: each reads
//! some keys, adds up what it finds, and writes that sum, plus an addend of
//! its own, under some keys. It can be told to fail, or to give up, where the
//! sum has a given value, so that what it does depends on what it read.
//!
//! These transactions are made for exercising the engine with dependencies
//! between the transactions of a block.

use vstd::prelude::*;
use crate::types::{StateKey, StateValue};
use crate::task::{
    ContractEvent, ExecutionStatus, ExecutionStatusView, ExecutorTask, Step, StepView,
    TransactionAuxiliaryData, TransactionOutput, TransactionOutputView, TransactionStatus, VMError,
    WriteOp,
};

verus! {

/// A transaction that reads `reads` and writes, under each key of `writes`,
/// the sum of what it read plus the addend that stands beside the key.
pub struct SyntheticTransaction {
    pub reads: Vec<StateKey>,
    pub writes: Vec<WriteOp>,
    pub gas: u64,
    /// The sum on which the transaction fails for good.
    pub abort_on: Option<StateValue>,
    /// The sum on which the transaction gives up and asks to be run again.
    pub give_up_on: Option<StateValue>,
}

/// Where the execution of a synthetic transaction stands: the number of
/// reads made and the sum of what was found.
#[derive(Clone, Copy, Debug, PartialEq, Eq, Structural)]
pub struct SyntheticCont {
    pub next: usize,
    pub sum: StateValue,
}

/// Runs synthetic transactions.
#[derive(Clone, Copy, Debug, PartialEq, Eq, Structural)]
pub struct SyntheticTask;

/// What was found, counting nothing as zero.
pub open spec fn found(value: Option<StateValue>) -> StateValue {
    match value {
        Some(v) => v,
        None => 0,
    }
}

/// The writes of a transaction that read `sum`: the first `n` of them.
pub open spec fn written(writes: Seq<WriteOp>, sum: StateValue, n: int) -> Seq<WriteOp> {
    Seq::new(n as nat, |i: int| (writes[i].0, sum.saturating_add(writes[i].1)))
}

/// How a transaction that read `sum` ends.
pub open spec fn finish(txn: SyntheticTransaction, sum: StateValue) -> ExecutionStatusView {
    if txn.abort_on == Some(sum) {
        ExecutionStatusView::Abort(VMError::Fatal(sum))
    } else if txn.give_up_on == Some(sum) {
        ExecutionStatusView::SpeculativeExecutionAbortError(sum)
    } else {
        ExecutionStatusView::Success(
            TransactionOutputView {
                write_set: written(txn.writes@, sum, txn.writes@.len() as int),
                events: Seq::empty(),
                gas_used: txn.gas,
                status: TransactionStatus::Keep,
                auxiliary_data: TransactionAuxiliaryData::Empty,
            },
        )
    }
}

/// What a transaction does after `next` reads that added up to `sum`.
pub open spec fn advance(txn: SyntheticTransaction, next: int, sum: StateValue) -> StepView<
    SyntheticCont,
> {
    if 0 <= next < txn.reads@.len() {
        StepView::Read(txn.reads@[next], SyntheticCont { next: next as usize, sum })
    } else {
        StepView::Done(finish(txn, sum))
    }
}

impl SyntheticTransaction {
    /// A transaction that reads `reads` and writes under each key of
    /// `writes`, and neither fails nor gives up.
    pub fn new(reads: Vec<StateKey>, writes: Vec<WriteOp>, gas: u64) -> (txn: Self)
        ensures
            txn.reads == reads,
            txn.writes == writes,
            txn.gas == gas,
            txn.abort_on is None,
            txn.give_up_on is None,
    {
        SyntheticTransaction { reads, writes, gas, abort_on: None, give_up_on: None }
    }

    fn finish_exec(&self, sum: StateValue) -> (status: ExecutionStatus)
        ensures
            status@ == finish(*self, sum),
    {
        let fails = match self.abort_on {
            Some(s) => s == sum,
            None => false,
        };
        let gives_up = match self.give_up_on {
            Some(s) => s == sum,
            None => false,
        };
        if fails {
            ExecutionStatus::Abort(VMError::Fatal(sum))
        } else if gives_up {
            ExecutionStatus::SpeculativeExecutionAbortError(sum)
        } else {
            let mut write_set: Vec<WriteOp> = Vec::new();
            let mut i: usize = 0;
            while i < self.writes.len()
                invariant
                    i <= self.writes@.len(),
                    write_set@ == written(self.writes@, sum, i as int),
                decreases self.writes@.len() - i,
            {
                let (key, addend) = self.writes[i];
                write_set.push((key, sum.saturating_add(addend)));
                assert(write_set@ =~= written(self.writes@, sum, i + 1));
                i = i + 1;
            }
            let events: Vec<ContractEvent> = Vec::new();
            assert(events@ =~= Seq::<ContractEvent>::empty());
            ExecutionStatus::Success(
                TransactionOutput::new(
                    write_set,
                    events,
                    self.gas,
                    TransactionStatus::Keep,
                    TransactionAuxiliaryData::Empty,
                ),
            )
        }
    }

    fn advance_exec(&self, next: usize, sum: StateValue) -> (step: Step<SyntheticCont>)
        ensures
            step@ == advance(*self, next as int, sum),
    {
        if next < self.reads.len() {
            Step::Read(self.reads[next], SyntheticCont { next, sum })
        } else {
            Step::Done(self.finish_exec(sum))
        }
    }
}

impl ExecutorTask for SyntheticTask {
    type Txn = SyntheticTransaction;

    type Cont = SyntheticCont;

    type Environment = ();

    open spec fn spec_init(env: ()) -> Self {
        SyntheticTask
    }

    open spec fn spec_max_reads(&self, txn: SyntheticTransaction) -> nat {
        txn.reads@.len()
    }

    open spec fn spec_start(&self, txn: SyntheticTransaction) -> StepView<SyntheticCont> {
        advance(txn, 0, 0)
    }

    open spec fn spec_resume(
        &self,
        txn: SyntheticTransaction,
        cont: SyntheticCont,
        value: Option<StateValue>,
    ) -> StepView<SyntheticCont> {
        if cont.next < usize::MAX {
            advance(txn, cont.next + 1, cont.sum.saturating_add(found(value)))
        } else {
            StepView::Done(finish(txn, cont.sum))
        }
    }

    open spec fn spec_dynamic_change_set_capable(txn: SyntheticTransaction) -> bool {
        true
    }

    open spec fn spec_accepts(&self, txn: SyntheticTransaction) -> bool {
        true
    }

    fn accepts(&self, txn: &SyntheticTransaction) -> (accepted: bool) {
        true
    }

    fn init(env: &()) -> (task: Self) {
        SyntheticTask
    }

    fn max_reads(&self, txn: &SyntheticTransaction) -> (n: usize) {
        txn.reads.len()
    }

    fn start(&self, txn: &SyntheticTransaction) -> (step: Step<SyntheticCont>) {
        txn.advance_exec(0, 0)
    }

    fn resume(&self, txn: &SyntheticTransaction, cont: SyntheticCont, value: Option<StateValue>) -> (step:
        Step<SyntheticCont>) {
        if cont.next < usize::MAX {
            let v = match value {
                Some(v) => v,
                None => 0,
            };
            txn.advance_exec(cont.next + 1, cont.sum.saturating_add(v))
        } else {
            Step::Done(txn.finish_exec(cont.sum))
        }
    }

    fn is_transaction_dynamic_change_set_capable(txn: &SyntheticTransaction) -> (capable: bool) {
        true
    }
}

} // verus!
