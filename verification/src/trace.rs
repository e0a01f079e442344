//! Executions told by their reads alone. A task is resumed with values; what
//! it does is decided by the values that it was given, wherever they came
//! from. This module says what feeding a list of reads to a task leads to,
//! without any state, and relates that to running the task against a state
//! that holds those values.

use vstd::prelude::*;
use crate::types::StateValue;
use crate::task::{
    ExecutorTask, ExecutionStatusView, ReadRecord, State, StepView, Trace, VMError, agree_on_reads,
    drive, lookup, run,
};

verus! {

/// Where an execution stands: the step that it is about to take and the
/// number of reads that it may still make.
pub type Standing<C> = (StepView<C>, nat);

/// Where the execution that stood at `step` stands after it made the reads
/// `reads`, in order, each under the key that the execution asked for and
/// with the value that stands beside it. `None` where the execution would
/// not have made these reads.
pub open spec fn feed<T: ExecutorTask>(
    task: T,
    txn: T::Txn,
    step: StepView<T::Cont>,
    reads: Seq<ReadRecord>,
    fuel: nat,
) -> Option<Standing<T::Cont>>
    decreases reads.len(),
{
    if reads.len() == 0 {
        Some((step, fuel))
    } else {
        match step {
            StepView::Read(key, cont) => if fuel > 0 && key == reads[0].0 {
                feed(
                    task,
                    txn,
                    task.spec_resume(txn, cont, reads[0].1),
                    reads.subrange(1, reads.len() as int),
                    (fuel - 1) as nat,
                )
            } else {
                None
            },
            StepView::Done(_) => None,
        }
    }
}

/// How an execution that stands at `step` has ended, if it has: with the
/// status that it reported, or, where it asks for a read and may make none,
/// with the error of the read limit.
pub open spec fn ended<C>(step: StepView<C>, fuel: nat) -> Option<ExecutionStatusView> {
    match step {
        StepView::Done(status) => Some(status),
        StepView::Read(_, _) => if fuel == 0 {
            Some(ExecutionStatusView::Abort(VMError::ReadLimitExceeded))
        } else {
            None
        },
    }
}

/// The reads `reads` are those of an execution of `txn` from its start to
/// its end, and `status` is how it ended.
pub open spec fn is_execution<T: ExecutorTask>(
    task: T,
    txn: T::Txn,
    reads: Seq<ReadRecord>,
    status: ExecutionStatusView,
) -> bool {
    feed(task, txn, task.spec_start(txn), reads, task.spec_max_reads(txn)) matches Some(standing)
        && ended(standing.0, standing.1) == Some(status)
}

/// Feeding reads one list after the other is feeding the two lists joined.
pub proof fn lemma_feed_concat<T: ExecutorTask>(
    task: T,
    txn: T::Txn,
    step: StepView<T::Cont>,
    first: Seq<ReadRecord>,
    second: Seq<ReadRecord>,
    fuel: nat,
)
    requires
        feed(task, txn, step, first, fuel) is Some,
    ensures
        feed(task, txn, step, first + second, fuel) == feed(
            task,
            txn,
            feed(task, txn, step, first, fuel).unwrap().0,
            second,
            feed(task, txn, step, first, fuel).unwrap().1,
        ),
    decreases first.len(),
{
    if first.len() == 0 {
        assert(first + second =~= second);
    } else {
        let joined = first + second;
        assert(joined[0] == first[0]);
        assert(joined.subrange(1, joined.len() as int) =~= first.subrange(1, first.len() as int)
            + second);
        match step {
            StepView::Read(key, cont) => {
                lemma_feed_concat(
                    task,
                    txn,
                    task.spec_resume(txn, cont, first[0].1),
                    first.subrange(1, first.len() as int),
                    second,
                    (fuel - 1) as nat,
                );
            },
            StepView::Done(_) => {},
        }
    }
}

/// An execution that stands at a read and may make it stands, after it made
/// it, where the task resumes.
pub proof fn lemma_feed_push<T: ExecutorTask>(
    task: T,
    txn: T::Txn,
    step: StepView<T::Cont>,
    reads: Seq<ReadRecord>,
    fuel: nat,
    value: Option<StateValue>,
)
    requires
        feed(task, txn, step, reads, fuel) matches Some(standing) && standing.0 is Read
            && standing.1 > 0,
    ensures
        ({
            let standing = feed(task, txn, step, reads, fuel).unwrap();
            feed(task, txn, step, reads.push((standing.0->Read_0, value)), fuel) == Some(
                (
                    task.spec_resume(txn, standing.0->Read_1, value),
                    (standing.1 - 1) as nat,
                ),
            )
        }),
{
    let standing = feed(task, txn, step, reads, fuel).unwrap();
    let one = seq![(standing.0->Read_0, value)];
    lemma_feed_concat(task, txn, step, reads, one, fuel);
    assert(reads + one =~= reads.push((standing.0->Read_0, value)));
    assert(one.subrange(1, 1) =~= Seq::<ReadRecord>::empty());
    assert(feed(
        task,
        txn,
        task.spec_resume(txn, standing.0->Read_1, value),
        one.subrange(1, 1),
        (standing.1 - 1) as nat,
    ) == Some((task.spec_resume(txn, standing.0->Read_1, value), (standing.1 - 1) as nat)));
}

/// Running against a state that holds what the reads found is making these
/// reads and then running on from where the execution stands.
pub proof fn lemma_feed_drive<T: ExecutorTask>(
    task: T,
    txn: T::Txn,
    step: StepView<T::Cont>,
    reads: Seq<ReadRecord>,
    fuel: nat,
    state: State,
)
    requires
        feed(task, txn, step, reads, fuel) is Some,
        agree_on_reads(reads, state),
    ensures
        ({
            let standing = feed(task, txn, step, reads, fuel).unwrap();
            let rest = drive(task, txn, standing.0, state, standing.1);
            drive(task, txn, step, state, fuel) == (Trace {
                reads: reads + rest.reads,
                status: rest.status,
            })
        }),
    decreases reads.len(),
{
    let standing = feed(task, txn, step, reads, fuel).unwrap();
    let rest = drive(task, txn, standing.0, state, standing.1);
    if reads.len() == 0 {
        assert(reads + rest.reads =~= rest.reads);
    } else {
        match step {
            StepView::Read(key, cont) => {
                let tail = reads.subrange(1, reads.len() as int);
                assert(lookup(state, reads[0].0) == reads[0].1);
                assert forall|i: int| 0 <= i < tail.len() implies lookup(
                    state,
                    (#[trigger] tail[i]).0,
                ) == tail[i].1 by {
                    assert(tail[i] == reads[i + 1]);
                }
                lemma_feed_drive(
                    task,
                    txn,
                    task.spec_resume(txn, cont, reads[0].1),
                    tail,
                    (fuel - 1) as nat,
                    state,
                );
                assert(seq![(key, reads[0].1)] + (tail + rest.reads) =~= reads + rest.reads);
            },
            StepView::Done(_) => {},
        }
    }
}

/// An execution whose reads found what the state holds is the run against
/// that state: it ends as the run does, after the same reads.
pub proof fn lemma_execution_is_run<T: ExecutorTask>(
    task: T,
    txn: T::Txn,
    reads: Seq<ReadRecord>,
    status: ExecutionStatusView,
    state: State,
)
    requires
        is_execution(task, txn, reads, status),
        agree_on_reads(reads, state),
    ensures
        run(task, txn, state) == (Trace { reads, status }),
{
    lemma_feed_drive(task, txn, task.spec_start(txn), reads, task.spec_max_reads(txn), state);
    let standing = feed(task, txn, task.spec_start(txn), reads, task.spec_max_reads(txn)).unwrap();
    let rest = drive(task, txn, standing.0, state, standing.1);
    assert(rest.reads =~= Seq::<ReadRecord>::empty());
    assert(reads + rest.reads =~= reads);
}

} // verus!
