//! Why speculation is safe: the relation that holds, after every step of the
//! engine, between the multi-version store, the scheduler and what the last
//! execution of each transaction recorded.
//!
//! The relation says three things. The store holds, at each index, exactly the
//! writes of that transaction's last finished execution: written while the
//! execution stands, estimates once it was aborted. A transaction that the
//! scheduler holds validated has reads that resolve now as they did when it
//! ran. And the committed prefix is what running the block in order yields.

use vstd::prelude::*;
use crate::types::{TxnIndex, Incarnation, StateKey};
use crate::versioned_data::{
    EntryStatus, ReadResult, StoreView, VersionedEntry, cell_of, latest_below, lemma_latest_below,
    lemma_latest_below_is, lemma_latest_below_none, lemma_resolve_cell_agree, resolve, resolve_cell,
};
use crate::scheduler::{
    ExecutionState, SchedulerView, has_run, lemma_max_triggered, lemma_max_triggered_agree,
    rescheduled, validated_ok, view_wf,
};
use crate::task::{ExecutorTask, ExecutionStatusView, ReadRecord, State, StepView, lookup, run};
use crate::trace::{ended, feed, is_execution, lemma_execution_is_run, lemma_feed_push};
use crate::sequential::{
    first_failure, last_write, lemma_apply_writes, outcome_at, state_after, writes_of,
};
use crate::txn_view::{
    ReadDescriptor, ReadKind, describe, descriptor_valid, reads_valid, speculative_lookup,
};

verus! {

/// What the last finished execution of a transaction recorded.
pub struct RecordView {
    pub incarnation: Incarnation,
    pub reads: Seq<ReadDescriptor>,
    pub status: ExecutionStatusView,
}

/// The records of a block: one for each transaction that finished an
/// execution.
pub type Records = Seq<Option<RecordView>>;

/// An execution that is under way: what it read so far, the step that it is
/// about to take, and the number of reads that it may still make.
pub struct InFlightView<C> {
    pub incarnation: Incarnation,
    pub reads: Seq<ReadDescriptor>,
    pub step: StepView<C>,
    pub fuel: nat,
}

/// The executions of a block that are under way.
pub type InFlights<C> = Seq<Option<InFlightView<C>>>;

/// The keys and values of a list of descriptors.
pub open spec fn read_records(reads: Seq<ReadDescriptor>) -> Seq<ReadRecord> {
    Seq::new(reads.len(), |i: int| (reads[i].key, reads[i].value))
}

/// Where the execution of transaction `i` stands: where the execution under
/// way stands, or at the start where none is under way.
pub open spec fn standing_of<T: ExecutorTask>(
    task: T,
    txns: Seq<T::Txn>,
    inflight: InFlights<T::Cont>,
    i: int,
) -> (StepView<T::Cont>, nat) {
    match inflight[i] {
        Some(x) => (x.step, x.fuel),
        None => (task.spec_start(txns[i]), task.spec_max_reads(txns[i])),
    }
}

/// What the execution of transaction `i` that is under way read so far.
pub open spec fn reads_so_far<C>(inflight: InFlights<C>, i: int) -> Seq<ReadDescriptor> {
    match inflight[i] {
        Some(x) => x.reads,
        None => Seq::empty(),
    }
}

/// An execution under way is that of the incarnation that the scheduler has
/// as executing, and stands where its reads lead.
pub open spec fn inflight_ok<T: ExecutorTask>(
    task: T,
    txns: Seq<T::Txn>,
    sv: SchedulerView,
    inflight: InFlights<T::Cont>,
    i: int,
) -> bool {
    inflight[i] matches Some(x) ==> {
        &&& sv.statuses[i].state == ExecutionState::Executing
        &&& x.incarnation == sv.statuses[i].incarnation
        &&& feed(
            task,
            txns[i],
            task.spec_start(txns[i]),
            read_records(x.reads),
            task.spec_max_reads(txns[i]),
        ) == Some((x.step, x.fuel))
    }
}

/// The reads that count for transaction `i`: those of its standing
/// execution, or those that the execution under way made so far.
pub open spec fn pending_reads<C>(
    sv: SchedulerView,
    recs: Records,
    inflight: InFlights<C>,
    i: int,
) -> Seq<ReadDescriptor> {
    if has_run(sv.statuses[i].state) {
        match recs[i] {
            Some(r) => r.reads,
            None => Seq::empty(),
        }
    } else {
        reads_so_far(inflight, i)
    }
}

/// The store holds at index `i` the writes of the record of `i`, and nothing
/// else: written by the recorded incarnation while that execution stands,
/// estimates of it once it was aborted.
pub open spec fn entries_ok(store: StoreView, sv: SchedulerView, recs: Records, i: int) -> bool {
    let st = sv.statuses[i];
    let idx = i as TxnIndex;
    match recs[i] {
        None => !has_run(st.state) && forall|k: StateKey| !#[trigger] store.contains_key((k, idx)),
        Some(r) => {
            &&& r.incarnation <= st.incarnation
            &&& has_run(st.state) ==> r.incarnation == st.incarnation
            &&& !has_run(st.state) ==> r.incarnation < st.incarnation
            &&& forall|k: StateKey| #[trigger]
                store.contains_key((k, idx)) <==> last_write(writes_of(r.status), k) is Some
            &&& forall|k: StateKey| #[trigger]
                store.contains_key((k, idx)) ==> entry_ok(
                    store[(k, idx)],
                    r,
                    k,
                    has_run(st.state),
                )
        },
    }
}

/// The entry is what the record's incarnation wrote under `key`, or the
/// estimate of it.
pub open spec fn entry_ok(entry: VersionedEntry, r: RecordView, key: StateKey, standing: bool) -> bool {
    &&& entry.incarnation == r.incarnation
    &&& if standing {
        entry.status == EntryStatus::Written && Some(entry.value) == last_write(
            writes_of(r.status),
            key,
        )
    } else {
        entry.status == EntryStatus::Estimate
    }
}

/// The record of `i` is an execution of transaction `i`: its reads, in
/// the order in which they were made, lead the task to the recorded end.
pub open spec fn trace_ok<T: ExecutorTask>(task: T, txns: Seq<T::Txn>, recs: Records, i: int) -> bool {
    recs[i] matches Some(r) ==> is_execution(task, txns[i], read_records(r.reads), r.status) && !(
    r.status is SpeculativeExecutionAbortError)
}

/// The descriptor names a lower writer that has a record of that incarnation
/// or a later one, and holds the value that this incarnation wrote, as far
/// as the store still shows it; or it holds what the base snapshot holds.
pub open spec fn read_ok(base: State, store: StoreView, recs: Records, i: int, d: ReadDescriptor) -> bool {
    match d.kind {
        ReadKind::Versioned(v) => {
            &&& v.txn_idx < i
            &&& d.value is Some
            &&& recs[v.txn_idx as int] is Some
            &&& v.incarnation <= recs[v.txn_idx as int].unwrap().incarnation
            &&& (store.contains_key((d.key, v.txn_idx)) && store[(d.key, v.txn_idx)].status
                == EntryStatus::Written && store[(d.key, v.txn_idx)].incarnation == v.incarnation
                ==> Some(store[(d.key, v.txn_idx)].value) == d.value)
        },
        ReadKind::Base => d.value is Some && d.value == lookup(base, d.key),
        ReadKind::NotFound => d.value is None && lookup(base, d.key) is None,
    }
}

/// Every read that counts for `i` is sound.
pub open spec fn reads_ok<C>(
    base: State,
    store: StoreView,
    sv: SchedulerView,
    recs: Records,
    inflight: InFlights<C>,
    i: int,
) -> bool {
    forall|p: int|
        0 <= p < pending_reads(sv, recs, inflight, i).len() ==> read_ok(
            base,
            store,
            recs,
            i,
            #[trigger] pending_reads(sv, recs, inflight, i)[p],
        )
}

/// Where the scheduler holds `i` validated, its reads resolve as they did.
pub open spec fn validation_ok(store: StoreView, sv: SchedulerView, recs: Records, i: int) -> bool {
    validated_ok(sv, i) ==> recs[i] is Some && reads_valid(
        store,
        i as TxnIndex,
        recs[i].unwrap().reads,
    )
}

/// A committed transaction ended in success, as it does when the block runs
/// in order.
pub open spec fn committed_ok<T: ExecutorTask>(
    task: T,
    txns: Seq<T::Txn>,
    base: State,
    sv: SchedulerView,
    recs: Records,
    i: int,
) -> bool {
    i < sv.commit_idx ==> recs[i] is Some && recs[i].unwrap().status == outcome_at(
        task,
        txns,
        base,
        i,
    ) && recs[i].unwrap().status is Success
}

/// A block that was stopped was stopped by the next transaction in commit
/// order, which ended in an error, as it does when the block runs in order.
pub open spec fn halted_ok<T: ExecutorTask>(
    task: T,
    txns: Seq<T::Txn>,
    base: State,
    sv: SchedulerView,
    recs: Records,
) -> bool {
    sv.halted ==> sv.commit_idx < txns.len() && recs[sv.commit_idx] is Some
        && recs[sv.commit_idx].unwrap().status == outcome_at(task, txns, base, sv.commit_idx)
        && recs[sv.commit_idx].unwrap().status is Abort
}

/// What the store and the base snapshot show to a reader at the commit point
/// is the state that the committed transactions leave when run in order.
pub open spec fn committed_state_ok<T: ExecutorTask>(
    task: T,
    txns: Seq<T::Txn>,
    base: State,
    store: StoreView,
    sv: SchedulerView,
) -> bool {
    forall|k: StateKey|
        !(#[trigger] resolve(store, k, sv.commit_idx as TxnIndex) is Dependency)
            && speculative_lookup(store, base, k, sv.commit_idx as TxnIndex) == lookup(
            state_after(task, txns, base, sv.commit_idx),
            k,
        )
}

/// The commit log lists the committed transactions: the indices from zero
/// up, each once, in order.
pub open spec fn log_ok(log: Seq<TxnIndex>, sv: SchedulerView) -> bool {
    &&& log.len() == sv.commit_idx
    &&& forall|i: int| 0 <= i < log.len() ==> #[trigger] log[i] == i
}

/// The relation between store, scheduler, records and executions under way.
pub open spec fn inv<T: ExecutorTask>(
    task: T,
    txns: Seq<T::Txn>,
    base: State,
    store: StoreView,
    sv: SchedulerView,
    recs: Records,
    inflight: InFlights<T::Cont>,
    log: Seq<TxnIndex>,
) -> bool {
    &&& view_wf(sv)
    &&& sv.statuses.len() == txns.len()
    &&& recs.len() == txns.len()
    &&& inflight.len() == txns.len()
    &&& forall|p: (StateKey, TxnIndex)| #[trigger] store.contains_key(p) ==> p.1 < txns.len()
    &&& forall|i: int| 0 <= i < txns.len() ==> #[trigger] entries_ok(store, sv, recs, i)
    &&& forall|i: int| 0 <= i < txns.len() ==> #[trigger] trace_ok(task, txns, recs, i)
    &&& forall|i: int| 0 <= i < txns.len() ==> #[trigger] inflight_ok(task, txns, sv, inflight, i)
    &&& forall|i: int|
        0 <= i < txns.len() ==> #[trigger] reads_ok(base, store, sv, recs, inflight, i)
    &&& forall|i: int| 0 <= i < txns.len() ==> #[trigger] validation_ok(store, sv, recs, i)
    &&& forall|i: int| 0 <= i < txns.len() ==> #[trigger] committed_ok(task, txns, base, sv, recs, i)
    &&& halted_ok(task, txns, base, sv, recs)
    &&& committed_state_ok(task, txns, base, store, sv)
    &&& log_ok(log, sv)
}

/// Two stores that hold the same under `key` below `reader` resolve a read of
/// `key` by `reader` alike.
pub proof fn lemma_resolve_below(a: StoreView, b: StoreView, key: StateKey, reader: TxnIndex)
    requires
        forall|j: TxnIndex|
            j < reader ==> (a.contains_key((key, j)) <==> b.contains_key((key, j))),
        forall|j: TxnIndex| j < reader && a.contains_key((key, j)) ==> a[(key, j)] == b[(key, j)],
    ensures
        resolve(a, key, reader) == resolve(b, key, reader),
{
    lemma_resolve_cell_agree(cell_of(a, key), cell_of(b, key), reader);
}

/// A read that resolves to a value or to nothing keeps its resolution when a
/// lower writer, all of whose entries are estimates, gets new entries under
/// no key but those it had.
pub proof fn lemma_resolve_no_new_keys(
    a: StoreView,
    b: StoreView,
    key: StateKey,
    reader: TxnIndex,
    writer: TxnIndex,
)
    requires
        forall|j: TxnIndex|
            j != writer ==> (a.contains_key((key, j)) <==> b.contains_key((key, j))),
        forall|j: TxnIndex| j != writer && a.contains_key((key, j)) ==> a[(key, j)] == b[(key, j)],
        b.contains_key((key, writer)) ==> a.contains_key((key, writer)),
        a.contains_key((key, writer)) ==> a[(key, writer)].status == EntryStatus::Estimate,
        !(resolve(a, key, reader) is Dependency),
    ensures
        resolve(b, key, reader) == resolve(a, key, reader),
{
    let ca = cell_of(a, key);
    let cb = cell_of(b, key);
    lemma_latest_below(ca, reader as int);
    match latest_below(ca, reader as int) {
        Some(w) => {
            assert(w != writer);
            assert forall|j: TxnIndex| w < j && j < reader implies !cb.contains_key(j) by {
                assert(!ca.contains_key(j));
            }
            lemma_latest_below_is(cb, reader as int, w);
        },
        None => {
            assert forall|j: TxnIndex| j < reader implies !cb.contains_key(j) by {
                assert(!ca.contains_key(j));
            }
            lemma_latest_below_none(cb, reader as int);
        },
    }
}

/// A read that resolves to a written entry finds that entry in the store.
pub proof fn lemma_resolve_found(store: StoreView, key: StateKey, reader: TxnIndex)
    ensures
        match resolve(store, key, reader) {
            ReadResult::Found { value, version } => {
                &&& version.txn_idx < reader
                &&& store.contains_key((key, version.txn_idx))
                &&& store[(key, version.txn_idx)].status == EntryStatus::Written
                &&& store[(key, version.txn_idx)].incarnation == version.incarnation
                &&& store[(key, version.txn_idx)].value == value
            },
            ReadResult::Dependency { blocking_idx } => {
                &&& blocking_idx < reader
                &&& store.contains_key((key, blocking_idx))
                &&& store[(key, blocking_idx)].status == EntryStatus::Estimate
            },
            ReadResult::NotFound => forall|j: TxnIndex| j < reader ==> !store.contains_key((key, j)),
        },
{
    lemma_latest_below(cell_of(store, key), reader as int);
    if resolve(store, key, reader) is NotFound {
        assert forall|j: TxnIndex| j < reader implies !store.contains_key((key, j)) by {
            assert(!cell_of(store, key).contains_key(j));
        }
    }
}

/// A reader one above `writer` sees what `writer` wrote under the key, and
/// what a reader at `writer` sees where `writer` has no entry.
pub proof fn lemma_resolve_step(store: StoreView, key: StateKey, writer: TxnIndex)
    requires
        writer < u32::MAX,
    ensures
        resolve(store, key, (writer + 1) as TxnIndex) == (if store.contains_key((key, writer)) {
            resolve_cell(
                Map::<TxnIndex, VersionedEntry>::empty().insert(writer, store[(key, writer)]),
                (writer + 1) as TxnIndex,
            )
        } else {
            resolve(store, key, writer)
        }),
{
    let c = cell_of(store, key);
    if store.contains_key((key, writer)) {
        let single = Map::<TxnIndex, VersionedEntry>::empty().insert(writer, store[(key, writer)]);
        assert(c.contains_key(writer));
        assert(single.contains_key(writer));
        assert(latest_below(c, writer + 1) == Some(writer));
        assert(latest_below(single, writer + 1) == Some(writer));
    } else {
        assert(!c.contains_key(writer));
        assert(latest_below(c, writer + 1) == latest_below(c, writer as int));
    }
}

/// An empty store, no records, no execution under way and a scheduler in
/// which nothing has run are related.
pub proof fn lemma_inv_initial<T: ExecutorTask>(
    task: T,
    txns: Seq<T::Txn>,
    base: State,
    store: StoreView,
    sv: SchedulerView,
    recs: Records,
    inflight: InFlights<T::Cont>,
    log: Seq<TxnIndex>,
)
    requires
        txns.len() <= u32::MAX,
        store == StoreView::empty(),
        sv == crate::scheduler::initial_view(txns.len()),
        recs.len() == txns.len(),
        forall|i: int| 0 <= i < recs.len() ==> recs[i] is None,
        inflight.len() == txns.len(),
        forall|i: int| 0 <= i < inflight.len() ==> inflight[i] is None,
        log.len() == 0,
    ensures
        inv(task, txns, base, store, sv, recs, inflight, log),
{
    assert forall|k: StateKey|
        !(#[trigger] resolve(store, k, sv.commit_idx as TxnIndex) is Dependency)
            && speculative_lookup(store, base, k, sv.commit_idx as TxnIndex) == lookup(
            state_after(task, txns, base, sv.commit_idx),
            k,
        ) by {
        lemma_latest_below_none(cell_of(store, k), 0);
    }
    assert forall|i: int| 0 <= i < txns.len() implies #[trigger] entries_ok(
        store,
        sv,
        recs,
        i,
    ) by {}
    assert forall|i: int| 0 <= i < txns.len() implies #[trigger] validation_ok(
        store,
        sv,
        recs,
        i,
    ) by {}
}

/// Store `b` differs from store `a` at writer `idx` alone.
pub open spec fn same_but_at(a: StoreView, b: StoreView, idx: TxnIndex) -> bool {
    &&& forall|p: (StateKey, TxnIndex)|
        p.1 != idx ==> (#[trigger] a.contains_key(p) <==> b.contains_key(p))
    &&& forall|p: (StateKey, TxnIndex)|
        p.1 != idx && #[trigger] a.contains_key(p) ==> a[p] == b[p]
}

/// A sound read stays sound when the store changes at one writer alone, to
/// estimates or to entries of a later incarnation than the writer's record,
/// and when records are replaced by records of later incarnations.
pub proof fn lemma_read_ok_kept(
    base: State,
    store: StoreView,
    store2: StoreView,
    recs: Records,
    recs2: Records,
    i: int,
    d: ReadDescriptor,
    idx: TxnIndex,
)
    requires
        read_ok(base, store, recs, i, d),
        0 <= i <= recs.len(),
        recs.len() == recs2.len(),
        same_but_at(store, store2, idx),
        forall|k: StateKey| #[trigger]
            store2.contains_key((k, idx)) ==> store2[(k, idx)].status == EntryStatus::Estimate || (
            idx < recs.len() && recs[idx as int] is Some ==> store2[(k, idx)].incarnation
                > recs[idx as int].unwrap().incarnation),
        forall|j: int|
            0 <= j < recs.len() && (#[trigger] recs[j]) is Some ==> recs2[j] is Some
                && recs2[j].unwrap().incarnation >= recs[j].unwrap().incarnation,
    ensures
        read_ok(base, store2, recs2, i, d),
{
    match d.kind {
        ReadKind::Versioned(v) => {
            let q = (d.key, v.txn_idx);
            assert(recs[v.txn_idx as int] is Some);
            if v.txn_idx != idx {
                assert(q.1 != idx);
                assert(store.contains_key(q) <==> store2.contains_key(q));
            }
        },
        _ => {},
    }
}

/// Handing out a task, or giving up an execution, keeps the relation. An
/// execution under way may be dropped; one that is kept is left as it was.
pub proof fn lemma_inv_rescheduled<T: ExecutorTask>(
    task: T,
    txns: Seq<T::Txn>,
    base: State,
    store: StoreView,
    sv: SchedulerView,
    after: SchedulerView,
    recs: Records,
    inflight: InFlights<T::Cont>,
    inflight2: InFlights<T::Cont>,
    log: Seq<TxnIndex>,
)
    requires
        inv(task, txns, base, store, sv, recs, inflight, log),
        view_wf(after),
        rescheduled(sv, after),
        inflight2.len() == inflight.len(),
        forall|i: int|
            0 <= i < inflight.len() ==> (#[trigger] inflight2[i]) is None || (inflight2[i]
                == inflight[i] && after.statuses[i].state == sv.statuses[i].state
                && after.statuses[i].incarnation == sv.statuses[i].incarnation),
    ensures
        inv(task, txns, base, store, after, recs, inflight2, log),
{
    assert forall|i: int| 0 <= i < txns.len() implies #[trigger] entries_ok(
        store,
        after,
        recs,
        i,
    ) by {
        assert(entries_ok(store, sv, recs, i));
        let x = sv.statuses[i];
    }
    assert forall|i: int| 0 <= i < txns.len() implies #[trigger] inflight_ok(
        task,
        txns,
        after,
        inflight2,
        i,
    ) by {
        assert(inflight_ok(task, txns, sv, inflight, i));
        let y = inflight2[i];
    }
    assert forall|i: int| 0 <= i < txns.len() implies #[trigger] reads_ok(
        base,
        store,
        after,
        recs,
        inflight2,
        i,
    ) by {
        assert(reads_ok(base, store, sv, recs, inflight, i));
        let x = sv.statuses[i];
        let y = inflight2[i];
        assert forall|p: int| 0 <= p < pending_reads(after, recs, inflight2, i).len() implies read_ok(
            base,
            store,
            recs,
            i,
            #[trigger] pending_reads(after, recs, inflight2, i)[p],
        ) by {
            assert(pending_reads(after, recs, inflight2, i) == pending_reads(
                sv,
                recs,
                inflight,
                i,
            ));
        }
    }
    assert forall|i: int| 0 <= i < txns.len() implies #[trigger] validation_ok(
        store,
        after,
        recs,
        i,
    ) by {
        assert(validation_ok(store, sv, recs, i));
        let x = sv.statuses[i];
        lemma_max_triggered_agree(sv.statuses, after.statuses, i + 1);
    }
    assert forall|i: int| 0 <= i < txns.len() implies #[trigger] committed_ok(
        task,
        txns,
        base,
        after,
        recs,
        i,
    ) by {
        assert(committed_ok(task, txns, base, sv, recs, i));
    }
}

/// The descriptor of a read that no estimate blocks is sound.
pub proof fn lemma_fresh_read_ok<T: ExecutorTask>(
    task: T,
    txns: Seq<T::Txn>,
    base: State,
    store: StoreView,
    sv: SchedulerView,
    recs: Records,
    inflight: InFlights<T::Cont>,
    log: Seq<TxnIndex>,
    idx: TxnIndex,
    key: StateKey,
)
    requires
        inv(task, txns, base, store, sv, recs, inflight, log),
        idx < txns.len(),
        !(resolve(store, key, idx) is Dependency),
    ensures
        read_ok(base, store, recs, idx as int, describe(store, base, key, idx)),
{
    lemma_resolve_found(store, key, idx);
    match resolve(store, key, idx) {
        ReadResult::Found { value, version } => {
            assert(entries_ok(store, sv, recs, version.txn_idx as int));
        },
        _ => {},
    }
}

/// The executions under way after transaction `idx` made one more read.
pub open spec fn after_read<T: ExecutorTask>(
    task: T,
    txns: Seq<T::Txn>,
    inflight: InFlights<T::Cont>,
    idx: TxnIndex,
    incarnation: Incarnation,
    d: ReadDescriptor,
) -> InFlights<T::Cont> {
    let standing = standing_of(task, txns, inflight, idx as int);
    inflight.update(
        idx as int,
        Some(
            InFlightView {
                incarnation,
                reads: reads_so_far(inflight, idx as int).push(d),
                step: task.spec_resume(txns[idx as int], standing.0->Read_1, d.value),
                fuel: (standing.1 - 1) as nat,
            },
        ),
    )
}

/// One more read of an execution that is under way keeps the relation.
pub proof fn lemma_inv_read<T: ExecutorTask>(
    task: T,
    txns: Seq<T::Txn>,
    base: State,
    store: StoreView,
    sv: SchedulerView,
    recs: Records,
    inflight: InFlights<T::Cont>,
    log: Seq<TxnIndex>,
    idx: TxnIndex,
    incarnation: Incarnation,
)
    requires
        inv(task, txns, base, store, sv, recs, inflight, log),
        crate::scheduler::is_executing(sv, idx, incarnation),
        standing_of(task, txns, inflight, idx as int).0 is Read,
        standing_of(task, txns, inflight, idx as int).1 > 0,
        !(resolve(store, standing_of(task, txns, inflight, idx as int).0->Read_0, idx)
            is Dependency),
    ensures
        inv(
            task,
            txns,
            base,
            store,
            sv,
            recs,
            after_read(
                task,
                txns,
                inflight,
                idx,
                incarnation,
                describe(
                    store,
                    base,
                    standing_of(task, txns, inflight, idx as int).0->Read_0,
                    idx,
                ),
            ),
            log,
        ),
{
    let i0 = idx as int;
    let standing = standing_of(task, txns, inflight, i0);
    let key = standing.0->Read_0;
    let d = describe(store, base, key, idx);
    let inflight2 = after_read(task, txns, inflight, idx, incarnation, d);
    let before = reads_so_far(inflight, i0);
    assert(inflight_ok(task, txns, sv, inflight, i0));
    assert(reads_ok(base, store, sv, recs, inflight, i0));
    lemma_fresh_read_ok(task, txns, base, store, sv, recs, inflight, log, idx, key);
    assert forall|i: int| 0 <= i < txns.len() implies #[trigger] inflight_ok(
        task,
        txns,
        sv,
        inflight2,
        i,
    ) by {
        assert(inflight_ok(task, txns, sv, inflight, i));
        if i == i0 {
            let start = task.spec_start(txns[i0]);
            let fuel = task.spec_max_reads(txns[i0]);
            assert(read_records(before.push(d)) =~= read_records(before).push((key, d.value)));
            if inflight[i0] is None {
                assert(read_records(before) =~= Seq::<ReadRecord>::empty());
            }
            lemma_feed_push(task, txns[i0], start, read_records(before), fuel, d.value);
        }
    }
    assert forall|i: int| 0 <= i < txns.len() implies #[trigger] reads_ok(
        base,
        store,
        sv,
        recs,
        inflight2,
        i,
    ) by {
        assert(reads_ok(base, store, sv, recs, inflight, i));
        if i == i0 {
            assert forall|p: int|
                0 <= p < pending_reads(sv, recs, inflight2, i).len() implies read_ok(
                base,
                store,
                recs,
                i,
                #[trigger] pending_reads(sv, recs, inflight2, i)[p],
            ) by {
                if p < before.len() {
                    assert(pending_reads(sv, recs, inflight, i)[p] == before[p]);
                }
            }
        } else {
            assert(pending_reads(sv, recs, inflight2, i) == pending_reads(sv, recs, inflight, i));
        }
    }
}

/// Store `b` is store `a` with the entries of `idx` replaced by the writes
/// of incarnation `incarnation`.
pub open spec fn store_replaced(
    a: StoreView,
    b: StoreView,
    idx: TxnIndex,
    incarnation: Incarnation,
    writes: Seq<crate::task::WriteOp>,
) -> bool {
    &&& same_but_at(a, b, idx)
    &&& forall|k: StateKey| #[trigger]
        b.contains_key((k, idx)) <==> last_write(writes, k) is Some
    &&& forall|k: StateKey| #[trigger]
        b.contains_key((k, idx)) ==> b[(k, idx)] == crate::versioned_data::written_entry(
            incarnation,
            last_write(writes, k).unwrap(),
        )
}

/// The writes go to a key under which `idx` had no entry.
pub open spec fn writes_new_key(store: StoreView, idx: TxnIndex, writes: Seq<crate::task::WriteOp>) -> bool {
    exists|k: StateKey| last_write(writes, k) is Some && !store.contains_key((k, idx))
}

/// Recording an execution that has ended keeps the relation.
pub proof fn lemma_inv_finish_execution<T: ExecutorTask>(
    task: T,
    txns: Seq<T::Txn>,
    base: State,
    store: StoreView,
    sv: SchedulerView,
    recs: Records,
    inflight: InFlights<T::Cont>,
    log: Seq<TxnIndex>,
    idx: TxnIndex,
    incarnation: Incarnation,
    rec: RecordView,
    wrote_new_keys: bool,
    store2: StoreView,
    sv2: SchedulerView,
)
    requires
        inv(task, txns, base, store, sv, recs, inflight, log),
        crate::scheduler::is_executing(sv, idx, incarnation),
        wrote_new_keys ==> sv.wave < u64::MAX,
        wrote_new_keys == writes_new_key(store, idx, writes_of(rec.status)),
        rec.incarnation == incarnation,
        rec.reads == reads_so_far(inflight, idx as int),
        ended(
            standing_of(task, txns, inflight, idx as int).0,
            standing_of(task, txns, inflight, idx as int).1,
        ) == Some(rec.status),
        !(rec.status is SpeculativeExecutionAbortError),
        store_replaced(store, store2, idx, incarnation, writes_of(rec.status)),
        sv2 == crate::scheduler::after_finish_execution(sv, idx, incarnation, wrote_new_keys),
        view_wf(sv2),
    ensures
        inv(
            task,
            txns,
            base,
            store2,
            sv2,
            recs.update(idx as int, Some(rec)),
            inflight.update(idx as int, None),
            log,
        ),
{
    let recs2 = recs.update(idx as int, Some(rec));
    let inflight2 = inflight.update(idx as int, None);
    let i0 = idx as int;
    assert(entries_ok(store, sv, recs, i0));
    assert(inflight_ok(task, txns, sv, inflight, i0));
    assert(sv.statuses[i0].state == ExecutionState::Executing);
    assert(i0 >= sv.commit_idx);

    assert forall|p: (StateKey, TxnIndex)| #[trigger] store2.contains_key(p) implies p.1
        < txns.len() by {
        if p.1 != idx {
            assert(store.contains_key(p));
        }
    }

    assert forall|i: int| 0 <= i < txns.len() implies #[trigger] entries_ok(
        store2,
        sv2,
        recs2,
        i,
    ) by {
        assert(entries_ok(store, sv, recs, i));
        if i != i0 {
            let j = i as TxnIndex;
            assert forall|k: StateKey| #[trigger]
                store2.contains_key((k, j)) == store.contains_key((k, j)) && (store.contains_key(
                    (k, j),
                ) ==> store2[(k, j)] == store[(k, j)]) by {
                let p = (k, j);
                assert(p.1 != idx);
                assert(store.contains_key(p) <==> store2.contains_key(p));
            }
        }
    }

    assert forall|i: int| 0 <= i < txns.len() implies #[trigger] trace_ok(
        task,
        txns,
        recs2,
        i,
    ) by {
        assert(trace_ok(task, txns, recs, i));
        if i == i0 && inflight[i0] is None {
            assert(read_records(rec.reads) =~= Seq::<ReadRecord>::empty());
        }
    }

    assert forall|i: int| 0 <= i < txns.len() implies #[trigger] inflight_ok(
        task,
        txns,
        sv2,
        inflight2,
        i,
    ) by {
        assert(inflight_ok(task, txns, sv, inflight, i));
    }

    assert forall|i: int| 0 <= i < txns.len() implies #[trigger] reads_ok(
        base,
        store2,
        sv2,
        recs2,
        inflight2,
        i,
    ) by {
        assert(reads_ok(base, store, sv, recs, inflight, i));
        assert forall|p: int|
            0 <= p < pending_reads(sv2, recs2, inflight2, i).len() implies read_ok(
            base,
            store2,
            recs2,
            i,
            #[trigger] pending_reads(sv2, recs2, inflight2, i)[p],
        ) by {
            let d = pending_reads(sv2, recs2, inflight2, i)[p];
            assert(pending_reads(sv2, recs2, inflight2, i) == pending_reads(
                sv,
                recs,
                inflight,
                i,
            ));
            assert(read_ok(base, store, recs, i, pending_reads(sv, recs, inflight, i)[p]));
            lemma_read_ok_kept(base, store, store2, recs, recs2, i, d, idx);
        }
    }

    assert forall|i: int| 0 <= i < txns.len() implies #[trigger] validation_ok(
        store2,
        sv2,
        recs2,
        i,
    ) by {
        assert(validation_ok(store, sv, recs, i));
        let j = i as TxnIndex;
        if i < i0 {
            lemma_max_triggered_agree(sv.statuses, sv2.statuses, i + 1);
            if validated_ok(sv2, i) {
                let r = recs[i].unwrap();
                assert forall|p: int| 0 <= p < r.reads.len() implies descriptor_valid(
                    store2,
                    j,
                    #[trigger] r.reads[p],
                ) by {
                    let d = r.reads[p];
                    assert(descriptor_valid(store, j, d));
                    assert forall|m: TxnIndex| m < j implies (store.contains_key((d.key, m))
                        <==> store2.contains_key((d.key, m))) && (store.contains_key((d.key, m))
                        ==> store[(d.key, m)] == store2[(d.key, m)]) by {
                        let q = (d.key, m);
                        assert(q.1 != idx);
                        assert(store.contains_key(q) <==> store2.contains_key(q));
                    }
                    lemma_resolve_below(store, store2, d.key, j);
                }
            }
        } else if i == i0 {
        } else {
            lemma_max_triggered(sv2.statuses, i + 1);
            if wrote_new_keys {
                assert(sv2.statuses[i0].triggered_wave == sv.wave + 1);
                assert(sv2.statuses[i] == sv.statuses[i]);
            } else {
                lemma_max_triggered_agree(sv.statuses, sv2.statuses, i + 1);
                assert(sv2.statuses[i] == sv.statuses[i]);
                if validated_ok(sv2, i) {
                    let r = recs[i].unwrap();
                    assert forall|p: int| 0 <= p < r.reads.len() implies descriptor_valid(
                        store2,
                        j,
                        #[trigger] r.reads[p],
                    ) by {
                        let d = r.reads[p];
                        assert(descriptor_valid(store, j, d));
                        assert forall|m: TxnIndex| m != idx implies (store.contains_key((d.key, m))
                            <==> store2.contains_key((d.key, m))) && (store.contains_key(
                            (d.key, m),
                        ) ==> store[(d.key, m)] == store2[(d.key, m)]) by {
                            let q = (d.key, m);
                            assert(q.1 != idx);
                            assert(store.contains_key(q) <==> store2.contains_key(q));
                        }
                        if store2.contains_key((d.key, idx)) {
                            assert(last_write(writes_of(rec.status), d.key) is Some);
                            assert(store.contains_key((d.key, idx)));
                        }
                        lemma_resolve_no_new_keys(store, store2, d.key, j, idx);
                    }
                }
            }
        }
    }

    assert forall|i: int| 0 <= i < txns.len() implies #[trigger] committed_ok(
        task,
        txns,
        base,
        sv2,
        recs2,
        i,
    ) by {
        assert(committed_ok(task, txns, base, sv, recs, i));
    }

    assert forall|k: StateKey|
        !(#[trigger] resolve(store2, k, sv2.commit_idx as TxnIndex) is Dependency)
            && speculative_lookup(store2, base, k, sv2.commit_idx as TxnIndex) == lookup(
            state_after(task, txns, base, sv2.commit_idx),
            k,
        ) by {
        let c = sv.commit_idx as TxnIndex;
        assert(!(resolve(store, k, c) is Dependency));
        assert forall|m: TxnIndex| m < c implies (store.contains_key((k, m))
            <==> store2.contains_key((k, m))) && (store.contains_key((k, m)) ==> store[(k, m)]
            == store2[(k, m)]) by {
            let q = (k, m);
            assert(q.1 != idx);
            assert(store.contains_key(q) <==> store2.contains_key(q));
        }
        lemma_resolve_below(store, store2, k, c);
    }
}

/// Marking as validated a transaction whose reads resolve as they did keeps
/// the relation.
pub proof fn lemma_inv_validated<T: ExecutorTask>(
    task: T,
    txns: Seq<T::Txn>,
    base: State,
    store: StoreView,
    sv: SchedulerView,
    recs: Records,
    inflight: InFlights<T::Cont>,
    log: Seq<TxnIndex>,
    idx: TxnIndex,
    incarnation: Incarnation,
    sv2: SchedulerView,
)
    requires
        inv(task, txns, base, store, sv, recs, inflight, log),
        crate::scheduler::is_executed(sv, idx, incarnation),
        recs[idx as int] is Some,
        reads_valid(store, idx, recs[idx as int].unwrap().reads),
        sv2 == crate::scheduler::after_finish_validation(sv, idx, incarnation, true),
        view_wf(sv2),
    ensures
        inv(task, txns, base, store, sv2, recs, inflight, log),
{
    assert forall|i: int| 0 <= i < txns.len() implies #[trigger] entries_ok(
        store,
        sv2,
        recs,
        i,
    ) by {
        assert(entries_ok(store, sv, recs, i));
    }
    assert forall|i: int| 0 <= i < txns.len() implies #[trigger] inflight_ok(
        task,
        txns,
        sv2,
        inflight,
        i,
    ) by {
        assert(inflight_ok(task, txns, sv, inflight, i));
    }
    assert forall|i: int| 0 <= i < txns.len() implies #[trigger] reads_ok(
        base,
        store,
        sv2,
        recs,
        inflight,
        i,
    ) by {
        assert(reads_ok(base, store, sv, recs, inflight, i));
        assert(pending_reads(sv2, recs, inflight, i) == pending_reads(sv, recs, inflight, i));
    }
    assert forall|i: int| 0 <= i < txns.len() implies #[trigger] validation_ok(
        store,
        sv2,
        recs,
        i,
    ) by {
        assert(validation_ok(store, sv, recs, i));
        lemma_max_triggered_agree(sv.statuses, sv2.statuses, i + 1);
    }
    assert forall|i: int| 0 <= i < txns.len() implies #[trigger] committed_ok(
        task,
        txns,
        base,
        sv2,
        recs,
        i,
    ) by {
        assert(committed_ok(task, txns, base, sv, recs, i));
    }
}

/// Store `b` is store `a` with every entry of `idx` turned into an estimate.
pub open spec fn store_estimated(a: StoreView, b: StoreView, idx: TxnIndex) -> bool {
    &&& forall|p: (StateKey, TxnIndex)| #[trigger] a.contains_key(p) <==> b.contains_key(p)
    &&& forall|p: (StateKey, TxnIndex)|
        #[trigger] a.contains_key(p) ==> b[p] == (if p.1 == idx {
            crate::versioned_data::as_estimate(a[p])
        } else {
            a[p]
        })
}

/// Aborting a transaction whose reads no longer resolve as they did, and
/// turning its writes into estimates, keeps the relation.
pub proof fn lemma_inv_validation_aborted<T: ExecutorTask>(
    task: T,
    txns: Seq<T::Txn>,
    base: State,
    store: StoreView,
    sv: SchedulerView,
    recs: Records,
    inflight: InFlights<T::Cont>,
    log: Seq<TxnIndex>,
    idx: TxnIndex,
    incarnation: Incarnation,
    store2: StoreView,
    sv2: SchedulerView,
)
    requires
        inv(task, txns, base, store, sv, recs, inflight, log),
        crate::scheduler::can_abort_validation(sv, idx, incarnation),
        store_estimated(store, store2, idx),
        sv2 == crate::scheduler::after_finish_validation(sv, idx, incarnation, false),
        view_wf(sv2),
    ensures
        inv(task, txns, base, store2, sv2, recs, inflight, log),
{
    let i0 = idx as int;
    assert(sv.statuses[i0].state == ExecutionState::Executed);
    assert(i0 >= sv.commit_idx);
    assert(inflight_ok(task, txns, sv, inflight, i0));
    assert forall|p: (StateKey, TxnIndex)| #[trigger] store2.contains_key(p) implies p.1
        < txns.len() by {
        assert(store.contains_key(p));
    }
    assert(same_but_at(store, store2, idx)) by {
        assert forall|p: (StateKey, TxnIndex)| p.1 != idx implies (#[trigger] store.contains_key(
            p,
        ) <==> store2.contains_key(p)) by {}
    }
    assert forall|k: StateKey| #[trigger] store2.contains_key((k, idx)) implies store2[(
        k,
        idx,
    )].status == EntryStatus::Estimate by {
        let p = (k, idx);
        assert(store.contains_key(p));
    }
    assert forall|i: int| 0 <= i < txns.len() implies #[trigger] entries_ok(
        store2,
        sv2,
        recs,
        i,
    ) by {
        assert(entries_ok(store, sv, recs, i));
        let j = i as TxnIndex;
        assert forall|k: StateKey| #[trigger]
            store2.contains_key((k, j)) == store.contains_key((k, j)) && (store.contains_key(
                (k, j),
            ) ==> store2[(k, j)] == (if j == idx {
                crate::versioned_data::as_estimate(store[(k, j)])
            } else {
                store[(k, j)]
            })) by {
            let p = (k, j);
            assert(store.contains_key(p) <==> store2.contains_key(p));
        }
    }
    assert forall|i: int| 0 <= i < txns.len() implies #[trigger] inflight_ok(
        task,
        txns,
        sv2,
        inflight,
        i,
    ) by {
        assert(inflight_ok(task, txns, sv, inflight, i));
    }
    assert forall|i: int| 0 <= i < txns.len() implies #[trigger] reads_ok(
        base,
        store2,
        sv2,
        recs,
        inflight,
        i,
    ) by {
        assert(reads_ok(base, store, sv, recs, inflight, i));
        assert forall|p: int|
            0 <= p < pending_reads(sv2, recs, inflight, i).len() implies read_ok(
            base,
            store2,
            recs,
            i,
            #[trigger] pending_reads(sv2, recs, inflight, i)[p],
        ) by {
            let d = pending_reads(sv2, recs, inflight, i)[p];
            if i != i0 {
                assert(pending_reads(sv2, recs, inflight, i) == pending_reads(
                    sv,
                    recs,
                    inflight,
                    i,
                ));
                assert(read_ok(base, store, recs, i, pending_reads(sv, recs, inflight, i)[p]));
                lemma_read_ok_kept(base, store, store2, recs, recs, i, d, idx);
            }
        }
    }
    assert forall|i: int| 0 <= i < txns.len() implies #[trigger] validation_ok(
        store2,
        sv2,
        recs,
        i,
    ) by {
        assert(validation_ok(store, sv, recs, i));
        let j = i as TxnIndex;
        if i < i0 {
            lemma_max_triggered_agree(sv.statuses, sv2.statuses, i + 1);
            if validated_ok(sv2, i) {
                let r = recs[i].unwrap();
                assert forall|p: int| 0 <= p < r.reads.len() implies descriptor_valid(
                    store2,
                    j,
                    #[trigger] r.reads[p],
                ) by {
                    let d = r.reads[p];
                    assert(descriptor_valid(store, j, d));
                    assert forall|m: TxnIndex| m < j implies (store.contains_key((d.key, m))
                        <==> store2.contains_key((d.key, m))) && (store.contains_key((d.key, m))
                        ==> store[(d.key, m)] == store2[(d.key, m)]) by {
                        let q = (d.key, m);
                        assert(store.contains_key(q) <==> store2.contains_key(q));
                    }
                    lemma_resolve_below(store, store2, d.key, j);
                }
            }
        } else if i == i0 {
        } else {
            lemma_max_triggered(sv2.statuses, i + 1);
            assert(sv2.statuses[i0].triggered_wave == sv.wave + 1);
            assert(sv2.statuses[i] == sv.statuses[i]);
        }
    }
    assert forall|i: int| 0 <= i < txns.len() implies #[trigger] committed_ok(
        task,
        txns,
        base,
        sv2,
        recs,
        i,
    ) by {
        assert(committed_ok(task, txns, base, sv, recs, i));
    }
    assert forall|k: StateKey|
        !(#[trigger] resolve(store2, k, sv2.commit_idx as TxnIndex) is Dependency)
            && speculative_lookup(store2, base, k, sv2.commit_idx as TxnIndex) == lookup(
            state_after(task, txns, base, sv2.commit_idx),
            k,
        ) by {
        let c = sv.commit_idx as TxnIndex;
        assert(!(resolve(store, k, c) is Dependency));
        assert forall|m: TxnIndex| m < c implies (store.contains_key((k, m))
            <==> store2.contains_key((k, m))) && (store.contains_key((k, m)) ==> store[(k, m)]
            == store2[(k, m)]) by {
            let q = (k, m);
            assert(store.contains_key(q) <==> store2.contains_key(q));
        }
        lemma_resolve_below(store, store2, k, c);
    }
}

/// The transaction that is ready to commit ended as it does when the block
/// runs in order: its reads resolve as they did, every lower transaction is
/// committed, so what it read is what its predecessors leave.
pub proof fn lemma_commit_outcome<T: ExecutorTask>(
    task: T,
    txns: Seq<T::Txn>,
    base: State,
    store: StoreView,
    sv: SchedulerView,
    recs: Records,
    inflight: InFlights<T::Cont>,
    log: Seq<TxnIndex>,
)
    requires
        inv(task, txns, base, store, sv, recs, inflight, log),
        crate::scheduler::commit_ready(sv),
    ensures
        recs[sv.commit_idx] is Some,
        recs[sv.commit_idx].unwrap().status == outcome_at(task, txns, base, sv.commit_idx),
        reads_valid(store, sv.commit_idx as TxnIndex, recs[sv.commit_idx].unwrap().reads),
{
    let c = sv.commit_idx;
    let reader = c as TxnIndex;
    assert(validation_ok(store, sv, recs, c));
    assert(trace_ok(task, txns, recs, c));
    assert(reads_ok(base, store, sv, recs, inflight, c));
    let r = recs[c].unwrap();
    let reads = read_records(r.reads);
    let now = state_after(task, txns, base, c);
    assert(pending_reads(sv, recs, inflight, c) == r.reads);
    assert forall|p: int| 0 <= p < reads.len() implies lookup(now, (#[trigger] reads[p]).0)
        == reads[p].1 by {
        let d = r.reads[p];
        assert(descriptor_valid(store, reader, d));
        assert(read_ok(base, store, recs, c, pending_reads(sv, recs, inflight, c)[p]));
        lemma_resolve_found(store, d.key, reader);
        assert(!(resolve(store, d.key, reader) is Dependency));
        assert(speculative_lookup(store, base, d.key, reader) == lookup(now, d.key));
    }
    lemma_execution_is_run(task, txns[c], reads, r.status, now);
}

/// Committing the transaction that is ready, where it ended in success,
/// keeps the relation.
pub proof fn lemma_inv_commit<T: ExecutorTask>(
    task: T,
    txns: Seq<T::Txn>,
    base: State,
    store: StoreView,
    sv: SchedulerView,
    recs: Records,
    inflight: InFlights<T::Cont>,
    log: Seq<TxnIndex>,
    sv2: SchedulerView,
)
    requires
        inv(task, txns, base, store, sv, recs, inflight, log),
        crate::scheduler::commit_ready(sv),
        recs[sv.commit_idx] is Some,
        recs[sv.commit_idx].unwrap().status is Success,
        sv2 == crate::scheduler::after_commit(sv),
        view_wf(sv2),
    ensures
        inv(task, txns, base, store, sv2, recs, inflight, log.push(sv.commit_idx as TxnIndex)),
{
    let c = sv.commit_idx;
    let idx = c as TxnIndex;
    lemma_commit_outcome(task, txns, base, store, sv, recs, inflight, log);
    let r = recs[c].unwrap();
    assert forall|i: int| 0 <= i < txns.len() implies #[trigger] entries_ok(
        store,
        sv2,
        recs,
        i,
    ) by {
        assert(entries_ok(store, sv, recs, i));
    }
    assert forall|i: int| 0 <= i < txns.len() implies #[trigger] inflight_ok(
        task,
        txns,
        sv2,
        inflight,
        i,
    ) by {
        assert(inflight_ok(task, txns, sv, inflight, i));
    }
    assert forall|i: int| 0 <= i < txns.len() implies #[trigger] reads_ok(
        base,
        store,
        sv2,
        recs,
        inflight,
        i,
    ) by {
        assert(reads_ok(base, store, sv, recs, inflight, i));
        assert(pending_reads(sv2, recs, inflight, i) == pending_reads(sv, recs, inflight, i));
    }
    assert forall|i: int| 0 <= i < txns.len() implies #[trigger] validation_ok(
        store,
        sv2,
        recs,
        i,
    ) by {
        assert(validation_ok(store, sv, recs, i));
        lemma_max_triggered_agree(sv.statuses, sv2.statuses, i + 1);
    }
    assert forall|i: int| 0 <= i < txns.len() implies #[trigger] committed_ok(
        task,
        txns,
        base,
        sv2,
        recs,
        i,
    ) by {
        assert(committed_ok(task, txns, base, sv, recs, i));
    }
    assert forall|k: StateKey|
        !(#[trigger] resolve(store, k, sv2.commit_idx as TxnIndex) is Dependency)
            && speculative_lookup(store, base, k, sv2.commit_idx as TxnIndex) == lookup(
            state_after(task, txns, base, sv2.commit_idx),
            k,
        ) by {
        assert(!(resolve(store, k, idx) is Dependency));
        assert(speculative_lookup(store, base, k, idx) == lookup(
            state_after(task, txns, base, c),
            k,
        ));
        assert(entries_ok(store, sv, recs, c));
        lemma_resolve_step(store, k, idx);
        lemma_apply_writes(state_after(task, txns, base, c), writes_of(r.status), k);
        if store.contains_key((k, idx)) {
            let single = Map::<TxnIndex, VersionedEntry>::empty().insert(idx, store[(k, idx)]);
            assert(single.contains_key(idx));
            assert(latest_below(single, idx + 1) == Some(idx));
        }
    }
}

/// Stopping the block on the transaction that is ready to commit, where it
/// ended in an error, keeps the relation.
pub proof fn lemma_inv_halt<T: ExecutorTask>(
    task: T,
    txns: Seq<T::Txn>,
    base: State,
    store: StoreView,
    sv: SchedulerView,
    recs: Records,
    inflight: InFlights<T::Cont>,
    log: Seq<TxnIndex>,
    sv2: SchedulerView,
)
    requires
        inv(task, txns, base, store, sv, recs, inflight, log),
        crate::scheduler::commit_ready(sv),
        recs[sv.commit_idx] is Some,
        recs[sv.commit_idx].unwrap().status is Abort,
        sv2 == crate::scheduler::after_halt(sv),
        view_wf(sv2),
    ensures
        inv(task, txns, base, store, sv2, recs, inflight, log),
{
    lemma_commit_outcome(task, txns, base, store, sv, recs, inflight, log);
    assert forall|i: int| 0 <= i < txns.len() implies #[trigger] entries_ok(
        store,
        sv2,
        recs,
        i,
    ) by {
        assert(entries_ok(store, sv, recs, i));
    }
    assert forall|i: int| 0 <= i < txns.len() implies #[trigger] inflight_ok(
        task,
        txns,
        sv2,
        inflight,
        i,
    ) by {
        assert(inflight_ok(task, txns, sv, inflight, i));
    }
    assert forall|i: int| 0 <= i < txns.len() implies #[trigger] reads_ok(
        base,
        store,
        sv2,
        recs,
        inflight,
        i,
    ) by {
        assert(reads_ok(base, store, sv, recs, inflight, i));
        assert(pending_reads(sv2, recs, inflight, i) == pending_reads(sv, recs, inflight, i));
    }
    assert forall|i: int| 0 <= i < txns.len() implies #[trigger] validation_ok(
        store,
        sv2,
        recs,
        i,
    ) by {
        assert(validation_ok(store, sv, recs, i));
        lemma_max_triggered_agree(sv.statuses, sv2.statuses, i + 1);
    }
    assert forall|i: int| 0 <= i < txns.len() implies #[trigger] committed_ok(
        task,
        txns,
        base,
        sv2,
        recs,
        i,
    ) by {
        assert(committed_ok(task, txns, base, sv, recs, i));
    }
}

/// With the committed prefix as in sequential execution, no transaction below
/// the commit point fails when the block runs in order.
pub proof fn lemma_committed_prefix<T: ExecutorTask>(
    task: T,
    txns: Seq<T::Txn>,
    base: State,
    store: StoreView,
    sv: SchedulerView,
    recs: Records,
    inflight: InFlights<T::Cont>,
    log: Seq<TxnIndex>,
    n: int,
)
    requires
        inv(task, txns, base, store, sv, recs, inflight, log),
        0 <= n <= sv.commit_idx,
    ensures
        first_failure(task, txns, base, n) is None,
    decreases n,
{
    if n > 0 {
        lemma_committed_prefix(task, txns, base, store, sv, recs, inflight, log, n - 1);
        assert(committed_ok(task, txns, base, sv, recs, n - 1));
    }
}

} // verus!
