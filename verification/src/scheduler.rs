//! The scheduler: which transaction is executed or validated next, in which
//! incarnation, and when a transaction may commit.
//!
//! Every operation is a step of a state machine over `SchedulerView`. The
//! scheduler never looks at data: what it is told (that an execution wrote
//! to new keys, that a validation failed) it takes on trust from the engine.

use vstd::prelude::*;
use crate::types::{TxnIndex, Incarnation};

verus! {

/// Counts the rounds of forced re-validation.
pub type Wave = u64;

/// Where a transaction stands.
#[derive(Clone, Copy, Debug, PartialEq, Eq, Structural)]
pub enum ExecutionState {
    /// Waiting for a worker to run the current incarnation.
    ReadyToExecute,
    /// A worker runs the current incarnation.
    Executing,
    /// The current incarnation has run and its writes are recorded.
    Executed,
    /// Final: the output of the current incarnation is part of the block.
    Committed,
    /// Final: the current incarnation ended in an error that fails the block.
    Aborted,
}

/// The scheduler's record of one transaction.
#[derive(Clone, Copy, Debug)]
pub struct TxnStatus {
    pub incarnation: Incarnation,
    pub state: ExecutionState,
    /// The wave in which the current incarnation's reads were last found valid.
    pub validated_wave: Option<Wave>,
    /// The last wave that this transaction set off.
    pub triggered_wave: Wave,
    /// The worker that holds a task on this transaction.
    pub owner: Option<usize>,
    /// The lower transaction whose estimate stopped the last execution.
    pub blocked_on: Option<TxnIndex>,
}

/// What a worker is asked to do.
#[derive(Clone, Copy, Debug, PartialEq, Eq, Structural)]
pub enum Task {
    Execute { txn_idx: TxnIndex, incarnation: Incarnation },
    Validate { txn_idx: TxnIndex, incarnation: Incarnation },
    /// Nothing can be handed out now; other workers hold what is left.
    Wait,
    /// The block is finished.
    Done,
}

/// The scheduler's state.
pub struct SchedulerView {
    pub statuses: Seq<TxnStatus>,
    /// No transaction below this index waits to be handed out for execution.
    pub execution_idx: int,
    /// No transaction below this index waits to be handed out for validation.
    pub validation_idx: int,
    pub wave: Wave,
    /// The number of committed transactions.
    pub commit_idx: int,
    /// Whether a fatal error stopped the block.
    pub halted: bool,
}

/// The highest wave set off by the first `upto` transactions.
pub open spec fn max_triggered(statuses: Seq<TxnStatus>, upto: int) -> Wave
    decreases upto,
{
    if upto <= 0 || upto > statuses.len() {
        0
    } else {
        let rest = max_triggered(statuses, upto - 1);
        if statuses[upto - 1].triggered_wave > rest {
            statuses[upto - 1].triggered_wave
        } else {
            rest
        }
    }
}

/// `max_triggered` bounds each of the waves it ranges over, and is one of
/// them or zero.
pub proof fn lemma_max_triggered(statuses: Seq<TxnStatus>, upto: int)
    requires
        0 <= upto <= statuses.len(),
    ensures
        forall|i: int| 0 <= i < upto ==> statuses[i].triggered_wave <= max_triggered(statuses, upto),
        max_triggered(statuses, upto) == 0 || exists|i: int|
            0 <= i < upto && statuses[i].triggered_wave == max_triggered(statuses, upto),
    decreases upto,
{
    if upto > 0 {
        lemma_max_triggered(statuses, upto - 1);
        let rest = max_triggered(statuses, upto - 1);
        if rest != 0 && statuses[upto - 1].triggered_wave <= rest {
            let i = choose|i: int| 0 <= i < upto - 1 && statuses[i].triggered_wave == rest;
            assert(0 <= i < upto && statuses[i].triggered_wave == max_triggered(statuses, upto));
        }
    }
}

/// Two status sequences that agree on the waves below `upto` have the same
/// maximum there.
pub proof fn lemma_max_triggered_agree(a: Seq<TxnStatus>, b: Seq<TxnStatus>, upto: int)
    requires
        0 <= upto <= a.len(),
        a.len() == b.len(),
        forall|i: int| 0 <= i < upto ==> a[i].triggered_wave == b[i].triggered_wave,
    ensures
        max_triggered(a, upto) == max_triggered(b, upto),
    decreases upto,
{
    if upto > 0 {
        lemma_max_triggered_agree(a, b, upto - 1);
    }
}

/// The reads of the current incarnation of transaction `idx` were found
/// valid after every wave that a transaction up to `idx` set off.
pub open spec fn validated_ok(sv: SchedulerView, idx: int) -> bool {
    &&& 0 <= idx < sv.statuses.len()
    &&& sv.statuses[idx].state == ExecutionState::Executed
    &&& sv.statuses[idx].validated_wave is Some
    &&& sv.statuses[idx].validated_wave.unwrap() >= max_triggered(sv.statuses, idx + 1)
}

/// The transaction has run and waits for a validation in the current wave.
pub open spec fn needs_validation(status: TxnStatus, wave: Wave) -> bool {
    &&& status.state == ExecutionState::Executed
    &&& status.owner is None
    &&& (status.validated_wave is None || status.validated_wave.unwrap() < wave)
}

/// The transaction has run, or its run is final.
pub open spec fn has_run(state: ExecutionState) -> bool {
    state == ExecutionState::Executed || state == ExecutionState::Committed || state
        == ExecutionState::Aborted
}

/// The transaction waits for a worker and is not held up by a lower one that
/// has yet to run.
pub open spec fn can_execute(statuses: Seq<TxnStatus>, idx: int) -> bool {
    &&& 0 <= idx < statuses.len()
    &&& statuses[idx].state == ExecutionState::ReadyToExecute
    &&& match statuses[idx].blocked_on {
        None => true,
        Some(b) => b >= idx || has_run(statuses[b as int].state),
    }
}

/// The lowest index from `from` on that needs validation.
pub open spec fn next_validation(statuses: Seq<TxnStatus>, wave: Wave, from: int) -> Option<int>
    decreases statuses.len() - from,
{
    if from < 0 || from >= statuses.len() {
        None
    } else if needs_validation(statuses[from], wave) {
        Some(from)
    } else {
        next_validation(statuses, wave, from + 1)
    }
}

/// The lowest index from `from` on that can be executed.
pub open spec fn next_execution(statuses: Seq<TxnStatus>, from: int) -> Option<int>
    decreases statuses.len() - from,
{
    if from < 0 || from >= statuses.len() {
        None
    } else if can_execute(statuses, from) {
        Some(from)
    } else {
        next_execution(statuses, from + 1)
    }
}

/// The status of a transaction that a worker took.
pub open spec fn owned_by(status: TxnStatus, worker: usize) -> TxnStatus {
    TxnStatus { owner: Some(worker), ..status }
}

/// The status of a transaction that a worker took for execution.
pub open spec fn executing_by(status: TxnStatus, worker: usize) -> TxnStatus {
    TxnStatus { state: ExecutionState::Executing, owner: Some(worker), ..status }
}

/// The smaller of two indices.
pub open spec fn min_idx(a: int, b: int) -> int {
    if a <= b {
        a
    } else {
        b
    }
}

/// The block is finished: everything is committed, or a fatal error stopped it.
pub open spec fn is_done(sv: SchedulerView) -> bool {
    sv.halted || sv.commit_idx == sv.statuses.len()
}

/// What `next_task_for` hands out in state `sv`: the task on the lowest index
/// among the next transaction to validate and the next to execute.
pub open spec fn spec_next_task(sv: SchedulerView) -> Task {
    if is_done(sv) {
        Task::Done
    } else {
        let v = next_validation(sv.statuses, sv.wave, sv.validation_idx);
        let e = next_execution(sv.statuses, sv.execution_idx);
        if v is Some && (e is None || v.unwrap() < e.unwrap()) {
            Task::Validate {
                txn_idx: v.unwrap() as TxnIndex,
                incarnation: sv.statuses[v.unwrap()].incarnation,
            }
        } else if e is Some {
            Task::Execute {
                txn_idx: e.unwrap() as TxnIndex,
                incarnation: sv.statuses[e.unwrap()].incarnation,
            }
        } else {
            Task::Wait
        }
    }
}

/// The state after `next_task_for` handed out `spec_next_task(sv)` to `worker`.
pub open spec fn after_next_task(sv: SchedulerView, worker: usize) -> SchedulerView {
    match spec_next_task(sv) {
        Task::Validate { txn_idx, incarnation } => SchedulerView {
            statuses: sv.statuses.update(
                txn_idx as int,
                owned_by(sv.statuses[txn_idx as int], worker),
            ),
            validation_idx: txn_idx + 1,
            ..sv
        },
        Task::Execute { txn_idx, incarnation } => SchedulerView {
            statuses: sv.statuses.update(
                txn_idx as int,
                executing_by(sv.statuses[txn_idx as int], worker),
            ),
            execution_idx: txn_idx + 1,
            ..sv
        },
        Task::Wait => sv,
        Task::Done => sv,
    }
}

/// Whether `(idx, incarnation)` names the execution that is under way.
pub open spec fn is_executing(sv: SchedulerView, idx: TxnIndex, incarnation: Incarnation) -> bool {
    &&& idx < sv.statuses.len()
    &&& !sv.halted
    &&& sv.statuses[idx as int].state == ExecutionState::Executing
    &&& sv.statuses[idx as int].incarnation == incarnation
}

/// Whether `(idx, incarnation)` names an execution that has run and is not
/// final.
pub open spec fn is_executed(sv: SchedulerView, idx: TxnIndex, incarnation: Incarnation) -> bool {
    &&& idx < sv.statuses.len()
    &&& !sv.halted
    &&& sv.statuses[idx as int].state == ExecutionState::Executed
    &&& sv.statuses[idx as int].incarnation == incarnation
}

/// The state after the execution `(idx, incarnation)` ended and its writes
/// were recorded. Where it wrote to keys that its previous incarnation had
/// not, a new wave begins: every higher transaction has to be validated anew.
pub open spec fn after_finish_execution(
    sv: SchedulerView,
    idx: TxnIndex,
    incarnation: Incarnation,
    wrote_new_keys: bool,
) -> SchedulerView {
    if is_executing(sv, idx, incarnation) && (wrote_new_keys ==> sv.wave < u64::MAX) {
        let wave = if wrote_new_keys {
            (sv.wave + 1) as Wave
        } else {
            sv.wave
        };
        let old = sv.statuses[idx as int];
        SchedulerView {
            statuses: sv.statuses.update(
                idx as int,
                TxnStatus {
                    incarnation,
                    state: ExecutionState::Executed,
                    validated_wave: None,
                    triggered_wave: if wrote_new_keys {
                        wave
                    } else {
                        old.triggered_wave
                    },
                    owner: None,
                    blocked_on: None,
                },
            ),
            execution_idx: min_idx(sv.execution_idx, idx + 1),
            validation_idx: min_idx(sv.validation_idx, idx as int),
            wave,
            ..sv
        }
    } else {
        sv
    }
}

/// The state after the execution `(idx, incarnation)` gave up: the
/// transaction waits for its next incarnation.
pub open spec fn after_abort_execution(
    sv: SchedulerView,
    idx: TxnIndex,
    incarnation: Incarnation,
    blocked_on: Option<TxnIndex>,
) -> SchedulerView {
    if is_executing(sv, idx, incarnation) && incarnation < u32::MAX {
        let old = sv.statuses[idx as int];
        SchedulerView {
            statuses: sv.statuses.update(
                idx as int,
                TxnStatus {
                    incarnation: (incarnation + 1) as Incarnation,
                    state: ExecutionState::ReadyToExecute,
                    validated_wave: None,
                    triggered_wave: old.triggered_wave,
                    owner: None,
                    blocked_on,
                },
            ),
            execution_idx: min_idx(sv.execution_idx, idx as int),
            ..sv
        }
    } else {
        sv
    }
}

/// Whether a failed validation of `(idx, incarnation)` can be acted on.
pub open spec fn can_abort_validation(
    sv: SchedulerView,
    idx: TxnIndex,
    incarnation: Incarnation,
) -> bool {
    is_executed(sv, idx, incarnation) && incarnation < u32::MAX && sv.wave < u64::MAX
}

/// The state after the reads of `(idx, incarnation)` were checked. Valid
/// reads are marked with the current wave. Invalid reads abort the
/// incarnation: the transaction waits for its next incarnation and a new wave
/// begins, in which every higher transaction is validated anew.
pub open spec fn after_finish_validation(
    sv: SchedulerView,
    idx: TxnIndex,
    incarnation: Incarnation,
    valid: bool,
) -> SchedulerView {
    let old = sv.statuses[idx as int];
    if valid && is_executed(sv, idx, incarnation) {
        SchedulerView {
            statuses: sv.statuses.update(
                idx as int,
                TxnStatus { validated_wave: Some(sv.wave), owner: None, ..old },
            ),
            ..sv
        }
    } else if !valid && can_abort_validation(sv, idx, incarnation) {
        let wave = (sv.wave + 1) as Wave;
        SchedulerView {
            statuses: sv.statuses.update(
                idx as int,
                TxnStatus {
                    incarnation: (incarnation + 1) as Incarnation,
                    state: ExecutionState::ReadyToExecute,
                    validated_wave: None,
                    triggered_wave: wave,
                    owner: None,
                    blocked_on: None,
                },
            ),
            execution_idx: min_idx(sv.execution_idx, idx as int),
            validation_idx: min_idx(sv.validation_idx, idx + 1),
            wave,
            ..sv
        }
    } else {
        sv
    }
}

/// The next transaction in commit order has run and its reads were found
/// valid after every wave that could have touched them.
pub open spec fn commit_ready(sv: SchedulerView) -> bool {
    &&& !sv.halted
    &&& sv.commit_idx < sv.statuses.len()
    &&& validated_ok(sv, sv.commit_idx)
}

/// The state after the next transaction in commit order was committed.
pub open spec fn after_commit(sv: SchedulerView) -> SchedulerView {
    if commit_ready(sv) {
        SchedulerView {
            statuses: sv.statuses.update(
                sv.commit_idx,
                TxnStatus {
                    state: ExecutionState::Committed,
                    owner: None,
                    ..sv.statuses[sv.commit_idx]
                },
            ),
            commit_idx: sv.commit_idx + 1,
            ..sv
        }
    } else {
        sv
    }
}

/// The state after the next transaction in commit order failed the block.
pub open spec fn after_halt(sv: SchedulerView) -> SchedulerView {
    if commit_ready(sv) {
        SchedulerView {
            statuses: sv.statuses.update(
                sv.commit_idx,
                TxnStatus {
                    state: ExecutionState::Aborted,
                    owner: None,
                    ..sv.statuses[sv.commit_idx]
                },
            ),
            halted: true,
            ..sv
        }
    } else {
        sv
    }
}

/// The state in which nothing has run yet.
pub open spec fn initial_view(num_txns: nat) -> SchedulerView {
    SchedulerView {
        statuses: Seq::new(num_txns, |i: int| fresh_status()),
        execution_idx: 0,
        validation_idx: 0,
        wave: 0,
        commit_idx: 0,
        halted: false,
    }
}

/// The status of a transaction that has not run yet.
pub open spec fn fresh_status() -> TxnStatus {
    TxnStatus {
        incarnation: 0,
        state: ExecutionState::ReadyToExecute,
        validated_wave: None,
        triggered_wave: 0,
        owner: None,
        blocked_on: None,
    }
}

/// What holds of every state that the scheduler reaches.
pub open spec fn view_wf(sv: SchedulerView) -> bool {
    &&& sv.statuses.len() <= u32::MAX
    &&& 0 <= sv.execution_idx <= sv.statuses.len()
    &&& 0 <= sv.validation_idx <= sv.statuses.len()
    &&& 0 <= sv.commit_idx <= sv.statuses.len()
    &&& forall|i: int|
        0 <= i < sv.statuses.len() ==> ((#[trigger] sv.statuses[i]).state
            == ExecutionState::Committed <==> i < sv.commit_idx)
    &&& forall|i: int|
        0 <= i < sv.statuses.len() ==> ((#[trigger] sv.statuses[i]).state
            == ExecutionState::Aborted ==> sv.halted && i == sv.commit_idx)
    &&& forall|i: int|
        0 <= i < sv.statuses.len() ==> (#[trigger] sv.statuses[i]).triggered_wave <= sv.wave
    &&& forall|i: int|
        0 <= i < sv.statuses.len() && (#[trigger] sv.statuses[i]).validated_wave is Some
            ==> sv.statuses[i].validated_wave.unwrap() <= sv.wave && has_run(sv.statuses[i].state)
}

/// The scheduler of one block.
pub struct Scheduler {
    statuses: Vec<TxnStatus>,
    execution_idx: usize,
    validation_idx: usize,
    wave: Wave,
    commit_idx: usize,
    /// The highest wave set off by a committed transaction.
    commit_wave: Wave,
    halted: bool,
}

impl View for Scheduler {
    type V = SchedulerView;

    closed spec fn view(&self) -> SchedulerView {
        SchedulerView {
            statuses: self.statuses@,
            execution_idx: self.execution_idx as int,
            validation_idx: self.validation_idx as int,
            wave: self.wave,
            commit_idx: self.commit_idx as int,
            halted: self.halted,
        }
    }
}

impl Scheduler {
    pub closed spec fn wf(&self) -> bool {
        &&& view_wf(self@)
        &&& self.commit_wave == max_triggered(self.statuses@, self.commit_idx as int)
    }

    /// A well-formed scheduler's state has the properties of `view_wf`.
    pub proof fn lemma_wf(&self)
        requires
            self.wf(),
        ensures
            view_wf(self@),
    {
    }

    /// The scheduler of a block of `num_txns` transactions, none of which
    /// has run.
    pub fn new(num_txns: TxnIndex) -> (s: Self)
        ensures
            s.wf(),
            s@ == initial_view(num_txns as nat),
    {
        let mut statuses: Vec<TxnStatus> = Vec::new();
        let mut i: TxnIndex = 0;
        while i < num_txns
            invariant
                i <= num_txns,
                statuses@.len() == i,
                forall|j: int| 0 <= j < i ==> statuses@[j] == fresh_status(),
            decreases num_txns - i,
        {
            statuses.push(
                TxnStatus {
                    incarnation: 0,
                    state: ExecutionState::ReadyToExecute,
                    validated_wave: None,
                    triggered_wave: 0,
                    owner: None,
                    blocked_on: None,
                },
            );
            i = i + 1;
        }
        let s = Scheduler {
            statuses,
            execution_idx: 0,
            validation_idx: 0,
            wave: 0,
            commit_idx: 0,
            commit_wave: 0,
            halted: false,
        };
        proof {
            assert(s@.statuses =~= initial_view(num_txns as nat).statuses);
        }
        s
    }

    pub fn num_txns(&self) -> (n: usize)
        ensures
            n == self@.statuses.len(),
    {
        self.statuses.len()
    }

    /// The number of committed transactions.
    pub fn commit_idx(&self) -> (n: usize)
        ensures
            n == self@.commit_idx,
    {
        self.commit_idx
    }

    pub fn wave(&self) -> (w: Wave)
        ensures
            w == self@.wave,
    {
        self.wave
    }

    pub fn is_halted(&self) -> (b: bool)
        ensures
            b == self@.halted,
    {
        self.halted
    }

    /// Whether the block is finished.
    pub fn done(&self) -> (b: bool)
        ensures
            b == is_done(self@),
    {
        self.halted || self.commit_idx == self.statuses.len()
    }

    /// The scheduler's record of transaction `idx`.
    pub fn status(&self, idx: TxnIndex) -> (s: TxnStatus)
        requires
            idx < self@.statuses.len(),
        ensures
            s == self@.statuses[idx as int],
    {
        self.statuses[idx as usize]
    }

    fn find_validation(&self) -> (r: Option<usize>)
        requires
            self.wf(),
        ensures
            match r {
                Some(v) => next_validation(
                    self.statuses@,
                    self.wave,
                    self.validation_idx as int,
                ) == Some(v as int) && v < self.statuses@.len() && needs_validation(
                    self.statuses@[v as int],
                    self.wave,
                ),
                None => next_validation(self.statuses@, self.wave, self.validation_idx as int)
                    is None,
            },
    {
        let mut i: usize = self.validation_idx;
        while i < self.statuses.len()
            invariant
                self.validation_idx <= i <= self.statuses@.len(),
                next_validation(self.statuses@, self.wave, self.validation_idx as int)
                    == next_validation(self.statuses@, self.wave, i as int),
            decreases self.statuses@.len() - i,
        {
            let s = self.statuses[i];
            let executed = match s.state {
                ExecutionState::Executed => true,
                _ => false,
            };
            let stale = match s.validated_wave {
                None => true,
                Some(w) => w < self.wave,
            };
            if executed && s.owner.is_none() && stale {
                return Some(i);
            }
            i = i + 1;
        }
        None
    }

    fn runnable(&self, i: usize) -> (b: bool)
        requires
            self.wf(),
            i < self.statuses@.len(),
        ensures
            b == can_execute(self.statuses@, i as int),
    {
        let s = self.statuses[i];
        let ready = match s.state {
            ExecutionState::ReadyToExecute => true,
            _ => false,
        };
        let free = match s.blocked_on {
            None => true,
            Some(b) => {
                if b as usize >= i {
                    true
                } else {
                    match self.statuses[b as usize].state {
                        ExecutionState::Executed => true,
                        ExecutionState::Committed => true,
                        ExecutionState::Aborted => true,
                        _ => false,
                    }
                }
            },
        };
        ready && free
    }

    fn find_execution(&self) -> (r: Option<usize>)
        requires
            self.wf(),
        ensures
            match r {
                Some(e) => next_execution(self.statuses@, self.execution_idx as int) == Some(
                    e as int,
                ) && e < self.statuses@.len() && can_execute(self.statuses@, e as int),
                None => next_execution(self.statuses@, self.execution_idx as int) is None,
            },
    {
        let mut i: usize = self.execution_idx;
        while i < self.statuses.len()
            invariant
                self.wf(),
                self.execution_idx <= i <= self.statuses@.len(),
                next_execution(self.statuses@, self.execution_idx as int) == next_execution(
                    self.statuses@,
                    i as int,
                ),
            decreases self.statuses@.len() - i,
        {
            if self.runnable(i) {
                return Some(i);
            }
            i = i + 1;
        }
        None
    }

    /// Hands the next task to `worker`: the validation or execution of the
    /// lowest transaction that waits for one. A transaction that is handed
    /// out is marked as held by the worker, and is not handed out again
    /// before the task is reported back.
    pub fn next_task_for(&mut self, worker: usize) -> (task: Task)
        requires
            old(self).wf(),
        ensures
            final(self).wf(),
            task == spec_next_task(old(self)@),
            final(self)@ == after_next_task(old(self)@, worker),
    {
        if self.halted || self.commit_idx == self.statuses.len() {
            return Task::Done;
        }
        let v = self.find_validation();
        let e = self.find_execution();
        let validate_first = match (v, e) {
            (Some(vi), Some(ei)) => vi < ei,
            (Some(_), None) => true,
            _ => false,
        };
        if validate_first {
            let vi = v.unwrap();
            let s = self.statuses[vi];
            self.statuses.set(vi, TxnStatus { owner: Some(worker), ..s });
            self.validation_idx = vi + 1;
            proof {
                assert(old(self)@.statuses[vi as int].state == ExecutionState::Executed);
                lemma_max_triggered_agree(
                    old(self).statuses@,
                    self.statuses@,
                    self.commit_idx as int,
                );
            }
            Task::Validate { txn_idx: vi as TxnIndex, incarnation: s.incarnation }
        } else {
            match e {
                Some(ei) => {
                    let s = self.statuses[ei];
                    self.statuses.set(
                        ei,
                        TxnStatus { state: ExecutionState::Executing, owner: Some(worker), ..s },
                    );
                    self.execution_idx = ei + 1;
                    proof {
                        assert(old(self)@.statuses[ei as int].state
                            == ExecutionState::ReadyToExecute);
                        lemma_max_triggered_agree(
                            old(self).statuses@,
                            self.statuses@,
                            self.commit_idx as int,
                        );
                    }
                    Task::Execute { txn_idx: ei as TxnIndex, incarnation: s.incarnation }
                },
                None => Task::Wait,
            }
        }
    }

    /// Reports that the execution `(idx, incarnation)` ended and that its
    /// writes are recorded. Returns whether the report was taken: it is not
    /// when no such execution is under way, or when a new wave is due and the
    /// wave counter is spent.
    pub fn finish_execution(
        &mut self,
        idx: TxnIndex,
        incarnation: Incarnation,
        wrote_new_keys: bool,
    ) -> (taken: bool)
        requires
            old(self).wf(),
        ensures
            final(self).wf(),
            taken == (is_executing(old(self)@, idx, incarnation) && (wrote_new_keys ==> old(
                self,
            )@.wave < u64::MAX)),
            final(self)@ == after_finish_execution(old(self)@, idx, incarnation, wrote_new_keys),
    {
        let i = idx as usize;
        if self.halted || i >= self.statuses.len() {
            return false;
        }
        let s = self.statuses[i];
        let executing = match s.state {
            ExecutionState::Executing => true,
            _ => false,
        };
        if !executing || s.incarnation != incarnation || (wrote_new_keys && self.wave
            == u64::MAX) {
            return false;
        }
        if wrote_new_keys {
            self.wave = self.wave + 1;
        }
        self.statuses.set(
            i,
            TxnStatus {
                incarnation,
                state: ExecutionState::Executed,
                validated_wave: None,
                triggered_wave: if wrote_new_keys {
                    self.wave
                } else {
                    s.triggered_wave
                },
                owner: None,
                blocked_on: None,
            },
        );
        if i + 1 < self.execution_idx {
            self.execution_idx = i + 1;
        }
        if i < self.validation_idx {
            self.validation_idx = i;
        }
        proof {
            lemma_max_triggered_agree(old(self).statuses@, self.statuses@, self.commit_idx as int);
        }
        true
    }

    /// Reports that the execution `(idx, incarnation)` gave up, on the
    /// estimate of `blocked_on` if that is given. The transaction waits for
    /// its next incarnation. Returns whether the report was taken: it is not
    /// when no such execution is under way or the incarnation counter is spent.
    pub fn abort_execution(
        &mut self,
        idx: TxnIndex,
        incarnation: Incarnation,
        blocked_on: Option<TxnIndex>,
    ) -> (taken: bool)
        requires
            old(self).wf(),
        ensures
            final(self).wf(),
            taken == (is_executing(old(self)@, idx, incarnation) && incarnation < u32::MAX),
            final(self)@ == after_abort_execution(old(self)@, idx, incarnation, blocked_on),
    {
        let i = idx as usize;
        if self.halted || i >= self.statuses.len() {
            return false;
        }
        let s = self.statuses[i];
        let executing = match s.state {
            ExecutionState::Executing => true,
            _ => false,
        };
        if !executing || s.incarnation != incarnation || incarnation == u32::MAX {
            return false;
        }
        self.statuses.set(
            i,
            TxnStatus {
                incarnation: incarnation + 1,
                state: ExecutionState::ReadyToExecute,
                validated_wave: None,
                triggered_wave: s.triggered_wave,
                owner: None,
                blocked_on,
            },
        );
        if i < self.execution_idx {
            self.execution_idx = i;
        }
        proof {
            lemma_max_triggered_agree(old(self).statuses@, self.statuses@, self.commit_idx as int);
        }
        true
    }

    /// Reports the outcome of checking the reads of `(idx, incarnation)`
    /// against the store as it is now. Returns whether the report was
    /// taken: it is not when the incarnation is not the one that has run, or
    /// when an abort is due and a counter is spent.
    pub fn finish_validation(&mut self, idx: TxnIndex, incarnation: Incarnation, valid: bool) -> (taken:
        bool)
        requires
            old(self).wf(),
        ensures
            final(self).wf(),
            taken == (if valid {
                is_executed(old(self)@, idx, incarnation)
            } else {
                can_abort_validation(old(self)@, idx, incarnation)
            }),
            final(self)@ == after_finish_validation(old(self)@, idx, incarnation, valid),
    {
        let i = idx as usize;
        if self.halted || i >= self.statuses.len() {
            return false;
        }
        let s = self.statuses[i];
        let executed = match s.state {
            ExecutionState::Executed => true,
            _ => false,
        };
        if !executed || s.incarnation != incarnation {
            return false;
        }
        if valid {
            self.statuses.set(i, TxnStatus { validated_wave: Some(self.wave), owner: None, ..s });
            proof {
                lemma_max_triggered_agree(
                    old(self).statuses@,
                    self.statuses@,
                    self.commit_idx as int,
                );
            }
            true
        } else {
            if incarnation == u32::MAX || self.wave == u64::MAX {
                return false;
            }
            self.wave = self.wave + 1;
            self.statuses.set(
                i,
                TxnStatus {
                    incarnation: incarnation + 1,
                    state: ExecutionState::ReadyToExecute,
                    validated_wave: None,
                    triggered_wave: self.wave,
                    owner: None,
                    blocked_on: None,
                },
            );
            if i < self.execution_idx {
                self.execution_idx = i;
            }
            if i + 1 < self.validation_idx {
                self.validation_idx = i + 1;
            }
            proof {
                lemma_max_triggered_agree(
                    old(self).statuses@,
                    self.statuses@,
                    self.commit_idx as int,
                );
            }
            true
        }
    }

    /// Whether the next transaction in commit order can be committed.
    pub fn is_commit_ready(&self) -> (ready: bool)
        requires
            self.wf(),
        ensures
            ready == commit_ready(self@),
    {
        if self.halted || self.commit_idx >= self.statuses.len() {
            return false;
        }
        let s = self.statuses[self.commit_idx];
        let executed = match s.state {
            ExecutionState::Executed => true,
            _ => false,
        };
        let required = if s.triggered_wave > self.commit_wave {
            s.triggered_wave
        } else {
            self.commit_wave
        };
        executed && match s.validated_wave {
            Some(w) => w >= required,
            None => false,
        }
    }

    /// Commits the next transaction in commit order, if it is ready, and
    /// returns its index.
    pub fn try_commit(&mut self) -> (committed: Option<TxnIndex>)
        requires
            old(self).wf(),
        ensures
            final(self).wf(),
            committed == (if commit_ready(old(self)@) {
                Some(old(self)@.commit_idx as TxnIndex)
            } else {
                None
            }),
            final(self)@ == after_commit(old(self)@),
    {
        if !self.is_commit_ready() {
            return None;
        }
        let c = self.commit_idx;
        let s = self.statuses[c];
        self.statuses.set(c, TxnStatus { state: ExecutionState::Committed, owner: None, ..s });
        if s.triggered_wave > self.commit_wave {
            self.commit_wave = s.triggered_wave;
        }
        self.commit_idx = c + 1;
        proof {
            lemma_max_triggered_agree(old(self).statuses@, self.statuses@, c + 1);
        }
        Some(c as TxnIndex)
    }

    /// Stops the block on the fatal error of the next transaction in commit
    /// order, if that transaction is ready to commit. Returns whether it did.
    pub fn halt(&mut self) -> (halted: bool)
        requires
            old(self).wf(),
        ensures
            final(self).wf(),
            halted == commit_ready(old(self)@),
            final(self)@ == after_halt(old(self)@),
    {
        if !self.is_commit_ready() {
            return false;
        }
        let c = self.commit_idx;
        let s = self.statuses[c];
        self.statuses.set(c, TxnStatus { state: ExecutionState::Aborted, owner: None, ..s });
        self.halted = true;
        proof {
            lemma_max_triggered_agree(old(self).statuses@, self.statuses@, c as int);
        }
        true
    }
}

/// The statuses differ only where the transaction has not run, neither
/// before nor after, and there only in who holds it, in whether it is being
/// executed, and in a higher incarnation.
pub open spec fn rescheduled(a: SchedulerView, b: SchedulerView) -> bool {
    &&& a.statuses.len() == b.statuses.len()
    &&& a.commit_idx == b.commit_idx
    &&& a.halted == b.halted
    &&& forall|i: int|
        0 <= i < a.statuses.len() ==> {
            let x = #[trigger] a.statuses[i];
            let y = b.statuses[i];
            &&& x.triggered_wave == y.triggered_wave
            &&& x.validated_wave == y.validated_wave
            &&& has_run(x.state) == has_run(y.state)
            &&& has_run(x.state) ==> x.state == y.state && x.incarnation == y.incarnation
            &&& x.incarnation <= y.incarnation
        }
}


/// The index that `next_execution` names can be executed.
pub proof fn lemma_next_execution(statuses: Seq<TxnStatus>, from: int)
    ensures
        match next_execution(statuses, from) {
            Some(e) => from <= e < statuses.len() && can_execute(statuses, e),
            None => true,
        },
    decreases statuses.len() - from,
{
    if 0 <= from < statuses.len() && !can_execute(statuses, from) {
        lemma_next_execution(statuses, from + 1);
    }
}

/// The index that `next_validation` names needs validation.
pub proof fn lemma_next_validation(statuses: Seq<TxnStatus>, wave: Wave, from: int)
    ensures
        match next_validation(statuses, wave, from) {
            Some(v) => from <= v < statuses.len() && needs_validation(statuses[v], wave),
            None => true,
        },
    decreases statuses.len() - from,
{
    if 0 <= from < statuses.len() && !needs_validation(statuses[from], wave) {
        lemma_next_validation(statuses, wave, from + 1);
    }
}

/// Handing out a task changes no more than `rescheduled` allows.
pub proof fn lemma_next_task_rescheduled(sv: SchedulerView, worker: usize)
    requires
        view_wf(sv),
    ensures
        rescheduled(sv, after_next_task(sv, worker)),
{
    lemma_next_execution(sv.statuses, sv.execution_idx);
    lemma_next_validation(sv.statuses, sv.wave, sv.validation_idx);
}

/// Giving up an execution changes no more than `rescheduled` allows.
pub proof fn lemma_abort_execution_rescheduled(
    sv: SchedulerView,
    idx: TxnIndex,
    incarnation: Incarnation,
    blocked_on: Option<TxnIndex>,
)
    requires
        view_wf(sv),
    ensures
        rescheduled(sv, after_abort_execution(sv, idx, incarnation, blocked_on)),
{
}

} // verus!
