//! The multi-version data store: for every state key, the speculative writes
//! of the block's transactions, ordered by the index of the writer.
//!
//! A reader at index `r` observes, for a key, the entry of the highest writer
//! below `r`. An entry is either a written value or an estimate, the mark that
//! an aborted writer leaves behind so that readers wait for its next attempt.

use vstd::prelude::*;
use std::collections::HashMap;
use crate::types::{TxnIndex, Incarnation, StateKey, StateValue, Version};

verus! {

/// Whether an entry holds a value or only announces one.
#[derive(Clone, Copy, Debug, PartialEq, Eq, Structural)]
pub enum EntryStatus {
    /// The writer aborted; its next attempt is expected to write here again.
    Estimate,
    /// The value was written by the incarnation recorded beside it.
    Written,
}

/// One write of one transaction to one key.
#[derive(Clone, Copy, Debug, PartialEq, Eq, Structural)]
pub struct VersionedEntry {
    pub incarnation: Incarnation,
    pub value: StateValue,
    pub status: EntryStatus,
}

/// What a speculative read resolves to.
#[derive(Clone, Copy, Debug, PartialEq, Eq, Structural)]
pub enum ReadResult {
    /// The highest writer below the reader wrote `value`.
    Found { value: StateValue, version: Version },
    /// No writer below the reader touched the key: read the base snapshot.
    NotFound,
    /// The highest writer below the reader left an estimate.
    Dependency { blocking_idx: TxnIndex },
}

/// The entries of one key, as a map from writer index to entry.
pub type CellView = Map<TxnIndex, VersionedEntry>;

/// The whole store, as a map from (key, writer index) to entry.
pub type StoreView = Map<(StateKey, TxnIndex), VersionedEntry>;

/// The highest writer index strictly below `reader` that has an entry.
pub open spec fn latest_below<V>(cell: Map<TxnIndex, V>, reader: int) -> Option<TxnIndex>
    decreases reader,
{
    if reader <= 0 {
        None
    } else if reader - 1 <= u32::MAX && cell.contains_key((reader - 1) as TxnIndex) {
        Some((reader - 1) as TxnIndex)
    } else {
        latest_below(cell, reader - 1)
    }
}

/// What a read of one key's entries by `reader` resolves to.
pub open spec fn resolve_cell(cell: CellView, reader: TxnIndex) -> ReadResult {
    match latest_below(cell, reader as int) {
        None => ReadResult::NotFound,
        Some(w) => match cell[w].status {
            EntryStatus::Estimate => ReadResult::Dependency { blocking_idx: w },
            EntryStatus::Written => ReadResult::Found {
                value: cell[w].value,
                version: Version { txn_idx: w, incarnation: cell[w].incarnation },
            },
        },
    }
}

/// The entries of `key` in `store`.
pub open spec fn cell_of(store: StoreView, key: StateKey) -> CellView {
    Map::new(|i: TxnIndex| store.contains_key((key, i)), |i: TxnIndex| store[(key, i)])
}

/// What a read of `key` by `reader` resolves to in `store`.
pub open spec fn resolve(store: StoreView, key: StateKey, reader: TxnIndex) -> ReadResult {
    resolve_cell(cell_of(store, key), reader)
}

/// `latest_below` names an existing writer below the reader with no writer
/// between the two; it is `None` exactly when no writer is below the reader.
pub proof fn lemma_latest_below<V>(cell: Map<TxnIndex, V>, reader: int)
    requires
        0 <= reader <= u32::MAX + 1,
    ensures
        match latest_below(cell, reader) {
            Some(w) => w < reader && cell.contains_key(w) && forall|j: TxnIndex|
                w < j && j < reader ==> !cell.contains_key(j),
            None => forall|j: TxnIndex| j < reader ==> !cell.contains_key(j),
        },
    decreases reader,
{
    if reader > 0 {
        if cell.contains_key((reader - 1) as TxnIndex) {
        } else {
            lemma_latest_below(cell, reader - 1);
        }
    }
}

/// A writer with an entry and none above it below the reader is the latest.
pub proof fn lemma_latest_below_is<V>(cell: Map<TxnIndex, V>, reader: int, w: TxnIndex)
    requires
        0 <= reader <= u32::MAX + 1,
        w < reader,
        cell.contains_key(w),
        forall|j: TxnIndex| w < j && j < reader ==> !cell.contains_key(j),
    ensures
        latest_below(cell, reader) == Some(w),
{
    lemma_latest_below(cell, reader);
}

/// With no writer below the reader there is no latest one.
pub proof fn lemma_latest_below_none<V>(cell: Map<TxnIndex, V>, reader: int)
    requires
        0 <= reader <= u32::MAX + 1,
        forall|j: TxnIndex| j < reader ==> !cell.contains_key(j),
    ensures
        latest_below(cell, reader) is None,
{
    lemma_latest_below(cell, reader);
}

/// Two cells that agree below the reader resolve alike for it.
pub proof fn lemma_resolve_cell_agree(a: CellView, b: CellView, reader: TxnIndex)
    requires
        forall|j: TxnIndex| j < reader ==> (a.contains_key(j) <==> b.contains_key(j)),
        forall|j: TxnIndex| j < reader && a.contains_key(j) ==> a[j] == b[j],
    ensures
        resolve_cell(a, reader) == resolve_cell(b, reader),
{
    lemma_latest_below(a, reader as int);
    lemma_latest_below(b, reader as int);
    match latest_below(a, reader as int) {
        Some(w) => {
            lemma_latest_below_is(b, reader as int, w);
        },
        None => {
            lemma_latest_below_none(b, reader as int);
        },
    }
}

/// A slot: the writer's index and its entry.
pub type Slot = (TxnIndex, VersionedEntry);

/// The slots are strictly increasing in the writer's index.
pub open spec fn slots_sorted(s: Seq<Slot>) -> bool {
    forall|a: int, b: int| 0 <= a < b < s.len() ==> s[a].0 < s[b].0
}

/// The position of writer `idx` among the slots, if it has one.
pub open spec fn slot_position(s: Seq<Slot>, idx: TxnIndex) -> Option<int> {
    if exists|p: int| 0 <= p < s.len() && s[p].0 == idx {
        Some(choose|p: int| 0 <= p < s.len() && s[p].0 == idx)
    } else {
        None
    }
}

/// The slots as a map from writer index to entry.
pub open spec fn slots_view(s: Seq<Slot>) -> CellView {
    Map::new(
        |i: TxnIndex| slot_position(s, i) is Some,
        |i: TxnIndex| s[slot_position(s, i).unwrap()].1,
    )
}

proof fn lemma_position(s: Seq<Slot>, p: int)
    requires
        slots_sorted(s),
        0 <= p < s.len(),
    ensures
        slot_position(s, s[p].0) == Some(p),
        slots_view(s).contains_key(s[p].0),
        slots_view(s)[s[p].0] == s[p].1,
{
    let idx = s[p].0;
    let q = choose|q: int| 0 <= q < s.len() && s[q].0 == idx;
    if q < p {
        assert(s[q].0 < s[p].0);
    }
    if p < q {
        assert(s[p].0 < s[q].0);
    }
}

proof fn lemma_absent(s: Seq<Slot>, idx: TxnIndex)
    requires
        forall|p: int| 0 <= p < s.len() ==> s[p].0 != idx,
    ensures
        !slots_view(s).contains_key(idx),
{
}

/// Appending a slot whose writer is above all others inserts it.
proof fn lemma_push(s: Seq<Slot>, slot: Slot)
    requires
        slots_sorted(s),
        forall|q: int| 0 <= q < s.len() ==> s[q].0 < slot.0,
    ensures
        slots_sorted(s.push(slot)),
        slots_view(s.push(slot)) == slots_view(s).insert(slot.0, slot.1),
        !slots_view(s).contains_key(slot.0),
{
    let t = s.push(slot);
    let n = s.len() as int;
    assert(slots_sorted(t));
    assert forall|i: TxnIndex| #[trigger]
        slots_view(t).contains_key(i) == slots_view(s).insert(slot.0, slot.1).contains_key(i) && (
        slots_view(t).contains_key(i) ==> slots_view(t)[i] == slots_view(s).insert(
            slot.0,
            slot.1,
        )[i]) by {
        lemma_position(t, n);
        if slot_position(s, i) is Some {
            let q = slot_position(s, i).unwrap();
            lemma_position(s, q);
            lemma_position(t, q);
        }
        if slot_position(t, i) is Some {
            let q = slot_position(t, i).unwrap();
            lemma_position(t, q);
            if q < n {
                lemma_position(s, q);
            }
        }
    }
    assert(slots_view(t) =~= slots_view(s).insert(slot.0, slot.1));
    lemma_absent(s, slot.0);
}

/// Replacing the slot at `p` by one of the same writer overwrites its entry.
proof fn lemma_update(s: Seq<Slot>, p: int, entry: VersionedEntry)
    requires
        slots_sorted(s),
        0 <= p < s.len(),
    ensures
        slots_sorted(s.update(p, (s[p].0, entry))),
        slots_view(s.update(p, (s[p].0, entry))) == slots_view(s).insert(s[p].0, entry),
{
    let idx = s[p].0;
    let t = s.update(p, (idx, entry));
    assert(slots_sorted(t)) by {
        assert forall|a: int, b: int| 0 <= a < b < t.len() implies t[a].0 < t[b].0 by {
            assert(s[a].0 < s[b].0);
        }
    }
    assert forall|i: TxnIndex| #[trigger]
        slots_view(t).contains_key(i) == slots_view(s).insert(idx, entry).contains_key(i) && (
        slots_view(t).contains_key(i) ==> slots_view(t)[i] == slots_view(s).insert(
            idx,
            entry,
        )[i]) by {
        lemma_position(t, p);
        if slot_position(s, i) is Some {
            let q = slot_position(s, i).unwrap();
            lemma_position(s, q);
            lemma_position(t, q);
        }
        if slot_position(t, i) is Some {
            let q = slot_position(t, i).unwrap();
            lemma_position(s, q);
            lemma_position(t, q);
        }
    }
    assert(slots_view(t) =~= slots_view(s).insert(idx, entry));
}

/// Inserting a slot at `p`, between lower writers and higher ones, inserts it.
proof fn lemma_insert(s: Seq<Slot>, p: int, slot: Slot)
    requires
        slots_sorted(s),
        0 <= p <= s.len(),
        forall|q: int| 0 <= q < p ==> s[q].0 < slot.0,
        forall|q: int| p <= q < s.len() ==> s[q].0 > slot.0,
    ensures
        slots_sorted(s.insert(p, slot)),
        slots_view(s.insert(p, slot)) == slots_view(s).insert(slot.0, slot.1),
{
    let t = s.insert(p, slot);
    assert(slots_sorted(t)) by {
        assert forall|a: int, b: int| 0 <= a < b < t.len() implies t[a].0 < t[b].0 by {
            let a0 = if a < p { a } else { a - 1 };
            let b0 = if b < p { b } else { b - 1 };
            if a != p && b != p {
                assert(s[a0].0 < s[b0].0);
            }
        }
    }
    assert forall|i: TxnIndex| #[trigger]
        slots_view(t).contains_key(i) == slots_view(s).insert(slot.0, slot.1).contains_key(i) && (
        slots_view(t).contains_key(i) ==> slots_view(t)[i] == slots_view(s).insert(
            slot.0,
            slot.1,
        )[i]) by {
        lemma_position(t, p);
        if slot_position(s, i) is Some {
            let q = slot_position(s, i).unwrap();
            lemma_position(s, q);
            if q < p {
                lemma_position(t, q);
            } else {
                lemma_position(t, q + 1);
            }
        }
        if slot_position(t, i) is Some {
            let q = slot_position(t, i).unwrap();
            lemma_position(t, q);
            if q < p {
                lemma_position(s, q);
            } else if q > p {
                lemma_position(s, q - 1);
            }
        }
    }
    assert(slots_view(t) =~= slots_view(s).insert(slot.0, slot.1));
}

/// Removing the slot at `p` removes its writer.
proof fn lemma_remove(s: Seq<Slot>, p: int)
    requires
        slots_sorted(s),
        0 <= p < s.len(),
    ensures
        slots_sorted(s.remove(p)),
        slots_view(s.remove(p)) == slots_view(s).remove(s[p].0),
{
    let idx = s[p].0;
    let t = s.remove(p);
    assert(slots_sorted(t)) by {
        assert forall|a: int, b: int| 0 <= a < b < t.len() implies t[a].0 < t[b].0 by {
            let a0 = if a < p { a } else { a + 1 };
            let b0 = if b < p { b } else { b + 1 };
            assert(s[a0].0 < s[b0].0);
        }
    }
    assert forall|i: TxnIndex| #[trigger]
        slots_view(t).contains_key(i) == slots_view(s).remove(idx).contains_key(i) && (
        slots_view(t).contains_key(i) ==> slots_view(t)[i] == slots_view(s).remove(idx)[i]) by {
        lemma_position(s, p);
        if slot_position(s, i) is Some {
            let q = slot_position(s, i).unwrap();
            lemma_position(s, q);
            if q < p {
                lemma_position(t, q);
            } else if q > p {
                lemma_position(t, q - 1);
            }
        }
        if slot_position(t, i) is Some {
            let q = slot_position(t, i).unwrap();
            lemma_position(t, q);
            if q < p {
                lemma_position(s, q);
            } else {
                lemma_position(s, q + 1);
            }
        }
    }
    assert(slots_view(t) =~= slots_view(s).remove(idx));
}

/// The writes to one key, kept in increasing order of the writer's index.
pub struct VersionedCell {
    slots: Vec<Slot>,
}

impl VersionedCell {
    pub closed spec fn wf(&self) -> bool {
        slots_sorted(self.slots@)
    }

    pub closed spec fn view(&self) -> CellView {
        slots_view(self.slots@)
    }

    pub fn new() -> (cell: Self)
        ensures
            cell.wf(),
            cell@ == CellView::empty(),
    {
        let cell = VersionedCell { slots: Vec::new() };
        assert(cell@ =~= CellView::empty());
        cell
    }

    pub fn is_empty(&self) -> (b: bool)
        requires
            self.wf(),
        ensures
            b == (self@ == CellView::empty()),
    {
        let b = self.slots.len() == 0;
        proof {
            if b {
                assert(self@ =~= CellView::empty());
            } else {
                lemma_position(self.slots@, 0);
            }
        }
        b
    }

    /// The number of slots whose writer is below `bound`.
    fn lower_bound(&self, bound: TxnIndex) -> (p: usize)
        requires
            self.wf(),
        ensures
            p <= self.slots@.len(),
            forall|q: int| 0 <= q < p ==> self.slots@[q].0 < bound,
            forall|q: int| p <= q < self.slots@.len() ==> self.slots@[q].0 >= bound,
    {
        let mut p: usize = self.slots.len();
        while p > 0 && self.slots[p - 1].0 >= bound
            invariant
                self.wf(),
                p <= self.slots@.len(),
                forall|q: int| p <= q < self.slots@.len() ==> self.slots@[q].0 >= bound,
            decreases p,
        {
            p = p - 1;
        }
        proof {
            if p > 0 {
                assert forall|q: int| 0 <= q < p implies self.slots@[q].0 < bound by {
                    if q < p - 1 {
                        assert(self.slots@[q].0 < self.slots@[p - 1].0);
                    }
                }
            }
        }
        p
    }

    /// Resolves a read by `reader`: the entry of the highest writer below it.
    pub fn read(&self, reader: TxnIndex) -> (r: ReadResult)
        requires
            self.wf(),
        ensures
            r == resolve_cell(self@, reader),
    {
        let p = self.lower_bound(reader);
        if p == 0 {
            proof {
                assert forall|j: TxnIndex| j < reader implies !self@.contains_key(j) by {
                    lemma_absent(self.slots@, j);
                }
                lemma_latest_below_none(self@, reader as int);
            }
            ReadResult::NotFound
        } else {
            let (w, entry) = self.slots[p - 1];
            proof {
                lemma_position(self.slots@, p - 1);
                assert forall|j: TxnIndex| w < j && j < reader implies !self@.contains_key(j) by {
                    assert forall|q: int| 0 <= q < self.slots@.len() implies self.slots@[q].0
                        != j by {
                        if q < p - 1 {
                            assert(self.slots@[q].0 < self.slots@[p - 1].0);
                        }
                    }
                    lemma_absent(self.slots@, j);
                }
                lemma_latest_below_is(self@, reader as int, w);
            }
            match entry.status {
                EntryStatus::Estimate => ReadResult::Dependency { blocking_idx: w },
                EntryStatus::Written => ReadResult::Found {
                    value: entry.value,
                    version: Version { txn_idx: w, incarnation: entry.incarnation },
                },
            }
        }
    }

    proof fn lemma_not_at(&self, p: int, idx: TxnIndex)
        requires
            self.wf(),
            0 <= p <= self.slots@.len(),
            forall|q: int| 0 <= q < p ==> self.slots@[q].0 < idx,
            forall|q: int| p <= q < self.slots@.len() ==> self.slots@[q].0 >= idx,
            p == self.slots@.len() || self.slots@[p].0 != idx,
        ensures
            !self@.contains_key(idx),
            forall|q: int| p <= q < self.slots@.len() ==> self.slots@[q].0 > idx,
    {
        assert forall|q: int| p <= q < self.slots@.len() implies self.slots@[q].0 > idx by {
            if p < q {
                assert(self.slots@[p].0 < self.slots@[q].0);
            }
        }
        lemma_absent(self.slots@, idx);
    }

    /// The entry of writer `idx`, if it has one.
    pub fn get(&self, idx: TxnIndex) -> (r: Option<VersionedEntry>)
        requires
            self.wf(),
        ensures
            r == (if self@.contains_key(idx) {
                Some(self@[idx])
            } else {
                None
            }),
    {
        let p = self.lower_bound(idx);
        if p < self.slots.len() && self.slots[p].0 == idx {
            proof {
                lemma_position(self.slots@, p as int);
            }
            Some(self.slots[p].1)
        } else {
            proof {
                self.lemma_not_at(p as int, idx);
            }
            None
        }
    }

    /// Sets the entry of writer `idx`, replacing the one it had.
    pub fn put(&mut self, idx: TxnIndex, entry: VersionedEntry)
        requires
            old(self).wf(),
        ensures
            final(self).wf(),
            final(self)@ == old(self)@.insert(idx, entry),
    {
        let p = self.lower_bound(idx);
        if p < self.slots.len() && self.slots[p].0 == idx {
            proof {
                lemma_update(self.slots@, p as int, entry);
            }
            self.slots.set(p, (idx, entry));
        } else {
            proof {
                self.lemma_not_at(p as int, idx);
                lemma_insert(self.slots@, p as int, (idx, entry));
            }
            self.slots.insert(p, (idx, entry));
        }
    }

    /// Drops the entry of writer `idx`, if it has one.
    pub fn remove(&mut self, idx: TxnIndex)
        requires
            old(self).wf(),
        ensures
            final(self).wf(),
            final(self)@ == old(self)@.remove(idx),
    {
        let p = self.lower_bound(idx);
        if p < self.slots.len() && self.slots[p].0 == idx {
            proof {
                lemma_remove(self.slots@, p as int);
            }
            self.slots.remove(p);
        } else {
            proof {
                self.lemma_not_at(p as int, idx);
                assert(self@ =~= self@.remove(idx));
            }
        }
    }

    /// Turns the entry of writer `idx`, if it has one, into an estimate.
    pub fn mark_estimate(&mut self, idx: TxnIndex)
        requires
            old(self).wf(),
        ensures
            final(self).wf(),
            final(self)@ == (if old(self)@.contains_key(idx) {
                old(self)@.insert(idx, as_estimate(old(self)@[idx]))
            } else {
                old(self)@
            }),
    {
        match self.get(idx) {
            Some(entry) => {
                self.put(
                    idx,
                    VersionedEntry {
                        incarnation: entry.incarnation,
                        value: entry.value,
                        status: EntryStatus::Estimate,
                    },
                );
            },
            None => {},
        }
    }

    /// Drops every estimate whose writer is below `bound`.
    pub fn remove_estimates_below(&mut self, bound: TxnIndex)
        requires
            old(self).wf(),
        ensures
            final(self).wf(),
            final(self)@ == old(self)@.remove_keys(
                Set::new(|i: TxnIndex| is_estimate_below(old(self)@, i, bound)),
            ),
    {
        let ghost all = self.slots@;
        let ghost gone = Set::new(|i: TxnIndex| is_estimate_below(slots_view(all), i, bound));
        let mut kept: Vec<Slot> = Vec::new();
        let mut p: usize = 0;
        proof {
            assert(slots_view(kept@) =~= slots_view(all.subrange(0, 0)).remove_keys(gone));
        }
        while p < self.slots.len()
            invariant
                self.slots@ == all,
                slots_sorted(all),
                gone == Set::new(|i: TxnIndex| is_estimate_below(slots_view(all), i, bound)),
                p <= all.len(),
                slots_sorted(kept@),
                slots_view(kept@) == slots_view(all.subrange(0, p as int)).remove_keys(gone),
                forall|a: int, q: int|
                    0 <= a < kept@.len() && p <= q < all.len() ==> kept@[a].0 < all[q].0,
            decreases all.len() - p,
        {
            let slot = self.slots[p];
            let drop = slot.0 < bound && match slot.1.status {
                EntryStatus::Estimate => true,
                EntryStatus::Written => false,
            };
            let ghost kept_before = kept@;
            proof {
                let pre = all.subrange(0, p as int);
                lemma_position(all, p as int);
                assert(all.subrange(0, p + 1) =~= pre.push(slot));
                assert(slots_sorted(pre));
                assert forall|q: int| 0 <= q < pre.len() implies pre[q].0 < slot.0 by {
                    assert(all[q].0 < all[p as int].0);
                }
                lemma_push(pre, slot);
            }
            if !drop {
                proof {
                    lemma_push(kept_before, slot);
                }
                kept.push(slot);
                proof {
                    assert(slots_view(kept@) =~= slots_view(all.subrange(0, p + 1)).remove_keys(
                        gone,
                    ));
                }
            } else {
                proof {
                    assert(slots_view(kept@) =~= slots_view(all.subrange(0, p + 1)).remove_keys(
                        gone,
                    ));
                }
            }
            proof {
                assert forall|a: int, q: int|
                    0 <= a < kept@.len() && p + 1 <= q < all.len() implies kept@[a].0
                    < all[q].0 by {
                    if a == kept_before.len() {
                        assert(all[p as int].0 < all[q].0);
                    }
                }
            }
            p = p + 1;
        }
        proof {
            assert(all.subrange(0, p as int) =~= all);
        }
        self.slots = kept;
    }
}

/// The entry with its status turned to `Estimate`.
pub open spec fn as_estimate(entry: VersionedEntry) -> VersionedEntry {
    VersionedEntry {
        incarnation: entry.incarnation,
        value: entry.value,
        status: EntryStatus::Estimate,
    }
}

/// Writer `i` has an estimate in `cell` and is below `bound`.
pub open spec fn is_estimate_below(cell: CellView, i: TxnIndex, bound: TxnIndex) -> bool {
    cell.contains_key(i) && i < bound && cell[i].status == EntryStatus::Estimate
}


/// The entry that a finished incarnation leaves.
pub open spec fn written_entry(incarnation: Incarnation, value: StateValue) -> VersionedEntry {
    VersionedEntry { incarnation, value, status: EntryStatus::Written }
}

/// The store in which writer `idx`'s entries under `keys` are estimates.
pub open spec fn with_estimates(store: StoreView, keys: Seq<StateKey>, idx: TxnIndex) -> StoreView {
    Map::new(
        |p: (StateKey, TxnIndex)| store.contains_key(p),
        |p: (StateKey, TxnIndex)|
            if p.1 == idx && keys.contains(p.0) {
                as_estimate(store[p])
            } else {
                store[p]
            },
    )
}

/// The store without writer `idx`'s entries under `keys`.
pub open spec fn without_writes(store: StoreView, keys: Seq<StateKey>, idx: TxnIndex) -> StoreView {
    store.remove_keys(Set::new(|p: (StateKey, TxnIndex)| p.1 == idx && keys.contains(p.0)))
}

/// The store without the estimates of writers below `bound`.
pub open spec fn without_estimates_below(store: StoreView, bound: TxnIndex) -> StoreView {
    store.remove_keys(
        Set::new(
            |p: (StateKey, TxnIndex)|
                store.contains_key(p) && p.1 < bound && store[p].status == EntryStatus::Estimate,
        ),
    )
}

spec fn cells_wf(cells: Map<StateKey, VersionedCell>) -> bool {
    forall|k: StateKey| cells.contains_key(k) ==> (#[trigger] cells[k]).wf()
}

spec fn cells_view(cells: Map<StateKey, VersionedCell>) -> StoreView {
    Map::new(
        |p: (StateKey, TxnIndex)| cells.contains_key(p.0) && cells[p.0]@.contains_key(p.1),
        |p: (StateKey, TxnIndex)| cells[p.0]@[p.1],
    )
}

proof fn lemma_cell_of(cells: Map<StateKey, VersionedCell>, key: StateKey)
    ensures
        cell_of(cells_view(cells), key) == (if cells.contains_key(key) {
            cells[key]@
        } else {
            CellView::empty()
        }),
{
    let c = cell_of(cells_view(cells), key);
    if cells.contains_key(key) {
        assert(c =~= cells[key]@);
    } else {
        assert(c =~= CellView::empty());
    }
}

/// The multi-version store of one block.
pub struct VersionedData {
    cells: HashMap<StateKey, VersionedCell>,
    /// Every key that has a cell, in the order of its first write.
    keys: Vec<StateKey>,
}

impl VersionedData {
    pub closed spec fn wf(&self) -> bool {
        &&& cells_wf(self.cells@)
        &&& forall|k: StateKey| self.cells@.contains_key(k) <==> self.keys@.contains(k)
    }

    pub closed spec fn view(&self) -> StoreView {
        cells_view(self.cells@)
    }

    /// An empty store.
    pub fn new() -> (store: Self)
        ensures
            store.wf(),
            store@ == StoreView::empty(),
    {
        let store = VersionedData { cells: HashMap::new(), keys: Vec::new() };
        assert(store@ =~= StoreView::empty());
        store
    }

    /// Resolves the read of `key` by the transaction at `reader`: the value of
    /// the highest writer below it, the writer that blocks it, or nothing.
    pub fn read(&self, key: StateKey, reader: TxnIndex) -> (r: ReadResult)
        requires
            self.wf(),
        ensures
            r == resolve(self@, key, reader),
    {
        broadcast use vstd::std_specs::hash::group_hash_axioms;

        proof {
            lemma_cell_of(self.cells@, key);
        }
        match self.cells.get(&key) {
            Some(cell) => cell.read(reader),
            None => {
                proof {
                    lemma_latest_below_none(CellView::empty(), reader as int);
                }
                ReadResult::NotFound
            },
        }
    }

    /// The entry of writer `idx` under `key`, if there is one.
    pub fn get(&self, key: StateKey, idx: TxnIndex) -> (r: Option<VersionedEntry>)
        requires
            self.wf(),
        ensures
            r == (if self@.contains_key((key, idx)) {
                Some(self@[(key, idx)])
            } else {
                None
            }),
    {
        broadcast use vstd::std_specs::hash::group_hash_axioms;

        match self.cells.get(&key) {
            Some(cell) => cell.get(idx),
            None => None,
        }
    }

    /// Takes the cell of `key` out of the map, or makes an empty one.
    fn take_cell(&mut self, key: StateKey) -> (cell: VersionedCell)
        requires
            old(self).wf(),
        ensures
            cell.wf(),
            cell@ == cell_of(old(self)@, key),
            final(self).cells@ == old(self).cells@.remove(key),
            cells_wf(final(self).cells@),
            forall|k: StateKey|
                (k == key || final(self).cells@.contains_key(k)) <==> final(self).keys@.contains(k),
            old(self).cells@.contains_key(key) ==> final(self).keys@ == old(self).keys@,
    {
        broadcast use vstd::std_specs::hash::group_hash_axioms;

        proof {
            lemma_cell_of(self.cells@, key);
        }
        match self.cells.remove(&key) {
            Some(cell) => {
                proof {
                    assert(self.cells@ == old(self).cells@.remove(key));
                    assert(old(self).cells@.contains_key(key));
                    assert(old(self).keys@.contains(key));
                    assert forall|k: StateKey|
                        (k == key || self.cells@.contains_key(k)) <==> self.keys@.contains(
                            k,
                        ) by {
                        assert(old(self).cells@.contains_key(k) <==> old(self).keys@.contains(k));
                    }
                }
                cell
            },
            None => {
                let ghost before = self.keys@;
                self.keys.push(key);
                proof {
                    assert forall|k: StateKey| before.push(key).contains(k) <==> (k == key
                        || before.contains(k)) by {
                        if before.contains(k) {
                            let i = choose|i: int| 0 <= i < before.len() && before[i] == k;
                            assert(before.push(key)[i] == k);
                        }
                        if k == key {
                            assert(before.push(key)[before.len() as int] == k);
                        }
                    }
                    assert(self.cells@ =~= old(self).cells@.remove(key));
                    assert forall|k: StateKey|
                        (k == key || self.cells@.contains_key(k)) <==> self.keys@.contains(
                            k,
                        ) by {
                        assert(old(self).cells@.contains_key(k) <==> before.contains(k));
                    }
                }
                VersionedCell::new()
            },
        }
    }

    /// Puts the cell of `key` back.
    fn put_cell(&mut self, key: StateKey, cell: VersionedCell)
        requires
            cells_wf(old(self).cells@),
            cell.wf(),
            forall|k: StateKey|
                (k == key || old(self).cells@.contains_key(k)) <==> old(self).keys@.contains(k),
        ensures
            final(self).wf(),
            final(self).keys@ == old(self).keys@,
            final(self).cells@ == old(self).cells@.insert(key, cell),
            forall|p: (StateKey, TxnIndex)|
                #![trigger final(self)@.contains_key(p)]
                #![trigger final(self)@[p]]
                {
                    &&& final(self)@.contains_key(p) == (if p.0 == key {
                        cell@.contains_key(p.1)
                    } else {
                        cells_view(old(self).cells@).contains_key(p)
                    })
                    &&& final(self)@.contains_key(p) ==> final(self)@[p] == (if p.0 == key {
                        cell@[p.1]
                    } else {
                        cells_view(old(self).cells@)[p]
                    })
                },
    {
        broadcast use vstd::std_specs::hash::group_hash_axioms;

        self.cells.insert(key, cell);
    }

    /// Records that incarnation `incarnation` of the transaction at `idx`
    /// wrote `value` under `key`, over whatever that transaction had there.
    pub fn record_write(
        &mut self,
        key: StateKey,
        idx: TxnIndex,
        incarnation: Incarnation,
        value: StateValue,
    )
        requires
            old(self).wf(),
        ensures
            final(self).wf(),
            final(self)@ == old(self)@.insert((key, idx), written_entry(incarnation, value)),
    {
        let mut cell = self.take_cell(key);
        cell.put(idx, VersionedEntry { incarnation, value, status: EntryStatus::Written });
        proof {
            assert(cells_view(self.cells@) =~= old(self)@.remove_keys(
                Set::new(|p: (StateKey, TxnIndex)| p.0 == key),
            ));
        }
        self.put_cell(key, cell);
        proof {
            assert(self@ =~= old(self)@.insert((key, idx), written_entry(incarnation, value)));
        }
    }

    /// Drops the entry of the transaction at `idx` under `key`.
    pub fn remove(&mut self, key: StateKey, idx: TxnIndex)
        requires
            old(self).wf(),
        ensures
            final(self).wf(),
            final(self)@ == old(self)@.remove((key, idx)),
    {
        let mut cell = self.take_cell(key);
        cell.remove(idx);
        proof {
            assert(cells_view(self.cells@) =~= old(self)@.remove_keys(
                Set::new(|p: (StateKey, TxnIndex)| p.0 == key),
            ));
        }
        self.put_cell(key, cell);
        proof {
            assert(self@ =~= old(self)@.remove((key, idx)));
        }
    }

    /// Turns the entry of the transaction at `idx` under `key` into an estimate.
    fn mark_one_estimate(&mut self, key: StateKey, idx: TxnIndex)
        requires
            old(self).wf(),
        ensures
            final(self).wf(),
            final(self)@ == with_estimates(old(self)@, seq![key], idx),
    {
        let mut cell = self.take_cell(key);
        cell.mark_estimate(idx);
        proof {
            assert(cells_view(self.cells@) =~= old(self)@.remove_keys(
                Set::new(|p: (StateKey, TxnIndex)| p.0 == key),
            ));
        }
        self.put_cell(key, cell);
        proof {
            assert(seq![key].contains(key)) by {
                assert(seq![key][0] == key);
            }
            assert(self@ =~= with_estimates(old(self)@, seq![key], idx));
        }
    }

    /// Turns the entries of the transaction at `idx` under `keys` into
    /// estimates, so that higher readers wait for its next incarnation.
    pub fn mark_estimate(&mut self, keys: &Vec<StateKey>, idx: TxnIndex)
        requires
            old(self).wf(),
        ensures
            final(self).wf(),
            final(self)@ == with_estimates(old(self)@, keys@, idx),
    {
        let mut i: usize = 0;
        proof {
            assert(self@ =~= with_estimates(old(self)@, keys@.subrange(0, 0), idx));
        }
        while i < keys.len()
            invariant
                self.wf(),
                i <= keys@.len(),
                self@ == with_estimates(old(self)@, keys@.subrange(0, i as int), idx),
            decreases keys@.len() - i,
        {
            let ghost mid = self@;
            self.mark_one_estimate(keys[i], idx);
            proof {
                let pre = keys@.subrange(0, i as int);
                let next = keys@.subrange(0, i + 1);
                assert(next =~= pre.push(keys@[i as int]));
                assert forall|k: StateKey| next.contains(k) <==> (pre.contains(k) || k
                    == keys@[i as int]) by {
                    if pre.contains(k) {
                        let j = choose|j: int| 0 <= j < pre.len() && pre[j] == k;
                        assert(next[j] == k);
                    }
                    if k == keys@[i as int] {
                        assert(next[i as int] == k);
                    }
                }
                assert(seq![keys@[i as int]].contains(keys@[i as int])) by {
                    assert(seq![keys@[i as int]][0] == keys@[i as int]);
                }
                assert(self@ =~= with_estimates(old(self)@, next, idx));
            }
            i = i + 1;
        }
        proof {
            assert(keys@.subrange(0, i as int) =~= keys@);
        }
    }

    /// Drops the entries of the transaction at `idx` under `keys`.
    pub fn remove_writes(&mut self, keys: &Vec<StateKey>, idx: TxnIndex)
        requires
            old(self).wf(),
        ensures
            final(self).wf(),
            final(self)@ == without_writes(old(self)@, keys@, idx),
    {
        let mut i: usize = 0;
        proof {
            assert(self@ =~= without_writes(old(self)@, keys@.subrange(0, 0), idx));
        }
        while i < keys.len()
            invariant
                self.wf(),
                i <= keys@.len(),
                self@ == without_writes(old(self)@, keys@.subrange(0, i as int), idx),
            decreases keys@.len() - i,
        {
            self.remove(keys[i], idx);
            proof {
                let pre = keys@.subrange(0, i as int);
                let next = keys@.subrange(0, i + 1);
                assert(next =~= pre.push(keys@[i as int]));
                assert forall|k: StateKey| next.contains(k) <==> (pre.contains(k) || k
                    == keys@[i as int]) by {
                    if pre.contains(k) {
                        let j = choose|j: int| 0 <= j < pre.len() && pre[j] == k;
                        assert(next[j] == k);
                    }
                    if k == keys@[i as int] {
                        assert(next[i as int] == k);
                    }
                }
                assert(self@ =~= without_writes(old(self)@, next, idx));
            }
            i = i + 1;
        }
        proof {
            assert(keys@.subrange(0, i as int) =~= keys@);
        }
    }

    /// Drops every estimate left by a transaction below `bound`.
    pub fn remove_estimates_below(&mut self, bound: TxnIndex)
        requires
            old(self).wf(),
        ensures
            final(self).wf(),
            final(self)@ == without_estimates_below(old(self)@, bound),
    {
        let mut i: usize = 0;
        let n = self.keys.len();
        let ghost all_keys = self.keys@;
        while i < n
            invariant
                self.wf(),
                self.keys@ == all_keys,
                old(self).keys@ == all_keys,
                old(self).wf(),
                n == all_keys.len(),
                i <= n,
                forall|p: (StateKey, TxnIndex)|
                    #![trigger self@.contains_key(p)]
                    #![trigger self@[p]]
                    {
                        &&& self@.contains_key(p) == (if all_keys.subrange(0, i as int).contains(
                            p.0,
                        ) {
                            without_estimates_below(old(self)@, bound).contains_key(p)
                        } else {
                            old(self)@.contains_key(p)
                        })
                        &&& self@.contains_key(p) ==> self@[p] == old(self)@[p]
                    },
            decreases n - i,
        {
            let key = self.keys[i];
            let ghost mid = *self;
            let mut cell = self.take_cell(key);
            cell.remove_estimates_below(bound);
            proof {
                assert(all_keys.contains(key));
                assert(self.keys@ == all_keys);
                assert(cells_view(self.cells@) =~= mid@.remove_keys(
                    Set::new(|p: (StateKey, TxnIndex)| p.0 == key),
                ));
            }
            self.put_cell(key, cell);
            proof {
                let pre = all_keys.subrange(0, i as int);
                let next = all_keys.subrange(0, i + 1);
                assert(next =~= pre.push(key));
                assert forall|k: StateKey| next.contains(k) <==> (pre.contains(k) || k
                    == key) by {
                    if pre.contains(k) {
                        let j = choose|j: int| 0 <= j < pre.len() && pre[j] == k;
                        assert(next[j] == k);
                    }
                    if k == key {
                        assert(next[i as int] == k);
                    }
                }
                assert forall|p: (StateKey, TxnIndex)|
                    #![trigger self@.contains_key(p)]
                    #![trigger self@[p]]
                    {
                        &&& self@.contains_key(p) == (if next.contains(p.0) {
                            without_estimates_below(old(self)@, bound).contains_key(p)
                        } else {
                            old(self)@.contains_key(p)
                        })
                        &&& self@.contains_key(p) ==> self@[p] == old(self)@[p]
                    } by {
                    if p.0 == key {
                        assert(mid@.contains_key(p) ==> mid@[p] == old(self)@[p]);
                        if pre.contains(key) {
                        } else {
                        }
                    } else {
                        assert(mid@.contains_key(p) == self@.contains_key(p));
                    }
                }
            }
            i = i + 1;
        }
        proof {
            assert(all_keys.subrange(0, i as int) =~= all_keys);
            assert forall|p: (StateKey, TxnIndex)| old(self)@.contains_key(p) implies all_keys.contains(
                p.0,
            ) by {}
            assert(self@ =~= without_estimates_below(old(self)@, bound));
        }
    }
}

} // verus!
