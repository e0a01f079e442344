//! The view that one transaction has of the state while it runs
//! speculatively: for every key, what the highest writer below it left in the
//! multi-version store, and the base snapshot where no such writer exists.
//! Every read through this view leaves a descriptor of what it observed,
//! which validation later checks.

use vstd::prelude::*;
use crate::types::{TxnIndex, StateKey, StateValue, Version};
use crate::versioned_data::{ReadResult, StoreView, VersionedData, resolve};
use crate::task::{ReadRecord, State, lookup};

verus! {

/// Where the value of a read came from.
#[derive(Clone, Copy, Debug, PartialEq, Eq, Structural)]
pub enum ReadKind {
    /// From the write of a lower transaction of the block.
    Versioned(Version),
    /// From the base snapshot: no lower transaction had written the key.
    Base,
    /// From nowhere: neither a lower transaction nor the snapshot had the key.
    NotFound,
}

/// What one read of one execution observed.
#[derive(Clone, Copy, Debug, PartialEq, Eq, Structural)]
pub struct ReadDescriptor {
    pub key: StateKey,
    pub kind: ReadKind,
    pub value: Option<StateValue>,
}

/// What the transaction at `reader` finds under `key`, where no estimate
/// stands in the way.
pub open spec fn speculative_lookup(
    store: StoreView,
    base: State,
    key: StateKey,
    reader: TxnIndex,
) -> Option<StateValue> {
    match resolve(store, key, reader) {
        ReadResult::Found { value, version } => Some(value),
        _ => lookup(base, key),
    }
}

/// The state that the transaction at `reader` sees.
pub open spec fn speculative_view(store: StoreView, base: State, reader: TxnIndex) -> State {
    Map::new(
        |key: StateKey| speculative_lookup(store, base, key, reader) is Some,
        |key: StateKey| speculative_lookup(store, base, key, reader).unwrap(),
    )
}

/// The descriptor of a read of `key` by `reader` that no estimate blocks.
pub open spec fn describe(store: StoreView, base: State, key: StateKey, reader: TxnIndex) -> ReadDescriptor {
    match resolve(store, key, reader) {
        ReadResult::Found { value, version } => ReadDescriptor {
            key,
            kind: ReadKind::Versioned(version),
            value: Some(value),
        },
        _ => ReadDescriptor {
            key,
            kind: if lookup(base, key) is Some {
                ReadKind::Base
            } else {
                ReadKind::NotFound
            },
            value: lookup(base, key),
        },
    }
}

/// The lower transaction whose estimate blocks the first blocked read of
/// the trace, if one is blocked.
pub open spec fn first_blocked(store: StoreView, reader: TxnIndex, reads: Seq<ReadRecord>) -> Option<
    TxnIndex,
>
    decreases reads.len(),
{
    if reads.len() == 0 {
        None
    } else {
        match resolve(store, reads[0].0, reader) {
            ReadResult::Dependency { blocking_idx } => Some(blocking_idx),
            _ => first_blocked(store, reader, reads.subrange(1, reads.len() as int)),
        }
    }
}

/// The descriptors list what the trace read, each with its origin in the
/// store.
pub open spec fn describes(
    descriptors: Seq<ReadDescriptor>,
    reads: Seq<ReadRecord>,
    store: StoreView,
    base: State,
    reader: TxnIndex,
) -> bool {
    &&& descriptors.len() == reads.len()
    &&& forall|i: int|
        0 <= i < reads.len() ==> #[trigger] descriptors[i] == describe(
            store,
            base,
            reads[i].0,
            reader,
        )
}

/// The read still resolves as it did: to the same writer and incarnation, or
/// to no writer of the block.
pub open spec fn descriptor_valid(store: StoreView, reader: TxnIndex, d: ReadDescriptor) -> bool {
    match d.kind {
        ReadKind::Versioned(v) => match resolve(store, d.key, reader) {
            ReadResult::Found { value, version } => version == v,
            _ => false,
        },
        _ => resolve(store, d.key, reader) is NotFound,
    }
}

/// Every read still resolves as it did.
pub open spec fn reads_valid(store: StoreView, reader: TxnIndex, reads: Seq<ReadDescriptor>) -> bool {
    forall|i: int| 0 <= i < reads.len() ==> descriptor_valid(store, reader, #[trigger] reads[i])
}

pub proof fn lemma_first_blocked_none(store: StoreView, reader: TxnIndex, reads: Seq<ReadRecord>)
    requires
        forall|i: int| 0 <= i < reads.len() ==> !(resolve(store, (#[trigger] reads[i]).0, reader)
            is Dependency),
    ensures
        first_blocked(store, reader, reads) is None,
    decreases reads.len(),
{
    if reads.len() > 0 {
        let rest = reads.subrange(1, reads.len() as int);
        assert forall|i: int| 0 <= i < rest.len() implies !(resolve(
            store,
            (#[trigger] rest[i]).0,
            reader,
        ) is Dependency) by {
            assert(rest[i] == reads[i + 1]);
        }
        assert(!(resolve(store, reads[0].0, reader) is Dependency));
        lemma_first_blocked_none(store, reader, rest);
    }
}

pub proof fn lemma_first_blocked_at(
    store: StoreView,
    reader: TxnIndex,
    reads: Seq<ReadRecord>,
    at: int,
    blocking_idx: TxnIndex,
)
    requires
        0 <= at < reads.len(),
        forall|i: int| 0 <= i < at ==> !(resolve(store, (#[trigger] reads[i]).0, reader)
            is Dependency),
        resolve(store, reads[at].0, reader) == (ReadResult::Dependency { blocking_idx }),
    ensures
        first_blocked(store, reader, reads) == Some(blocking_idx),
    decreases at,
{
    if at > 0 {
        let rest = reads.subrange(1, reads.len() as int);
        assert forall|i: int| 0 <= i < at - 1 implies !(resolve(
            store,
            (#[trigger] rest[i]).0,
            reader,
        ) is Dependency) by {
            assert(rest[i] == reads[i + 1]);
        }
        assert(rest[at - 1] == reads[at]);
        assert(!(resolve(store, reads[0].0, reader) is Dependency));
        lemma_first_blocked_at(store, reader, rest, at - 1, blocking_idx);
    }
}

/// Checks the reads of the transaction at `reader` against the store: whether
/// each still resolves to the writer and incarnation that it observed.
pub fn check_reads(store: &VersionedData, reader: TxnIndex, reads: &Vec<ReadDescriptor>) -> (valid:
    bool)
    requires
        store.wf(),
    ensures
        valid == reads_valid(store@, reader, reads@),
{
    let mut i: usize = 0;
    while i < reads.len()
        invariant
            store.wf(),
            i <= reads@.len(),
            forall|j: int| 0 <= j < i ==> descriptor_valid(store@, reader, #[trigger] reads@[j]),
        decreases reads@.len() - i,
    {
        let d = reads[i];
        let now = store.read(d.key, reader);
        let same = match d.kind {
            ReadKind::Versioned(v) => match now {
                ReadResult::Found { value, version } => version.txn_idx == v.txn_idx
                    && version.incarnation == v.incarnation,
                _ => false,
            },
            _ => match now {
                ReadResult::NotFound => true,
                _ => false,
            },
        };
        if !same {
            assert(!descriptor_valid(store@, reader, reads@[i as int]));
            return false;
        }
        i = i + 1;
    }
    true
}

} // verus!
