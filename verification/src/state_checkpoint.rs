//! What follows the execution of a block or chunk: the versions of its
//! transactions, the checks on where its state checkpoints stand, the hashes
//! of those checkpoints, and how its writes change the usage of the state
//! storage.

use crate::session_id::HashValue;
use crate::task::{TransactionOutput, TransactionStatus};
use vstd::prelude::*;

verus! {

/// The place of a transaction in the ledger.
pub type Version = u64;

/// How much the state storage holds.
#[derive(Clone, Copy, Debug, PartialEq, Eq, Structural)]
pub enum StateStorageUsage {
    Counted { items: usize, bytes: usize },
    Untracked,
}

impl StateStorageUsage {
    /// Usage that is not tracked.
    pub fn new_untracked() -> (usage: Self)
        ensures
            usage == StateStorageUsage::Untracked,
    {
        StateStorageUsage::Untracked
    }

    /// Whether the usage is not tracked.
    pub fn is_untracked(&self) -> (untracked: bool)
        ensures
            untracked == (*self is Untracked),
    {
        match self {
            StateStorageUsage::Untracked => true,
            StateStorageUsage::Counted { .. } => false,
        }
    }

    /// The number of items; none where the usage is not tracked.
    pub open spec fn spec_items(&self) -> usize {
        match *self {
            StateStorageUsage::Counted { items, .. } => items,
            StateStorageUsage::Untracked => 0,
        }
    }

    /// The number of bytes; none where the usage is not tracked.
    pub open spec fn spec_bytes(&self) -> usize {
        match *self {
            StateStorageUsage::Counted { bytes, .. } => bytes,
            StateStorageUsage::Untracked => 0,
        }
    }

    /// The number of items; none where the usage is not tracked.
    pub fn items(&self) -> (items: usize)
        ensures
            items == self.spec_items(),
    {
        match self {
            StateStorageUsage::Counted { items, .. } => *items,
            StateStorageUsage::Untracked => 0,
        }
    }

    /// The number of bytes; none where the usage is not tracked.
    pub fn bytes(&self) -> (bytes: usize)
        ensures
            bytes == self.spec_bytes(),
    {
        match self {
            StateStorageUsage::Counted { bytes, .. } => *bytes,
            StateStorageUsage::Untracked => 0,
        }
    }
}

/// One key that a block wrote, as far as the usage goes: the size of the
/// key, the size of the value written, where one was written and the key
/// not deleted, and the size of the value that the key held before, where
/// it held one.
#[derive(Clone, Copy, Debug, PartialEq, Eq, Structural)]
pub struct UsageUpdate {
    pub key_size: usize,
    pub value_size: Option<usize>,
    pub cached_value_size: Option<usize>,
}

/// By how many items the update changes the usage.
pub open spec fn items_delta_of(update: UsageUpdate) -> int {
    (if update.value_size is Some {
        1int
    } else {
        0int
    }) - (if update.cached_value_size is Some {
        1int
    } else {
        0int
    })
}

/// The bytes that the update adds.
pub open spec fn bytes_added_by(update: UsageUpdate) -> int {
    match update.value_size {
        Some(size) => update.key_size + size,
        None => 0,
    }
}

/// The bytes that the update frees.
pub open spec fn bytes_freed_by(update: UsageUpdate) -> int {
    match update.cached_value_size {
        Some(size) => update.key_size + size,
        None => 0,
    }
}

/// By how many bytes the update changes the usage.
pub open spec fn bytes_delta_of(update: UsageUpdate) -> int {
    bytes_added_by(update) - bytes_freed_by(update)
}

/// By how many items the updates change the usage.
pub open spec fn items_delta(updates: Seq<UsageUpdate>) -> int
    decreases updates.len(),
{
    if updates.len() == 0 {
        0
    } else {
        items_delta(updates.drop_last()) + items_delta_of(updates.last())
    }
}

/// By how many bytes the updates change the usage.
pub open spec fn bytes_delta(updates: Seq<UsageUpdate>) -> int
    decreases updates.len(),
{
    if updates.len() == 0 {
        0
    } else {
        bytes_delta(updates.drop_last()) + bytes_delta_of(updates.last())
    }
}

/// The bytes that the updates add and free, taken together.
pub open spec fn bytes_moved(updates: Seq<UsageUpdate>) -> int
    decreases updates.len(),
{
    if updates.len() == 0 {
        0
    } else {
        bytes_moved(updates.drop_last()) + bytes_added_by(updates.last()) + bytes_freed_by(
            updates.last(),
        )
    }
}

/// The changes of the first updates stay within what all of them move.
pub proof fn lemma_deltas_bounded(updates: Seq<UsageUpdate>, n: int)
    requires
        0 <= n <= updates.len(),
    ensures
        -n <= items_delta(updates.subrange(0, n)) <= n,
        0 <= bytes_moved(updates.subrange(0, n)) <= bytes_moved(updates),
        -bytes_moved(updates.subrange(0, n)) <= bytes_delta(updates.subrange(0, n)) <= bytes_moved(
            updates.subrange(0, n),
        ),
    decreases updates.len() + n,
{
    let first = updates.subrange(0, n);
    if n > 0 {
        lemma_deltas_bounded(updates, n - 1);
        assert(first.drop_last() =~= updates.subrange(0, n - 1));
        assert(first.last() == updates[n - 1]);
    }
    if n < updates.len() {
        lemma_moved_grows(updates, n);
    } else {
        assert(first =~= updates);
    }
}

/// The first updates move no more than all of them.
pub proof fn lemma_moved_grows(updates: Seq<UsageUpdate>, n: int)
    requires
        0 <= n <= updates.len(),
    ensures
        bytes_moved(updates.subrange(0, n)) <= bytes_moved(updates),
    decreases updates.len() - n,
{
    if n == updates.len() {
        assert(updates.subrange(0, n) =~= updates);
    } else {
        lemma_moved_grows(updates, n + 1);
        let next = updates.subrange(0, n + 1);
        assert(next.drop_last() =~= updates.subrange(0, n));
        assert(next.last() == updates[n]);
    }
}

/// Why the state after a block or chunk cannot be made.
#[derive(Clone, Copy, Debug, PartialEq, Eq, Structural)]
pub enum CheckpointError {
    /// The block holds no transaction.
    EmptyBlock,
    /// The state that the block starts from is no checkpoint.
    BaseNotCheckpoint,
    /// The state that the block starts from is a checkpoint and yet holds
    /// updates since it.
    BaseCorrupted,
    /// In a block the last transaction, and no other, makes a checkpoint:
    /// the transaction at `index` breaks this.
    CheckpointMisplaced { index: usize },
    /// The block does not end in a checkpoint.
    NoCheckpointAtEnd,
    /// There are not as many known hashes as transactions.
    BadNumberOfKnownHashes,
    /// The hash known for the last checkpoint is not the one that was
    /// computed.
    LastCheckpointNotExpected,
}

/// Whether the transaction at `index` makes a checkpoint without being the
/// last, or is the last and makes none.
pub open spec fn misplaced(need_checkpoint: Seq<bool>, index: int) -> bool {
    need_checkpoint[index] == (index != need_checkpoint.len() - 1)
}

/// The first transaction from `from` on that is misplaced; the number of
/// transactions where there is none.
pub open spec fn first_misplaced_from(need_checkpoint: Seq<bool>, from: int) -> int
    decreases need_checkpoint.len() - from,
{
    if from >= need_checkpoint.len() {
        need_checkpoint.len() as int
    } else if misplaced(need_checkpoint, from) {
        from
    } else {
        first_misplaced_from(need_checkpoint, from + 1)
    }
}

/// The first transaction that is misplaced; the number of transactions
/// where there is none.
pub open spec fn first_misplaced(need_checkpoint: Seq<bool>) -> int {
    first_misplaced_from(need_checkpoint, 0)
}

/// What the check of a block's input gives.
pub open spec fn spec_validate_input_for_block(
    base_version: Option<Version>,
    current_version: Option<Version>,
    updates_since_base: nat,
    need_checkpoint: Seq<bool>,
) -> Result<(), CheckpointError> {
    if need_checkpoint.len() == 0 {
        Err(CheckpointError::EmptyBlock)
    } else if base_version != current_version {
        Err(CheckpointError::BaseNotCheckpoint)
    } else if updates_since_base != 0 {
        Err(CheckpointError::BaseCorrupted)
    } else if first_misplaced(need_checkpoint) < need_checkpoint.len() {
        Err(CheckpointError::CheckpointMisplaced { index: first_misplaced(need_checkpoint) as usize })
    } else {
        Ok(())
    }
}

/// The versions of the state after a block or chunk.
#[derive(Clone, Copy, Debug, PartialEq, Eq, Structural)]
pub struct ResultVersions {
    /// The version of the first transaction.
    pub first_version: Version,
    /// The version of the latest checkpoint.
    pub latest_checkpoint_version: Option<Version>,
    /// The version of the last transaction.
    pub current_version: Version,
    /// Whether the state at the end is that of the latest checkpoint, and
    /// need not be computed apart from it.
    pub ends_in_checkpoint: bool,
}

/// The versions of the state after `num_txns` transactions on a state whose
/// checkpoint is at `parent_base_version` and whose last transaction is at
/// `parent_current_version`; the last checkpoint among the transactions is
/// at `last_checkpoint_index`. A block must end in a checkpoint.
pub open spec fn spec_result_versions(
    num_txns: usize,
    parent_base_version: Option<Version>,
    parent_current_version: Option<Version>,
    last_checkpoint_index: Option<usize>,
    is_block: bool,
) -> Result<ResultVersions, CheckpointError> {
    let first_version = match parent_current_version {
        Some(v) => v + 1,
        None => 0,
    };
    let ends_in_checkpoint = last_checkpoint_index == Some((num_txns - 1) as usize);
    if !ends_in_checkpoint && is_block {
        Err(CheckpointError::NoCheckpointAtEnd)
    } else {
        Ok(
            ResultVersions {
                first_version: first_version as Version,
                latest_checkpoint_version: match last_checkpoint_index {
                    Some(index) => Some((first_version + index) as Version),
                    None => parent_base_version,
                },
                current_version: (first_version + num_txns - 1) as Version,
                ends_in_checkpoint,
            },
        )
    }
}

/// The hashes of the state checkpoints of `num_txns` transactions, one
/// place for each: the known ones, or none where none are known, with the
/// hash of the last checkpoint in its place.
pub open spec fn spec_state_checkpoint_hashes(
    num_txns: usize,
    last_checkpoint: Option<(usize, HashValue)>,
    known_state_checkpoints: Option<Seq<Option<HashValue>>>,
) -> Result<Seq<Option<HashValue>>, CheckpointError> {
    let hashes = match known_state_checkpoints {
        Some(known) => known,
        None => Seq::new(num_txns as nat, |i: int| None::<HashValue>),
    };
    if hashes.len() != num_txns {
        Err(CheckpointError::BadNumberOfKnownHashes)
    } else {
        match last_checkpoint {
            None => Ok(hashes),
            Some((index, root_hash)) => match hashes[index as int] {
                Some(h) => if h == root_hash {
                    Ok(hashes)
                } else {
                    Err(CheckpointError::LastCheckpointNotExpected)
                },
                None => Ok(hashes.update(index as int, Some(root_hash))),
            },
        }
    }
}

/// Whether two hashes are the same.
fn same_hash(a: &HashValue, b: &HashValue) -> (same: bool)
    ensures
        same == (*a == *b),
{
    let mut i: usize = 0;
    while i < 32
        invariant
            i <= 32,
            forall|k: int| 0 <= k < i ==> a@[k] == b@[k],
        decreases 32 - i,
    {
        if a[i] != b[i] {
            return false;
        }
        i = i + 1;
    }
    proof {
        assert(a@ =~= b@);
        vstd::array::axiom_array_ext_equal(*a, *b);
    }
    true
}

/// Computes the state after the transactions of a block or chunk.
pub struct InMemoryStateCalculatorV2 {}

impl InMemoryStateCalculatorV2 {
    /// Checks the input of a block: it holds a transaction; the state it
    /// starts from is a checkpoint, with no updates since; and its last
    /// transaction, and no other, makes a checkpoint.
    pub fn validate_input_for_block(
        base_version: Option<Version>,
        current_version: Option<Version>,
        updates_since_base: usize,
        need_checkpoint: &Vec<bool>,
    ) -> (checked: Result<(), CheckpointError>)
        ensures
            checked == spec_validate_input_for_block(
                base_version,
                current_version,
                updates_since_base as nat,
                need_checkpoint@,
            ),
    {
        let num_txns = need_checkpoint.len();
        if num_txns == 0 {
            return Err(CheckpointError::EmptyBlock);
        }
        if base_version != current_version {
            return Err(CheckpointError::BaseNotCheckpoint);
        }
        if updates_since_base != 0 {
            return Err(CheckpointError::BaseCorrupted);
        }
        let mut i: usize = 0;
        while i < num_txns
            invariant
                i <= num_txns,
                num_txns == need_checkpoint@.len(),
                base_version == current_version,
                updates_since_base == 0,
                first_misplaced(need_checkpoint@) == first_misplaced_from(
                    need_checkpoint@,
                    i as int,
                ),
            decreases num_txns - i,
        {
            if need_checkpoint[i] == (i != num_txns - 1) {
                return Err(CheckpointError::CheckpointMisplaced { index: i });
            }
            i = i + 1;
        }
        Ok(())
    }

    /// The versions of the state after the transactions, of which there is
    /// at least one; none of them beyond the last version that can be
    /// counted.
    pub fn result_versions(
        num_txns: usize,
        parent_base_version: Option<Version>,
        parent_current_version: Option<Version>,
        last_checkpoint_index: Option<usize>,
        is_block: bool,
    ) -> (versions: Result<ResultVersions, CheckpointError>)
        requires
            num_txns > 0,
            last_checkpoint_index matches Some(index) ==> index < num_txns,
            (match parent_current_version {
                Some(v) => v + 1,
                None => 0,
            }) + num_txns - 1 <= u64::MAX,
        ensures
            versions == spec_result_versions(
                num_txns,
                parent_base_version,
                parent_current_version,
                last_checkpoint_index,
                is_block,
            ),
    {
        let first_version: Version = match parent_current_version {
            Some(v) => v + 1,
            None => 0,
        };
        let mut latest_checkpoint_version = parent_base_version;
        let mut ends_in_checkpoint = false;
        match last_checkpoint_index {
            Some(index) => {
                latest_checkpoint_version = Some(first_version + index as u64);
                ends_in_checkpoint = index == num_txns - 1;
            },
            None => {},
        }
        let current_version: Version = first_version + (num_txns - 1) as u64;
        if !ends_in_checkpoint && is_block {
            return Err(CheckpointError::NoCheckpointAtEnd);
        }
        Ok(
            ResultVersions {
                first_version,
                latest_checkpoint_version,
                current_version,
                ends_in_checkpoint,
            },
        )
    }

    /// Adds to the deltas what one update changes.
    pub fn add_to_delta(update: &UsageUpdate, items_delta: &mut i64, bytes_delta: &mut i64)
        requires
            i64::MIN < *old(items_delta) < i64::MAX,
            bytes_added_by(*update) <= usize::MAX,
            bytes_freed_by(*update) <= usize::MAX,
            bytes_added_by(*update) <= i64::MAX,
            bytes_freed_by(*update) <= i64::MAX,
            *old(bytes_delta) + bytes_added_by(*update) <= i64::MAX,
            *old(bytes_delta) - bytes_freed_by(*update) >= i64::MIN,
        ensures
            *final(items_delta) == *old(items_delta) + items_delta_of(*update),
            *final(bytes_delta) == *old(bytes_delta) + bytes_delta_of(*update),
    {
        let key_size = update.key_size;
        match update.value_size {
            Some(size) => {
                *items_delta = *items_delta + 1;
                *bytes_delta = *bytes_delta + (key_size + size) as i64;
            },
            None => {},
        }
        match update.cached_value_size {
            Some(size) => {
                *items_delta = *items_delta - 1;
                *bytes_delta = *bytes_delta - (key_size + size) as i64;
            },
            None => {},
        }
    }

    /// The usage after the updates: the old usage and what they change. Usage
    /// that is not tracked stays so. The usage and what the updates move
    /// are no more than can be counted.
    pub fn calculate_usage(old_usage: StateStorageUsage, updates: &Vec<UsageUpdate>) -> (usage:
        StateStorageUsage)
        requires
            old_usage.spec_items() + updates@.len() <= i64::MAX,
            old_usage.spec_bytes() + bytes_moved(updates@) <= i64::MAX,
            forall|i: int|
                0 <= i < updates@.len() ==> bytes_added_by(#[trigger] updates@[i]) <= usize::MAX
                    && bytes_freed_by(updates@[i]) <= usize::MAX,
        ensures
            old_usage is Untracked ==> usage is Untracked,
            old_usage is Counted ==> usage == (StateStorageUsage::Counted {
                items: ((old_usage.spec_items() + items_delta(updates@)) as i64) as usize,
                bytes: ((old_usage.spec_bytes() + bytes_delta(updates@)) as i64) as usize,
            }),
    {
        if old_usage.is_untracked() {
            return StateStorageUsage::new_untracked();
        }
        let mut items: i64 = 0;
        let mut bytes: i64 = 0;
        let mut i: usize = 0;
        proof {
            lemma_deltas_bounded(updates@, 0);
        }
        while i < updates.len()
            invariant
                i <= updates@.len(),
                old_usage.spec_items() + updates@.len() <= i64::MAX,
                old_usage.spec_bytes() + bytes_moved(updates@) <= i64::MAX,
                forall|i: int|
                    0 <= i < updates@.len() ==> bytes_added_by(#[trigger] updates@[i])
                        <= usize::MAX && bytes_freed_by(updates@[i]) <= usize::MAX,
                items == items_delta(updates@.subrange(0, i as int)),
                bytes == bytes_delta(updates@.subrange(0, i as int)),
                -i <= items <= i,
                0 <= bytes_moved(updates@.subrange(0, i as int)) <= bytes_moved(updates@),
                -bytes_moved(updates@.subrange(0, i as int)) <= bytes <= bytes_moved(
                    updates@.subrange(0, i as int),
                ),
            decreases updates@.len() - i,
        {
            proof {
                lemma_deltas_bounded(updates@, i + 1);
                let next = updates@.subrange(0, i + 1);
                assert(next.drop_last() =~= updates@.subrange(0, i as int));
                assert(next.last() == updates@[i as int]);
            }
            Self::add_to_delta(&updates[i], &mut items, &mut bytes);
            i = i + 1;
        }
        proof {
            assert(updates@.subrange(0, i as int) =~= updates@);
        }
        StateStorageUsage::Counted {
            items: (old_usage.items() as i64 + items) as usize,
            bytes: (old_usage.bytes() as i64 + bytes) as usize,
        }
    }
}

/// Makes the state checkpoint of a block or chunk.
pub struct DoStateCheckpoint;

impl DoStateCheckpoint {
    /// The hashes of the state checkpoints of `num_txns` transactions, one
    /// place for each. The last checkpoint, where there is one, is given by
    /// its place among the transactions and the root hash that was computed
    /// for it: where a hash is known for that place it must be this one,
    /// and where none is known this one is put there.
    pub fn run(
        num_txns: usize,
        last_checkpoint: Option<(usize, HashValue)>,
        known_state_checkpoints: Option<Vec<Option<HashValue>>>,
    ) -> (hashes: Result<Vec<Option<HashValue>>, CheckpointError>)
        requires
            last_checkpoint matches Some(at) ==> at.0 < num_txns,
        ensures
            match spec_state_checkpoint_hashes(
                num_txns,
                last_checkpoint,
                match known_state_checkpoints {
                    Some(known) => Some(known@),
                    None => None,
                },
            ) {
                Ok(expected) => hashes matches Ok(found) && found@ == expected,
                Err(e) => hashes == Err::<Vec<Option<HashValue>>, CheckpointError>(e),
            },
    {
        let mut state_checkpoint_hashes = match known_state_checkpoints {
            Some(known) => known,
            None => {
                let mut none: Vec<Option<HashValue>> = Vec::new();
                let mut i: usize = 0;
                while i < num_txns
                    invariant
                        i <= num_txns,
                        none@ == Seq::new(i as nat, |k: int| None::<HashValue>),
                    decreases num_txns - i,
                {
                    none.push(None);
                    proof {
                        assert(none@ =~= Seq::new((i + 1) as nat, |k: int| None::<HashValue>));
                    }
                    i = i + 1;
                }
                none
            },
        };
        if state_checkpoint_hashes.len() != num_txns {
            return Err(CheckpointError::BadNumberOfKnownHashes);
        }
        match last_checkpoint {
            Some((index, root_hash)) => {
                match &state_checkpoint_hashes[index] {
                    Some(h) => {
                        if !same_hash(h, &root_hash) {
                            return Err(CheckpointError::LastCheckpointNotExpected);
                        }
                    },
                    None => {
                        state_checkpoint_hashes.set(index, Some(root_hash));
                    },
                }
            },
            None => {},
        }
        Ok(state_checkpoint_hashes)
    }
}

/// The transactions of a block by what became of them.
#[derive(Debug, PartialEq, Eq)]
pub struct TransactionsByStatus {
    statuses_for_input_txns: Vec<TransactionStatus>,
    to_commit: Vec<TransactionOutput>,
    to_discard: Vec<TransactionOutput>,
    to_retry: Vec<TransactionOutput>,
}

impl TransactionsByStatus {
    /// The statuses of the transactions that came in, in their order.
    pub closed spec fn statuses(&self) -> Seq<TransactionStatus> {
        self.statuses_for_input_txns@
    }

    /// The outputs to commit.
    pub closed spec fn to_commit(&self) -> Vec<TransactionOutput> {
        self.to_commit
    }

    /// The outputs to discard.
    pub closed spec fn to_discard(&self) -> Vec<TransactionOutput> {
        self.to_discard
    }

    /// The outputs to try again.
    pub closed spec fn to_retry(&self) -> Vec<TransactionOutput> {
        self.to_retry
    }

    pub fn new(
        statuses_for_input_txns: Vec<TransactionStatus>,
        to_commit: Vec<TransactionOutput>,
        to_discard: Vec<TransactionOutput>,
        to_retry: Vec<TransactionOutput>,
    ) -> (by_status: Self)
        ensures
            by_status.statuses() == statuses_for_input_txns@,
            by_status.to_commit() == to_commit,
            by_status.to_discard() == to_discard,
            by_status.to_retry() == to_retry,
    {
        Self { statuses_for_input_txns, to_commit, to_discard, to_retry }
    }

    /// The number of transactions that came in.
    pub fn input_txns_len(&self) -> (len: usize)
        ensures
            len == self.statuses().len(),
    {
        self.statuses_for_input_txns.len()
    }

    /// The statuses, and the outputs to commit, to discard and to try again.
    pub fn into_inner(self) -> (parts: (
        Vec<TransactionStatus>,
        Vec<TransactionOutput>,
        Vec<TransactionOutput>,
        Vec<TransactionOutput>,
    ))
        ensures
            parts.0@ == self.statuses(),
            parts.1 == self.to_commit(),
            parts.2 == self.to_discard(),
            parts.3 == self.to_retry(),
    {
        (self.statuses_for_input_txns, self.to_commit, self.to_discard, self.to_retry)
    }
}

/// A run of transactions that is to be committed to the ledger.
#[derive(Debug, PartialEq, Eq)]
pub struct ChunkToCommit {
    pub first_version: Version,
    pub transaction_outputs: Vec<TransactionOutput>,
    pub base_state_version: Option<Version>,
    pub is_reconfig: bool,
}

impl ChunkToCommit {
    /// The number of transactions.
    pub fn len(&self) -> (len: usize)
        ensures
            len == self.transaction_outputs@.len(),
    {
        self.transaction_outputs.len()
    }

    /// Whether the chunk holds no transaction.
    pub fn is_empty(&self) -> (empty: bool)
        ensures
            empty == (self.transaction_outputs@.len() == 0),
    {
        self.len() == 0
    }

    /// The version after the last transaction, which must be one that can
    /// be counted.
    pub fn next_version(&self) -> (version: Version)
        requires
            self.first_version + self.transaction_outputs@.len() <= u64::MAX,
        ensures
            version == self.first_version + self.transaction_outputs@.len(),
    {
        self.first_version + self.len() as Version
    }

    /// The version of the last transaction. There is one, or the chunk does
    /// not begin the ledger.
    pub fn expect_last_version(&self) -> (version: Version)
        requires
            self.first_version + self.transaction_outputs@.len() <= u64::MAX,
            self.first_version + self.transaction_outputs@.len() > 0,
        ensures
            version == self.first_version + self.transaction_outputs@.len() - 1,
    {
        self.next_version() - 1
    }
}

} // verus!
