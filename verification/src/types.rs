//! Basic vocabulary shared by every component of the engine.

use vstd::prelude::*;

verus! {

/// Position of a transaction in the block's canonical order.
pub type TxnIndex = u32;

/// Re-execution attempt counter of one transaction.
pub type Incarnation = u32;

/// Identifies one slot of the replicated state.
pub type StateKey = u128;

/// The key from which on the state holds code: what is kept under such a key
/// is a module, and writing it publishes code.
pub const CODE_KEYS_FROM: StateKey = 0x1_0000_0000_0000_0000_0000_0000;

/// Whether the key is one under which code is kept.
pub open spec fn is_code_key(key: StateKey) -> bool {
    key >= CODE_KEYS_FROM
}

/// Whether the key is one under which code is kept.
pub fn code_key(key: StateKey) -> (is: bool)
    ensures
        is == is_code_key(key),
{
    key >= CODE_KEYS_FROM
}

/// What one slot of the replicated state holds.
pub type StateValue = u64;

/// A version names the write that a read observed: who wrote it, and in
/// which attempt.
#[derive(Clone, Copy, Debug, PartialEq, Eq, Structural)]
pub struct Version {
    pub txn_idx: TxnIndex,
    pub incarnation: Incarnation,
}

impl Version {
    pub fn new(txn_idx: TxnIndex, incarnation: Incarnation) -> (v: Self)
        ensures
            v.txn_idx == txn_idx,
            v.incarnation == incarnation,
    {
        Version { txn_idx, incarnation }
    }
}

/// A copy of the bytes.
pub(crate) fn copy_bytes(bytes: &Vec<u8>) -> (copy: Vec<u8>)
    ensures
        copy@ == bytes@,
{
    let mut copy: Vec<u8> = Vec::new();
    let mut i: usize = 0;
    while i < bytes.len()
        invariant
            i <= bytes@.len(),
            copy@ == bytes@.subrange(0, i as int),
        decreases bytes@.len() - i,
    {
        copy.push(bytes[i]);
        assert(copy@ =~= bytes@.subrange(0, i + 1));
        i = i + 1;
    }
    assert(copy@ =~= bytes@);
    copy
}

} // verus!
