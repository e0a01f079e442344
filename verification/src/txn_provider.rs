//! A block whose transactions arrive one by one: each index has a slot that
//! waits for its transaction.

use vstd::prelude::*;
use crate::types::TxnIndex;

verus! {

/// Whether the transaction of a slot has arrived.
pub enum BlockingTransactionStatus<T> {
    Ready(T),
    Waiting,
}

/// The slot of one transaction.
pub struct BlockingTransaction<T> {
    pub txn: BlockingTransactionStatus<T>,
}

impl<T> BlockingTransaction<T> {
    /// A slot that waits for its transaction.
    pub fn new() -> (slot: Self)
        ensures
            slot.txn is Waiting,
    {
        Self { txn: BlockingTransactionStatus::Waiting }
    }
}

impl<T> Default for BlockingTransaction<T> {
    fn default() -> (slot: Self)
        ensures
            slot.txn is Waiting,
    {
        Self::new()
    }
}

/// The transactions of a block, as far as they have arrived.
pub struct BlockingTxnsProvider<T> {
    txns: Vec<BlockingTransaction<T>>,
}

impl<T> View for BlockingTxnsProvider<T> {
    type V = Seq<Option<T>>;

    /// For each index the transaction, if it has arrived.
    closed spec fn view(&self) -> Seq<Option<T>> {
        Seq::new(
            self.txns@.len(),
            |i: int|
                match self.txns@[i].txn {
                    BlockingTransactionStatus::Ready(t) => Some(t),
                    BlockingTransactionStatus::Waiting => None,
                },
        )
    }
}

impl<T> BlockingTxnsProvider<T> {
    /// A block of `num_txns` transactions, none of which has arrived.
    pub fn new(num_txns: usize) -> (provider: Self)
        ensures
            provider@.len() == num_txns,
            forall|i: int| 0 <= i < num_txns ==> provider@[i] is None,
    {
        let mut txns: Vec<BlockingTransaction<T>> = Vec::new();
        let mut i: usize = 0;
        while i < num_txns
            invariant
                i <= num_txns,
                txns@.len() == i,
                forall|j: int| 0 <= j < i ==> txns@[j].txn is Waiting,
            decreases num_txns - i,
        {
            txns.push(BlockingTransaction::new());
            i = i + 1;
        }
        Self { txns }
    }

    /// Puts the transaction that arrived for `idx` into its slot. The slot
    /// must exist and must still wait: a transaction arrives once.
    pub fn set_txn(&mut self, idx: TxnIndex, txn: T)
        requires
            idx < old(self)@.len(),
            old(self)@[idx as int] is None,
        ensures
            final(self)@ == old(self)@.update(idx as int, Some(txn)),
    {
        self.txns.set(idx as usize, BlockingTransaction { txn: BlockingTransactionStatus::Ready(txn) });
        assert(self@ =~= old(self)@.update(idx as int, Some(txn)));
    }

    /// Whether the transaction of `idx` has arrived.
    pub fn is_ready(&self, idx: TxnIndex) -> (ready: bool)
        ensures
            ready == (idx < self@.len() && self@[idx as int] is Some),
    {
        if (idx as usize) < self.txns.len() {
            match &self.txns[idx as usize].txn {
                BlockingTransactionStatus::Ready(_) => true,
                BlockingTransactionStatus::Waiting => false,
            }
        } else {
            false
        }
    }

    pub fn num_txns(&self) -> (n: usize)
        ensures
            n == self@.len(),
    {
        self.txns.len()
    }

    /// The transaction of `idx`, which must have arrived.
    pub fn get_txn(&self, idx: TxnIndex) -> (txn: &T)
        requires
            idx < self@.len(),
            self@[idx as int] is Some,
        ensures
            Some(*txn) == self@[idx as int],
    {
        match &self.txns[idx as usize].txn {
            BlockingTransactionStatus::Ready(t) => t,
            BlockingTransactionStatus::Waiting => {
                proof {
                    assert(self@[idx as int] is None);
                }
                vstd::pervasive::unreached()
            },
        }
    }

    /// The transactions in order, once all of them have arrived.
    pub fn to_vec(&self) -> (txns: Vec<T>) where T: Clone
        requires
            forall|i: int| 0 <= i < self@.len() ==> self@[i] is Some,
        ensures
            txns@.len() == self@.len(),
            forall|i: int|
                0 <= i < self@.len() ==> cloned(self@[i].unwrap(), #[trigger] txns@[i]),
    {
        let mut txns: Vec<T> = Vec::new();
        let n = self.txns.len();
        let mut i: usize = 0;
        while i < n
            invariant
                n == self@.len(),
                i <= n,
                txns@.len() == i,
                forall|j: int| 0 <= j < self@.len() ==> self@[j] is Some,
                forall|j: int| 0 <= j < i ==> cloned(self@[j].unwrap(), #[trigger] txns@[j]),
            decreases n - i,
        {
            match &self.txns[i].txn {
                BlockingTransactionStatus::Ready(t) => {
                    txns.push(t.clone());
                },
                BlockingTransactionStatus::Waiting => {
                    proof {
                        assert(self@[i as int] is None);
                    }
                },
            }
            i = i + 1;
        }
        txns
    }
}

} // verus!
