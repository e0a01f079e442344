//! The identity of a session of the virtual machine: what it runs for.

use crate::task::AccountAddress;
use crate::types::copy_bytes;
use vstd::prelude::*;

verus! {

/// A hash of 32 bytes.
pub type HashValue = [u8; 32];

/// What keeps a transaction from being replayed.
#[derive(Clone, Copy, Debug, PartialEq, Eq, Structural)]
pub enum ReplayProtector {
    SequenceNumber(u64),
    Nonce(u64),
}

/// What a session needs to know of the transaction that it runs for.
#[derive(Clone, Debug, PartialEq, Eq)]
pub struct TransactionMetadata {
    pub sender: AccountAddress,
    pub replay_protector: ReplayProtector,
    pub script_hash: Vec<u8>,
    pub expiration_timestamp_secs: u64,
}

/// What a session runs for.
#[derive(Clone, Debug, PartialEq, Eq)]
pub enum SessionId {
    Txn { sender: AccountAddress, sequence_number: u64, script_hash: Vec<u8> },
    BlockMeta { id: HashValue },
    Genesis { id: HashValue },
    Prologue { sender: AccountAddress, sequence_number: u64, script_hash: Vec<u8> },
    Epilogue { sender: AccountAddress, sequence_number: u64, script_hash: Vec<u8> },
    /// A run that is no transaction and whose output is not committed.
    Void,
    RunOnAbort { sender: AccountAddress, sequence_number: u64, script_hash: Vec<u8> },
    BlockMetaExt { id: HashValue },
    ValidatorTxn { script_hash: Vec<u8> },
    OrderlessTxn { sender: AccountAddress, nonce: u64, expiration_time: u64 },
    OrderlessTxnPrologue { sender: AccountAddress, nonce: u64, expiration_time: u64 },
    OrderlessTxnEpilogue { sender: AccountAddress, nonce: u64, expiration_time: u64 },
    OrderlessRunOnAbort { sender: AccountAddress, nonce: u64, expiration_time: u64 },
}

/// The stage of a transaction that a session runs.
#[derive(Clone, Copy, Debug, PartialEq, Eq, Structural)]
pub enum Stage {
    Prologue,
    Txn,
    Epilogue,
    RunOnAbort,
}

/// A session identity as a mathematical value.
pub enum SessionIdView {
    /// A stage of a transaction that a sequence number protects.
    Sequenced { stage: Stage, sender: AccountAddress, sequence_number: u64, script_hash: Seq<u8> },
    /// A stage of a transaction that a nonce protects.
    Orderless { stage: Stage, sender: AccountAddress, nonce: u64, expiration_time: u64 },
    BlockMeta { id: Seq<u8> },
    BlockMetaExt { id: Seq<u8> },
    Genesis { id: Seq<u8> },
    ValidatorTxn { script_hash: Seq<u8> },
    Void,
}

impl View for SessionId {
    type V = SessionIdView;

    open spec fn view(&self) -> SessionIdView {
        match *self {
            SessionId::Txn { sender, sequence_number, script_hash } => SessionIdView::Sequenced {
                stage: Stage::Txn,
                sender,
                sequence_number,
                script_hash: script_hash@,
            },
            SessionId::Prologue { sender, sequence_number, script_hash } => {
                SessionIdView::Sequenced {
                    stage: Stage::Prologue,
                    sender,
                    sequence_number,
                    script_hash: script_hash@,
                }
            },
            SessionId::Epilogue { sender, sequence_number, script_hash } => {
                SessionIdView::Sequenced {
                    stage: Stage::Epilogue,
                    sender,
                    sequence_number,
                    script_hash: script_hash@,
                }
            },
            SessionId::RunOnAbort { sender, sequence_number, script_hash } => {
                SessionIdView::Sequenced {
                    stage: Stage::RunOnAbort,
                    sender,
                    sequence_number,
                    script_hash: script_hash@,
                }
            },
            SessionId::OrderlessTxn { sender, nonce, expiration_time } => SessionIdView::Orderless {
                stage: Stage::Txn,
                sender,
                nonce,
                expiration_time,
            },
            SessionId::OrderlessTxnPrologue { sender, nonce, expiration_time } => {
                SessionIdView::Orderless { stage: Stage::Prologue, sender, nonce, expiration_time }
            },
            SessionId::OrderlessTxnEpilogue { sender, nonce, expiration_time } => {
                SessionIdView::Orderless { stage: Stage::Epilogue, sender, nonce, expiration_time }
            },
            SessionId::OrderlessRunOnAbort { sender, nonce, expiration_time } => {
                SessionIdView::Orderless { stage: Stage::RunOnAbort, sender, nonce, expiration_time }
            },
            SessionId::BlockMeta { id } => SessionIdView::BlockMeta { id: id@ },
            SessionId::BlockMetaExt { id } => SessionIdView::BlockMetaExt { id: id@ },
            SessionId::Genesis { id } => SessionIdView::Genesis { id: id@ },
            SessionId::ValidatorTxn { script_hash } => SessionIdView::ValidatorTxn {
                script_hash: script_hash@,
            },
            SessionId::Void => SessionIdView::Void,
        }
    }
}

/// The identity of the session that runs `stage` of a transaction.
pub open spec fn session_of(stage: Stage, txn_metadata: TransactionMetadata) -> SessionIdView {
    match txn_metadata.replay_protector {
        ReplayProtector::SequenceNumber(sequence_number) => SessionIdView::Sequenced {
            stage,
            sender: txn_metadata.sender,
            sequence_number,
            script_hash: txn_metadata.script_hash@,
        },
        ReplayProtector::Nonce(nonce) => SessionIdView::Orderless {
            stage,
            sender: txn_metadata.sender,
            nonce,
            expiration_time: txn_metadata.expiration_timestamp_secs,
        },
    }
}

/// The script hash that a session identity holds: that of the transaction,
/// where a sequence number protects it, or of the validator transaction;
/// none for any other.
pub open spec fn script_hash_of(id: SessionIdView) -> Seq<u8> {
    match id {
        SessionIdView::Sequenced { script_hash, .. } => script_hash,
        SessionIdView::ValidatorTxn { script_hash } => script_hash,
        _ => Seq::empty(),
    }
}

impl SessionId {
    /// The session that runs the transaction itself.
    pub fn txn_meta(txn_metadata: &TransactionMetadata) -> (id: Self)
        ensures
            id@ == session_of(Stage::Txn, *txn_metadata),
    {
        match txn_metadata.replay_protector {
            ReplayProtector::SequenceNumber(sequence_number) => Self::Txn {
                sender: txn_metadata.sender,
                sequence_number,
                script_hash: copy_bytes(&txn_metadata.script_hash),
            },
            ReplayProtector::Nonce(nonce) => Self::OrderlessTxn {
                sender: txn_metadata.sender,
                nonce,
                expiration_time: txn_metadata.expiration_timestamp_secs,
            },
        }
    }

    /// The session of the genesis build `id`.
    pub fn genesis(id: HashValue) -> (session: Self)
        ensures
            session@ == (SessionIdView::Genesis { id: id@ }),
    {
        Self::Genesis { id }
    }

    /// The session of the metadata of block `id`.
    pub fn block_meta(id: HashValue) -> (session: Self)
        ensures
            session@ == (SessionIdView::BlockMeta { id: id@ }),
    {
        Self::BlockMeta { id }
    }

    /// The session of the extended metadata of block `id`.
    pub fn block_meta_ext(id: HashValue) -> (session: Self)
        ensures
            session@ == (SessionIdView::BlockMetaExt { id: id@ }),
    {
        Self::BlockMetaExt { id }
    }

    /// The session that runs the transaction's prologue.
    pub fn prologue_meta(txn_metadata: &TransactionMetadata) -> (id: Self)
        ensures
            id@ == session_of(Stage::Prologue, *txn_metadata),
    {
        match txn_metadata.replay_protector {
            ReplayProtector::SequenceNumber(sequence_number) => Self::Prologue {
                sender: txn_metadata.sender,
                sequence_number,
                script_hash: copy_bytes(&txn_metadata.script_hash),
            },
            ReplayProtector::Nonce(nonce) => Self::OrderlessTxnPrologue {
                sender: txn_metadata.sender,
                nonce,
                expiration_time: txn_metadata.expiration_timestamp_secs,
            },
        }
    }

    /// The session that runs after the transaction has aborted.
    pub fn run_on_abort(txn_metadata: &TransactionMetadata) -> (id: Self)
        ensures
            id@ == session_of(Stage::RunOnAbort, *txn_metadata),
    {
        match txn_metadata.replay_protector {
            ReplayProtector::SequenceNumber(sequence_number) => Self::RunOnAbort {
                sender: txn_metadata.sender,
                sequence_number,
                script_hash: copy_bytes(&txn_metadata.script_hash),
            },
            ReplayProtector::Nonce(nonce) => Self::OrderlessRunOnAbort {
                sender: txn_metadata.sender,
                nonce,
                expiration_time: txn_metadata.expiration_timestamp_secs,
            },
        }
    }

    /// The session that runs the transaction's epilogue.
    pub fn epilogue_meta(txn_metadata: &TransactionMetadata) -> (id: Self)
        ensures
            id@ == session_of(Stage::Epilogue, *txn_metadata),
    {
        match txn_metadata.replay_protector {
            ReplayProtector::SequenceNumber(sequence_number) => Self::Epilogue {
                sender: txn_metadata.sender,
                sequence_number,
                script_hash: copy_bytes(&txn_metadata.script_hash),
            },
            ReplayProtector::Nonce(nonce) => Self::OrderlessTxnEpilogue {
                sender: txn_metadata.sender,
                nonce,
                expiration_time: txn_metadata.expiration_timestamp_secs,
            },
        }
    }

    /// The session of a run that is no transaction.
    pub fn void() -> (session: Self)
        ensures
            session@ == SessionIdView::Void,
    {
        Self::Void
    }

    /// The session of the validator transaction with hash `hash`, which
    /// stands for its script hash.
    pub fn validator_txn(hash: HashValue) -> (session: Self)
        ensures
            session@ == (SessionIdView::ValidatorTxn { script_hash: hash@ }),
    {
        let mut script_hash: Vec<u8> = Vec::new();
        let mut i: usize = 0;
        while i < 32
            invariant
                i <= 32,
                script_hash@ == hash@.subrange(0, i as int),
            decreases 32 - i,
        {
            script_hash.push(hash[i]);
            proof {
                assert(script_hash@ =~= hash@.subrange(0, i + 1));
            }
            i = i + 1;
        }
        proof {
            assert(hash@.subrange(0, 32) =~= hash@);
        }
        Self::ValidatorTxn { script_hash }
    }

    /// The script hash that the identity holds.
    pub fn into_script_hash(self) -> (script_hash: Vec<u8>)
        ensures
            script_hash@ == script_hash_of(self@),
    {
        match self {
            Self::Txn { sender: _, sequence_number: _, script_hash }
            | Self::Prologue { sender: _, sequence_number: _, script_hash }
            | Self::Epilogue { sender: _, sequence_number: _, script_hash }
            | Self::RunOnAbort { sender: _, sequence_number: _, script_hash }
            | Self::ValidatorTxn { script_hash } => script_hash,
            Self::BlockMeta { id: _ }
            | Self::Genesis { id: _ }
            | Self::Void
            | Self::BlockMetaExt { id: _ } => Vec::new(),
            Self::OrderlessTxn { .. }
            | Self::OrderlessTxnPrologue { .. }
            | Self::OrderlessTxnEpilogue { .. }
            | Self::OrderlessRunOnAbort { .. } => Vec::new(),
        }
    }
}

} // verus!
