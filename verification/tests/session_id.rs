use block_stm::session_id::{ReplayProtector, SessionId, TransactionMetadata};

fn sequenced() -> TransactionMetadata {
    TransactionMetadata {
        sender: 0xA11CE,
        replay_protector: ReplayProtector::SequenceNumber(7),
        script_hash: vec![1, 2, 3],
        expiration_timestamp_secs: 1_000,
    }
}

fn orderless() -> TransactionMetadata {
    TransactionMetadata {
        sender: 0xB0B,
        replay_protector: ReplayProtector::Nonce(99),
        script_hash: vec![4, 5],
        expiration_timestamp_secs: 2_000,
    }
}

#[test]
fn sessions_of_a_sequenced_transaction() {
    let m = sequenced();
    assert_eq!(
        SessionId::txn_meta(&m),
        SessionId::Txn { sender: 0xA11CE, sequence_number: 7, script_hash: vec![1, 2, 3] }
    );
    assert_eq!(
        SessionId::prologue_meta(&m),
        SessionId::Prologue { sender: 0xA11CE, sequence_number: 7, script_hash: vec![1, 2, 3] }
    );
    assert_eq!(
        SessionId::epilogue_meta(&m),
        SessionId::Epilogue { sender: 0xA11CE, sequence_number: 7, script_hash: vec![1, 2, 3] }
    );
    assert_eq!(
        SessionId::run_on_abort(&m),
        SessionId::RunOnAbort { sender: 0xA11CE, sequence_number: 7, script_hash: vec![1, 2, 3] }
    );
}

#[test]
fn sessions_of_an_orderless_transaction() {
    let m = orderless();
    assert_eq!(
        SessionId::txn_meta(&m),
        SessionId::OrderlessTxn { sender: 0xB0B, nonce: 99, expiration_time: 2_000 }
    );
    assert_eq!(
        SessionId::prologue_meta(&m),
        SessionId::OrderlessTxnPrologue { sender: 0xB0B, nonce: 99, expiration_time: 2_000 }
    );
    assert_eq!(
        SessionId::epilogue_meta(&m),
        SessionId::OrderlessTxnEpilogue { sender: 0xB0B, nonce: 99, expiration_time: 2_000 }
    );
    assert_eq!(
        SessionId::run_on_abort(&m),
        SessionId::OrderlessRunOnAbort { sender: 0xB0B, nonce: 99, expiration_time: 2_000 }
    );
}

#[test]
fn sessions_without_a_transaction() {
    assert_eq!(SessionId::genesis([9; 32]), SessionId::Genesis { id: [9; 32] });
    assert_eq!(SessionId::block_meta([8; 32]), SessionId::BlockMeta { id: [8; 32] });
    assert_eq!(SessionId::block_meta_ext([7; 32]), SessionId::BlockMetaExt { id: [7; 32] });
    assert_eq!(SessionId::void(), SessionId::Void);
    let mut hash = [0u8; 32];
    hash[0] = 1;
    hash[31] = 31;
    assert_eq!(
        SessionId::validator_txn(hash),
        SessionId::ValidatorTxn { script_hash: hash.to_vec() }
    );
}

#[test]
fn script_hash_of_each_session() {
    let m = sequenced();
    assert_eq!(SessionId::txn_meta(&m).into_script_hash(), vec![1, 2, 3]);
    assert_eq!(SessionId::prologue_meta(&m).into_script_hash(), vec![1, 2, 3]);
    assert_eq!(SessionId::epilogue_meta(&m).into_script_hash(), vec![1, 2, 3]);
    assert_eq!(SessionId::run_on_abort(&m).into_script_hash(), vec![1, 2, 3]);
    assert_eq!(SessionId::validator_txn([3; 32]).into_script_hash(), vec![3; 32]);
    let o = orderless();
    assert_eq!(SessionId::txn_meta(&o).into_script_hash(), Vec::<u8>::new());
    assert_eq!(SessionId::prologue_meta(&o).into_script_hash(), Vec::<u8>::new());
    assert_eq!(SessionId::epilogue_meta(&o).into_script_hash(), Vec::<u8>::new());
    assert_eq!(SessionId::run_on_abort(&o).into_script_hash(), Vec::<u8>::new());
    assert_eq!(SessionId::genesis([9; 32]).into_script_hash(), Vec::<u8>::new());
    assert_eq!(SessionId::block_meta([9; 32]).into_script_hash(), Vec::<u8>::new());
    assert_eq!(SessionId::block_meta_ext([9; 32]).into_script_hash(), Vec::<u8>::new());
    assert_eq!(SessionId::void().into_script_hash(), Vec::<u8>::new());
}
