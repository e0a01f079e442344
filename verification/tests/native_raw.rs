use block_stm::native_raw::{
    compute_deltas_for_batch, IncrementalOutput, NativeNoStorageRawTransactionExecutor,
    NativeParallelUncoordinatedBlockExecutor, NativeRawTransactionExecutor,
    NativeValueCacheRawTransactionExecutor, RawError, RawTransactionExecutor, BATCH_GAS,
    INITIAL_BALANCE, NOP_GAS, TRANSFER_GAS,
};
use block_stm::native_vm::{
    ErrorMessage, NativeTransaction, StatusCode, VMStatus, FEATURES_KEY,
};
use block_stm::task::{
    ContractEvent, EventKind, TransactionAuxiliaryData, TransactionOutput, TransactionStatus,
};
use std::collections::HashMap;

fn account(a: u64) -> u128 {
    a as u128
}

fn fa_store(a: u64) -> u128 {
    (1u128 << 64) + a as u128
}

fn coin_store(a: u64) -> u128 {
    (3u128 << 64) + a as u128
}

fn fee(gas: u64) -> ContractEvent {
    ContractEvent { kind: EventKind::FeeStatement, account: 0, amount: gas }
}

fn executor() -> NativeRawTransactionExecutor {
    <NativeRawTransactionExecutor as RawTransactionExecutor>::new()
}

#[test]
fn gas_of_the_three_kinds() {
    assert_eq!(NOP_GAS, 4);
    assert_eq!(TRANSFER_GAS, 500);
    assert_eq!(BATCH_GAS, 5000);
    assert_eq!(INITIAL_BALANCE, 100_000_000_000_000_000);
}

#[test]
fn incremental_outputs_append_and_finish() {
    let mut out = IncrementalOutput::new();
    assert!(out.write_set.is_empty() && out.events.is_empty());
    out.append(IncrementalOutput { write_set: vec![(1, 2)], events: vec![] });
    out.append(IncrementalOutput {
        write_set: vec![(3, 4)],
        events: vec![ContractEvent { kind: EventKind::Deposit, account: 5, amount: 6 }],
    });
    let done = out.into_success_output(9);
    assert_eq!(done, TransactionOutput {
        write_set: vec![(1, 2), (3, 4)],
        events: vec![ContractEvent { kind: EventKind::Deposit, account: 5, amount: 6 }, fee(9)],
        gas_used: 9,
        status: TransactionStatus::Keep,
        auxiliary_data: TransactionAuxiliaryData::Empty,
    });
    let aborted = IncrementalOutput::to_abort(TransactionStatus::Discard(3));
    assert_eq!(aborted, TransactionOutput {
        write_set: vec![],
        events: vec![],
        gas_used: 0,
        status: TransactionStatus::Discard(3),
        auxiliary_data: TransactionAuxiliaryData::Empty,
    });
}

#[test]
fn fa_transfer_for_itself() {
    let mut state = HashMap::new();
    state.insert(account(1), 7u64);
    state.insert(fa_store(1), 1000);
    state.insert(fa_store(2), 20);
    let out = executor().handle_fa_transfer(1, 2, 100, &state).unwrap();
    assert_eq!(out.write_set, vec![(account(1), 8), (fa_store(1), 400), (fa_store(2), 120)]);
    assert_eq!(out.events, vec![
        ContractEvent { kind: EventKind::Withdraw, account: 1, amount: 100 },
        ContractEvent { kind: EventKind::Withdraw, account: 1, amount: 500 },
        ContractEvent { kind: EventKind::Deposit, account: 2, amount: 100 },
        fee(500),
    ]);
    assert_eq!(out.gas_used, 500);
    assert_eq!(out.status, TransactionStatus::Keep);
}

#[test]
fn withdrawal_from_a_missing_store_aborts_the_transaction() {
    let mut state = HashMap::new();
    state.insert(account(1), 0u64);
    let out = executor().handle_fa_transfer(1, 2, 100, &state).unwrap();
    assert_eq!(out.status, TransactionStatus::KeepAborted { module: 1, code: 7 });
    assert!(out.write_set.is_empty());
    assert!(out.events.is_empty());
    assert_eq!(out.gas_used, 0);
}

#[test]
fn transaction_of_a_missing_sender_cannot_be_run() {
    let state = HashMap::new();
    assert_eq!(executor().handle_fa_transfer(1, 2, 100, &state), Err(RawError::SenderMissing));
    assert_eq!(executor().handle_nop(1, true, &state), Err(RawError::SenderMissing));
}

#[test]
fn balance_must_cover_amount_and_fee() {
    let mut state = HashMap::new();
    state.insert(account(1), 0u64);
    state.insert(fa_store(1), 599);
    assert_eq!(
        executor().handle_fa_transfer(1, 2, 100, &state),
        Err(RawError::InsufficientBalance)
    );
    state.insert(fa_store(1), 600);
    let out = executor().handle_fa_transfer(1, 2, 100, &state).unwrap();
    assert_eq!(out.write_set, vec![(account(1), 1), (fa_store(1), 0), (fa_store(2), 100)]);
}

#[test]
fn nop_pays_from_coins_before_the_migration() {
    let mut state = HashMap::new();
    state.insert(account(1), 0u64);
    state.insert(coin_store(1), 10);
    state.insert(fa_store(1), 50);
    let out = executor().handle_nop(1, false, &state).unwrap();
    assert_eq!(out.write_set, vec![(account(1), 1), (coin_store(1), 6)]);
    assert_eq!(out.events, vec![
        ContractEvent { kind: EventKind::CoinWithdraw, account: 1, amount: 0 },
        fee(4)
    ]);
    let out = executor().handle_nop(1, true, &state).unwrap();
    assert_eq!(out.write_set, vec![(account(1), 1), (fa_store(1), 46)]);
    assert_eq!(out.events, vec![
        ContractEvent { kind: EventKind::Withdraw, account: 1, amount: 4 },
        fee(4)
    ]);
    // Without coins the fee comes from the fungible assets.
    state.remove(&coin_store(1));
    let out = executor().handle_nop(1, false, &state).unwrap();
    assert_eq!(out.write_set, vec![(account(1), 1), (fa_store(1), 46)]);
}

#[test]
fn coin_transfer_creates_the_recipient() {
    let mut state = HashMap::new();
    state.insert(account(1), 0u64);
    state.insert(coin_store(1), 1000);
    let e = executor();
    let out = e.handle_account_creation_and_transfer(1, 2, 10, true, false, &state, false).unwrap();
    assert_eq!(out.write_set, vec![
        (account(1), 1),
        (coin_store(1), 490),
        (account(2), 0),
        (coin_store(2), 10)
    ]);
    assert_eq!(out.events, vec![
        ContractEvent { kind: EventKind::CoinWithdraw, account: 1, amount: 0 },
        ContractEvent { kind: EventKind::CoinDeposit, account: 2, amount: 0 },
        fee(500),
    ]);
    // New accounts keep their balance as fungible assets.
    let out = e.handle_account_creation_and_transfer(1, 2, 10, true, false, &state, true).unwrap();
    assert_eq!(out.write_set, vec![
        (account(1), 1),
        (coin_store(1), 490),
        (account(2), 0),
        (fa_store(2), 10)
    ]);
    assert_eq!(out.events, vec![
        ContractEvent { kind: EventKind::CoinWithdraw, account: 1, amount: 0 },
        ContractEvent { kind: EventKind::Deposit, account: 2, amount: 10 },
        fee(500),
    ]);
    let out = e.handle_account_creation_and_transfer(1, 2, 10, false, true, &state, false).unwrap();
    assert_eq!(out.status, TransactionStatus::KeepAborted { module: 2, code: 8 });
}

#[test]
fn coin_transfer_to_an_existing_recipient() {
    let mut state = HashMap::new();
    state.insert(account(1), 0u64);
    state.insert(coin_store(1), 1000);
    state.insert(account(2), 5);
    state.insert(coin_store(2), 7);
    let e = executor();
    let out = e.handle_account_creation_and_transfer(1, 2, 10, false, true, &state, false).unwrap();
    assert_eq!(out.write_set, vec![(account(1), 1), (coin_store(1), 490), (coin_store(2), 17)]);
    let out = e.handle_account_creation_and_transfer(1, 2, 0, false, true, &state, false).unwrap();
    assert_eq!(out.write_set, vec![(account(1), 1), (coin_store(1), 500)]);
    let out = e.handle_account_creation_and_transfer(1, 2, 10, true, false, &state, false).unwrap();
    assert_eq!(out.status, TransactionStatus::KeepAborted { module: 2, code: 7 });
    state.remove(&coin_store(2));
    assert_eq!(
        e.handle_account_creation_and_transfer(1, 2, 10, false, false, &state, false),
        Err(RawError::CoinStoreMissing)
    );
    state.remove(&account(2));
    state.insert(coin_store(2), 1);
    assert_eq!(
        e.handle_account_creation_and_transfer(1, 2, 10, false, false, &state, false),
        Err(RawError::CoinStoreExists)
    );
}

#[test]
fn deltas_of_a_batch() {
    let deltas = compute_deltas_for_batch(&vec![5, 6, 5, 9], &vec![10, 20, 30, 40], 9).unwrap();
    assert_eq!(deltas, vec![(5, 40), (9, -60), (6, 20)]);
    // As many transfers as have a recipient and an amount.
    let deltas = compute_deltas_for_batch(&vec![5, 6, 7], &vec![1], 1).unwrap();
    assert_eq!(deltas, vec![(5, 1), (1, -1)]);
    assert_eq!(compute_deltas_for_batch(&vec![], &vec![3], 1).unwrap(), vec![]);
    let deltas = compute_deltas_for_batch(&vec![1, 1], &vec![u64::MAX, u64::MAX], 1).unwrap();
    assert_eq!(deltas, vec![(1, 0)]);
    let deltas = compute_deltas_for_batch(&vec![2, 2], &vec![u64::MAX, u64::MAX], 1).unwrap();
    assert_eq!(deltas, vec![(2, 2 * (u64::MAX as i128)), (1, -2 * (u64::MAX as i128))]);
}

#[test]
fn batch_pays_once_and_serves_each_recipient() {
    let mut state = HashMap::new();
    state.insert(account(1), 3u64);
    state.insert(coin_store(1), 10_000);
    state.insert(account(5), 0);
    state.insert(coin_store(5), 1);
    let out = executor()
        .handle_batch_account_creation_and_transfer(
            1,
            &vec![5, 6, 5],
            &vec![10, 20, 30],
            false,
            false,
            &state,
            false,
        )
        .unwrap();
    assert_eq!(out.write_set, vec![
        (account(1), 4),
        (coin_store(1), 4940),
        (coin_store(5), 41),
        (account(6), 0),
        (coin_store(6), 20),
    ]);
    assert_eq!(out.gas_used, 5000);
    assert_eq!(out.events.last(), Some(&fee(5000)));
}

#[test]
fn batch_with_given_deltas() {
    let mut state = HashMap::new();
    state.insert(account(1), 0u64);
    state.insert(coin_store(1), 10_000);
    let e = executor();
    let out =
        e.handle_batch_with_deltas(1, &vec![(1, -5), (7, 5)], false, false, &state, true).unwrap();
    assert_eq!(out.write_set, vec![
        (account(1), 1),
        (coin_store(1), 4995),
        (account(7), 0),
        (fa_store(7), 5)
    ]);
    // A sender that gains, a recipient that loses.
    assert_eq!(
        e.handle_batch_with_deltas(1, &vec![(1, 5)], false, false, &state, true),
        Err(RawError::Overflow)
    );
    assert_eq!(
        e.handle_batch_with_deltas(1, &vec![(7, -5)], false, false, &state, true),
        Err(RawError::Overflow)
    );
    // The first recipient that may not be created aborts the batch.
    let out = e
        .handle_batch_with_deltas(1, &vec![(7, 5), (8, 5)], false, true, &state, true)
        .unwrap();
    assert_eq!(out.status, TransactionStatus::KeepAborted { module: 2, code: 8 });
    assert!(out.write_set.is_empty());
}

fn features(value: u64) -> HashMap<u128, u64> {
    let mut state = HashMap::new();
    state.insert(FEATURES_KEY, value);
    state
}

#[test]
fn block_state_is_read_from_the_features() {
    let e = executor();
    assert_eq!(e.init_block_state(&HashMap::new()), (false, false));
    assert_eq!(e.init_block_state(&features(1)), (true, false));
    assert_eq!(e.init_block_state(&features(2)), (false, true));
    assert_eq!(e.init_block_state(&features(7)), (true, true));
}

#[test]
fn uncoordinated_block_runs_each_transaction_against_the_state_before_the_block() {
    let mut state = features(3);
    state.insert(account(1), 0u64);
    state.insert(fa_store(1), 10_000);
    let txns = vec![
        NativeTransaction::FaTransfer { sender: 1, sequence_number: 0, recipient: 2, amount: 10 },
        NativeTransaction::FaTransfer { sender: 1, sequence_number: 1, recipient: 2, amount: 10 },
        NativeTransaction::Nop { sender: 1, sequence_number: 2 },
    ];
    let block: NativeParallelUncoordinatedBlockExecutor<NativeRawTransactionExecutor> =
        NativeParallelUncoordinatedBlockExecutor::new();
    let out = block.execute_block(&txns, &state).unwrap();
    assert!(out.block_end_info.is_none());
    let outputs = out.transaction_outputs;
    assert_eq!(outputs.len(), 3);
    // Nothing orders the two transfers: both see the sender as it was.
    assert_eq!(outputs[0].write_set, outputs[1].write_set);
    assert_eq!(outputs[0].write_set, vec![(account(1), 1), (fa_store(1), 9490), (fa_store(2), 10)]);
    assert_eq!(outputs[2].write_set, vec![(account(1), 1), (fa_store(1), 9996)]);
}

#[test]
fn uncoordinated_block_fails_where_a_transaction_cannot_be_run() {
    let txns = vec![NativeTransaction::Nop { sender: 1, sequence_number: 0 }];
    let block: NativeParallelUncoordinatedBlockExecutor<NativeRawTransactionExecutor> =
        NativeParallelUncoordinatedBlockExecutor::new();
    assert_eq!(
        block.execute_block(&txns, &HashMap::new()).err(),
        Some(VMStatus::Error {
            status_code: StatusCode::DelayedFieldOrBlockstmCodeInvariantError,
            message: Some(ErrorMessage::Transaction(RawError::SenderMissing)),
        })
    );
    let none: Vec<NativeTransaction> = vec![];
    assert!(block.execute_block(&none, &HashMap::new()).unwrap().transaction_outputs.is_empty());
}

#[test]
fn executor_without_storage_keeps_its_own_balances() {
    let mut e = NativeNoStorageRawTransactionExecutor::new();
    assert_eq!(e.balance(1), INITIAL_BALANCE);
    assert_eq!(e.sequence_number(1), None);
    let out = e.execute_transaction(&NativeTransaction::Nop { sender: 1, sequence_number: 9 });
    assert_eq!(out.unwrap(), IncrementalOutput::to_abort(TransactionStatus::Keep));
    assert_eq!(e.balance(1), INITIAL_BALANCE - 400);
    assert_eq!(e.sequence_number(1), Some(9));
    e.execute_transaction(&NativeTransaction::FaTransfer {
        sender: 1,
        sequence_number: 10,
        recipient: 2,
        amount: 1000,
    })
    .unwrap();
    assert_eq!(e.balance(1), INITIAL_BALANCE - 1800);
    assert_eq!(e.balance(2), INITIAL_BALANCE + 1000);
    assert_eq!(e.sequence_number(1), Some(10));
    assert_eq!(e.sequence_number(2), None);
    // A transfer to oneself costs the fee.
    e.execute_transaction(&NativeTransaction::Transfer {
        sender: 2,
        sequence_number: 0,
        recipient: 2,
        amount: 5,
        fail_on_account_existing: true,
        fail_on_account_missing: true,
    })
    .unwrap();
    assert_eq!(e.balance(2), INITIAL_BALANCE + 600);
}

#[test]
fn executor_without_storage_changes_nothing_on_failure() {
    let mut e = NativeNoStorageRawTransactionExecutor::new();
    let too_much = NativeTransaction::FaTransfer {
        sender: 1,
        sequence_number: 4,
        recipient: 2,
        amount: INITIAL_BALANCE,
    };
    assert_eq!(e.execute_transaction(&too_much), Err(RawError::InsufficientBalance));
    assert_eq!(e.balance(1), INITIAL_BALANCE);
    assert_eq!(e.sequence_number(1), None);
    // A batch that moves more than its sender has changes nothing either.
    let batch = NativeTransaction::BatchTransfer {
        sender: 1,
        sequence_number: 7,
        recipients: vec![2, 3],
        amounts: vec![INITIAL_BALANCE, 1],
        fail_on_account_existing: false,
        fail_on_account_missing: false,
    };
    assert_eq!(e.execute_transaction(&batch), Err(RawError::InsufficientBalance));
    assert_eq!(e.balance(1), INITIAL_BALANCE);
    assert_eq!(e.balance(2), INITIAL_BALANCE);
    assert_eq!(e.balance(3), INITIAL_BALANCE);
    assert_eq!(e.sequence_number(1), None);
}

#[test]
fn executor_without_storage_runs_a_batch() {
    let mut e = NativeNoStorageRawTransactionExecutor::new();
    let batch = NativeTransaction::BatchTransfer {
        sender: 1,
        sequence_number: 3,
        recipients: vec![2, 3, 2, 1, 9],
        amounts: vec![10, 20, 30, 40],
        fail_on_account_existing: false,
        fail_on_account_missing: false,
    };
    assert_eq!(
        e.execute_transaction(&batch),
        Ok(IncrementalOutput::to_abort(TransactionStatus::Keep))
    );
    // The sender loses what it sent to others; a batch pays no fee. The
    // fifth recipient has no amount and receives nothing.
    assert_eq!(e.balance(1), INITIAL_BALANCE - 60);
    assert_eq!(e.balance(2), INITIAL_BALANCE + 40);
    assert_eq!(e.balance(3), INITIAL_BALANCE + 20);
    assert_eq!(e.balance(9), INITIAL_BALANCE);
    assert_eq!(e.sequence_number(1), Some(3));
    assert_eq!(e.sequence_number(2), None);
}

#[test]
fn executor_without_storage_runs_an_empty_batch() {
    let mut e = NativeNoStorageRawTransactionExecutor::new();
    let batch = NativeTransaction::BatchTransfer {
        sender: 1,
        sequence_number: 5,
        recipients: vec![],
        amounts: vec![],
        fail_on_account_existing: false,
        fail_on_account_missing: false,
    };
    assert_eq!(
        e.execute_transaction(&batch),
        Ok(IncrementalOutput::to_abort(TransactionStatus::Keep))
    );
    assert_eq!(e.balance(1), INITIAL_BALANCE);
    assert_eq!(e.sequence_number(1), Some(5));
}

#[test]
fn deltas_of_an_empty_batch_are_empty() {
    assert_eq!(compute_deltas_for_batch(&vec![], &vec![], 1), Ok(vec![]));
    assert_eq!(compute_deltas_for_batch(&vec![4, 5], &vec![], 1), Ok(vec![]));
}

#[test]
fn value_cache_reads_once_and_keeps_its_writes() {
    let mut state = HashMap::new();
    state.insert(account(1), 0u64);
    state.insert(fa_store(1), 1000);
    let mut e = NativeValueCacheRawTransactionExecutor::new();
    assert_eq!(e.cached(fa_store(1)), None);
    let nop = NativeTransaction::Nop { sender: 1, sequence_number: 5 };
    assert_eq!(e.execute_transaction(&nop, &state), Ok(IncrementalOutput::to_abort(
        TransactionStatus::Keep
    )));
    assert_eq!(e.cached(account(1)), Some(5));
    assert_eq!(e.cached(fa_store(1)), Some(600));
    // The state is not asked again.
    state.insert(fa_store(1), 0);
    e.execute_transaction(&nop, &state).unwrap();
    assert_eq!(e.cached(fa_store(1)), Some(200));
    assert_eq!(e.execute_transaction(&nop, &state), Err(RawError::InsufficientBalance));
    assert_eq!(e.cached(fa_store(1)), Some(200));
}

#[test]
fn value_cache_balance_updates() {
    let mut state = HashMap::new();
    state.insert(fa_store(1), 10u64);
    let mut e = NativeValueCacheRawTransactionExecutor::new();
    assert_eq!(e.update_fa_balance(1, &state, 5, 3, true), Ok(true));
    assert_eq!(e.cached(fa_store(1)), Some(12));
    // From the cache: the store is not read from the state now.
    assert_eq!(e.update_fa_balance(1, &state, 0, 12, true), Ok(false));
    assert_eq!(e.cached(fa_store(1)), Some(0));
    assert_eq!(e.update_fa_balance(2, &state, 1, 0, true), Err(RawError::AccountMissing));
    assert_eq!(e.update_fa_balance(2, &state, 1, 0, false), Ok(false));
    assert_eq!(e.cached(fa_store(2)), Some(1));
    assert_eq!(e.update_fa_balance(2, &state, u64::MAX, 0, false), Err(RawError::Overflow));
    assert_eq!(e.update_fa_balance(2, &state, 0, 2, false), Err(RawError::InsufficientBalance));
}

#[test]
fn value_cache_transfer_creates_the_recipient() {
    let mut state = HashMap::new();
    state.insert(account(1), 0u64);
    state.insert(fa_store(1), 1000);
    let mut e = NativeValueCacheRawTransactionExecutor::new();
    let transfer = |fail_on_account_existing, fail_on_account_missing| NativeTransaction::Transfer {
        sender: 1,
        sequence_number: 1,
        recipient: 2,
        amount: 10,
        fail_on_account_existing,
        fail_on_account_missing,
    };
    assert_eq!(e.execute_transaction(&transfer(false, true), &state), Err(RawError::AccountMissing));
    // The sender has paid before the recipient was found missing.
    assert_eq!(e.cached(fa_store(1)), Some(590));
    e.execute_transaction(&transfer(true, false), &state).unwrap();
    assert_eq!(e.cached(fa_store(1)), Some(180));
    assert_eq!(e.cached(fa_store(2)), Some(10));
    assert_eq!(e.cached(account(2)), Some(0));
    assert_eq!(e.check_or_create_account(2, &state, true, false), Err(RawError::AccountExists));
    assert_eq!(e.check_or_create_account(2, &state, false, true), Ok(()));
    assert_eq!(e.update_sequence_number(3, &state, 1), Err(RawError::SenderMissing));
}
