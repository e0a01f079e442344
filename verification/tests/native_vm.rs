use block_stm::block_executor::BlockExecutorConfigFromOnchain;
use block_stm::native_vm::{
    DbAccessUtil, NativeCont, NativeEnvironment, NativeError, NativeTransaction,
    GroupWrite, NativeVMBlockExecutor, NativeVMExecutorTask, ResourceGroupSize,
    SignatureVerifiedTransaction, Transaction, VMBlockExecutor, WriteSetPayload, FEATURES_KEY,
    GAS, GAS_UNITS,
};
use block_stm::sequential::execute_block_sequential;
use block_stm::task::{
    ContractEvent, EventKind, ExecutionStatus, ExecutorTask, Step, TransactionStatus,
};
use std::collections::HashMap;

const STORE: u128 = 1 << 64;

fn account(a: u64) -> u128 {
    a as u128
}

fn store(a: u64) -> u128 {
    STORE + a as u128
}

fn state(accounts: &[(u64, u64, u64)]) -> HashMap<u128, u64> {
    let mut s = HashMap::new();
    s.insert(FEATURES_KEY, 1);
    for (a, seq, balance) in accounts {
        s.insert(account(*a), *seq);
        s.insert(store(*a), *balance);
    }
    s
}

fn user(txn: NativeTransaction) -> SignatureVerifiedTransaction {
    SignatureVerifiedTransaction::Valid(Transaction::UserTransaction(txn))
}

fn users(txns: Vec<NativeTransaction>) -> Vec<SignatureVerifiedTransaction> {
    txns.into_iter().map(user).collect()
}

fn task() -> NativeVMExecutorTask {
    NativeVMExecutorTask::init(&NativeEnvironment { fa_migration_complete: true })
}

#[test]
fn keys_of_accounts_and_stores() {
    let util = DbAccessUtil::new();
    assert_eq!(util.new_state_key_account(&7), 7);
    assert_eq!(util.new_state_key_object_resource_group(&7), (1u128 << 64) + 7);
    assert_eq!(util.new_state_key_account(&u64::MAX), u64::MAX as u128);
    assert_eq!(
        util.new_state_key_object_resource_group(&u64::MAX),
        (1u128 << 64) + u64::MAX as u128
    );
    assert_eq!(FEATURES_KEY, 1u128 << 65);
    assert_eq!(DbAccessUtil::new_account_resource(3), 0);
}

#[test]
fn gas_is_four_units_of_a_hundred() {
    assert_eq!(GAS_UNITS, 4);
    assert_eq!(GAS, 400);
}

#[test]
fn sequence_number_must_match_the_account() {
    assert_eq!(NativeVMExecutorTask::check_and_set_sequence_number(5, Some(5)), Ok(6));
    assert_eq!(
        NativeVMExecutorTask::check_and_set_sequence_number(5, Some(6)),
        Err(NativeError::BadSequenceNumber)
    );
    assert_eq!(
        NativeVMExecutorTask::check_and_set_sequence_number(5, None),
        Err(NativeError::SenderMissing)
    );
    assert_eq!(
        NativeVMExecutorTask::check_and_set_sequence_number(u64::MAX, Some(u64::MAX)),
        Err(NativeError::Overflow)
    );
}

#[test]
fn withdrawal_takes_amount_and_fee() {
    assert_eq!(NativeVMExecutorTask::withdraw_fa_apt_from_signer(100, 400, Some(1000)), Ok(500));
    assert_eq!(NativeVMExecutorTask::withdraw_fa_apt_from_signer(600, 400, Some(1000)), Ok(0));
    assert_eq!(
        NativeVMExecutorTask::withdraw_fa_apt_from_signer(601, 400, Some(1000)),
        Err(NativeError::InsufficientBalance)
    );
    assert_eq!(
        NativeVMExecutorTask::withdraw_fa_apt_from_signer(1, 400, None),
        Err(NativeError::StoreMissing)
    );
    assert_eq!(
        NativeVMExecutorTask::withdraw_fa_apt_from_signer(u64::MAX, 400, Some(u64::MAX)),
        Err(NativeError::Overflow)
    );
}

#[test]
fn deposit_credits_or_creates_the_store() {
    assert_eq!(NativeVMExecutorTask::deposit_fa_apt(100, 400, Some(1000)), Ok((1500, true)));
    assert_eq!(NativeVMExecutorTask::deposit_fa_apt(100, 400, None), Ok((100, false)));
    assert_eq!(
        NativeVMExecutorTask::deposit_fa_apt(100, 400, Some(u64::MAX - 499)),
        Err(NativeError::Overflow)
    );
    assert_eq!(
        NativeVMExecutorTask::deposit_fa_apt(100, 400, Some(u64::MAX - 500)),
        Ok((u64::MAX, true))
    );
}

#[test]
fn account_is_created_where_it_is_missing_and_may_be() {
    assert_eq!(NativeVMExecutorTask::check_or_create_account(9, false, false, None), Ok(Some(0)));
    assert_eq!(NativeVMExecutorTask::check_or_create_account(9, false, false, Some(4)), Ok(None));
    assert_eq!(
        NativeVMExecutorTask::check_or_create_account(9, true, false, Some(4)),
        Err(NativeError::AccountExists)
    );
    assert_eq!(
        NativeVMExecutorTask::check_or_create_account(9, false, true, None),
        Err(NativeError::AccountMissing)
    );
    assert_eq!(NativeVMExecutorTask::check_or_create_account(9, true, false, None), Ok(Some(0)));
}

#[test]
fn nop_reads_account_then_store_and_pays_the_fee() {
    let t = task();
    let txn = user(NativeTransaction::Nop { sender: 1, sequence_number: 3 });
    let cont = match t.start(&txn) {
        Step::Read(key, cont) => {
            assert_eq!(key, account(1));
            assert_eq!(cont, NativeCont::SenderAccount);
            cont
        },
        Step::Done(_) => panic!("a nop reads the sender's account first"),
    };
    let cont = match t.resume(&txn, cont, Some(3)) {
        Step::Read(key, cont) => {
            assert_eq!(key, store(1));
            assert_eq!(cont, NativeCont::SenderStore { next_sequence_number: 4 });
            cont
        },
        Step::Done(_) => panic!("a nop reads the sender's store second"),
    };
    match t.resume(&txn, cont, Some(1000)) {
        Step::Done(ExecutionStatus::Success(out)) => {
            assert_eq!(out.write_set, vec![(account(1), 4), (store(1), 600)]);
            assert_eq!(
                out.events,
                vec![ContractEvent { kind: EventKind::Withdraw, account: 1, amount: 400 }]
            );
            assert_eq!(out.gas_used, 4);
            assert_eq!(out.status, TransactionStatus::Keep);
        },
        _ => panic!("the nop goes through"),
    }
}

#[test]
fn fa_transfer_moves_the_amount() {
    let txns = vec![NativeTransaction::FaTransfer {
        sender: 1,
        sequence_number: 0,
        recipient: 2,
        amount: 50,
    }];
    let outs =
        execute_block_sequential(&task(), &users(txns), &state(&[(1, 0, 1000), (2, 0, 10)])).unwrap();
    assert_eq!(outs[0].write_set, vec![(account(1), 1), (store(1), 550), (store(2), 460)]);
    assert_eq!(outs[0].events, vec![
        ContractEvent { kind: EventKind::Withdraw, account: 1, amount: 50 },
        ContractEvent { kind: EventKind::Withdraw, account: 1, amount: 400 },
        ContractEvent { kind: EventKind::Deposit, account: 2, amount: 50 },
    ]);
}

#[test]
fn fa_transfer_to_oneself_writes_each_key_once() {
    let txns = vec![NativeTransaction::FaTransfer {
        sender: 1,
        sequence_number: 0,
        recipient: 1,
        amount: 50,
    }];
    let outs = execute_block_sequential(&task(), &users(txns), &state(&[(1, 0, 1000)])).unwrap();
    // The deposit reads what the store held before the withdrawal.
    assert_eq!(outs[0].write_set, vec![(account(1), 1), (store(1), 1450)]);
}

#[test]
fn transfer_creates_the_recipient() {
    let txns = vec![NativeTransaction::Transfer {
        sender: 1,
        sequence_number: 7,
        recipient: 9,
        amount: 5,
        fail_on_account_existing: true,
        fail_on_account_missing: false,
    }];
    let outs = execute_block_sequential(&task(), &users(txns), &state(&[(1, 7, 1000)])).unwrap();
    assert_eq!(outs[0].write_set, vec![
        (account(1), 8),
        (store(1), 595),
        (store(9), 5),
        (account(9), 0)
    ]);
}

#[test]
fn transfer_to_an_existing_store_reads_no_account() {
    let t = task();
    let txn = NativeTransaction::Transfer {
        sender: 1,
        sequence_number: 0,
        recipient: 2,
        amount: 5,
        fail_on_account_existing: true,
        fail_on_account_missing: true,
    };
    let txn = user(txn);
    let cont = NativeCont::RecipientStore { next_sequence_number: 1, sender_balance: 10 };
    match t.resume(&txn, cont, Some(100)) {
        Step::Done(ExecutionStatus::Success(out)) => {
            assert_eq!(out.write_set, vec![(account(1), 1), (store(1), 10), (store(2), 505)]);
        },
        _ => panic!("the transfer goes through"),
    }
    match t.resume(&txn, cont, None) {
        Step::Read(key, next) => {
            assert_eq!(key, account(2));
            assert_eq!(next, NativeCont::RecipientAccount {
                next_sequence_number: 1,
                sender_balance: 10,
                recipient_balance: 5
            });
            match t.resume(&txn, next, None) {
                Step::Done(ExecutionStatus::Success(out)) => {
                    assert_eq!(out.status, TransactionStatus::Discard(6));
                    assert!(out.write_set.is_empty());
                },
                _ => panic!("the recipient must exist"),
            }
        },
        Step::Done(_) => panic!("a missing store makes the task look at the account"),
    }
}

#[test]
fn failures_are_discarded_outputs_with_their_code() {
    let t = task();
    let txn = user(NativeTransaction::Nop { sender: 1, sequence_number: 3 });
    let expect = |step: Step<NativeCont>, code: u64| match step {
        Step::Done(ExecutionStatus::Success(out)) => {
            assert_eq!(out.status, TransactionStatus::Discard(code));
            assert!(out.write_set.is_empty());
            assert!(out.events.is_empty());
            assert_eq!(out.gas_used, 0);
        },
        _ => panic!("expected an output that is discarded"),
    };
    expect(t.resume(&txn, NativeCont::SenderAccount, None), 1);
    expect(t.resume(&txn, NativeCont::SenderAccount, Some(4)), 2);
    expect(t.resume(&txn, NativeCont::SenderStore { next_sequence_number: 4 }, None), 3);
    expect(t.resume(&txn, NativeCont::SenderStore { next_sequence_number: 4 }, Some(399)), 4);
}

#[test]
fn machine_runs_no_batch_and_no_transfer_before_the_migration() {
    let old = NativeVMExecutorTask::init(&NativeEnvironment { fa_migration_complete: false });
    let transfer = || {
        user(NativeTransaction::Transfer {
            sender: 1,
            sequence_number: 0,
            recipient: 2,
            amount: 5,
            fail_on_account_existing: false,
            fail_on_account_missing: false,
        })
    };
    assert!(!old.accepts(&transfer()));
    assert!(task().accepts(&transfer()));
    let batch = user(NativeTransaction::BatchTransfer {
        sender: 1,
        sequence_number: 0,
        recipients: vec![2],
        amounts: vec![1],
        fail_on_account_existing: false,
        fail_on_account_missing: false,
    });
    assert!(!task().accepts(&batch));
    assert!(!old.accepts(&batch));
    let nop = user(NativeTransaction::Nop { sender: 1, sequence_number: 0 });
    assert!(old.accepts(&nop));
    let fa = user(NativeTransaction::FaTransfer {
        sender: 1,
        sequence_number: 0,
        recipient: 2,
        amount: 1,
    });
    assert!(old.accepts(&fa));
    assert_eq!(old.max_reads(&transfer()), 4);
}

#[test]
fn machine_runs_transactions_of_users_with_a_valid_signature_only() {
    let nop = || Transaction::UserTransaction(NativeTransaction::Nop { sender: 1, sequence_number: 0 });
    assert!(task().accepts(&SignatureVerifiedTransaction::Valid(nop())));
    assert!(!task().accepts(&SignatureVerifiedTransaction::Invalid(nop())));
    assert!(!task().accepts(&SignatureVerifiedTransaction::Valid(
        Transaction::GenesisTransaction(WriteSetPayload::Direct)
    )));
    assert!(SignatureVerifiedTransaction::Valid(nop()).is_valid());
    assert!(!SignatureVerifiedTransaction::Invalid(nop()).is_valid());
}

#[test]
fn only_a_valid_genesis_with_a_direct_write_set_is_not_capable() {
    let capable = NativeVMExecutorTask::is_transaction_dynamic_change_set_capable;
    assert!(!capable(&SignatureVerifiedTransaction::Valid(Transaction::GenesisTransaction(
        WriteSetPayload::Direct
    ))));
    assert!(capable(&SignatureVerifiedTransaction::Invalid(Transaction::GenesisTransaction(
        WriteSetPayload::Direct
    ))));
    assert!(capable(&SignatureVerifiedTransaction::Valid(Transaction::GenesisTransaction(
        WriteSetPayload::Script
    ))));
    assert!(capable(&user(NativeTransaction::Nop { sender: 1, sequence_number: 0 })));
    assert!(capable(&SignatureVerifiedTransaction::Invalid(Transaction::UserTransaction(
        NativeTransaction::Nop { sender: 1, sequence_number: 0 }
    ))));
}

#[test]
fn environment_is_read_from_the_features() {
    let mut s = HashMap::new();
    assert!(!NativeEnvironment::new(&s).fa_migration_complete);
    s.insert(FEATURES_KEY, 2);
    assert!(!NativeEnvironment::new(&s).fa_migration_complete);
    s.insert(FEATURES_KEY, 3);
    assert!(NativeEnvironment::new(&s).fa_migration_complete);
}

fn transfers() -> Vec<SignatureVerifiedTransaction> {
    users(native_transfers())
}

fn native_transfers() -> Vec<NativeTransaction> {
    // A ring of transfers: every transaction depends on its predecessor.
    let mut txns = Vec::new();
    for i in 0..12u64 {
        txns.push(NativeTransaction::FaTransfer {
            sender: i % 4,
            sequence_number: i / 4,
            recipient: (i + 1) % 4,
            amount: 10 + i,
        });
    }
    txns.push(NativeTransaction::Nop { sender: 0, sequence_number: 3 });
    txns.push(NativeTransaction::Transfer {
        sender: 1,
        sequence_number: 3,
        recipient: 77,
        amount: 1,
        fail_on_account_existing: true,
        fail_on_account_missing: false,
    });
    txns
}

#[test]
fn native_block_in_parallel_equals_the_block_in_order() {
    let base = state(&[(0, 0, 10_000), (1, 0, 10_000), (2, 0, 10_000), (3, 0, 10_000)]);
    let in_order = execute_block_sequential(&task(), &transfers(), &base).unwrap();
    assert_eq!(in_order.len(), 14);
    for workers in [0usize, 1, 2, 4, 16] {
        let out = NativeVMBlockExecutor::new(workers)
            .execute_block(transfers(), base.clone(), BlockExecutorConfigFromOnchain {
                block_gas_limit: None,
            })
            .unwrap();
        assert_eq!(out.transaction_outputs, in_order, "{workers} workers");
    }
    let outputs = NativeVMBlockExecutor::new(4).execute_block_no_limit(transfers(), base).unwrap();
    assert_eq!(outputs, in_order);
    assert_eq!(outputs[13].write_set, vec![
        (account(1), 4),
        (store(1), in_order[13].write_set[1].1),
        (store(77), 1),
        (account(77), 0)
    ]);
}

#[test]
fn native_failure_is_discarded_and_the_block_goes_on() {
    // The first sender lacks the balance: its transaction is discarded with
    // the code of the failure and writes nothing; the next one goes through.
    let txns = || {
        users(vec![
            NativeTransaction::Nop { sender: 1, sequence_number: 0 },
            NativeTransaction::Nop { sender: 2, sequence_number: 0 },
            NativeTransaction::Nop { sender: 3, sequence_number: 9 },
        ])
    };
    let base = state(&[(1, 0, 399), (2, 0, 1_000), (3, 0, 1_000)]);
    for workers in [1usize, 4] {
        let out = NativeVMBlockExecutor::new(workers)
            .execute_block(
                txns(),
                base.clone(),
                BlockExecutorConfigFromOnchain { block_gas_limit: None },
            )
            .expect("a transaction that fails does not fail the block");
        let outputs = out.transaction_outputs;
        assert_eq!(outputs.len(), 3);
        assert_eq!(outputs[0].status, TransactionStatus::Discard(4));
        assert!(outputs[0].write_set.is_empty());
        assert_eq!(outputs[0].gas_used, 0);
        assert_eq!(outputs[1].status, TransactionStatus::Keep);
        assert_eq!(outputs[1].write_set, vec![(account(2), 1), (store(2), 600)]);
        assert_eq!(outputs[2].status, TransactionStatus::Discard(2));
        assert!(outputs[2].write_set.is_empty());
    }
}


#[test]
fn write_of_one_resource_into_a_group() {
    assert_eq!(
        NativeVMExecutorTask::create_single_resource_in_group_creation(0, 57),
        GroupWrite {
            creation: true,
            group_size: ResourceGroupSize::Combined {
                num_tagged_resources: 1,
                all_tagged_resources_size: 57
            },
            prev_group_size: 0,
        }
    );
    let size = ResourceGroupSize::Combined { num_tagged_resources: 3, all_tagged_resources_size: 90 };
    assert_eq!(
        NativeVMExecutorTask::create_single_resource_in_group_modification(size, 93),
        GroupWrite { creation: false, group_size: size, prev_group_size: 93 }
    );
    assert_eq!(
        NativeVMExecutorTask::create_single_resource_in_group_modification(
            ResourceGroupSize::Concrete(40),
            40
        ),
        GroupWrite { creation: false, group_size: ResourceGroupSize::Concrete(40), prev_group_size: 40 }
    );
}
