//! A virtual machine without an interpreter: it knows four kinds of
//! transactions (do nothing, move fungible assets, move coins and create the
//! recipient's account where it is missing, move coins to many) and runs
//! them natively. It is the executor task of the benchmarks, and a model of
//! what the engine asks of a task.
//!
//! An account is kept under one key and holds its sequence number; its
//! store of fungible assets is kept under another and holds its balance.

use vstd::prelude::*;
use std::collections::HashMap;
use crate::types::{StateKey, StateValue};
use crate::task::{
    AccountAddress, ContractEvent, EventKind, ExecutionStatus, ExecutionStatusView, ExecutorTask,
    State, Step, StepView, TransactionAuxiliaryData, TransactionOutput, TransactionOutputView,
    TransactionStatus, VMError, WriteOp,
};
use crate::sequential::{BlockExecutionError, PanicError, block_result, outputs_view};
use crate::native_raw::RawError;
use crate::block_executor::end_info_of;
use crate::task::accepts_all;
use crate::block_executor::{
    BlockExecutor, BlockExecutorConfig, BlockExecutorConfigFromOnchain, BlockExecutorLocalConfig,
    BlockOutput,
};

verus! {

/// The units of gas that every native transaction is charged.
pub const GAS_UNITS: u64 = 4;

/// What one unit of gas costs.
pub const GAS_UNIT_PRICE: u64 = 100;

/// The fee of every native transaction, taken from the sender's store.
pub const GAS: u64 = 400;

/// The key under which the features of the chain are kept.
pub const FEATURES_KEY: StateKey = 0x2_0000_0000_0000_0000;

/// The error code of a transfer of coins on a chain that has not moved its
/// balances to stores of fungible assets.
pub const FA_MIGRATION_INCOMPLETE: u64 = 1;

/// The error code of a kind of transaction that the task does not run.
pub const UNSUPPORTED_TRANSACTION: u64 = 2;

/// The error code of a continuation that does not belong to the transaction.
pub const BAD_CONTINUATION: u64 = 3;

/// A transaction that the native machine knows.
pub enum NativeTransaction {
    Nop { sender: AccountAddress, sequence_number: u64 },
    FaTransfer {
        sender: AccountAddress,
        sequence_number: u64,
        recipient: AccountAddress,
        amount: u64,
    },
    Transfer {
        sender: AccountAddress,
        sequence_number: u64,
        recipient: AccountAddress,
        amount: u64,
        fail_on_account_existing: bool,
        fail_on_account_missing: bool,
    },
    BatchTransfer {
        sender: AccountAddress,
        sequence_number: u64,
        recipients: Vec<AccountAddress>,
        amounts: Vec<u64>,
        fail_on_account_existing: bool,
        fail_on_account_missing: bool,
    },
}

/// Why a native transaction could not go through.
#[derive(Clone, Copy, Debug, PartialEq, Eq, Structural)]
pub enum NativeError {
    /// The sender has no account.
    SenderMissing,
    /// The transaction's sequence number is not the account's.
    BadSequenceNumber,
    /// The sender has no store of fungible assets.
    StoreMissing,
    /// The sender's balance does not cover amount and fee.
    InsufficientBalance,
    /// The recipient has an account and must not have one.
    AccountExists,
    /// The recipient has no account and must have one.
    AccountMissing,
    /// A number would grow past what fits.
    Overflow,
}

/// The code under which a native error is reported.
pub open spec fn error_code(e: NativeError) -> u64 {
    match e {
        NativeError::SenderMissing => 1,
        NativeError::BadSequenceNumber => 2,
        NativeError::StoreMissing => 3,
        NativeError::InsufficientBalance => 4,
        NativeError::AccountExists => 5,
        NativeError::AccountMissing => 6,
        NativeError::Overflow => 7,
    }
}

fn code_of(e: NativeError) -> (code: u64)
    ensures
        code == error_code(e),
{
    match e {
        NativeError::SenderMissing => 1,
        NativeError::BadSequenceNumber => 2,
        NativeError::StoreMissing => 3,
        NativeError::InsufficientBalance => 4,
        NativeError::AccountExists => 5,
        NativeError::AccountMissing => 6,
        NativeError::Overflow => 7,
    }
}

/// The key of the account at `address`. It holds the sequence number.
pub open spec fn account_key(address: AccountAddress) -> StateKey {
    address as StateKey
}

/// The key of the store of fungible assets of `address`. It holds the
/// balance.
pub open spec fn fa_store_key(address: AccountAddress) -> StateKey {
    (0x1_0000_0000_0000_0000 + address) as StateKey
}

/// Makes the keys under which accounts and stores are kept.
#[derive(Clone, Copy, Debug, PartialEq, Eq, Structural)]
pub struct DbAccessUtil;

impl DbAccessUtil {
    pub fn new() -> (util: Self) {
        DbAccessUtil
    }

    pub fn new_state_key_account(&self, address: &AccountAddress) -> (key: StateKey)
        ensures
            key == account_key(*address),
    {
        *address as StateKey
    }

    pub fn new_state_key_object_resource_group(&self, address: &AccountAddress) -> (key: StateKey)
        ensures
            key == fa_store_key(*address),
    {
        0x1_0000_0000_0000_0000 + (*address as StateKey)
    }

    /// The value of a new account: its sequence number, zero.
    pub fn new_account_resource(address: AccountAddress) -> (account: StateValue)
        ensures
            account == 0,
    {
        0
    }
}

/// The keys of accounts, of stores and of the features are all different.
pub proof fn lemma_keys_distinct(a: AccountAddress, b: AccountAddress)
    ensures
        account_key(a) != fa_store_key(b),
        account_key(a) != FEATURES_KEY,
        fa_store_key(a) != FEATURES_KEY,
        account_key(a) == account_key(b) ==> a == b,
        fa_store_key(a) == fa_store_key(b) ==> a == b,
{
}

/// The sequence number that the sender's account holds after a transaction
/// with `sequence_number`, given what the account holds.
pub open spec fn spec_check_and_set_sequence_number(
    sequence_number: u64,
    account: Option<StateValue>,
) -> Result<StateValue, NativeError> {
    match account {
        None => Err(NativeError::SenderMissing),
        Some(current) => if sequence_number != current {
            Err(NativeError::BadSequenceNumber)
        } else if current == u64::MAX {
            Err(NativeError::Overflow)
        } else {
            Ok((current + 1) as u64)
        },
    }
}

/// The balance that the sender's store holds after amount and fee were
/// taken from it, given what the store holds.
pub open spec fn spec_withdraw_fa_apt_from_signer(
    transfer_amount: u64,
    gas: u64,
    store: Option<StateValue>,
) -> Result<StateValue, NativeError> {
    match store {
        None => Err(NativeError::StoreMissing),
        Some(balance) => if transfer_amount + gas > u64::MAX {
            Err(NativeError::Overflow)
        } else if balance < transfer_amount + gas {
            Err(NativeError::InsufficientBalance)
        } else {
            Ok((balance - (transfer_amount + gas)) as u64)
        },
    }
}

/// The balance that the recipient's store holds after the deposit, and
/// whether the store existed, given what the store holds. A store that
/// exists is credited with amount and fee; a store that does not is made
/// with the amount.
pub open spec fn spec_deposit_fa_apt(
    transfer_amount: u64,
    gas: u64,
    store: Option<StateValue>,
) -> Result<(StateValue, bool), NativeError> {
    match store {
        Some(balance) => if balance + transfer_amount + gas > u64::MAX {
            Err(NativeError::Overflow)
        } else {
            Ok(((balance + transfer_amount + gas) as u64, true))
        },
        None => Ok((transfer_amount, false)),
    }
}

/// The account to be made for the recipient, if one is to be made, given
/// what the recipient's account holds.
pub open spec fn spec_check_or_create_account(
    fail_on_account_existing: bool,
    fail_on_account_missing: bool,
    account: Option<StateValue>,
) -> Result<Option<StateValue>, NativeError> {
    match account {
        Some(_) => if fail_on_account_existing {
            Err(NativeError::AccountExists)
        } else {
            Ok(None)
        },
        None => if fail_on_account_missing {
            Err(NativeError::AccountMissing)
        } else {
            Ok(Some(0))
        },
    }
}

/// Where the execution of a native transaction stands.
#[derive(Clone, Copy, Debug, PartialEq, Eq, Structural)]
pub enum NativeCont {
    /// The sender's account is being read.
    SenderAccount,
    /// The sender's store is being read.
    SenderStore { next_sequence_number: u64 },
    /// The recipient's store is being read.
    RecipientStore { next_sequence_number: u64, sender_balance: u64 },
    /// The recipient's account is being read.
    RecipientAccount { next_sequence_number: u64, sender_balance: u64, recipient_balance: u64 },
}

/// The sender of a transaction.
pub open spec fn sender_of(txn: NativeTransaction) -> AccountAddress {
    match txn {
        NativeTransaction::Nop { sender, .. } => sender,
        NativeTransaction::FaTransfer { sender, .. } => sender,
        NativeTransaction::Transfer { sender, .. } => sender,
        NativeTransaction::BatchTransfer { sender, .. } => sender,
    }
}

/// The sequence number of a transaction.
pub open spec fn sequence_number_of(txn: NativeTransaction) -> u64 {
    match txn {
        NativeTransaction::Nop { sequence_number, .. } => sequence_number,
        NativeTransaction::FaTransfer { sequence_number, .. } => sequence_number,
        NativeTransaction::Transfer { sequence_number, .. } => sequence_number,
        NativeTransaction::BatchTransfer { sequence_number, .. } => sequence_number,
    }
}

/// The amount that a transaction moves.
pub open spec fn amount_of(txn: NativeTransaction) -> u64 {
    match txn {
        NativeTransaction::FaTransfer { amount, .. } => amount,
        NativeTransaction::Transfer { amount, .. } => amount,
        _ => 0,
    }
}

/// The recipient of a transaction that has one.
pub open spec fn recipient_of(txn: NativeTransaction) -> AccountAddress {
    match txn {
        NativeTransaction::FaTransfer { recipient, .. } => recipient,
        NativeTransaction::Transfer { recipient, .. } => recipient,
        _ => 0,
    }
}

/// The write set with `key` set to `value`: in place where the set has the
/// key, at the end where it has not.
pub open spec fn with_write(writes: Seq<WriteOp>, key: StateKey, value: StateValue) -> Seq<WriteOp> {
    if exists|i: int| 0 <= i < writes.len() && writes[i].0 == key {
        let i = choose|i: int| 0 <= i < writes.len() && writes[i].0 == key;
        writes.update(i, (key, value))
    } else {
        writes.push((key, value))
    }
}

/// The events of the sender's side: the withdrawal of the amount, where one
/// is moved, and that of the fee.
pub open spec fn withdraw_events(sender: AccountAddress, amount: u64) -> Seq<ContractEvent> {
    let fee = ContractEvent { kind: EventKind::Withdraw, account: sender, amount: GAS };
    if amount > 0 {
        seq![ContractEvent { kind: EventKind::Withdraw, account: sender, amount }, fee]
    } else {
        seq![fee]
    }
}

/// The event of the recipient's side.
pub open spec fn deposit_event(recipient: AccountAddress, amount: u64) -> ContractEvent {
    ContractEvent { kind: EventKind::Deposit, account: recipient, amount }
}

/// The output of a native transaction that went through.
pub open spec fn success(write_set: Seq<WriteOp>, events: Seq<ContractEvent>) -> ExecutionStatusView {
    ExecutionStatusView::Success(
        TransactionOutputView {
            write_set,
            events,
            gas_used: GAS_UNITS,
            status: TransactionStatus::Keep,
            auxiliary_data: TransactionAuxiliaryData::Empty,
        },
    )
}

/// The output of a native transaction that fails by its own logic: the
/// transaction ran, nothing is written and nothing charged, and the status
/// says with which code it is discarded. The block goes on.
pub open spec fn failure(e: NativeError) -> ExecutionStatusView {
    ExecutionStatusView::Success(
        TransactionOutputView {
            write_set: Seq::empty(),
            events: Seq::empty(),
            gas_used: 0,
            status: TransactionStatus::Discard(error_code(e)),
            auxiliary_data: TransactionAuxiliaryData::Empty,
        },
    )
}

/// The writes of the sender's side.
pub open spec fn sender_writes(
    sender: AccountAddress,
    next_sequence_number: u64,
    sender_balance: u64,
) -> Seq<WriteOp> {
    seq![(account_key(sender), next_sequence_number), (fa_store_key(sender), sender_balance)]
}

/// Whether the native machine runs the transaction: it runs no batch, and
/// no transfer of coins before the migration to fungible assets is
/// complete.
pub open spec fn native_accepts(fa_migration_complete: bool, txn: NativeTransaction) -> bool {
    match txn {
        NativeTransaction::BatchTransfer { .. } => false,
        NativeTransaction::Transfer { .. } => fa_migration_complete,
        _ => true,
    }
}

/// What a native transaction does first.
pub open spec fn native_start(fa_migration_complete: bool, txn: NativeTransaction) -> StepView<
    NativeCont,
> {
    match txn {
        NativeTransaction::BatchTransfer { .. } => StepView::Done(
            ExecutionStatusView::Abort(VMError::Fatal(UNSUPPORTED_TRANSACTION)),
        ),
        NativeTransaction::Transfer { .. } => if !fa_migration_complete {
            StepView::Done(ExecutionStatusView::Abort(VMError::Fatal(FA_MIGRATION_INCOMPLETE)))
        } else {
            StepView::Read(account_key(sender_of(txn)), NativeCont::SenderAccount)
        },
        _ => StepView::Read(account_key(sender_of(txn)), NativeCont::SenderAccount),
    }
}

/// What a native transaction does after the read that `cont` waited for
/// gave `value`.
pub open spec fn native_resume(
    txn: NativeTransaction,
    cont: NativeCont,
    value: Option<StateValue>,
) -> StepView<NativeCont> {
    let sender = sender_of(txn);
    let recipient = recipient_of(txn);
    let amount = amount_of(txn);
    match cont {
        NativeCont::SenderAccount => match spec_check_and_set_sequence_number(
            sequence_number_of(txn),
            value,
        ) {
            Err(e) => StepView::Done(failure(e)),
            Ok(next_sequence_number) => StepView::Read(
                fa_store_key(sender),
                NativeCont::SenderStore { next_sequence_number },
            ),
        },
        NativeCont::SenderStore { next_sequence_number } => match spec_withdraw_fa_apt_from_signer(
            amount,
            GAS,
            value,
        ) {
            Err(e) => StepView::Done(failure(e)),
            Ok(sender_balance) => match txn {
                NativeTransaction::Nop { .. } => StepView::Done(
                    success(
                        sender_writes(sender, next_sequence_number, sender_balance),
                        withdraw_events(sender, 0),
                    ),
                ),
                NativeTransaction::BatchTransfer { .. } => StepView::Done(
                    ExecutionStatusView::Abort(VMError::Fatal(BAD_CONTINUATION)),
                ),
                _ => StepView::Read(
                    fa_store_key(recipient),
                    NativeCont::RecipientStore { next_sequence_number, sender_balance },
                ),
            },
        },
        NativeCont::RecipientStore { next_sequence_number, sender_balance } => match spec_deposit_fa_apt(
            amount,
            GAS,
            value,
        ) {
            Err(e) => StepView::Done(failure(e)),
            Ok((recipient_balance, existed)) => {
                let done = StepView::Done(
                    success(
                        with_write(
                            sender_writes(sender, next_sequence_number, sender_balance),
                            fa_store_key(recipient),
                            recipient_balance,
                        ),
                        withdraw_events(sender, amount).push(deposit_event(recipient, amount)),
                    ),
                );
                match txn {
                    NativeTransaction::FaTransfer { .. } => done,
                    NativeTransaction::Transfer { .. } => if existed {
                        done
                    } else {
                        StepView::Read(
                            account_key(recipient),
                            NativeCont::RecipientAccount {
                                next_sequence_number,
                                sender_balance,
                                recipient_balance,
                            },
                        )
                    },
                    _ => StepView::Done(
                        ExecutionStatusView::Abort(VMError::Fatal(BAD_CONTINUATION)),
                    ),
                }
            },
        },
        NativeCont::RecipientAccount {
            next_sequence_number,
            sender_balance,
            recipient_balance,
        } => match txn {
            NativeTransaction::Transfer {
                fail_on_account_existing,
                fail_on_account_missing,
                ..
            } => match spec_check_or_create_account(
                fail_on_account_existing,
                fail_on_account_missing,
                value,
            ) {
                Err(e) => StepView::Done(failure(e)),
                Ok(created) => {
                    let transfer = with_write(
                        sender_writes(sender, next_sequence_number, sender_balance),
                        fa_store_key(recipient),
                        recipient_balance,
                    );
                    StepView::Done(
                        success(
                            match created {
                                Some(account) => with_write(
                                    transfer,
                                    account_key(recipient),
                                    account,
                                ),
                                None => transfer,
                            },
                            withdraw_events(sender, amount).push(deposit_event(recipient, amount)),
                        ),
                    )
                },
            },
            _ => StepView::Done(ExecutionStatusView::Abort(VMError::Fatal(BAD_CONTINUATION))),
        },
    }
}

/// Sets `key` to `value` in the write set: in place where the set has the
/// key, at the end where it has not.
fn insert_write(writes: &mut Vec<WriteOp>, key: StateKey, value: StateValue)
    requires
        forall|a: int, b: int|
            0 <= a < b < old(writes)@.len() ==> old(writes)@[a].0 != old(writes)@[b].0,
    ensures
        final(writes)@ == with_write(old(writes)@, key, value),
        forall|a: int, b: int|
            0 <= a < b < final(writes)@.len() ==> final(writes)@[a].0 != final(writes)@[b].0,
{
    let ghost before = writes@;
    let mut i: usize = 0;
    let mut found = false;
    while i < writes.len() && !found
        invariant
            writes@ == before,
            i <= before.len(),
            found ==> i < before.len() && before[i as int].0 == key,
            forall|q: int| 0 <= q < i ==> before[q].0 != key,
        decreases before.len() - i + (if found { 0int } else { 1int }),
    {
        if writes[i].0 == key {
            found = true;
        } else {
            i = i + 1;
        }
    }
    if found {
        proof {
            let c = choose|c: int| 0 <= c < before.len() && before[c].0 == key;
            if c < i {
                assert(before[c].0 != key);
            }
            if i < c {
                assert(before[i as int].0 != before[c].0);
            }
        }
        writes.set(i, (key, value));
    } else {
        writes.push((key, value));
    }
}

/// The native machine's task.
pub struct NativeVMExecutorTask {
    fa_migration_complete: bool,
    db_util: DbAccessUtil,
}

/// What the task is made from: the features of the chain.
#[derive(Clone, Copy, Debug, PartialEq, Eq, Structural)]
pub struct NativeEnvironment {
    pub fa_migration_complete: bool,
}

/// Whether the state says that balances are kept in stores of fungible
/// assets: the features hold an odd number.
pub open spec fn spec_fa_migration_complete(state: State) -> bool {
    state.contains_key(FEATURES_KEY) && state[FEATURES_KEY] % 2 == 1
}

impl NativeEnvironment {
    /// The environment that the state describes.
    pub fn new(state: &HashMap<StateKey, StateValue>) -> (env: Self)
        ensures
            env.fa_migration_complete == spec_fa_migration_complete(state@),
    {
        broadcast use vstd::std_specs::hash::group_hash_axioms;

        let fa_migration_complete = match state.get(&FEATURES_KEY) {
            Some(v) => *v % 2 == 1,
            None => false,
        };
        NativeEnvironment { fa_migration_complete }
    }
}

impl NativeVMExecutorTask {
    /// Whether the task moves balances as fungible assets.
    pub closed spec fn fa_migration_complete(&self) -> bool {
        self.fa_migration_complete
    }

    /// Checks the transaction's sequence number against the sender's account
    /// and yields the sequence number that the account is to hold.
    pub fn check_and_set_sequence_number(sequence_number: u64, account: Option<StateValue>) -> (next:
        Result<StateValue, NativeError>)
        ensures
            next == spec_check_and_set_sequence_number(sequence_number, account),
    {
        match account {
            Some(current) => {
                if sequence_number == current {
                    match current.checked_add(1) {
                        Some(next) => Ok(next),
                        None => Err(NativeError::Overflow),
                    }
                } else {
                    Err(NativeError::BadSequenceNumber)
                }
            },
            None => Err(NativeError::SenderMissing),
        }
    }

    /// Decides, from what the recipient's account holds, whether the account
    /// is to be made, and yields what it is to hold.
    pub fn check_or_create_account(
        address: AccountAddress,
        fail_on_account_existing: bool,
        fail_on_account_missing: bool,
        account: Option<StateValue>,
    ) -> (created: Result<Option<StateValue>, NativeError>)
        ensures
            created == spec_check_or_create_account(
                fail_on_account_existing,
                fail_on_account_missing,
                account,
            ),
    {
        match account {
            Some(_) => {
                if fail_on_account_existing {
                    return Err(NativeError::AccountExists);
                }
                Ok(None)
            },
            None => {
                if fail_on_account_missing {
                    Err(NativeError::AccountMissing)
                } else {
                    Ok(Some(DbAccessUtil::new_account_resource(address)))
                }
            },
        }
    }

    /// Takes amount and fee from the sender's store and yields the balance
    /// that the store is to hold.
    pub fn withdraw_fa_apt_from_signer(transfer_amount: u64, gas: u64, store: Option<StateValue>) -> (balance:
        Result<StateValue, NativeError>)
        ensures
            balance == spec_withdraw_fa_apt_from_signer(transfer_amount, gas, store),
    {
        match store {
            Some(balance) => {
                match transfer_amount.checked_add(gas) {
                    Some(total) => {
                        if balance >= total {
                            Ok(balance - total)
                        } else {
                            Err(NativeError::InsufficientBalance)
                        }
                    },
                    None => Err(NativeError::Overflow),
                }
            },
            None => Err(NativeError::StoreMissing),
        }
    }

    /// Credits the recipient's store, or makes it, and yields the balance
    /// that the store is to hold and whether it existed.
    pub fn deposit_fa_apt(transfer_amount: u64, gas: u64, store: Option<StateValue>) -> (deposited:
        Result<(StateValue, bool), NativeError>)
        ensures
            deposited == spec_deposit_fa_apt(transfer_amount, gas, store),
    {
        match store {
            Some(balance) => {
                match transfer_amount.checked_add(gas) {
                    Some(total) => match balance.checked_add(total) {
                        Some(b) => Ok((b, true)),
                        None => Err(NativeError::Overflow),
                    },
                    None => Err(NativeError::Overflow),
                }
            },
            None => Ok((transfer_amount, false)),
        }
    }

    fn sender(txn: &NativeTransaction) -> (a: AccountAddress)
        ensures
            a == sender_of(*txn),
    {
        match txn {
            NativeTransaction::Nop { sender, .. } => *sender,
            NativeTransaction::FaTransfer { sender, .. } => *sender,
            NativeTransaction::Transfer { sender, .. } => *sender,
            NativeTransaction::BatchTransfer { sender, .. } => *sender,
        }
    }

    fn sequence_number(txn: &NativeTransaction) -> (n: u64)
        ensures
            n == sequence_number_of(*txn),
    {
        match txn {
            NativeTransaction::Nop { sequence_number, .. } => *sequence_number,
            NativeTransaction::FaTransfer { sequence_number, .. } => *sequence_number,
            NativeTransaction::Transfer { sequence_number, .. } => *sequence_number,
            NativeTransaction::BatchTransfer { sequence_number, .. } => *sequence_number,
        }
    }

    fn amount(txn: &NativeTransaction) -> (n: u64)
        ensures
            n == amount_of(*txn),
    {
        match txn {
            NativeTransaction::FaTransfer { amount, .. } => *amount,
            NativeTransaction::Transfer { amount, .. } => *amount,
            _ => 0,
        }
    }

    fn recipient(txn: &NativeTransaction) -> (a: AccountAddress)
        ensures
            a == recipient_of(*txn),
    {
        match txn {
            NativeTransaction::FaTransfer { recipient, .. } => *recipient,
            NativeTransaction::Transfer { recipient, .. } => *recipient,
            _ => 0,
        }
    }

    fn discard(e: NativeError) -> (step: Step<NativeCont>)
        ensures
            step@ == StepView::<NativeCont>::Done(failure(e)),
    {
        let out = TransactionOutput {
            write_set: Vec::new(),
            events: Vec::new(),
            gas_used: 0,
            status: TransactionStatus::Discard(code_of(e)),
            auxiliary_data: TransactionAuxiliaryData::Empty,
        };
        proof {
            assert(out.write_set@ =~= Seq::<WriteOp>::empty());
            assert(out.events@ =~= Seq::<ContractEvent>::empty());
        }
        Step::Done(ExecutionStatus::Success(out))
    }

    fn refuse(code: u64) -> (step: Step<NativeCont>)
        ensures
            step@ == StepView::<NativeCont>::Done(ExecutionStatusView::Abort(VMError::Fatal(code))),
    {
        Step::Done(ExecutionStatus::Abort(VMError::Fatal(code)))
    }

    /// The output of a transaction that went through.
    fn succeed(
        &self,
        txn: &NativeTransaction,
        next_sequence_number: u64,
        sender_balance: u64,
        recipient_balance: Option<u64>,
        created: Option<StateValue>,
    ) -> (step: Step<NativeCont>)
        ensures
            step@ == StepView::<NativeCont>::Done(
                success(
                    {
                        let s = sender_writes(sender_of(*txn), next_sequence_number, sender_balance);
                        let t = match recipient_balance {
                            Some(b) => with_write(s, fa_store_key(recipient_of(*txn)), b),
                            None => s,
                        };
                        match created {
                            Some(account) => with_write(t, account_key(recipient_of(*txn)), account),
                            None => t,
                        }
                    },
                    match recipient_balance {
                        Some(_) => withdraw_events(sender_of(*txn), amount_of(*txn)).push(
                            deposit_event(recipient_of(*txn), amount_of(*txn)),
                        ),
                        None => withdraw_events(sender_of(*txn), 0),
                    },
                ),
            ),
    {
        let sender = Self::sender(txn);
        let recipient = Self::recipient(txn);
        let amount = Self::amount(txn);
        let mut write_set: Vec<WriteOp> = Vec::new();
        write_set.push((self.db_util.new_state_key_account(&sender), next_sequence_number));
        write_set.push((self.db_util.new_state_key_object_resource_group(&sender), sender_balance));
        proof {
            lemma_keys_distinct(sender, sender);
            assert(write_set@ =~= sender_writes(sender, next_sequence_number, sender_balance));
        }
        let mut events: Vec<ContractEvent> = Vec::new();
        match recipient_balance {
            Some(b) => {
                insert_write(
                    &mut write_set,
                    self.db_util.new_state_key_object_resource_group(&recipient),
                    b,
                );
                if amount > 0 {
                    events.push(ContractEvent { kind: EventKind::Withdraw, account: sender, amount });
                }
                events.push(ContractEvent { kind: EventKind::Withdraw, account: sender, amount: GAS });
                events.push(ContractEvent { kind: EventKind::Deposit, account: recipient, amount });
                proof {
                    assert(events@ =~= withdraw_events(sender, amount).push(
                        deposit_event(recipient, amount),
                    ));
                }
            },
            None => {
                events.push(ContractEvent { kind: EventKind::Withdraw, account: sender, amount: GAS });
                proof {
                    assert(events@ =~= withdraw_events(sender, 0));
                }
            },
        }
        match created {
            Some(account) => {
                insert_write(&mut write_set, self.db_util.new_state_key_account(&recipient), account);
            },
            None => {},
        }
        Step::Done(
            ExecutionStatus::Success(
                TransactionOutput::new(
                    write_set,
                    events,
                    GAS_UNITS,
                    TransactionStatus::Keep,
                    TransactionAuxiliaryData::Empty,
                ),
            ),
        )
    }

    /// Runs a transaction from where it stands to its next read or to its
    /// end. `progress` is `None` at the start; after a read it holds where
    /// the transaction stood and what the read gave. The transaction is one
    /// that the machine runs: no batch, and no transfer of coins before the
    /// migration to fungible assets is complete.
    pub fn execute_transaction_impl(
        &self,
        txn: &NativeTransaction,
        progress: Option<(NativeCont, Option<StateValue>)>,
    ) -> (step: Step<NativeCont>)
        requires
            native_accepts(self.fa_migration_complete(), *txn),
        ensures
            step@ == (match progress {
                None => native_start(self.fa_migration_complete(), *txn),
                Some((cont, value)) => native_resume(*txn, cont, value),
            }),
    {
        let sender = Self::sender(txn);
        let recipient = Self::recipient(txn);
        let amount = Self::amount(txn);
        match progress {
            None => {
                match txn {
                    NativeTransaction::BatchTransfer { .. } => Self::refuse(UNSUPPORTED_TRANSACTION),
                    NativeTransaction::Transfer { .. } => {
                        if !self.fa_migration_complete {
                            Self::refuse(FA_MIGRATION_INCOMPLETE)
                        } else {
                            Step::Read(
                                self.db_util.new_state_key_account(&sender),
                                NativeCont::SenderAccount,
                            )
                        }
                    },
                    _ => Step::Read(
                        self.db_util.new_state_key_account(&sender),
                        NativeCont::SenderAccount,
                    ),
                }
            },
            Some((NativeCont::SenderAccount, value)) => {
                match Self::check_and_set_sequence_number(Self::sequence_number(txn), value) {
                    Err(e) => Self::discard(e),
                    Ok(next_sequence_number) => Step::Read(
                        self.db_util.new_state_key_object_resource_group(&sender),
                        NativeCont::SenderStore { next_sequence_number },
                    ),
                }
            },
            Some((NativeCont::SenderStore { next_sequence_number }, value)) => {
                match Self::withdraw_fa_apt_from_signer(amount, GAS, value) {
                    Err(e) => Self::discard(e),
                    Ok(sender_balance) => match txn {
                        NativeTransaction::Nop { .. } => self.succeed(
                            txn,
                            next_sequence_number,
                            sender_balance,
                            None,
                            None,
                        ),
                        NativeTransaction::BatchTransfer { .. } => Self::refuse(BAD_CONTINUATION),
                        _ => Step::Read(
                            self.db_util.new_state_key_object_resource_group(&recipient),
                            NativeCont::RecipientStore { next_sequence_number, sender_balance },
                        ),
                    },
                }
            },
            Some((NativeCont::RecipientStore { next_sequence_number, sender_balance }, value)) => {
                match Self::deposit_fa_apt(amount, GAS, value) {
                    Err(e) => Self::discard(e),
                    Ok((recipient_balance, existed)) => match txn {
                        NativeTransaction::FaTransfer { .. } => self.succeed(
                            txn,
                            next_sequence_number,
                            sender_balance,
                            Some(recipient_balance),
                            None,
                        ),
                        NativeTransaction::Transfer { .. } => {
                            if existed {
                                self.succeed(
                                    txn,
                                    next_sequence_number,
                                    sender_balance,
                                    Some(recipient_balance),
                                    None,
                                )
                            } else {
                                Step::Read(
                                    self.db_util.new_state_key_account(&recipient),
                                    NativeCont::RecipientAccount {
                                        next_sequence_number,
                                        sender_balance,
                                        recipient_balance,
                                    },
                                )
                            }
                        },
                        _ => Self::refuse(BAD_CONTINUATION),
                    },
                }
            },
            Some(
                (
                    NativeCont::RecipientAccount {
                        next_sequence_number,
                        sender_balance,
                        recipient_balance,
                    },
                    value,
                ),
            ) => {
                match txn {
                    NativeTransaction::Transfer {
                        fail_on_account_existing,
                        fail_on_account_missing,
                        ..
                    } => {
                        match Self::check_or_create_account(
                            recipient,
                            *fail_on_account_existing,
                            *fail_on_account_missing,
                            value,
                        ) {
                            Err(e) => Self::discard(e),
                            Ok(created) => self.succeed(
                                txn,
                                next_sequence_number,
                                sender_balance,
                                Some(recipient_balance),
                                created,
                            ),
                        }
                    },
                    _ => Self::refuse(BAD_CONTINUATION),
                }
            },
        }
    }
}

/// The size of a group of resources: as one number of bytes, or as the
/// number of its resources and the bytes that they take with their tags.
#[derive(Clone, Copy, Debug, PartialEq, Eq, Structural)]
pub enum ResourceGroupSize {
    Concrete(u64),
    Combined { num_tagged_resources: usize, all_tagged_resources_size: u64 },
}

/// What the write of one resource into a group says of the group: whether
/// the write makes the group, the size of the group after the write, and
/// its size in bytes before.
#[derive(Clone, Copy, Debug, PartialEq, Eq, Structural)]
pub struct GroupWrite {
    pub creation: bool,
    pub group_size: ResourceGroupSize,
    pub prev_group_size: u64,
}

impl NativeVMExecutorTask {
    /// The write of one resource into a group that holds it already: the
    /// group keeps its size, which is `size` and in bytes `size_in_bytes`.
    pub fn create_single_resource_in_group_modification(
        size: ResourceGroupSize,
        size_in_bytes: u64,
    ) -> (write: GroupWrite)
        ensures
            write == (GroupWrite {
                creation: false,
                group_size: size,
                prev_group_size: size_in_bytes,
            }),
    {
        GroupWrite { creation: false, group_size: size, prev_group_size: size_in_bytes }
    }

    /// The write of the first resource into a group, which it makes: the
    /// group then holds this one resource, which takes
    /// `tagged_resource_size` bytes with its tag. The group held nothing
    /// before.
    pub fn create_single_resource_in_group_creation(
        size_before: u64,
        tagged_resource_size: u64,
    ) -> (write: GroupWrite)
        requires
            size_before == 0,
        ensures
            write == (GroupWrite {
                creation: true,
                group_size: ResourceGroupSize::Combined {
                    num_tagged_resources: 1,
                    all_tagged_resources_size: tagged_resource_size,
                },
                prev_group_size: 0,
            }),
    {
        GroupWrite {
            creation: true,
            group_size: ResourceGroupSize::Combined {
                num_tagged_resources: 1,
                all_tagged_resources_size: tagged_resource_size,
            },
            prev_group_size: size_before,
        }
    }
}

/// How the write set of a genesis transaction comes.
#[derive(Clone, Copy, Debug, PartialEq, Eq, Structural)]
pub enum WriteSetPayload {
    /// The write set itself, to be written to the state directly.
    Direct,
    /// A script that produces the write set.
    Script,
}

/// A transaction of a block.
pub enum Transaction {
    /// A transaction that a user sent.
    UserTransaction(NativeTransaction),
    /// The transaction that begins the chain.
    GenesisTransaction(WriteSetPayload),
}

/// A transaction of a block after its signature was checked.
pub enum SignatureVerifiedTransaction {
    Valid(Transaction),
    Invalid(Transaction),
}

/// The native transaction that a transaction of a block holds, where it is
/// one that a user sent and its signature is valid.
pub open spec fn native_of(txn: SignatureVerifiedTransaction) -> Option<NativeTransaction> {
    match txn {
        SignatureVerifiedTransaction::Valid(Transaction::UserTransaction(native)) => Some(native),
        _ => None,
    }
}

impl SignatureVerifiedTransaction {
    /// Whether the signature is valid.
    pub fn is_valid(&self) -> (valid: bool)
        ensures
            valid == (*self is Valid),
    {
        match self {
            SignatureVerifiedTransaction::Valid(_) => true,
            SignatureVerifiedTransaction::Invalid(_) => false,
        }
    }
}

impl ExecutorTask for NativeVMExecutorTask {
    type Txn = SignatureVerifiedTransaction;

    type Cont = NativeCont;

    type Environment = NativeEnvironment;

    closed spec fn spec_init(env: NativeEnvironment) -> Self {
        NativeVMExecutorTask {
            fa_migration_complete: env.fa_migration_complete,
            db_util: DbAccessUtil,
        }
    }

    open spec fn spec_max_reads(&self, txn: SignatureVerifiedTransaction) -> nat {
        4
    }

    open spec fn spec_start(&self, txn: SignatureVerifiedTransaction) -> StepView<NativeCont> {
        match native_of(txn) {
            Some(native) => native_start(self.fa_migration_complete(), native),
            None => StepView::Done(
                ExecutionStatusView::Abort(VMError::Fatal(UNSUPPORTED_TRANSACTION)),
            ),
        }
    }

    open spec fn spec_resume(
        &self,
        txn: SignatureVerifiedTransaction,
        cont: NativeCont,
        value: Option<StateValue>,
    ) -> StepView<NativeCont> {
        match native_of(txn) {
            Some(native) => native_resume(native, cont, value),
            None => StepView::Done(
                ExecutionStatusView::Abort(VMError::Fatal(UNSUPPORTED_TRANSACTION)),
            ),
        }
    }

    /// A valid genesis transaction that writes its write set to the state
    /// directly cannot take part in the optimisations that merge changes;
    /// every other transaction can.
    open spec fn spec_dynamic_change_set_capable(txn: SignatureVerifiedTransaction) -> bool {
        !(txn matches SignatureVerifiedTransaction::Valid(
            Transaction::GenesisTransaction(WriteSetPayload::Direct),
        ))
    }

    /// The machine runs the transactions of users whose signature is valid,
    /// but for batches and for transfers of coins before the migration to
    /// fungible assets is complete.
    open spec fn spec_accepts(&self, txn: SignatureVerifiedTransaction) -> bool {
        native_of(txn) matches Some(native) && native_accepts(
            self.fa_migration_complete(),
            native,
        )
    }

    fn accepts(&self, txn: &SignatureVerifiedTransaction) -> (accepted: bool) {
        match txn {
            SignatureVerifiedTransaction::Valid(Transaction::UserTransaction(native)) => {
                match native {
                    NativeTransaction::BatchTransfer { .. } => false,
                    NativeTransaction::Transfer { .. } => self.fa_migration_complete,
                    _ => true,
                }
            },
            _ => false,
        }
    }

    fn init(env: &NativeEnvironment) -> (task: Self) {
        NativeVMExecutorTask {
            fa_migration_complete: env.fa_migration_complete,
            db_util: DbAccessUtil::new(),
        }
    }

    fn max_reads(&self, txn: &SignatureVerifiedTransaction) -> (n: usize) {
        4
    }

    fn start(&self, txn: &SignatureVerifiedTransaction) -> (step: Step<NativeCont>) {
        match txn {
            SignatureVerifiedTransaction::Valid(Transaction::UserTransaction(native)) => {
                self.execute_transaction_impl(native, None)
            },
            _ => Self::refuse(UNSUPPORTED_TRANSACTION),
        }
    }

    fn resume(
        &self,
        txn: &SignatureVerifiedTransaction,
        cont: NativeCont,
        value: Option<StateValue>,
    ) -> (step: Step<NativeCont>) {
        match txn {
            SignatureVerifiedTransaction::Valid(Transaction::UserTransaction(native)) => {
                self.execute_transaction_impl(native, Some((cont, value)))
            },
            _ => Self::refuse(UNSUPPORTED_TRANSACTION),
        }
    }

    fn is_transaction_dynamic_change_set_capable(txn: &SignatureVerifiedTransaction) -> (capable:
        bool) {
        match txn {
            SignatureVerifiedTransaction::Valid(
                Transaction::GenesisTransaction(WriteSetPayload::Direct),
            ) => false,
            _ => true,
        }
    }
}

/// The codes of the errors of the machine itself.
#[derive(Clone, Copy, Debug, PartialEq, Eq, Structural)]
pub enum StatusCode {
    /// The block executor could not finish the block.
    DelayedFieldOrBlockstmCodeInvariantError,
}

/// What the machine says of an error of its own: what made it fail.
#[derive(Clone, Copy, Debug, PartialEq, Eq, Structural)]
pub enum ErrorMessage {
    /// The block executor gave the block up.
    BlockExecutor(PanicError),
    /// A transaction could not be run at all.
    Transaction(RawError),
}

/// Why the machine could not execute a block.
#[derive(Clone, Copy, Debug, PartialEq, Eq, Structural)]
pub enum VMStatus {
    /// The machine itself failed.
    Error { status_code: StatusCode, message: Option<ErrorMessage> },
    /// A transaction failed for good.
    ExecutionFailure(VMError),
}

/// The outputs of the result of a block without what was found at its end.
pub open spec fn outputs_alone(full: Result<BlockOutput, VMStatus>) -> Result<
    Vec<TransactionOutput>,
    VMStatus,
> {
    match full {
        Ok(out) => Ok(out.transaction_outputs),
        Err(e) => Err(e),
    }
}

/// A machine that executes blocks.
pub trait VMBlockExecutor: Sized {
    /// A transaction of the blocks that the machine executes.
    type Txn;

    /// Whether `result` is what the machine may make of the block against
    /// `state` under the configuration.
    spec fn is_execution_result(
        &self,
        transactions: Seq<Self::Txn>,
        state: State,
        onchain_config: BlockExecutorConfigFromOnchain,
        result: Result<BlockOutput, VMStatus>,
    ) -> bool;

    /// Whether the machine can run every transaction of the block against
    /// `state`.
    spec fn accepts_block(&self, transactions: Seq<Self::Txn>, state: State) -> bool;

    /// Executes the block against the state. The outputs are as many as the
    /// transactions and in their order.
    fn execute_block(
        &self,
        transactions: Vec<Self::Txn>,
        state_view: HashMap<StateKey, StateValue>,
        onchain_config: BlockExecutorConfigFromOnchain,
    ) -> (result: Result<BlockOutput, VMStatus>)
        requires
            self.accepts_block(transactions@, state_view@),
        ensures
            self.is_execution_result(transactions@, state_view@, onchain_config, result),
    ;

    /// Executes the block without a limit on its gas and hands out the
    /// outputs alone: the outputs of a result that `execute_block` may give
    /// without a limit, or the error of such a result.
    fn execute_block_no_limit(
        &self,
        transactions: Vec<Self::Txn>,
        state_view: HashMap<StateKey, StateValue>,
    ) -> (result: Result<Vec<TransactionOutput>, VMStatus>)
        requires
            self.accepts_block(transactions@, state_view@),
        ensures
            exists|full: Result<BlockOutput, VMStatus>|
                #[trigger] self.is_execution_result(
                    transactions@,
                    state_view@,
                    (BlockExecutorConfigFromOnchain { block_gas_limit: None }),
                    full,
                ) && result == outputs_alone(full),
    {
        match self.execute_block(
            transactions,
            state_view,
            BlockExecutorConfigFromOnchain::new_no_block_limit(),
        ) {
            Ok(output) => Ok(output.into_transaction_outputs_forced()),
            Err(e) => Err(e),
        }
    }
}

/// The native machine as an executor of blocks.
#[derive(Clone, Copy, Debug, PartialEq, Eq, Structural)]
pub struct NativeVMBlockExecutor {
    /// The number of workers that execute a block.
    pub concurrency_level: usize,
}

/// The task that runs the block against `state`.
pub open spec fn native_task(state: State) -> NativeVMExecutorTask {
    NativeVMExecutorTask::spec_init(
        NativeEnvironment { fa_migration_complete: spec_fa_migration_complete(state) },
    )
}

/// What the native machine may make of a block under `config`: the outputs
/// of running it in order with what was found at the block's end, the error
/// of the first transaction that fails for good, or the report that the
/// engine could not finish, with the engine's error as its message.
pub open spec fn is_native_result(
    config: BlockExecutorConfig,
    txns: Seq<SignatureVerifiedTransaction>,
    state: State,
    result: Result<BlockOutput, VMStatus>,
) -> bool {
    let in_order = block_result(native_task(state), txns, state, config.onchain.block_gas_limit);
    match result {
        Ok(out) => {
            &&& in_order == Ok::<Seq<TransactionOutputView>, BlockExecutionError>(
                outputs_view(out.transaction_outputs@),
            )
            &&& end_info_of(config, txns.len(), outputs_view(out.transaction_outputs@), out.block_end_info)
        },
        Err(VMStatus::ExecutionFailure(e)) => in_order == Err::<
            Seq<TransactionOutputView>,
            BlockExecutionError,
        >(BlockExecutionError::FatalVMError(e)),
        Err(VMStatus::Error { status_code, message }) => {
            &&& status_code == StatusCode::DelayedFieldOrBlockstmCodeInvariantError
            &&& message matches Some(ErrorMessage::BlockExecutor(e)) && match e {
                PanicError::BlockTooLarge => txns.len() > u32::MAX,
                PanicError::FallbackNotAllowed => !config.local.allow_fallback
                    && config.local.concurrency_level > 1 && 0 < txns.len() <= u32::MAX,
                _ => txns.len() <= u32::MAX && in_order == Err::<
                    Seq<TransactionOutputView>,
                    BlockExecutionError,
                >(BlockExecutionError::FatalBlockExecutorError(e)),
            }
        },
    }
}

impl NativeVMBlockExecutor {
    /// The native machine with `concurrency_level` workers.
    pub fn new(concurrency_level: usize) -> (executor: Self)
        ensures
            executor.concurrency_level == concurrency_level,
    {
        NativeVMBlockExecutor { concurrency_level }
    }

    /// Executes the block under the given configuration: makes the task from
    /// the features that the state holds, runs the block executor, and turns
    /// its error, if it fails, into the machine's.
    pub fn execute_block_impl(
        signature_verified_block: Vec<SignatureVerifiedTransaction>,
        state_view: HashMap<StateKey, StateValue>,
        config: BlockExecutorConfig,
    ) -> (result: Result<BlockOutput, VMStatus>)
        requires
            accepts_all(native_task(state_view@), signature_verified_block@),
        ensures
            is_native_result(config, signature_verified_block@, state_view@, result),
            config.local.allow_fallback && signature_verified_block@.len() <= u32::MAX ==> (result
                is Ok <==> block_result(
                native_task(state_view@),
                signature_verified_block@,
                state_view@,
                config.onchain.block_gas_limit,
            ) is Ok),
    {
        let executor = BlockExecutor::new(config);
        let environment = NativeEnvironment::new(&state_view);
        let task = NativeVMExecutorTask::init(&environment);
        proof {
            crate::sequential::lemma_block_errors(
                task,
                signature_verified_block@,
                state_view@,
                config.onchain.block_gas_limit,
            );
        }
        let ret = executor.execute_block(task, signature_verified_block, state_view);
        match ret {
            Ok(block_output) => {
                let (transaction_outputs, block_end_info) = block_output.into_inner();
                Ok(BlockOutput::new(transaction_outputs, block_end_info))
            },
            Err(BlockExecutionError::FatalBlockExecutorError(e)) => Err(
                VMStatus::Error {
                    status_code: StatusCode::DelayedFieldOrBlockstmCodeInvariantError,
                    message: Some(ErrorMessage::BlockExecutor(e)),
                },
            ),
            Err(BlockExecutionError::FatalVMError(err)) => Err(VMStatus::ExecutionFailure(err)),
        }
    }
}

/// The configuration with which the native machine executes: the given
/// number of workers, and sequential execution to fall back to.
pub open spec fn native_config(
    concurrency_level: usize,
    onchain: BlockExecutorConfigFromOnchain,
) -> BlockExecutorConfig {
    BlockExecutorConfig {
        local: BlockExecutorLocalConfig { concurrency_level, allow_fallback: true },
        onchain,
    }
}

impl VMBlockExecutor for NativeVMBlockExecutor {
    type Txn = SignatureVerifiedTransaction;

    open spec fn accepts_block(
        &self,
        transactions: Seq<SignatureVerifiedTransaction>,
        state: State,
    ) -> bool {
        accepts_all(native_task(state), transactions)
    }

    /// What the native machine may make of the block with its number of
    /// workers, and with sequential execution to fall back to.
    open spec fn is_execution_result(
        &self,
        transactions: Seq<SignatureVerifiedTransaction>,
        state: State,
        onchain_config: BlockExecutorConfigFromOnchain,
        result: Result<BlockOutput, VMStatus>,
    ) -> bool {
        is_native_result(
            native_config(self.concurrency_level, onchain_config),
            transactions,
            state,
            result,
        )
    }

    /// Execute a block of `transactions`. The output vector will have the
    /// exact same length as the input vector. The state is not changed:
    /// the writes to be applied to it are in the write sets of the outputs.
    fn execute_block(
        &self,
        transactions: Vec<SignatureVerifiedTransaction>,
        state_view: HashMap<StateKey, StateValue>,
        onchain_config: BlockExecutorConfigFromOnchain,
    ) -> (result: Result<BlockOutput, VMStatus>) {
        Self::execute_block_impl(
            transactions,
            state_view,
            BlockExecutorConfig {
                local: BlockExecutorLocalConfig {
                    concurrency_level: self.concurrency_level,
                    allow_fallback: true,
                },
                onchain: onchain_config,
            },
        )
    }
}

} // verus!
