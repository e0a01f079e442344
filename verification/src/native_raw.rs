//! Native execution without coordination: every transaction of a block is
//! run against the state before the block, as if it were alone, and yields
//! its final output. Nothing orders the transactions and nothing detects
//! conflicts between them, so the outputs are those of the block only where
//! its transactions do not touch each other's keys. It is what the
//! coordinated engine is measured against.

use vstd::prelude::*;
use std::collections::HashMap;
use crate::types::{StateKey, StateValue};
use crate::task::{
    AccountAddress, ContractEvent, EventKind, State, TransactionAuxiliaryData, TransactionOutput,
    TransactionOutputView, TransactionStatus, WriteOp, lookup,
};
use crate::native_vm::{
    DbAccessUtil, ErrorMessage, FEATURES_KEY, GAS, NativeTransaction, StatusCode, VMStatus, account_key,
    fa_store_key, spec_fa_migration_complete,
};
use crate::block_executor::BlockOutput;

verus! {

/// The gas that a transfer is charged.
pub const TRANSFER_GAS: u64 = 500;

/// The gas that a batch of transfers is charged.
pub const BATCH_GAS: u64 = 5000;

/// The number of transfers that a batch may hold.
pub const MAX_BATCH: usize = 0xffff_ffff;

/// The gas that a transaction that does nothing is charged.
pub const NOP_GAS: u64 = 4;

/// The module of fungible assets, as the place of an abort.
pub const MODULE_FUNGIBLE_ASSET: u64 = 1;

/// The module of accounts, as the place of an abort.
pub const MODULE_ACCOUNT: u64 = 2;

/// The code with which a withdrawal from a store that does not exist aborts.
pub const ESTORE_MISSING: u64 = 7;

/// The code with which the creation of an account that exists aborts.
pub const EACCOUNT_EXISTS: u64 = 7;

/// The code with which a deposit to an account that does not exist aborts.
pub const EACCOUNT_MISSING: u64 = 8;

/// Why a transaction could not be run at all.
#[derive(Clone, Copy, Debug, PartialEq, Eq, Structural)]
pub enum RawError {
    /// The sender has no account.
    SenderMissing,
    /// An account that exists has no store of coins.
    CoinStoreMissing,
    /// An account that does not exist has a store of coins.
    CoinStoreExists,
    /// The balance does not cover amount and fee.
    InsufficientBalance,
    /// A number would grow past what fits.
    Overflow,
    /// An account that must exist does not.
    AccountMissing,
    /// An account that must not exist does.
    AccountExists,
    /// The executor does not run transactions of this kind.
    Unsupported,
}

/// The key of the store of coins of `address`. It holds the balance.
pub open spec fn coin_store_key(address: AccountAddress) -> StateKey {
    (0x3_0000_0000_0000_0000 + address) as StateKey
}

/// Whether the state says that new accounts keep their balance in a store
/// of fungible assets.
pub open spec fn spec_new_accounts_default_to_fa(state: State) -> bool {
    state.contains_key(FEATURES_KEY) && (state[FEATURES_KEY] / 2) % 2 == 1
}

/// The effects of a part of a transaction.
pub struct IncrementalOutput {
    pub write_set: Vec<WriteOp>,
    pub events: Vec<ContractEvent>,
}

/// The mathematical content of an `IncrementalOutput`.
pub struct IncrementalView {
    pub write_set: Seq<WriteOp>,
    pub events: Seq<ContractEvent>,
}

impl View for IncrementalOutput {
    type V = IncrementalView;

    open spec fn view(&self) -> IncrementalView {
        IncrementalView { write_set: self.write_set@, events: self.events@ }
    }
}

/// What a part of a transaction comes to: its effects, the status with which
/// the transaction aborts, or the reason why the transaction cannot be run.
pub type Partial = Result<Result<IncrementalView, TransactionStatus>, RawError>;

/// The effects of two parts, one after the other.
pub open spec fn joined(a: IncrementalView, b: IncrementalView) -> IncrementalView {
    IncrementalView { write_set: a.write_set + b.write_set, events: a.events + b.events }
}

/// What two parts in a row come to: the second counts only where the first
/// went through.
pub open spec fn merged(first: Partial, second: Partial) -> Partial {
    match first {
        Ok(Ok(a)) => match second {
            Ok(Ok(b)) => Ok(Ok(joined(a, b))),
            other => other,
        },
        other => other,
    }
}

/// The event that states the fee.
pub open spec fn fee_statement(gas: u64) -> ContractEvent {
    ContractEvent { kind: EventKind::FeeStatement, account: 0, amount: gas }
}

/// The output of a transaction that went through with the given effects.
pub open spec fn success_output(v: IncrementalView, gas: u64) -> TransactionOutputView {
    TransactionOutputView {
        write_set: v.write_set,
        events: v.events.push(fee_statement(gas)),
        gas_used: gas,
        status: TransactionStatus::Keep,
        auxiliary_data: TransactionAuxiliaryData::Empty,
    }
}

/// The output of a transaction that aborted with the given status.
pub open spec fn abort_output(status: TransactionStatus) -> TransactionOutputView {
    TransactionOutputView {
        write_set: Seq::empty(),
        events: Seq::empty(),
        gas_used: 0,
        status,
        auxiliary_data: TransactionAuxiliaryData::Empty,
    }
}

/// The output that the parts of a transaction come to.
pub open spec fn finished(parts: Partial, gas: u64) -> Result<TransactionOutputView, RawError> {
    match parts {
        Err(e) => Err(e),
        Ok(Err(status)) => Ok(abort_output(status)),
        Ok(Ok(v)) => Ok(success_output(v, gas)),
    }
}

impl IncrementalOutput {
    pub fn new() -> (out: Self)
        ensures
            out@ == (IncrementalView { write_set: Seq::empty(), events: Seq::empty() }),
    {
        let out = IncrementalOutput { write_set: Vec::new(), events: Vec::new() };
        assert(out.write_set@ =~= Seq::<WriteOp>::empty());
        assert(out.events@ =~= Seq::<ContractEvent>::empty());
        out
    }

    /// The output of a transaction that went through: the effects, and the
    /// statement of the fee as its last event.
    pub fn into_success_output(self, gas: u64) -> (out: TransactionOutput)
        ensures
            out@ == success_output(self@, gas),
    {
        let mut events = self.events;
        events.push(ContractEvent { kind: EventKind::FeeStatement, account: 0, amount: gas });
        TransactionOutput::new(
            self.write_set,
            events,
            gas,
            TransactionStatus::Keep,
            TransactionAuxiliaryData::Empty,
        )
    }

    /// Adds the effects of the next part.
    pub fn append(&mut self, other: IncrementalOutput)
        ensures
            final(self)@ == joined(old(self)@, other@),
    {
        let mut other = other;
        self.write_set.append(&mut other.write_set);
        self.events.append(&mut other.events);
    }

    /// The output of a transaction that aborted: no effects, no gas.
    pub fn to_abort(status: TransactionStatus) -> (out: TransactionOutput)
        ensures
            out@ == abort_output(status),
    {
        let write_set: Vec<WriteOp> = Vec::new();
        let events: Vec<ContractEvent> = Vec::new();
        assert(write_set@ =~= Seq::<WriteOp>::empty());
        assert(events@ =~= Seq::<ContractEvent>::empty());
        TransactionOutput::new(write_set, events, 0, status, TransactionAuxiliaryData::Empty)
    }
}

/// The abort of a withdrawal from a store that does not exist.
pub open spec fn store_missing() -> TransactionStatus {
    TransactionStatus::KeepAborted { module: MODULE_FUNGIBLE_ASSET, code: ESTORE_MISSING }
}

/// One write and the events that go with it.
pub open spec fn one_write(key: StateKey, value: StateValue, events: Seq<ContractEvent>) -> Partial {
    Ok(Ok(IncrementalView { write_set: seq![(key, value)], events }))
}

/// The sender's sequence number goes up by one.
pub open spec fn spec_increment_sequence_number(state: State, sender: AccountAddress) -> Partial {
    match lookup(state, account_key(sender)) {
        None => Err(RawError::SenderMissing),
        Some(n) => if n == u64::MAX {
            Err(RawError::Overflow)
        } else {
            one_write(account_key(sender), (n + 1) as u64, Seq::empty())
        },
    }
}

/// The events of a withdrawal of fungible assets: that of the amount, where
/// one is moved, and that of the fee.
pub open spec fn fa_withdraw_events(sender: AccountAddress, amount: u64, gas: u64) -> Seq<
    ContractEvent,
> {
    let fee = ContractEvent { kind: EventKind::Withdraw, account: sender, amount: gas };
    if amount > 0 {
        seq![ContractEvent { kind: EventKind::Withdraw, account: sender, amount }, fee]
    } else {
        seq![fee]
    }
}

/// Amount and fee leave the sender's store of fungible assets.
pub open spec fn spec_withdraw_fa_apt_from_signer(
    state: State,
    sender: AccountAddress,
    amount: u64,
    gas: u64,
) -> Partial {
    match lookup(state, fa_store_key(sender)) {
        None => Ok(Err(store_missing())),
        Some(balance) => if amount + gas > u64::MAX {
            Err(RawError::Overflow)
        } else if balance < amount + gas {
            Err(RawError::InsufficientBalance)
        } else {
            one_write(
                fa_store_key(sender),
                (balance - (amount + gas)) as u64,
                fa_withdraw_events(sender, amount, gas),
            )
        },
    }
}

/// The amount enters the recipient's store of fungible assets, which is made
/// where it does not exist.
pub open spec fn spec_deposit_fa_apt(state: State, recipient: AccountAddress, amount: u64) -> Partial {
    let events = seq![ContractEvent { kind: EventKind::Deposit, account: recipient, amount }];
    match lookup(state, fa_store_key(recipient)) {
        Some(balance) => if balance + amount > u64::MAX {
            Err(RawError::Overflow)
        } else {
            one_write(fa_store_key(recipient), (balance + amount) as u64, events)
        },
        None => one_write(fa_store_key(recipient), amount, events),
    }
}

/// Amount and fee leave the sender's store of coins, or, where the sender
/// has none, the sender's store of fungible assets.
pub open spec fn spec_withdraw_coin_apt_from_signer(
    state: State,
    sender: AccountAddress,
    amount: u64,
    gas: u64,
) -> Partial {
    match lookup(state, coin_store_key(sender)) {
        None => spec_withdraw_fa_apt_from_signer(state, sender, amount, gas),
        Some(coin) => if amount + gas > u64::MAX {
            Err(RawError::Overflow)
        } else if coin < amount + gas {
            Err(RawError::InsufficientBalance)
        } else {
            one_write(
                coin_store_key(sender),
                (coin - (amount + gas)) as u64,
                seq![ContractEvent { kind: EventKind::CoinWithdraw, account: sender, amount: 0 }],
            )
        },
    }
}

/// The recipient's account is made.
pub open spec fn spec_create_non_existing_account(recipient: AccountAddress) -> Partial {
    one_write(account_key(recipient), 0, Seq::empty())
}

/// The event of a deposit of coins.
pub open spec fn coin_deposit_event(recipient: AccountAddress) -> Seq<ContractEvent> {
    seq![ContractEvent { kind: EventKind::CoinDeposit, account: recipient, amount: 0 }]
}

/// The amount enters the recipient's store of coins. A recipient without an
/// account gets one, unless that is ruled out, and with it a store: of
/// fungible assets where new accounts have those, of coins else.
pub open spec fn spec_deposit_coin_apt(
    state: State,
    recipient: AccountAddress,
    amount: u64,
    fail_on_existing: bool,
    fail_on_missing: bool,
    new_accounts_default_to_fa: bool,
) -> Partial {
    if lookup(state, account_key(recipient)) is Some {
        if fail_on_existing {
            Ok(Err(TransactionStatus::KeepAborted { module: MODULE_ACCOUNT, code: EACCOUNT_EXISTS }))
        } else {
            match lookup(state, coin_store_key(recipient)) {
                None => Err(RawError::CoinStoreMissing),
                Some(coin) => if amount == 0 {
                    Ok(
                        Ok(
                            IncrementalView {
                                write_set: Seq::empty(),
                                events: coin_deposit_event(recipient),
                            },
                        ),
                    )
                } else if coin + amount > u64::MAX {
                    Err(RawError::Overflow)
                } else {
                    one_write(
                        coin_store_key(recipient),
                        (coin + amount) as u64,
                        coin_deposit_event(recipient),
                    )
                },
            }
        }
    } else if fail_on_missing {
        Ok(Err(TransactionStatus::KeepAborted { module: MODULE_ACCOUNT, code: EACCOUNT_MISSING }))
    } else if new_accounts_default_to_fa {
        merged(
            spec_create_non_existing_account(recipient),
            spec_deposit_fa_apt(state, recipient, amount),
        )
    } else if lookup(state, coin_store_key(recipient)) is Some {
        Err(RawError::CoinStoreExists)
    } else {
        merged(
            spec_create_non_existing_account(recipient),
            one_write(coin_store_key(recipient), amount, coin_deposit_event(recipient)),
        )
    }
}

/// What a transaction that does nothing comes to.
pub open spec fn spec_handle_nop(state: State, sender: AccountAddress, fa_migration_complete: bool) -> Result<
    TransactionOutputView,
    RawError,
> {
    finished(
        merged(
            spec_increment_sequence_number(state, sender),
            if fa_migration_complete {
                spec_withdraw_fa_apt_from_signer(state, sender, 0, NOP_GAS)
            } else {
                spec_withdraw_coin_apt_from_signer(state, sender, 0, NOP_GAS)
            },
        ),
        NOP_GAS,
    )
}

/// What a transfer of fungible assets comes to.
pub open spec fn spec_handle_fa_transfer(
    state: State,
    sender: AccountAddress,
    recipient: AccountAddress,
    amount: u64,
) -> Result<TransactionOutputView, RawError> {
    finished(
        merged(
            merged(
                spec_increment_sequence_number(state, sender),
                spec_withdraw_fa_apt_from_signer(state, sender, amount, TRANSFER_GAS),
            ),
            spec_deposit_fa_apt(state, recipient, amount),
        ),
        TRANSFER_GAS,
    )
}

/// What a transfer of coins, with the creation of the recipient's account
/// where it is missing, comes to.
pub open spec fn spec_handle_account_creation_and_transfer(
    state: State,
    sender: AccountAddress,
    recipient: AccountAddress,
    amount: u64,
    fail_on_existing: bool,
    fail_on_missing: bool,
    new_accounts_default_to_fa: bool,
) -> Result<TransactionOutputView, RawError> {
    finished(
        merged(
            merged(
                spec_increment_sequence_number(state, sender),
                spec_withdraw_coin_apt_from_signer(state, sender, amount, TRANSFER_GAS),
            ),
            spec_deposit_coin_apt(
                state,
                recipient,
                amount,
                fail_on_existing,
                fail_on_missing,
                new_accounts_default_to_fa,
            ),
        ),
        TRANSFER_GAS,
    )
}

fn read(state: &HashMap<StateKey, StateValue>, key: StateKey) -> (value: Option<StateValue>)
    ensures
        value == lookup(state@, key),
{
    broadcast use vstd::std_specs::hash::group_hash_axioms;

    match state.get(&key) {
        Some(v) => Some(*v),
        None => None,
    }
}

fn one(key: StateKey, value: StateValue, events: Vec<ContractEvent>) -> (out: IncrementalOutput)
    ensures
        out@ == (IncrementalView { write_set: seq![(key, value)], events: events@ }),
{
    let mut write_set: Vec<WriteOp> = Vec::new();
    write_set.push((key, value));
    assert(write_set@ =~= seq![(key, value)]);
    IncrementalOutput { write_set, events }
}

/// What a part that was run comes to.
pub open spec fn partial_of(r: Result<Result<IncrementalOutput, TransactionStatus>, RawError>) -> Partial {
    match r {
        Ok(Ok(out)) => Ok(Ok(out@)),
        Ok(Err(status)) => Ok(Err(status)),
        Err(e) => Err(e),
    }
}

/// What a transaction that was run comes to.
pub open spec fn output_of_run(r: Result<TransactionOutput, RawError>) -> Result<
    TransactionOutputView,
    RawError,
> {
    match r {
        Ok(out) => Ok(out@),
        Err(e) => Err(e),
    }
}

/// Runs native transactions, each for itself, against the state before the
/// block.
pub struct NativeRawTransactionExecutor {
    db_util: DbAccessUtil,
}

impl NativeRawTransactionExecutor {
    fn coin_key(address: AccountAddress) -> (key: StateKey)
        ensures
            key == coin_store_key(address),
    {
        0x3_0000_0000_0000_0000 + (address as StateKey)
    }

    /// Raises the sender's sequence number.
    pub fn increment_sequence_number(
        &self,
        sender_address: AccountAddress,
        state_view: &HashMap<StateKey, StateValue>,
    ) -> (part: Result<Result<IncrementalOutput, TransactionStatus>, RawError>)
        ensures
            partial_of(part) == spec_increment_sequence_number(state_view@, sender_address),
    {
        let sender_account_key = self.db_util.new_state_key_account(&sender_address);
        match read(state_view, sender_account_key) {
            None => Err(RawError::SenderMissing),
            Some(sequence_number) => match sequence_number.checked_add(1) {
                None => Err(RawError::Overflow),
                Some(next) => {
                    let events: Vec<ContractEvent> = Vec::new();
                    assert(events@ =~= Seq::<ContractEvent>::empty());
                    Ok(Ok(one(sender_account_key, next, events)))
                },
            },
        }
    }

    /// Takes amount and fee from the sender's store of fungible assets.
    pub fn withdraw_fa_apt_from_signer(
        &self,
        sender_address: AccountAddress,
        transfer_amount: u64,
        state_view: &HashMap<StateKey, StateValue>,
        gas: u64,
    ) -> (part: Result<Result<IncrementalOutput, TransactionStatus>, RawError>)
        ensures
            partial_of(part) == spec_withdraw_fa_apt_from_signer(
                state_view@,
                sender_address,
                transfer_amount,
                gas,
            ),
    {
        let key = self.db_util.new_state_key_object_resource_group(&sender_address);
        let balance = match read(state_view, key) {
            Some(balance) => balance,
            None => {
                return Ok(
                    Err(
                        TransactionStatus::KeepAborted {
                            module: MODULE_FUNGIBLE_ASSET,
                            code: ESTORE_MISSING,
                        },
                    ),
                );
            },
        };
        let total = match transfer_amount.checked_add(gas) {
            Some(total) => total,
            None => {
                return Err(RawError::Overflow);
            },
        };
        if balance < total {
            return Err(RawError::InsufficientBalance);
        }
        let mut events: Vec<ContractEvent> = Vec::new();
        if transfer_amount > 0 {
            events.push(
                ContractEvent {
                    kind: EventKind::Withdraw,
                    account: sender_address,
                    amount: transfer_amount,
                },
            );
        }
        events.push(ContractEvent { kind: EventKind::Withdraw, account: sender_address, amount: gas });
        assert(events@ =~= fa_withdraw_events(sender_address, transfer_amount, gas));
        Ok(Ok(one(key, balance - total, events)))
    }

    /// Puts the amount into the recipient's store of fungible assets.
    pub fn deposit_fa_apt(
        &self,
        recipient_address: AccountAddress,
        transfer_amount: u64,
        state_view: &HashMap<StateKey, StateValue>,
    ) -> (part: Result<Result<IncrementalOutput, TransactionStatus>, RawError>)
        ensures
            partial_of(part) == spec_deposit_fa_apt(state_view@, recipient_address, transfer_amount),
    {
        let key = self.db_util.new_state_key_object_resource_group(&recipient_address);
        let balance = match read(state_view, key) {
            Some(balance) => match balance.checked_add(transfer_amount) {
                Some(b) => b,
                None => {
                    return Err(RawError::Overflow);
                },
            },
            None => transfer_amount,
        };
        let mut events: Vec<ContractEvent> = Vec::new();
        events.push(
            ContractEvent {
                kind: EventKind::Deposit,
                account: recipient_address,
                amount: transfer_amount,
            },
        );
        assert(events@ =~= seq![
            ContractEvent {
                kind: EventKind::Deposit,
                account: recipient_address,
                amount: transfer_amount,
            },
        ]);
        Ok(Ok(one(key, balance, events)))
    }

    /// Takes amount and fee from the sender's store of coins, or from the
    /// sender's store of fungible assets where the sender has no coins.
    pub fn withdraw_coin_apt_from_signer(
        &self,
        sender_address: AccountAddress,
        transfer_amount: u64,
        state_view: &HashMap<StateKey, StateValue>,
        gas: u64,
    ) -> (part: Result<Result<IncrementalOutput, TransactionStatus>, RawError>)
        ensures
            partial_of(part) == spec_withdraw_coin_apt_from_signer(
                state_view@,
                sender_address,
                transfer_amount,
                gas,
            ),
    {
        let key = Self::coin_key(sender_address);
        let coin = match read(state_view, key) {
            None => {
                return self.withdraw_fa_apt_from_signer(
                    sender_address,
                    transfer_amount,
                    state_view,
                    gas,
                );
            },
            Some(coin) => coin,
        };
        let total = match transfer_amount.checked_add(gas) {
            Some(total) => total,
            None => {
                return Err(RawError::Overflow);
            },
        };
        if coin < total {
            return Err(RawError::InsufficientBalance);
        }
        let mut events: Vec<ContractEvent> = Vec::new();
        events.push(
            ContractEvent { kind: EventKind::CoinWithdraw, account: sender_address, amount: 0 },
        );
        assert(events@ =~= seq![
            ContractEvent { kind: EventKind::CoinWithdraw, account: sender_address, amount: 0 },
        ]);
        Ok(Ok(one(key, coin - total, events)))
    }

    /// Makes the recipient's account.
    pub fn create_non_existing_account(
        recipient_address: AccountAddress,
        recipient_account_key: StateKey,
    ) -> (part: Result<Result<IncrementalOutput, TransactionStatus>, RawError>)
        requires
            recipient_account_key == account_key(recipient_address),
        ensures
            partial_of(part) == spec_create_non_existing_account(recipient_address),
    {
        let recipient_account = DbAccessUtil::new_account_resource(recipient_address);
        let events: Vec<ContractEvent> = Vec::new();
        assert(events@ =~= Seq::<ContractEvent>::empty());
        Ok(Ok(one(recipient_account_key, recipient_account, events)))
    }

    fn coin_deposit_events(recipient_address: AccountAddress) -> (events: Vec<ContractEvent>)
        ensures
            events@ == coin_deposit_event(recipient_address),
    {
        let mut events: Vec<ContractEvent> = Vec::new();
        events.push(
            ContractEvent { kind: EventKind::CoinDeposit, account: recipient_address, amount: 0 },
        );
        assert(events@ =~= coin_deposit_event(recipient_address));
        events
    }

    /// Puts the amount into the recipient's store of coins, and makes the
    /// recipient's account and store where the account is missing.
    pub fn deposit_coin_apt(
        &self,
        recipient_address: AccountAddress,
        transfer_amount: u64,
        fail_on_existing: bool,
        fail_on_missing: bool,
        state_view: &HashMap<StateKey, StateValue>,
        new_accounts_default_to_fa: bool,
    ) -> (part: Result<Result<IncrementalOutput, TransactionStatus>, RawError>)
        ensures
            partial_of(part) == spec_deposit_coin_apt(
                state_view@,
                recipient_address,
                transfer_amount,
                fail_on_existing,
                fail_on_missing,
                new_accounts_default_to_fa,
            ),
    {
        let recipient_account_key = self.db_util.new_state_key_account(&recipient_address);
        let recipient_coin_store_key = Self::coin_key(recipient_address);
        let recipient_account = read(state_view, recipient_account_key);
        let mut output = IncrementalOutput::new();
        if recipient_account.is_some() {
            if fail_on_existing {
                return Ok(
                    Err(
                        TransactionStatus::KeepAborted {
                            module: MODULE_ACCOUNT,
                            code: EACCOUNT_EXISTS,
                        },
                    ),
                );
            }
            let coin = match read(state_view, recipient_coin_store_key) {
                Some(coin) => coin,
                None => {
                    return Err(RawError::CoinStoreMissing);
                },
            };
            if transfer_amount != 0 {
                match coin.checked_add(transfer_amount) {
                    Some(c) => {
                        output.write_set.push((recipient_coin_store_key, c));
                        assert(output.write_set@ =~= seq![(recipient_coin_store_key, c)]);
                    },
                    None => {
                        return Err(RawError::Overflow);
                    },
                }
            }
        } else {
            if fail_on_missing {
                return Ok(
                    Err(
                        TransactionStatus::KeepAborted {
                            module: MODULE_ACCOUNT,
                            code: EACCOUNT_MISSING,
                        },
                    ),
                );
            }
            match Self::create_non_existing_account(recipient_address, recipient_account_key) {
                Ok(Ok(created)) => {
                    output.append(created);
                },
                Ok(Err(status)) => {
                    return Ok(Err(status));
                },
                Err(e) => {
                    return Err(e);
                },
            }
            if new_accounts_default_to_fa {
                match self.deposit_fa_apt(recipient_address, transfer_amount, state_view) {
                    Ok(Ok(deposited)) => {
                        output.append(deposited);
                    },
                    Ok(Err(status)) => {
                        return Ok(Err(status));
                    },
                    Err(e) => {
                        return Err(e);
                    },
                }
                assert(output@.write_set =~= joined(
                    spec_create_non_existing_account(recipient_address)->Ok_0->Ok_0,
                    spec_deposit_fa_apt(
                        state_view@,
                        recipient_address,
                        transfer_amount,
                    )->Ok_0->Ok_0,
                ).write_set);
                assert(output@.events =~= joined(
                    spec_create_non_existing_account(recipient_address)->Ok_0->Ok_0,
                    spec_deposit_fa_apt(
                        state_view@,
                        recipient_address,
                        transfer_amount,
                    )->Ok_0->Ok_0,
                ).events);
                return Ok(Ok(output));
            }
            if read(state_view, recipient_coin_store_key).is_some() {
                return Err(RawError::CoinStoreExists);
            }
            output.write_set.push((recipient_coin_store_key, transfer_amount));
            assert(output.write_set@ =~= seq![(account_key(recipient_address), 0u64)] + seq![
                (recipient_coin_store_key, transfer_amount),
            ]);
        }
        let mut events = Self::coin_deposit_events(recipient_address);
        output.events.append(&mut events);
        assert(output.events@ =~= coin_deposit_event(recipient_address));
        assert(Seq::<ContractEvent>::empty() + coin_deposit_event(recipient_address)
            =~= coin_deposit_event(recipient_address));
        Ok(Ok(output))
    }

    /// Runs a transfer of fungible assets.
    pub fn handle_fa_transfer(
        &self,
        sender_address: AccountAddress,
        recipient_address: AccountAddress,
        transfer_amount: u64,
        state_view: &HashMap<StateKey, StateValue>,
    ) -> (result: Result<TransactionOutput, RawError>)
        ensures
            output_of_run(result) == spec_handle_fa_transfer(
                state_view@,
                sender_address,
                recipient_address,
                transfer_amount,
            ),
    {
        let gas = TRANSFER_GAS;
        let mut output = IncrementalOutput::new();
        proof {
            lemma_joined_empty();
        }
        match self.increment_sequence_number(sender_address, state_view) {
            Ok(Ok(part)) => {
                output.append(part);
            },
            Ok(Err(status)) => {
                return Ok(IncrementalOutput::to_abort(status));
            },
            Err(e) => {
                return Err(e);
            },
        }
        match self.withdraw_fa_apt_from_signer(sender_address, transfer_amount, state_view, gas) {
            Ok(Ok(part)) => {
                output.append(part);
            },
            Ok(Err(status)) => {
                return Ok(IncrementalOutput::to_abort(status));
            },
            Err(e) => {
                return Err(e);
            },
        }
        match self.deposit_fa_apt(recipient_address, transfer_amount, state_view) {
            Ok(Ok(part)) => {
                output.append(part);
            },
            Ok(Err(status)) => {
                return Ok(IncrementalOutput::to_abort(status));
            },
            Err(e) => {
                return Err(e);
            },
        }
        Ok(output.into_success_output(gas))
    }

    /// Runs a transfer of coins, with the creation of the recipient's account
    /// where it is missing.
    pub fn handle_account_creation_and_transfer(
        &self,
        sender_address: AccountAddress,
        recipient_address: AccountAddress,
        transfer_amount: u64,
        fail_on_existing: bool,
        fail_on_missing: bool,
        state_view: &HashMap<StateKey, StateValue>,
        new_accounts_default_to_fa: bool,
    ) -> (result: Result<TransactionOutput, RawError>)
        ensures
            output_of_run(result) == spec_handle_account_creation_and_transfer(
                state_view@,
                sender_address,
                recipient_address,
                transfer_amount,
                fail_on_existing,
                fail_on_missing,
                new_accounts_default_to_fa,
            ),
    {
        let gas = TRANSFER_GAS;
        let mut output = IncrementalOutput::new();
        proof {
            lemma_joined_empty();
        }
        match self.increment_sequence_number(sender_address, state_view) {
            Ok(Ok(part)) => {
                output.append(part);
            },
            Ok(Err(status)) => {
                return Ok(IncrementalOutput::to_abort(status));
            },
            Err(e) => {
                return Err(e);
            },
        }
        match self.withdraw_coin_apt_from_signer(sender_address, transfer_amount, state_view, gas) {
            Ok(Ok(part)) => {
                output.append(part);
            },
            Ok(Err(status)) => {
                return Ok(IncrementalOutput::to_abort(status));
            },
            Err(e) => {
                return Err(e);
            },
        }
        match self.deposit_coin_apt(
            recipient_address,
            transfer_amount,
            fail_on_existing,
            fail_on_missing,
            state_view,
            new_accounts_default_to_fa,
        ) {
            Ok(Ok(part)) => {
                output.append(part);
            },
            Ok(Err(status)) => {
                return Ok(IncrementalOutput::to_abort(status));
            },
            Err(e) => {
                return Err(e);
            },
        }
        Ok(output.into_success_output(gas))
    }

    /// Runs a transaction that does nothing but pay its fee.
    pub fn handle_nop(
        &self,
        sender_address: AccountAddress,
        fa_migration_complete: bool,
        state_view: &HashMap<StateKey, StateValue>,
    ) -> (result: Result<TransactionOutput, RawError>)
        ensures
            output_of_run(result) == spec_handle_nop(
                state_view@,
                sender_address,
                fa_migration_complete,
            ),
    {
        let gas = NOP_GAS;
        let mut output = IncrementalOutput::new();
        proof {
            lemma_joined_empty();
        }
        match self.increment_sequence_number(sender_address, state_view) {
            Ok(Ok(part)) => {
                output.append(part);
            },
            Ok(Err(status)) => {
                return Ok(IncrementalOutput::to_abort(status));
            },
            Err(e) => {
                return Err(e);
            },
        }
        let withdrawn = if fa_migration_complete {
            self.withdraw_fa_apt_from_signer(sender_address, 0, state_view, gas)
        } else {
            self.withdraw_coin_apt_from_signer(sender_address, 0, state_view, gas)
        };
        match withdrawn {
            Ok(Ok(part)) => {
                output.append(part);
            },
            Ok(Err(status)) => {
                return Ok(IncrementalOutput::to_abort(status));
            },
            Err(e) => {
                return Err(e);
            },
        }
        Ok(output.into_success_output(gas))
    }
}

/// Joining effects with no effects changes nothing.
pub proof fn lemma_joined_empty()
    ensures
        forall|v: IncrementalView|
            #[trigger] joined(
                IncrementalView { write_set: Seq::empty(), events: Seq::empty() },
                v,
            ) == v,
{
    assert forall|v: IncrementalView|
        #[trigger] joined(IncrementalView { write_set: Seq::empty(), events: Seq::empty() }, v)
            == v by {
        assert(Seq::<WriteOp>::empty() + v.write_set =~= v.write_set);
        assert(Seq::<ContractEvent>::empty() + v.events =~= v.events);
    }
}

/// A concurrent hash map, as `dashmap` has it. Verus sees nothing of it;
/// what a map from state keys to values holds goes by the name
/// `dash_map_contents`.
#[verifier::external_type_specification]
#[verifier::external_body]
#[verifier::reject_recursive_types(K)]
#[verifier::reject_recursive_types(V)]
#[verifier::reject_recursive_types(S)]
pub struct ExDashMap<K, V, S>(dashmap::DashMap<K, V, S>);

/// What a concurrent map from state keys to values holds.
pub uninterp spec fn dash_map_contents(m: dashmap::DashMap<u128, u64>) -> State;

/// `DashMap::new`: a map that holds nothing.
#[verifier::external_body]
fn dash_map_new() -> (m: dashmap::DashMap<u128, u64>)
    ensures
        dash_map_contents(m) == State::empty(),
{
    dashmap::DashMap::new()
}

/// `DashMap::insert`: afterwards the key maps to the value and every other
/// key to what it mapped to.
#[verifier::external_body]
fn dash_map_insert(m: &mut dashmap::DashMap<u128, u64>, key: u128, value: u64)
    ensures
        dash_map_contents(*final(m)) == dash_map_contents(*old(m)).insert(key, value),
{
    m.insert(key, value);
}

/// `DashMap::get`: the value that the key maps to, if it maps to one.
#[verifier::external_body]
fn dash_map_get(m: &dashmap::DashMap<u128, u64>, key: u128) -> (value: Option<u64>)
    ensures
        value == lookup(dash_map_contents(*m), key),
{
    m.get(&key).map(|r| *r.value())
}

/// What the first `n` transfers of a batch bring to `address`.
pub open spec fn received(
    recipients: Seq<AccountAddress>,
    amounts: Seq<u64>,
    address: AccountAddress,
    n: int,
) -> int
    decreases n,
{
    if n <= 0 {
        0
    } else {
        received(recipients, amounts, address, n - 1) + (if recipients[n - 1] == address {
            amounts[n - 1] as int
        } else {
            0
        })
    }
}

/// What the first `n` transfers of a batch move.
pub open spec fn sent(amounts: Seq<u64>, n: int) -> int
    decreases n,
{
    if n <= 0 {
        0
    } else {
        sent(amounts, n - 1) + amounts[n - 1]
    }
}

/// By how much the first `n` transfers of a batch change the balance of
/// `address`: what they bring to it, less, for the sender, what they move.
pub open spec fn delta_of(
    recipients: Seq<AccountAddress>,
    amounts: Seq<u64>,
    sender: AccountAddress,
    address: AccountAddress,
    n: int,
) -> int {
    received(recipients, amounts, address, n) - (if address == sender {
        sent(amounts, n)
    } else {
        0
    })
}

/// The number of transfers of a batch: as many as have a recipient and an
/// amount.
pub open spec fn batch_len(recipients: Seq<AccountAddress>, amounts: Seq<u64>) -> int {
    if recipients.len() <= amounts.len() {
        recipients.len() as int
    } else {
        amounts.len() as int
    }
}

/// The list gives, for the sender and each recipient of the first `n`
/// transfers, each once, the change of its balance, and holds no other
/// address: without a transfer it is empty.
pub open spec fn is_deltas(
    deltas: Seq<(AccountAddress, i128)>,
    recipients: Seq<AccountAddress>,
    amounts: Seq<u64>,
    sender: AccountAddress,
    n: int,
) -> bool {
    &&& distinct_addresses(deltas)
    &&& forall|a: int|
        0 <= a < deltas.len() ==> (#[trigger] deltas[a]).1 == delta_of(
            recipients,
            amounts,
            sender,
            deltas[a].0,
            n,
        ) && (n > 0 && deltas[a].0 == sender || exists|i: int|
            0 <= i < n && recipients[i] == deltas[a].0)
    &&& forall|i: int|
        0 <= i < n ==> exists|a: int|
            0 <= a < deltas.len() && (#[trigger] deltas[a]).0 == #[trigger] recipients[i]
    &&& n > 0 ==> exists|a: int| 0 <= a < deltas.len() && (#[trigger] deltas[a]).0 == sender
}

/// What a balance receives is never negative, and the sender's balance
/// never grows by a batch.
pub proof fn lemma_delta_signs(
    recipients: Seq<AccountAddress>,
    amounts: Seq<u64>,
    sender: AccountAddress,
    address: AccountAddress,
    n: int,
)
    requires
        0 <= n <= batch_len(recipients, amounts),
    ensures
        0 <= received(recipients, amounts, address, n) <= sent(amounts, n),
        sent(amounts, n) <= n * 0xffff_ffff_ffff_ffff,
        address != sender ==> delta_of(recipients, amounts, sender, address, n) >= 0,
        delta_of(recipients, amounts, sender, sender, n) <= 0,
    decreases n,
{
    if n > 0 {
        lemma_delta_signs(recipients, amounts, sender, address, n - 1);
        lemma_delta_signs(recipients, amounts, sender, sender, n - 1);
        assert(n * 0xffff_ffff_ffff_ffff == (n - 1) * 0xffff_ffff_ffff_ffff
            + 0xffff_ffff_ffff_ffff) by (nonlinear_arith);
    }
}

/// The position of `address` in the list, if it is there.
fn find_delta(deltas: &Vec<(AccountAddress, i128)>, address: AccountAddress) -> (at: Option<usize>)
    ensures
        match at {
            Some(p) => p < deltas@.len() && deltas@[p as int].0 == address,
            None => forall|a: int| 0 <= a < deltas@.len() ==> (#[trigger] deltas@[a]).0 != address,
        },
{
    let mut p: usize = 0;
    while p < deltas.len()
        invariant
            p <= deltas@.len(),
            forall|a: int| 0 <= a < p ==> (#[trigger] deltas@[a]).0 != address,
        decreases deltas@.len() - p,
    {
        if deltas[p].0 == address {
            return Some(p);
        }
        p = p + 1;
    }
    None
}

/// No address stands twice in the list.
pub open spec fn distinct_addresses(deltas: Seq<(AccountAddress, i128)>) -> bool {
    forall|a: int, b: int|
        0 <= a < b < deltas.len() ==> (#[trigger] deltas[a]).0 != (#[trigger] deltas[b]).0
}

/// List `after` is list `before` with `change` added to the entry of
/// `address`, which stands at the end where `before` lacks it.
pub open spec fn added(
    before: Seq<(AccountAddress, i128)>,
    after: Seq<(AccountAddress, i128)>,
    address: AccountAddress,
    change: int,
) -> bool {
    &&& before.len() <= after.len() <= before.len() + 1
    &&& forall|a: int|
        0 <= a < before.len() ==> (#[trigger] after[a]).0 == before[a].0 && after[a].1
            == before[a].1 + (if before[a].0 == address {
            change
        } else {
            0
        })
    &&& after.len() > before.len() ==> after[before.len() as int].0 == address
        && after[before.len() as int].1 == change && forall|a: int|
        0 <= a < before.len() ==> (#[trigger] before[a]).0 != address
    &&& exists|a: int| 0 <= a < after.len() && (#[trigger] after[a]).0 == address
}

/// Adds `change` to the entry of `address`, which is made where it is
/// missing.
fn add_delta(deltas: &mut Vec<(AccountAddress, i128)>, address: AccountAddress, change: i128)
    requires
        distinct_addresses(old(deltas)@),
        forall|a: int|
            0 <= a < old(deltas)@.len() ==> -0x4000_0000_0000_0000_0000_0000_0000_0000 <= (
            #[trigger] old(deltas)@[a]).1 + change <= 0x4000_0000_0000_0000_0000_0000_0000_0000,
    ensures
        distinct_addresses(final(deltas)@),
        added(old(deltas)@, final(deltas)@, address, change as int),
{
    match find_delta(deltas, address) {
        Some(p) => {
            let (a, d) = deltas[p];
            deltas.set(p, (a, d + change));
            assert(deltas@[p as int].0 == address);
        },
        None => {
            deltas.push((address, change));
            assert(deltas@[deltas@.len() - 1].0 == address);
        },
    }
}

/// The changes after one more transfer of the batch.
proof fn lemma_deltas_step(
    recipients: Seq<AccountAddress>,
    amounts: Seq<u64>,
    sender: AccountAddress,
    before: Seq<(AccountAddress, i128)>,
    mid: Seq<(AccountAddress, i128)>,
    after: Seq<(AccountAddress, i128)>,
    i: int,
)
    requires
        0 <= i < batch_len(recipients, amounts),
        is_deltas(before, recipients, amounts, sender, i),
        added(before, mid, recipients[i], amounts[i] as int),
        added(mid, after, sender, -(amounts[i] as int)),
        distinct_addresses(after),
    ensures
        is_deltas(after, recipients, amounts, sender, i + 1),
{
    let recipient = recipients[i];
    let amount = amounts[i] as int;
    assert forall|a: int| 0 <= a < after.len() implies (#[trigger] after[a]).1 == delta_of(
        recipients,
        amounts,
        sender,
        after[a].0,
        i + 1,
    ) && (after[a].0 == sender || exists|j: int| 0 <= j < i + 1 && recipients[j] == after[a].0) by {
        if a < before.len() {
            assert(mid[a].0 == before[a].0);
            assert(after[a].0 == mid[a].0);
            if before[a].0 != sender {
                let j = choose|j: int| 0 <= j < i && recipients[j] == before[a].0;
                assert(0 <= j < i + 1 && recipients[j] == after[a].0);
            }
        } else if a < mid.len() {
            assert(after[a].0 == mid[a].0);
            assert(recipients[i] == after[a].0);
            lemma_never_received(recipients, amounts, before, sender, recipient, i);
        } else {
            assert forall|b: int| 0 <= b < before.len() implies (#[trigger] before[b]).0
                != sender by {
                assert(mid[b].0 == before[b].0);
            }
            lemma_never_received(recipients, amounts, before, sender, sender, i);
        }
    }
    assert forall|j: int| 0 <= j < i + 1 implies exists|a: int|
        0 <= a < after.len() && (#[trigger] after[a]).0 == #[trigger] recipients[j] by {
        if j < i {
            let a = choose|a: int|
                0 <= a < before.len() && (#[trigger] before[a]).0 == recipients[j];
            assert(mid[a].0 == before[a].0);
            assert(after[a].0 == recipients[j]);
        } else {
            let a = choose|a: int| 0 <= a < mid.len() && (#[trigger] mid[a]).0 == recipient;
            assert(after[a].0 == recipients[j]);
        }
    }
}

/// The changes of the first `n` transfers fit with room to spare.
proof fn lemma_deltas_fit(
    recipients: Seq<AccountAddress>,
    amounts: Seq<u64>,
    sender: AccountAddress,
    deltas: Seq<(AccountAddress, i128)>,
    n: int,
)
    requires
        0 <= n <= batch_len(recipients, amounts),
        n <= MAX_BATCH,
        is_deltas(deltas, recipients, amounts, sender, n),
    ensures
        forall|a: int|
            0 <= a < deltas.len() ==> -0x1_0000_0000_0000_0000_0000_0000 <= (
            #[trigger] deltas[a]).1 <= 0x1_0000_0000_0000_0000_0000_0000,
{
    assert forall|a: int| 0 <= a < deltas.len() implies -0x1_0000_0000_0000_0000_0000_0000 <= (
    #[trigger] deltas[a]).1 <= 0x1_0000_0000_0000_0000_0000_0000 by {
        lemma_delta_signs(recipients, amounts, sender, deltas[a].0, n);
        lemma_delta_signs(recipients, amounts, sender, sender, n);
        assert(n * 0xffff_ffff_ffff_ffff <= 0xffff_ffff * 0xffff_ffff_ffff_ffff)
            by (nonlinear_arith)
            requires
                0 <= n <= 0xffff_ffff,
        ;
    }
}

/// The changes that a batch of transfers makes to the balances of its
/// sender and its recipients: each recipient receives its amounts, the
/// sender loses them all. The list holds the sender and the recipients in
/// the order in which the batch names them first. A batch of more than
/// `MAX_BATCH` transfers is refused.
pub fn compute_deltas_for_batch(
    recipient_addresses: &Vec<AccountAddress>,
    transfer_amounts: &Vec<u64>,
    sender_address: AccountAddress,
) -> (result: Result<Vec<(AccountAddress, i128)>, RawError>)
    ensures
        match result {
            Ok(deltas) => is_deltas(
                deltas@,
                recipient_addresses@,
                transfer_amounts@,
                sender_address,
                batch_len(recipient_addresses@, transfer_amounts@),
            ),
            Err(e) => e == RawError::Overflow,
        },
        result is Err <==> batch_len(recipient_addresses@, transfer_amounts@) > MAX_BATCH,
{
    let n = if recipient_addresses.len() <= transfer_amounts.len() {
        recipient_addresses.len()
    } else {
        transfer_amounts.len()
    };
    if n > MAX_BATCH {
        return Err(RawError::Overflow);
    }
    let mut deltas: Vec<(AccountAddress, i128)> = Vec::new();
    let mut i: usize = 0;
    while i < n
        invariant
            n == batch_len(recipient_addresses@, transfer_amounts@),
            n <= MAX_BATCH,
            i <= n,
            is_deltas(deltas@, recipient_addresses@, transfer_amounts@, sender_address, i as int),
        decreases n - i,
    {
        let recipient = recipient_addresses[i];
        let amount = transfer_amounts[i] as i128;
        let ghost before = deltas@;
        proof {
            lemma_deltas_fit(
                recipient_addresses@,
                transfer_amounts@,
                sender_address,
                before,
                i as int,
            );
        }
        add_delta(&mut deltas, recipient, amount);
        let ghost mid = deltas@;
        proof {
            assert forall|a: int| 0 <= a < mid.len() implies -0x4000_0000_0000_0000_0000_0000_0000_0000
                <= (#[trigger] mid[a]).1 + (-amount) <= 0x4000_0000_0000_0000_0000_0000_0000_0000 by {
                if a < before.len() {
                    assert(mid[a].0 == before[a].0);
                }
            }
        }
        add_delta(&mut deltas, sender_address, -amount);
        proof {
            lemma_deltas_step(
                recipient_addresses@,
                transfer_amounts@,
                sender_address,
                before,
                mid,
                deltas@,
                i as int,
            );
        }
        i = i + 1;
    }
    Ok(deltas)
}

/// An address that the list of changes lacks has received nothing, and is
/// not the sender of a batch that has begun.
proof fn lemma_never_received(
    recipients: Seq<AccountAddress>,
    amounts: Seq<u64>,
    deltas: Seq<(AccountAddress, i128)>,
    sender: AccountAddress,
    address: AccountAddress,
    n: int,
)
    requires
        0 <= n <= batch_len(recipients, amounts),
        is_deltas(deltas, recipients, amounts, sender, n),
        forall|a: int| 0 <= a < deltas.len() ==> (#[trigger] deltas[a]).0 != address,
    ensures
        received(recipients, amounts, address, n) == 0,
        address == sender ==> sent(amounts, n) == 0,
    decreases n,
{
    if n > 0 {
        assert(exists|a: int| 0 <= a < deltas.len() && (#[trigger] deltas[a]).0 == recipients[n - 1]);
        assert(recipients[n - 1] != address);
        assert(address != sender);
        lemma_no_transfer_to(recipients, amounts, address, n);
    }
}

/// An address that is not among the recipients receives nothing.
proof fn lemma_no_transfer_to(
    recipients: Seq<AccountAddress>,
    amounts: Seq<u64>,
    address: AccountAddress,
    n: int,
)
    requires
        0 <= n <= batch_len(recipients, amounts),
        forall|i: int| 0 <= i < n ==> recipients[i] != address,
    ensures
        received(recipients, amounts, address, n) == 0,
    decreases n,
{
    if n > 0 {
        lemma_no_transfer_to(recipients, amounts, address, n - 1);
    }
}

/// The change of the sender's balance that the list holds, zero if it holds
/// none.
pub open spec fn sender_delta(deltas: Seq<(AccountAddress, i128)>, sender: AccountAddress) -> int {
    if exists|a: int| 0 <= a < deltas.len() && deltas[a].0 == sender {
        deltas[choose|a: int| 0 <= a < deltas.len() && deltas[a].0 == sender].1 as int
    } else {
        0
    }
}

/// The deposits of a batch to the first `upto` addresses of the list, the
/// sender left out.
pub open spec fn spec_deposits(
    state: State,
    deltas: Seq<(AccountAddress, i128)>,
    sender: AccountAddress,
    fail_on_existing: bool,
    fail_on_missing: bool,
    new_accounts_default_to_fa: bool,
    upto: int,
) -> Partial
    decreases upto,
{
    if upto <= 0 {
        Ok(Ok(IncrementalView { write_set: Seq::empty(), events: Seq::empty() }))
    } else {
        let before = spec_deposits(
            state,
            deltas,
            sender,
            fail_on_existing,
            fail_on_missing,
            new_accounts_default_to_fa,
            upto - 1,
        );
        let (address, change) = deltas[upto - 1];
        if address == sender {
            before
        } else if change < 0 || change > u64::MAX {
            merged(before, Err(RawError::Overflow))
        } else {
            merged(
                before,
                spec_deposit_coin_apt(
                    state,
                    address,
                    change as u64,
                    fail_on_existing,
                    fail_on_missing,
                    new_accounts_default_to_fa,
                ),
            )
        }
    }
}

/// What a batch of transfers with the given changes of balances comes to:
/// the sender pays what the batch moves and the fee, then each recipient
/// receives its share, in the order of the list.
pub open spec fn spec_handle_batch(
    state: State,
    sender: AccountAddress,
    deltas: Seq<(AccountAddress, i128)>,
    fail_on_existing: bool,
    fail_on_missing: bool,
    new_accounts_default_to_fa: bool,
) -> Result<TransactionOutputView, RawError> {
    let to_pay = -sender_delta(deltas, sender);
    if to_pay < 0 || to_pay > u64::MAX {
        Err(RawError::Overflow)
    } else {
        finished(
            merged(
                merged(
                    spec_increment_sequence_number(state, sender),
                    spec_withdraw_coin_apt_from_signer(state, sender, to_pay as u64, BATCH_GAS),
                ),
                spec_deposits(
                    state,
                    deltas,
                    sender,
                    fail_on_existing,
                    fail_on_missing,
                    new_accounts_default_to_fa,
                    deltas.len() as int,
                ),
            ),
            BATCH_GAS,
        )
    }
}

/// What a native transaction comes to when it is run for itself against
/// `state`, where the changes of balances of a batch are `deltas`.
pub open spec fn spec_execute_raw(
    state: State,
    txn: NativeTransaction,
    deltas: Seq<(AccountAddress, i128)>,
) -> Result<TransactionOutputView, RawError> {
    match txn {
        NativeTransaction::Nop { sender, sequence_number } => spec_handle_nop(
            state,
            sender,
            spec_fa_migration_complete(state),
        ),
        NativeTransaction::FaTransfer {
            sender,
            sequence_number,
            recipient,
            amount,
        } => spec_handle_fa_transfer(state, sender, recipient, amount),
        NativeTransaction::Transfer {
            sender,
            sequence_number,
            recipient,
            amount,
            fail_on_account_existing,
            fail_on_account_missing,
        } => spec_handle_account_creation_and_transfer(
            state,
            sender,
            recipient,
            amount,
            fail_on_account_existing,
            fail_on_account_missing,
            spec_new_accounts_default_to_fa(state),
        ),
        NativeTransaction::BatchTransfer {
            sender,
            sequence_number,
            recipients,
            amounts,
            fail_on_account_existing,
            fail_on_account_missing,
        } => if batch_len(recipients@, amounts@) > MAX_BATCH {
            Err(RawError::Overflow)
        } else {
            spec_handle_batch(
                state,
                sender,
                deltas,
                fail_on_account_existing,
                fail_on_account_missing,
                spec_new_accounts_default_to_fa(state),
            )
        },
    }
}

/// Whether `result` is what the transaction comes to when it is run for
/// itself against `state`. The recipients of a batch are served in an order
/// that nothing is said about.
pub open spec fn is_raw_result(
    state: State,
    txn: NativeTransaction,
    result: Result<TransactionOutputView, RawError>,
) -> bool {
    match txn {
        NativeTransaction::BatchTransfer { sender, recipients, amounts, .. } => if batch_len(
            recipients@,
            amounts@,
        ) > MAX_BATCH {
            result == Err::<TransactionOutputView, RawError>(RawError::Overflow)
        } else {
            exists|deltas: Seq<(AccountAddress, i128)>|
                is_deltas(deltas, recipients@, amounts@, sender, batch_len(recipients@, amounts@))
                    && result == #[trigger] spec_execute_raw(state, txn, deltas)
        },
        _ => result == spec_execute_raw(state, txn, Seq::empty()),
    }
}

impl NativeRawTransactionExecutor {
    /// Runs a batch of transfers whose changes of balances are `deltas`.
    pub fn handle_batch_with_deltas(
        &self,
        sender_address: AccountAddress,
        deltas: &Vec<(AccountAddress, i128)>,
        fail_on_existing: bool,
        fail_on_missing: bool,
        state_view: &HashMap<StateKey, StateValue>,
        new_accounts_default_to_fa: bool,
    ) -> (result: Result<TransactionOutput, RawError>)
        requires
            forall|a: int, b: int|
                0 <= a < b < deltas@.len() ==> (#[trigger] deltas@[a]).0 != (#[trigger] deltas@[b]).0,
        ensures
            output_of_run(result) == spec_handle_batch(
                state_view@,
                sender_address,
                deltas@,
                fail_on_existing,
                fail_on_missing,
                new_accounts_default_to_fa,
            ),
    {
        let gas = BATCH_GAS;
        let to_sender: i128 = match find_delta(deltas, sender_address) {
            Some(p) => {
                proof {
                    let c = choose|a: int| 0 <= a < deltas@.len() && deltas@[a].0 == sender_address;
                    if c < p {
                        assert(deltas@[c].0 != deltas@[p as int].0);
                    }
                    if p < c {
                        assert(deltas@[p as int].0 != deltas@[c].0);
                    }
                }
                deltas[p].1
            },
            None => 0,
        };
        if to_sender > 0 || to_sender < -0xffff_ffff_ffff_ffff {
            return Err(RawError::Overflow);
        }
        let amount_to_sender = (-to_sender) as u64;
        let mut output = IncrementalOutput::new();
        proof {
            lemma_joined_empty();
        }
        match self.increment_sequence_number(sender_address, state_view) {
            Ok(Ok(part)) => {
                output.append(part);
            },
            Ok(Err(status)) => {
                return Ok(IncrementalOutput::to_abort(status));
            },
            Err(e) => {
                return Err(e);
            },
        }
        match self.withdraw_coin_apt_from_signer(sender_address, amount_to_sender, state_view, gas) {
            Ok(Ok(part)) => {
                output.append(part);
            },
            Ok(Err(status)) => {
                return Ok(IncrementalOutput::to_abort(status));
            },
            Err(e) => {
                return Err(e);
            },
        }
        let ghost paid = output@;
        let mut deposits = IncrementalOutput::new();
        let mut i: usize = 0;
        while i < deltas.len()
            invariant
                i <= deltas@.len(),
                spec_deposits(
                    state_view@,
                    deltas@,
                    sender_address,
                    fail_on_existing,
                    fail_on_missing,
                    new_accounts_default_to_fa,
                    i as int,
                ) == Ok::<Result<IncrementalView, TransactionStatus>, RawError>(Ok(deposits@)),
                output@ == paid,
                merged(
                    spec_increment_sequence_number(state_view@, sender_address),
                    spec_withdraw_coin_apt_from_signer(
                        state_view@,
                        sender_address,
                        amount_to_sender,
                        gas,
                    ),
                ) == Ok::<Result<IncrementalView, TransactionStatus>, RawError>(Ok(paid)),
                gas == BATCH_GAS,
                -sender_delta(deltas@, sender_address) == amount_to_sender,
            decreases deltas@.len() - i,
        {
            let (recipient_address, transfer_amount) = deltas[i];
            if recipient_address != sender_address {
                if transfer_amount < 0 || transfer_amount > 0xffff_ffff_ffff_ffff {
                    proof {
                        lemma_deposits_fail(
                            state_view@,
                            deltas@,
                            sender_address,
                            fail_on_existing,
                            fail_on_missing,
                            new_accounts_default_to_fa,
                            i + 1,
                            deltas@.len() as int,
                        );
                    }
                    return Err(RawError::Overflow);
                }
                match self.deposit_coin_apt(
                    recipient_address,
                    transfer_amount as u64,
                    fail_on_existing,
                    fail_on_missing,
                    state_view,
                    new_accounts_default_to_fa,
                ) {
                    Ok(Ok(part)) => {
                        deposits.append(part);
                    },
                    Ok(Err(status)) => {
                        proof {
                            lemma_deposits_fail(
                                state_view@,
                                deltas@,
                                sender_address,
                                fail_on_existing,
                                fail_on_missing,
                                new_accounts_default_to_fa,
                                i + 1,
                                deltas@.len() as int,
                            );
                        }
                        return Ok(IncrementalOutput::to_abort(status));
                    },
                    Err(e) => {
                        proof {
                            lemma_deposits_fail(
                                state_view@,
                                deltas@,
                                sender_address,
                                fail_on_existing,
                                fail_on_missing,
                                new_accounts_default_to_fa,
                                i + 1,
                                deltas@.len() as int,
                            );
                        }
                        return Err(e);
                    },
                }
            }
            i = i + 1;
        }
        output.append(deposits);
        Ok(output.into_success_output(gas))
    }

    /// Runs a batch of transfers: the sender pays what the batch moves and
    /// the fee, then each recipient receives its share.
    pub fn handle_batch_account_creation_and_transfer(
        &self,
        sender_address: AccountAddress,
        recipient_addresses: &Vec<AccountAddress>,
        transfer_amounts: &Vec<u64>,
        fail_on_existing: bool,
        fail_on_missing: bool,
        state_view: &HashMap<StateKey, StateValue>,
        new_accounts_default_to_fa: bool,
    ) -> (result: Result<TransactionOutput, RawError>)
        ensures
            batch_len(recipient_addresses@, transfer_amounts@) > MAX_BATCH ==> output_of_run(result)
                == Err::<TransactionOutputView, RawError>(RawError::Overflow),
            batch_len(recipient_addresses@, transfer_amounts@) <= MAX_BATCH ==> exists|
                deltas: Seq<(AccountAddress, i128)>,
            |
                is_deltas(
                    deltas,
                    recipient_addresses@,
                    transfer_amounts@,
                    sender_address,
                    batch_len(recipient_addresses@, transfer_amounts@),
                ) && output_of_run(result) == #[trigger] spec_handle_batch(
                    state_view@,
                    sender_address,
                    deltas,
                    fail_on_existing,
                    fail_on_missing,
                    new_accounts_default_to_fa,
                ),
    {
        match compute_deltas_for_batch(recipient_addresses, transfer_amounts, sender_address) {
            Err(e) => Err(e),
            Ok(deltas) => self.handle_batch_with_deltas(
                sender_address,
                &deltas,
                fail_on_existing,
                fail_on_missing,
                state_view,
                new_accounts_default_to_fa,
            ),
        }
    }
}

/// Deposits that have failed stay failed, whatever follows.
proof fn lemma_deposits_fail(
    state: State,
    deltas: Seq<(AccountAddress, i128)>,
    sender: AccountAddress,
    fail_on_existing: bool,
    fail_on_missing: bool,
    new_accounts_default_to_fa: bool,
    at: int,
    upto: int,
)
    requires
        0 <= at <= upto,
        !(spec_deposits(
            state,
            deltas,
            sender,
            fail_on_existing,
            fail_on_missing,
            new_accounts_default_to_fa,
            at,
        ) matches Ok(Ok(_))),
    ensures
        spec_deposits(
            state,
            deltas,
            sender,
            fail_on_existing,
            fail_on_missing,
            new_accounts_default_to_fa,
            upto,
        ) == spec_deposits(
            state,
            deltas,
            sender,
            fail_on_existing,
            fail_on_missing,
            new_accounts_default_to_fa,
            at,
        ),
    decreases upto - at,
{
    if at < upto {
        lemma_deposits_fail(
            state,
            deltas,
            sender,
            fail_on_existing,
            fail_on_missing,
            new_accounts_default_to_fa,
            at,
            upto - 1,
        );
    }
}

/// Runs transactions to their end, each for itself: what it yields is the
/// final output of the transaction, not a set of changes that an engine
/// still has to order and to check.
pub trait RawTransactionExecutor: Sized {
    /// What the executor learns from the state once for the whole block.
    type BlockState;

    /// Whether `result` is what `txn` comes to against `state`.
    spec fn is_result(
        &self,
        txn: NativeTransaction,
        state: State,
        block_state: Self::BlockState,
        result: Result<TransactionOutputView, RawError>,
    ) -> bool;

    /// What the executor learns from `state`.
    spec fn spec_block_state(&self, state: State) -> Self::BlockState;

    /// The executor as it is before it has run anything.
    spec fn spec_new() -> Self;

    /// An executor that has run nothing yet.
    fn new() -> (executor: Self)
        ensures
            executor == Self::spec_new(),
    ;

    fn init_block_state(&self, state_view: &HashMap<StateKey, StateValue>) -> (block_state:
        Self::BlockState)
        ensures
            block_state == self.spec_block_state(state_view@),
    ;

    fn execute_transaction(
        &self,
        txn: &NativeTransaction,
        state_view: &HashMap<StateKey, StateValue>,
        block_state: &Self::BlockState,
    ) -> (result: Result<TransactionOutput, RawError>)
        ensures
            self.is_result(*txn, state_view@, *block_state, output_of_run(result)),
    ;
}

impl RawTransactionExecutor for NativeRawTransactionExecutor {
    /// Whether balances are kept as fungible assets, and whether new
    /// accounts keep theirs so.
    type BlockState = (bool, bool);

    open spec fn is_result(
        &self,
        txn: NativeTransaction,
        state: State,
        block_state: (bool, bool),
        result: Result<TransactionOutputView, RawError>,
    ) -> bool {
        block_state == self.spec_block_state(state) ==> is_raw_result(state, txn, result)
    }

    open spec fn spec_block_state(&self, state: State) -> (bool, bool) {
        (spec_fa_migration_complete(state), spec_new_accounts_default_to_fa(state))
    }

    closed spec fn spec_new() -> Self {
        NativeRawTransactionExecutor { db_util: DbAccessUtil }
    }

    fn new() -> (executor: Self) {
        Self { db_util: DbAccessUtil::new() }
    }

    fn init_block_state(&self, state_view: &HashMap<StateKey, StateValue>) -> (block_state: (
        bool,
        bool,
    )) {
        match read(state_view, FEATURES_KEY) {
            Some(features) => (features % 2 == 1, (features / 2) % 2 == 1),
            None => (false, false),
        }
    }

    fn execute_transaction(
        &self,
        txn: &NativeTransaction,
        state_view: &HashMap<StateKey, StateValue>,
        block_state: &(bool, bool),
    ) -> (result: Result<TransactionOutput, RawError>) {
        let (fa_migration_complete, new_accounts_default_to_fa) = *block_state;
        match txn {
            NativeTransaction::Nop { sender, sequence_number: _ } => self.handle_nop(
                *sender,
                fa_migration_complete,
                state_view,
            ),
            NativeTransaction::FaTransfer {
                sender,
                sequence_number: _,
                recipient,
                amount,
            } => self.handle_fa_transfer(*sender, *recipient, *amount, state_view),
            NativeTransaction::Transfer {
                sender,
                sequence_number: _,
                recipient,
                amount,
                fail_on_account_existing,
                fail_on_account_missing,
            } => self.handle_account_creation_and_transfer(
                *sender,
                *recipient,
                *amount,
                *fail_on_account_existing,
                *fail_on_account_missing,
                state_view,
                new_accounts_default_to_fa,
            ),
            NativeTransaction::BatchTransfer {
                sender,
                sequence_number: _,
                recipients,
                amounts,
                fail_on_account_existing,
                fail_on_account_missing,
            } => {
                let result = self.handle_batch_account_creation_and_transfer(
                    *sender,
                    recipients,
                    amounts,
                    *fail_on_account_existing,
                    *fail_on_account_missing,
                    state_view,
                    new_accounts_default_to_fa,
                );
                proof {
                    if batch_len(recipients@, amounts@) <= MAX_BATCH && *block_state
                        == self.spec_block_state(state_view@) {
                        let deltas = choose|deltas: Seq<(AccountAddress, i128)>|
                            is_deltas(
                                deltas,
                                recipients@,
                                amounts@,
                                *sender,
                                batch_len(recipients@, amounts@),
                            ) && output_of_run(result) == #[trigger] spec_handle_batch(
                                state_view@,
                                *sender,
                                deltas,
                                *fail_on_account_existing,
                                *fail_on_account_missing,
                                new_accounts_default_to_fa,
                            );
                        assert(output_of_run(result) == spec_execute_raw(
                            state_view@,
                            *txn,
                            deltas,
                        ));
                    }
                }
                result
            },
        }
    }
}

/// Executes a block without coordination: each transaction is run for
/// itself against the state before the block.
pub struct NativeParallelUncoordinatedBlockExecutor<E: RawTransactionExecutor> {
    executor: E,
}

impl<E: RawTransactionExecutor> NativeParallelUncoordinatedBlockExecutor<E> {
    /// The executor of the transactions.
    pub closed spec fn executor(&self) -> E {
        self.executor
    }

    /// A block executor over the executor that `E` begins with.
    pub fn new() -> (block_executor: Self)
        ensures
            block_executor.executor() == E::spec_new(),
    {
        Self { executor: E::new() }
    }

    /// Runs every transaction of the block for itself against `state_view`.
    /// The outputs are as many as the transactions and in their order. The
    /// block fails where a transaction cannot be run, and says of one such
    /// transaction why.
    pub fn execute_block(
        &self,
        transactions: &Vec<NativeTransaction>,
        state_view: &HashMap<StateKey, StateValue>,
    ) -> (result: Result<BlockOutput, VMStatus>)
        ensures
            match result {
                Ok(out) => {
                    &&& out.transaction_outputs@.len() == transactions@.len()
                    &&& out.block_end_info is None
                    &&& forall|i: int|
                        0 <= i < transactions@.len() ==> self.executor().is_result(
                            transactions@[i],
                            state_view@,
                            self.executor().spec_block_state(state_view@),
                            Ok(#[trigger] out.transaction_outputs@[i]@),
                        )
                },
                Err(status) => {
                    exists|i: int, e: RawError|
                        0 <= i < transactions@.len() && #[trigger] self.executor().is_result(
                            transactions@[i],
                            state_view@,
                            self.executor().spec_block_state(state_view@),
                            Err(e),
                        ) && status == (VMStatus::Error {
                            status_code: StatusCode::DelayedFieldOrBlockstmCodeInvariantError,
                            message: Some(ErrorMessage::Transaction(e)),
                        })
                },
            },
    {
        let state = self.executor.init_block_state(state_view);
        let mut transaction_outputs: Vec<TransactionOutput> = Vec::new();
        let mut i: usize = 0;
        while i < transactions.len()
            invariant
                i <= transactions@.len(),
                state == self.executor.spec_block_state(state_view@),
                transaction_outputs@.len() == i,
                forall|j: int|
                    0 <= j < i ==> self.executor.is_result(
                        transactions@[j],
                        state_view@,
                        state,
                        Ok(#[trigger] transaction_outputs@[j]@),
                    ),
            decreases transactions@.len() - i,
        {
            match self.executor.execute_transaction(&transactions[i], state_view, &state) {
                Ok(output) => {
                    transaction_outputs.push(output);
                },
                Err(e) => {
                    assert(0 <= i < transactions@.len() && self.executor().is_result(
                        transactions@[i as int],
                        state_view@,
                        self.executor().spec_block_state(state_view@),
                        Err(e),
                    ));
                    return Err(
                        VMStatus::Error {
                            status_code: StatusCode::DelayedFieldOrBlockstmCodeInvariantError,
                            message: Some(ErrorMessage::Transaction(e)),
                        },
                    );
                },
            }
            i = i + 1;
        }
        Ok(BlockOutput::new(transaction_outputs, None))
    }
}

/// The balance of an account of which nothing is known.
pub const INITIAL_BALANCE: u64 = 100_000_000_000_000_000;

/// The output of a transaction whose effects are kept elsewhere.
pub open spec fn empty_output() -> TransactionOutputView {
    abort_output(TransactionStatus::Keep)
}

/// What the executor without storage knows: the last sequence number and
/// the balance of each account that it has seen.
pub struct NoStorageView {
    pub seq_nums: State,
    pub balances: State,
}

/// The balance of `address`: what is known of it, or the initial balance.
pub open spec fn balance_of(balances: State, address: AccountAddress) -> u64 {
    match lookup(balances, address as u128) {
        Some(b) => b,
        None => INITIAL_BALANCE,
    }
}

/// The balances after `amount` left the balance of `address`.
pub open spec fn debited(balances: State, address: AccountAddress, amount: int) -> Result<
    State,
    RawError,
> {
    if amount > balance_of(balances, address) {
        Err(RawError::InsufficientBalance)
    } else {
        Ok(balances.insert(address as u128, (balance_of(balances, address) - amount) as u64))
    }
}

/// The balances after `amount` entered the balance of `address`.
pub open spec fn credited(balances: State, address: AccountAddress, amount: int) -> Result<
    State,
    RawError,
> {
    if balance_of(balances, address) + amount > u64::MAX {
        Err(RawError::Overflow)
    } else {
        Ok(balances.insert(address as u128, (balance_of(balances, address) + amount) as u64))
    }
}

/// What the executor without storage knows after a transfer of `amount`
/// with sequence number `sequence_number`, if the transfer goes through.
pub open spec fn no_storage_transfer(
    v: NoStorageView,
    sender: AccountAddress,
    sequence_number: u64,
    recipient: Option<AccountAddress>,
    amount: u64,
) -> Result<NoStorageView, RawError> {
    let seq_nums = v.seq_nums.insert(sender as u128, sequence_number);
    match debited(v.balances, sender, amount + GAS) {
        Err(e) => Err(e),
        Ok(paid) => match recipient {
            None => Ok(NoStorageView { seq_nums, balances: paid }),
            Some(r) => match credited(paid, r, amount as int) {
                Err(e) => Err(e),
                Ok(balances) => Ok(NoStorageView { seq_nums, balances }),
            },
        },
    }
}

/// The balance of `address` after `change`, which may be negative, was
/// added to what `balances` has for it.
pub open spec fn new_balance(balances: State, address: AccountAddress, change: int) -> Result<
    u64,
    RawError,
> {
    if balance_of(balances, address) + change < 0 {
        Err(RawError::InsufficientBalance)
    } else if balance_of(balances, address) + change > u64::MAX {
        Err(RawError::Overflow)
    } else {
        Ok((balance_of(balances, address) + change) as u64)
    }
}

/// Balances `so_far` with the first `upto` changes of the list made: each
/// address of the list gets what `balances` has for it and its change. The
/// first change that a balance cannot take fails them all.
pub open spec fn batch_balances(
    balances: State,
    so_far: State,
    deltas: Seq<(AccountAddress, i128)>,
    upto: int,
) -> Result<State, RawError>
    decreases upto,
{
    if upto <= 0 {
        Ok(so_far)
    } else {
        match batch_balances(balances, so_far, deltas, upto - 1) {
            Err(e) => Err(e),
            Ok(b) => match new_balance(balances, deltas[upto - 1].0, deltas[upto - 1].1 as int) {
                Err(e) => Err(e),
                Ok(v) => Ok(b.insert(deltas[upto - 1].0 as u128, v)),
            },
        }
    }
}

/// What the executor without storage knows after a batch of transfers with
/// sequence number `sequence_number` whose changes of balances are
/// `deltas`, if the batch goes through: the sender's sequence number, a
/// balance for the sender, and each change made. A batch pays no fee.
pub open spec fn no_storage_batch(
    v: NoStorageView,
    sender: AccountAddress,
    sequence_number: u64,
    deltas: Seq<(AccountAddress, i128)>,
) -> Result<NoStorageView, RawError> {
    match batch_balances(
        v.balances,
        v.balances.insert(sender as u128, balance_of(v.balances, sender)),
        deltas,
        deltas.len() as int,
    ) {
        Err(e) => Err(e),
        Ok(balances) => Ok(
            NoStorageView {
                seq_nums: v.seq_nums.insert(sender as u128, sequence_number),
                balances,
            },
        ),
    }
}

/// Changes that the balances can all take can be made.
proof fn lemma_batch_goes_through(
    balances: State,
    so_far: State,
    deltas: Seq<(AccountAddress, i128)>,
    upto: int,
)
    requires
        0 <= upto <= deltas.len(),
        forall|k: int|
            0 <= k < upto ==> new_balance(balances, (#[trigger] deltas[k]).0, deltas[k].1 as int)
                is Ok,
    ensures
        batch_balances(balances, so_far, deltas, upto) is Ok,
    decreases upto,
{
    if upto > 0 {
        lemma_batch_goes_through(balances, so_far, deltas, upto - 1);
        assert(new_balance(balances, deltas[upto - 1].0, deltas[upto - 1].1 as int) is Ok);
    }
}

/// The first change that a balance cannot take fails the batch.
proof fn lemma_batch_fails(
    balances: State,
    so_far: State,
    deltas: Seq<(AccountAddress, i128)>,
    at: int,
    upto: int,
    e: RawError,
)
    requires
        0 <= at < upto <= deltas.len(),
        batch_balances(balances, so_far, deltas, at) is Ok,
        new_balance(balances, deltas[at].0, deltas[at].1 as int) == Err::<u64, RawError>(e),
    ensures
        batch_balances(balances, so_far, deltas, upto) == Err::<State, RawError>(e),
    decreases upto,
{
    if upto > at + 1 {
        lemma_batch_fails(balances, so_far, deltas, at, upto - 1, e);
    }
}

/// Runs transfers on balances that it keeps itself: nothing is read from the
/// state and nothing is written to it. An account of which nothing is known
/// has the initial balance.
pub struct NativeNoStorageRawTransactionExecutor {
    seq_nums: dashmap::DashMap<u128, u64>,
    balances: dashmap::DashMap<u128, u64>,
}

impl View for NativeNoStorageRawTransactionExecutor {
    type V = NoStorageView;

    closed spec fn view(&self) -> NoStorageView {
        NoStorageView {
            seq_nums: dash_map_contents(self.seq_nums),
            balances: dash_map_contents(self.balances),
        }
    }
}

impl NativeNoStorageRawTransactionExecutor {
    pub fn new() -> (executor: Self)
        ensures
            executor@.seq_nums == State::empty(),
            executor@.balances == State::empty(),
    {
        Self { seq_nums: dash_map_new(), balances: dash_map_new() }
    }

    /// The balance that the executor has for `address`.
    pub fn balance(&self, address: AccountAddress) -> (balance: u64)
        ensures
            balance == balance_of(self@.balances, address),
    {
        match dash_map_get(&self.balances, address as u128) {
            Some(b) => b,
            None => INITIAL_BALANCE,
        }
    }

    /// The last sequence number that the executor has seen of `address`.
    pub fn sequence_number(&self, address: AccountAddress) -> (n: Option<u64>)
        ensures
            n == lookup(self@.seq_nums, address as u128),
    {
        dash_map_get(&self.seq_nums, address as u128)
    }

    /// Runs a transfer, or, with no recipient, a transaction that only
    /// pays its fee. Where the transfer does not go through, nothing is
    /// changed.
    fn transfer(
        &mut self,
        sender: AccountAddress,
        sequence_number: u64,
        recipient: Option<AccountAddress>,
        amount: u64,
    ) -> (result: Result<TransactionOutput, RawError>)
        ensures
            match no_storage_transfer(old(self)@, sender, sequence_number, recipient, amount) {
                Ok(after) => final(self)@ == after && output_of_run(result) == Ok::<
                    TransactionOutputView,
                    RawError,
                >(empty_output()),
                Err(e) => final(self)@ == old(self)@ && output_of_run(result) == Err::<
                    TransactionOutputView,
                    RawError,
                >(e),
            },
    {
        let total = match amount.checked_add(GAS) {
            Some(t) => t,
            None => {
                return Err(RawError::InsufficientBalance);
            },
        };
        let sender_balance = self.balance(sender);
        if total > sender_balance {
            return Err(RawError::InsufficientBalance);
        }
        let paid = sender_balance - total;
        match recipient {
            None => {
                dash_map_insert(&mut self.seq_nums, sender as u128, sequence_number);
                dash_map_insert(&mut self.balances, sender as u128, paid);
            },
            Some(r) => {
                let recipient_balance = if r == sender {
                    paid
                } else {
                    self.balance(r)
                };
                let credited = match recipient_balance.checked_add(amount) {
                    Some(c) => c,
                    None => {
                        return Err(RawError::Overflow);
                    },
                };
                dash_map_insert(&mut self.seq_nums, sender as u128, sequence_number);
                dash_map_insert(&mut self.balances, sender as u128, paid);
                dash_map_insert(&mut self.balances, r as u128, credited);
            },
        }
        Ok(IncrementalOutput::to_abort(TransactionStatus::Keep))
    }

    /// Runs a batch of transfers whose changes of balances are `deltas`.
    /// Where a balance cannot take its change, nothing is changed.
    fn batch(
        &mut self,
        sender: AccountAddress,
        sequence_number: u64,
        deltas: &Vec<(AccountAddress, i128)>,
    ) -> (result: Result<TransactionOutput, RawError>)
        requires
            forall|a: int|
                0 <= a < deltas@.len() ==> -0x1_0000_0000_0000_0000_0000_0000 <= (
                #[trigger] deltas@[a]).1 <= 0x1_0000_0000_0000_0000_0000_0000,
        ensures
            match no_storage_batch(old(self)@, sender, sequence_number, deltas@) {
                Ok(after) => final(self)@ == after && output_of_run(result) == Ok::<
                    TransactionOutputView,
                    RawError,
                >(empty_output()),
                Err(e) => final(self)@ == old(self)@ && output_of_run(result) == Err::<
                    TransactionOutputView,
                    RawError,
                >(e),
            },
    {
        let ghost before = self@;
        let ghost begun = before.balances.insert(
            sender as u128,
            balance_of(before.balances, sender),
        );
        let mut values: Vec<u64> = Vec::new();
        let mut i: usize = 0;
        while i < deltas.len()
            invariant
                i <= deltas@.len(),
                self@ == before,
                before == old(self)@,
                begun == before.balances.insert(sender as u128, balance_of(before.balances, sender)),
                values@.len() == i,
                forall|a: int|
                    0 <= a < deltas@.len() ==> -0x1_0000_0000_0000_0000_0000_0000 <= (
                    #[trigger] deltas@[a]).1 <= 0x1_0000_0000_0000_0000_0000_0000,
                forall|k: int|
                    0 <= k < i ==> new_balance(
                        before.balances,
                        (#[trigger] deltas@[k]).0,
                        deltas@[k].1 as int,
                    ) == Ok::<u64, RawError>(values@[k]),
            decreases deltas@.len() - i,
        {
            let (address, change) = deltas[i];
            let sum: i128 = self.balance(address) as i128 + change;
            if sum < 0 || sum > 0xffff_ffff_ffff_ffff {
                let e = if sum < 0 {
                    RawError::InsufficientBalance
                } else {
                    RawError::Overflow
                };
                proof {
                    lemma_batch_goes_through(before.balances, begun, deltas@, i as int);
                    lemma_batch_fails(
                        before.balances,
                        begun,
                        deltas@,
                        i as int,
                        deltas@.len() as int,
                        e,
                    );
                }
                return Err(e);
            }
            values.push(sum as u64);
            i = i + 1;
        }
        let sender_balance = self.balance(sender);
        dash_map_insert(&mut self.seq_nums, sender as u128, sequence_number);
        dash_map_insert(&mut self.balances, sender as u128, sender_balance);
        let mut j: usize = 0;
        while j < deltas.len()
            invariant
                j <= deltas@.len(),
                values@.len() == deltas@.len(),
                before == old(self)@,
                begun == before.balances.insert(sender as u128, balance_of(before.balances, sender)),
                self@.seq_nums == before.seq_nums.insert(sender as u128, sequence_number),
                batch_balances(before.balances, begun, deltas@, j as int) == Ok::<State, RawError>(
                    self@.balances,
                ),
                forall|k: int|
                    0 <= k < deltas@.len() ==> new_balance(
                        before.balances,
                        (#[trigger] deltas@[k]).0,
                        deltas@[k].1 as int,
                    ) == Ok::<u64, RawError>(values@[k]),
            decreases deltas@.len() - j,
        {
            let address = deltas[j].0;
            dash_map_insert(&mut self.balances, address as u128, values[j]);
            j = j + 1;
        }
        Ok(IncrementalOutput::to_abort(TransactionStatus::Keep))
    }

    /// Runs a transaction on the balances that the executor keeps. A
    /// transaction that pays its fee and moves its amount goes through, and
    /// its output is empty; one whose sender lacks the balance, or whose
    /// recipient's balance would not fit, changes nothing. A batch takes
    /// from its sender what it moves and gives each recipient its amounts,
    /// in an order that nothing is said about; one of more than `MAX_BATCH`
    /// transfers is refused.
    pub fn execute_transaction(&mut self, txn: &NativeTransaction) -> (result: Result<
        TransactionOutput,
        RawError,
    >)
        ensures
            match *txn {
                NativeTransaction::Nop { sender, sequence_number } => match no_storage_transfer(
                    old(self)@,
                    sender,
                    sequence_number,
                    None,
                    0,
                ) {
                    Ok(after) => final(self)@ == after && output_of_run(result) == Ok::<
                        TransactionOutputView,
                        RawError,
                    >(empty_output()),
                    Err(e) => final(self)@ == old(self)@ && output_of_run(result) == Err::<
                        TransactionOutputView,
                        RawError,
                    >(e),
                },
                NativeTransaction::FaTransfer { sender, sequence_number, recipient, amount }
                | NativeTransaction::Transfer {
                    sender,
                    sequence_number,
                    recipient,
                    amount,
                    ..
                } => match no_storage_transfer(
                    old(self)@,
                    sender,
                    sequence_number,
                    Some(recipient),
                    amount,
                ) {
                    Ok(after) => final(self)@ == after && output_of_run(result) == Ok::<
                        TransactionOutputView,
                        RawError,
                    >(empty_output()),
                    Err(e) => final(self)@ == old(self)@ && output_of_run(result) == Err::<
                        TransactionOutputView,
                        RawError,
                    >(e),
                },
                NativeTransaction::BatchTransfer {
                    sender,
                    sequence_number,
                    recipients,
                    amounts,
                    ..
                } => if batch_len(recipients@, amounts@) > MAX_BATCH {
                    final(self)@ == old(self)@ && output_of_run(result) == Err::<
                        TransactionOutputView,
                        RawError,
                    >(RawError::Overflow)
                } else {
                    exists|deltas: Seq<(AccountAddress, i128)>|
                        is_deltas(
                            deltas,
                            recipients@,
                            amounts@,
                            sender,
                            batch_len(recipients@, amounts@),
                        ) && match #[trigger] no_storage_batch(
                            old(self)@,
                            sender,
                            sequence_number,
                            deltas,
                        ) {
                            Ok(after) => final(self)@ == after && output_of_run(result) == Ok::<
                                TransactionOutputView,
                                RawError,
                            >(empty_output()),
                            Err(e) => final(self)@ == old(self)@ && output_of_run(result) == Err::<
                                TransactionOutputView,
                                RawError,
                            >(e),
                        }
                },
            },
    {
        match txn {
            NativeTransaction::Nop { sender, sequence_number } => self.transfer(
                *sender,
                *sequence_number,
                None,
                0,
            ),
            NativeTransaction::FaTransfer { sender, sequence_number, recipient, amount } => {
                self.transfer(*sender, *sequence_number, Some(*recipient), *amount)
            },
            NativeTransaction::Transfer { sender, sequence_number, recipient, amount, .. } => {
                self.transfer(*sender, *sequence_number, Some(*recipient), *amount)
            },
            NativeTransaction::BatchTransfer {
                sender,
                sequence_number,
                recipients,
                amounts,
                ..
            } => {
                match compute_deltas_for_batch(recipients, amounts, *sender) {
                    Err(e) => Err(e),
                    Ok(deltas) => {
                        proof {
                            lemma_deltas_fit(
                                recipients@,
                                amounts@,
                                *sender,
                                deltas@,
                                batch_len(recipients@, amounts@),
                            );
                        }
                        let result = self.batch(*sender, *sequence_number, &deltas);
                        proof {
                            assert(is_deltas(
                                deltas@,
                                recipients@,
                                amounts@,
                                *sender,
                                batch_len(recipients@, amounts@),
                            ));
                        }
                        result
                    },
                }
            },
        }
    }
}

/// What is known of `key`: what the cache holds, or, where it holds
/// nothing, what the state holds.
pub open spec fn cached_or_stored(cache: State, state: State, key: StateKey) -> Option<StateValue> {
    match lookup(cache, key) {
        Some(v) => Some(v),
        None => lookup(state, key),
    }
}

/// The cache after the sender's sequence number was set, and whether it was.
pub open spec fn spec_update_sequence_number(
    cache: State,
    state: State,
    sender: AccountAddress,
    sequence_number: u64,
) -> (State, Result<(), RawError>) {
    if cached_or_stored(cache, state, account_key(sender)) is None {
        (cache, Err(RawError::SenderMissing))
    } else {
        (cache.insert(account_key(sender), sequence_number), Ok(()))
    }
}

/// The cache after the balance of `address` went up by `increment` and down
/// by `decrement`, and whether the balance came from the state just now. A
/// store of which nothing is known is made empty, unless that is ruled out.
pub open spec fn spec_update_fa_balance(
    cache: State,
    state: State,
    address: AccountAddress,
    increment: u64,
    decrement: u64,
    fail_on_missing: bool,
) -> (State, Result<bool, RawError>) {
    let key = fa_store_key(address);
    let known = cached_or_stored(cache, state, key);
    if known is None && fail_on_missing {
        (cache, Err(RawError::AccountMissing))
    } else {
        let current = match known {
            Some(b) => b,
            None => 0,
        };
        if current + increment > u64::MAX {
            (cache, Err(RawError::Overflow))
        } else if current + increment < decrement {
            (cache, Err(RawError::InsufficientBalance))
        } else {
            (
                cache.insert(key, (current + increment - decrement) as u64),
                Ok(lookup(cache, key) is None && lookup(state, key) is Some),
            )
        }
    }
}

/// The cache after the account of `address` was looked at and, where it was
/// missing, made.
pub open spec fn spec_cache_account(
    cache: State,
    state: State,
    address: AccountAddress,
    fail_on_existing: bool,
    fail_on_missing: bool,
) -> (State, Result<(), RawError>) {
    let key = account_key(address);
    match cached_or_stored(cache, state, key) {
        Some(account) => if fail_on_existing {
            (cache, Err(RawError::AccountExists))
        } else {
            (cache.insert(key, account), Ok(()))
        },
        None => if fail_on_missing {
            (cache, Err(RawError::AccountMissing))
        } else {
            (cache.insert(key, 0), Ok(()))
        },
    }
}

/// The cache after a transaction was run on it, and whether it went
/// through. A transaction that fails leaves in the cache what it did before
/// it failed.
pub open spec fn spec_cached_execution(cache: State, state: State, txn: NativeTransaction) -> (
    State,
    Result<(), RawError>,
) {
    match txn {
        NativeTransaction::BatchTransfer { .. } => (cache, Err(RawError::Unsupported)),
        NativeTransaction::Nop { sender, sequence_number } => {
            let (c1, r1) = spec_update_sequence_number(cache, state, sender, sequence_number);
            if r1 is Err {
                (c1, r1)
            } else {
                let (c2, r2) = spec_update_fa_balance(c1, state, sender, 0, GAS, true);
                (c2, unit(r2))
            }
        },
        NativeTransaction::FaTransfer { sender, sequence_number, recipient, amount } => {
            let (c1, r1) = spec_update_sequence_number(cache, state, sender, sequence_number);
            if r1 is Err {
                (c1, r1)
            } else if GAS + amount > u64::MAX {
                (c1, Err(RawError::Overflow))
            } else {
                let (c2, r2) = spec_update_fa_balance(
                    c1,
                    state,
                    sender,
                    0,
                    (GAS + amount) as u64,
                    true,
                );
                if r2 is Err {
                    (c2, unit(r2))
                } else {
                    let (c3, r3) = spec_update_fa_balance(c2, state, recipient, amount, 0, false);
                    (c3, unit(r3))
                }
            }
        },
        NativeTransaction::Transfer {
            sender,
            sequence_number,
            recipient,
            amount,
            fail_on_account_existing,
            fail_on_account_missing,
        } => {
            let (c1, r1) = spec_update_sequence_number(cache, state, sender, sequence_number);
            if r1 is Err {
                (c1, r1)
            } else if GAS + amount > u64::MAX {
                (c1, Err(RawError::Overflow))
            } else {
                let (c2, r2) = spec_update_fa_balance(
                    c1,
                    state,
                    sender,
                    0,
                    (GAS + amount) as u64,
                    true,
                );
                if r2 is Err {
                    (c2, unit(r2))
                } else {
                    let (c3, r3) = spec_update_fa_balance(
                        c2,
                        state,
                        recipient,
                        amount,
                        0,
                        fail_on_account_missing,
                    );
                    match r3 {
                        Err(e) => (c3, Err(e)),
                        Ok(true) => (c3, Ok(())),
                        Ok(false) => spec_cache_account(
                            c3,
                            state,
                            recipient,
                            fail_on_account_existing,
                            fail_on_account_missing,
                        ),
                    }
                }
            }
        },
    }
}

/// Whether the step went through.
pub open spec fn unit(r: Result<bool, RawError>) -> Result<(), RawError> {
    match r {
        Ok(_) => Ok(()),
        Err(e) => Err(e),
    }
}

/// Runs transfers on a cache of the accounts and stores that it has read:
/// what it needs it reads from the state once and keeps; its writes stay in
/// the cache.
pub struct NativeValueCacheRawTransactionExecutor {
    db_util: DbAccessUtil,
    cache: dashmap::DashMap<u128, u64>,
}

impl View for NativeValueCacheRawTransactionExecutor {
    type V = State;

    /// What the cache holds.
    closed spec fn view(&self) -> State {
        dash_map_contents(self.cache)
    }
}

impl NativeValueCacheRawTransactionExecutor {
    pub fn new() -> (executor: Self)
        ensures
            executor@ == State::empty(),
    {
        Self { db_util: DbAccessUtil::new(), cache: dash_map_new() }
    }

    /// What the cache holds under `key`.
    pub fn cached(&self, key: StateKey) -> (value: Option<StateValue>)
        ensures
            value == lookup(self@, key),
    {
        dash_map_get(&self.cache, key)
    }

    fn known(&self, state_view: &HashMap<StateKey, StateValue>, key: StateKey) -> (value: Option<
        StateValue,
    >)
        ensures
            value == cached_or_stored(self@, state_view@, key),
    {
        match dash_map_get(&self.cache, key) {
            Some(v) => Some(v),
            None => read(state_view, key),
        }
    }

    /// Sets the sender's sequence number in the cache. The sender must have
    /// an account.
    pub fn update_sequence_number(
        &mut self,
        sender: AccountAddress,
        state_view: &HashMap<StateKey, StateValue>,
        sequence_number: u64,
    ) -> (result: Result<(), RawError>)
        ensures
            (final(self)@, result) == spec_update_sequence_number(
                old(self)@,
                state_view@,
                sender,
                sequence_number,
            ),
    {
        let sender_account_key = self.db_util.new_state_key_account(&sender);
        if self.known(state_view, sender_account_key).is_none() {
            return Err(RawError::SenderMissing);
        }
        dash_map_insert(&mut self.cache, sender_account_key, sequence_number);
        Ok(())
    }

    /// Looks at the account of `sender` and makes it in the cache where it
    /// is missing.
    pub fn check_or_create_account(
        &mut self,
        sender: AccountAddress,
        state_view: &HashMap<StateKey, StateValue>,
        fail_on_existing: bool,
        fail_on_missing: bool,
    ) -> (result: Result<(), RawError>)
        ensures
            (final(self)@, result) == spec_cache_account(
                old(self)@,
                state_view@,
                sender,
                fail_on_existing,
                fail_on_missing,
            ),
    {
        let sender_account_key = self.db_util.new_state_key_account(&sender);
        match self.known(state_view, sender_account_key) {
            Some(account) => {
                if fail_on_existing {
                    return Err(RawError::AccountExists);
                }
                dash_map_insert(&mut self.cache, sender_account_key, account);
            },
            None => {
                if fail_on_missing {
                    return Err(RawError::AccountMissing);
                }
                dash_map_insert(
                    &mut self.cache,
                    sender_account_key,
                    DbAccessUtil::new_account_resource(sender),
                );
            },
        }
        Ok(())
    }

    /// Changes the balance of `sender` in the cache. Returns whether the
    /// store existed in the state and was read from it just now.
    pub fn update_fa_balance(
        &mut self,
        sender: AccountAddress,
        state_view: &HashMap<StateKey, StateValue>,
        increment: u64,
        decrement: u64,
        fail_on_missing: bool,
    ) -> (result: Result<bool, RawError>)
        ensures
            (final(self)@, result) == spec_update_fa_balance(
                old(self)@,
                state_view@,
                sender,
                increment,
                decrement,
                fail_on_missing,
            ),
    {
        let cache_key = self.db_util.new_state_key_object_resource_group(&sender);
        let cached = dash_map_get(&self.cache, cache_key);
        let (current, exists) = match cached {
            Some(b) => (b, false),
            None => match read(state_view, cache_key) {
                Some(b) => (b, true),
                None => {
                    if fail_on_missing {
                        return Err(RawError::AccountMissing);
                    }
                    (0, false)
                },
            },
        };
        let raised = match current.checked_add(increment) {
            Some(r) => r,
            None => {
                return Err(RawError::Overflow);
            },
        };
        if raised < decrement {
            return Err(RawError::InsufficientBalance);
        }
        dash_map_insert(&mut self.cache, cache_key, raised - decrement);
        Ok(exists)
    }

    /// Runs a transaction on the cache. The output is empty: the effects
    /// stay in the cache.
    pub fn execute_transaction(
        &mut self,
        txn: &NativeTransaction,
        state_view: &HashMap<StateKey, StateValue>,
    ) -> (result: Result<TransactionOutput, RawError>)
        ensures
            final(self)@ == spec_cached_execution(old(self)@, state_view@, *txn).0,
            output_of_run(result) == (match spec_cached_execution(old(self)@, state_view@, *txn).1 {
                Ok(_) => Ok::<TransactionOutputView, RawError>(empty_output()),
                Err(e) => Err::<TransactionOutputView, RawError>(e),
            }),
    {
        let gas = GAS;
        match txn {
            NativeTransaction::Nop { sender, sequence_number } => {
                match self.update_sequence_number(*sender, state_view, *sequence_number) {
                    Err(e) => {
                        return Err(e);
                    },
                    Ok(_) => {},
                }
                match self.update_fa_balance(*sender, state_view, 0, gas, true) {
                    Err(e) => {
                        return Err(e);
                    },
                    Ok(_) => {},
                }
            },
            NativeTransaction::FaTransfer { sender, sequence_number, recipient, amount } => {
                match self.update_sequence_number(*sender, state_view, *sequence_number) {
                    Err(e) => {
                        return Err(e);
                    },
                    Ok(_) => {},
                }
                let total = match gas.checked_add(*amount) {
                    Some(t) => t,
                    None => {
                        return Err(RawError::Overflow);
                    },
                };
                match self.update_fa_balance(*sender, state_view, 0, total, true) {
                    Err(e) => {
                        return Err(e);
                    },
                    Ok(_) => {},
                }
                match self.update_fa_balance(*recipient, state_view, *amount, 0, false) {
                    Err(e) => {
                        return Err(e);
                    },
                    Ok(_) => {},
                }
            },
            NativeTransaction::Transfer {
                sender,
                sequence_number,
                recipient,
                amount,
                fail_on_account_existing,
                fail_on_account_missing,
            } => {
                match self.update_sequence_number(*sender, state_view, *sequence_number) {
                    Err(e) => {
                        return Err(e);
                    },
                    Ok(_) => {},
                }
                let total = match gas.checked_add(*amount) {
                    Some(t) => t,
                    None => {
                        return Err(RawError::Overflow);
                    },
                };
                match self.update_fa_balance(*sender, state_view, 0, total, true) {
                    Err(e) => {
                        return Err(e);
                    },
                    Ok(_) => {},
                }
                match self.update_fa_balance(
                    *recipient,
                    state_view,
                    *amount,
                    0,
                    *fail_on_account_missing,
                ) {
                    Err(e) => {
                        return Err(e);
                    },
                    Ok(true) => {},
                    Ok(false) => {
                        match self.check_or_create_account(
                            *recipient,
                            state_view,
                            *fail_on_account_existing,
                            *fail_on_account_missing,
                        ) {
                            Err(e) => {
                                return Err(e);
                            },
                            Ok(_) => {},
                        }
                    },
                }
            },
            NativeTransaction::BatchTransfer { .. } => {
                return Err(RawError::Unsupported);
            },
        }
        Ok(IncrementalOutput::to_abort(TransactionStatus::Keep))
    }
}

} // verus!
