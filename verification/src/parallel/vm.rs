//! One execution of one transaction: what comes before and after the run of the virtual machine.

use crate::evm::env::BlockEnv;
use crate::evm::spec_id::SpecId;
use crate::evm::tx_env::TxEnv;
use crate::parallel::collections::{ReadAccounts, ReadSet};
use crate::parallel::memory::{
    has_flags, hash_deterministic, location_hash, AccountBasic, FinishExecFlags, MemoryLocation,
    MemoryLocationHash, MemoryValue, ReadOrigin, TxIdx, TxVersion, WriteSet, NEED_VALIDATION,
    WROTE_NEW_LOCATION,
};
use crate::parallel::mv_memory::{locations, MvMemory, MvMemoryView};
use crate::parallel::state::{
    carries_code, transitions, PevmTxExecutionResult, RunOutcome, SlotChange, StateAccount,
};
use crate::parallel::storage::{EvmCode, Storage};
use crate::parallel::vm_db::{ReadError, VmDb};
use crate::primitives::{
    clamp, lemma_u256_bounds, lemma_word_of_view, u256_max, word, Address, TxKind, B256, U256,
};
use std::sync::Arc;
use vstd::prelude::*;

verus! {

/// Why a transaction cannot be executed at all.
#[derive(Clone, PartialEq, Eq, Debug)]
pub enum InvalidTransaction {
    /// The sender cannot pay for the gas and the value.
    LackOfFundForMaxFee { fee: U256, balance: U256 },
    /// The nonce lies ahead of the sender's.
    NonceTooHigh { tx: u64, state: u64 },
    /// Any other reason, with its message.
    Other(String),
}

/// Error of a run of the virtual machine.
#[derive(Clone, PartialEq, Eq, Debug)]
pub enum ExecutionError {
    Transaction(InvalidTransaction),
    Header(String),
    Database(ReadError),
    Custom(String),
}

/// What an execution that did not finish asks for.
#[derive(Clone, PartialEq, Eq, Debug)]
pub enum VmExecutionError {
    /// Execute again: what was read has changed on the way.
    Retry,
    /// Give up parallel execution of this block.
    FallbackToSequential,
    /// Execute again once this transaction has executed.
    Blocking(TxIdx),
    /// Give up the block.
    ExecutionError(ExecutionError),
}

/// What a failed read asks for.
pub open spec fn on_read_error(e: ReadError) -> VmExecutionError {
    match e {
        ReadError::InconsistentRead => VmExecutionError::Retry,
        ReadError::SelfDestructedAccount => VmExecutionError::FallbackToSequential,
        ReadError::Blocking(tx_idx) => VmExecutionError::Blocking(tx_idx),
        _ => VmExecutionError::ExecutionError(ExecutionError::Database(e)),
    }
}

impl vstd::std_specs::convert::FromSpecImpl<ReadError> for VmExecutionError {
    open spec fn obeys_from_spec() -> bool {
        true
    }

    open spec fn from_spec(e: ReadError) -> VmExecutionError {
        on_read_error(e)
    }
}

impl From<ReadError> for VmExecutionError {
    fn from(e: ReadError) -> (r: Self) {
        match e {
            ReadError::InconsistentRead => VmExecutionError::Retry,
            ReadError::SelfDestructedAccount => VmExecutionError::FallbackToSequential,
            ReadError::Blocking(tx_idx) => VmExecutionError::Blocking(tx_idx),
            e => VmExecutionError::ExecutionError(ExecutionError::Database(e)),
        }
    }
}

/// What a failed run asks for. A sender without the funds, or with a nonce too low, may get them
/// from the transaction before, if there is one.
pub open spec fn on_run_error(e: ExecutionError, tx_idx: TxIdx) -> VmExecutionError {
    match e {
        ExecutionError::Database(e) => on_read_error(e),
        ExecutionError::Transaction(InvalidTransaction::LackOfFundForMaxFee { .. })
        | ExecutionError::Transaction(InvalidTransaction::NonceTooHigh { .. }) => if tx_idx > 0 {
            VmExecutionError::Blocking((tx_idx - 1) as usize)
        } else {
            VmExecutionError::ExecutionError(e)
        },
        _ => VmExecutionError::ExecutionError(e),
    }
}

pub fn classify_run_error(e: ExecutionError, tx_idx: TxIdx) -> (r: VmExecutionError)
    ensures
        r == on_run_error(e, tx_idx),
{
    let waits = match &e {
        ExecutionError::Transaction(InvalidTransaction::LackOfFundForMaxFee { .. }) => true,
        ExecutionError::Transaction(InvalidTransaction::NonceTooHigh { .. }) => true,
        _ => false,
    };
    if waits && tx_idx > 0 {
        return VmExecutionError::Blocking(tx_idx - 1);
    }
    match e {
        ExecutionError::Database(e) => VmExecutionError::from(e),
        e => VmExecutionError::ExecutionError(e),
    }
}

/// A finished execution.
pub struct VmExecutionResult {
    pub execution_result: PevmTxExecutionResult,
    pub flags: FinishExecFlags,
}

/// What the writes of a transaction depend on besides the accounts that it leaves.
#[derive(Clone, Copy, PartialEq, Eq, Structural, Debug)]
pub struct TxContext {
    pub from_hash: MemoryLocationHash,
    pub to_hash: Option<MemoryLocationHash>,
    pub is_lazy: bool,
    pub value: U256,
    pub eip_161_enabled: bool,
}

/// The writes to the slots that have changed.
pub open spec fn slot_writes(address: Address, slots: Seq<SlotChange>) -> Seq<
    (MemoryLocationHash, MemoryValue),
>
    decreases slots.len(),
{
    if slots.len() == 0 {
        Seq::empty()
    } else {
        let rest = slot_writes(address, slots.drop_last());
        let slot = slots.last();
        if slot.original != slot.present {
            rest.push(
                (
                    location_hash(MemoryLocation::Storage(address, slot.slot)),
                    MemoryValue::Storage(slot.present),
                ),
            )
        } else {
            rest
        }
    }
}

/// The accounts that an execution has read.
pub type AccountsRead = Map<MemoryLocationHash, (AccountBasic, Option<B256>)>;

impl StateAccount {
    pub open spec fn basic_location(self) -> MemoryLocationHash {
        location_hash(MemoryLocation::Basic(self.address))
    }

    /// Whether the account got its code in this execution.
    pub open spec fn is_new_code(self, read: AccountsRead) -> bool {
        self.info.has_code() && (!read.contains_key(self.basic_location()) || read[
            self.basic_location()
        ].1 is None)
    }

    /// Whether balance, nonce or code differ from what was read; also where nothing was read.
    pub open spec fn is_changed(self, read: AccountsRead) -> bool {
        let location = self.basic_location();
        ||| self.is_new_code(read)
        ||| !read.contains_key(location)
        ||| read[location].0.nonce != self.info.nonce
        ||| read[location].0.balance != self.info.balance
    }

    /// The write to the account itself. The sender of a lazy transaction spends what it no longer
    /// has of all there is, the recipient gets the value, and nobody else is written. Empty accounts
    /// are not written where they are cleared.
    pub open spec fn basic_writes(self, read: AccountsRead, ctx: TxContext) -> Seq<
        (MemoryLocationHash, MemoryValue),
    > {
        let location = self.basic_location();
        if !self.is_changed(read) {
            Seq::empty()
        } else if ctx.is_lazy {
            if location == ctx.from_hash {
                seq![(location, MemoryValue::LazySender(word(u256_max() - self.info.balance@)))]
            } else if Some(location) == ctx.to_hash {
                seq![(location, MemoryValue::LazyRecipient(ctx.value))]
            } else {
                Seq::empty()
            }
        } else if !ctx.eip_161_enabled || !self.info.is_empty_spec() {
            seq![
                (
                    location,
                    MemoryValue::Basic(
                        AccountBasic { balance: self.info.balance, nonce: self.info.nonce },
                    ),
                ),
            ]
        } else {
            Seq::empty()
        }
    }

    /// The write of new code.
    pub open spec fn code_writes(self, read: AccountsRead) -> Seq<
        (MemoryLocationHash, MemoryValue),
    > {
        if self.is_new_code(read) {
            seq![
                (
                    location_hash(MemoryLocation::CodeHash(self.address)),
                    MemoryValue::CodeHash(self.info.code_hash),
                ),
            ]
        } else {
            Seq::empty()
        }
    }

    /// All writes of the account. Of a destroyed account only that is written.
    pub open spec fn writes(self, read: AccountsRead, ctx: TxContext) -> Seq<
        (MemoryLocationHash, MemoryValue),
    > {
        if self.selfdestructed {
            seq![
                (
                    location_hash(MemoryLocation::CodeHash(self.address)),
                    MemoryValue::SelfDestructed,
                ),
            ]
        } else if self.touched {
            self.basic_writes(read, ctx) + self.code_writes(read) + slot_writes(
                self.address,
                self.storage@,
            )
        } else {
            slot_writes(self.address, self.storage@)
        }
    }

    /// Whether the account deploys code.
    pub open spec fn deploys(self, read: AccountsRead) -> bool {
        !self.selfdestructed && self.touched && self.is_new_code(read)
    }
}

/// The writes of all accounts, in their order.
pub open spec fn state_writes(state: Seq<StateAccount>, read: AccountsRead, ctx: TxContext) -> Seq<
    (MemoryLocationHash, MemoryValue),
>
    decreases state.len(),
{
    if state.len() == 0 {
        Seq::empty()
    } else {
        state_writes(state.drop_last(), read, ctx) + state.last().writes(read, ctx)
    }
}

/// The code of the block after all accounts have deployed theirs. The first under a hash stays.
pub open spec fn codes_after(
    codes: Map<B256, Arc<EvmCode>>,
    state: Seq<StateAccount>,
    read: AccountsRead,
) -> Map<B256, Arc<EvmCode>>
    decreases state.len(),
{
    if state.len() == 0 {
        codes
    } else {
        let rest = codes_after(codes, state.drop_last(), read);
        let account = state.last();
        if account.deploys(read) && !rest.contains_key(account.info.code_hash) {
            rest.insert(account.info.code_hash, account.info.code->0)
        } else {
            rest
        }
    }
}

/// Adds the writes to the slots that have changed.
fn push_slot_writes(write_set: &mut WriteSet, address: Address, slots: &Vec<SlotChange>)
    ensures
        final(write_set)@ == old(write_set)@ + slot_writes(address, slots@),
{
    let ghost before = write_set@;
    let mut i: usize = 0;
    assert(slots@.take(0) =~= Seq::empty());
    assert(before + slot_writes(address, slots@.take(0)) =~= before);
    while i < slots.len()
        invariant
            i <= slots@.len(),
            write_set@ == before + slot_writes(address, slots@.take(i as int)),
        decreases slots@.len() - i,
    {
        let slot = slots[i];
        assert(slots@.take(i + 1).drop_last() =~= slots@.take(i as int));
        if slot.original != slot.present {
            let location = hash_deterministic(MemoryLocation::Storage(address, slot.slot));
            write_set.push((location, MemoryValue::Storage(slot.present)));
        }
        assert(write_set@ =~= before + slot_writes(address, slots@.take(i + 1)));
        i = i + 1;
    }
    assert(slots@.take(i as int) =~= slots@);
}

/// Adds the writes of an account, and keeps the code that it deploys.
fn push_account_writes(
    write_set: &mut WriteSet,
    mv_memory: &mut MvMemory,
    account: &StateAccount,
    read_accounts: &ReadAccounts,
    ctx: TxContext,
)
    requires
        old(mv_memory).wf(),
        account.deploys(read_accounts@) ==> account.info.code is Some,
    ensures
        final(mv_memory).wf(),
        final(write_set)@ == old(write_set)@ + account.writes(read_accounts@, ctx),
        final(mv_memory)@ == (MvMemoryView {
            codes: codes_after(old(mv_memory)@.codes, seq![*account], read_accounts@),
            ..old(mv_memory)@
        }),
{
    let ghost before = write_set@;
    let ghost codes = mv_memory@.codes;
    proof {
        assert(seq![*account].drop_last() =~= Seq::empty());
        reveal_with_fuel(codes_after, 2);
    }
    if account.selfdestructed {
        let location = hash_deterministic(MemoryLocation::CodeHash(account.address));
        write_set.push((location, MemoryValue::SelfDestructed));
        assert(write_set@ =~= before + account.writes(read_accounts@, ctx));
        return ;
    }
    if account.touched {
        let location = hash_deterministic(MemoryLocation::Basic(account.address));
        let read = read_accounts.get(location);
        let has_code = !account.info.is_empty_code_hash();
        let (is_new_code, is_changed) = match read {
            None => (has_code, true),
            Some((basic, code_hash)) => (
                has_code && code_hash.is_none(),
                (has_code && code_hash.is_none()) || basic.nonce != account.info.nonce
                    || basic.balance != account.info.balance,
            ),
        };
        if is_changed {
            if ctx.is_lazy {
                let is_recipient = match ctx.to_hash {
                    Some(to_hash) => to_hash == location,
                    None => false,
                };
                if location == ctx.from_hash {
                    let spent = U256::max_value().abs_diff(account.info.balance);
                    proof {
                        lemma_u256_bounds(account.info.balance);
                        lemma_word_of_view(spent);
                    }
                    write_set.push((location, MemoryValue::LazySender(spent)));
                } else if is_recipient {
                    write_set.push((location, MemoryValue::LazyRecipient(ctx.value)));
                }
            } else if !ctx.eip_161_enabled || !account.info.is_empty() {
                let basic = AccountBasic {
                    balance: account.info.balance,
                    nonce: account.info.nonce,
                };
                write_set.push((location, MemoryValue::Basic(basic)));
            }
        }
        assert(write_set@ =~= before + account.basic_writes(read_accounts@, ctx));
        if is_new_code {
            let code_location = hash_deterministic(MemoryLocation::CodeHash(account.address));
            write_set.push((code_location, MemoryValue::CodeHash(account.info.code_hash)));
            if let Some(code) = &account.info.code {
                mv_memory.deploy_code(account.info.code_hash, code.clone());
            }
        }
        assert(write_set@ =~= before + (account.basic_writes(read_accounts@, ctx)
            + account.code_writes(read_accounts@)));
    }
    let ghost middle = write_set@;
    push_slot_writes(write_set, account.address, &account.storage);
    assert(write_set@ =~= before + account.writes(read_accounts@, ctx));
}

/// What a unit of gas earns the beneficiary: the price that the transaction pays, less the base fee
/// where that is burnt.
pub open spec fn reward_price(tx: TxEnv, basefee: u64, eip_1559_enabled: bool) -> int {
    let paid = match tx.gas_priority_fee {
        Some(fee) => clamp(clamp(fee + basefee, 0, u128::MAX as int), 0, tx.gas_price as int),
        None => tx.gas_price as int,
    };
    if eip_1559_enabled {
        clamp(paid - basefee, 0, u128::MAX as int)
    } else {
        paid
    }
}

/// The reward of the beneficiary for a transaction.
pub open spec fn reward(tx: TxEnv, basefee: u64, eip_1559_enabled: bool, gas_used: u64) -> int {
    clamp(reward_price(tx, basefee, eip_1559_enabled) * gas_used, 0, u256_max())
}

/// Whether the first write to a location is the `i`-th.
pub open spec fn is_first_write(
    ws: Seq<(MemoryLocationHash, MemoryValue)>,
    location: MemoryLocationHash,
    i: int,
) -> bool {
    &&& 0 <= i < ws.len()
    &&& ws[i].0 == location
    &&& forall|j: int| 0 <= j < i ==> (#[trigger] ws[j]).0 != location
}

/// A value with the reward added: to a balance, or against what is spent. None for a value without
/// a balance.
pub open spec fn value_with_reward(value: MemoryValue, reward: int) -> Option<MemoryValue> {
    match value {
        MemoryValue::Basic(b) => Some(
            MemoryValue::Basic(
                AccountBasic { balance: word(clamp(b.balance@ + reward, 0, u256_max())), ..b },
            ),
        ),
        MemoryValue::LazySender(sub) => Some(
            MemoryValue::LazySender(word(clamp(sub@ - reward, 0, u256_max()))),
        ),
        MemoryValue::LazyRecipient(add) => Some(
            MemoryValue::LazyRecipient(word(clamp(add@ + reward, 0, u256_max()))),
        ),
        _ => None,
    }
}

/// The write set with the reward of the beneficiary: added to its first write, or written lazily
/// where it has none. None where it was written without a balance.
pub open spec fn rewarded(
    ws: Seq<(MemoryLocationHash, MemoryValue)>,
    location: MemoryLocationHash,
    reward: int,
) -> Option<Seq<(MemoryLocationHash, MemoryValue)>> {
    if locations(ws).contains(location) {
        let i = choose|i: int| is_first_write(ws, location, i);
        match value_with_reward(ws[i].1, reward) {
            Some(value) => Some(ws.update(i, (location, value))),
            None => None,
        }
    } else {
        Some(ws.push((location, MemoryValue::LazyRecipient(word(reward)))))
    }
}

/// The rules and the block that transactions execute under.
pub struct Vm {
    pub block_env: BlockEnv,
    pub spec_id: SpecId,
    pub beneficiary_location_hash: MemoryLocationHash,
    pub chain_id: u64,
    pub eip_161_enabled: bool,
    pub eip_1559_enabled: bool,
}

impl Vm {
    /// Whether the location of the beneficiary is that of its address.
    pub open spec fn wf(self) -> bool {
        self.beneficiary_location_hash == location_hash(
            MemoryLocation::Basic(self.block_env.beneficiary),
        )
    }

    /// The addresses that are settled at the end of the block because of a transaction: the
    /// beneficiary, and both sides of a lazy transfer.
    pub open spec fn settled_addresses(self, tx: TxEnv, is_lazy: bool) -> Set<Address> {
        if is_lazy {
            set![self.block_env.beneficiary, tx.caller, tx.kind.target()->0]
        } else {
            set![self.block_env.beneficiary]
        }
    }

    /// The memory after a run that ended with the given accounts, before the version is recorded:
    /// the code that they deploy, and the addresses that are to be settled.
    pub open spec fn prepared(
        self,
        memory: MvMemoryView,
        addresses: Set<Address>,
        read: AccountsRead,
        state: Seq<StateAccount>,
    ) -> MvMemoryView {
        MvMemoryView {
            codes: codes_after(memory.codes, state, read),
            lazy: memory.lazy.union(addresses),
            ..memory
        }
    }

    /// What the writes of a transaction depend on besides the accounts that it leaves.
    pub open spec fn context_of(self, tx: TxEnv, is_lazy: bool) -> TxContext {
        TxContext {
            from_hash: location_hash(MemoryLocation::Basic(tx.caller)),
            to_hash: match tx.kind {
                TxKind::Call(to) => Some(location_hash(MemoryLocation::Basic(to))),
                TxKind::Create => None,
            },
            is_lazy,
            value: tx.value,
            eip_161_enabled: self.eip_161_enabled,
        }
    }

    /// The write set of a run that ended with the given accounts. None where the beneficiary was
    /// written without a balance.
    pub open spec fn write_set(
        self,
        tx: TxEnv,
        is_lazy: bool,
        read: AccountsRead,
        state: Seq<StateAccount>,
        gas_used: u64,
    ) -> Option<Seq<(MemoryLocationHash, MemoryValue)>> {
        rewarded(
            state_writes(state, read, self.context_of(tx, is_lazy)),
            self.beneficiary_location_hash,
            reward(tx, self.block_env.basefee, self.eip_1559_enabled, gas_used),
        )
    }

    /// Whether an execution that ran to the given outcome leaves the memory and gives the result:
    /// what it has read and written is recorded, unless the beneficiary was written without a
    /// balance.
    pub open spec fn ended(
        self,
        before: MvMemoryView,
        tx_version: TxVersion,
        tx: TxEnv,
        is_lazy: bool,
        read: AccountsRead,
        reads: Map<MemoryLocationHash, Seq<ReadOrigin>>,
        outcome: RunOutcome,
        after: MvMemoryView,
        r: Result<VmExecutionResult, VmExecutionError>,
    ) -> bool {
        let state = outcome.accounts();
        let result = outcome.result();
        match self.write_set(tx, is_lazy, read, state, result.gas_used) {
            None => {
                &&& r == Err::<VmExecutionResult, _>(
                    on_read_error(ReadError::InvalidMemoryValueType),
                )
                &&& after == self.prepared(before, Set::empty(), read, state)
            },
            Some(ws) => {
                &&& after == self.prepared(
                    before,
                    self.settled_addresses(tx, is_lazy),
                    read,
                    state,
                ).recorded(tx_version, reads, ws)
                &&& r matches Ok(finished) && {
                    &&& finished.flags.bits <= NEED_VALIDATION | WROTE_NEW_LOCATION
                    &&& has_flags(finished.flags, NEED_VALIDATION) <==> tx_version.tx_idx > 0
                        && !is_lazy
                    &&& has_flags(finished.flags, WROTE_NEW_LOCATION) <==> !locations(
                        ws,
                    ).subset_of(before.writes[tx_version.tx_idx as int])
                    &&& finished.execution_result.receipt.status == result.success
                    &&& finished.execution_result.receipt.cumulative_gas_used == result.gas_used
                    &&& finished.execution_result.receipt.logs == result.logs
                    &&& finished.execution_result.state@ == transitions(
                        state,
                        self.eip_161_enabled,
                    )
                }
            },
        }
    }

    pub fn new(block_env: BlockEnv, spec_id: SpecId, chain_id: u64) -> (r: Self)
        ensures
            r.block_env == block_env,
            r.spec_id == spec_id,
            r.chain_id == chain_id,
            r.wf(),
            r.eip_161_enabled == spec_id.enables(SpecId::SpuriousDragon),
            r.eip_1559_enabled == spec_id.enables(SpecId::London),
    {
        let beneficiary_location_hash = hash_deterministic(
            MemoryLocation::Basic(block_env.beneficiary),
        );
        Vm {
            block_env,
            spec_id,
            beneficiary_location_hash,
            chain_id,
            eip_161_enabled: spec_id.is_enabled_in(SpecId::SpuriousDragon),
            eip_1559_enabled: spec_id.is_enabled_in(SpecId::London),
        }
    }

    /// The hashes of the sender's location and of that of the called address.
    fn context(&self, tx: &TxEnv, is_lazy: bool) -> (r: TxContext)
        ensures
            r == self.context_of(*tx, is_lazy),
    {
        let to_hash = match tx.kind {
            TxKind::Call(to) => Some(hash_deterministic(MemoryLocation::Basic(to))),
            TxKind::Create => None,
        };
        TxContext {
            from_hash: hash_deterministic(MemoryLocation::Basic(tx.caller)),
            to_hash,
            is_lazy,
            value: tx.value,
            eip_161_enabled: self.eip_161_enabled,
        }
    }

    /// Opens the database that a run of the transaction reads from.
    pub fn open<'a, S: Storage>(
        &self,
        mv_memory: &'a MvMemory,
        storage: &'a S,
        tx_idx: TxIdx,
        tx: &TxEnv,
    ) -> (r: Result<VmDb<'a, S>, VmExecutionError>)
        requires
            mv_memory.wf(),
        ensures
            exists|opened: Result<VmDb<'a, S>, ReadError>| #[trigger]
                VmDb::<'a, S>::started(
                    mv_memory,
                    storage,
                    tx_idx,
                    *tx,
                    self.context_of(*tx, false).from_hash,
                    self.context_of(*tx, false).to_hash,
                    opened,
                ) && match opened {
                    Ok(db) => r == Ok::<_, VmExecutionError>(db),
                    Err(e) => r == Err::<VmDb<'a, S>, _>(on_read_error(e)),
                },
            r matches Ok(db) ==> db.wf() && db.is_set_up(
                mv_memory,
                storage,
                tx_idx,
                *tx,
                self.context_of(*tx, false).from_hash,
                self.context_of(*tx, false).to_hash,
            ),
    {
        let ctx = self.context(tx, false);
        match VmDb::new(mv_memory, storage, tx_idx, tx, ctx.from_hash, ctx.to_hash) {
            Ok(db) => Ok(db),
            Err(e) => Err(VmExecutionError::from(e)),
        }
    }

    /// Adds the reward of the beneficiary to a write set.
    pub fn apply_rewards(&self, write_set: &mut WriteSet, tx: &TxEnv, gas_used: u64) -> (r: Result<
        (),
        VmExecutionError,
    >)
        ensures
            match rewarded(
                old(write_set)@,
                self.beneficiary_location_hash,
                reward(*tx, self.block_env.basefee, self.eip_1559_enabled, gas_used),
            ) {
                Some(ws) => r == Ok::<(), VmExecutionError>(()) && final(write_set)@ == ws,
                None => r == Err::<(), _>(on_read_error(ReadError::InvalidMemoryValueType))
                    && final(write_set)@ == old(write_set)@,
            },
    {
        let basefee = self.block_env.basefee as u128;
        let mut gas_price: u128 = match tx.gas_priority_fee {
            Some(fee) => {
                let price = fee.saturating_add(basefee);
                if price < tx.gas_price {
                    price
                } else {
                    tx.gas_price
                }
            },
            None => tx.gas_price,
        };
        if self.eip_1559_enabled {
            gas_price = gas_price.saturating_sub(basefee);
        }
        let earned = U256::from_u128(gas_price).saturating_mul(U256::from_u64(gas_used));
        let location = self.beneficiary_location_hash;
        let ghost ws = write_set@;
        proof {
            lemma_word_of_view(earned);
        }
        let mut i: usize = 0;
        while i < write_set.len()
            invariant
                i <= write_set@.len(),
                write_set@ == ws,
                ws == old(write_set)@,
                forall|j: int| 0 <= j < i ==> (#[trigger] ws[j]).0 != location,
                word(earned@) == earned,
                earned@ == reward(*tx, self.block_env.basefee, self.eip_1559_enabled, gas_used),
                location == self.beneficiary_location_hash,
            decreases write_set@.len() - i,
        {
            if write_set[i].0 == location {
                proof {
                    assert(ws[i as int].0 == location);
                    assert(is_first_write(ws, location, i as int));
                    let k = choose|k: int| is_first_write(ws, location, k);
                    assert(k == i) by {
                        if k < i {
                            assert(ws[k].0 != location);
                        }
                        if i < k {
                            assert(ws[i as int].0 != location);
                        }
                    }
                    lemma_u256_bounds(earned);
                }
                let value = match write_set[i].1 {
                    MemoryValue::Basic(b) => {
                        let balance = b.balance.saturating_add(earned);
                        proof {
                            lemma_word_of_view(balance);
                        }
                        MemoryValue::Basic(AccountBasic { balance, nonce: b.nonce })
                    },
                    MemoryValue::LazySender(sub) => {
                        let sub = sub.saturating_sub(earned);
                        proof {
                            lemma_word_of_view(sub);
                        }
                        MemoryValue::LazySender(sub)
                    },
                    MemoryValue::LazyRecipient(add) => {
                        let add = add.saturating_add(earned);
                        proof {
                            lemma_word_of_view(add);
                        }
                        MemoryValue::LazyRecipient(add)
                    },
                    _ => {
                        return Err(VmExecutionError::from(ReadError::InvalidMemoryValueType));
                    },
                };
                write_set.set(i, (location, value));
                return Ok(());
            }
            i = i + 1;
        }
        write_set.push((location, MemoryValue::LazyRecipient(earned)));
        Ok(())
    }

    /// Ends an execution: leaves what the run has read and written in the memory, and makes the
    /// result.
    pub fn finish(
        &self,
        mv_memory: &mut MvMemory,
        tx_version: &TxVersion,
        tx: &TxEnv,
        is_lazy: bool,
        read_accounts: &ReadAccounts,
        read_set: ReadSet,
        outcome: RunOutcome,
    ) -> (r: Result<VmExecutionResult, VmExecutionError>)
        requires
            old(mv_memory).wf(),
            tx_version.tx_idx < old(mv_memory)@.writes.len(),
            is_lazy ==> tx.kind is Call,
        ensures
            final(mv_memory).wf(),
            self.ended(
                old(mv_memory)@,
                *tx_version,
                *tx,
                is_lazy,
                read_accounts@,
                read_set@,
                outcome,
                final(mv_memory)@,
                r,
            ),
    {
        let (result, state) = outcome.into_parts();
        let ctx = self.context(tx, is_lazy);
        let ghost memory = mv_memory@;
        let ghost read = read_accounts@;
        let mut write_set: WriteSet = Vec::new();
        let mut i: usize = 0;
        proof {
            assert(state@.take(0) =~= Seq::empty());
            assert(write_set@ =~= state_writes(state@.take(0), read, ctx));
            assert(memory =~= (MvMemoryView {
                codes: codes_after(memory.codes, state@.take(0), read),
                ..memory
            }));
        }
        while i < state.len()
            invariant
                i <= state@.len(),
                mv_memory.wf(),
                read == read_accounts@,
                carries_code(state@),
                write_set@ == state_writes(state@.take(i as int), read, ctx),
                mv_memory@ == (MvMemoryView {
                    codes: codes_after(memory.codes, state@.take(i as int), read),
                    ..memory
                }),
            decreases state@.len() - i,
        {
            let ghost codes = mv_memory@.codes;
            push_account_writes(&mut write_set, mv_memory, &state[i], read_accounts, ctx);
            proof {
                assert(state@.take(i + 1).drop_last() =~= state@.take(i as int));
                assert(seq![state@[i as int]].drop_last() =~= Seq::empty());
                reveal_with_fuel(codes_after, 2);
            }
            i = i + 1;
        }
        assert(state@.take(i as int) =~= state@);
        match self.apply_rewards(&mut write_set, tx, result.gas_used) {
            Ok(_) => {},
            Err(e) => {
                assert(memory.lazy.union(Set::empty()) =~= memory.lazy);
                return Err(e);
            },
        }
        let mut addresses = Vec::new();
        addresses.push(self.block_env.beneficiary);
        assert(addresses@[0] == self.block_env.beneficiary);
        assert(addresses@.to_set() =~= set![self.block_env.beneficiary]);
        if is_lazy {
            if let TxKind::Call(to) = tx.kind {
                addresses.push(tx.caller);
                addresses.push(to);
                proof {
                    assert(addresses@[0] == self.block_env.beneficiary);
                    assert(addresses@[1] == tx.caller && addresses@[2] == to);
                    assert(addresses@.to_set() =~= set![
                        self.block_env.beneficiary,
                        tx.caller,
                        to,
                    ]);
                }
            }
        }
        mv_memory.add_lazy_addresses(addresses);
        let mut flags = if tx_version.tx_idx > 0 && !is_lazy {
            FinishExecFlags::need_validation()
        } else {
            FinishExecFlags::empty()
        };
        assert(0u8 & 1u8 != 1u8 && 0u8 & 2u8 != 2u8 && 1u8 & 1u8 == 1u8 && 1u8 & 2u8 != 2u8 && 0u8
            | 2u8 == 2u8 && 2u8 & 1u8 != 1u8 && 2u8 & 2u8 == 2u8 && 1u8 | 2u8 == 3u8 && 3u8 & 1u8
            == 1u8 && 3u8 & 2u8 == 2u8) by (bit_vector);
        if mv_memory.record(tx_version, read_set, write_set) {
            flags = flags.with_new_location();
        }
        let execution_result = PevmTxExecutionResult::from_revm(
            result,
            &state,
            self.eip_161_enabled,
        );
        Ok(VmExecutionResult { execution_result, flags })
    }

    /// Executes a version of a transaction: opens its database, runs it, and leaves what it has read
    /// and written in the memory.
    pub fn execute<S: Storage, M: TransactionRunner<S>>(
        &self,
        mv_memory: &mut MvMemory,
        storage: &S,
        tx_version: &TxVersion,
        tx: &TxEnv,
        runner: &mut M,
    ) -> (r: Result<VmExecutionResult, VmExecutionError>)
        requires
            old(mv_memory).wf(),
            tx_version.tx_idx < old(mv_memory)@.writes.len(),
        ensures
            final(mv_memory).wf(),
            exists|opened: Result<VmDb<S>, ReadError>|
                {
                    &&& #[trigger] VmDb::<S>::started(
                        &*old(mv_memory),
                        storage,
                        tx_version.tx_idx,
                        *tx,
                        self.context_of(*tx, false).from_hash,
                        self.context_of(*tx, false).to_hash,
                        opened,
                    )
                    &&& match opened {
                        Err(e) => {
                            &&& r == Err::<VmExecutionResult, _>(on_read_error(e))
                            &&& final(mv_memory)@ == old(mv_memory)@
                            &&& *final(runner) == *old(runner)
                        },
                        Ok(db) => exists|
                            m: &mut M,
                            d: &mut VmDb<S>,
                            ran: Result<RunOutcome, ExecutionError>,
                        |
                            {
                                &&& *m == *old(runner)
                                &&& *d == db
                                &&& #[trigger] call_ensures(M::run, (m, d, tx), ran)
                                &&& *final(runner) == *final(m)
                                &&& match ran {
                                    Err(e) => {
                                        &&& r == Err::<VmExecutionResult, _>(
                                            on_run_error(e, tx_version.tx_idx),
                                        )
                                        &&& final(mv_memory)@ == old(mv_memory)@
                                    },
                                    Ok(outcome) => self.ended(
                                        old(mv_memory)@,
                                        *tx_version,
                                        *tx,
                                        db.is_lazy,
                                        final(d).read_accounts@,
                                        final(d).read_set@,
                                        outcome,
                                        final(mv_memory)@,
                                        r,
                                    ),
                                }
                            },
                    }
                },
    {
        let (is_lazy, read_accounts, read_set, outcome) = {
            let mut db = match self.open(&*mv_memory, storage, tx_version.tx_idx, tx) {
                Ok(db) => db,
                Err(e) => {
                    return Err(e);
                },
            };
            let is_lazy: bool = db.is_lazy;
            let outcome = match runner.run(&mut db, tx) {
                Ok(outcome) => outcome,
                Err(e) => {
                    return Err(classify_run_error(e, tx_version.tx_idx));
                },
            };
            (is_lazy, db.read_accounts, db.read_set, outcome)
        };
        self.finish(mv_memory, tx_version, tx, is_lazy, &read_accounts, read_set, outcome)
    }
}

/// Runs transactions on the virtual machine.
pub trait TransactionRunner<S: Storage>: Sized {
    /// Runs a transaction on its database, without the reward of the beneficiary.
    fn run(&mut self, db: &mut VmDb<S>, tx: &TxEnv) -> Result<RunOutcome, ExecutionError>;
}

} // verus!
