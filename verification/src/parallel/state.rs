//! The state that an execution leaves behind, and the result that is made of it.

use crate::parallel::collections::BuildSuffixHasher;
use crate::parallel::execution_laws::slots_once;
use crate::parallel::result_laws::law_every_slot_is_held;
use crate::parallel::storage::{AccountInfo, EvmCode};
use crate::primitives::{Address, B256, U256};
use std::sync::Arc;
use vstd::prelude::*;

verus! {

/// A storage slot that an execution has loaded, with its value before and after.
#[derive(Clone, Copy, PartialEq, Eq, Structural, Debug)]
pub struct SlotChange {
    pub slot: U256,
    pub original: U256,
    pub present: U256,
}

/// An account that an execution has loaded.
#[derive(Clone, Debug)]
pub struct StateAccount {
    pub address: Address,
    pub info: AccountInfo,
    pub touched: bool,
    pub selfdestructed: bool,
    pub storage: Vec<SlotChange>,
}

/// An event that a contract has emitted.
#[derive(Clone, PartialEq, Eq, Debug)]
pub struct Log {
    pub address: Address,
    pub topics: Vec<B256>,
    pub data: Vec<u8>,
}

/// How the execution of a transaction ended.
#[derive(Clone, PartialEq, Eq, Debug)]
pub struct ExecutionResult {
    pub success: bool,
    pub gas_used: u64,
    pub logs: Vec<Log>,
    /// What was returned.
    pub output: Vec<u8>,
}

/// Whether a transaction succeeded, the gas used up to it, and its events.
#[derive(Clone, PartialEq, Eq, Debug)]
pub struct Receipt {
    pub status: bool,
    pub cumulative_gas_used: u64,
    pub logs: Vec<Log>,
}

/// The values of the storage slots of an account.
#[verifier::external_body]
pub struct SlotMap {
    inner: hashbrown::HashMap<(u64, u64, u64, u64), U256, rustc_hash::FxBuildHasher>,
}

/// What a `SlotMap` holds.
pub uninterp spec fn slot_contents(slots: SlotMap) -> Map<U256, U256>;

impl View for SlotMap {
    type V = Map<U256, U256>;

    open spec fn view(&self) -> Map<U256, U256> {
        slot_contents(*self)
    }
}

impl SlotMap {
    /// `hashbrown::HashMap::default`: a map that holds nothing.
    #[verifier::external_body]
    pub(crate) fn new() -> (r: Self)
        ensures
            slot_contents(r).dom() == Set::<U256>::empty(),
    {
        SlotMap { inner: hashbrown::HashMap::default() }
    }

    /// `hashbrown::HashMap::insert`: the value becomes that of the slot.
    #[verifier::external_body]
    pub(crate) fn insert(&mut self, slot: U256, value: U256)
        ensures
            slot_contents(*final(self)) == slot_contents(*old(self)).insert(slot, value),
    {
        self.inner.insert((slot.l0, slot.l1, slot.l2, slot.l3), value);
    }

    /// `hashbrown::HashMap::iter`: every slot with its value, once each. In which order they come
    /// is not stated.
    #[verifier::external_body]
    pub(crate) fn entries(&self) -> (r: Vec<(U256, U256)>)
        ensures
            forall|i: int|
                0 <= i < r@.len() ==> slot_contents(*self).contains_key(#[trigger] r@[i].0)
                    && slot_contents(*self)[r@[i].0] == r@[i].1,
            forall|k: U256| #[trigger]
                slot_contents(*self).contains_key(k) ==> exists|i: int|
                    0 <= i < r@.len() && #[trigger] r@[i].0 == k,
            forall|i: int, j: int|
                0 <= i < j < r@.len() ==> #[trigger] r@[i].0 != #[trigger] r@[j].0,
    {
        let word = |k: &(u64, u64, u64, u64)| U256 { l0: k.0, l1: k.1, l2: k.2, l3: k.3 };
        self.inner.iter().map(|pair| (word(pair.0), *pair.1)).collect()
    }
}

/// An account after the execution of a transaction.
pub struct EvmAccount {
    pub balance: U256,
    pub nonce: u64,
    pub code_hash: Option<B256>,
    pub code: Option<Arc<EvmCode>>,
    pub storage: SlotMap,
}

/// The abstract value of an `EvmAccount`.
#[verifier::ext_equal]
pub struct EvmAccountView {
    pub balance: U256,
    pub nonce: u64,
    pub code_hash: Option<B256>,
    pub code: Option<Arc<EvmCode>>,
    pub storage: Map<U256, U256>,
}

impl View for EvmAccount {
    type V = EvmAccountView;

    open spec fn view(&self) -> EvmAccountView {
        EvmAccountView {
            balance: self.balance,
            nonce: self.nonce,
            code_hash: self.code_hash,
            code: self.code,
            storage: self.storage@,
        }
    }
}

/// The abstract value of an account that may be gone.
pub open spec fn transition(account: Option<EvmAccount>) -> Option<EvmAccountView> {
    match account {
        Some(a) => Some(a@),
        None => None,
    }
}

/// The accounts that a transaction has changed; one that is gone maps to nothing.
#[verifier::external_body]
pub struct StateTransitions {
    inner: hashbrown::HashMap<(u128, u32), Option<EvmAccount>, BuildSuffixHasher>,
}

/// What a `StateTransitions` holds.
pub uninterp spec fn transition_contents(state: StateTransitions) -> Map<
    Address,
    Option<EvmAccountView>,
>;

impl View for StateTransitions {
    type V = Map<Address, Option<EvmAccountView>>;

    open spec fn view(&self) -> Map<Address, Option<EvmAccountView>> {
        transition_contents(*self)
    }
}

impl StateTransitions {
    /// `hashbrown::HashMap::default`: a map that holds nothing.
    #[verifier::external_body]
    pub(crate) fn new() -> (r: Self)
        ensures
            transition_contents(r).dom() == Set::<Address>::empty(),
    {
        StateTransitions { inner: hashbrown::HashMap::default() }
    }

    /// `hashbrown::HashMap::insert`: the account becomes that of the address.
    #[verifier::external_body]
    pub(crate) fn insert(&mut self, address: Address, account: Option<EvmAccount>)
        ensures
            transition_contents(*final(self)) == transition_contents(*old(self)).insert(
                address,
                transition(account),
            ),
    {
        self.inner.insert((address.hi, address.lo), account);
    }

    /// `hashbrown::HashMap::remove`: takes the account of the address out, if it has one.
    #[verifier::external_body]
    pub(crate) fn take(&mut self, address: Address) -> (r: Option<Option<EvmAccount>>)
        ensures
            transition_contents(*final(self)) == transition_contents(*old(self)).remove(address),
            match r {
                Some(a) => transition_contents(*old(self)).contains_key(address) && transition(a)
                    == transition_contents(*old(self))[address],
                None => !transition_contents(*old(self)).contains_key(address),
            },
    {
        self.inner.remove(&(address.hi, address.lo))
    }

    /// `hashbrown::HashMap::into_iter`: every address with its account, once each. In which order
    /// they come is not stated.
    #[verifier::external_body]
    pub(crate) fn into_entries(self) -> (r: Vec<(Address, Option<EvmAccount>)>)
        ensures
            forall|i: int|
                0 <= i < r@.len() ==> transition_contents(self).contains_key(#[trigger] r@[i].0)
                    && transition_contents(self)[r@[i].0] == transition(r@[i].1),
            forall|k: Address| #[trigger]
                transition_contents(self).contains_key(k) ==> exists|i: int|
                    0 <= i < r@.len() && #[trigger] r@[i].0 == k,
            forall|i: int, j: int|
                0 <= i < j < r@.len() ==> #[trigger] r@[i].0 != #[trigger] r@[j].0,
    {
        let address = |k: (u128, u32)| Address { hi: k.0, lo: k.1 };
        self.inner.into_iter().map(|pair| (address(pair.0), pair.1)).collect()
    }
}

/// The values that slots are left with; of two entries for one slot the later holds.
pub open spec fn present_slots(slots: Seq<SlotChange>) -> Map<U256, U256>
    decreases slots.len(),
{
    if slots.len() == 0 {
        Map::empty()
    } else {
        present_slots(slots.drop_last()).insert(slots.last().slot, slots.last().present)
    }
}

impl StateAccount {
    /// The account as a result holds it: an account without code has no code hash.
    pub open spec fn account_view(self) -> EvmAccountView {
        EvmAccountView {
            balance: self.info.balance,
            nonce: self.info.nonce,
            code_hash: if self.info.has_code() {
                Some(self.info.code_hash)
            } else {
                None
            },
            code: if self.info.has_code() {
                self.info.code
            } else {
                None
            },
            storage: present_slots(self.storage@),
        }
    }

    /// Whether the account is gone after the execution: destroyed, or empty where empty accounts
    /// are cleared.
    pub open spec fn is_gone(self, eip_161_enabled: bool) -> bool {
        self.selfdestructed || (self.info.is_empty_spec() && eip_161_enabled)
    }

    /// What a result holds of the account.
    pub open spec fn transition_view(self, eip_161_enabled: bool) -> Option<EvmAccountView> {
        if self.is_gone(eip_161_enabled) {
            None
        } else {
            Some(self.account_view())
        }
    }

    /// The account as a result holds it. An account with code has to carry it.
    pub fn to_evm_account(&self) -> (r: EvmAccount)
        requires
            self.info.has_code() ==> self.info.code is Some,
        ensures
            r@ == self.account_view(),
            forall|j: int|
                0 <= j < self.storage@.len() ==> r.storage@.contains_key(
                    (#[trigger] self.storage@[j]).slot,
                ),
            slots_once(self.storage@) ==> forall|j: int|
                0 <= j < self.storage@.len() ==> r.storage@[(#[trigger] self.storage@[j]).slot]
                    == self.storage@[j].present,
            forall|k: U256| #[trigger]
                r.storage@.contains_key(k) ==> exists|j: int|
                    0 <= j < self.storage@.len() && (#[trigger] self.storage@[j]).slot == k,
    {
        proof {
            law_every_slot_is_held(self.storage@);
        }
        let mut storage = SlotMap::new();
        assert(storage@ =~= present_slots(self.storage@.take(0)));
        let mut i: usize = 0;
        while i < self.storage.len()
            invariant
                i <= self.storage@.len(),
                storage@ == present_slots(self.storage@.take(i as int)),
            decreases self.storage@.len() - i,
        {
            storage.insert(self.storage[i].slot, self.storage[i].present);
            assert(self.storage@.take(i + 1).drop_last() =~= self.storage@.take(i as int));
            i = i + 1;
        }
        assert(self.storage@.take(i as int) =~= self.storage@);
        let (code_hash, code) = if self.info.is_empty_code_hash() {
            (None, None)
        } else {
            let code = match &self.info.code {
                Some(code) => Some(code.clone()),
                None => None,
            };
            (Some(self.info.code_hash), code)
        };
        EvmAccount {
            balance: self.info.balance,
            nonce: self.info.nonce,
            code_hash,
            code,
            storage,
        }
    }
}

/// What a result holds of all accounts: those that were touched.
pub open spec fn transitions(state: Seq<StateAccount>, eip_161_enabled: bool) -> Map<
    Address,
    Option<EvmAccountView>,
>
    decreases state.len(),
{
    if state.len() == 0 {
        Map::empty()
    } else {
        let rest = transitions(state.drop_last(), eip_161_enabled);
        let account = state.last();
        if account.touched {
            rest.insert(account.address, account.transition_view(eip_161_enabled))
        } else {
            rest
        }
    }
}

/// Whether every account that a result holds with code carries it.
pub open spec fn code_carried(state: Seq<StateAccount>, eip_161_enabled: bool) -> bool {
    forall|i: int|
        0 <= i < state.len() && (#[trigger] state[i]).touched && !state[i].is_gone(eip_161_enabled)
            && state[i].info.has_code() ==> state[i].info.code is Some
}

/// Whether every account that was touched and not destroyed carries the code that it has.
pub open spec fn carries_code(state: Seq<StateAccount>) -> bool {
    forall|i: int|
        0 <= i < state.len() && (#[trigger] state[i]).touched && !state[i].selfdestructed
            && state[i].info.has_code() ==> state[i].info.code is Some
}

/// A run of the virtual machine that ended: how it ended, and the accounts that it has loaded.
pub struct RunOutcome {
    result: ExecutionResult,
    state: Vec<StateAccount>,
}

impl RunOutcome {
    #[verifier::type_invariant]
    spec fn is_whole(self) -> bool {
        carries_code(self.state@)
    }

    pub closed spec fn result(self) -> ExecutionResult {
        self.result
    }

    pub closed spec fn accounts(self) -> Seq<StateAccount> {
        self.state@
    }

    /// The outcome of a run. There is none where an account that it has touched lacks its code.
    pub fn new(result: ExecutionResult, state: Vec<StateAccount>) -> (r: Option<Self>)
        ensures
            match r {
                Some(outcome) => {
                    &&& carries_code(state@)
                    &&& outcome.result() == result
                    &&& outcome.accounts() == state@
                },
                None => !carries_code(state@),
            },
    {
        let mut i: usize = 0;
        while i < state.len()
            invariant
                i <= state@.len(),
                carries_code(state@.take(i as int)),
            decreases state@.len() - i,
        {
            let account = &state[i];
            if account.touched && !account.selfdestructed && !account.info.is_empty_code_hash()
                && account.info.code.is_none() {
                assert(!carries_code(state@)) by {
                    assert(state@[i as int].touched);
                }
                return None;
            }
            proof {
                let next = state@.take(i + 1);
                assert forall|j: int|
                    0 <= j < next.len() && (#[trigger] next[j]).touched && !next[j].selfdestructed
                        && next[j].info.has_code() implies next[j].info.code is Some by {
                    if j < i {
                        assert(state@.take(i as int)[j] == next[j]);
                    }
                }
            }
            i = i + 1;
        }
        assert(state@.take(i as int) =~= state@);
        Some(RunOutcome { result, state })
    }

    pub fn state(&self) -> (r: &Vec<StateAccount>)
        ensures
            r@ == self.accounts(),
    {
        &self.state
    }

    /// The two parts.
    pub fn into_parts(self) -> (r: (ExecutionResult, Vec<StateAccount>))
        ensures
            r.0 == self.result(),
            r.1@ == self.accounts(),
            carries_code(r.1@),
    {
        proof {
            use_type_invariant(&self);
        }
        (self.result, self.state)
    }
}

/// The result of one transaction: its receipt and the accounts that it has changed.
pub struct PevmTxExecutionResult {
    pub receipt: Receipt,
    pub state: StateTransitions,
}

impl PevmTxExecutionResult {
    /// The result of an execution. The gas used so far is for now that of the transaction alone.
    pub fn from_revm(result: ExecutionResult, state: &Vec<StateAccount>, eip_161_enabled: bool) -> (r:
        Self)
        requires
            code_carried(state@, eip_161_enabled),
        ensures
            r.receipt.status == result.success,
            r.receipt.cumulative_gas_used == result.gas_used,
            r.receipt.logs == result.logs,
            r.state@ == transitions(state@, eip_161_enabled),
    {
        let mut changed = StateTransitions::new();
        assert(changed@ =~= transitions(state@.take(0), eip_161_enabled));
        let mut i: usize = 0;
        while i < state.len()
            invariant
                i <= state@.len(),
                code_carried(state@, eip_161_enabled),
                changed@ == transitions(state@.take(i as int), eip_161_enabled),
            decreases state@.len() - i,
        {
            let account = &state[i];
            if account.touched {
                if account.selfdestructed || (account.info.is_empty() && eip_161_enabled) {
                    changed.insert(account.address, None);
                } else {
                    changed.insert(account.address, Some(account.to_evm_account()));
                }
            }
            assert(state@.take(i + 1).drop_last() =~= state@.take(i as int));
            i = i + 1;
        }
        assert(state@.take(i as int) =~= state@);
        PevmTxExecutionResult {
            receipt: Receipt {
                status: result.success,
                cumulative_gas_used: result.gas_used,
                logs: result.logs,
            },
            state: changed,
        }
    }
}

} // verus!
