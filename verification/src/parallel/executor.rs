//! Bridge between the parallel executor and the state of the chain: the results of a block are
//! merged into one change per account.

use crate::evm::block_executor::{EthBlockExecutionCtx, EthBlockExecutor};
use crate::evm::builder::EthEvmFactory;
use crate::evm::chain_spec::ChainSpec;
use crate::evm::config::{EthBlockExecutorFactory, EthEvmConfig};
use crate::evm::receipts::RethReceiptBuilder;
use crate::evm::spec_id::SpecId;
use crate::parallel::settlement::{states_of, Transitions};
use crate::parallel::state::{
    transition, EvmAccount, EvmAccountView, PevmTxExecutionResult, SlotChange, SlotMap,
    StateTransitions,
};
use crate::parallel::pevm::PevmError;
use crate::parallel::storage::{AccountInfo, EvmCode};
use crate::primitives::{
    keccak_empty, keccak_empty_spec, lemma_word_of_view, word, Address, U256,
};
use std::sync::Arc;
use vstd::prelude::*;

verus! {

/// An account after a later result that holds it: the later result counts, and of the slots those
/// stay that it does not hold. An account that is gone has no slots to keep.
pub open spec fn merged_account(
    earlier: Option<EvmAccountView>,
    later: Option<EvmAccountView>,
) -> Option<EvmAccountView> {
    match (earlier, later) {
        (Some(e), Some(l)) => Some(
            EvmAccountView { storage: e.storage.union_prefer_right(l.storage), ..l },
        ),
        _ => later,
    }
}

/// The accounts after one more result.
pub open spec fn merged_accounts(earlier: Transitions, later: Transitions) -> Transitions {
    Map::new(
        |a: Address| earlier.contains_key(a) || later.contains_key(a),
        |a: Address|
            if !later.contains_key(a) {
                earlier[a]
            } else if earlier.contains_key(a) {
                merged_account(earlier[a], later[a])
            } else {
                later[a]
            },
    )
}

/// The accounts after all results: of several results that hold an account or a slot the last one
/// counts.
pub open spec fn merged(states: Seq<Transitions>) -> Transitions
    decreases states.len(),
{
    if states.len() == 0 {
        Map::empty()
    } else {
        merged_accounts(merged(states.drop_last()), states.last())
    }
}

/// Whether the list holds the accounts, once each.
pub open spec fn lists_accounts(
    list: Seq<(Address, Option<EvmAccount>)>,
    accounts: Transitions,
) -> bool {
    &&& forall|i: int|
        0 <= i < list.len() ==> accounts.contains_key(#[trigger] list[i].0) && accounts[list[i].0]
            == transition(list[i].1)
    &&& forall|a: Address| #[trigger]
        accounts.contains_key(a) ==> exists|i: int| 0 <= i < list.len() && #[trigger] list[i].0 == a
    &&& forall|i: int, j: int|
        0 <= i < j < list.len() ==> #[trigger] list[i].0 != #[trigger] list[j].0
}

/// An account after a later result that holds it.
fn merge_account(earlier: Option<EvmAccount>, later: Option<EvmAccount>) -> (r: Option<EvmAccount>)
    ensures
        transition(r) == merged_account(transition(earlier), transition(later)),
{
    match (earlier, later) {
        (Some(e), Some(l)) => {
            let entries = l.storage.entries();
            let mut storage = e.storage;
            let ghost kept = storage@;
            let ghost mut done = Set::<U256>::empty();
            assert(storage@ =~= kept.union_prefer_right(l.storage@.restrict(done)));
            let mut i: usize = 0;
            while i < entries.len()
                invariant
                    i <= entries@.len(),
                    forall|j: int|
                        0 <= j < entries@.len() ==> l.storage@.contains_key(
                            #[trigger] entries@[j].0,
                        ) && l.storage@[entries@[j].0] == entries@[j].1,
                    forall|j: int| 0 <= j < i ==> done.contains(#[trigger] entries@[j].0),
                    storage@ == kept.union_prefer_right(l.storage@.restrict(done)),
                decreases entries@.len() - i,
            {
                let (slot, value) = entries[i];
                assert(l.storage@.contains_key(entries@[i as int].0));
                storage.insert(slot, value);
                proof {
                    done = done.insert(slot);
                    assert(storage@ =~= kept.union_prefer_right(l.storage@.restrict(done)));
                }
                i = i + 1;
            }
            proof {
                assert forall|k: U256| l.storage@.contains_key(k) implies done.contains(k) by {
                    let j = choose|j: int| 0 <= j < entries@.len() && #[trigger] entries@[j].0 == k;
                    assert(done.contains(entries@[j].0));
                }
                assert(l.storage@.restrict(done) =~= l.storage@);
            }
            Some(
                EvmAccount {
                    balance: l.balance,
                    nonce: l.nonce,
                    code_hash: l.code_hash,
                    code: l.code,
                    storage,
                },
            )
        },
        (_, later) => later,
    }
}

/// Merges the results of a block. The accounts come in some order.
pub fn merge_results(results: Vec<PevmTxExecutionResult>) -> (r: Vec<(Address, Option<EvmAccount>)>)
    ensures
        lists_accounts(r@, merged(states_of(results@))),
{
    let ghost states = states_of(results@);
    let mut all = StateTransitions::new();
    let mut left = results;
    let mut n: usize = 0;
    assert(all@ =~= merged(states.take(0)));
    while n < left.len()
        invariant
            n <= left@.len() == states.len(),
            states == states_of(results@),
            forall|i: int| n <= i < left@.len() ==> (#[trigger] left@[i]).state@ == states[i],
            all@ == merged(states.take(n as int)),
        decreases left@.len() - n,
    {
        let ghost before = all@;
        let mut state = StateTransitions::new();
        std::mem::swap(&mut state, &mut left[n].state);
        let ghost last = states[n as int];
        let mut entries = state.into_entries();
        let ghost mut done = Set::<Address>::empty();
        let ghost listed = entries@;
        assert(all@ =~= merged_accounts(before, last.restrict(done)));
        while entries.len() > 0
            invariant
                entries@.len() <= listed.len(),
                entries@ == listed.take(entries@.len() as int),
                forall|i: int|
                    0 <= i < listed.len() ==> last.contains_key(#[trigger] listed[i].0) && last[
                        listed[i].0
                    ] == transition(listed[i].1),
                forall|i: int, j: int|
                    0 <= i < j < listed.len() ==> #[trigger] listed[i].0 != #[trigger] listed[j].0,
                forall|a: Address| #[trigger]
                    done.contains(a) <==> exists|i: int|
                        entries@.len() <= i < listed.len() && #[trigger] listed[i].0 == a,
                all@ == merged_accounts(before, last.restrict(done)),
            decreases entries@.len(),
        {
            let ghost k = entries@.len() - 1;
            assert(entries@[k] == listed[k]);
            let (address, account) = entries.pop().unwrap();
            assert(listed[k].0 == address);
            assert(!done.contains(address));
            let account = match all.take(address) {
                Some(earlier) => merge_account(earlier, account),
                None => account,
            };
            all.insert(address, account);
            proof {
                done = done.insert(address);
                assert(entries@ =~= listed.take(k));
                assert(all@ =~= merged_accounts(before, last.restrict(done)));
            }
        }
        proof {
            assert(last.restrict(done) =~= last) by {
                assert forall|a: Address| last.contains_key(a) implies done.contains(a) by {
                    let i = choose|i: int| 0 <= i < listed.len() && #[trigger] listed[i].0 == a;
                    assert(listed[i].0 == a);
                }
            }
            assert(states.take(n + 1).drop_last() =~= states.take(n as int));
            assert(states.take(n + 1).last() == last);
        }
        n = n + 1;
    }
    assert(states.take(n as int) =~= states);
    all.into_entries()
}

/// The state of the chain, with a cache of accounts. An error is given by its message.
pub trait StateCache: Sized {
    /// Brings an account into the cache.
    fn load_cache_account(&mut self, address: Address) -> Result<(), String>;

    fn storage_ref(&self, address: &Address, slot: &U256) -> Result<U256, String>;

    /// Keeps changes to accounts that are in the cache.
    fn commit(&mut self, changes: Vec<AccountChange>);
}

/// Whether `reply` is an answer that the state may give when it is asked for a slot.
pub open spec fn answers_slot<S: StateCache>(
    state: &S,
    address: Address,
    slot: U256,
    reply: Result<U256, String>,
) -> bool {
    call_ensures(S::storage_ref, (state, &address, &slot), reply)
}

/// A change to an account of the chain.
pub struct AccountChange {
    pub address: Address,
    pub info: AccountInfo,
    pub storage: Vec<SlotChange>,
    /// Whether the account is gone.
    pub destroyed: bool,
}

/// Whether the changes are those of the given slots, once each, with the value that the chain has
/// for a slot as its original value, and zero where the chain fails.
pub open spec fn slots_changed<S: StateCache>(
    state: &S,
    address: Address,
    slots: Map<U256, U256>,
    changes: Seq<SlotChange>,
) -> bool {
    &&& forall|i: int|
        0 <= i < changes.len() ==> slots.contains_key((#[trigger] changes[i]).slot) && slots[
            changes[i].slot
        ] == changes[i].present && original_read(state, address, changes[i])
    &&& forall|k: U256| #[trigger]
        slots.contains_key(k) ==> exists|i: int|
            0 <= i < changes.len() && (#[trigger] changes[i]).slot == k
    &&& forall|i: int, j: int|
        0 <= i < j < changes.len() ==> (#[trigger] changes[i]).slot != (#[trigger] changes[j]).slot
}

pub open spec fn original_read<S: StateCache>(
    state: &S,
    address: Address,
    change: SlotChange,
) -> bool {
    exists|reply: Result<U256, String>| #[trigger]
        answers_slot(state, address, change.slot, reply) && change.original == match reply {
            Ok(value) => value,
            Err(_) => word(0),
        }
}

/// Whether the change brings an account to what the merged results hold of it. An account that is
/// gone has nothing left.
pub open spec fn changes_to<S: StateCache>(
    state: &S,
    account: Option<EvmAccountView>,
    change: AccountChange,
) -> bool {
    match account {
        Some(v) => {
            &&& !change.destroyed
            &&& change.info.balance == v.balance
            &&& change.info.nonce == v.nonce
            &&& change.info.code_hash == match v.code_hash {
                Some(h) => h,
                None => keccak_empty_spec(),
            }
            &&& change.info.code == v.code
            &&& slots_changed(state, change.address, v.storage, change.storage@)
        },
        None => {
            &&& change.destroyed
            &&& change.info.balance@ == 0
            &&& change.info.nonce == 0
            &&& change.info.code_hash == keccak_empty_spec()
            &&& change.info.code matches Some(code) && code.is_default()
            &&& change.storage@.len() == 0
        },
    }
}

fn change_slots<S: StateCache>(state: &S, address: Address, slots: &SlotMap) -> (r: Vec<SlotChange>)
    ensures
        slots_changed(state, address, slots@, r@),
{
    let entries = slots.entries();
    let mut changes: Vec<SlotChange> = Vec::new();
    let mut i: usize = 0;
    while i < entries.len()
        invariant
            i <= entries@.len(),
            changes@.len() == i,
            forall|j: int|
                0 <= j < entries@.len() ==> slots@.contains_key(#[trigger] entries@[j].0) && slots@[
                    entries@[j].0
                ] == entries@[j].1,
            forall|j: int|
                0 <= j < i ==> (#[trigger] changes@[j]).slot == entries@[j].0 && changes@[j].present
                    == entries@[j].1 && original_read(state, address, changes@[j]),
        decreases entries@.len() - i,
    {
        let (slot, present) = entries[i];
        let reply = state.storage_ref(&address, &slot);
        assert(answers_slot(state, address, slot, reply));
        let original = match reply {
            Ok(value) => value,
            Err(_) => U256::zero(),
        };
        proof {
            lemma_word_of_view(original);
        }
        let change = SlotChange { slot, original, present };
        assert(answers_slot(state, address, change.slot, reply));
        assert(reply is Err ==> change.original == word(0));
        assert(original_read(state, address, change));
        changes.push(change);
        i = i + 1;
    }
    proof {
        assert forall|k: U256| #[trigger] slots@.contains_key(k) implies exists|i: int|
            0 <= i < changes@.len() && (#[trigger] changes@[i]).slot == k by {
            let j = choose|j: int| 0 <= j < entries@.len() && #[trigger] entries@[j].0 == k;
            assert(changes@[j].slot == k);
        }
        assert forall|a: int, b: int| 0 <= a < b < changes@.len() implies (
        #[trigger] changes@[a]).slot != (#[trigger] changes@[b]).slot by {
            assert(entries@[a].0 != entries@[b].0);
        }
        assert forall|a: int| 0 <= a < changes@.len() implies slots@.contains_key(
            (#[trigger] changes@[a]).slot,
        ) && slots@[changes@[a].slot] == changes@[a].present by {
            assert(slots@.contains_key(entries@[a].0));
        }
    }
    changes
}

fn change_account<S: StateCache>(state: &S, address: Address, account: Option<EvmAccount>) -> (r:
    AccountChange)
    ensures
        r.address == address,
        changes_to(state, transition(account), r),
{
    match account {
        Some(account) => {
            let storage = change_slots(state, address, &account.storage);
            let code_hash = match account.code_hash {
                Some(hash) => hash,
                None => keccak_empty(),
            };
            let info = AccountInfo {
                balance: account.balance,
                nonce: account.nonce,
                code_hash,
                code: account.code,
            };
            AccountChange { address, info, storage, destroyed: false }
        },
        None => {
            let info = AccountInfo {
                balance: U256::zero(),
                nonce: 0,
                code_hash: keccak_empty(),
                code: Some(Arc::new(EvmCode::default())),
            };
            AccountChange { address, info, storage: Vec::new(), destroyed: true }
        },
    }
}

/// Whether the changes bring the state to the accounts, one per account.
pub open spec fn brings_to<S: StateCache>(
    state: &S,
    accounts: Transitions,
    changes: Seq<AccountChange>,
) -> bool {
    &&& forall|i: int|
        0 <= i < changes.len() ==> accounts.contains_key((#[trigger] changes[i]).address)
            && changes_to(state, accounts[changes[i].address], changes[i])
    &&& forall|a: Address| #[trigger]
        accounts.contains_key(a) ==> exists|i: int|
            0 <= i < changes.len() && (#[trigger] changes[i]).address == a
    &&& forall|i: int, j: int|
        0 <= i < j < changes.len() ==> (#[trigger] changes[i]).address != (
        #[trigger] changes[j]).address
}

/// The changes that bring the state to the listed accounts, in their order.
pub fn build_changes<S: StateCache>(state: &S, list: Vec<(Address, Option<EvmAccount>)>) -> (r: Vec<
    AccountChange,
>)
    ensures
        r@.len() == list@.len(),
        forall|i: int|
            0 <= i < r@.len() ==> (#[trigger] r@[i]).address == list@[i].0 && changes_to(
                state,
                transition(list@[i].1),
                r@[i],
            ),
{
    let mut changes: Vec<AccountChange> = Vec::new();
    for entry in it: list
        invariant
            it.seq() == list@,
            changes@.len() == it.index(),
            forall|i: int|
                0 <= i < changes@.len() ==> (#[trigger] changes@[i]).address == list@[i].0
                    && changes_to(state, transition(list@[i].1), changes@[i]),
    {
        let (address, account) = entry;
        changes.push(change_account(state, address, account));
    }
    changes
}

proof fn lemma_loads(
    list: Seq<(Address, Option<EvmAccount>)>,
    accounts: Transitions,
    addresses: Seq<Address>,
)
    requires
        lists_accounts(list, accounts),
        addresses.len() <= list.len(),
        forall|j: int| 0 <= j < addresses.len() ==> #[trigger] addresses[j] == list[j].0,
    ensures
        addresses.no_duplicates(),
        addresses.to_set().subset_of(accounts.dom()),
        addresses.len() == list.len() ==> addresses.to_set() == accounts.dom(),
        addresses.len() < list.len() ==> !addresses.contains(list[addresses.len() as int].0),
{
    assert forall|i: int, j: int| 0 <= i < addresses.len() && 0 <= j < addresses.len() && i
        != j implies addresses[i] != addresses[j] by {
        if i < j {
            assert(list[i].0 != list[j].0);
        } else {
            assert(list[j].0 != list[i].0);
        }
    }
    assert forall|a: Address| addresses.to_set().contains(a) implies accounts.contains_key(a) by {
        let j = choose|j: int| 0 <= j < addresses.len() && addresses[j] == a;
        assert(accounts.contains_key(list[j].0));
    }
    if addresses.len() == list.len() {
        assert forall|a: Address| accounts.contains_key(a) implies addresses.to_set().contains(a) by {
            let j = choose|j: int| 0 <= j < list.len() && #[trigger] list[j].0 == a;
            assert(addresses[j] == a);
        }
        assert(addresses.to_set() =~= accounts.dom());
    } else {
        let n = addresses.len() as int;
        if addresses.contains(list[n].0) {
            let j = choose|j: int| 0 <= j < addresses.len() && addresses[j] == list[n].0;
            assert(list[j].0 != list[n].0);
        }
    }
}

/// Whether a load is one of those of the accounts.
pub open spec fn is_load(addresses: Seq<Address>, i: int) -> bool {
    0 <= i < addresses.len()
}

/// Merges the results of a block into the state: the accounts that change are brought into the cache,
/// then the changes are kept.
pub fn apply_pevm_results_to_state<S: StateCache>(
    state: &mut S,
    results: Vec<PevmTxExecutionResult>,
) -> (r: Result<(), PevmError>)
    ensures
        merged(states_of(results@)) == Map::<Address, Option<EvmAccountView>>::empty() ==> r is Ok
            && *final(state) == *old(state),
        merged(states_of(results@)) != Map::<Address, Option<EvmAccountView>>::empty() ==> exists|
            caches: Seq<S>,
            addresses: Seq<Address>,
        |
            {
                &&& #[trigger] caches.len() == #[trigger] addresses.len() + 1
                &&& caches[0] == *old(state)
                &&& addresses.no_duplicates()
                &&& addresses.to_set().subset_of(merged(states_of(results@)).dom())
                &&& forall|i: int| #[trigger]
                    is_load(addresses, i) ==> exists|m: &mut S, reply: Result<(), String>|
                        {
                            &&& *m == caches[i]
                            &&& #[trigger] call_ensures(
                                S::load_cache_account,
                                (m, addresses[i]),
                                reply,
                            )
                            &&& reply is Ok
                            &&& *final(m) == caches[i + 1]
                        }
                &&& match r {
                    Ok(_) => {
                        &&& addresses.to_set() == merged(states_of(results@)).dom()
                        &&& exists|m: &mut S, changes: Vec<AccountChange>|
                            {
                                &&& *m == caches.last()
                                &&& brings_to(&*m, merged(states_of(results@)), changes@)
                                &&& *final(m) == *final(state)
                                &&& #[trigger] call_ensures(S::commit, (m, changes), ())
                            }
                    },
                    Err(error) => exists|m: &mut S, address: Address, reply: Result<(), String>|
                        {
                            &&& *m == caches.last()
                            &&& merged(states_of(results@)).contains_key(address)
                            &&& !addresses.contains(address)
                            &&& *final(m) == *final(state)
                            &&& #[trigger] call_ensures(S::load_cache_account, (m, address), reply)
                            &&& reply matches Err(e) && error == PevmError::StorageError(e)
                        },
                }
            },
{
    let ghost accounts = merged(states_of(results@));
    let list = merge_results(results);
    if list.len() == 0 {
        assert(accounts =~= Map::<Address, Option<EvmAccountView>>::empty());
        return Ok(());
    }
    assert(accounts.contains_key(list@[0].0));
    let ghost mut caches = seq![*state];
    let ghost mut addresses = Seq::<Address>::empty();
    let mut i: usize = 0;
    while i < list.len()
        invariant
            i <= list@.len(),
            addresses.len() == i,
            caches.len() == i + 1,
            caches[0] == *old(state),
            caches.last() == *state,
            forall|j: int| 0 <= j < i ==> #[trigger] addresses[j] == list@[j].0,
            forall|i: int| #[trigger]
            is_load(addresses, i) ==> exists|m: &mut S, reply: Result<(), String>|
                {
                    &&& *m == caches[i]
                    &&& #[trigger] call_ensures(
                        S::load_cache_account,
                        (m, addresses[i]),
                        reply,
                    )
                    &&& reply is Ok
                    &&& *final(m) == caches[i + 1]
                },
            lists_accounts(list@, accounts),
            accounts == merged(states_of(results@)),
            accounts != Map::<Address, Option<EvmAccountView>>::empty(),
        decreases list@.len() - i,
    {
        assert(accounts.contains_key(list@[i as int].0));
        let ghost from = *state;
        let ghost address = list@[i as int].0;
        proof {
            lemma_loads(list@, accounts, addresses);
        }
        let reply = state.load_cache_account(list[i].0);
        assert(exists|m: &mut S|
            {
                &&& *m == from
                &&& #[trigger] call_ensures(S::load_cache_account, (m, address), reply)
                &&& *final(m) == *state
            });
        match reply {
            Ok(_) => {},
            Err(e) => {
                return Err(PevmError::StorageError(e));
            },
        }
        proof {
            let seen = addresses;
            let until = caches;
            addresses = seen.push(address);
            caches = until.push(*state);
            assert forall|j: int| #[trigger] is_load(addresses, j) implies exists|
                m: &mut S,
                reply: Result<(), String>,
            |
                {
                    &&& *m == caches[j]
                    &&& #[trigger] call_ensures(S::load_cache_account, (m, addresses[j]), reply)
                    &&& reply is Ok
                    &&& *final(m) == caches[j + 1]
                } by {
                if j < i {
                    assert(is_load(seen, j));
                    assert(addresses[j] == seen[j]);
                    assert(caches[j] == until[j]);
                    assert(caches[j + 1] == until[j + 1]);
                } else {
                    assert(caches[j] == from);
                    assert(addresses[j] == address);
                }
            }
        }
        i = i + 1;
    }
    proof {
        lemma_loads(list@, accounts, addresses);
    }
    let ghost listed = list@;
    let changes = build_changes(&*state, list);
    proof {
        assert forall|i: int| 0 <= i < changes@.len() implies accounts.contains_key(
            (#[trigger] changes@[i]).address,
        ) && changes_to(&*state, accounts[changes@[i].address], changes@[i]) by {
            assert(accounts.contains_key(listed[i].0));
        }
        assert forall|a: Address| #[trigger] accounts.contains_key(a) implies exists|i: int|
            0 <= i < changes@.len() && (#[trigger] changes@[i]).address == a by {
            let j = choose|j: int| 0 <= j < listed.len() && #[trigger] listed[j].0 == a;
            assert(changes@[j].address == a);
        }
        assert forall|i: int, j: int| 0 <= i < j < changes@.len() implies (
        #[trigger] changes@[i]).address != (#[trigger] changes@[j]).address by {
            assert(listed[i].0 != listed[j].0);
        }
    }
    state.commit(changes);
    Ok(())
}

/// Makes block executors for a chain whose blocks are executed in parallel.
#[derive(Debug)]
pub struct ParallelBlockExecutorFactory<F> {
    pub inner: EthBlockExecutorFactory<F>,
    pub spec_id: SpecId,
    pub chain_id: u64,
    pub concurrency: usize,
}

impl<F> ParallelBlockExecutorFactory<F> {
    pub fn new(
        inner: EthBlockExecutorFactory<F>,
        spec_id: SpecId,
        chain_id: u64,
        concurrency: usize,
    ) -> (r: Self)
        requires
            concurrency > 0,
        ensures
            r == (ParallelBlockExecutorFactory { inner, spec_id, chain_id, concurrency }),
    {
        ParallelBlockExecutorFactory { inner, spec_id, chain_id, concurrency }
    }

    pub fn evm_factory(&self) -> (r: &F)
        ensures
            *r == self.inner.machines(),
    {
        self.inner.evm_factory()
    }

    /// An executor for what comes before and after the transactions of a block.
    pub fn create_executor<E>(&self, evm: E, ctx: EthBlockExecutionCtx) -> (r: EthBlockExecutor<
        E,
        RethReceiptBuilder,
    >)
        ensures
            r.machine() == evm,
            r.context() == ctx,
            r.gas() == 0,
            r.blob_gas() == 0,
            r.made_receipts().len() == 0,
            r.caller().rules() == self.inner.rules(),
            !r.caller().observed(),
    {
        self.inner.create_executor(evm, ctx)
    }
}

/// The configuration of a chain whose blocks are executed in parallel.
#[derive(Debug)]
pub struct ParallelEthEvmConfig<F> {
    pub inner: EthEvmConfig<F>,
    pub parallel_factory: ParallelBlockExecutorFactory<F>,
}

impl<F: Copy> ParallelEthEvmConfig<F> {
    /// The configuration for a chain. Until a block says otherwise its rules are those of Cancun.
    pub fn new(chain_spec: Arc<ChainSpec>, evm_factory: F, concurrency: usize) -> (r: Self)
        requires
            concurrency > 0,
        ensures
            r.inner.executor_factory.rules() == *chain_spec,
            r.inner.executor_factory.machines() == evm_factory,
            r.inner.block_assembler.rules() == *chain_spec,
            r.parallel_factory.inner.rules() == *chain_spec,
            r.parallel_factory.inner.machines() == evm_factory,
            r.parallel_factory.spec_id == SpecId::Cancun,
            r.parallel_factory.chain_id == chain_spec.chain_id,
            r.parallel_factory.concurrency == concurrency,
    {
        let chain_id: u64 = chain_spec.chain_id;
        let factory = EthBlockExecutorFactory::new(
            RethReceiptBuilder,
            chain_spec.clone(),
            evm_factory,
        );
        let inner = EthEvmConfig::new_with_evm_factory(chain_spec, evm_factory);
        let parallel_factory = ParallelBlockExecutorFactory::new(
            factory,
            SpecId::Cancun,
            chain_id,
            concurrency,
        );
        ParallelEthEvmConfig { inner, parallel_factory }
    }
}

/// Threads where the machine does not say how many it can run.
pub const DEFAULT_CONCURRENCY: usize = 4;

/// Builds the configuration of a chain with a number of threads.
#[derive(Clone, Copy, PartialEq, Eq, Structural, Debug)]
pub struct ParallelEthereumExecutorBuilder {
    concurrency: usize,
}

impl ParallelEthereumExecutorBuilder {
    #[verifier::type_invariant]
    spec fn has_threads(self) -> bool {
        self.concurrency > 0
    }

    pub closed spec fn threads(self) -> usize {
        self.concurrency
    }

    pub fn new(concurrency: usize) -> (r: Self)
        requires
            concurrency > 0,
        ensures
            r.threads() == concurrency,
    {
        ParallelEthereumExecutorBuilder { concurrency }
    }

    /// One thread per core, given how many the machine says it can run.
    pub fn all_cores(available: Option<usize>) -> (r: Self)
        ensures
            r.threads() == match available {
                Some(n) => if n > 0 {
                    n
                } else {
                    DEFAULT_CONCURRENCY
                },
                None => DEFAULT_CONCURRENCY,
            },
    {
        match available {
            Some(n) => if n > 0 {
                Self::new(n)
            } else {
                Self::new(DEFAULT_CONCURRENCY)
            },
            None => Self::new(DEFAULT_CONCURRENCY),
        }
    }

    /// The configuration of a chain.
    pub fn build_evm(self, chain_spec: Arc<ChainSpec>) -> (r: ParallelEthEvmConfig<EthEvmFactory>)
        ensures
            r.inner.executor_factory.rules() == *chain_spec,
            r.parallel_factory.inner.rules() == *chain_spec,
            r.parallel_factory.spec_id == SpecId::Cancun,
            r.parallel_factory.chain_id == chain_spec.chain_id,
            r.parallel_factory.concurrency == self.threads(),
    {
        proof {
            use_type_invariant(&self);
        }
        ParallelEthEvmConfig::new(chain_spec, EthEvmFactory, self.concurrency)
    }
}

} // verus!
