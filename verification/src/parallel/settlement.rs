//! The end of a block: the balances and nonces that were only added to while the block executed are
//! settled, and every result gets the account as it was after its transaction.

use crate::evm::spec_id::SpecId;
use crate::evm::tx_env::TxEnv;
use crate::parallel::history::{descending, lemma_descending_members, WriteHistory};
use crate::parallel::memory::{
    hash_deterministic, location_hash, AccountBasic, MemoryEntry, MemoryLocation, MemoryValue,
    TxIdx,
};
use crate::parallel::mv_memory::{MemoryData, MvMemory, MvMemoryView};
use crate::parallel::pevm::PevmError;
use crate::parallel::state::{EvmAccount, EvmAccountView, PevmTxExecutionResult, SlotMap};
use crate::parallel::storage::{
    answers_basic, answers_code, answers_code_hash, EvmCode, Storage,
};
use crate::parallel::vm::{ExecutionError, InvalidTransaction};
use crate::primitives::{clamp, lemma_word_of_view, u256_max, word, Address, B256, U256};
use std::sync::Arc;
use vstd::prelude::*;

verus! {

/// The accounts that a transaction has changed.
pub type Transitions = Map<Address, Option<EvmAccountView>>;

/// The accounts that each result holds.
pub open spec fn states_of(results: Seq<PevmTxExecutionResult>) -> Seq<Transitions> {
    Seq::new(results.len(), |i: int| results[i].state@)
}

/// Whether two lists of results differ at most in the accounts that they hold.
pub open spec fn same_receipts(
    a: Seq<PevmTxExecutionResult>,
    b: Seq<PevmTxExecutionResult>,
) -> bool {
    &&& a.len() == b.len()
    &&& forall|i: int| 0 <= i < a.len() ==> (#[trigger] a[i]).receipt == b[i].receipt
}

/// Whether an entry settles an account: a full account, or something added to one.
pub open spec fn settles(entry: MemoryEntry) -> bool {
    match entry {
        MemoryEntry::Data(_, MemoryValue::Basic(_)) => true,
        MemoryEntry::Data(_, MemoryValue::LazyRecipient(_)) => true,
        MemoryEntry::Data(_, MemoryValue::LazySender(_)) => true,
        _ => false,
    }
}

/// The most that a transaction may cost its sender.
pub open spec fn max_fee(tx: TxEnv) -> int {
    clamp(clamp(tx.gas_limit * tx.gas_price, 0, u256_max()) + tx.value@, 0, u256_max())
}

/// The account after one more entry. A sender has to be able to pay for the transaction.
pub open spec fn after_entry(account: AccountBasic, entry: MemoryEntry, tx: TxEnv) -> Result<
    AccountBasic,
    PevmError,
> {
    match entry {
        MemoryEntry::Data(_, MemoryValue::Basic(basic)) => Ok(basic),
        MemoryEntry::Data(_, MemoryValue::LazyRecipient(add)) => Ok(
            AccountBasic {
                balance: word(clamp(account.balance@ + add@, 0, u256_max())),
                nonce: account.nonce,
            },
        ),
        MemoryEntry::Data(_, MemoryValue::LazySender(sub)) => if account.balance@ < max_fee(tx) {
            Err(
                PevmError::ExecutionError(
                    ExecutionError::Transaction(
                        InvalidTransaction::LackOfFundForMaxFee {
                            fee: word(max_fee(tx)),
                            balance: account.balance,
                        },
                    ),
                ),
            )
        } else {
            Ok(
                AccountBasic {
                    balance: word(clamp(account.balance@ - sub@, 0, u256_max())),
                    nonce: ((account.nonce + 1) % 0x1_0000_0000_0000_0000) as u64,
                },
            )
        },
        _ => Err(PevmError::UnreachableError),
    }
}

/// The error of a sender whose nonce after its transaction is not one past that of the transaction.
pub open spec fn nonce_error(account: AccountBasic, address: Address, tx_idx: TxIdx, tx: TxEnv) ->
    Option<PevmError> {
    if tx.caller != address {
        None
    } else if account.nonce == 0 {
        Some(PevmError::UnreachableError)
    } else if tx.nonce != account.nonce - 1 {
        Some(
            PevmError::NonceMismatch {
                tx_idx,
                tx_nonce: tx.nonce,
                executed_nonce: (account.nonce - 1) as u64,
            },
        )
    } else {
        None
    }
}

/// The accounts of a result with the settled account. An account that is empty is gone, where empty
/// accounts are cleared; one that the result holds keeps its code and storage.
pub open spec fn with_settled(
    state: Transitions,
    address: Address,
    account: AccountBasic,
    code_hash: Option<B256>,
    code: Option<Arc<EvmCode>>,
    eip_161_enabled: bool,
) -> Transitions {
    if eip_161_enabled && code_hash is None && account.nonce == 0 && account.balance@ == 0 {
        state.insert(address, None)
    } else if state.contains_key(address) && state[address] is Some {
        state.insert(
            address,
            Some(
                EvmAccountView {
                    balance: account.balance,
                    nonce: account.nonce,
                    ..state[address]->0
                },
            ),
        )
    } else {
        state.insert(
            address,
            Some(
                EvmAccountView {
                    balance: account.balance,
                    nonce: account.nonce,
                    code_hash,
                    code,
                    storage: Map::empty(),
                },
            ),
        )
    }
}

/// An account that is being settled, and what storage holds of its code.
pub struct Settling {
    pub address: Address,
    pub code_hash: Option<B256>,
    pub code: Option<Arc<EvmCode>>,
    pub eip_161_enabled: bool,
}

/// The accounts of all results after the entries from the `i`-th on have been settled, or the first
/// error.
pub open spec fn settled_from(
    of: Settling,
    txs: Seq<TxEnv>,
    entries: Seq<(TxIdx, MemoryEntry)>,
    i: nat,
    account: AccountBasic,
    states: Seq<Transitions>,
) -> Result<Seq<Transitions>, PevmError>
    decreases entries.len() - i,
{
    if i >= entries.len() {
        Ok(states)
    } else {
        let (tx_idx, entry) = entries[i as int];
        let tx = txs[tx_idx as int];
        match after_entry(account, entry, tx) {
            Err(e) => Err(e),
            Ok(account) => match nonce_error(account, of.address, tx_idx, tx) {
                Some(e) => Err(e),
                None => settled_from(
                    of,
                    txs,
                    entries,
                    i + 1,
                    account,
                    states.update(
                        tx_idx as int,
                        with_settled(
                            states[tx_idx as int],
                            of.address,
                            account,
                            of.code_hash,
                            of.code,
                            of.eip_161_enabled,
                        ),
                    ),
                ),
            },
        }
    }
}

/// Whether every entry settles an account and belongs to a transaction of the block.
pub open spec fn settles_all(entries: Seq<(TxIdx, MemoryEntry)>, block_size: nat) -> bool {
    forall|i: int|
        0 <= i < entries.len() ==> settles((#[trigger] entries[i]).1) && entries[i].0 < block_size
}

/// Puts the settled account into the accounts of a result.
fn put_settled(
    result: &mut PevmTxExecutionResult,
    of: &Settling,
    account: AccountBasic,
)
    ensures
        final(result).receipt == old(result).receipt,
        final(result).state@ == with_settled(
            old(result).state@,
            of.address,
            account,
            of.code_hash,
            of.code,
            of.eip_161_enabled,
        ),
{
    let ghost before = result.state@;
    let held = match result.state.take(of.address) {
        Some(held) => held,
        None => None,
    };
    if of.eip_161_enabled && of.code_hash.is_none() && account.nonce == 0
        && account.balance.is_zero() {
        result.state.insert(of.address, None);
    } else {
        match held {
            Some(mut acct) => {
                acct.balance = account.balance;
                acct.nonce = account.nonce;
                result.state.insert(of.address, Some(acct));
            },
            None => {
                let code = match &of.code {
                    Some(code) => Some(code.clone()),
                    None => None,
                };
                let acct = EvmAccount {
                    balance: account.balance,
                    nonce: account.nonce,
                    code_hash: of.code_hash,
                    code,
                    storage: SlotMap::new(),
                };
                assert(acct@.storage =~= Map::empty());
                result.state.insert(of.address, Some(acct));
            },
        }
    }
    assert(result.state@ =~= with_settled(
        before,
        of.address,
        account,
        of.code_hash,
        of.code,
        of.eip_161_enabled,
    ));
}

/// The account after one more entry.
fn apply_entry(account: AccountBasic, entry: MemoryEntry, tx: &TxEnv) -> (r: Result<
    AccountBasic,
    PevmError,
>)
    requires
        settles(entry),
    ensures
        r == after_entry(account, entry, *tx),
{
    match entry {
        MemoryEntry::Data(_, MemoryValue::Basic(basic)) => Ok(basic),
        MemoryEntry::Data(_, MemoryValue::LazyRecipient(add)) => {
            let balance = account.balance.saturating_add(add);
            proof {
                lemma_word_of_view(balance);
            }
            Ok(AccountBasic { balance, nonce: account.nonce })
        },
        MemoryEntry::Data(_, MemoryValue::LazySender(sub)) => {
            let gas_limit = U256::from_u64(tx.gas_limit);
            let fee = gas_limit.saturating_mul(U256::from_u128(tx.gas_price)).saturating_add(
                tx.value,
            );
            proof {
                lemma_word_of_view(fee);
            }
            if account.balance.less_than(&fee) {
                return Err(
                    PevmError::ExecutionError(
                        ExecutionError::Transaction(
                            InvalidTransaction::LackOfFundForMaxFee {
                                fee,
                                balance: account.balance,
                            },
                        ),
                    ),
                );
            }
            let balance = account.balance.saturating_sub(sub);
            proof {
                lemma_word_of_view(balance);
            }
            Ok(AccountBasic { balance, nonce: account.nonce.wrapping_add(1) })
        },
        _ => Err(PevmError::UnreachableError),
    }
}

/// Settles the entries of one account, from the earliest transaction to the latest, on the account
/// that it started the block with.
pub fn settle_entries(
    of: &Settling,
    start: AccountBasic,
    entries: &Vec<(TxIdx, MemoryEntry)>,
    txs: &Vec<TxEnv>,
    results: Vec<PevmTxExecutionResult>,
) -> (r: Result<Vec<PevmTxExecutionResult>, PevmError>)
    requires
        settles_all(entries@, results@.len()),
        txs@.len() == results@.len(),
    ensures
        match settled_from(*of, txs@, entries@, 0, start, states_of(results@)) {
            Ok(states) => r matches Ok(settled) && same_receipts(settled@, results@) && states_of(
                settled@,
            ) == states,
            Err(e) => r == Err::<Vec<PevmTxExecutionResult>, _>(e),
        },
{
    let ghost initial = results@;
    let mut settled = results;
    let mut account = start;
    let mut i: usize = 0;
    while i < entries.len()
        invariant
            i <= entries@.len(),
            initial == results@,
            settles_all(entries@, settled@.len()),
            txs@.len() == settled@.len(),
            same_receipts(settled@, initial),
            settled_from(*of, txs@, entries@, 0, start, states_of(initial)) == settled_from(
                *of,
                txs@,
                entries@,
                i as nat,
                account,
                states_of(settled@),
            ),
        decreases entries@.len() - i,
    {
        let (tx_idx, entry) = entries[i];
        assert(entries@[i as int] == (tx_idx, entry));
        let tx = &txs[tx_idx];
        account = match apply_entry(account, entry, tx) {
            Ok(account) => account,
            Err(e) => {
                return Err(e);
            },
        };
        if tx.caller == of.address {
            if account.nonce == 0 {
                return Err(PevmError::UnreachableError);
            }
            let executed_nonce: u64 = account.nonce - 1;
            if tx.nonce != executed_nonce {
                return Err(
                    PevmError::NonceMismatch { tx_idx, tx_nonce: tx.nonce, executed_nonce },
                );
            }
        }
        let ghost before = settled@;
        put_settled(&mut settled[tx_idx], of, account);
        assert(states_of(settled@) =~= states_of(before).update(
            tx_idx as int,
            settled@[tx_idx as int].state@,
        ));
        i = i + 1;
    }
    Ok(settled)
}

/// The entries of the transactions of a block, from the earliest to the latest.
pub open spec fn ascending(m: Map<TxIdx, MemoryEntry>, block_size: nat) -> Seq<
    (TxIdx, MemoryEntry),
> {
    descending(m, block_size).reverse()
}

/// Whether a first entry replaces whatever the account was before the block.
pub open spec fn starts_whole(entries: Seq<(TxIdx, MemoryEntry)>) -> bool {
    entries.len() > 0 && (entries[0].1 matches MemoryEntry::Data(_, MemoryValue::Basic(_)))
}

/// Whether an account may have started the block as `start`: as storage has it, or empty where
/// storage has none, fails, or need not be asked.
pub open spec fn may_start<S: Storage>(
    storage: &S,
    address: Address,
    entries: Seq<(TxIdx, MemoryEntry)>,
    start: AccountBasic,
) -> bool {
    let empty = AccountBasic { balance: word(0), nonce: 0 };
    if starts_whole(entries) {
        start == empty
    } else {
        exists|reply: Result<Option<AccountBasic>, String>| #[trigger]
            answers_basic(storage, address, reply) && start == match reply {
                Ok(Some(basic)) => basic,
                _ => empty,
            }
    }
}

/// Whether `r` is what settling one account comes to.
pub open spec fn address_settled<S: Storage>(
    storage: &S,
    address: Address,
    eip_161_enabled: bool,
    txs: Seq<TxEnv>,
    entries: Seq<(TxIdx, MemoryEntry)>,
    states: Seq<Transitions>,
    r: Result<Seq<Transitions>, PevmError>,
) -> bool {
    exists|start: AccountBasic, code_hash: Result<Option<B256>, String>|
        #![trigger
            may_start(storage, address, entries, start),
            answers_code_hash(storage, address, code_hash)]
        may_start(storage, address, entries, start) && answers_code_hash(
            storage,
            address,
            code_hash,
        ) && match code_hash {
            Err(e) => r == Err::<Seq<Transitions>, _>(PevmError::StorageError(e)),
            Ok(None) => {
                let of = Settling { address, code_hash: None, code: None, eip_161_enabled };
                r == settled_from(of, txs, entries, 0, start, states)
            },
            Ok(Some(h)) => exists|code: Result<Option<Arc<EvmCode>>, String>| #[trigger]
                answers_code(storage, h, code) && match code {
                    Err(e) => r == Err::<Seq<Transitions>, _>(PevmError::StorageError(e)),
                    Ok(c) => {
                        let of = Settling {
                            address,
                            code_hash: Some(h),
                            code: c,
                            eip_161_enabled,
                        };
                        r == settled_from(of, txs, entries, 0, start, states)
                    },
                },
        }
}

/// The outcome of settling, by the accounts of its results.
pub open spec fn outcome_of(r: Result<Vec<PevmTxExecutionResult>, PevmError>) -> Result<
    Seq<Transitions>,
    PevmError,
> {
    match r {
        Ok(results) => Ok(states_of(results@)),
        Err(e) => Err(e),
    }
}

/// Settles one account.
fn settle_address<S: Storage>(
    storage: &S,
    address: Address,
    eip_161_enabled: bool,
    txs: &Vec<TxEnv>,
    history: &WriteHistory,
    results: Vec<PevmTxExecutionResult>,
) -> (r: Result<Vec<PevmTxExecutionResult>, PevmError>)
    requires
        settles_all(ascending(history@, results@.len()), results@.len()),
        txs@.len() == results@.len(),
    ensures
        address_settled(
            storage,
            address,
            eip_161_enabled,
            txs@,
            ascending(history@, results@.len()),
            states_of(results@),
            outcome_of(r),
        ),
        r matches Ok(settled) ==> same_receipts(settled@, results@),
{
    let below = history.below(results.len());
    let mut entries: Vec<(TxIdx, MemoryEntry)> = Vec::new();
    let mut i: usize = below.len();
    while i > 0
        invariant
            i <= below@.len(),
            entries@ == Seq::new(
                (below@.len() - i) as nat,
                |j: int| below@[below@.len() - 1 - j],
            ),
        decreases i,
    {
        i = i - 1;
        entries.push(below[i]);
    }
    assert(entries@ =~= ascending(history@, results@.len()));
    let empty = AccountBasic::default();
    proof {
        lemma_word_of_view(empty.balance);
    }
    let whole = entries.len() > 0 && match entries[0].1 {
        MemoryEntry::Data(_, MemoryValue::Basic(_)) => true,
        _ => false,
    };
    let start = if whole {
        empty
    } else {
        let reply = storage.basic(&address);
        assert(answers_basic(storage, address, reply));
        match reply {
            Ok(Some(basic)) => basic,
            _ => empty,
        }
    };
    assert(may_start(storage, address, entries@, start));
    let code_hash = storage.code_hash(&address);
    assert(answers_code_hash(storage, address, code_hash));
    let code_hash = match code_hash {
        Ok(code_hash) => code_hash,
        Err(e) => {
            return Err(PevmError::StorageError(e));
        },
    };
    let code = match code_hash {
        None => None,
        Some(hash) => {
            let code = storage.code_by_hash(&hash);
            assert(answers_code(storage, hash, code));
            match code {
                Ok(code) => code,
                Err(e) => {
                    return Err(PevmError::StorageError(e));
                },
            }
        },
    };
    let of = Settling { address, code_hash, code, eip_161_enabled };
    settle_entries(&of, start, &entries, txs, results)
}

/// Whether `r` is what settling the accounts in the given order comes to. An account that nobody
/// has written is left alone.
pub open spec fn block_settled<S: Storage>(
    storage: &S,
    eip_161_enabled: bool,
    txs: Seq<TxEnv>,
    data: MemoryData,
    addresses: Seq<Address>,
    states: Seq<Transitions>,
    r: Result<Seq<Transitions>, PevmError>,
) -> bool
    decreases addresses.len(),
{
    if addresses.len() == 0 {
        r == Ok::<_, PevmError>(states)
    } else {
        let location = location_hash(MemoryLocation::Basic(addresses.first()));
        let rest = addresses.drop_first();
        if !data.contains_key(location) {
            block_settled(storage, eip_161_enabled, txs, data, rest, states, r)
        } else {
            exists|next: Result<Seq<Transitions>, PevmError>| #[trigger]
                address_settled(
                    storage,
                    addresses.first(),
                    eip_161_enabled,
                    txs,
                    ascending(data[location], txs.len()),
                    states,
                    next,
                ) && match next {
                    Err(e) => r == Err::<Seq<Transitions>, _>(e),
                    Ok(s) => block_settled(storage, eip_161_enabled, txs, data, rest, s, r),
                }
        }
    }
}

/// Whether everything that was written to an account can be settled.
pub open spec fn address_settles(data: MemoryData, address: Address, block_size: nat) -> bool {
    let location = location_hash(MemoryLocation::Basic(address));
    data.contains_key(location) ==> settles_all(ascending(data[location], block_size), block_size)
}

/// Whether everything that was written to the accounts can be settled.
pub open spec fn can_settle(memory: MvMemoryView, block_size: nat) -> bool {
    forall|a: Address| #[trigger]
        memory.lazy.contains(a) ==> address_settles(memory.data, a, block_size)
}

/// Whether everything that was written to the accounts can be settled.
pub fn is_settleable(mv_memory: &MvMemory, block_size: usize) -> (r: bool)
    requires
        mv_memory.wf(),
    ensures
        r == can_settle(mv_memory@, block_size as nat),
{
    let addresses = mv_memory.lazy_addresses();
    let mut i: usize = 0;
    while i < addresses.len()
        invariant
            i <= addresses@.len(),
            addresses@.to_set() == mv_memory@.lazy,
            forall|j: int|
                0 <= j < i ==> address_settles(
                    mv_memory@.data,
                    #[trigger] addresses@[j],
                    block_size as nat,
                ),
        decreases addresses@.len() - i,
    {
        let address = addresses[i];
        assert(mv_memory@.lazy.contains(address)) by {
            assert(addresses@.contains(address));
        }
        let location = hash_deterministic(MemoryLocation::Basic(address));
        if let Some(history) = mv_memory.history(location) {
            let entries = history.below(block_size);
            let ghost listed = ascending(history@, block_size as nat);
            let mut k: usize = 0;
            while k < entries.len()
                invariant
                    k <= entries@.len(),
                    entries@ == descending(history@, block_size as nat),
                    listed == entries@.reverse(),
                    mv_memory@.data.contains_key(location),
                    history@ == mv_memory@.data[location],
                    location == location_hash(MemoryLocation::Basic(address)),
                    listed == ascending(mv_memory@.data[location], block_size as nat),
                    mv_memory@.lazy.contains(address),
                    forall|j: int| 0 <= j < k ==> settles((#[trigger] entries@[j]).1),
                decreases entries@.len() - k,
            {
                let settling = match entries[k].1 {
                    MemoryEntry::Data(_, MemoryValue::Basic(_)) => true,
                    MemoryEntry::Data(_, MemoryValue::LazyRecipient(_)) => true,
                    MemoryEntry::Data(_, MemoryValue::LazySender(_)) => true,
                    _ => false,
                };
                if !settling {
                    proof {
                        assert(listed[entries@.len() - 1 - k] == entries@[k as int]);
                        assert(!settles_all(listed, block_size as nat));
                    }
                    return false;
                }
                k = k + 1;
            }
            proof {
                lemma_descending_members(history@, block_size as nat);
                assert forall|j: int| 0 <= j < listed.len() implies settles(
                    (#[trigger] listed[j]).1,
                ) && listed[j].0 < block_size by {
                    assert(listed[j] == entries@[entries@.len() - 1 - j]);
                }
            }
        }
        assert(address_settles(mv_memory@.data, address, block_size as nat));
        i = i + 1;
    }
    assert forall|a: Address| #[trigger] mv_memory@.lazy.contains(a) implies address_settles(
        mv_memory@.data,
        a,
        block_size as nat,
    ) by {
        assert(addresses@.contains(a));
        let j = choose|j: int| 0 <= j < addresses@.len() && addresses@[j] == a;
        assert(address_settles(mv_memory@.data, addresses@[j], block_size as nat));
    }
    true
}

/// Settles all accounts that were only added to, in some order, and forgets them.
pub fn settle_block<S: Storage>(
    mv_memory: &mut MvMemory,
    storage: &S,
    spec_id: SpecId,
    txs: &Vec<TxEnv>,
    results: Vec<PevmTxExecutionResult>,
) -> (r: Result<Vec<PevmTxExecutionResult>, PevmError>)
    requires
        old(mv_memory).wf(),
        can_settle(old(mv_memory)@, txs@.len()),
        txs@.len() == results@.len(),
    ensures
        final(mv_memory).wf(),
        final(mv_memory)@ == (MvMemoryView { lazy: Set::empty(), ..old(mv_memory)@ }),
        exists|addresses: Seq<Address>|
            addresses.no_duplicates() && addresses.to_set() == old(mv_memory)@.lazy
                && #[trigger] block_settled(
                storage,
                spec_id.enables(SpecId::SpuriousDragon),
                txs@,
                old(mv_memory)@.data,
                addresses,
                states_of(results@),
                outcome_of(r),
            ),
        r matches Ok(settled) ==> same_receipts(settled@, results@),
{
    let ghost memory = mv_memory@;
    let ghost initial = results@;
    let addresses = mv_memory.consume_lazy_addresses();
    let eip_161_enabled = spec_id.is_enabled_in(SpecId::SpuriousDragon);
    let ghost data = memory.data;
    let mut settled = results;
    let mut i: usize = 0;
    assert(addresses@.skip(0) =~= addresses@);
    while i < addresses.len()
        invariant
            i <= addresses@.len(),
            initial == results@,
            memory == old(mv_memory)@,
            data == memory.data,
            mv_memory@.data == data,
            mv_memory.wf(),
            mv_memory@ == (MvMemoryView { lazy: Set::empty(), ..memory }),
            addresses@.no_duplicates(),
            addresses@.to_set() == memory.lazy,
            eip_161_enabled == spec_id.enables(SpecId::SpuriousDragon),
            can_settle(memory, txs@.len()),
            txs@.len() == settled@.len(),
            same_receipts(settled@, initial),
            forall|r: Result<Seq<Transitions>, PevmError>| #[trigger]
                block_settled(
                    storage,
                    eip_161_enabled,
                    txs@,
                    data,
                    addresses@.skip(i as int),
                    states_of(settled@),
                    r,
                ) ==> block_settled(
                    storage,
                    eip_161_enabled,
                    txs@,
                    data,
                    addresses@,
                    states_of(initial),
                    r,
                ),
        decreases addresses@.len() - i,
    {
        let address = addresses[i];
        let location = hash_deterministic(MemoryLocation::Basic(address));
        let ghost remaining = addresses@.skip(i as int);
        proof {
            assert(remaining.first() == address);
            assert(remaining.drop_first() =~= addresses@.skip(i + 1));
            assert(memory.lazy.contains(address)) by {
                assert(addresses@.contains(address));
            }
        }
        if let Some(history) = mv_memory.history(location) {
            let ghost states = states_of(settled@);
            let ghost receipts = settled@;
            let next = settle_address(storage, address, eip_161_enabled, txs, &history, settled);
            match next {
                Err(e) => {
                    assert(block_settled(
                        storage,
                        eip_161_enabled,
                        txs@,
                        data,
                        remaining,
                        states,
                        outcome_of(next),
                    ));
                    return Err(e);
                },
                Ok(next_results) => {
                    settled = next_results;
                    assert forall|r: Result<Seq<Transitions>, PevmError>| #[trigger]
                        block_settled(
                            storage,
                            eip_161_enabled,
                            txs@,
                            data,
                            addresses@.skip(i + 1),
                            states_of(settled@),
                            r,
                        ) implies block_settled(
                        storage,
                        eip_161_enabled,
                        txs@,
                        data,
                        addresses@,
                        states_of(initial),
                        r,
                    ) by {
                        assert(block_settled(
                            storage,
                            eip_161_enabled,
                            txs@,
                            data,
                            remaining,
                            states,
                            r,
                        ));
                    }
                },
            }
        } else {
            assert forall|r: Result<Seq<Transitions>, PevmError>| #[trigger]
                block_settled(
                    storage,
                    eip_161_enabled,
                    txs@,
                    data,
                    addresses@.skip(i + 1),
                    states_of(settled@),
                    r,
                ) implies block_settled(
                storage,
                eip_161_enabled,
                txs@,
                data,
                addresses@,
                states_of(initial),
                r,
            ) by {
                assert(block_settled(
                    storage,
                    eip_161_enabled,
                    txs@,
                    data,
                    remaining,
                    states_of(settled@),
                    r,
                ));
            }
        }
        i = i + 1;
    }
    proof {
        assert(addresses@.skip(i as int).len() == 0);
        assert(block_settled(
            storage,
            eip_161_enabled,
            txs@,
            data,
            addresses@.skip(i as int),
            states_of(settled@),
            Ok(states_of(settled@)),
        ));
    }
    Ok(settled)
}

} // verus!
