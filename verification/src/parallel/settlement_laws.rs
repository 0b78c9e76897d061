//! What holds of the accounts that are settled at the end of a block.

use crate::evm::tx_env::TxEnv;
use crate::parallel::history::{descending, lemma_descending_members};
use crate::parallel::laws::{account_after, balance_after, is_lazy_entry};
use crate::parallel::memory::{
    location_hash, AccountBasic, MemoryEntry, MemoryLocation, MemoryLocationHash, MemoryValue,
    ReadOrigin, TxIdx, TxVersion,
};
use crate::parallel::mv_memory::{
    cleared, last_value, lemma_written_at, locations, MemoryData, MvMemoryView,
};
use crate::parallel::pevm::PevmError;
use crate::parallel::settlement::{
    address_settled, after_entry, ascending, block_settled, may_start, nonce_error, settled_from,
    settles, with_settled, Settling, Transitions,
};
use crate::parallel::state::{RunOutcome, SlotChange, StateAccount};
use crate::parallel::storage::{
    answers_basic, answers_code, answers_code_hash, EvmCode, Storage,
};
use crate::parallel::vm::{
    is_first_write, reward, slot_writes, state_writes, AccountsRead, ExecutionError,
    InvalidTransaction, TxContext, Vm, VmExecutionError, VmExecutionResult,
};
use crate::primitives::{clamp, lemma_u256_bounds, lemma_word, u256_max, word, Address, B256, U256};
use std::sync::Arc;
use vstd::prelude::*;

verus! {

/// Whether a value is only added to a balance.
pub open spec fn is_lazy_value(value: MemoryValue) -> bool {
    value is LazyRecipient || value is LazySender
}

/// Whether the account at the location is settled at the end of the block.
pub open spec fn is_settled(lazy: Set<Address>, location: MemoryLocationHash) -> bool {
    exists|a: Address| #[trigger]
        lazy.contains(a) && location_hash(MemoryLocation::Basic(a)) == location
}

/// Whether everything that is only added to a balance is settled at the end of the block.
pub open spec fn settles_lazy(memory: MvMemoryView) -> bool {
    forall|l: MemoryLocationHash, t: TxIdx|
        memory.data.contains_key(l) && #[trigger] memory.data[l].contains_key(t) && is_lazy_entry(
            memory.data[l][t],
        ) ==> is_settled(memory.lazy, l)
}

/// Whether every lazy value of a write set is of the sender or the recipient of a lazy transfer.
spec fn lazy_within(ws: Seq<(MemoryLocationHash, MemoryValue)>, ctx: TxContext) -> bool {
    forall|i: int|
        0 <= i < ws.len() && is_lazy_value((#[trigger] ws[i]).1) ==> ctx.is_lazy && (ws[i].0
            == ctx.from_hash || Some(ws[i].0) == ctx.to_hash)
}

proof fn lemma_slot_writes_not_lazy(
    address: Address,
    slots: Seq<SlotChange>,
    ctx: TxContext,
)
    ensures
        lazy_within(slot_writes(address, slots), ctx),
    decreases slots.len(),
{
    if slots.len() > 0 {
        lemma_slot_writes_not_lazy(address, slots.drop_last(), ctx);
    }
}

proof fn lemma_lazy_within_join(
    a: Seq<(MemoryLocationHash, MemoryValue)>,
    b: Seq<(MemoryLocationHash, MemoryValue)>,
    ctx: TxContext,
)
    requires
        lazy_within(a, ctx),
        lazy_within(b, ctx),
    ensures
        lazy_within(a + b, ctx),
{
    let ws = a + b;
    assert forall|i: int| 0 <= i < ws.len() && is_lazy_value((#[trigger] ws[i]).1) implies ctx.is_lazy
        && (ws[i].0 == ctx.from_hash || Some(ws[i].0) == ctx.to_hash) by {
        if i < a.len() {
            assert(ws[i] == a[i]);
        } else {
            assert(ws[i] == b[i - a.len()]);
        }
    }
}

proof fn lemma_state_writes_lazy(state: Seq<StateAccount>, read: AccountsRead, ctx: TxContext)
    ensures
        lazy_within(state_writes(state, read, ctx), ctx),
    decreases state.len(),
{
    if state.len() > 0 {
        let account = state.last();
        lemma_state_writes_lazy(state.drop_last(), read, ctx);
        lemma_slot_writes_not_lazy(account.address, account.storage@, ctx);
        lemma_lazy_within_join(
            account.basic_writes(read, ctx),
            account.code_writes(read),
            ctx,
        );
        lemma_lazy_within_join(
            account.basic_writes(read, ctx) + account.code_writes(read),
            slot_writes(account.address, account.storage@),
            ctx,
        );
        lemma_lazy_within_join(
            state_writes(state.drop_last(), read, ctx),
            account.writes(read, ctx),
            ctx,
        );
    }
}

/// The last value of a location is one that the write set gives it.
pub proof fn lemma_last_value_is_written(
    ws: Seq<(MemoryLocationHash, MemoryValue)>,
    location: MemoryLocationHash,
)
    requires
        locations(ws).contains(location),
    ensures
        exists|i: int|
            0 <= i < ws.len() && (#[trigger] ws[i]).0 == location && ws[i].1 == last_value(
                ws,
                location,
            ),
    decreases ws.len(),
{
    let k = choose|i: int| 0 <= i < ws.len() && #[trigger] ws[i].0 == location;
    if ws.last().0 == location {
        assert(ws[ws.len() - 1].0 == location);
    } else {
        let rest = ws.drop_last();
        assert(rest[k].0 == location);
        lemma_last_value_is_written(rest, location);
        let i = choose|i: int|
            0 <= i < rest.len() && (#[trigger] rest[i]).0 == location && rest[i].1 == last_value(
                rest,
                location,
            );
        assert(ws[i] == rest[i]);
    }
}

/// A location that is written has a first write.
pub proof fn lemma_first_write(
    ws: Seq<(MemoryLocationHash, MemoryValue)>,
    location: MemoryLocationHash,
    k: int,
)
    requires
        0 <= k < ws.len(),
        ws[k].0 == location,
    ensures
        exists|i: int| is_first_write(ws, location, i),
    decreases k,
{
    if forall|j: int| 0 <= j < k ==> (#[trigger] ws[j]).0 != location {
        assert(is_first_write(ws, location, k));
    } else {
        let j = choose|j: int| 0 <= j < k && (#[trigger] ws[j]).0 == location;
        lemma_first_write(ws, location, j);
    }
}

/// A memory that holds estimates alone leaves nothing to be settled.
pub proof fn law_fresh_memory_is_settled(memory: MvMemoryView)
    requires
        forall|l: MemoryLocationHash, t: TxIdx|
            memory.data.contains_key(l) && #[trigger] memory.data[l].contains_key(t)
                ==> memory.data[l][t] is Estimate,
    ensures
        settles_lazy(memory),
{
}

/// Whatever an execution leaves that is only added to a balance is settled at the end of the block:
/// the reward of the beneficiary, and both sides of a lazy transfer.
pub proof fn law_lazy_values_are_settled(
    vm: Vm,
    before: MvMemoryView,
    tx_version: TxVersion,
    tx: TxEnv,
    is_lazy: bool,
    read: AccountsRead,
    reads: Map<MemoryLocationHash, Seq<ReadOrigin>>,
    outcome: RunOutcome,
    after: MvMemoryView,
    r: Result<VmExecutionResult, VmExecutionError>,
)
    requires
        vm.wf(),
        settles_lazy(before),
        tx_version.tx_idx < before.writes.len(),
        is_lazy ==> tx.kind is Call,
        vm.ended(before, tx_version, tx, is_lazy, read, reads, outcome, after, r),
    ensures
        settles_lazy(after),
{
    let state = outcome.accounts();
    let ctx = vm.context_of(tx, is_lazy);
    let writes = state_writes(state, read, ctx);
    let addresses = vm.settled_addresses(tx, is_lazy);
    lemma_state_writes_lazy(state, read, ctx);
    if locations(writes).contains(vm.beneficiary_location_hash) {
        let k = choose|k: int|
            0 <= k < writes.len() && #[trigger] writes[k].0 == vm.beneficiary_location_hash;
        lemma_first_write(writes, vm.beneficiary_location_hash, k);
    }
    assert(forall|l: MemoryLocationHash| is_settled(before.lazy, l) ==> #[trigger] is_settled(
        after.lazy,
        l,
    )) by {
        assert forall|l: MemoryLocationHash| is_settled(before.lazy, l) implies
            #[trigger] is_settled(after.lazy, l) by {
            let a = choose|a: Address| #[trigger]
                before.lazy.contains(a) && location_hash(MemoryLocation::Basic(a)) == l;
            assert(after.lazy.contains(a));
        }
    }
    match vm.write_set(tx, is_lazy, read, state, outcome.result().gas_used) {
        None => {},
        Some(ws) => {
            assert(after.lazy == before.lazy.union(addresses));
            assert(after.lazy.contains(vm.block_env.beneficiary));
            assert(is_settled(after.lazy, vm.beneficiary_location_hash));
            if is_lazy {
                assert(after.lazy.contains(tx.caller));
                assert(after.lazy.contains(tx.kind.target()->0));
                assert(is_settled(after.lazy, ctx.from_hash));
                assert(is_settled(after.lazy, ctx.to_hash->0));
            }
            assert forall|i: int| 0 <= i < ws.len() && is_lazy_value(
                (#[trigger] ws[i]).1,
            ) implies is_settled(after.lazy, ws[i].0) by {
                if ws[i].0 != vm.beneficiary_location_hash {
                    assert(writes[i] == ws[i]);
                }
            }
            let gone = before.writes[tx_version.tx_idx as int].difference(locations(ws));
            let base = cleared(before.data, tx_version.tx_idx, gone);
            assert forall|l: MemoryLocationHash, t: TxIdx|
                after.data.contains_key(l) && #[trigger] after.data[l].contains_key(t)
                    && is_lazy_entry(after.data[l][t]) implies is_settled(after.lazy, l) by {
                lemma_written_at(base, tx_version, ws, l);
                if locations(ws).contains(l) && t == tx_version.tx_idx {
                    lemma_last_value_is_written(ws, l);
                } else {
                    assert(before.data.contains_key(l) && before.data[l].contains_key(t));
                }
            }
        },
    }
}

/// An abort leaves nothing that is only added to a balance and not settled.
pub proof fn law_aborts_leave_lazy_values_settled(memory: MvMemoryView, tx_idx: TxIdx)
    requires
        settles_lazy(memory),
    ensures
        settles_lazy(memory.aborted(tx_idx)),
{
    let after = memory.aborted(tx_idx);
    assert forall|l: MemoryLocationHash, t: TxIdx|
        after.data.contains_key(l) && #[trigger] after.data[l].contains_key(t) && is_lazy_entry(
            after.data[l][t],
        ) implies is_settled(after.lazy, l) by {
        assert(memory.data[l].contains_key(t));
    }
}

/// The reward of a beneficiary that a transaction did not write to is left to be added to its
/// balance.
pub proof fn law_rewards_are_left_to_be_added(
    vm: Vm,
    before: MvMemoryView,
    tx_version: TxVersion,
    tx: TxEnv,
    is_lazy: bool,
    read: AccountsRead,
    reads: Map<MemoryLocationHash, Seq<ReadOrigin>>,
    outcome: RunOutcome,
    after: MvMemoryView,
    r: Result<VmExecutionResult, VmExecutionError>,
)
    requires
        tx_version.tx_idx < before.writes.len(),
        vm.ended(before, tx_version, tx, is_lazy, read, reads, outcome, after, r),
        !locations(state_writes(outcome.accounts(), read, vm.context_of(tx, is_lazy))).contains(
            vm.beneficiary_location_hash,
        ),
    ensures
        r is Ok,
        after.data.contains_key(vm.beneficiary_location_hash),
        after.data[vm.beneficiary_location_hash].contains_key(tx_version.tx_idx),
        after.data[vm.beneficiary_location_hash][tx_version.tx_idx] == MemoryEntry::Data(
            tx_version.tx_incarnation,
            MemoryValue::LazyRecipient(
                word(
                    reward(
                        tx,
                        vm.block_env.basefee,
                        vm.eip_1559_enabled,
                        outcome.result().gas_used,
                    ),
                ),
            ),
        ),
{
    let location = vm.beneficiary_location_hash;
    let state = outcome.accounts();
    let ws = vm.write_set(tx, is_lazy, read, state, outcome.result().gas_used)->0;
    let gone = before.writes[tx_version.tx_idx as int].difference(locations(ws));
    let base = cleared(before.data, tx_version.tx_idx, gone);
    assert(ws[ws.len() - 1].0 == location);
    lemma_written_at(base, tx_version, ws, location);
}

/// Whether the accounts hold the address with the balance and the nonce. An empty account may be
/// gone.
pub open spec fn holds_account(
    state: Transitions,
    address: Address,
    balance: int,
    nonce: u64,
) -> bool {
    state.contains_key(address) && match state[address] {
        Some(account) => account.balance@ == balance && account.nonce == nonce,
        None => balance == 0 && nonce == 0,
    }
}

/// Whether every entry adds to a balance.
pub open spec fn only_adds(entries: Seq<(TxIdx, MemoryEntry)>) -> bool {
    forall|j: int|
        0 <= j < entries.len() ==> ((#[trigger] entries[j]).1 matches MemoryEntry::Data(
            _,
            MemoryValue::LazyRecipient(_),
        ))
}

spec fn agree_at(a: Seq<Transitions>, b: Seq<Transitions>, address: Address) -> bool {
    &&& a.len() == b.len()
    &&& forall|t: int|
        0 <= t < a.len() ==> (#[trigger] a[t]).contains_key(address) == b[t].contains_key(address)
            && (a[t].contains_key(address) ==> a[t][address] == b[t][address])
}

/// Settling an account leaves the other accounts alone.
proof fn lemma_others_stay(
    of: Settling,
    txs: Seq<TxEnv>,
    entries: Seq<(TxIdx, MemoryEntry)>,
    i: nat,
    account: AccountBasic,
    states: Seq<Transitions>,
    other: Address,
)
    requires
        settled_from(of, txs, entries, i, account, states) is Ok,
        forall|j: int| 0 <= j < entries.len() ==> (#[trigger] entries[j]).0 < states.len(),
        other != of.address,
    ensures
        agree_at(
            settled_from(of, txs, entries, i, account, states)->Ok_0,
            states,
            other,
        ),
    decreases entries.len() - i,
{
    if i < entries.len() {
        let (tx_idx, entry) = entries[i as int];
        let next = after_entry(account, entry, txs[tx_idx as int])->Ok_0;
        let updated = states.update(
            tx_idx as int,
            with_settled(
                states[tx_idx as int],
                of.address,
                next,
                of.code_hash,
                of.code,
                of.eip_161_enabled,
            ),
        );
        lemma_others_stay(of, txs, entries, i + 1, next, updated, other);
        let settled = settled_from(of, txs, entries, i + 1, next, updated)->Ok_0;
        assert forall|t: int| 0 <= t < settled.len() implies (
        #[trigger] settled[t]).contains_key(other) == states[t].contains_key(other) && (
        settled[t].contains_key(other) ==> settled[t][other] == states[t][other]) by {
            assert(updated[t].contains_key(other) == states[t].contains_key(other));
        }
    }
}

/// A balance that is only added to never falls.
proof fn lemma_adds_up(start: int, entries: Seq<(TxIdx, MemoryEntry)>, n: nat)
    requires
        only_adds(entries),
        n <= entries.len(),
    ensures
        start <= balance_after(start, entries, n),
    decreases n,
{
    if n > 0 {
        lemma_adds_up(start, entries, (n - 1) as nat);
        let last = entries[n - 1].1;
        assert(last is Data);
        lemma_u256_bounds(last->Data_1->LazyRecipient_0);
    }
}

/// The results get the account as it is after each entry.
proof fn lemma_paid_from(
    of: Settling,
    txs: Seq<TxEnv>,
    entries: Seq<(TxIdx, MemoryEntry)>,
    i: nat,
    start: AccountBasic,
    account: AccountBasic,
    states: Seq<Transitions>,
)
    requires
        settled_from(of, txs, entries, i, account, states) is Ok,
        only_adds(entries),
        i <= entries.len(),
        forall|j: int| 0 <= j < entries.len() ==> (#[trigger] entries[j]).0 < states.len(),
        forall|j: int, k: int|
            0 <= j < k < entries.len() ==> (#[trigger] entries[j]).0 < (#[trigger] entries[k]).0,
        account.balance@ == clamp(balance_after(start.balance@, entries, i), 0, u256_max()),
        account.nonce == start.nonce,
    ensures
        ({
            let settled = settled_from(of, txs, entries, i, account, states)->Ok_0;
            &&& settled.len() == states.len()
            &&& forall|t: int|
                0 <= t < states.len() && (forall|k: int|
                    i <= k < entries.len() ==> (#[trigger] entries[k]).0 != t)
                    ==> #[trigger] settled[t] == states[t]
            &&& forall|k: int|
                i <= k < entries.len() ==> holds_account(
                    settled[(#[trigger] entries[k]).0 as int],
                    of.address,
                    clamp(balance_after(start.balance@, entries, (k + 1) as nat), 0, u256_max()),
                    start.nonce,
                )
        }),
    decreases entries.len() - i,
{
    if i < entries.len() {
        let (tx_idx, entry) = entries[i as int];
        let add = entry->Data_1->LazyRecipient_0;
        assert(entries[i as int].1 == entry);
        let next = AccountBasic {
            balance: word(clamp(account.balance@ + add@, 0, u256_max())),
            nonce: account.nonce,
        };
        lemma_u256_bounds(add);
        lemma_u256_bounds(start.balance);
        lemma_adds_up(start.balance@, entries, i);
        lemma_word(clamp(account.balance@ + add@, 0, u256_max()));
        assert(balance_after(start.balance@, entries, i + 1) == balance_after(
            start.balance@,
            entries,
            i,
        ) + add@);
        let updated = states.update(
            tx_idx as int,
            with_settled(
                states[tx_idx as int],
                of.address,
                next,
                of.code_hash,
                of.code,
                of.eip_161_enabled,
            ),
        );
        lemma_paid_from(of, txs, entries, i + 1, start, next, updated);
        let settled = settled_from(of, txs, entries, i + 1, next, updated)->Ok_0;
        assert(settled[tx_idx as int] == updated[tx_idx as int]);
        assert forall|t: int|
            0 <= t < states.len() && (forall|k: int|
                i <= k < entries.len() ==> (#[trigger] entries[k]).0 != t) implies
            #[trigger] settled[t] == states[t] by {
            assert(entries[i as int].0 != t);
        }
        assert forall|k: int| i <= k < entries.len() implies holds_account(
            settled[(#[trigger] entries[k]).0 as int],
            of.address,
            clamp(balance_after(start.balance@, entries, (k + 1) as nat), 0, u256_max()),
            start.nonce,
        ) by {
            if k == i {
                assert(k + 1 == i + 1);
            }
        }
    }
}

/// Settling accounts leaves the accounts alone that are not among them.
proof fn lemma_unlisted_stay<S: Storage>(
    storage: &S,
    eip_161_enabled: bool,
    txs: Seq<TxEnv>,
    data: MemoryData,
    addresses: Seq<Address>,
    states: Seq<Transitions>,
    settled: Seq<Transitions>,
    other: Address,
)
    requires
        block_settled(storage, eip_161_enabled, txs, data, addresses, states, Ok(settled)),
        txs.len() == states.len() <= usize::MAX,
        !addresses.contains(other),
    ensures
        agree_at(settled, states, other),
    decreases addresses.len(),
{
    if addresses.len() > 0 {
        let first = addresses.first();
        let rest = addresses.drop_first();
        assert(addresses[0] == first);
        assert(!rest.contains(other)) by {
            if rest.contains(other) {
                let i = choose|i: int| 0 <= i < rest.len() && rest[i] == other;
                assert(addresses[i + 1] == other);
            }
        }
        let location = location_hash(MemoryLocation::Basic(first));
        if data.contains_key(location) {
            let entries = ascending(data[location], txs.len());
            let next = choose|next: Result<Seq<Transitions>, PevmError>| #[trigger]
                address_settled(storage, first, eip_161_enabled, txs, entries, states, next)
                    && match next {
                    Err(e) => false,
                    Ok(s) => block_settled(
                        storage,
                        eip_161_enabled,
                        txs,
                        data,
                        rest,
                        s,
                        Ok(settled),
                    ),
                };
            let of = lemma_address_settled(
                storage,
                first,
                eip_161_enabled,
                txs,
                entries,
                states,
                next->Ok_0,
            );
            lemma_ascending(data[location], txs.len());
            lemma_others_stay(of.0, txs, entries, 0, of.1, states, other);
            lemma_unlisted_stay(
                storage,
                eip_161_enabled,
                txs,
                data,
                rest,
                next->Ok_0,
                settled,
                other,
            );
        } else {
            lemma_unlisted_stay(
                storage,
                eip_161_enabled,
                txs,
                data,
                rest,
                states,
                settled,
                other,
            );
        }
    }
}

/// An account that could be settled was settled from a start that it may have had.
proof fn lemma_address_settled<S: Storage>(
    storage: &S,
    address: Address,
    eip_161_enabled: bool,
    txs: Seq<TxEnv>,
    entries: Seq<(TxIdx, MemoryEntry)>,
    states: Seq<Transitions>,
    settled: Seq<Transitions>,
) -> (r: (Settling, AccountBasic))
    requires
        address_settled(storage, address, eip_161_enabled, txs, entries, states, Ok(settled)),
    ensures
        r.0.address == address,
        may_start(storage, address, entries, r.1),
        settled_from(r.0, txs, entries, 0, r.1, states) == Ok::<_, PevmError>(settled),
{
    let (start, code_hash) = choose|start: AccountBasic, code_hash: Result<
        Option<B256>,
        String,
    >|
        #![trigger
            may_start(storage, address, entries, start),
            answers_code_hash(storage, address, code_hash)]
        may_start(storage, address, entries, start) && answers_code_hash(
            storage,
            address,
            code_hash,
        ) && match code_hash {
            Err(e) => false,
            Ok(None) => {
                let of = Settling { address, code_hash: None, code: None, eip_161_enabled };
                settled_from(of, txs, entries, 0, start, states) == Ok::<_, PevmError>(settled)
            },
            Ok(Some(h)) => exists|code: Result<Option<Arc<EvmCode>>, String>| #[trigger]
                answers_code(storage, h, code) && match code {
                    Err(e) => false,
                    Ok(c) => {
                        let of = Settling {
                            address,
                            code_hash: Some(h),
                            code: c,
                            eip_161_enabled,
                        };
                        settled_from(of, txs, entries, 0, start, states) == Ok::<_, PevmError>(
                            settled,
                        )
                    },
                },
        };
    match code_hash->Ok_0 {
        None => (Settling { address, code_hash: None, code: None, eip_161_enabled }, start),
        Some(h) => {
            let code = choose|code: Result<Option<Arc<EvmCode>>, String>| #[trigger]
                answers_code(storage, h, code) && match code {
                    Err(e) => false,
                    Ok(c) => {
                        let of = Settling {
                            address,
                            code_hash: Some(h),
                            code: c,
                            eip_161_enabled,
                        };
                        settled_from(of, txs, entries, 0, start, states) == Ok::<_, PevmError>(
                            settled,
                        )
                    },
                };
            (
                Settling { address, code_hash: Some(h), code: code->Ok_0, eip_161_enabled },
                start,
            )
        },
    }
}

/// The results of a block that was settled hold an account that was only added to with what it had
/// at the start of the block and all that was added up to each transaction, as far as a word can
/// hold it. So the beneficiary ends with the sum of its rewards.
pub proof fn law_what_was_added_is_paid<S: Storage>(
    storage: &S,
    eip_161_enabled: bool,
    txs: Seq<TxEnv>,
    data: MemoryData,
    addresses: Seq<Address>,
    states: Seq<Transitions>,
    settled: Seq<Transitions>,
    address: Address,
)
    requires
        block_settled(storage, eip_161_enabled, txs, data, addresses, states, Ok(settled)),
        txs.len() == states.len() <= usize::MAX,
        addresses.no_duplicates(),
        addresses.contains(address),
        data.contains_key(location_hash(MemoryLocation::Basic(address))),
        only_adds(
            ascending(data[location_hash(MemoryLocation::Basic(address))], txs.len()),
        ),
    ensures
        ({
            let entries = ascending(
                data[location_hash(MemoryLocation::Basic(address))],
                txs.len(),
            );
            exists|start: AccountBasic| #[trigger]
                may_start(storage, address, entries, start) && forall|k: int|
                    0 <= k < entries.len() ==> holds_account(
                        settled[(#[trigger] entries[k]).0 as int],
                        address,
                        clamp(
                            balance_after(start.balance@, entries, (k + 1) as nat),
                            0,
                            u256_max(),
                        ),
                        start.nonce,
                    )
        }),
    decreases addresses.len(),
{
    let first = addresses.first();
    let rest = addresses.drop_first();
    let location = location_hash(MemoryLocation::Basic(first));
    let entries = ascending(data[location_hash(MemoryLocation::Basic(address))], txs.len());
    assert(addresses[0] == first);
    assert(rest.no_duplicates()) by {
        assert forall|i: int, j: int| 0 <= i < rest.len() && 0 <= j < rest.len() && i
            != j implies rest[i] != rest[j] by {
            assert(addresses[i + 1] != addresses[j + 1]);
        }
    }
    if data.contains_key(location) {
        let of_first = ascending(data[location], txs.len());
        let next = choose|next: Result<Seq<Transitions>, PevmError>| #[trigger]
            address_settled(storage, first, eip_161_enabled, txs, of_first, states, next)
                && match next {
                Err(e) => false,
                Ok(s) => block_settled(
                    storage,
                    eip_161_enabled,
                    txs,
                    data,
                    rest,
                    s,
                    Ok(settled),
                ),
            };
        let (of, start) = lemma_address_settled(
            storage,
            first,
            eip_161_enabled,
            txs,
            of_first,
            states,
            next->Ok_0,
        );
        if first == address {
            assert(!rest.contains(address)) by {
                if rest.contains(address) {
                    let i = choose|i: int| 0 <= i < rest.len() && rest[i] == address;
                    assert(addresses[i + 1] == addresses[0]);
                }
            }
            lemma_ascending(data[location], txs.len());
            lemma_u256_bounds(start.balance);
            lemma_paid_from(of, txs, entries, 0, start, start, states);
            lemma_unlisted_stay(
                storage,
                eip_161_enabled,
                txs,
                data,
                rest,
                next->Ok_0,
                settled,
                address,
            );
            assert forall|k: int| 0 <= k < entries.len() implies holds_account(
                settled[(#[trigger] entries[k]).0 as int],
                address,
                clamp(balance_after(start.balance@, entries, (k + 1) as nat), 0, u256_max()),
                start.nonce,
            ) by {
                let t = entries[k].0 as int;
                assert(settled[t].contains_key(address) == (next->Ok_0)[t].contains_key(address));
            }
        } else {
            lemma_ascending(data[location], txs.len());
            lemma_others_stay(of, txs, of_first, 0, start, states, address);
            lemma_tail_contains(addresses, address);
            law_what_was_added_is_paid(
                storage,
                eip_161_enabled,
                txs,
                data,
                rest,
                next->Ok_0,
                settled,
                address,
            );
        }
    } else {
        lemma_tail_contains(addresses, address);
        law_what_was_added_is_paid(
            storage,
            eip_161_enabled,
            txs,
            data,
            rest,
            states,
            settled,
            address,
        );
    }
}

proof fn lemma_tail_contains(addresses: Seq<Address>, address: Address)
    requires
        addresses.contains(address),
        addresses.first() != address,
    ensures
        addresses.drop_first().contains(address),
{
    let i = choose|i: int| 0 <= i < addresses.len() && addresses[i] == address;
    assert(addresses.drop_first()[i - 1] == address);
}

/// The entries from the earliest to the latest are those of different transactions of the block.
proof fn lemma_ascending(m: Map<TxIdx, MemoryEntry>, block_size: nat)
    requires
        block_size <= usize::MAX,
    ensures
        ({
            let entries = ascending(m, block_size);
            &&& forall|j: int| 0 <= j < entries.len() ==> (#[trigger] entries[j]).0 < block_size
            &&& forall|j: int, k: int|
                0 <= j < k < entries.len() ==> (#[trigger] entries[j]).0 < (
                #[trigger] entries[k]).0
        }),
{
    lemma_descending_members(m, block_size);
    let below = descending(m, block_size);
    let entries = ascending(m, block_size);
    assert forall|j: int| 0 <= j < entries.len() implies (#[trigger] entries[j]).0 < block_size by {
        assert(entries[j] == below[below.len() - 1 - j]);
    }
    assert forall|j: int, k: int| 0 <= j < k < entries.len() implies (#[trigger] entries[j]).0 < (
    #[trigger] entries[k]).0 by {
        assert(entries[j] == below[below.len() - 1 - j]);
        assert(entries[k] == below[below.len() - 1 - k]);
    }
}

/// A recipient gains what an entry adds. A sender has to have what its transaction may cost at most, and
/// then loses what the entry takes and counts one more nonce; else it is refused, with both amounts. A
/// full account replaces what was there. Nothing else can be settled.
pub proof fn law_entries_change_accounts(account: AccountBasic, entry: MemoryEntry, tx: TxEnv)
    requires
        tx.gas_limit * tx.gas_price + tx.value@ <= u256_max(),
    ensures
        match entry {
            MemoryEntry::Data(_, MemoryValue::Basic(basic)) => after_entry(account, entry, tx)
                == Ok::<_, PevmError>(basic),
            MemoryEntry::Data(_, MemoryValue::LazyRecipient(add)) => after_entry(
                account,
                entry,
                tx,
            ) matches Ok(now) && now.nonce == account.nonce && (account.balance@ + add@
                <= u256_max() ==> now.balance@ == account.balance@ + add@),
            MemoryEntry::Data(_, MemoryValue::LazySender(sub)) => {
                let cost = tx.gas_limit * tx.gas_price + tx.value@;
                match after_entry(account, entry, tx) {
                    Ok(now) => {
                        &&& account.balance@ >= cost
                        &&& account.balance@ >= sub@ ==> now.balance@ + sub@ == account.balance@
                        &&& account.nonce < u64::MAX ==> now.nonce == account.nonce + 1
                    },
                    Err(e) => {
                        &&& account.balance@ < cost
                        &&& e matches PevmError::ExecutionError(
                            ExecutionError::Transaction(
                                InvalidTransaction::LackOfFundForMaxFee { fee, balance },
                            ),
                        ) && fee@ == cost && balance == account.balance
                    },
                }
            },
            _ => after_entry(account, entry, tx) is Err,
        },
{
    lemma_u256_bounds(account.balance);
    lemma_u256_bounds(tx.value);
    assert(0 <= tx.gas_limit * tx.gas_price) by (nonlinear_arith)
        requires
            tx.gas_limit >= 0,
            tx.gas_price >= 0,
    ;
    match entry {
        MemoryEntry::Data(_, MemoryValue::LazyRecipient(add)) => {
            lemma_u256_bounds(add);
            lemma_word(clamp(account.balance@ + add@, 0, u256_max()));
        },
        MemoryEntry::Data(_, MemoryValue::LazySender(sub)) => {
            lemma_u256_bounds(sub);
            lemma_word(clamp(account.balance@ - sub@, 0, u256_max()));
            lemma_word(tx.gas_limit * tx.gas_price + tx.value@);
        },
        _ => {},
    }
}

/// A sender passes exactly where its nonce after the transaction is one past that of the transaction, and
/// nobody else is looked at.
pub proof fn law_senders_count_their_nonce(
    account: AccountBasic,
    address: Address,
    tx_idx: TxIdx,
    tx: TxEnv,
)
    ensures
        nonce_error(account, address, tx_idx, tx) is None <==> tx.caller != address || account.nonce
            == tx.nonce + 1,
        nonce_error(account, address, tx_idx, tx) matches Some(
            PevmError::NonceMismatch { tx_idx: at, tx_nonce, executed_nonce },
        ) ==> at == tx_idx && tx_nonce == tx.nonce && executed_nonce + 1 == account.nonce,
{
}

/// A result with a settled account holds it with its balance and nonce, and is else as it was: an account
/// that it held keeps its code and its slots, one that it did not hold has the code that storage holds
/// and no slots. An empty account without code is gone where empty accounts are cleared.
pub proof fn law_settled_accounts_are_put_in_place(
    state: Transitions,
    address: Address,
    account: AccountBasic,
    code_hash: Option<B256>,
    code: Option<Arc<EvmCode>>,
    eip_161_enabled: bool,
)
    ensures
        ({
            let after = with_settled(state, address, account, code_hash, code, eip_161_enabled);
            &&& after.dom() == state.dom().insert(address)
            &&& forall|a: Address| #[trigger]
                state.contains_key(a) && a != address ==> after[a] == state[a]
            &&& after[address] is None <==> eip_161_enabled && code_hash is None && account.nonce
                == 0 && account.balance@ == 0
            &&& after[address] matches Some(held) ==> {
                &&& held.balance == account.balance
                &&& held.nonce == account.nonce
                &&& if state.contains_key(address) && state[address] is Some {
                    held.code_hash == (state[address]->0).code_hash && held.code == (
                    state[address]->0).code && held.storage == (state[address]->0).storage
                } else {
                    held.code_hash == code_hash && held.code == code && held.storage.dom()
                        == Set::<U256>::empty()
                }
            }
        }),
{
    let after = with_settled(state, address, account, code_hash, code, eip_161_enabled);
    assert(after.dom() =~= state.dom().insert(address));
    assert(Map::<U256, U256>::empty().dom() =~= Set::<U256>::empty());
}

/// An account starts the block as storage holds it, or empty where storage holds none or fails; one whose
/// first entry is a full account need not be asked for.
pub proof fn law_accounts_start_from_storage<S: Storage>(
    storage: &S,
    address: Address,
    entries: Seq<(TxIdx, MemoryEntry)>,
    start: AccountBasic,
)
    requires
        may_start(storage, address, entries, start),
        entries.len() == 0 || !(entries[0].1 matches MemoryEntry::Data(
            _,
            MemoryValue::Basic(_),
        )),
    ensures
        exists|reply: Result<Option<AccountBasic>, String>| #[trigger]
            answers_basic(storage, address, reply) && match reply {
                Ok(Some(held)) => start.balance@ == held.balance@ && start.nonce == held.nonce,
                _ => start.balance@ == 0 && start.nonce == 0,
            },
{
    lemma_word(0);
}

/// Every result whose transaction has left an entry holds the account as it is after the entry, and every
/// sender has a nonce one past that of its transaction.
pub proof fn law_results_hold_the_account_after_each_entry(
    of: Settling,
    txs: Seq<TxEnv>,
    entries: Seq<(TxIdx, MemoryEntry)>,
    i: nat,
    start: AccountBasic,
    account: AccountBasic,
    states: Seq<Transitions>,
)
    requires
        settled_from(of, txs, entries, i, account, states) is Ok,
        i <= entries.len(),
        forall|j: int| 0 <= j < entries.len() ==> (#[trigger] entries[j]).0 < states.len(),
        forall|j: int, k: int|
            0 <= j < k < entries.len() ==> (#[trigger] entries[j]).0 < (#[trigger] entries[k]).0,
        account_after(start, entries, txs, i) == Ok::<_, PevmError>(account),
    ensures
        ({
            let settled = settled_from(of, txs, entries, i, account, states)->Ok_0;
            &&& settled.len() == states.len()
            &&& forall|t: int|
                0 <= t < states.len() && (forall|k: int|
                    i <= k < entries.len() ==> (#[trigger] entries[k]).0 != t)
                    ==> #[trigger] settled[t] == states[t]
            &&& forall|k: int|
                i <= k < entries.len() ==> (account_after(
                    start,
                    entries,
                    txs,
                    (k + 1) as nat,
                ) matches Ok(now) && holds_account(
                    settled[(#[trigger] entries[k]).0 as int],
                    of.address,
                    now.balance@,
                    now.nonce,
                ) && (txs[entries[k].0 as int].caller == of.address ==> now.nonce
                    == txs[entries[k].0 as int].nonce + 1))
        }),
    decreases entries.len() - i,
{
    if i < entries.len() {
        let (tx_idx, entry) = entries[i as int];
        let tx = txs[tx_idx as int];
        let next = after_entry(account, entry, tx)->Ok_0;
        assert(account_after(start, entries, txs, i + 1) == Ok::<_, PevmError>(next));
        let updated = states.update(
            tx_idx as int,
            with_settled(
                states[tx_idx as int],
                of.address,
                next,
                of.code_hash,
                of.code,
                of.eip_161_enabled,
            ),
        );
        law_results_hold_the_account_after_each_entry(
            of,
            txs,
            entries,
            i + 1,
            start,
            next,
            updated,
        );
        let settled = settled_from(of, txs, entries, i + 1, next, updated)->Ok_0;
        assert(settled[tx_idx as int] == updated[tx_idx as int]);
        assert forall|t: int|
            0 <= t < states.len() && (forall|k: int|
                i <= k < entries.len() ==> (#[trigger] entries[k]).0 != t) implies
            #[trigger] settled[t] == states[t] by {
            assert(entries[i as int].0 != t);
        }
    }
}

/// An account that is settled is settled with the code hash and the code that storage holds of it.
pub proof fn law_settled_code_is_that_of_storage<S: Storage>(
    storage: &S,
    address: Address,
    eip_161_enabled: bool,
    txs: Seq<TxEnv>,
    entries: Seq<(TxIdx, MemoryEntry)>,
    states: Seq<Transitions>,
    settled: Seq<Transitions>,
)
    requires
        address_settled(storage, address, eip_161_enabled, txs, entries, states, Ok(settled)),
    ensures
        exists|of: Settling, start: AccountBasic|
            {
                &&& #[trigger] settled_from(of, txs, entries, 0, start, states) == Ok::<
                    _,
                    PevmError,
                >(settled)
                &&& of.address == address
                &&& of.eip_161_enabled == eip_161_enabled
                &&& may_start(storage, address, entries, start)
                &&& answers_code_hash(storage, address, Ok(of.code_hash))
                &&& match of.code_hash {
                    None => of.code is None,
                    Some(h) => answers_code(storage, h, Ok(of.code)),
                }
            },
{
    let (start, code_hash) = choose|start: AccountBasic, code_hash: Result<
        Option<B256>,
        String,
    >|
        #![trigger
            may_start(storage, address, entries, start),
            answers_code_hash(storage, address, code_hash)]
        may_start(storage, address, entries, start) && answers_code_hash(
            storage,
            address,
            code_hash,
        ) && match code_hash {
            Err(e) => false,
            Ok(None) => {
                let of = Settling { address, code_hash: None, code: None, eip_161_enabled };
                settled_from(of, txs, entries, 0, start, states) == Ok::<_, PevmError>(settled)
            },
            Ok(Some(h)) => exists|code: Result<Option<Arc<EvmCode>>, String>| #[trigger]
                answers_code(storage, h, code) && match code {
                    Err(e) => false,
                    Ok(c) => {
                        let of = Settling {
                            address,
                            code_hash: Some(h),
                            code: c,
                            eip_161_enabled,
                        };
                        settled_from(of, txs, entries, 0, start, states) == Ok::<_, PevmError>(
                            settled,
                        )
                    },
                },
        };
    match code_hash->Ok_0 {
        None => {
            let of = Settling { address, code_hash: None, code: None, eip_161_enabled };
            assert(settled_from(of, txs, entries, 0, start, states) == Ok::<_, PevmError>(settled));
        },
        Some(h) => {
            let code = choose|code: Result<Option<Arc<EvmCode>>, String>| #[trigger]
                answers_code(storage, h, code) && match code {
                    Err(e) => false,
                    Ok(c) => {
                        let of = Settling {
                            address,
                            code_hash: Some(h),
                            code: c,
                            eip_161_enabled,
                        };
                        settled_from(of, txs, entries, 0, start, states) == Ok::<_, PevmError>(
                            settled,
                        )
                    },
                };
            let of = Settling {
                address,
                code_hash: Some(h),
                code: code->Ok_0,
                eip_161_enabled,
            };
            assert(settled_from(of, txs, entries, 0, start, states) == Ok::<_, PevmError>(settled));
        },
    }
}

/// Only a full account and what is added to one can be settled.
pub proof fn law_only_balances_are_settled(entry: MemoryEntry)
    ensures
        settles(entry) <==> (entry matches MemoryEntry::Data(_, value) && (value is Basic
            || value is LazyRecipient || value is LazySender)),
{
}

/// Every account that is listed and stands in the memory is settled: each result whose transaction has
/// left an entry holds it as it is after the entry, from what it had at the start of the block on, and
/// every sender has a nonce one past that of its transaction.
pub proof fn law_every_listed_account_is_settled<S: Storage>(
    storage: &S,
    eip_161_enabled: bool,
    txs: Seq<TxEnv>,
    data: MemoryData,
    addresses: Seq<Address>,
    states: Seq<Transitions>,
    settled: Seq<Transitions>,
    address: Address,
)
    requires
        block_settled(storage, eip_161_enabled, txs, data, addresses, states, Ok(settled)),
        txs.len() == states.len() <= usize::MAX,
        addresses.no_duplicates(),
        addresses.contains(address),
        data.contains_key(location_hash(MemoryLocation::Basic(address))),
    ensures
        ({
            let entries = ascending(
                data[location_hash(MemoryLocation::Basic(address))],
                txs.len(),
            );
            exists|start: AccountBasic| #[trigger]
                may_start(storage, address, entries, start) && forall|k: int|
                    0 <= k < entries.len() ==> (account_after(
                        start,
                        entries,
                        txs,
                        (k + 1) as nat,
                    ) matches Ok(now) && holds_account(
                        settled[(#[trigger] entries[k]).0 as int],
                        address,
                        now.balance@,
                        now.nonce,
                    ) && (txs[entries[k].0 as int].caller == address ==> now.nonce
                        == txs[entries[k].0 as int].nonce + 1))
        }),
    decreases addresses.len(),
{
    let first = addresses.first();
    let rest = addresses.drop_first();
    let location = location_hash(MemoryLocation::Basic(first));
    let entries = ascending(data[location_hash(MemoryLocation::Basic(address))], txs.len());
    assert(addresses[0] == first);
    assert(rest.no_duplicates()) by {
        assert forall|i: int, j: int| 0 <= i < rest.len() && 0 <= j < rest.len() && i
            != j implies rest[i] != rest[j] by {
            assert(addresses[i + 1] != addresses[j + 1]);
        }
    }
    if data.contains_key(location) {
        let of_first = ascending(data[location], txs.len());
        let next = choose|next: Result<Seq<Transitions>, PevmError>| #[trigger]
            address_settled(storage, first, eip_161_enabled, txs, of_first, states, next)
                && match next {
                Err(e) => false,
                Ok(s) => block_settled(
                    storage,
                    eip_161_enabled,
                    txs,
                    data,
                    rest,
                    s,
                    Ok(settled),
                ),
            };
        let (of, start) = lemma_address_settled(
            storage,
            first,
            eip_161_enabled,
            txs,
            of_first,
            states,
            next->Ok_0,
        );
        if first == address {
            assert(!rest.contains(address)) by {
                if rest.contains(address) {
                    let i = choose|i: int| 0 <= i < rest.len() && rest[i] == address;
                    assert(addresses[i + 1] == addresses[0]);
                }
            }
            lemma_ascending(data[location], txs.len());
            law_results_hold_the_account_after_each_entry(
                of,
                txs,
                entries,
                0,
                start,
                start,
                states,
            );
            lemma_unlisted_stay(
                storage,
                eip_161_enabled,
                txs,
                data,
                rest,
                next->Ok_0,
                settled,
                address,
            );
            assert forall|k: int| 0 <= k < entries.len() implies (account_after(
                start,
                entries,
                txs,
                (k + 1) as nat,
            ) matches Ok(now) && holds_account(
                settled[(#[trigger] entries[k]).0 as int],
                address,
                now.balance@,
                now.nonce,
            ) && (txs[entries[k].0 as int].caller == address ==> now.nonce
                == txs[entries[k].0 as int].nonce + 1)) by {
                let t = entries[k].0 as int;
                assert(settled[t].contains_key(address) == (next->Ok_0)[t].contains_key(address));
            }
        } else {
            lemma_ascending(data[location], txs.len());
            lemma_others_stay(of, txs, of_first, 0, start, states, address);
            lemma_tail_contains(addresses, address);
            law_every_listed_account_is_settled(
                storage,
                eip_161_enabled,
                txs,
                data,
                rest,
                next->Ok_0,
                settled,
                address,
            );
        }
    } else {
        lemma_tail_contains(addresses, address);
        law_every_listed_account_is_settled(
            storage,
            eip_161_enabled,
            txs,
            data,
            rest,
            states,
            settled,
            address,
        );
    }
}

} // verus!
