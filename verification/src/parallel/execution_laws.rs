//! What later transactions see of an execution.

use crate::evm::tx_env::TxEnv;
use crate::parallel::history::closest_before;
use crate::parallel::laws::law_reads_see_recorded_writes;
use crate::parallel::memory::{
    has_flags, location_hash, AccountBasic, FinishExecFlags, MemoryEntry, MemoryLocation,
    MemoryLocationHash, MemoryValue, ReadOrigin, TxIdx, TxVersion, NEED_VALIDATION,
    WROTE_NEW_LOCATION,
};
use crate::parallel::mv_memory::{
    cleared, entries_at, lemma_written_at, locations, MvMemoryView,
};
use crate::parallel::settlement_laws::{lemma_first_write, lemma_last_value_is_written};
use crate::parallel::state::{RunOutcome, SlotChange, StateAccount};
use crate::parallel::storage::EvmCode;
use crate::parallel::vm::{
    codes_after, is_first_write, on_read_error, on_run_error, reward, reward_price, slot_writes,
    state_writes, AccountsRead, ExecutionError, TxContext, Vm, VmExecutionError,
    VmExecutionResult,
};
use crate::parallel::vm_db::{code_hash_lookup, slot_lookup, ReadError};
use crate::primitives::{
    clamp, keccak_empty_spec, lemma_u256_bounds, lemma_word, u256_max, word, Address, TxKind, B256,
    U256,
};
use std::sync::Arc;
use vstd::prelude::*;

verus! {

/// Every change of a slot is written under the location of the slot, with the value that the slot is
/// left with, and nothing else is written.
pub proof fn law_changed_slots_are_written(address: Address, slots: Seq<SlotChange>)
    ensures
        forall|j: int|
            0 <= j < slots.len() && (#[trigger] slots[j]).original != slots[j].present
                ==> slot_writes(address, slots).contains(
                (
                    location_hash(MemoryLocation::Storage(address, slots[j].slot)),
                    MemoryValue::Storage(slots[j].present),
                ),
            ),
        forall|k: int|
            0 <= k < slot_writes(address, slots).len() ==> exists|j: int|
                {
                    &&& 0 <= j < slots.len()
                    &&& (#[trigger] slots[j]).original != slots[j].present
                    &&& #[trigger] slot_writes(address, slots)[k] == (
                        location_hash(MemoryLocation::Storage(address, slots[j].slot)),
                        MemoryValue::Storage(slots[j].present),
                    )
                },
    decreases slots.len(),
{
    if slots.len() > 0 {
        let rest = slots.drop_last();
        let all = slot_writes(address, slots);
        let earlier = slot_writes(address, rest);
        law_changed_slots_are_written(address, rest);
        assert forall|j: int|
            0 <= j < slots.len() && (#[trigger] slots[j]).original
                != slots[j].present implies all.contains(
            (
                location_hash(MemoryLocation::Storage(address, slots[j].slot)),
                MemoryValue::Storage(slots[j].present),
            ),
        ) by {
            let write = (
                location_hash(MemoryLocation::Storage(address, slots[j].slot)),
                MemoryValue::Storage(slots[j].present),
            );
            if j < rest.len() {
                assert(rest[j] == slots[j]);
                let k = choose|k: int| 0 <= k < earlier.len() && earlier[k] == write;
                assert(all[k] == write);
            } else {
                assert(all.last() == write);
                assert(all[all.len() - 1] == write);
            }
        }
        assert forall|k: int| 0 <= k < all.len() implies exists|j: int|
            {
                &&& 0 <= j < slots.len()
                &&& (#[trigger] slots[j]).original != slots[j].present
                &&& #[trigger] all[k] == (
                    location_hash(MemoryLocation::Storage(address, slots[j].slot)),
                    MemoryValue::Storage(slots[j].present),
                )
            } by {
            if k < earlier.len() {
                assert(all[k] == earlier[k]);
                let j = choose|j: int|
                    {
                        &&& 0 <= j < rest.len()
                        &&& (#[trigger] rest[j]).original != rest[j].present
                        &&& earlier[k] == (
                            location_hash(MemoryLocation::Storage(address, rest[j].slot)),
                            MemoryValue::Storage(rest[j].present),
                        )
                    };
                assert(slots[j] == rest[j]);
            } else {
                assert(slots[slots.len() - 1] == slots.last());
            }
        }
    }
}

/// Every write of an account of a run is one of the run, and every write of a run is one of an
/// account.
pub proof fn law_runs_write_what_their_accounts_write(
    state: Seq<StateAccount>,
    read: AccountsRead,
    ctx: TxContext,
)
    ensures
        forall|i: int, k: int|
            0 <= i < state.len() && 0 <= k < state[i].writes(read, ctx).len() ==> state_writes(
                state,
                read,
                ctx,
            ).contains(#[trigger] state[i].writes(read, ctx)[k]),
        forall|k: int|
            0 <= k < state_writes(state, read, ctx).len() ==> exists|i: int|
                0 <= i < state.len() && (#[trigger] state[i]).writes(read, ctx).contains(
                    #[trigger] state_writes(state, read, ctx)[k],
                ),
    decreases state.len(),
{
    if state.len() > 0 {
        let rest = state.drop_last();
        let last = state.last().writes(read, ctx);
        let earlier = state_writes(rest, read, ctx);
        let all = state_writes(state, read, ctx);
        assert(all == earlier + last);
        law_runs_write_what_their_accounts_write(rest, read, ctx);
        assert forall|i: int, k: int|
            0 <= i < state.len() && 0 <= k < state[i].writes(read, ctx).len() implies all.contains(
            #[trigger] state[i].writes(read, ctx)[k],
        ) by {
            let write = state[i].writes(read, ctx)[k];
            if i < rest.len() {
                assert(rest[i] == state[i]);
                assert(earlier.contains(rest[i].writes(read, ctx)[k]));
                let x = choose|x: int| 0 <= x < earlier.len() && earlier[x] == write;
                assert(all[x] == write);
            } else {
                assert(all[earlier.len() + k] == write);
            }
        }
        assert forall|k: int| 0 <= k < all.len() implies exists|i: int|
            0 <= i < state.len() && (#[trigger] state[i]).writes(read, ctx).contains(
                #[trigger] all[k],
            ) by {
            if k < earlier.len() {
                assert(all[k] == earlier[k]);
                let i = choose|i: int|
                    0 <= i < rest.len() && (#[trigger] rest[i]).writes(read, ctx).contains(
                        earlier[k],
                    );
                assert(state[i] == rest[i]);
            } else {
                assert(all[k] == last[k - earlier.len()]);
                assert(state[state.len() - 1] == state.last());
                assert(state[state.len() - 1].writes(read, ctx).contains(all[k]));
            }
        }
    }
}

/// Whether no account is listed twice, and no slot of an account.
pub open spec fn listed_once(state: Seq<StateAccount>) -> bool {
    &&& forall|i: int, j: int|
        0 <= i < state.len() && 0 <= j < state.len() && i != j ==> (#[trigger] state[i]).address
            != (#[trigger] state[j]).address
    &&& forall|i: int| 0 <= i < state.len() ==> slots_once((#[trigger] state[i]).storage@)
}

/// Whether no slot is listed twice.
pub open spec fn slots_once(slots: Seq<SlotChange>) -> bool {
    forall|i: int, j: int|
        0 <= i < slots.len() && 0 <= j < slots.len() && i != j ==> (#[trigger] slots[i]).slot != (
        #[trigger] slots[j]).slot
}

/// Whether the location is one of an account of the run, or that of the beneficiary.
pub open spec fn is_location_of(
    state: Seq<StateAccount>,
    beneficiary: Address,
    location: MemoryLocation,
) -> bool {
    match location {
        MemoryLocation::Basic(a) => a == beneficiary || exists|i: int|
            0 <= i < state.len() && (#[trigger] state[i]).address == a,
        MemoryLocation::CodeHash(a) => exists|i: int|
            0 <= i < state.len() && (#[trigger] state[i]).address == a,
        MemoryLocation::Storage(a, s) => exists|i: int, j: int|
            0 <= i < state.len() && state[i].address == a && 0 <= j < state[i].storage@.len()
                && #[trigger] state[i].storage@[j].slot == s,
    }
}

/// Whether no other location of the run shares the hash of the location.
pub open spec fn stands_alone(
    state: Seq<StateAccount>,
    beneficiary: Address,
    location: MemoryLocation,
) -> bool {
    forall|other: MemoryLocation| #[trigger]
        is_location_of(state, beneficiary, other) && other != location ==> location_hash(other)
            != location_hash(location)
}

/// Whether a write of an account is one of those that it may make.
spec fn is_write_of(
    account: StateAccount,
    read: AccountsRead,
    ctx: TxContext,
    write: (MemoryLocationHash, MemoryValue),
) -> bool {
    ||| account.selfdestructed && write == (
        location_hash(MemoryLocation::CodeHash(account.address)),
        MemoryValue::SelfDestructed,
    )
    ||| !account.selfdestructed && account.touched && account.basic_writes(read, ctx).contains(
        write,
    ) && write.0 == location_hash(MemoryLocation::Basic(account.address))
    ||| !account.selfdestructed && account.touched && account.is_new_code(read) && write == (
        location_hash(MemoryLocation::CodeHash(account.address)),
        MemoryValue::CodeHash(account.info.code_hash),
    )
    ||| !account.selfdestructed && exists|j: int|
        {
            &&& 0 <= j < account.storage@.len()
            &&& (#[trigger] account.storage@[j]).original != account.storage@[j].present
            &&& write == (
                location_hash(MemoryLocation::Storage(account.address, account.storage@[j].slot)),
                MemoryValue::Storage(account.storage@[j].present),
            )
        }
}

proof fn lemma_writes_of_account(
    account: StateAccount,
    read: AccountsRead,
    ctx: TxContext,
    write: (MemoryLocationHash, MemoryValue),
)
    requires
        account.writes(read, ctx).contains(write),
    ensures
        is_write_of(account, read, ctx, write),
{
    let ws = account.writes(read, ctx);
    let k = choose|k: int| 0 <= k < ws.len() && ws[k] == write;
    let slots = slot_writes(account.address, account.storage@);
    law_changed_slots_are_written(account.address, account.storage@);
    if account.selfdestructed {
    } else if account.touched {
        let basic = account.basic_writes(read, ctx);
        let code = account.code_writes(read);
        if k < basic.len() {
            assert(basic[k] == write);
        } else if k < basic.len() + code.len() {
            assert(code[k - basic.len()] == write);
        } else {
            let m = k - basic.len() - code.len();
            assert(slots[m] == write);
        }
    } else {
        assert(slots[k] == write);
    }
}

/// Whether the value is all that a run writes to a location.
spec fn writes_only(
    ws: Seq<(MemoryLocationHash, MemoryValue)>,
    location: MemoryLocationHash,
    value: MemoryValue,
) -> bool {
    &&& locations(ws).contains(location)
    &&& forall|k: int| 0 <= k < ws.len() && (#[trigger] ws[k]).0 == location ==> ws[k].1 == value
}

/// What a run writes to a location that is not the beneficiary's is what its write set holds there.
proof fn lemma_reward_elsewhere(
    vm: Vm,
    tx: TxEnv,
    is_lazy: bool,
    read: AccountsRead,
    state: Seq<StateAccount>,
    gas_used: u64,
    location: MemoryLocationHash,
)
    requires
        location != vm.beneficiary_location_hash,
        vm.write_set(tx, is_lazy, read, state, gas_used) is Some,
    ensures
        ({
            let writes = state_writes(state, read, vm.context_of(tx, is_lazy));
            let ws = vm.write_set(tx, is_lazy, read, state, gas_used)->0;
            &&& locations(ws).contains(location) == locations(writes).contains(location)
            &&& forall|v: MemoryValue|
                #![trigger writes_only(ws, location, v)]
                writes_only(writes, location, v) ==> writes_only(ws, location, v)
        }),
{
    let writes = state_writes(state, read, vm.context_of(tx, is_lazy));
    let ws = vm.write_set(tx, is_lazy, read, state, gas_used)->0;
    let own = vm.beneficiary_location_hash;
    if locations(writes).contains(own) {
        let k = choose|k: int| 0 <= k < writes.len() && #[trigger] writes[k].0 == own;
        lemma_first_write(writes, own, k);
    }
    assert forall|k: int| 0 <= k < ws.len() && (#[trigger] ws[k]).0 == location implies k
        < writes.len() && writes[k] == ws[k] by {}
    if locations(writes).contains(location) {
        let k = choose|k: int| 0 <= k < writes.len() && #[trigger] writes[k].0 == location;
        assert(ws[k].0 == location);
    }
    if locations(ws).contains(location) {
        let k = choose|k: int| 0 <= k < ws.len() && #[trigger] ws[k].0 == location;
        assert(writes[k].0 == location);
    }
    assert forall|v: MemoryValue|
        #![trigger writes_only(ws, location, v)]
        writes_only(writes, location, v) implies writes_only(ws, location, v) by {
        assert forall|k: int| 0 <= k < ws.len() && (#[trigger] ws[k]).0 == location implies ws[k].1
            == v by {
            assert(writes[k].0 == location);
        }
    }
}

/// What is all that a run writes to a location is what the memory holds of it there, and what the next
/// transaction finds first.
proof fn lemma_left_in_memory(
    before: MvMemoryView,
    version: TxVersion,
    reads: Map<MemoryLocationHash, Seq<ReadOrigin>>,
    ws: Seq<(MemoryLocationHash, MemoryValue)>,
    location: MemoryLocationHash,
    value: MemoryValue,
    reader: TxIdx,
)
    requires
        writes_only(ws, location, value),
        version.tx_idx < reader,
        forall|t: TxIdx|
            version.tx_idx < t < reader ==> !(#[trigger] entries_at(
                before.data,
                location,
            ).contains_key(t)),
    ensures
        ({
            let after = before.recorded(version, reads, ws);
            let entry = MemoryEntry::Data(version.tx_incarnation, value);
            &&& closest_before(entries_at(after.data, location), reader) == Some(
                (version.tx_idx, entry),
            )
            &&& entries_at(after.data, location).contains_key(version.tx_idx)
            &&& entries_at(after.data, location)[version.tx_idx] == entry
        }),
{
    law_reads_see_recorded_writes(before, version, reads, ws, location, reader);
    lemma_last_value_is_written(ws, location);
    let gone = before.writes[version.tx_idx as int].difference(locations(ws));
    lemma_written_at(cleared(before.data, version.tx_idx, gone), version, ws, location);
}

/// Whether no transaction after `tx_idx` and before the reader has left anything at the location.
pub open spec fn nothing_between(
    memory: MvMemoryView,
    tx_idx: TxIdx,
    reader: TxIdx,
    location: MemoryLocation,
) -> bool {
    &&& tx_idx < reader
    &&& forall|t: TxIdx|
        tx_idx < t < reader ==> !(#[trigger] entries_at(
            memory.data,
            location_hash(location),
        ).contains_key(t))
}

/// Whether an execution ended with a result: the arguments of `Vm::ended`, but for the result.
pub open spec fn executed(
    vm: Vm,
    before: MvMemoryView,
    tx_version: TxVersion,
    tx: TxEnv,
    is_lazy: bool,
    read: AccountsRead,
    reads: Map<MemoryLocationHash, Seq<ReadOrigin>>,
    outcome: RunOutcome,
    after: MvMemoryView,
) -> bool {
    exists|r: Result<VmExecutionResult, VmExecutionError>|
        r is Ok && #[trigger] vm.ended(
            before,
            tx_version,
            tx,
            is_lazy,
            read,
            reads,
            outcome,
            after,
            r,
        )
}

/// A later transaction reads from a slot what an execution has left there, zero included, unless a
/// transaction in between has left something.
pub proof fn law_later_transactions_read_changed_slots(
    vm: Vm,
    before: MvMemoryView,
    tx_version: TxVersion,
    tx: TxEnv,
    is_lazy: bool,
    read: AccountsRead,
    reads: Map<MemoryLocationHash, Seq<ReadOrigin>>,
    outcome: RunOutcome,
    after: MvMemoryView,
    i: int,
    j: int,
    reader: TxIdx,
)
    requires
        vm.wf(),
        executed(vm, before, tx_version, tx, is_lazy, read, reads, outcome, after),
        listed_once(outcome.accounts()),
        0 <= i < outcome.accounts().len(),
        !outcome.accounts()[i].selfdestructed,
        0 <= j < outcome.accounts()[i].storage@.len(),
        outcome.accounts()[i].storage@[j].original != outcome.accounts()[i].storage@[j].present,
        ({
            let account = outcome.accounts()[i];
            let location = MemoryLocation::Storage(account.address, account.storage@[j].slot);
            &&& stands_alone(outcome.accounts(), vm.block_env.beneficiary, location)
            &&& nothing_between(before, tx_version.tx_idx, reader, location)
        }),
    ensures
        ({
            let account = outcome.accounts()[i];
            let location = MemoryLocation::Storage(account.address, account.storage@[j].slot);
            slot_lookup(after.data, reader, location_hash(location), Seq::empty()).found == Ok::<
                _,
                ReadError,
            >(Some(account.storage@[j].present))
        }),
{
    let state = outcome.accounts();
    let account = state[i];
    let change = account.storage@[j];
    let beneficiary = vm.block_env.beneficiary;
    let m = MemoryLocation::Storage(account.address, change.slot);
    let l = location_hash(m);
    let ctx = vm.context_of(tx, is_lazy);
    let writes = state_writes(state, read, ctx);
    let ws = vm.write_set(tx, is_lazy, read, state, outcome.result().gas_used)->0;
    let value = MemoryValue::Storage(change.present);
    law_changed_slots_are_written(account.address, account.storage@);
    law_runs_write_what_their_accounts_write(state, read, ctx);
    assert(account.storage@[j].original != account.storage@[j].present);
    let slots = slot_writes(account.address, account.storage@);
    let x = choose|x: int| 0 <= x < slots.len() && slots[x] == (l, value);
    let own = account.writes(read, ctx);
    if account.touched {
        let skip = (account.basic_writes(read, ctx) + account.code_writes(read)).len() as int;
        assert(own[skip + x] == (l, value));
        assert(writes.contains(state[i].writes(read, ctx)[skip + x]));
    } else {
        assert(own[x] == (l, value));
        assert(writes.contains(state[i].writes(read, ctx)[x]));
    }
    assert(locations(writes).contains(l)) by {
        let k = choose|k: int| 0 <= k < writes.len() && writes[k] == (l, value);
        assert(writes[k].0 == l);
    }
    assert forall|k: int| 0 <= k < writes.len() && (#[trigger] writes[k]).0 == l implies writes[k].1
        == value by {
        let b = choose|b: int|
            0 <= b < state.len() && (#[trigger] state[b]).writes(read, ctx).contains(writes[k]);
        lemma_writes_of_account(state[b], read, ctx, writes[k]);
        lemma_locations_of(state, beneficiary, b);
        if state[b].selfdestructed {
        }
        let c = choose|c: int|
            {
                &&& 0 <= c < state[b].storage@.len()
                &&& (#[trigger] state[b].storage@[c]).original != state[b].storage@[c].present
                &&& writes[k] == (
                    location_hash(
                        MemoryLocation::Storage(state[b].address, state[b].storage@[c].slot),
                    ),
                    MemoryValue::Storage(state[b].storage@[c].present),
                )
            };
        assert(is_location_of(
            state,
            beneficiary,
            MemoryLocation::Storage(state[b].address, state[b].storage@[c].slot),
        )) by {
            assert(state[b].storage@[c].slot == state[b].storage@[c].slot);
        }
        assert(state[b].address == account.address);
        assert(b == i);
        assert(slots_once(state[i].storage@));
        assert(c == j);
    }
    assert(is_location_of(state, beneficiary, MemoryLocation::Basic(beneficiary)));
    assert(writes_only(writes, l, value));
    lemma_reward_elsewhere(vm, tx, is_lazy, read, state, outcome.result().gas_used, l);
    let prepared = vm.prepared(before, vm.settled_addresses(tx, is_lazy), read, state);
    lemma_left_in_memory(prepared, tx_version, reads, ws, l, value, reader);
}

/// The locations of an account of the run are locations of the run.
proof fn lemma_locations_of(state: Seq<StateAccount>, beneficiary: Address, i: int)
    requires
        0 <= i < state.len(),
    ensures
        is_location_of(state, beneficiary, MemoryLocation::Basic(state[i].address)),
        is_location_of(state, beneficiary, MemoryLocation::CodeHash(state[i].address)),
        is_location_of(state, beneficiary, MemoryLocation::Basic(beneficiary)),
{
    assert(state[i].address == state[i].address);
}

/// All writes of a run to the location of an account are writes of that account.
proof fn lemma_writes_at_account(
    state: Seq<StateAccount>,
    read: AccountsRead,
    ctx: TxContext,
    beneficiary: Address,
    i: int,
    location: MemoryLocation,
    k: int,
)
    requires
        listed_once(state),
        0 <= i < state.len(),
        location == MemoryLocation::Basic(state[i].address) || location
            == MemoryLocation::CodeHash(state[i].address),
        stands_alone(state, beneficiary, location),
        0 <= k < state_writes(state, read, ctx).len(),
        state_writes(state, read, ctx)[k].0 == location_hash(location),
    ensures
        is_write_of(state[i], read, ctx, state_writes(state, read, ctx)[k]),
        state[i].selfdestructed || state[i].touched,
        location is Basic ==> !state[i].selfdestructed && state[i].basic_writes(
            read,
            ctx,
        ).contains(state_writes(state, read, ctx)[k]),
        location is CodeHash ==> if state[i].selfdestructed {
            state_writes(state, read, ctx)[k].1 == MemoryValue::SelfDestructed
        } else {
            state[i].is_new_code(read) && state_writes(state, read, ctx)[k].1
                == MemoryValue::CodeHash(state[i].info.code_hash)
        },
{
    let writes = state_writes(state, read, ctx);
    law_runs_write_what_their_accounts_write(state, read, ctx);
    let b = choose|b: int|
        0 <= b < state.len() && (#[trigger] state[b]).writes(read, ctx).contains(writes[k]);
    lemma_writes_of_account(state[b], read, ctx, writes[k]);
    lemma_locations_of(state, beneficiary, b);
    if exists|c: int|
        {
            &&& 0 <= c < state[b].storage@.len()
            &&& (#[trigger] state[b].storage@[c]).original != state[b].storage@[c].present
            &&& writes[k] == (
                location_hash(MemoryLocation::Storage(state[b].address, state[b].storage@[c].slot)),
                MemoryValue::Storage(state[b].storage@[c].present),
            )
        } {
        let c = choose|c: int|
            {
                &&& 0 <= c < state[b].storage@.len()
                &&& (#[trigger] state[b].storage@[c]).original != state[b].storage@[c].present
                &&& writes[k] == (
                    location_hash(
                        MemoryLocation::Storage(state[b].address, state[b].storage@[c].slot),
                    ),
                    MemoryValue::Storage(state[b].storage@[c].present),
                )
            };
        let other = MemoryLocation::Storage(state[b].address, state[b].storage@[c].slot);
        assert(state[b].storage@[c].slot == state[b].storage@[c].slot);
        assert(is_location_of(state, beneficiary, other));
        assert(false);
    }
    assert(state[b].address == state[i].address);
    assert(b == i);
}

/// A write of an account is one of the run.
proof fn lemma_write_is_of_run(
    state: Seq<StateAccount>,
    read: AccountsRead,
    ctx: TxContext,
    i: int,
    write: (MemoryLocationHash, MemoryValue),
)
    requires
        0 <= i < state.len(),
        state[i].writes(read, ctx).contains(write),
    ensures
        state_writes(state, read, ctx).contains(write),
        locations(state_writes(state, read, ctx)).contains(write.0),
{
    let writes = state_writes(state, read, ctx);
    law_runs_write_what_their_accounts_write(state, read, ctx);
    let own = state[i].writes(read, ctx);
    let x = choose|x: int| 0 <= x < own.len() && own[x] == write;
    assert(writes.contains(state[i].writes(read, ctx)[x]));
    let k = choose|k: int| 0 <= k < writes.len() && writes[k] == write;
    assert(writes[k].0 == write.0);
}

/// Whether an account was read with another balance or nonce than it is left with, or not read.
pub open spec fn differs_from_read(account: StateAccount, read: AccountsRead) -> bool {
    let location = location_hash(MemoryLocation::Basic(account.address));
    read.contains_key(location) ==> read[location].0.balance != account.info.balance
        || read[location].0.nonce != account.info.nonce
}

/// Whether an account has nothing that keeps it from being cleared.
pub open spec fn holds_nothing(account: StateAccount) -> bool {
    &&& account.info.balance@ == 0
    &&& account.info.nonce == 0
    &&& account.info.code_hash == keccak_empty_spec() || account.info.code_hash == B256 {
        hi: 0,
        lo: 0,
    }
}

/// A later transaction finds an account with the balance and the nonce that an execution has left it
/// with, if they differ from what was read; the beneficiary with its reward on top.
pub proof fn law_later_transactions_find_changed_accounts(
    vm: Vm,
    before: MvMemoryView,
    tx_version: TxVersion,
    tx: TxEnv,
    is_lazy: bool,
    read: AccountsRead,
    reads: Map<MemoryLocationHash, Seq<ReadOrigin>>,
    outcome: RunOutcome,
    after: MvMemoryView,
    i: int,
    reader: TxIdx,
)
    requires
        vm.wf(),
        executed(vm, before, tx_version, tx, is_lazy, read, reads, outcome, after),
        listed_once(outcome.accounts()),
        0 <= i < outcome.accounts().len(),
        !is_lazy,
        outcome.accounts()[i].touched,
        !outcome.accounts()[i].selfdestructed,
        differs_from_read(outcome.accounts()[i], read),
        vm.eip_161_enabled ==> !holds_nothing(outcome.accounts()[i]),
        stands_alone(
            outcome.accounts(),
            vm.block_env.beneficiary,
            MemoryLocation::Basic(outcome.accounts()[i].address),
        ),
        nothing_between(
            before,
            tx_version.tx_idx,
            reader,
            MemoryLocation::Basic(outcome.accounts()[i].address),
        ),
    ensures
        ({
            let account = outcome.accounts()[i];
            let location = location_hash(MemoryLocation::Basic(account.address));
            let earned = if account.address == vm.block_env.beneficiary {
                reward(
                    tx,
                    vm.block_env.basefee,
                    vm.eip_1559_enabled,
                    outcome.result().gas_used,
                )
            } else {
                0
            };
            closest_before(entries_at(after.data, location), reader) matches Some(found) && {
                &&& found.0 == tx_version.tx_idx
                &&& found.1 matches MemoryEntry::Data(incarnation, MemoryValue::Basic(basic)) && {
                    &&& incarnation == tx_version.tx_incarnation
                    &&& basic.nonce == account.info.nonce
                    &&& basic.balance@ == clamp(account.info.balance@ + earned, 0, u256_max())
                }
            }
        }),
{
    let state = outcome.accounts();
    let account = state[i];
    let beneficiary = vm.block_env.beneficiary;
    let m = MemoryLocation::Basic(account.address);
    let l = location_hash(m);
    let ctx = vm.context_of(tx, is_lazy);
    let writes = state_writes(state, read, ctx);
    let gas = outcome.result().gas_used;
    let ws = vm.write_set(tx, is_lazy, read, state, gas)->0;
    let basic = AccountBasic { balance: account.info.balance, nonce: account.info.nonce };
    let value = MemoryValue::Basic(basic);
    let own = account.writes(read, ctx);
    assert(account.basic_writes(read, ctx)[0] == (l, value));
    assert(own[0] == (l, value));
    lemma_write_is_of_run(state, read, ctx, i, (l, value));
    assert forall|k: int| 0 <= k < writes.len() && (#[trigger] writes[k]).0 == l implies writes[k].1
        == value by {
        lemma_writes_at_account(state, read, ctx, beneficiary, i, m, k);
    }
    assert(writes_only(writes, l, value));
    lemma_locations_of(state, beneficiary, i);
    lemma_u256_bounds(account.info.balance);
    let prepared = vm.prepared(before, vm.settled_addresses(tx, is_lazy), read, state);
    if account.address == beneficiary {
        let earned = reward(tx, vm.block_env.basefee, vm.eip_1559_enabled, gas);
        let left = MemoryValue::Basic(
            AccountBasic {
                balance: word(clamp(account.info.balance@ + earned, 0, u256_max())),
                ..basic
            },
        );
        let k = choose|k: int| 0 <= k < writes.len() && #[trigger] writes[k].0 == l;
        lemma_first_write(writes, l, k);
        let first = choose|f: int| is_first_write(writes, l, f);
        assert(ws == writes.update(first, (l, left)));
        lemma_basic_written_once(state, read, ctx, beneficiary, i);
        assert forall|k: int| 0 <= k < ws.len() && (#[trigger] ws[k]).0 == l implies ws[k].1
            == left by {
            if k != first {
                assert(writes[k].0 == l && writes[first].0 == l);
            }
        }
        assert(ws[first].0 == l);
        assert(writes_only(ws, l, left));
        lemma_word(clamp(account.info.balance@ + earned, 0, u256_max()));
        lemma_left_in_memory(prepared, tx_version, reads, ws, l, left, reader);
    } else {
        assert(MemoryLocation::Basic(beneficiary) != m);
        lemma_reward_elsewhere(vm, tx, is_lazy, read, state, gas, l);
        lemma_left_in_memory(prepared, tx_version, reads, ws, l, value, reader);
    }
}

/// A run writes at most once to the location of an account.
proof fn lemma_basic_written_once(
    state: Seq<StateAccount>,
    read: AccountsRead,
    ctx: TxContext,
    beneficiary: Address,
    i: int,
)
    requires
        listed_once(state),
        0 <= i < state.len(),
        stands_alone(state, beneficiary, MemoryLocation::Basic(state[i].address)),
    ensures
        forall|x: int, y: int|
            0 <= x < state_writes(state, read, ctx).len() && 0 <= y < state_writes(
                state,
                read,
                ctx,
            ).len() && (#[trigger] state_writes(state, read, ctx)[x]).0 == location_hash(
                MemoryLocation::Basic(state[i].address),
            ) && (#[trigger] state_writes(state, read, ctx)[y]).0 == location_hash(
                MemoryLocation::Basic(state[i].address),
            ) ==> x == y,
    decreases state.len(),
{
    let l = location_hash(MemoryLocation::Basic(state[i].address));
    let writes = state_writes(state, read, ctx);
    let rest = state.drop_last();
    let earlier = state_writes(rest, read, ctx);
    let last = state.last().writes(read, ctx);
    let e = state.len() - 1;
    assert(state[e] == state.last());
    assert(writes == earlier + last);
    assert forall|x: int| 0 <= x < writes.len() && (#[trigger] writes[x]).0 == l implies (x
        < earlier.len() ==> i < e) && (x >= earlier.len() ==> x == earlier.len() && i == e) by {
        lemma_writes_at_account(
            state,
            read,
            ctx,
            beneficiary,
            i,
            MemoryLocation::Basic(state[i].address),
            x,
        );
        lemma_locations_of(state, beneficiary, e);
        if x < earlier.len() {
            assert(writes[x] == earlier[x]);
            law_runs_write_what_their_accounts_write(rest, read, ctx);
            let b = choose|b: int|
                0 <= b < rest.len() && (#[trigger] rest[b]).writes(read, ctx).contains(earlier[x]);
            assert(rest[b] == state[b]);
            lemma_alone_is_own(state, read, ctx, beneficiary, i, b, writes[x]);
        } else {
            let y = x - earlier.len();
            assert(last[y] == writes[x]);
            lemma_alone_is_own(state, read, ctx, beneficiary, i, e, writes[x]);
            if y > 0 {
                lemma_basic_comes_first(state, read, ctx, beneficiary, e, y);
            }
        }
    }
    if i < e {
        assert(rest[i] == state[i]);
        assert(listed_once(rest)) by {
            assert forall|x: int, y: int|
                0 <= x < rest.len() && 0 <= y < rest.len() && x != y implies (
            #[trigger] rest[x]).address != (#[trigger] rest[y]).address by {
                assert(state[x].address != state[y].address);
            }
            assert forall|x: int| 0 <= x < rest.len() implies slots_once(
                (#[trigger] rest[x]).storage@,
            ) by {
                assert(slots_once(state[x].storage@));
            }
        }
        assert(stands_alone(rest, beneficiary, MemoryLocation::Basic(rest[i].address))) by {
            assert forall|other: MemoryLocation| #[trigger]
                is_location_of(rest, beneficiary, other) && other != MemoryLocation::Basic(
                    rest[i].address,
                ) implies location_hash(other) != l by {
                lemma_locations_grow(state, beneficiary, other);
            }
        }
        lemma_basic_written_once(rest, read, ctx, beneficiary, i);
        assert forall|x: int, y: int|
            0 <= x < writes.len() && 0 <= y < writes.len() && (#[trigger] writes[x]).0 == l && (
            #[trigger] writes[y]).0 == l implies x == y by {
            assert(x < earlier.len() && y < earlier.len());
            assert(earlier[x].0 == l && earlier[y].0 == l);
        }
    }
}

proof fn lemma_locations_grow(
    state: Seq<StateAccount>,
    beneficiary: Address,
    location: MemoryLocation,
)
    requires
        state.len() > 0,
        is_location_of(state.drop_last(), beneficiary, location),
    ensures
        is_location_of(state, beneficiary, location),
{
    let rest = state.drop_last();
    match location {
        MemoryLocation::Basic(a) => {
            if a != beneficiary {
                let i = choose|i: int| 0 <= i < rest.len() && (#[trigger] rest[i]).address == a;
                assert(state[i].address == a);
            }
        },
        MemoryLocation::CodeHash(a) => {
            let i = choose|i: int| 0 <= i < rest.len() && (#[trigger] rest[i]).address == a;
            assert(state[i].address == a);
        },
        MemoryLocation::Storage(a, s) => {
            let (i, j) = choose|i: int, j: int|
                0 <= i < rest.len() && rest[i].address == a && 0 <= j < rest[i].storage@.len()
                    && #[trigger] rest[i].storage@[j].slot == s;
            assert(state[i].storage@[j].slot == s);
        },
    }
}

/// A write to the location of an account that stands alone is one of that account.
proof fn lemma_alone_is_own(
    state: Seq<StateAccount>,
    read: AccountsRead,
    ctx: TxContext,
    beneficiary: Address,
    i: int,
    b: int,
    write: (MemoryLocationHash, MemoryValue),
)
    requires
        listed_once(state),
        0 <= i < state.len(),
        0 <= b < state.len(),
        stands_alone(state, beneficiary, MemoryLocation::Basic(state[i].address)),
        write.0 == location_hash(MemoryLocation::Basic(state[i].address)),
        state[b].writes(read, ctx).contains(write),
    ensures
        b == i,
        !(write.1 is Storage),
        !(write.1 is CodeHash),
{
    lemma_writes_of_account(state[b], read, ctx, write);
    lemma_locations_of(state, beneficiary, b);
    let slots = state[b].storage@;
    if exists|c: int|
        {
            &&& 0 <= c < slots.len()
            &&& (#[trigger] slots[c]).original != slots[c].present
            &&& write == (
                location_hash(MemoryLocation::Storage(state[b].address, slots[c].slot)),
                MemoryValue::Storage(slots[c].present),
            )
        } {
        let c = choose|c: int|
            {
                &&& 0 <= c < slots.len()
                &&& (#[trigger] slots[c]).original != slots[c].present
                &&& write == (
                    location_hash(MemoryLocation::Storage(state[b].address, slots[c].slot)),
                    MemoryValue::Storage(slots[c].present),
                )
            };
        assert(state[b].storage@[c].slot == slots[c].slot);
        assert(is_location_of(
            state,
            beneficiary,
            MemoryLocation::Storage(state[b].address, slots[c].slot),
        ));
        assert(false);
    }
    assert(state[b].address == state[i].address);
}

/// The write to the account itself is the first of its writes.
proof fn lemma_basic_comes_first(
    state: Seq<StateAccount>,
    read: AccountsRead,
    ctx: TxContext,
    beneficiary: Address,
    i: int,
    y: int,
)
    requires
        listed_once(state),
        0 <= i < state.len(),
        stands_alone(state, beneficiary, MemoryLocation::Basic(state[i].address)),
        0 < y < state[i].writes(read, ctx).len(),
    ensures
        state[i].writes(read, ctx)[y].0 != location_hash(MemoryLocation::Basic(state[i].address)),
{
    let account = state[i];
    let own = account.writes(read, ctx);
    let write = own[y];
    if write.0 == location_hash(MemoryLocation::Basic(account.address)) {
        assert(own.contains(write));
        lemma_alone_is_own(state, read, ctx, beneficiary, i, i, write);
        lemma_locations_of(state, beneficiary, i);
        let slots = slot_writes(account.address, account.storage@);
        law_changed_slots_are_written(account.address, account.storage@);
        if account.touched {
            let basic = account.basic_writes(read, ctx);
            let code = account.code_writes(read);
            assert(basic.len() <= 1);
            if y < basic.len() + code.len() {
                assert(code[y - basic.len()] == write);
            } else {
                assert(slots[y - basic.len() - code.len()] == write);
            }
        } else {
            assert(slots[y] == write);
        }
    }
}

/// A later transaction that asks for the code of an account that an execution has destroyed is told
/// that it is destroyed.
pub proof fn law_later_transactions_find_destroyed_accounts(
    vm: Vm,
    before: MvMemoryView,
    tx_version: TxVersion,
    tx: TxEnv,
    is_lazy: bool,
    read: AccountsRead,
    reads: Map<MemoryLocationHash, Seq<ReadOrigin>>,
    outcome: RunOutcome,
    after: MvMemoryView,
    i: int,
    reader: TxIdx,
)
    requires
        vm.wf(),
        executed(vm, before, tx_version, tx, is_lazy, read, reads, outcome, after),
        listed_once(outcome.accounts()),
        0 <= i < outcome.accounts().len(),
        outcome.accounts()[i].selfdestructed,
        stands_alone(
            outcome.accounts(),
            vm.block_env.beneficiary,
            MemoryLocation::CodeHash(outcome.accounts()[i].address),
        ),
        nothing_between(
            before,
            tx_version.tx_idx,
            reader,
            MemoryLocation::CodeHash(outcome.accounts()[i].address),
        ),
    ensures
        code_hash_lookup(
            after.data,
            reader,
            location_hash(MemoryLocation::CodeHash(outcome.accounts()[i].address)),
            Seq::empty(),
        ).found == Err::<Option<B256>, _>(ReadError::SelfDestructedAccount),
{
    let state = outcome.accounts();
    let account = state[i];
    let beneficiary = vm.block_env.beneficiary;
    let m = MemoryLocation::CodeHash(account.address);
    let l = location_hash(m);
    let ctx = vm.context_of(tx, is_lazy);
    let writes = state_writes(state, read, ctx);
    let gas = outcome.result().gas_used;
    let ws = vm.write_set(tx, is_lazy, read, state, gas)->0;
    let value = MemoryValue::SelfDestructed;
    assert(account.writes(read, ctx)[0] == (l, value));
    lemma_write_is_of_run(state, read, ctx, i, (l, value));
    assert forall|k: int| 0 <= k < writes.len() && (#[trigger] writes[k]).0 == l implies writes[k].1
        == value by {
        lemma_writes_at_account(state, read, ctx, beneficiary, i, m, k);
    }
    assert(writes_only(writes, l, value));
    lemma_locations_of(state, beneficiary, i);
    let prepared = vm.prepared(before, vm.settled_addresses(tx, is_lazy), read, state);
    lemma_reward_elsewhere(vm, tx, is_lazy, read, state, gas, l);
    lemma_left_in_memory(prepared, tx_version, reads, ws, l, value, reader);
}

/// A later transaction finds the code that an execution has given an account: its hash, and the code
/// under the hash.
pub proof fn law_later_transactions_find_new_code(
    vm: Vm,
    before: MvMemoryView,
    tx_version: TxVersion,
    tx: TxEnv,
    is_lazy: bool,
    read: AccountsRead,
    reads: Map<MemoryLocationHash, Seq<ReadOrigin>>,
    outcome: RunOutcome,
    after: MvMemoryView,
    i: int,
    reader: TxIdx,
)
    requires
        vm.wf(),
        executed(vm, before, tx_version, tx, is_lazy, read, reads, outcome, after),
        listed_once(outcome.accounts()),
        0 <= i < outcome.accounts().len(),
        outcome.accounts()[i].touched,
        !outcome.accounts()[i].selfdestructed,
        outcome.accounts()[i].info.code_hash != keccak_empty_spec(),
        outcome.accounts()[i].info.code is Some,
        ({
            let location = location_hash(MemoryLocation::Basic(outcome.accounts()[i].address));
            read.contains_key(location) ==> read[location].1 is None
        }),
        forall|k: int|
            0 <= k < outcome.accounts().len() && (#[trigger] outcome.accounts()[k]).info.code_hash
                == outcome.accounts()[i].info.code_hash ==> outcome.accounts()[k].info.code
                == outcome.accounts()[i].info.code,
        before.codes.contains_key(outcome.accounts()[i].info.code_hash)
            ==> before.codes[outcome.accounts()[i].info.code_hash]
            == outcome.accounts()[i].info.code->0,
        stands_alone(
            outcome.accounts(),
            vm.block_env.beneficiary,
            MemoryLocation::CodeHash(outcome.accounts()[i].address),
        ),
        nothing_between(
            before,
            tx_version.tx_idx,
            reader,
            MemoryLocation::CodeHash(outcome.accounts()[i].address),
        ),
    ensures
        ({
            let account = outcome.accounts()[i];
            let location = location_hash(MemoryLocation::CodeHash(account.address));
            &&& code_hash_lookup(after.data, reader, location, Seq::empty()).found == Ok::<
                _,
                ReadError,
            >(Some(account.info.code_hash))
            &&& after.codes.contains_key(account.info.code_hash)
            &&& after.codes[account.info.code_hash] == account.info.code->0
        }),
{
    let state = outcome.accounts();
    let account = state[i];
    let beneficiary = vm.block_env.beneficiary;
    let m = MemoryLocation::CodeHash(account.address);
    let l = location_hash(m);
    let ctx = vm.context_of(tx, is_lazy);
    let writes = state_writes(state, read, ctx);
    let gas = outcome.result().gas_used;
    let ws = vm.write_set(tx, is_lazy, read, state, gas)->0;
    let value = MemoryValue::CodeHash(account.info.code_hash);
    let own = account.writes(read, ctx);
    assert(own[account.basic_writes(read, ctx).len() as int] == (l, value));
    lemma_write_is_of_run(state, read, ctx, i, (l, value));
    assert forall|k: int| 0 <= k < writes.len() && (#[trigger] writes[k]).0 == l implies writes[k].1
        == value by {
        lemma_writes_at_account(state, read, ctx, beneficiary, i, m, k);
    }
    assert(writes_only(writes, l, value));
    lemma_locations_of(state, beneficiary, i);
    let prepared = vm.prepared(before, vm.settled_addresses(tx, is_lazy), read, state);
    lemma_reward_elsewhere(vm, tx, is_lazy, read, state, gas, l);
    lemma_left_in_memory(prepared, tx_version, reads, ws, l, value, reader);
    law_deployed_code_is_kept(before.codes, state, read, i);
}

/// Code that an account gets in a run is kept under its hash, and code that was kept stays.
pub proof fn law_deployed_code_is_kept(
    codes: Map<B256, Arc<EvmCode>>,
    state: Seq<StateAccount>,
    read: AccountsRead,
    i: int,
)
    requires
        0 <= i < state.len(),
        state[i].touched,
        !state[i].selfdestructed,
        state[i].info.code_hash != keccak_empty_spec(),
        ({
            let location = location_hash(MemoryLocation::Basic(state[i].address));
            read.contains_key(location) ==> read[location].1 is None
        }),
        forall|k: int|
            0 <= k < state.len() && (#[trigger] state[k]).info.code_hash == state[i].info.code_hash
                ==> state[k].info.code == state[i].info.code,
        codes.contains_key(state[i].info.code_hash) ==> codes[state[i].info.code_hash]
            == state[i].info.code->0,
    ensures
        codes_after(codes, state, read).contains_key(state[i].info.code_hash),
        codes_after(codes, state, read)[state[i].info.code_hash] == state[i].info.code->0,
        forall|h: B256| #[trigger]
            codes.contains_key(h) ==> codes_after(codes, state, read).contains_key(h)
                && codes_after(codes, state, read)[h] == codes[h],
    decreases state.len(),
{
    let rest = state.drop_last();
    let e = state.len() - 1;
    assert(state[e] == state.last());
    lemma_codes_stay(codes, rest, read);
    let h = state[i].info.code_hash;
    if i < e {
        assert(rest[i] == state[i]);
        assert forall|k: int| 0 <= k < rest.len() && (#[trigger] rest[k]).info.code_hash
            == rest[i].info.code_hash implies rest[k].info.code == rest[i].info.code by {
            assert(rest[k] == state[k]);
        }
        law_deployed_code_is_kept(codes, rest, read, i);
    } else {
        lemma_codes_come_from(codes, rest, read, h);
        if codes_after(codes, rest, read).contains_key(h) && !codes.contains_key(h) {
            let k = choose|k: int|
                0 <= k < rest.len() && (#[trigger] rest[k]).info.code_hash == h && codes_after(
                    codes,
                    rest,
                    read,
                )[h] == rest[k].info.code->0;
            assert(state[k] == rest[k]);
        }
    }
    lemma_codes_stay(codes, state, read);
}

proof fn lemma_codes_stay(
    codes: Map<B256, Arc<EvmCode>>,
    state: Seq<StateAccount>,
    read: AccountsRead,
)
    ensures
        forall|h: B256| #[trigger]
            codes.contains_key(h) ==> codes_after(codes, state, read).contains_key(h)
                && codes_after(codes, state, read)[h] == codes[h],
    decreases state.len(),
{
    if state.len() > 0 {
        lemma_codes_stay(codes, state.drop_last(), read);
    }
}

proof fn lemma_codes_come_from(
    codes: Map<B256, Arc<EvmCode>>,
    state: Seq<StateAccount>,
    read: AccountsRead,
    h: B256,
)
    ensures
        codes_after(codes, state, read).contains_key(h) && !codes.contains_key(h) ==> exists|k: int|
            0 <= k < state.len() && (#[trigger] state[k]).info.code_hash == h && codes_after(
                codes,
                state,
                read,
            )[h] == state[k].info.code->0,
    decreases state.len(),
{
    if state.len() > 0 {
        let rest = state.drop_last();
        lemma_codes_come_from(codes, rest, read, h);
        assert(state[state.len() - 1] == state.last());
        if codes_after(codes, rest, read).contains_key(h) && !codes.contains_key(h) {
            let k = choose|k: int|
                0 <= k < rest.len() && (#[trigger] rest[k]).info.code_hash == h && codes_after(
                    codes,
                    rest,
                    read,
                )[h] == rest[k].info.code->0;
            assert(state[k] == rest[k]);
        }
    }
}

/// A lazy transfer leaves with its sender all that the sender no longer has of the largest balance,
/// and with its recipient the value; both are left to be added, and neither side is the beneficiary.
pub proof fn law_lazy_transfers_leave_both_sides(
    vm: Vm,
    before: MvMemoryView,
    tx_version: TxVersion,
    tx: TxEnv,
    is_lazy: bool,
    read: AccountsRead,
    reads: Map<MemoryLocationHash, Seq<ReadOrigin>>,
    outcome: RunOutcome,
    after: MvMemoryView,
    i: int,
    reader: TxIdx,
)
    requires
        vm.wf(),
        executed(vm, before, tx_version, tx, is_lazy, read, reads, outcome, after),
        listed_once(outcome.accounts()),
        0 <= i < outcome.accounts().len(),
        is_lazy,
        tx.kind is Call,
        outcome.accounts()[i].touched,
        !outcome.accounts()[i].selfdestructed,
        outcome.accounts()[i].address == tx.caller || tx.kind == TxKind::Call(
            outcome.accounts()[i].address,
        ),
        outcome.accounts()[i].address != vm.block_env.beneficiary,
        location_hash(MemoryLocation::Basic(tx.caller)) == location_hash(
            MemoryLocation::Basic(outcome.accounts()[i].address),
        ) ==> tx.caller == outcome.accounts()[i].address,
        differs_from_read(outcome.accounts()[i], read),
        stands_alone(
            outcome.accounts(),
            vm.block_env.beneficiary,
            MemoryLocation::Basic(outcome.accounts()[i].address),
        ),
        nothing_between(
            before,
            tx_version.tx_idx,
            reader,
            MemoryLocation::Basic(outcome.accounts()[i].address),
        ),
    ensures
        ({
            let account = outcome.accounts()[i];
            let location = location_hash(MemoryLocation::Basic(account.address));
            closest_before(entries_at(after.data, location), reader) matches Some(found) && {
                &&& found.0 == tx_version.tx_idx
                &&& found.1 matches MemoryEntry::Data(incarnation, value) && {
                    &&& incarnation == tx_version.tx_incarnation
                    &&& if account.address == tx.caller {
                        value matches MemoryValue::LazySender(spent) && spent@
                            + account.info.balance@ == u256_max()
                    } else {
                        value == MemoryValue::LazyRecipient(tx.value)
                    }
                }
            }
        }),
{
    let state = outcome.accounts();
    let account = state[i];
    let beneficiary = vm.block_env.beneficiary;
    let m = MemoryLocation::Basic(account.address);
    let l = location_hash(m);
    let ctx = vm.context_of(tx, is_lazy);
    let writes = state_writes(state, read, ctx);
    let gas = outcome.result().gas_used;
    let ws = vm.write_set(tx, is_lazy, read, state, gas)->0;
    let value = if account.address == tx.caller {
        MemoryValue::LazySender(word(u256_max() - account.info.balance@))
    } else {
        MemoryValue::LazyRecipient(tx.value)
    };
    lemma_u256_bounds(account.info.balance);
    lemma_word(u256_max() - account.info.balance@);
    assert(account.basic_writes(read, ctx)[0] == (l, value));
    assert(account.writes(read, ctx)[0] == (l, value));
    lemma_write_is_of_run(state, read, ctx, i, (l, value));
    assert forall|k: int| 0 <= k < writes.len() && (#[trigger] writes[k]).0 == l implies writes[k].1
        == value by {
        lemma_writes_at_account(state, read, ctx, beneficiary, i, m, k);
    }
    assert(writes_only(writes, l, value));
    lemma_locations_of(state, beneficiary, i);
    let prepared = vm.prepared(before, vm.settled_addresses(tx, is_lazy), read, state);
    lemma_reward_elsewhere(vm, tx, is_lazy, read, state, gas, l);
    lemma_left_in_memory(prepared, tx_version, reads, ws, l, value, reader);
}

/// An execution leaves nothing at the location of a slot that it did not change.
pub proof fn law_unchanged_slots_are_not_written(
    vm: Vm,
    before: MvMemoryView,
    tx_version: TxVersion,
    tx: TxEnv,
    is_lazy: bool,
    read: AccountsRead,
    reads: Map<MemoryLocationHash, Seq<ReadOrigin>>,
    outcome: RunOutcome,
    after: MvMemoryView,
    address: Address,
    slot: U256,
)
    requires
        vm.wf(),
        before.wf(),
        tx_version.tx_idx < before.writes.len(),
        executed(vm, before, tx_version, tx, is_lazy, read, reads, outcome, after),
        stands_alone(
            outcome.accounts(),
            vm.block_env.beneficiary,
            MemoryLocation::Storage(address, slot),
        ),
        forall|i: int, j: int|
            0 <= i < outcome.accounts().len() && outcome.accounts()[i].address == address && 0 <= j
                < outcome.accounts()[i].storage@.len() && (
            #[trigger] outcome.accounts()[i].storage@[j]).slot == slot
                ==> outcome.accounts()[i].storage@[j].original
                == outcome.accounts()[i].storage@[j].present,
    ensures
        ({
            let entries = entries_at(
                after.data,
                location_hash(MemoryLocation::Storage(address, slot)),
            );
            entries.contains_key(tx_version.tx_idx) ==> entries[tx_version.tx_idx] is Estimate
        }),
        forall|t: TxIdx|
            #![trigger entries_at(after.data, location_hash(MemoryLocation::Storage(address, slot))).contains_key(t)]
            t != tx_version.tx_idx ==> entries_at(
                after.data,
                location_hash(MemoryLocation::Storage(address, slot)),
            ).contains_key(t) == entries_at(
                before.data,
                location_hash(MemoryLocation::Storage(address, slot)),
            ).contains_key(t),
{
    let state = outcome.accounts();
    let beneficiary = vm.block_env.beneficiary;
    let m = MemoryLocation::Storage(address, slot);
    let l = location_hash(m);
    let ctx = vm.context_of(tx, is_lazy);
    let writes = state_writes(state, read, ctx);
    let gas = outcome.result().gas_used;
    let ws = vm.write_set(tx, is_lazy, read, state, gas)->0;
    law_runs_write_what_their_accounts_write(state, read, ctx);
    assert(is_location_of(state, beneficiary, MemoryLocation::Basic(beneficiary)));
    assert(!locations(writes).contains(l)) by {
        if locations(writes).contains(l) {
            let k = choose|k: int| 0 <= k < writes.len() && #[trigger] writes[k].0 == l;
            let b = choose|b: int|
                0 <= b < state.len() && (#[trigger] state[b]).writes(read, ctx).contains(writes[k]);
            lemma_writes_of_account(state[b], read, ctx, writes[k]);
            lemma_locations_of(state, beneficiary, b);
            let c = choose|c: int|
                {
                    &&& 0 <= c < state[b].storage@.len()
                    &&& (#[trigger] state[b].storage@[c]).original != state[b].storage@[c].present
                    &&& writes[k] == (
                        location_hash(
                            MemoryLocation::Storage(state[b].address, state[b].storage@[c].slot),
                        ),
                        MemoryValue::Storage(state[b].storage@[c].present),
                    )
                };
            assert(state[b].storage@[c].slot == state[b].storage@[c].slot);
            assert(is_location_of(
                state,
                beneficiary,
                MemoryLocation::Storage(state[b].address, state[b].storage@[c].slot),
            ));
        }
    }
    lemma_reward_elsewhere(vm, tx, is_lazy, read, state, gas, l);
    let prepared = vm.prepared(before, vm.settled_addresses(tx, is_lazy), read, state);
    let gone = prepared.writes[tx_version.tx_idx as int].difference(locations(ws));
    lemma_written_at(cleared(prepared.data, tx_version.tx_idx, gone), tx_version, ws, l);
    if before.data.contains_key(l) && before.data[l].contains_key(tx_version.tx_idx)
        && before.data[l][tx_version.tx_idx] is Data {
        assert(before.writes[tx_version.tx_idx as int].contains(l));
        assert(gone.contains(l));
    }
}

/// The beneficiary earns what a transaction offers above the base fee, for every unit of gas: its whole
/// priority fee where the price allows it, else what the price leaves. Before the base fee was burnt
/// it earned the whole price.
pub proof fn law_rewards_are_what_is_offered(
    tx: TxEnv,
    basefee: u64,
    eip_1559_enabled: bool,
    gas_used: u64,
)
    ensures
        reward(tx, basefee, eip_1559_enabled, gas_used) == ({
            let price = tx.gas_price as int;
            let tip = tx.gas_priority_fee;
            let per_gas = if eip_1559_enabled {
                if price < basefee {
                    0
                } else if tip is Some && basefee + tip->0 <= price {
                    tip->0 as int
                } else {
                    price - basefee
                }
            } else {
                if tip is Some && basefee + tip->0 <= price {
                    basefee + tip->0
                } else {
                    price
                }
            };
            per_gas * gas_used
        }),
        0 <= reward(tx, basefee, eip_1559_enabled, gas_used) <= tx.gas_price * gas_used,
{
    let price = tx.gas_price as int;
    assert(price * gas_used <= u128::MAX * u64::MAX) by (nonlinear_arith)
        requires
            0 <= price <= u128::MAX,
            gas_used <= u64::MAX,
    ;
    let per_gas = reward_price(tx, basefee, eip_1559_enabled);
    assert(0 <= per_gas * gas_used <= price * gas_used) by (nonlinear_arith)
        requires
            0 <= per_gas <= price,
            gas_used >= 0,
    ;
}

/// The two flags of a finished execution can be told apart, and neither is set where none is.
pub proof fn law_flags_can_be_told_apart(flags: FinishExecFlags)
    ensures
        !has_flags(FinishExecFlags { bits: 0 }, NEED_VALIDATION),
        !has_flags(FinishExecFlags { bits: 0 }, WROTE_NEW_LOCATION),
        !has_flags(FinishExecFlags { bits: NEED_VALIDATION }, WROTE_NEW_LOCATION),
        !has_flags(FinishExecFlags { bits: WROTE_NEW_LOCATION }, NEED_VALIDATION),
        has_flags(FinishExecFlags { bits: NEED_VALIDATION }, NEED_VALIDATION),
        has_flags(
            FinishExecFlags { bits: flags.bits | WROTE_NEW_LOCATION },
            WROTE_NEW_LOCATION,
        ),
        has_flags(FinishExecFlags { bits: flags.bits | WROTE_NEW_LOCATION }, NEED_VALIDATION)
            == has_flags(flags, NEED_VALIDATION),
{
    let b = flags.bits;
    assert(0u8 & 1u8 != 1u8 && 0u8 & 2u8 != 2u8 && 1u8 & 2u8 != 2u8 && 2u8 & 1u8 != 1u8 && 1u8 & 1u8
        == 1u8 && (b | 2u8) & 2u8 == 2u8 && (b | 2u8) & 1u8 == b & 1u8) by (bit_vector);
}

/// A read that failed is repeated where it was inconsistent, waits for the transaction that blocks it,
/// and gives up the parallel execution where an account was destroyed. Any other failure gives up the
/// block, with the failure. The four never coincide.
pub proof fn law_failed_reads_are_told_apart(a: ReadError, b: ReadError)
    ensures
        on_read_error(a) is Retry <==> a is InconsistentRead,
        on_read_error(a) is FallbackToSequential <==> a is SelfDestructedAccount,
        on_read_error(a) is Blocking <==> a is Blocking,
        a matches ReadError::Blocking(t) ==> on_read_error(a) == VmExecutionError::Blocking(t),
        on_read_error(a) == on_read_error(b) ==> a == b,
{
}

/// A run that failed for a read asks for what the read asks for. One of a sender who lacks funds, or
/// whose nonce lies behind, waits for the transaction before it, and fails where there is none. Every
/// other failure gives up the block, with the failure.
pub proof fn law_failed_runs_are_told_apart(e: ExecutionError, tx_idx: TxIdx)
    ensures
        e matches ExecutionError::Database(read) ==> on_run_error(e, tx_idx) == on_read_error(read),
        e is Header || e is Custom || (e matches ExecutionError::Transaction(t) && t is Other)
            ==> on_run_error(e, tx_idx) == VmExecutionError::ExecutionError(e),
        (e matches ExecutionError::Transaction(t) && (t is LackOfFundForMaxFee || t is NonceTooHigh))
            ==> if tx_idx == 0 {
            on_run_error(e, tx_idx) == VmExecutionError::ExecutionError(e)
        } else {
            on_run_error(e, tx_idx) matches VmExecutionError::Blocking(t) && t + 1 == tx_idx
        },
{
}

} // verus!
