//! What holds of reads from the chain, of the changes that are committed to it, and of how a block is
//! executed.

use crate::evm::builder::EthEvmFactory;
use crate::evm::cached_reads::DatabaseRef;
use crate::evm::chain_spec::ChainSpec;
use crate::evm::tx_env::TxEnv;
use crate::parallel::executor::{
    answers_slot, changes_to, slots_changed, AccountChange, ParallelEthEvmConfig,
    ParallelEthereumExecutorBuilder, StateCache,
};
use crate::parallel::history::{lemma_closest_before, WriteHistory};
use crate::parallel::memory::{
    AccountBasic, FinishExecFlags, MemoryEntry, MemoryLocationHash, MemoryValue, TxIdx, TxVersion,
};
use crate::parallel::mv_memory::{locations, MvMemory};
use crate::parallel::pevm::{
    accumulated, gas_sum, lemma_gas_sum_nonnegative, prefers_sequential, AbortReason,
    ExecutionStep, ParallelEvm, PevmError,
};
use crate::parallel::settlement::{after_entry, max_fee, settles};
use crate::parallel::settlement_laws::lemma_first_write;
use crate::parallel::state::{
    EvmAccountView, PevmTxExecutionResult, SlotChange, StateAccount,
};
use crate::parallel::state_storage::StateStorage;
use crate::parallel::storage::{assembled, AccountInfo, EvmCode, Storage};
use crate::parallel::vm::{
    is_first_write, rewarded, value_with_reward, VmExecutionError, VmExecutionResult,
};
use crate::primitives::{
    clamp, keccak_empty_spec, lemma_u256_bounds, lemma_word, u256_max, word, Address, B256, U256,
};
use std::sync::Arc;
use vstd::prelude::*;

verus! {

/// A block is executed sequentially where that is asked for, where it has fewer transactions than there are
/// threads, and where its gas limit lies below 4 million; and in parallel else.
pub proof fn law_large_blocks_are_executed_in_parallel(
    force_sequential: bool,
    tx_count: usize,
    concurrency_level: usize,
    gas_limit: u64,
    sequential: bool,
)
    requires
        call_ensures(
            prefers_sequential,
            (force_sequential, tx_count, concurrency_level, gas_limit),
            sequential,
        ),
    ensures
        !sequential <==> !force_sequential && tx_count >= concurrency_level && gas_limit
            >= 4_000_000,
{
}

/// A transaction whose dependency was not noted is executed again, unless the block was given up; else there
/// is nothing to do.
pub proof fn law_missed_dependencies_are_executed_again(
    evm: &ParallelEvm,
    added: bool,
    step: ExecutionStep,
)
    requires
        call_ensures(ParallelEvm::on_dependency, (evm, added), step),
    ensures
        step is ExecuteAgain <==> !added && evm.abort_reason is None,
        step is NoTask <==> added || evm.abort_reason is Some,
{
}

/// The flags of an execution: none, or that it has to be validated; and that it wrote to a new location can
/// be told from both.
pub proof fn law_flags_hold_what_was_set(
    validated: FinishExecFlags,
    nothing: FinishExecFlags,
    more: FinishExecFlags,
)
    requires
        call_ensures(FinishExecFlags::need_validation, (), validated),
        call_ensures(FinishExecFlags::empty, (), nothing),
        call_ensures(FinishExecFlags::with_new_location, (validated,), more),
    ensures
        validated.bits == 1,
        nothing.bits == 0,
        more.bits == 3,
{
    assert(1u8 | 2u8 == 3u8) by (bit_vector);
}

/// Parallel execution uses the threads that it was given: one for each that the machine can run, and four
/// where it does not say.
pub proof fn law_threads_are_those_of_the_machine(
    available: Option<usize>,
    chain_spec: Arc<ChainSpec>,
    builder: ParallelEthereumExecutorBuilder,
    config: ParallelEthEvmConfig<EthEvmFactory>,
)
    requires
        call_ensures(ParallelEthereumExecutorBuilder::all_cores, (available,), builder),
        call_ensures(
            ParallelEthereumExecutorBuilder::build_evm,
            (builder, chain_spec),
            config,
        ),
    ensures
        available matches Some(n) ==> (n > 0 ==> config.parallel_factory.concurrency == n),
        available matches Some(n) ==> (n == 0 ==> config.parallel_factory.concurrency == 4),
        available is None ==> config.parallel_factory.concurrency == 4,
        config.parallel_factory.chain_id == chain_spec.chain_id,
        config.parallel_factory.inner.rules() == *chain_spec,
        config.inner.executor_factory.rules() == *chain_spec,
{
}

/// The most that a transaction may cost is its value and the price of all its gas, as far as a word can hold
/// that.
pub proof fn law_transactions_cost_their_gas_and_value(tx: TxEnv)
    ensures
        tx.gas_limit * tx.gas_price + tx.value@ <= u256_max() ==> max_fee(tx) == tx.gas_limit
            * tx.gas_price + tx.value@,
        tx.gas_limit * tx.gas_price + tx.value@ > u256_max() ==> max_fee(tx) == u256_max(),
{
    lemma_u256_bounds(tx.value);
    assert(0 <= tx.gas_limit * tx.gas_price) by (nonlinear_arith)
        requires
            tx.gas_limit >= 0,
            tx.gas_price >= 0,
    ;
}

/// A balance stops at the largest word where an entry adds more, and at zero where an entry takes more than
/// there is.
pub proof fn law_balances_stop_at_their_bounds(
    account: AccountBasic,
    entry: MemoryEntry,
    tx: TxEnv,
    now: AccountBasic,
)
    requires
        after_entry(account, entry, tx) == Ok::<_, PevmError>(now),
    ensures
        entry matches MemoryEntry::Data(_, MemoryValue::LazyRecipient(add)) && account.balance@
            + add@ > u256_max() ==> now.balance@ == u256_max(),
        entry matches MemoryEntry::Data(_, MemoryValue::LazySender(sub)) && account.balance@ < sub@
            ==> now.balance@ == 0,
{
    lemma_word(u256_max());
    lemma_word(0);
}

/// The chain is read as it is: balance and nonce of an account are those of the database, and a failure is
/// reported with its message.
pub proof fn law_the_chain_is_read_as_it_is<'a, DB: DatabaseRef>(
    storage: &StateStorage<'a, DB>,
    address: &Address,
    slot: &U256,
    basic: Result<Option<AccountBasic>, String>,
    code_hash: Result<Option<B256>, String>,
    value: Result<U256, String>,
)
    requires
        call_ensures(StateStorage::<'a, DB>::basic, (storage, address), basic),
        call_ensures(StateStorage::<'a, DB>::code_hash, (storage, address), code_hash),
        call_ensures(StateStorage::<'a, DB>::storage, (storage, address, slot), value),
    ensures
        exists|reply: Result<Option<AccountInfo>, String>| #[trigger]
            call_ensures(DB::basic_ref, (storage.0, *address), reply) && match reply {
                Ok(Some(info)) => basic matches Ok(Some(account)) && account.balance
                    == info.balance && account.nonce == info.nonce,
                Ok(None) => basic matches Ok(None),
                Err(e) => basic matches Err(message) && message@ == "EVM database error: "@ + e@,
            },
        exists|reply: Result<Option<AccountInfo>, String>| #[trigger]
            call_ensures(DB::basic_ref, (storage.0, *address), reply) && match reply {
                Ok(Some(info)) => code_hash matches Ok(hash) && (hash is None <==> info.code_hash
                    == keccak_empty_spec()) && (hash matches Some(h) ==> h == info.code_hash),
                Ok(None) => code_hash matches Ok(None),
                Err(e) => code_hash matches Err(message) && message@ == "EVM database error: "@
                    + e@,
            },
        exists|reply: Result<U256, String>| #[trigger]
            call_ensures(DB::storage_ref, (storage.0, *address, *slot), reply) && match reply {
                Ok(held) => value matches Ok(seen) && seen == held,
                Err(e) => value matches Err(message) && message@ == "EVM database error: "@ + e@,
            },
{
}

/// An account is put together from what was read of it. Without a code hash it has that of no bytes, and
/// does not count as one with code.
pub proof fn law_accounts_are_put_together(
    basic: AccountBasic,
    code_hash: Option<B256>,
    code: Option<Arc<EvmCode>>,
)
    ensures
        assembled(basic, code_hash, code).balance == basic.balance,
        assembled(basic, code_hash, code).nonce == basic.nonce,
        assembled(basic, code_hash, code).code == code,
        code_hash matches Some(hash) ==> assembled(basic, code_hash, code).code_hash == hash,
        code_hash is None ==> !assembled(basic, code_hash, code).has_code(),
{
}

/// An account is empty exactly where it has no balance, no nonce and no code; it has code exactly where its
/// code hash is not that of no bytes.
pub proof fn law_empty_accounts_have_nothing(info: AccountInfo)
    ensures
        info.is_empty_spec() ==> info.balance@ == 0 && info.nonce == 0,
        info.balance@ == 0 && info.nonce == 0 && !info.has_code() ==> info.is_empty_spec(),
        info.is_empty_spec() && info.has_code() ==> info.code_hash.hi == 0 && info.code_hash.lo
            == 0,
        !info.has_code() <==> info.code_hash.hi == 0xc5d2460186f7233c927e7db2dcc703c0u128
            && info.code_hash.lo == 0xe500b653ca82273b7bfad8045d85a470u128,
{
}

/// The code of an account without code is one byte, the instruction to stop, and counts as none.
pub proof fn law_missing_code_stops_at_once(code: EvmCode)
    requires
        code.is_default(),
    ensures
        code.holds_nothing(),
        code matches EvmCode::Legacy(legacy) && legacy.bytecode@.len() == 1 && legacy.bytecode@[0]
            == 0,
{
}

/// What is committed of an account that lives on is what the results hold of it, and every slot of it with
/// its value; what is gone is destroyed, and has nothing left.
pub proof fn law_changes_bring_accounts_to_their_results<S: StateCache>(
    state: &S,
    account: Option<EvmAccountView>,
    change: AccountChange,
)
    requires
        changes_to(state, account, change),
    ensures
        change.destroyed <==> account is None,
        account matches Some(v) ==> {
            &&& change.info.balance == v.balance
            &&& change.info.nonce == v.nonce
            &&& change.info.code == v.code
            &&& v.code_hash matches Some(hash) ==> change.info.code_hash == hash
            &&& v.code_hash is None ==> !change.info.has_code()
            &&& forall|k: U256| #[trigger]
                v.storage.contains_key(k) ==> exists|i: int|
                    0 <= i < change.storage@.len() && (#[trigger] change.storage@[i]).slot == k
                        && change.storage@[i].present == v.storage[k]
            &&& forall|i: int|
                0 <= i < change.storage@.len() ==> v.storage.contains_key(
                    (#[trigger] change.storage@[i]).slot,
                )
        },
        account is None ==> change.info.is_empty_spec() && change.storage@.len() == 0,
{
    if let Some(v) = account {
        assert forall|k: U256| #[trigger] v.storage.contains_key(k) implies exists|i: int|
            0 <= i < change.storage@.len() && (#[trigger] change.storage@[i]).slot == k
                && change.storage@[i].present == v.storage[k] by {
            let i = choose|i: int|
                0 <= i < change.storage@.len() && (#[trigger] change.storage@[i]).slot == k;
            assert(change.storage@[i].present == v.storage[k]);
        }
    }
}

/// The original value of a slot is what the chain answers for that slot of that account, and zero where it
/// fails.
pub proof fn law_original_values_are_those_of_the_chain<S: StateCache>(
    state: &S,
    address: Address,
    slots: Map<U256, U256>,
    changes: Seq<SlotChange>,
    i: int,
)
    requires
        slots_changed(state, address, slots, changes),
        0 <= i < changes.len(),
    ensures
        exists|reply: Result<U256, String>| #[trigger]
            answers_slot(state, address, changes[i].slot, reply) && (
            reply matches Ok(value) ==> changes[i].original == value) && (reply is Err
                ==> changes[i].original@ == 0),
{
    assert(slots.contains_key(changes[i].slot));
    let reply = choose|reply: Result<U256, String>| #[trigger]
        answers_slot(state, address, changes[i].slot, reply)
            && changes[i].original == match reply {
            Ok(value) => value,
            Err(_) => word(0),
        };
    lemma_word(0);
    assert(answers_slot(state, address, changes[i].slot, reply));
}

/// An account is gone where it was destroyed, and where it is empty and empty accounts are cleared; else it
/// is held with its balance and nonce, and with its code and code hash exactly where it has code.
pub proof fn law_accounts_are_gone_or_held(account: StateAccount, eip_161_enabled: bool)
    ensures
        account.selfdestructed ==> account.transition_view(eip_161_enabled) is None,
        account.info.is_empty_spec() && eip_161_enabled ==> account.transition_view(
            eip_161_enabled,
        ) is None,
        !account.selfdestructed && !(account.info.is_empty_spec() && eip_161_enabled) ==> (
        account.transition_view(eip_161_enabled) matches Some(v) && v.balance
            == account.info.balance && v.nonce == account.info.nonce && (v.code_hash is Some
            <==> account.info.has_code()) && (v.code_hash matches Some(hash) ==> hash
            == account.info.code_hash && v.code == account.info.code) && (v.code_hash is None
            ==> v.code is None)),
{
}

/// A reward is added to a balance and to what a recipient gets, and taken off what a sender spends, within
/// the bounds of a word. Nothing else can be rewarded.
pub proof fn law_rewards_are_added_to_what_was_written(value: MemoryValue, reward: int)
    requires
        reward >= 0,
    ensures
        match value {
            MemoryValue::Basic(held) => value_with_reward(value, reward) matches Some(
                MemoryValue::Basic(now),
            ) && now.nonce == held.nonce && now.balance@ == if held.balance@ + reward
                <= u256_max() {
                held.balance@ + reward
            } else {
                u256_max()
            },
            MemoryValue::LazyRecipient(add) => value_with_reward(value, reward) matches Some(
                MemoryValue::LazyRecipient(now),
            ) && now@ == if add@ + reward <= u256_max() {
                add@ + reward
            } else {
                u256_max()
            },
            MemoryValue::LazySender(sub) => value_with_reward(value, reward) matches Some(
                MemoryValue::LazySender(now),
            ) && now@ == if sub@ >= reward {
                sub@ - reward
            } else {
                0
            },
            _ => value_with_reward(value, reward) is None,
        },
{
    match value {
        MemoryValue::Basic(held) => {
            lemma_u256_bounds(held.balance);
            lemma_word(clamp(held.balance@ + reward, 0, u256_max()));
        },
        MemoryValue::LazyRecipient(add) => {
            lemma_u256_bounds(add);
            lemma_word(clamp(add@ + reward, 0, u256_max()));
        },
        MemoryValue::LazySender(sub) => {
            lemma_u256_bounds(sub);
            lemma_word(clamp(sub@ - reward, 0, u256_max()));
        },
        _ => {},
    }
}

/// A beneficiary that a transaction has written gets its reward on its first write, and every other write
/// stays as it is; one that was not written gets a write of its own.
pub proof fn law_rewards_change_one_write(
    ws: Seq<(MemoryLocationHash, MemoryValue)>,
    location: MemoryLocationHash,
    reward: int,
    out: Seq<(MemoryLocationHash, MemoryValue)>,
    i: int,
)
    requires
        rewarded(ws, location, reward) == Some(out),
        0 <= i < ws.len(),
    ensures
        ws[i].0 != location ==> out[i] == ws[i],
        ws[i].0 == location && (forall|j: int| 0 <= j < i ==> (#[trigger] ws[j]).0 != location)
            ==> out.len() == ws.len() && out[i].0 == location && value_with_reward(ws[i].1, reward)
            == Some(out[i].1),
        (forall|j: int| 0 <= j < ws.len() ==> (#[trigger] ws[j]).0 != location) ==> out.len()
            == ws.len() + 1 && out.last().0 == location && (
        out.last().1 matches MemoryValue::LazyRecipient(add) && (0 <= reward <= u256_max() ==> add@
            == reward)),
{
    if 0 <= reward <= u256_max() {
        lemma_word(reward);
    }
    if locations(ws).contains(location) {
        let k = choose|k: int| 0 <= k < ws.len() && (#[trigger] ws[k]).0 == location;
        lemma_first_write(ws, location, k);
        let f = choose|f: int| is_first_write(ws, location, f);
        if ws[i].0 == location && (forall|j: int| 0 <= j < i ==> (#[trigger] ws[j]).0 != location) {
            if f < i {
                assert(ws[f].0 != location);
            }
            if i < f {
                assert(ws[i].0 != location);
            }
        }
    } else {
        if ws[i].0 == location {
            assert(locations(ws).contains(location));
        }
    }
}

/// What can be settled is a whole account, what a recipient gets and what a sender spends.
pub proof fn law_balances_can_be_settled(entry: MemoryEntry)
    ensures
        settles(entry) <==> (entry matches MemoryEntry::Data(_, value) && (value is Basic
            || value is LazyRecipient || value is LazySender)),
{
}

/// An execution that is blocked waits for the transaction that blocks it, and one that has to be repeated is
/// repeated unless the block was given up; neither changes anything.
pub proof fn law_blocked_executions_wait(
    evm: &mut ParallelEvm,
    tx_version: TxVersion,
    outcome: Result<VmExecutionResult, VmExecutionError>,
    step: ExecutionStep,
)
    requires
        call_ensures(ParallelEvm::on_executed, (evm, tx_version, outcome), step),
    ensures
        outcome matches Err(VmExecutionError::Blocking(blocking)) ==> step == (
        ExecutionStep::AddDependency { tx_idx: tx_version.tx_idx, blocking_tx_idx: blocking })
            && *final(evm) == *old(evm),
        outcome matches Err(VmExecutionError::Retry) ==> *final(evm) == *old(evm) && (
        step is ExecuteAgain <==> old(evm).abort_reason is None) && (step is NoTask
            <==> old(evm).abort_reason is Some),
{
}

/// An execution that has finished leaves its result at its own index and nowhere else, and is reported with
/// its version and flags.
pub proof fn law_finished_executions_leave_their_result(
    evm: &mut ParallelEvm,
    tx_version: TxVersion,
    executed: VmExecutionResult,
    step: ExecutionStep,
    i: int,
)
    requires
        tx_version.tx_idx < old(evm).execution_results@.len(),
        call_ensures(
            ParallelEvm::on_executed,
            (evm, tx_version, Ok::<_, VmExecutionError>(executed)),
            step,
        ),
        0 <= i < old(evm).execution_results@.len(),
    ensures
        step == (ExecutionStep::FinishExecution { tx_version, flags: executed.flags }),
        final(evm).abort_reason == old(evm).abort_reason,
        final(evm).execution_results@.len() == old(evm).execution_results@.len(),
        final(evm).execution_results@[i] == if i == tx_version.tx_idx {
            Some(executed.execution_result)
        } else {
            old(evm).execution_results@[i]
        },
{
}

/// An execution that fails stops the scheduler, and the first reason for that is kept.
pub proof fn law_first_failures_are_kept(
    evm: &mut ParallelEvm,
    tx_version: TxVersion,
    outcome: Result<VmExecutionResult, VmExecutionError>,
    step: ExecutionStep,
)
    requires
        call_ensures(ParallelEvm::on_executed, (evm, tx_version, outcome), step),
        outcome matches Err(e) && (e is ExecutionError || e is FallbackToSequential),
    ensures
        step is AbortScheduler,
        final(evm).execution_results == old(evm).execution_results,
        old(evm).abort_reason is Some ==> final(evm).abort_reason == old(evm).abort_reason,
        old(evm).abort_reason is None ==> match outcome {
            Err(VmExecutionError::ExecutionError(e)) => final(evm).abort_reason == Some(
                AbortReason::ExecutionError(e),
            ),
            _ => final(evm).abort_reason == Some(AbortReason::FallbackToSequential),
        },
{
}

/// The results of a block come out in order, each as it was but for its gas, which counts that of the
/// results before it too; then they are gone.
pub proof fn law_results_come_out_in_order(
    evm: &mut ParallelEvm,
    block_size: usize,
    r: Vec<PevmTxExecutionResult>,
    i: int,
)
    requires
        block_size <= old(evm).execution_results@.len(),
        forall|j: int|
            0 <= j < block_size ==> (#[trigger] old(evm).execution_results@[j]) is Some,
        call_ensures(ParallelEvm::take_results, (evm, block_size), r),
        0 <= i < block_size,
    ensures
        r@.len() == block_size,
        ({
            let taken = old(evm).execution_results@[i]->0;
            &&& r@[i].receipt.status == taken.receipt.status
            &&& r@[i].receipt.logs == taken.receipt.logs
            &&& r@[i].state == taken.state
            &&& i == 0 ==> r@[i].receipt.cumulative_gas_used == taken.receipt.cumulative_gas_used
            &&& i > 0 ==> {
                let sum = r@[i - 1].receipt.cumulative_gas_used
                    + taken.receipt.cumulative_gas_used;
                r@[i].receipt.cumulative_gas_used == if sum <= u64::MAX {
                    sum
                } else {
                    u64::MAX as int
                }
            }
        }),
        final(evm).execution_results@[i] is None,
        final(evm).abort_reason == old(evm).abort_reason,
{
    reveal_with_fuel(gas_sum, 2);
    let taken = Seq::new(block_size as nat, |j: int| old(evm).execution_results@[j]->0);
    assert(accumulated(taken[i], gas_sum(taken, (i + 1) as nat), r@[i]));
    lemma_gas_sum_nonnegative(taken, i as nat);
    if i > 0 {
        assert(accumulated(taken[i - 1], gas_sum(taken, i as nat), r@[i - 1]));
    }
}

/// The reason why a block was given up is handed out once.
pub proof fn law_reasons_are_handed_out_once(
    evm: &mut ParallelEvm,
    r: Option<AbortReason>,
)
    requires
        call_ensures(ParallelEvm::take_abort, (evm,), r),
    ensures
        r == old(evm).abort_reason,
        final(evm).abort_reason is None,
        final(evm).execution_results == old(evm).execution_results,
{
}

/// Making room for a block loses no result and adds only empty ones.
pub proof fn law_room_is_made_for_a_block(evm: &mut ParallelEvm, block_size: usize, i: int)
    requires
        call_ensures(ParallelEvm::reserve, (evm, block_size), ()),
        0 <= i < final(evm).execution_results@.len(),
    ensures
        final(evm).execution_results@.len() >= block_size,
        final(evm).execution_results@[i] == if i < old(evm).execution_results@.len() {
            old(evm).execution_results@[i]
        } else {
            None
        },
{
    let n = old(evm).execution_results@.len() as int;
    if i < n {
        assert(final(evm).execution_results@.take(n)[i] == old(evm).execution_results@[i]);
    }
}

/// Addresses that are left to be settled are all noted, beside those that were, and nothing else changes.
pub proof fn law_lazy_addresses_are_noted(
    memory: &mut MvMemory,
    addresses: Vec<Address>,
    a: Address,
)
    requires
        old(memory).wf(),
        call_ensures(MvMemory::add_lazy_addresses, (memory, addresses), ()),
    ensures
        final(memory)@.lazy.contains(a) <==> old(memory)@.lazy.contains(a)
            || addresses@.contains(a),
        final(memory)@.data == old(memory)@.data,
        final(memory)@.reads == old(memory)@.reads,
        final(memory)@.writes == old(memory)@.writes,
{
}

/// A write is found under its own transaction, and no other write is touched by it.
pub proof fn law_writes_are_kept_by_transaction(
    history: &mut WriteHistory,
    tx_idx: TxIdx,
    entry: MemoryEntry,
    other: TxIdx,
)
    requires
        call_ensures(WriteHistory::insert, (history, tx_idx, entry), ()),
    ensures
        final(history)@.contains_key(tx_idx) && final(history)@[tx_idx] == entry,
        other != tx_idx ==> (final(history)@.contains_key(other) <==> old(history)@.contains_key(
            other,
        )),
        other != tx_idx && old(history)@.contains_key(other) ==> final(history)@[other]
            == old(history)@[other],
{
}

/// A write that is taken back is gone, and no other.
pub proof fn law_writes_are_taken_back_by_transaction(
    history: &mut WriteHistory,
    tx_idx: TxIdx,
    other: TxIdx,
)
    requires
        call_ensures(WriteHistory::remove, (history, tx_idx), ()),
    ensures
        !final(history)@.contains_key(tx_idx),
        other != tx_idx ==> (final(history)@.contains_key(other) <==> old(history)@.contains_key(
            other,
        )),
        other != tx_idx && old(history)@.contains_key(other) ==> final(history)@[other]
            == old(history)@[other],
{
}

/// A read before a transaction finds the write of the last transaction before it that has written, and
/// nothing where none has.
pub proof fn law_reads_find_the_closest_write(
    history: &WriteHistory,
    bound: TxIdx,
    r: Option<(TxIdx, MemoryEntry)>,
    earlier: TxIdx,
)
    requires
        call_ensures(WriteHistory::closest, (history, bound), r),
        history@.contains_key(earlier),
        earlier < bound,
    ensures
        r matches Some((at, entry)) && earlier <= at < bound && history@.contains_key(at)
            && history@[at] == entry,
{
    lemma_closest_before(history@, bound);
}

} // verus!
