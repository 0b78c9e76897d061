//! What holds of the environment and the machine that a block runs in.

use crate::evm::assembler::{empty_ommer_hash_spec, EthBlockAssembler};
use crate::evm::assoc::{holds_at, map_of, one_per_key, AssocMap, Key};
use crate::evm::block_builder::{
    ended_with, unzip_recovered, Assembly, BasicBlockBuilder, BlockBuilderOutcome,
};
use crate::evm::block_executor::{BlockRules, CommitChanges, EthBlockExecutionCtx};
use crate::evm::builder::{
    EthEvm, EthEvmBuilder, EthEvmFactory, NoOpInspector, PrecompileSet, RunMode,
};
use crate::evm::cached_reads::{
    provided, CachedReadsDbMut, DatabaseRef, EvmStateProvider, ProviderAccount,
    StateProviderDatabase,
};
use crate::evm::chain_spec::ChainSpec;
use crate::evm::config::EthEvmConfig;
use crate::evm::env::{
    BlobExcessGasAndPrice, EvmEnv, Header, NextBlockEnvAttributes, NextEvmEnvAttributes,
};
use crate::evm::machine::{Evm, RequestParser, StateRootProvider};
use crate::evm::receipts::{Receipt, RethReceiptBuilder};
use crate::evm::rewards::lists_nonzero;
use crate::evm::spec_id::SpecId;
use crate::evm::steps::Step;
use crate::evm::system_calls::{system_address_spec, StateChange};
use crate::evm::tx_env::Recovered;
use crate::parallel::storage::AccountInfo;
use crate::primitives::{keccak_empty_spec, Address, Withdrawal, B256, U256};
use vstd::prelude::*;

verus! {

/// A machine gives back the database and the environment that it was made with. Without an inspector it
/// runs plain, with the built-in contracts of the rule set of its environment.
pub proof fn law_machines_give_back_their_environment<DB, P>(
    factory: &EthEvmFactory,
    db: DB,
    env: EvmEnv,
    machine: EthEvm<DB, NoOpInspector, P>,
    mode: RunMode,
    given: (DB, EvmEnv),
    chain_id: u64,
)
    requires
        call_ensures(EthEvmFactory::create_evm::<DB, P>, (factory, db, env), machine),
        call_ensures(EthEvm::<DB, NoOpInspector, P>::run_mode, (&machine,), mode),
        call_ensures(EthEvm::<DB, NoOpInspector, P>::finish, (machine,), given),
        call_ensures(EthEvm::<DB, NoOpInspector, P>::chain_id, (&machine,), chain_id),
    ensures
        given == (db, env),
        chain_id == env.cfg_env.chain_id,
        mode is Plain,
        machine.parts().precompiles == PrecompileSet::<P>::OfSpec(env.cfg_env.spec),
{
}

/// A machine that was made with an inspector runs with it looking on, and gives back the same.
pub proof fn law_inspectors_look_on<DB, I, P>(
    factory: &EthEvmFactory,
    db: DB,
    env: EvmEnv,
    inspector: I,
    machine: EthEvm<DB, I, P>,
    mode: RunMode,
    given: (DB, EvmEnv),
)
    requires
        call_ensures(
            EthEvmFactory::create_evm_with_inspector::<DB, I, P>,
            (factory, db, env, inspector),
            machine,
        ),
        call_ensures(EthEvm::<DB, I, P>::run_mode, (&machine,), mode),
        call_ensures(EthEvm::<DB, I, P>::finish, (machine,), given),
    ensures
        given == (db, env),
        mode is Inspect,
        machine.parts().inspector == inspector,
        machine.parts().precompiles == PrecompileSet::<P>::OfSpec(env.cfg_env.spec),
{
}

/// The built-in contracts of a machine are those that were set, else those of its rule set, and its
/// inspector looks on exactly where that was asked for last.
pub proof fn law_builders_keep_what_was_set<DB, P>(
    db: DB,
    env: EvmEnv,
    contracts: P,
    looks_on: bool,
    fresh: EthEvmBuilder<DB, NoOpInspector, P>,
    set: EthEvmBuilder<DB, NoOpInspector, P>,
    told: EthEvmBuilder<DB, NoOpInspector, P>,
    machine: EthEvm<DB, NoOpInspector, P>,
    mode: RunMode,
)
    requires
        call_ensures(EthEvmBuilder::<DB, NoOpInspector, P>::new, (db, env), fresh),
        call_ensures(
            EthEvmBuilder::<DB, NoOpInspector, P>::precompiles,
            (fresh, contracts),
            set,
        ),
        call_ensures(EthEvmBuilder::<DB, NoOpInspector, P>::set_inspect, (set, looks_on), told),
        call_ensures(EthEvmBuilder::<DB, NoOpInspector, P>::build, (told,), machine),
        call_ensures(EthEvm::<DB, NoOpInspector, P>::run_mode, (&machine,), mode),
    ensures
        machine.parts().precompiles == PrecompileSet::Custom(contracts),
        machine.parts().ctx.block == env.block_env,
        machine.parts().ctx.cfg == env.cfg_env,
        machine.parts().ctx.db == db,
        mode is Inspect <==> looks_on,
{
}

/// The context of a block holds what its header says, its ommers and its withdrawals.
pub proof fn law_contexts_are_of_their_block<F>(
    config: &EthEvmConfig<F>,
    header: Header,
    transaction_count: usize,
    ommers: Vec<Header>,
    withdrawals: Option<Vec<Withdrawal>>,
    ctx: EthBlockExecutionCtx,
)
    requires
        call_ensures(
            EthEvmConfig::<F>::context_for_block,
            (config, header, transaction_count, ommers, withdrawals),
            ctx,
        ),
    ensures
        ctx.parent_hash == header.parent_hash,
        ctx.parent_beacon_block_root == header.parent_beacon_block_root,
        ctx.ommers == ommers,
        ctx.withdrawals == withdrawals,
        ctx.extra_data == header.extra_data,
{
}

/// The next block follows its parent: its number is one more, and all else is as its attributes say. It
/// has no ommers and no difficulty.
pub proof fn law_next_blocks_are_as_laid_down<F>(
    config: &EthEvmConfig<F>,
    parent: &Header,
    parent_hash: B256,
    attributes: NextBlockEnvAttributes,
    of_env: NextEvmEnvAttributes,
    base_fee: u64,
    spec: SpecId,
    chain_id: u64,
    blob: Option<BlobExcessGasAndPrice>,
    env: EvmEnv,
    ctx: EthBlockExecutionCtx,
)
    requires
        parent.number < u64::MAX,
        call_ensures(NextBlockEnvAttributes::env_attributes, (&attributes,), of_env),
        call_ensures(
            EvmEnv::for_eth_next_block,
            (parent, of_env, base_fee, spec, chain_id, blob),
            env,
        ),
        call_ensures(
            EthEvmConfig::<F>::context_for_next_block,
            (config, parent_hash, attributes),
            ctx,
        ),
    ensures
        env.block_env.number@ == parent.number + 1,
        env.block_env.timestamp@ == attributes.timestamp,
        env.block_env.beneficiary == attributes.suggested_fee_recipient,
        env.block_env.prevrandao == Some(attributes.prev_randao),
        env.block_env.gas_limit == attributes.gas_limit,
        env.block_env.basefee == base_fee,
        env.block_env.difficulty@ == 0,
        env.block_env.blob_excess_gas_and_price == blob,
        env.cfg_env.spec == spec,
        env.cfg_env.chain_id == chain_id,
        ctx.parent_hash == parent_hash,
        ctx.parent_beacon_block_root == attributes.parent_beacon_block_root,
        ctx.withdrawals == attributes.withdrawals,
        ctx.extra_data == attributes.extra_data,
        ctx.ommers@.len() == 0,
{
}

/// The accounts of the DAO are drained at one block at most, and at none where the chain has no such fork.
pub proof fn law_the_dao_is_drained_at_one_block(
    rules: &ChainSpec,
    number: u64,
    drained: bool,
)
    requires
        call_ensures(ChainSpec::is_dao_transition, (rules, number), drained),
    ensures
        rules.dao_fork_block is None ==> !drained,
        rules.dao_fork_block matches Some(at) ==> (drained <==> at == number),
{
}

/// Changes are kept exactly where that was asked for.
pub proof fn law_changes_are_kept_on_request(choice: CommitChanges, kept: bool)
    requires
        call_ensures(CommitChanges::should_commit, (choice,), kept),
    ensures
        choice is Yes ==> kept,
        choice is No ==> !kept,
{
}

/// The machine sees the accounts of the database as they are, without their code; an account without code
/// has the hash of no bytes.
pub proof fn law_accounts_are_provided_as_they_are(account: ProviderAccount)
    ensures
        provided(account).balance == account.balance,
        provided(account).nonce == account.nonce,
        account.bytecode_hash matches Some(hash) ==> provided(account).code_hash == hash,
        account.bytecode_hash is None ==> !provided(account).has_code(),
        provided(account).code is None,
{
}

/// What the database answers is what the machine is served: accounts as they are provided, and failures
/// as they are. A slot that the database does not know is zero, and a block hash too.
pub proof fn law_the_database_is_served<DB: EvmStateProvider>(
    db: &StateProviderDatabase<DB>,
    address: Address,
    slot: U256,
    number: u64,
    account: Result<Option<AccountInfo>, String>,
    value: Result<U256, String>,
    hash: Result<B256, String>,
)
    requires
        call_ensures(StateProviderDatabase::<DB>::basic_ref, (db, address), account),
        call_ensures(StateProviderDatabase::<DB>::storage_ref, (db, address, slot), value),
        call_ensures(StateProviderDatabase::<DB>::block_hash_ref, (db, number), hash),
    ensures
        exists|reply: Result<Option<ProviderAccount>, String>| #[trigger]
            call_ensures(DB::basic_account, (&db.0, &address), reply) && (reply is Err
                <==> account is Err) && (reply matches Ok(Some(held)) ==> (account matches Ok(
                Some(seen),
            ) && seen.balance == held.balance && seen.nonce == held.nonce && (
            held.bytecode_hash matches Some(hash) ==> seen.code_hash == hash))) && (reply matches Ok(
                None,
            ) ==> (account matches Ok(None))),
        exists|reply: Result<Option<U256>, String>| #[trigger]
            call_ensures(DB::storage, (&db.0, &address, &slot), reply) && (reply is Err
                <==> value is Err) && (reply matches Ok(Some(held)) ==> (value matches Ok(seen)
                && seen == held)) && (reply matches Ok(None) ==> (value matches Ok(seen) && seen@
                == 0)),
        exists|reply: Result<Option<B256>, String>| #[trigger]
            call_ensures(DB::block_hash, (&db.0, number), reply) && (reply is Err <==> hash is Err)
                && (reply matches Ok(Some(held)) ==> (hash matches Ok(seen) && seen == held)) && (
            reply matches Ok(None) ==> (hash matches Ok(seen) && seen.hi == 0 && seen.lo == 0)),
{
}

/// A list with each key once holds, for each of its keys, the value that stands with it.
pub proof fn law_lists_hold_their_entries<K, V>(entries: Seq<(K, V)>, i: int)
    requires
        one_per_key(entries),
        0 <= i < entries.len(),
    ensures
        map_of(entries).contains_key(entries[i].0),
        map_of(entries)[entries[i].0] == entries[i].1,
        forall|k: K| #[trigger]
            map_of(entries).contains_key(k) ==> exists|j: int|
                0 <= j < entries.len() && (#[trigger] entries[j]).0 == k,
{
    assert(holds_at(entries, entries[i].0, i));
}

/// System calls come from `0xfffffffffffffffffffffffffffffffffffffffe`, and a block without ommers has the
/// hash of an empty list.
pub proof fn law_fixed_addresses_and_hashes()
    ensures
        system_address_spec().hi == 0xffffffffffffffffffffffffffffffffu128,
        system_address_spec().lo == 0xfffffffeu32,
        empty_ommer_hash_spec().hi == 0x1dcc4de8dec75d7aab85b567b6ccd41au128,
        empty_ommer_hash_spec().lo == 0xd312451b948a7413f0a142fd40d49347u128,
        keccak_empty_spec().hi == 0xc5d2460186f7233c927e7db2dcc703c0u128,
        keccak_empty_spec().lo == 0xe500b653ca82273b7bfad8045d85a470u128,
{
}

/// A block that exists runs in the environment that its header tells of, under the rules of its chain. From
/// the merge on it has no difficulty, and what its header mixes in is its randomness.
pub proof fn law_blocks_run_in_the_environment_of_their_header<F>(
    config: &EthEvmConfig<F>,
    header: &Header,
    spec: SpecId,
    blob: Option<BlobExcessGasAndPrice>,
    env: EvmEnv,
)
    requires
        call_ensures(EthEvmConfig::<F>::evm_env, (config, header, spec, blob), env),
    ensures
        env.cfg_env.spec == spec,
        env.cfg_env.chain_id == config.executor_factory.rules().chain_id,
        env.block_env.number@ == header.number,
        env.block_env.timestamp@ == header.timestamp,
        env.block_env.beneficiary == header.beneficiary,
        env.block_env.gas_limit == header.gas_limit,
        header.base_fee_per_gas matches Some(fee) ==> env.block_env.basefee == fee,
        header.base_fee_per_gas is None ==> env.block_env.basefee == 0,
        env.block_env.prevrandao is Some <==> spec.enables(SpecId::Merge),
        env.block_env.prevrandao matches Some(mix) ==> mix == header.mix_hash
            && env.block_env.difficulty@ == 0,
        env.block_env.prevrandao is None ==> env.block_env.difficulty == header.difficulty,
        env.block_env.blob_excess_gas_and_price == blob,
{
}

/// The next block runs in the environment that its attributes lay down, with the base fee that follows from
/// its parent, and with none where none follows.
pub proof fn law_next_blocks_run_as_laid_down<F>(
    config: &EthEvmConfig<F>,
    parent: &Header,
    attributes: &NextBlockEnvAttributes,
    next_base_fee: Option<u64>,
    spec: SpecId,
    blob: Option<BlobExcessGasAndPrice>,
    env: EvmEnv,
)
    requires
        parent.number < u64::MAX,
        call_ensures(
            EthEvmConfig::<F>::next_evm_env,
            (config, parent, attributes, next_base_fee, spec, blob),
            env,
        ),
    ensures
        env.cfg_env.spec == spec,
        env.cfg_env.chain_id == config.executor_factory.rules().chain_id,
        env.block_env.number@ == parent.number + 1,
        env.block_env.timestamp@ == attributes.timestamp,
        env.block_env.beneficiary == attributes.suggested_fee_recipient,
        env.block_env.gas_limit == attributes.gas_limit,
        next_base_fee matches Some(fee) ==> env.block_env.basefee == fee,
        next_base_fee is None ==> env.block_env.basefee == 0,
        env.block_env.prevrandao == Some(attributes.prev_randao),
        env.block_env.difficulty@ == 0,
        env.block_env.blob_excess_gas_and_price == blob,
{
}

/// A block keeps all its withdrawals from Shanghai on, and none before.
pub proof fn law_withdrawals_are_kept_from_shanghai_on(
    assembler: &EthBlockAssembler,
    env: &EvmEnv,
    ctx: &EthBlockExecutionCtx,
    kept: Option<Vec<Withdrawal>>,
)
    requires
        call_ensures(EthBlockAssembler::kept_withdrawals, (assembler, env, ctx), kept),
    ensures
        env.cfg_env.spec.enables(SpecId::Shanghai) && ctx.withdrawals is Some ==> (
        kept matches Some(w) && w@ == ctx.withdrawals->0@),
        !env.cfg_env.spec.enables(SpecId::Shanghai) || ctx.withdrawals is None ==> kept is None,
{
}

/// Transactions and signers come apart in the order in which they stood together.
pub proof fn law_signers_stay_with_their_transactions<T>(
    recovered: Vec<Recovered<T>>,
    apart: (Vec<T>, Vec<Address>),
    i: int,
)
    requires
        call_ensures(unzip_recovered::<T>, (recovered,), apart),
        0 <= i < recovered@.len(),
    ensures
        apart.0@.len() == recovered@.len() == apart.1@.len(),
        apart.0@[i] == recovered@[i].tx,
        apart.1@[i] == recovered@[i].signer,
{
}

/// The balances that are listed are those that grow: each once, by its amount, and none by nothing.
pub proof fn law_only_growing_balances_are_listed(
    entries: Seq<(Address, u128)>,
    amounts: Map<Address, int>,
    a: Address,
)
    requires
        lists_nonzero(entries, amounts),
        amounts.contains_key(a),
    ensures
        amounts[a] != 0 <==> exists|i: int|
            0 <= i < entries.len() && (#[trigger] entries[i]).0 == a && entries[i].1 == amounts[a],
        forall|i: int, j: int|
            0 <= i < j < entries.len() ==> (#[trigger] entries[i]).0 != (#[trigger] entries[j]).0,
{
    if amounts[a] != 0 {
        let i = choose|i: int| holds_at(entries, a, i);
        assert(entries[i].0 == a);
    }
}

/// What was put into a list under a key is what the list holds under it, and no other key is touched.
pub proof fn law_lists_keep_what_was_put_in<K: Key, V>(
    list: &mut AssocMap<K, V>,
    key: K,
    value: V,
    other: K,
)
    requires
        call_ensures(AssocMap::<K, V>::insert, (list, key, value), ()),
    ensures
        final(list)@.contains_key(key) && final(list)@[key] == value,
        other != key ==> (final(list)@.contains_key(other) <==> old(list)@.contains_key(other)),
        other != key && old(list)@.contains_key(other) ==> final(list)@[other] == old(list)@[other],
{
}

/// What is taken out of a list is what it held under the key; then the key is gone, and no other.
pub proof fn law_lists_hand_out_what_they_hold<K: Key, V>(
    list: &mut AssocMap<K, V>,
    key: K,
    r: Option<V>,
    other: K,
)
    requires
        call_ensures(AssocMap::<K, V>::take, (list, key), r),
    ensures
        r is Some <==> old(list)@.contains_key(key),
        r matches Some(value) ==> value == old(list)@[key],
        !final(list)@.contains_key(key),
        other != key ==> (final(list)@.contains_key(other) <==> old(list)@.contains_key(other)),
{
}

/// A slot that is known is not read again; one that was read is known from then on, and nothing else that
/// was known is forgotten.
pub proof fn law_slots_are_read_once<'a, DB: DatabaseRef>(
    reads: &mut CachedReadsDbMut<'a, DB>,
    address: Address,
    index: U256,
    r: Result<U256, String>,
    known: (Address, U256),
)
    requires
        call_ensures(CachedReadsDbMut::<'a, DB>::storage_ref, (reads, address, index), r),
    ensures
        old(reads).cached@.slots.contains_key((address, index)) ==> (r matches Ok(value) && value
            == old(reads).cached@.slots[(address, index)]),
        r matches Ok(value) ==> final(reads).cached@.slots.contains_key((address, index))
            && final(reads).cached@.slots[(address, index)] == value,
        old(reads).cached@.slots.contains_key(known) ==> final(reads).cached@.slots.contains_key(
            known,
        ) && final(reads).cached@.slots[known] == old(reads).cached@.slots[known],
        final(reads).cached@.infos == old(reads).cached@.infos,
{
}

/// An account that is known is not read again; one that was read is known from then on, and nothing else
/// that was known is forgotten.
pub proof fn law_accounts_are_read_once<'a, DB: DatabaseRef>(
    reads: &mut CachedReadsDbMut<'a, DB>,
    address: Address,
    r: Result<Option<AccountInfo>, String>,
    known: Address,
)
    requires
        call_ensures(CachedReadsDbMut::<'a, DB>::basic_ref, (reads, address), r),
    ensures
        old(reads).cached@.infos.contains_key(address) ==> (r matches Ok(info) && info
            == old(reads).cached@.infos[address]),
        r matches Ok(info) ==> final(reads).cached@.infos.contains_key(address)
            && final(reads).cached@.infos[address] == info,
        old(reads).cached@.infos.contains_key(known) ==> final(reads).cached@.infos.contains_key(
            known,
        ) && final(reads).cached@.infos[known] == old(reads).cached@.infos[known],
        final(reads).cached@.slots == old(reads).cached@.slots,
{
}

/// A block that was built holds the transactions that stayed, in order, each with who signed it; its header
/// has the root that the state gives after it, the gas that its transactions have used, and the limit and
/// beneficiary of its environment. Its receipts are those of its transactions.
pub proof fn law_built_blocks_hold_their_transactions<
    'a,
    E: Evm,
    P: RequestParser<Receipt>,
    S: StateRootProvider<E>,
>(
    builder: BasicBlockBuilder<E, RethReceiptBuilder>,
    rules: BlockRules,
    parser: P,
    assembly: Assembly<'a, S>,
    steps: Seq<Step>,
    to: E,
    done: BlockBuilderOutcome<E, S::HashedState, S::TrieUpdates>,
    changes: Seq<StateChange>,
    i: int,
)
    requires
        ended_with::<E, P, S>(
            builder,
            rules,
            parser,
            assembly,
            steps,
            to,
            Ok(done),
            changes,
        ),
        0 <= i < builder.transactions@.len(),
    ensures
        done.block.body.transactions@.len() == builder.transactions@.len() == done.senders@.len(),
        done.block.body.transactions@[i] == builder.transactions@[i].tx,
        done.senders@[i] == builder.transactions@[i].signer,
        done.evm == to,
        done.execution_result.receipts@ == builder.executor.made_receipts(),
        done.block.header.gas_used == builder.executor.gas(),
        done.block.header.gas_limit == assembly.env.block_env.gas_limit,
        done.block.header.beneficiary == assembly.env.block_env.beneficiary,
        done.block.header.parent_hash == builder.executor.context().parent_hash,
        call_ensures(S::hashed_post_state, (assembly.state, &done.evm), done.hashed_state),
        call_ensures(
            S::state_root_with_updates,
            (assembly.state, &done.hashed_state),
            Ok::<_, String>((done.block.header.state_root, done.trie_updates)),
        ),
        steps.len() > 0 && steps.last() is Merge,
{
}

} // verus!
