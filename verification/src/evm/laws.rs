//! What holds of transactions, rules, rewards, roots and assembled blocks.

use crate::evm::assembler::{
    bloom_of, excess_after, hash_of_requests, logs_of,
    AssembledBlock, EthBlockAssembler,
};
use crate::evm::block_executor::{
    available_gas, blob_gas, clears_state, drains_dao_at, due, executed_in_order, gas_after,
    gas_counted, output_of, refused, with_drained, BlockExecutionResult, EthBlockExecutionCtx,
    EthBlockExecutor,
};
use crate::evm::chain_spec::{reached, ChainSpec};
use crate::evm::env::{is_env_of, BlockEnv, EvmEnv, Header};
use crate::evm::receipts::{Receipt, ReceiptBuilder, ReceiptBuilderCtx, RethReceiptBuilder};
use crate::evm::rewards::{
    amount_count, amount_of, base_reward, block_credits, credited, drained_sum, is_incremented,
    miner_share, ommer_share, reward_credits, total, withdrawal_credits,
};
use crate::evm::roots::{
    encoding_of, log_parts, ordered_root, receipt_encoding, receipts_root_of,
    transactions_root_of, type_number, withdrawal_encoding, withdrawals_root_of,
};
use crate::evm::spec_id::SpecId;
use crate::evm::system_calls::{BlockExecutionError, ResultAndState};
use crate::evm::tx_env::{
    FromRecoveredTx, Recovered, TransactionSigned, TxEnv, TxPricing, TxType,
};
use crate::parallel::state::{ExecutionResult, StateAccount};
use crate::parallel::storage::AccountInfo;
use crate::primitives::{lemma_u256_bounds, u256_max, Address, Withdrawal, B256};
use vstd::prelude::*;

verus! {

/// A transaction has the type that its pricing is named after, so that transactions have the same type
/// exactly where they are priced in the same way.
pub proof fn law_types_follow_the_pricing(tx: TransactionSigned)
    ensures
        tx.tx_type() is Legacy <==> tx.pricing is Legacy,
        tx.tx_type() is Eip2930 <==> tx.pricing is Eip2930,
        tx.tx_type() is Eip1559 <==> tx.pricing is Eip1559,
        tx.tx_type() is Eip4844 <==> tx.pricing is Eip4844,
        tx.tx_type() is Eip7702 <==> tx.pricing is Eip7702,
{
}

/// The receipt of each transaction of a block has the type that the pricing of that transaction is named
/// after, and tells whether that transaction succeeded, its events, and the gas up to it.
pub proof fn law_receipts_tell_of_their_transaction<E>(
    executor: EthBlockExecutor<E, RethReceiptBuilder>,
    block: BlockEnv,
    txs: Seq<(TxEnv, Recovered<TransactionSigned>)>,
    results: Seq<ExecutionResult>,
    receipts: Seq<Receipt>,
    i: int,
)
    requires
        executed_in_order(executor, block, txs, results, receipts),
        0 <= i < txs.len(),
    ensures
        receipts.len() == executor.made_receipts().len() + txs.len(),
        ({
            let receipt = receipts[executor.made_receipts().len() + i];
            let pricing = txs[i].1.tx.pricing;
            &&& receipt.tx_type is Legacy <==> pricing is Legacy
            &&& receipt.tx_type is Eip2930 <==> pricing is Eip2930
            &&& receipt.tx_type is Eip1559 <==> pricing is Eip1559
            &&& receipt.tx_type is Eip4844 <==> pricing is Eip4844
            &&& receipt.tx_type is Eip7702 <==> pricing is Eip7702
            &&& receipt.success == results[i].success
            &&& receipt.logs == results[i].logs
            &&& receipt.cumulative_gas_used == gas_counted(
                executor.gas(),
                results,
                (i + 1) as nat,
            ) as u64
        }),
        forall|k: int|
            0 <= k < executor.made_receipts().len() ==> (#[trigger] receipts[k])
                == executor.made_receipts()[k],
{
    let first = executor.made_receipts().len();
    law_types_follow_the_pricing(txs[i].1.tx);
    assert(executor.builder().is_receipt_of(
        ReceiptBuilderCtx {
            tx_type: txs[i].1.tx.tx_type(),
            result: results[i],
            cumulative_gas_used: gas_counted(executor.gas(), results, (i + 1) as nat) as u64,
        },
        receipts[first + i],
    ));
    assert forall|k: int| 0 <= k < first implies (#[trigger] receipts[k])
        == executor.made_receipts()[k] by {
        assert(receipts.take(first as int)[k] == receipts[k]);
    }
}

/// The gas counted grows by what each transaction uses, and starts over only past the largest count.
pub proof fn law_gas_is_counted_once(start: u64, results: Seq<ExecutionResult>, n: nat)
    requires
        n < results.len(),
        0 <= gas_counted(start, results, n),
        gas_counted(start, results, n) + results[n as int].gas_used <= u64::MAX,
    ensures
        gas_counted(start, results, 0) == start,
        gas_counted(start, results, n + 1) == gas_counted(start, results, n)
            + results[n as int].gas_used,
{
}

/// Two amounts of gas add up, if the counter can hold the sum.
pub proof fn law_gas_adds_up(used: u64, more: u64)
    requires
        used + more <= u64::MAX,
    ensures
        gas_after(used, more) == used + more,
{
}

/// A transaction may use what its block has left: what is left and what is used make up the limit, and
/// nothing is left where more than the limit is used.
pub proof fn law_available_gas_is_what_is_left<E, R: ReceiptBuilder>(
    executor: EthBlockExecutor<E, R>,
    block: BlockEnv,
)
    ensures
        executor.gas() <= block.gas_limit ==> available_gas(executor, block) + executor.gas()
            == block.gas_limit,
        executor.gas() > block.gas_limit ==> available_gas(executor, block) == 0,
{
}

/// A refusal tells what the transaction may use and what was left.
pub proof fn law_refusals_tell_both_amounts<T>(
    gas_limit: u64,
    available: int,
    r: Result<T, BlockExecutionError>,
)
    requires
        refused(gas_limit, available, r),
        0 <= available <= u64::MAX,
    ensures
        r matches Err(
            BlockExecutionError::TransactionGasLimitMoreThanAvailableBlockGas {
                transaction_gas_limit,
                block_available_gas,
            },
        ) && transaction_gas_limit == gas_limit && block_available_gas == available,
{
}

/// A transaction uses 131072 blob gas for each of its blobs, and none without blobs.
pub proof fn law_blobs_cost_the_same(tx: TxEnv)
    ensures
        tx.blob_hashes is None ==> blob_gas(tx) == 0,
        tx.blob_hashes matches Some(hashes) && hashes@.len() * 131_072 <= u64::MAX ==> blob_gas(tx)
            == (tx.blob_hashes->0)@.len() * 131_072,
{
}

/// What comes of a transaction is what the machine gave, for that transaction, with its blob gas and its
/// type.
pub proof fn law_outputs_are_of_their_transaction(
    tx: TxEnv,
    recovered: Recovered<TransactionSigned>,
    done: ResultAndState,
)
    ensures
        output_of(tx, recovered, done).result == done,
        output_of(tx, recovered, done).tx == recovered,
        output_of(tx, recovered, done).blob_gas_used as int == blob_gas(tx),
        output_of(tx, recovered, done).tx_type is Eip4844 <==> recovered.tx.pricing is Eip4844,
        output_of(tx, recovered, done).tx_type is Eip1559 <==> recovered.tx.pricing is Eip1559,
        output_of(tx, recovered, done).tx_type is Legacy <==> recovered.tx.pricing is Legacy,
{
}

/// What the virtual machine is given of a transaction is that of the transaction: who sends it, to whom,
/// how much, with which data, nonce, gas limit, chain and access list.
pub proof fn law_machines_get_the_transaction(tx: TransactionSigned, sender: Address, r: TxEnv)
    requires
        <TxEnv as FromRecoveredTx<TransactionSigned>>::is_from(tx, sender, r),
    ensures
        r.caller == sender,
        r.kind == tx.to,
        r.value == tx.value,
        r.data == tx.input,
        r.nonce == tx.nonce,
        r.gas_limit == tx.gas_limit,
        r.chain_id == tx.chain_id,
        tx.access_list matches Some(list) ==> r.access_list == list,
        tx.access_list is None ==> r.access_list@.len() == 0,
{
}

/// The virtual machine is given the price of the transaction: the one price that it names, else the most
/// that it pays. A tip comes with the two kinds that name one, blobs with the kind that carries them,
/// and authorizations with the kind that carries those.
pub proof fn law_machines_get_the_price(tx: TransactionSigned, sender: Address, r: TxEnv)
    requires
        <TxEnv as FromRecoveredTx<TransactionSigned>>::is_from(tx, sender, r),
    ensures
        tx.pricing matches TxPricing::Legacy { gas_price } ==> r.gas_price == gas_price
            && r.max_fee_per_gas == gas_price,
        tx.pricing matches TxPricing::Eip2930 { gas_price } ==> r.gas_price == gas_price
            && r.max_fee_per_gas == gas_price,
        tx.pricing matches TxPricing::Eip1559 { max_fee_per_gas, max_priority_fee_per_gas }
            ==> r.gas_price == max_fee_per_gas && r.max_fee_per_gas == max_fee_per_gas
            && r.gas_priority_fee == Some(max_priority_fee_per_gas),
        tx.pricing matches TxPricing::Eip4844 {
            max_fee_per_gas,
            max_priority_fee_per_gas,
            blob_versioned_hashes,
            max_fee_per_blob_gas,
        } ==> r.gas_price == max_fee_per_gas && r.max_fee_per_gas == max_fee_per_gas
            && r.gas_priority_fee == Some(max_priority_fee_per_gas) && r.blob_hashes == Some(
            blob_versioned_hashes,
        ) && r.max_fee_per_blob_gas == Some(max_fee_per_blob_gas),
        tx.pricing matches TxPricing::Eip7702 { max_fee_per_gas, authorization_list }
            ==> r.gas_price == max_fee_per_gas && r.authorization_list == Some(authorization_list),
        r.gas_priority_fee is Some <==> tx.pricing is Eip1559 || tx.pricing is Eip4844,
        r.blob_hashes is Some <==> tx.pricing is Eip4844,
        r.max_fee_per_blob_gas is Some <==> tx.pricing is Eip4844,
        r.authorization_list is Some <==> tx.pricing is Eip7702,
{
}

/// A rule set enables itself and those before it, and none after it.
pub proof fn law_rule_sets_follow_one_another(a: SpecId, b: SpecId, c: SpecId)
    ensures
        a.enables(a),
        a.enables(SpecId::Frontier),
        SpecId::Amsterdam.enables(a),
        a.enables(b) || b.enables(a),
        a.enables(b) && b.enables(a) ==> a == b,
        a.enables(b) && b.enables(c) ==> a.enables(c),
        !SpecId::Frontier.enables(SpecId::FrontierThawing),
        SpecId::FrontierThawing.enables(a) || a.enables(SpecId::Homestead),
        SpecId::Homestead.enables(a) || a.enables(SpecId::DaoFork),
        SpecId::DaoFork.enables(a) || a.enables(SpecId::Tangerine),
        SpecId::Tangerine.enables(a) || a.enables(SpecId::SpuriousDragon),
        SpecId::SpuriousDragon.enables(a) || a.enables(SpecId::Byzantium),
        SpecId::Byzantium.enables(a) || a.enables(SpecId::Constantinople),
        SpecId::Constantinople.enables(a) || a.enables(SpecId::Petersburg),
        SpecId::Petersburg.enables(a) || a.enables(SpecId::Istanbul),
        SpecId::Istanbul.enables(a) || a.enables(SpecId::MuirGlacier),
        SpecId::MuirGlacier.enables(a) || a.enables(SpecId::Berlin),
        SpecId::Berlin.enables(a) || a.enables(SpecId::London),
        SpecId::London.enables(a) || a.enables(SpecId::ArrowGlacier),
        SpecId::ArrowGlacier.enables(a) || a.enables(SpecId::GrayGlacier),
        SpecId::GrayGlacier.enables(a) || a.enables(SpecId::Merge),
        SpecId::Merge.enables(a) || a.enables(SpecId::Shanghai),
        SpecId::Shanghai.enables(a) || a.enables(SpecId::Cancun),
        SpecId::Cancun.enables(a) || a.enables(SpecId::Prague),
        SpecId::Prague.enables(a) || a.enables(SpecId::Osaka),
        SpecId::Osaka.enables(a) || a == SpecId::Amsterdam,
        SpecId::Homestead.enables(SpecId::FrontierThawing) && !SpecId::FrontierThawing.enables(
            SpecId::Homestead,
        ),
        SpecId::DaoFork.enables(SpecId::Homestead) && !SpecId::Homestead.enables(SpecId::DaoFork),
        SpecId::Tangerine.enables(SpecId::DaoFork) && !SpecId::DaoFork.enables(SpecId::Tangerine),
        !SpecId::Tangerine.enables(SpecId::SpuriousDragon),
        !SpecId::SpuriousDragon.enables(SpecId::Byzantium),
        !SpecId::Byzantium.enables(SpecId::Constantinople),
        !SpecId::Constantinople.enables(SpecId::Petersburg),
        !SpecId::Petersburg.enables(SpecId::Istanbul),
        !SpecId::Istanbul.enables(SpecId::MuirGlacier),
        !SpecId::MuirGlacier.enables(SpecId::Berlin),
        !SpecId::Berlin.enables(SpecId::London),
        !SpecId::London.enables(SpecId::ArrowGlacier),
        !SpecId::ArrowGlacier.enables(SpecId::GrayGlacier),
        !SpecId::GrayGlacier.enables(SpecId::Merge),
        !SpecId::Merge.enables(SpecId::Shanghai),
        !SpecId::Shanghai.enables(SpecId::Cancun),
        !SpecId::Cancun.enables(SpecId::Prague),
        !SpecId::Prague.enables(SpecId::Osaka),
        !SpecId::Osaka.enables(SpecId::Amsterdam),
{
}

/// A change of the rules that comes at some point holds from that point on, not before, and never where
/// it does not come.
pub proof fn law_changes_hold_from_their_time(at: u64, now: u64, later: u64)
    ensures
        reached(Some(at), at),
        now < at ==> !reached(Some(at), now),
        reached(Some(at), now) && now <= later ==> reached(Some(at), later),
        !reached(None, now),
{
}

/// Empty accounts are cleared from Spurious Dragon on, and the DAO is drained at its fork alone.
pub proof fn law_early_forks_come_by_number(spec: ChainSpec, block: BlockEnv)
    requires
        block.number@ <= u64::MAX,
    ensures
        clears_state(spec, block) <==> (spec.spurious_dragon_block matches Some(at) && at
            <= block.number@),
        drains_dao_at(spec, block) <==> (spec.dao_fork_block matches Some(at) && at
            == block.number@),
{
    lemma_u256_bounds(block.number);
}

/// A header that was put together in an environment gives that environment back: number, beneficiary,
/// time, gas limit, base fee and randomness. It repeats the context, the roots and the gas.
pub proof fn law_assembled_headers_give_their_environment_back(
    assembler: EthBlockAssembler,
    env: EvmEnv,
    ctx: EthBlockExecutionCtx,
    parent: Header,
    target_blob_gas: u64,
    transactions: Vec<TransactionSigned>,
    output: BlockExecutionResult<Receipt>,
    state_root: B256,
    block: AssembledBlock,
    again: BlockEnv,
)
    requires
        assembler.assembles(
            env,
            ctx,
            parent,
            target_blob_gas,
            transactions,
            output,
            state_root,
            block,
        ),
        is_env_of(block.header, env.cfg_env.spec, again),
        env.block_env.number@ <= u64::MAX,
        env.block_env.timestamp@ <= u64::MAX,
        env.cfg_env.spec.enables(SpecId::Merge),
        env.block_env.prevrandao is Some,
    ensures
        again.number@ == env.block_env.number@,
        again.timestamp@ == env.block_env.timestamp@,
        again.beneficiary == env.block_env.beneficiary,
        again.gas_limit == env.block_env.gas_limit,
        again.basefee == env.block_env.basefee,
        again.prevrandao == env.block_env.prevrandao,
        again.difficulty@ == 0,
{
    lemma_u256_bounds(env.block_env.number);
    lemma_u256_bounds(env.block_env.timestamp);
}

/// An assembled block holds what its execution gave: the gas that was used next to the limit of its
/// environment, the roots and the filter of what it holds, and what the context brings; the fields of
/// proof of work are empty.
pub proof fn law_assembled_blocks_hold_their_execution(
    assembler: EthBlockAssembler,
    env: EvmEnv,
    ctx: EthBlockExecutionCtx,
    parent: Header,
    target_blob_gas: u64,
    transactions: Vec<TransactionSigned>,
    output: BlockExecutionResult<Receipt>,
    state_root: B256,
    block: AssembledBlock,
)
    requires
        assembler.assembles(
            env,
            ctx,
            parent,
            target_blob_gas,
            transactions,
            output,
            state_root,
            block,
        ),
    ensures
        block.header.gas_limit == env.block_env.gas_limit,
        block.header.gas_used == output.gas_used,
        block.header.parent_hash == ctx.parent_hash,
        block.header.beneficiary == env.block_env.beneficiary,
        block.header.state_root == state_root,
        block.header.base_fee_per_gas == Some(env.block_env.basefee),
        block.header.parent_beacon_block_root == ctx.parent_beacon_block_root,
        block.header.extra_data == ctx.extra_data,
        env.block_env.prevrandao matches Some(randao) ==> block.header.mix_hash == randao,
        env.block_env.prevrandao is None ==> block.header.mix_hash == (B256 { hi: 0, lo: 0 }),
        env.block_env.number@ <= u64::MAX ==> block.header.number == env.block_env.number@,
        env.block_env.number@ > u64::MAX ==> block.header.number == u64::MAX,
        env.block_env.timestamp@ <= u64::MAX ==> block.header.timestamp
            == env.block_env.timestamp@,
        env.block_env.timestamp@ > u64::MAX ==> block.header.timestamp == u64::MAX,
        block.header.difficulty@ == 0,
        block.header.nonce == 0,
        block.header.ommers_hash == (B256 {
            hi: 0x1dcc4de8dec75d7aab85b567b6ccd41au128,
            lo: 0xd312451b948a7413f0a142fd40d49347u128,
        }),
        block.body.ommers@.len() == 0,
        block.body.transactions == transactions,
        block.header.withdrawals_root is Some <==> block.body.withdrawals is Some,
        block.body.withdrawals is Some <==> env.cfg_env.spec.enables(SpecId::Shanghai)
            && ctx.withdrawals is Some,
        block.body.withdrawals matches Some(kept) ==> kept@ == (ctx.withdrawals->0)@
            && block.header.withdrawals_root == Some(withdrawals_root_of(kept@)),
        block.header.transactions_root == transactions_root_of(transactions@),
        block.header.receipts_root == receipts_root_of(output.receipts@),
        block.header.logs_bloom@ == bloom_of(logs_of(output.receipts@)),
        block.header.blob_gas_used is Some <==> block.header.excess_blob_gas is Some,
        block.header.blob_gas_used matches Some(used) ==> used == output.blob_gas_used,
        block.header.timestamp <= u64::MAX ==> (block.header.blob_gas_used is Some <==> (
        assembler.rules().cancun_time matches Some(at) && at <= block.header.timestamp)),
        block.header.requests_hash is Some <==> (assembler.rules().prague_time matches Some(at)
            && at <= block.header.timestamp),
{
    lemma_u256_bounds(env.block_env.number);
    lemma_u256_bounds(env.block_env.timestamp);
}

/// The hash of the requests is that of the requests of the block, in order, each with its type and data.
pub proof fn law_headers_hash_all_requests(
    assembler: EthBlockAssembler,
    env: EvmEnv,
    ctx: EthBlockExecutionCtx,
    parent: Header,
    target_blob_gas: u64,
    transactions: Vec<TransactionSigned>,
    output: BlockExecutionResult<Receipt>,
    state_root: B256,
    block: AssembledBlock,
    listed: Seq<(u8, Seq<u8>)>,
)
    requires
        assembler.assembles(
            env,
            ctx,
            parent,
            target_blob_gas,
            transactions,
            output,
            state_root,
            block,
        ),
        listed.len() == output.requests@.len(),
        forall|i: int|
            0 <= i < listed.len() ==> (#[trigger] listed[i]).0 == output.requests@[i].request_type
                && listed[i].1 == output.requests@[i].data@,
    ensures
        block.header.requests_hash matches Some(hash) ==> hash == hash_of_requests(listed),
{
    assert(listed =~= Seq::new(
        output.requests@.len(),
        |i: int| (output.requests@[i].request_type, output.requests@[i].data@),
    ));
}

/// What the blocks up to the parent have used beyond the aim carries over: the excess and the aim make up
/// what the parent had and used, and there is none where that stays below the aim.
pub proof fn law_excess_blob_gas_carries_over(parent: Header, target_blob_gas: u64)
    requires
        parent.excess_blob_gas matches Some(excess) && parent.blob_gas_used matches Some(used)
            ==> parent.excess_blob_gas->0 + parent.blob_gas_used->0 <= u64::MAX,
    ensures
        ({
            let had = (if parent.excess_blob_gas is Some {
                parent.excess_blob_gas->0 as int
            } else {
                0
            }) + (if parent.blob_gas_used is Some {
                parent.blob_gas_used->0 as int
            } else {
                0
            });
            &&& had <= target_blob_gas ==> excess_after(parent, target_blob_gas) == 0
            &&& had > target_blob_gas ==> excess_after(parent, target_blob_gas) + target_blob_gas
                == had
        }),
{
}

/// The logs of receipts are those of each, one after the other, and of each log the address and the
/// topics count.
pub proof fn law_all_logs_are_filtered(earlier: Seq<Receipt>, receipt: Receipt)
    ensures
        logs_of(Seq::<Receipt>::empty()).len() == 0,
        logs_of(earlier.push(receipt)).len() == logs_of(earlier).len() + receipt.logs@.len(),
        forall|k: int|
            0 <= k < logs_of(earlier).len() ==> #[trigger] logs_of(earlier.push(receipt))[k]
                == logs_of(earlier)[k],
        forall|k: int|
            0 <= k < receipt.logs@.len() ==> logs_of(earlier.push(receipt))[logs_of(earlier).len()
                + k] == (#[trigger] receipt.logs@[k].address, receipt.logs@[k].topics@),
{
    assert(earlier.push(receipt).drop_last() =~= earlier);
}

/// The types of transactions have the numbers 0 to 4 in the order of their names.
pub proof fn law_types_have_their_numbers(a: TxType, b: TxType)
    ensures
        type_number(TxType::Legacy) == 0,
        type_number(TxType::Eip2930) == 1,
        type_number(TxType::Eip1559) == 2,
        type_number(TxType::Eip4844) == 3,
        type_number(TxType::Eip7702) == 4,
        type_number(a) == type_number(b) ==> a == b,
{
}

/// The roots of a block are those of its lists: of the encodings of its transactions, of its receipts,
/// each with the number of its type, its success, its gas and its logs, and of its withdrawals, all in
/// their order.
pub proof fn law_roots_cover_all_items(
    transactions: Seq<TransactionSigned>,
    receipts: Seq<Receipt>,
    withdrawals: Seq<Withdrawal>,
    items: Seq<Seq<u8>>,
)
    ensures
        items.len() == transactions.len() && (forall|i: int|
            0 <= i < items.len() ==> #[trigger] items[i] == transactions[i].encoded@)
            ==> transactions_root_of(transactions) == ordered_root(items),
        items.len() == withdrawals.len() && (forall|i: int|
            0 <= i < items.len() ==> #[trigger] items[i] == withdrawal_encoding(withdrawals[i]))
            ==> withdrawals_root_of(withdrawals) == ordered_root(items),
        items.len() == receipts.len() && (forall|i: int|
            0 <= i < items.len() ==> encodes(receipts[i], #[trigger] items[i]))
            ==> receipts_root_of(receipts) == ordered_root(items),
{
    if items.len() == transactions.len() && (forall|i: int|
        0 <= i < items.len() ==> #[trigger] items[i] == transactions[i].encoded@) {
        assert(items =~= Seq::new(transactions.len(), |i: int| transactions[i].encoded@));
    }
    if items.len() == withdrawals.len() && (forall|i: int|
        0 <= i < items.len() ==> #[trigger] items[i] == withdrawal_encoding(withdrawals[i])) {
        assert(items =~= Seq::new(
            withdrawals.len(),
            |i: int| withdrawal_encoding(withdrawals[i]),
        ));
    }
    if items.len() == receipts.len() && (forall|i: int|
        0 <= i < items.len() ==> encodes(receipts[i], #[trigger] items[i])) {
        assert forall|i: int| 0 <= i < items.len() implies #[trigger] items[i] == encoding_of(
            receipts[i],
        ) by {
            let receipt = receipts[i];
            assert(encodes(receipt, items[i]));
            assert(Seq::new(receipt.logs@.len(), |k: int| log_parts(receipt.logs@[k])) =~= Seq::new(
                receipt.logs@.len(),
                |k: int|
                    (receipt.logs@[k].address, receipt.logs@[k].topics@, receipt.logs@[k].data@),
            ));
        }
        assert(items =~= Seq::new(receipts.len(), |i: int| encoding_of(receipts[i])));
    }
}

/// Whether the bytes encode the receipt, whatever list of its logs they are made of.
pub open spec fn encodes(receipt: Receipt, bytes: Seq<u8>) -> bool {
    bytes == receipt_encoding(
        match receipt.tx_type {
            TxType::Legacy => 0,
            TxType::Eip2930 => 1,
            TxType::Eip1559 => 2,
            TxType::Eip4844 => 3,
            TxType::Eip7702 => 4,
        },
        receipt.success,
        receipt.cumulative_gas_used,
        Seq::new(
            receipt.logs@.len(),
            |i: int|
                (receipt.logs@[i].address, receipt.logs@[i].topics@, receipt.logs@[i].data@),
        ),
    )
}

/// Mining a block earned 5 ether, 2 ether from Constantinople on, and nothing once blocks are no longer
/// mined.
pub proof fn law_base_rewards_by_fork(spec: ChainSpec, number: u64)
    ensures
        base_reward(spec, number) is None <==> (spec.paris_block matches Some(at) && at <= number),
        base_reward(spec, number) matches Some(base) ==> base as int == (if (
        spec.constantinople_block matches Some(at) && at <= number) {
            2int
        } else {
            5int
        }) * 1_000_000_000 * 1_000_000_000,
{
}

/// The miner of an ommer earns an eighth of the base less for each block that the ommer is behind; the
/// miner of the block earns the base and a 32nd of it more for each ommer.
pub proof fn law_shares_of_the_base(base: u128, number: u64, behind: u64, ommers: nat)
    requires
        1 <= behind <= 7,
        behind <= number,
        base % 32 == 0,
    ensures
        ommer_share(base, number, (number - behind) as u64) * 8 == (8 - behind) * base,
        miner_share(base, 0) == base,
        miner_share(base, ommers + 1) * 32 == miner_share(base, ommers) * 32 + base,
{
    let eighth = base as int / 8;
    assert(base as int == eighth * 8);
    assert((8 - behind) * base / 8 == (8 - behind) * eighth) by (nonlinear_arith)
        requires
            base as int == eighth * 8,
            1 <= behind <= 7,
    ;
    assert((8 - behind) * eighth * 8 == (8 - behind) * base) by (nonlinear_arith)
        requires
            base as int == eighth * 8,
    ;
    let part = base as int / 32;
    assert(part * (ommers + 1) == part * ommers + part) by (nonlinear_arith);
}

/// A mined block credits the miner of each ommer and, last, its own miner, with their shares of the base
/// of its number; a block that is not mined credits nobody.
pub proof fn law_mined_blocks_credit_their_miners(
    spec: ChainSpec,
    block: BlockEnv,
    ommers: Seq<Header>,
    base: u128,
)
    requires
        block.number@ <= u64::MAX,
    ensures
        base_reward(spec, block.number@ as u64) is None ==> reward_credits(
            spec,
            block,
            ommers,
        ).len() == 0,
        base_reward(spec, block.number@ as u64) == Some(base) ==> {
            let credits = reward_credits(spec, block, ommers);
            &&& credits.len() == ommers.len() + 1
            &&& credits.last() == (block.beneficiary, miner_share(base, ommers.len()))
            &&& forall|i: int|
                0 <= i < ommers.len() ==> (#[trigger] credits[i]).0 == ommers[i].beneficiary
                    && credits[i].1 == ommer_share(
                    base,
                    block.number@ as u64,
                    ommers[i].number,
                )
        },
{
    lemma_u256_bounds(block.number);
}

/// The gwei of withdrawals to an address.
pub open spec fn withdrawn(withdrawals: Seq<Withdrawal>, address: Address) -> int
    decreases withdrawals.len(),
{
    if withdrawals.len() == 0 {
        0
    } else {
        withdrawn(withdrawals.drop_last(), address) + if withdrawals.last().address == address {
            withdrawals.last().amount as int
        } else {
            0
        }
    }
}

/// Every withdrawal is paid out to its address, in wei: an address is credited a thousand million times the
/// gwei that are withdrawn to it.
pub proof fn law_withdrawals_are_paid_in_wei(withdrawals: Seq<Withdrawal>, address: Address)
    ensures
        total(
            withdrawal_credits(withdrawals).filter(|c: (Address, int)| c.0 == address),
        ) == withdrawn(withdrawals, address) * 1_000_000_000,
    decreases withdrawals.len(),
{
    reveal(Seq::filter);
    let p = |c: (Address, int)| c.0 == address;
    if withdrawals.len() > 0 {
        let rest = withdrawals.drop_last();
        law_withdrawals_are_paid_in_wei(rest, address);
        let earlier = withdrawal_credits(rest);
        let all = withdrawal_credits(withdrawals);
        let last = withdrawals.last();
        if last.amount > 0 {
            assert(all.drop_last() =~= earlier);
            if last.address == address {
                assert(all.filter(p) =~= earlier.filter(p).push(all.last()));
                assert(earlier.filter(p).push(all.last()).drop_last() =~= earlier.filter(p));
            } else {
                assert(all.filter(p) =~= earlier.filter(p));
            }
        }
    }
}

/// Credits together are the credits of the parts.
pub proof fn law_credits_add_up(a: Seq<(Address, int)>, b: Seq<(Address, int)>)
    ensures
        total(Seq::<(Address, int)>::empty()) == 0,
        total(a + b) == total(a) + total(b),
        b.len() == 1 ==> total(b) == b[0].1,
    decreases b.len(),
{
    if b.len() == 0 {
        assert(a + b =~= a);
    } else {
        assert((a + b).drop_last() =~= a + b.drop_last());
        law_credits_add_up(a, b.drop_last());
        if b.len() == 1 {
            assert(b.drop_last() =~= Seq::<(Address, int)>::empty());
        }
    }
}

/// A block credits its rewards, and its withdrawals exactly from Shanghai on.
pub proof fn law_blocks_credit_rewards_and_withdrawals(
    spec: ChainSpec,
    block: BlockEnv,
    ommers: Seq<Header>,
    withdrawals: Seq<Withdrawal>,
)
    requires
        block.timestamp@ <= u64::MAX,
    ensures
        ({
            let shanghai = spec.shanghai_time matches Some(at) && at <= block.timestamp@;
            let rewards = reward_credits(spec, block, ommers);
            &&& block_credits(spec, block, ommers, None) == rewards
            &&& shanghai ==> block_credits(spec, block, ommers, Some(withdrawals)) == rewards
                + withdrawal_credits(withdrawals)
            &&& !shanghai ==> block_credits(spec, block, ommers, Some(withdrawals)) == rewards
        }),
{
    lemma_u256_bounds(block.timestamp);
    let rewards = reward_credits(spec, block, ommers);
    assert(rewards + Seq::<(Address, int)>::empty() =~= rewards);
}

/// What is due at the end of a block is what its rules, its ommers and its withdrawals credit.
pub proof fn law_what_is_due<E, R: ReceiptBuilder>(
    executor: EthBlockExecutor<E, R>,
    block: BlockEnv,
    withdrawals: Option<Seq<Withdrawal>>,
    address: Address,
)
    requires
        withdrawals == match executor.context().withdrawals {
            Some(w) => Some(w@),
            None => None::<Seq<Withdrawal>>,
        },
    ensures
        amount_of(due(executor, block), address) == amount_of(
            credited(
                block_credits(
                    executor.caller().rules(),
                    block,
                    executor.context().ommers@,
                    withdrawals,
                ),
            ),
            address,
        ),
{
}

/// What was drained goes to the beneficiary, on top of what it gets else, and nobody else gets another
/// amount. All that was drained is counted.
pub proof fn law_drained_balances_go_to_the_beneficiary(
    amounts: Map<Address, int>,
    beneficiary: Address,
    drained: Seq<u128>,
    last: u128,
    other: Address,
)
    requires
        0 <= amount_of(amounts, beneficiary),
        amount_of(amounts, beneficiary) + drained_sum(drained.push(last)) < amount_count(),
        0 <= drained_sum(drained),
    ensures
        drained_sum(Seq::<u128>::empty()) == 0,
        drained_sum(drained.push(last)) == drained_sum(drained) + last,
        amount_of(with_drained(amounts, beneficiary, drained.push(last)), beneficiary)
            == amount_of(amounts, beneficiary) + drained_sum(drained) + last,
        other != beneficiary ==> amount_of(
            with_drained(amounts, beneficiary, drained.push(last)),
            other,
        ) == amount_of(amounts, other),
{
    assert(drained.push(last).drop_last() =~= drained);
    vstd::arithmetic::div_mod::lemma_small_mod(
        (amount_of(amounts, beneficiary) + drained_sum(drained) + last) as nat,
        amount_count() as nat,
    );
}

/// An account whose balance grows has the amount more than it had, and is else as it was; one that did not
/// exist has the amount. It counts as touched and not as destroyed, and no slot of it changes.
pub proof fn law_grown_accounts_have_more(
    account: StateAccount,
    address: Address,
    loaded: Option<AccountInfo>,
    amount: u128,
)
    requires
        is_incremented(account, address, loaded, amount),
    ensures
        account.address == address,
        account.touched,
        !account.selfdestructed,
        account.storage@.len() == 0,
        loaded is None ==> account.info.balance@ == amount && account.info.nonce == 0,
        loaded matches Some(info) ==> {
            &&& info.balance@ + amount <= u256_max() ==> account.info.balance@ == info.balance@
                + amount
            &&& account.info.nonce == info.nonce
            &&& account.info.code_hash == info.code_hash
            &&& account.info.code == info.code
        },
{
    if let Some(info) = loaded {
        lemma_u256_bounds(info.balance);
        if info.balance@ + amount <= u256_max() {
            vstd::arithmetic::div_mod::lemma_small_mod(
                (info.balance@ + amount) as nat,
                (u256_max() + 1) as nat,
            );
        }
    }
}

} // verus!
