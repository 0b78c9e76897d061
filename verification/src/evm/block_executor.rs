//! The execution of one block: the calls before its transactions, the transactions, and what is due
//! at its end.

use crate::evm::block_run::{
    closed, deposited, drained, executed, loaded, loads, opened, opening_steps, paid, reported,
    results_of, run_changes, run_steps, BlockRun, Closing,
};
use crate::evm::chain_spec::{reached, ChainSpec};
use crate::evm::env::{BlockEnv, Header};
use crate::evm::machine::{Evm, RequestParser};
use crate::evm::receipts::{ReceiptBuilder, ReceiptBuilderCtx, RethReceiptBuilder};
use crate::evm::rewards::{
    amount_count, amount_of, balance_increment_state, block_credits, credit_drained, credited,
    drained_sum, is_incremented, listed, lists_nonzero, post_block_balance_increments,
    BalanceIncrements,
};
use crate::evm::steps::{
    is_path, is_step, lemma_no_step, lemma_one_step, lemma_paths_join, takes, Step,
};
use crate::evm::system_calls::{
    collects_requests, gathered, stored, stores_beacon_root, stores_parent_hash, told,
    BlockExecutionError, EvmState, Request, ResultAndState, StateChange, StateChangeSource,
    SystemCaller, SystemContracts, DEPOSIT_REQUEST_TYPE,
};
use crate::evm::tx_env::{Recovered, TransactionSigned, TxEnv, TxType};
use crate::parallel::state::{ExecutionResult, StateAccount};
use crate::parallel::storage::AccountInfo;
use crate::primitives::{clamp, Address, Withdrawal, B256};
use std::sync::Arc;
use vstd::prelude::*;

verus! {

/// What a block brings besides its environment.
#[derive(Clone, PartialEq, Eq, Debug)]
pub struct EthBlockExecutionCtx {
    pub parent_hash: B256,
    pub parent_beacon_block_root: Option<B256>,
    pub ommers: Vec<Header>,
    pub withdrawals: Option<Vec<Withdrawal>>,
    pub extra_data: Vec<u8>,
    /// How many transactions are to come, if that is known.
    pub tx_count_hint: Option<usize>,
}

/// What came of a block.
#[derive(Clone, PartialEq, Eq, Debug)]
pub struct BlockExecutionResult<T> {
    pub receipts: Vec<T>,
    pub requests: Vec<Request>,
    pub gas_used: u64,
    pub blob_gas_used: u64,
}

/// Whether the changes of a transaction stay.
#[derive(Clone, Copy, PartialEq, Eq, Structural, Debug)]
pub enum CommitChanges {
    Yes,
    No,
}

impl CommitChanges {
    pub fn should_commit(self) -> (r: bool)
        ensures
            r == (self is Yes),
    {
        match self {
            CommitChanges::Yes => true,
            CommitChanges::No => false,
        }
    }
}

/// A transaction that can be executed: what the virtual machine takes of it, and the transaction
/// itself.
pub trait ExecutableTx: Sized {
    type Transaction;

    /// The two parts.
    spec fn parts(self) -> (TxEnv, Self::Transaction);

    fn into_parts(self) -> (r: (TxEnv, Self::Transaction))
        ensures
            r == self.parts(),
    ;
}

impl<T> ExecutableTx for (TxEnv, T) {
    type Transaction = T;

    open spec fn parts(self) -> (TxEnv, T) {
        self
    }

    fn into_parts(self) -> (r: (TxEnv, T)) {
        self
    }
}

/// What came of a transaction, before it is committed.
#[derive(Clone, Debug)]
pub struct EthTxResult<T> {
    pub result: ResultAndState,
    pub blob_gas_used: u64,
    pub tx: T,
    pub tx_type: TxType,
}

/// Gas per blob of a transaction.
pub const GAS_PER_BLOB: u64 = 131_072;

/// The blob gas of a transaction, as the counter keeps it.
pub open spec fn blob_gas(tx: TxEnv) -> int {
    match tx.blob_hashes {
        Some(hashes) => (hashes@.len() * GAS_PER_BLOB) % 0x1_0000_0000_0000_0000,
        None => 0,
    }
}

/// A transaction that fits into the block and may run.
#[derive(Clone, Copy, PartialEq, Eq, Structural, Debug)]
pub struct AcceptedTx {
    pub blob_gas_used: u64,
}

/// Executes one block.
pub struct EthBlockExecutor<E, R: ReceiptBuilder> {
    evm: E,
    ctx: EthBlockExecutionCtx,
    gas_used: u64,
    blob_gas_used: u64,
    receipts: Vec<R::Receipt>,
    system_caller: SystemCaller<ChainSpec>,
    receipt_builder: R,
}

/// The sum of two amounts of gas, as the counter keeps it.
pub open spec fn gas_after(used: u64, more: u64) -> int {
    (used + more) % 0x1_0000_0000_0000_0000
}

/// Whether the books after a transaction hold what came of it: its gas is counted, its receipt comes
/// last, made with the gas up to it, and the observer is told of what it changed.
pub open spec fn booked<E, R: ReceiptBuilder, T>(
    before: EthBlockExecutor<E, R>,
    output: EthTxResult<T>,
    after: EthBlockExecutor<E, R>,
) -> bool {
    &&& after.gas() == gas_after(before.gas(), output.result.result.gas_used)
    &&& after.blob_gas() == gas_after(before.blob_gas(), output.blob_gas_used)
    &&& after.made_receipts().len() == before.made_receipts().len() + 1
    &&& after.made_receipts().drop_last() == before.made_receipts()
    &&& before.builder().is_receipt_of(
        ReceiptBuilderCtx {
            tx_type: output.tx_type,
            result: output.result.result,
            cumulative_gas_used: after.gas(),
        },
        after.made_receipts().last(),
    )
    &&& after.context() == before.context()
    &&& after.builder() == before.builder()
    &&& after.caller().rules() == before.caller().rules()
    &&& after.caller().observed() == before.caller().observed()
    &&& after.caller().pending() == told(
        before.caller(),
        StateChangeSource::Transaction(before.made_receipts().len() as usize),
        output.result.state,
    )
}

impl<E, R: ReceiptBuilder> EthBlockExecutor<E, R> {
    pub closed spec fn machine(self) -> E {
        self.evm
    }

    pub closed spec fn context(self) -> EthBlockExecutionCtx {
        self.ctx
    }

    /// The gas that the block has used.
    pub closed spec fn gas(self) -> u64 {
        self.gas_used
    }

    /// The blob gas that the block has used.
    pub closed spec fn blob_gas(self) -> u64 {
        self.blob_gas_used
    }

    pub closed spec fn made_receipts(self) -> Seq<R::Receipt> {
        self.receipts@
    }

    pub closed spec fn caller(self) -> SystemCaller<ChainSpec> {
        self.system_caller
    }

    pub closed spec fn builder(self) -> R {
        self.receipt_builder
    }

    /// Whether two states differ at most in the virtual machine and the observer's changes.
    pub open spec fn same_books(self, other: Self) -> bool {
        &&& self.context() == other.context()
        &&& self.gas() == other.gas()
        &&& self.blob_gas() == other.blob_gas()
        &&& self.made_receipts() == other.made_receipts()
        &&& self.builder() == other.builder()
        &&& self.caller().rules() == other.caller().rules()
        &&& self.caller().observed() == other.caller().observed()
    }

    pub fn new(evm: E, ctx: EthBlockExecutionCtx, spec: ChainSpec, receipt_builder: R) -> (r: Self)
        ensures
            r.machine() == evm,
            r.context() == ctx,
            r.gas() == 0,
            r.blob_gas() == 0,
            r.made_receipts() == Seq::<R::Receipt>::empty(),
            r.caller().rules() == spec,
            !r.caller().observed(),
            r.caller().pending() == Seq::<StateChange>::empty(),
            r.builder() == receipt_builder,
    {
        let r = EthBlockExecutor {
            evm,
            ctx,
            gas_used: 0,
            blob_gas_used: 0,
            receipts: Vec::new(),
            system_caller: SystemCaller::new(spec),
            receipt_builder,
        };
        assert(r.made_receipts() =~= Seq::<R::Receipt>::empty());
        r
    }

    pub fn evm(&self) -> (r: &E)
        ensures
            *r == self.machine(),
    {
        &self.evm
    }

    pub fn evm_mut(&mut self) -> (r: &mut E)
        ensures
            *r == old(self).machine(),
            final(self).machine() == *final(r),
            final(self).same_books(*old(self)),
            final(self).caller() == old(self).caller(),
    {
        &mut self.evm
    }

    pub fn receipts(&self) -> (r: &Vec<R::Receipt>)
        ensures
            r@ == self.made_receipts(),
    {
        &self.receipts
    }

    /// Sets whether an observer is told of changes of the state.
    pub fn set_state_hook(&mut self, hooked: bool)
        ensures
            final(self).machine() == old(self).machine(),
            final(self).context() == old(self).context(),
            final(self).gas() == old(self).gas(),
            final(self).blob_gas() == old(self).blob_gas(),
            final(self).made_receipts() == old(self).made_receipts(),
            final(self).builder() == old(self).builder(),
            final(self).caller().rules() == old(self).caller().rules(),
            final(self).caller().observed() == hooked,
            final(self).caller().pending() == old(self).caller().pending(),
    {
        self.system_caller.with_state_hook(hooked);
    }

    /// Whether an observer is told of changes of the state.
    pub fn is_observed(&self) -> (r: bool)
        ensures
            r == self.caller().observed(),
    {
        self.system_caller.is_observed()
    }

    /// Hands out the changes that the observer has not been told of yet.
    pub fn take_changes(&mut self) -> (r: Vec<StateChange>)
        ensures
            r@ == old(self).caller().pending(),
            final(self).caller().pending() == Seq::<StateChange>::empty(),
            final(self).same_books(*old(self)),
            final(self).machine() == old(self).machine(),
    {
        self.system_caller.take_changes()
    }

    /// Accepts a transaction for execution. One that may use more gas than the block has left is
    /// refused.
    pub fn accept_transaction(&self, block_gas_limit: u64, tx: &TxEnv) -> (r: Result<
        AcceptedTx,
        BlockExecutionError,
    >)
        ensures
            ({
                let available = clamp(block_gas_limit - self.gas(), 0, u64::MAX as int);
                if tx.gas_limit > available {
                    r == Err::<AcceptedTx, _>(
                        BlockExecutionError::TransactionGasLimitMoreThanAvailableBlockGas {
                            transaction_gas_limit: tx.gas_limit,
                            block_available_gas: available as u64,
                        },
                    )
                } else {
                    r matches Ok(accepted) && accepted.blob_gas_used == blob_gas(*tx)
                }
            }),
    {
        let block_available_gas: u64 = block_gas_limit.saturating_sub(self.gas_used);
        if tx.gas_limit > block_available_gas {
            return Err(
                BlockExecutionError::TransactionGasLimitMoreThanAvailableBlockGas {
                    transaction_gas_limit: tx.gas_limit,
                    block_available_gas,
                },
            );
        }
        let blob_gas_used: u64 = match &tx.blob_hashes {
            Some(hashes) => (hashes.len() as u64).wrapping_mul(GAS_PER_BLOB),
            None => 0,
        };
        Ok(AcceptedTx { blob_gas_used })
    }

    /// Books what came of a transaction: the observer is told, the gas is counted, the receipt is
    /// made with the gas up to it. Gives the gas of the transaction, and the state to be committed.
    pub fn book_transaction<T>(&mut self, output: EthTxResult<T>) -> (r: (u64, EvmState))
        ensures
            r.0 == output.result.result.gas_used,
            r.1 == output.result.state,
            final(self).machine() == old(self).machine(),
            booked(*old(self), output, *final(self)),
    {
        let EthTxResult { result: ResultAndState { result, state }, blob_gas_used, tx: _, tx_type } =
            output;
        self.system_caller.on_state(StateChangeSource::Transaction(self.receipts.len()), &state);
        let gas_used: u64 = result.gas_used;
        self.gas_used = self.gas_used.wrapping_add(gas_used);
        self.blob_gas_used = self.blob_gas_used.wrapping_add(blob_gas_used);
        let receipt = self.receipt_builder.build_receipt(
            ReceiptBuilderCtx { tx_type, result, cumulative_gas_used: self.gas_used },
        );
        let ghost before = self.receipts@;
        self.receipts.push(receipt);
        assert(self.receipts@.drop_last() =~= before);
        (gas_used, state)
    }

    /// The requests that a block starts to collect: its deposits, if there are any.
    pub fn open_requests(&self, deposits: Vec<u8>) -> (r: Vec<Request>)
        ensures
            deposits@.len() == 0 ==> r@.len() == 0,
            deposits@.len() > 0 ==> r@ == seq![
                Request { request_type: DEPOSIT_REQUEST_TYPE, data: deposits },
            ],
    {
        let mut requests: Vec<Request> = Vec::new();
        if deposits.len() > 0 {
            requests.push(Request { request_type: DEPOSIT_REQUEST_TYPE, data: deposits });
            assert(requests@ =~= seq![
                Request { request_type: DEPOSIT_REQUEST_TYPE, data: deposits },
            ]);
        }
        requests
    }

    /// Whether deposits are read from the receipts: from Prague on.
    pub fn collects_deposits(&self, block: &BlockEnv) -> (r: bool)
        ensures
            r == collects_requests(self.caller().rules(), *block),
    {
        let spec = self.system_caller.spec();
        spec.is_prague_active_at_timestamp(block.timestamp.saturating_to_u64())
    }

    /// What the balances grow by at the end of the block.
    pub fn balance_increments(&self, block: &BlockEnv) -> (r: BalanceIncrements)
        ensures
            r@ == credited(
                block_credits(
                    self.caller().rules(),
                    *block,
                    self.context().ommers@,
                    withdrawals_of(self.context()),
                ),
            ),
    {
        let withdrawals = match &self.ctx.withdrawals {
            Some(w) => Some(w),
            None => None,
        };
        assert(listed(withdrawals) == withdrawals_of(self.context()));
        post_block_balance_increments(
            self.system_caller.spec(),
            block,
            &self.ctx.ommers,
            withdrawals,
        )
    }

    /// Whether the accounts of the DAO are drained at the end of the block.
    pub fn drains_dao(&self, block: &BlockEnv) -> (r: bool)
        ensures
            r == (self.caller().rules().dao_fork_block == Some(
                clamp(block.number@, 0, u64::MAX as int) as u64,
            )),
    {
        self.system_caller.spec().is_dao_transition(block.number.saturating_to_u64())
    }

    /// Ends the block: the virtual machine, what came of the block, its context, and the changes that
    /// the observer has not been told of yet.
    fn into_parts(self, requests: Vec<Request>) -> (r: (
        E,
        BlockExecutionResult<R::Receipt>,
        EthBlockExecutionCtx,
        Vec<StateChange>,
    ))
        ensures
            r.0 == self.machine(),
            r.1.receipts@ == self.made_receipts(),
            r.1.requests == requests,
            r.1.gas_used == self.gas(),
            r.1.blob_gas_used == self.blob_gas(),
            r.2 == self.context(),
            r.3@ == self.caller().pending(),
    {
        let mut system_caller = self.system_caller;
        let changes = system_caller.take_changes();
        let result = BlockExecutionResult {
            receipts: self.receipts,
            requests,
            gas_used: self.gas_used,
            blob_gas_used: self.blob_gas_used,
        };
        (self.evm, result, self.ctx, changes)
    }
}

/// The amounts, if there are any.
pub open spec fn viewed(r: Result<BalanceIncrements, BlockExecutionError>) -> Result<
    Map<Address, int>,
    BlockExecutionError,
> {
    match r {
        Ok(increments) => Ok(increments@),
        Err(e) => Err(e),
    }
}

/// The withdrawals of a block.
pub open spec fn withdrawals_of(ctx: EthBlockExecutionCtx) -> Option<Seq<Withdrawal>> {
    match ctx.withdrawals {
        Some(w) => Some(w@),
        None => None,
    }
}

impl AcceptedTx {
    /// What came of an accepted transaction.
    pub fn executed<T>(self, outcome: Result<ResultAndState, String>, tx: T, tx_type: TxType) -> (r:
        Result<EthTxResult<T>, BlockExecutionError>)
        ensures
            r == match outcome {
                Ok(result) => Ok(
                    EthTxResult { result, blob_gas_used: self.blob_gas_used, tx, tx_type },
                ),
                Err(e) => Err(BlockExecutionError::Evm(e)),
            },
    {
        match outcome {
            Ok(result) => Ok(
                EthTxResult { result, blob_gas_used: self.blob_gas_used, tx, tx_type },
            ),
            Err(e) => Err(BlockExecutionError::Evm(e)),
        }
    }
}

/// A block that has not used more than its gas does not after a transaction that was accepted and
/// used no more than its own limit, and the count of the gas is exact.
pub proof fn law_block_gas_stays_within_the_limit(
    block_gas_limit: u64,
    used: u64,
    tx_gas_limit: u64,
    tx_gas_used: u64,
)
    requires
        used <= block_gas_limit,
        tx_gas_limit <= clamp(block_gas_limit - used, 0, u64::MAX as int),
        tx_gas_used <= tx_gas_limit,
    ensures
        gas_after(used, tx_gas_used) == used + tx_gas_used,
        gas_after(used, tx_gas_used) <= block_gas_limit,
{
}

/// The gas of the first `n` results.
pub open spec fn gas_total(results: Seq<ExecutionResult>, n: nat) -> int
    decreases n,
{
    if n == 0 {
        0
    } else {
        gas_total(results, (n - 1) as nat) + results[n - 1].gas_used
    }
}

/// However many transactions a block executes, the gas that it counts is the sum of what each used,
/// and stays within the limit of the block, if none used more than its own limit.
pub proof fn law_block_gas_is_the_sum<E, R: ReceiptBuilder>(
    executor: EthBlockExecutor<E, R>,
    block: BlockEnv,
    txs: Seq<(TxEnv, Recovered<TransactionSigned>)>,
    results: Seq<ExecutionResult>,
    receipts: Seq<R::Receipt>,
    n: nat,
)
    requires
        executed_in_order(executor, block, txs, results, receipts),
        executor.gas() <= block.gas_limit,
        forall|i: int|
            0 <= i < txs.len() ==> results[i].gas_used <= (#[trigger] txs[i]).0.gas_limit,
        n <= results.len(),
    ensures
        gas_counted(executor.gas(), results, n) == executor.gas() + gas_total(results, n),
        gas_counted(executor.gas(), results, n) <= block.gas_limit,
    decreases n,
{
    if n > 0 {
        law_block_gas_is_the_sum(executor, block, txs, results, receipts, (n - 1) as nat);
        assert(results[n - 1].gas_used <= txs[n - 1].0.gas_limit);
    }
}

/// The gas of the first `n` transactions that were committed.
pub open spec fn gas_committed<T>(outputs: Seq<EthTxResult<T>>, n: nat) -> int
    decreases n,
{
    if n == 0 {
        0
    } else {
        gas_committed(outputs, (n - 1) as nat) + outputs[n - 1].result.result.gas_used
    }
}

/// The blob gas of the first `n` transactions that were committed.
pub open spec fn blob_gas_committed<T>(outputs: Seq<EthTxResult<T>>, n: nat) -> int
    decreases n,
{
    if n == 0 {
        0
    } else {
        blob_gas_committed(outputs, (n - 1) as nat) + outputs[n - 1].blob_gas_used
    }
}

/// Whether the transactions were committed one after the other, each on books that nothing but the
/// commits before it has changed.
pub open spec fn committed<E, R: ReceiptBuilder, T>(
    before: Seq<EthBlockExecutor<E, R>>,
    outputs: Seq<EthTxResult<T>>,
    after: Seq<EthBlockExecutor<E, R>>,
) -> bool {
    &&& before.len() == outputs.len() == after.len()
    &&& forall|i: int|
        0 <= i < outputs.len() ==> booked(#[trigger] before[i], outputs[i], after[i])
    &&& forall|i: int|
        0 < i < outputs.len() ==> (#[trigger] before[i]).same_books(after[i - 1])
}

/// After any number of commits on a fresh executor there is a receipt for each, in the order of the
/// commits; each receipt holds the gas up to it, and the counters of the block hold the sums. The sums
/// have to fit into the counters.
pub proof fn law_commits_add_up<E, T>(
    before: Seq<EthBlockExecutor<E, RethReceiptBuilder>>,
    outputs: Seq<EthTxResult<T>>,
    after: Seq<EthBlockExecutor<E, RethReceiptBuilder>>,
    n: nat,
)
    requires
        committed(before, outputs, after),
        0 < n <= outputs.len(),
        before[0].gas() == 0,
        before[0].blob_gas() == 0,
        before[0].made_receipts().len() == 0,
        gas_committed(outputs, n) <= u64::MAX,
        blob_gas_committed(outputs, n) <= u64::MAX,
    ensures
        after[n - 1].gas() == gas_committed(outputs, n),
        after[n - 1].blob_gas() == blob_gas_committed(outputs, n),
        after[n - 1].made_receipts().len() == n,
        forall|k: int|
            0 <= k < n ==> {
                let receipt = #[trigger] after[n - 1].made_receipts()[k];
                &&& receipt.cumulative_gas_used == gas_committed(outputs, (k + 1) as nat)
                &&& receipt.success == outputs[k].result.result.success
                &&& receipt.logs == outputs[k].result.result.logs
                &&& receipt.tx_type == outputs[k].tx_type
            },
    decreases n,
{
    let last = n - 1;
    lemma_committed_nonnegative(outputs, last as nat);
    assert(booked(before[last], outputs[last], after[last]));
    if last > 0 {
        assert(before[last].same_books(after[last - 1]));
        law_commits_add_up(before, outputs, after, last as nat);
    }
    let earlier = before[last].made_receipts();
    let receipts = after[last].made_receipts();
    assert forall|k: int| 0 <= k < n implies {
        let receipt = #[trigger] after[n - 1].made_receipts()[k];
        &&& receipt.cumulative_gas_used == gas_committed(outputs, (k + 1) as nat)
        &&& receipt.success == outputs[k].result.result.success
        &&& receipt.logs == outputs[k].result.result.logs
        &&& receipt.tx_type == outputs[k].tx_type
    } by {
        if k < last {
            assert(receipts.drop_last()[k] == receipts[k]);
            assert(earlier[k] == receipts[k]);
            assert(after[last - 1].made_receipts()[k] == receipts[k]);
        } else {
            assert(receipts.last() == receipts[k]);
        }
    }
}

proof fn lemma_committed_nonnegative<T>(outputs: Seq<EthTxResult<T>>, n: nat)
    ensures
        gas_committed(outputs, n) >= 0,
        blob_gas_committed(outputs, n) >= 0,
    decreases n,
{
    if n > 0 {
        lemma_committed_nonnegative(outputs, (n - 1) as nat);
    }
}

/// The most gas that a transaction may still use.
pub open spec fn available_gas<E, R: ReceiptBuilder>(
    executor: EthBlockExecutor<E, R>,
    block: BlockEnv,
) -> int {
    clamp(block.gas_limit - executor.gas(), 0, u64::MAX as int)
}

/// Whether the result is the refusal of a transaction that may use more gas than is left.
pub open spec fn refused<T>(
    gas_limit: u64,
    available: int,
    r: Result<T, BlockExecutionError>,
) -> bool {
    r == Err::<T, _>(
        BlockExecutionError::TransactionGasLimitMoreThanAvailableBlockGas {
            transaction_gas_limit: gas_limit,
            block_available_gas: available as u64,
        },
    )
}

/// What comes of a transaction that ran.
pub open spec fn output_of(
    tx: TxEnv,
    recovered: Recovered<TransactionSigned>,
    done: ResultAndState,
) -> EthTxResult<Recovered<TransactionSigned>> {
    EthTxResult {
        result: done,
        blob_gas_used: blob_gas(tx) as u64,
        tx: recovered,
        tx_type: recovered.tx.tx_type(),
    }
}

impl<E: Evm, R: ReceiptBuilder> EthBlockExecutor<E, R> {
    /// Runs a transaction, and leaves what it changes uncommitted. One that may use more gas than
    /// the block has left does not run.
    pub fn execute_transaction_without_commit<
        X: ExecutableTx<Transaction = Recovered<TransactionSigned>>,
    >(&mut self, block: &BlockEnv, tx: X) -> (r: Result<
        EthTxResult<Recovered<TransactionSigned>>,
        BlockExecutionError,
    >)
        ensures
            final(self).same_books(*old(self)),
            final(self).caller() == old(self).caller(),
            tx.parts().0.gas_limit > available_gas(*old(self), *block) ==> refused(
                tx.parts().0.gas_limit,
                available_gas(*old(self), *block),
                r,
            ) && final(self).machine() == old(self).machine(),
            tx.parts().0.gas_limit <= available_gas(*old(self), *block) ==> exists|
                m: &mut E,
                outcome: Result<ResultAndState, String>,
            |
                {
                    &&& *m == old(self).machine()
                    &&& *final(m) == final(self).machine()
                    &&& #[trigger] call_ensures(E::transact, (m, tx.parts().0), outcome)
                    &&& match outcome {
                        Ok(done) => r == Ok::<_, BlockExecutionError>(
                            output_of(tx.parts().0, tx.parts().1, done),
                        ),
                        Err(e) => r == Err::<EthTxResult<Recovered<TransactionSigned>>, _>(
                            BlockExecutionError::Evm(e),
                        ),
                    }
                },
    {
        let (tx_env, recovered) = tx.into_parts();
        let accepted = match self.accept_transaction(block.gas_limit, &tx_env) {
            Ok(accepted) => accepted,
            Err(e) => {
                return Err(e);
            },
        };
        let tx_type = recovered.tx.ty();
        let outcome = self.evm_mut().transact(tx_env);
        accepted.executed(outcome, recovered, tx_type)
    }

    /// Commits what came of a transaction. Gives the gas that it used.
    pub fn commit_transaction<T>(&mut self, output: EthTxResult<T>) -> (r: Result<
        u64,
        BlockExecutionError,
    >)
        ensures
            r == Ok::<_, BlockExecutionError>(output.result.result.gas_used),
            booked(*old(self), output, *final(self)),
            exists|m: &mut E|
                {
                    &&& *m == old(self).machine()
                    &&& *final(m) == final(self).machine()
                    &&& #[trigger] call_ensures(E::commit, (m, output.result.state), ())
                },
    {
        let (gas_used, state) = self.book_transaction(output);
        self.evm_mut().commit(state);
        Ok(gas_used)
    }

    /// Runs a transaction, and commits what came of it if the condition says so. Gives the gas that
    /// a committed one used.
    pub fn execute_transaction_with_commit_condition<
        X: ExecutableTx<Transaction = Recovered<TransactionSigned>>,
        F: FnOnce(&ExecutionResult) -> CommitChanges,
    >(&mut self, block: &BlockEnv, tx: X, f: F) -> (r: Result<Option<u64>, BlockExecutionError>)
        requires
            forall|result: &ExecutionResult| #[trigger] f.requires((result,)),
        ensures
            tx.parts().0.gas_limit > available_gas(*old(self), *block) ==> {
                &&& refused(tx.parts().0.gas_limit, available_gas(*old(self), *block), r)
                &&& final(self).machine() == old(self).machine()
                &&& final(self).same_books(*old(self))
                &&& final(self).caller() == old(self).caller()
            },
            tx.parts().0.gas_limit <= available_gas(*old(self), *block) ==> exists|
                m: &mut E,
                outcome: Result<ResultAndState, String>,
            |
                {
                    &&& *m == old(self).machine()
                    &&& #[trigger] call_ensures(E::transact, (m, tx.parts().0), outcome)
                    &&& match outcome {
                        Ok(done) => exists|changes: CommitChanges| #[trigger]
                            f.ensures((&done.result,), changes) && match changes {
                                CommitChanges::Yes => {
                                    &&& r == Ok::<_, BlockExecutionError>(
                                        Some(done.result.gas_used),
                                    )
                                    &&& booked(
                                        *old(self),
                                        output_of(tx.parts().0, tx.parts().1, done),
                                        *final(self),
                                    )
                                    &&& exists|c: &mut E|
                                        {
                                            &&& *c == *final(m)
                                            &&& *final(c) == final(self).machine()
                                            &&& #[trigger] call_ensures(
                                                E::commit,
                                                (c, done.state),
                                                (),
                                            )
                                        }
                                },
                                CommitChanges::No => {
                                    &&& r == Ok::<Option<u64>, BlockExecutionError>(None)
                                    &&& *final(m) == final(self).machine()
                                    &&& final(self).same_books(*old(self))
                                    &&& final(self).caller() == old(self).caller()
                                },
                            },
                        Err(e) => {
                            &&& r == Err::<Option<u64>, _>(BlockExecutionError::Evm(e))
                            &&& *final(m) == final(self).machine()
                            &&& final(self).same_books(*old(self))
                            &&& final(self).caller() == old(self).caller()
                        },
                    }
                },
    {
        let output = match self.execute_transaction_without_commit(block, tx) {
            Ok(output) => output,
            Err(e) => {
                return Err(e);
            },
        };
        if !f(&output.result.result).should_commit() {
            return Ok(None);
        }
        match self.commit_transaction(output) {
            Ok(gas_used) => Ok(Some(gas_used)),
            Err(e) => Err(e),
        }
    }

    /// Runs a transaction, shows how it ended, and commits it. Gives the gas that it used.
    pub fn execute_transaction_with_result_closure<
        X: ExecutableTx<Transaction = Recovered<TransactionSigned>>,
        F: FnOnce(&ExecutionResult) -> (),
    >(&mut self, block: &BlockEnv, tx: X, f: F) -> (r: Result<u64, BlockExecutionError>)
        requires
            forall|result: &ExecutionResult| #[trigger] f.requires((result,)),
        ensures
            tx.parts().0.gas_limit > available_gas(*old(self), *block) ==> {
                &&& refused(tx.parts().0.gas_limit, available_gas(*old(self), *block), r)
                &&& final(self).machine() == old(self).machine()
                &&& final(self).same_books(*old(self))
                &&& final(self).caller() == old(self).caller()
            },
            tx.parts().0.gas_limit <= available_gas(*old(self), *block) ==> exists|
                m: &mut E,
                outcome: Result<ResultAndState, String>,
            |
                {
                    &&& *m == old(self).machine()
                    &&& #[trigger] call_ensures(E::transact, (m, tx.parts().0), outcome)
                    &&& match outcome {
                        Ok(done) => {
                            &&& f.ensures((&done.result,), ())
                            &&& r == Ok::<_, BlockExecutionError>(done.result.gas_used)
                            &&& booked(
                                *old(self),
                                output_of(tx.parts().0, tx.parts().1, done),
                                *final(self),
                            )
                            &&& exists|c: &mut E|
                                {
                                    &&& *c == *final(m)
                                    &&& *final(c) == final(self).machine()
                                    &&& #[trigger] call_ensures(E::commit, (c, done.state), ())
                                }
                        },
                        Err(e) => {
                            &&& r == Err::<u64, _>(BlockExecutionError::Evm(e))
                            &&& *final(m) == final(self).machine()
                            &&& final(self).same_books(*old(self))
                            &&& final(self).caller() == old(self).caller()
                        },
                    }
                },
    {
        let show_then_keep = |result: &ExecutionResult| -> (changes: CommitChanges)
            requires
                f.requires((result,)),
            ensures
                changes is Yes,
                f.ensures((result,), ()),
            {
                f(result);
                CommitChanges::Yes
            };
        match self.execute_transaction_with_commit_condition(block, tx, show_then_keep) {
            Ok(Some(gas_used)) => Ok(gas_used),
            Ok(None) => Ok(0),
            Err(e) => Err(e),
        }
    }

    /// Runs a transaction and commits it. Gives the gas that it used.
    pub fn execute_transaction<X: ExecutableTx<Transaction = Recovered<TransactionSigned>>>(
        &mut self,
        block: &BlockEnv,
        tx: X,
    ) -> (r: Result<u64, BlockExecutionError>)
        ensures
            tx.parts().0.gas_limit > available_gas(*old(self), *block) ==> {
                &&& refused(tx.parts().0.gas_limit, available_gas(*old(self), *block), r)
                &&& final(self).machine() == old(self).machine()
                &&& final(self).same_books(*old(self))
                &&& final(self).caller() == old(self).caller()
            },
            tx.parts().0.gas_limit <= available_gas(*old(self), *block) ==> exists|
                m: &mut E,
                outcome: Result<ResultAndState, String>,
            |
                {
                    &&& *m == old(self).machine()
                    &&& #[trigger] call_ensures(E::transact, (m, tx.parts().0), outcome)
                    &&& match outcome {
                        Ok(done) => {
                            &&& r == Ok::<_, BlockExecutionError>(done.result.gas_used)
                            &&& booked(
                                *old(self),
                                output_of(tx.parts().0, tx.parts().1, done),
                                *final(self),
                            )
                            &&& exists|c: &mut E|
                                {
                                    &&& *c == *final(m)
                                    &&& *final(c) == final(self).machine()
                                    &&& #[trigger] call_ensures(E::commit, (c, done.state), ())
                                }
                        },
                        Err(e) => {
                            &&& r == Err::<u64, _>(BlockExecutionError::Evm(e))
                            &&& *final(m) == final(self).machine()
                            &&& final(self).same_books(*old(self))
                            &&& final(self).caller() == old(self).caller()
                        },
                    }
                },
    {
        let ignore = |_result: &ExecutionResult| -> (u: ()) {  };
        self.execute_transaction_with_result_closure(block, tx, ignore)
    }

    /// Runs what comes before the transactions: whether empty accounts are cleared is set, then the
    /// hash of the parent and the beacon root are stored.
    pub fn apply_pre_execution_changes(&mut self, contracts: &SystemContracts, block: &BlockEnv) -> (r:
        Result<(), BlockExecutionError>)
        ensures
            final(self).same_books(*old(self)),
            exists|machines: Seq<E>, steps: Seq<Step>|
                {
                    &&& #[trigger] is_path(
                        machines,
                        steps,
                        old(self).machine(),
                        final(self).machine(),
                    )
                    &&& forall|i: int| #[trigger]
                        is_step(steps, i) ==> exists|m: &mut E|
                            *m == machines[i] && *final(m) == machines[i + 1] && #[trigger] takes(
                                m,
                                steps[i],
                            )
                    &&& opened(
                        old(self).context(),
                        *contracts,
                        *block,
                        steps,
                        old(self).caller(),
                        final(self).caller(),
                        r,
                    )
                },
    {
        let ghost from = self.evm;
        let ghost before = self.system_caller;
        let clears: bool = self.system_caller.spec().is_spurious_dragon_active_at_block(
            block.number.saturating_to_u64(),
        );
        self.evm.set_state_clear_flag(clears);
        let ghost cleared = Step::Clear { on: clears };
        let ghost ready = self.evm;
        proof {
            let m = choose|m: &mut E|
                *m == from && *final(m) == ready && #[trigger] call_ensures(
                    E::set_state_clear_flag,
                    (m, clears),
                    (),
                );
            assert(takes(m, cleared));
            lemma_one_step(from, cleared, ready);
        }
        let hashed = self.system_caller.apply_blockhashes_contract_call(
            contracts,
            self.ctx.parent_hash,
            block,
            &mut self.evm,
        );
        let ghost middle = self.evm;
        let ghost between = self.system_caller;
        let ghost (path, hash) = choose|machines: Seq<E>, steps: Seq<Step>|
            {
                &&& #[trigger] is_path(machines, steps, ready, middle)
                &&& forall|i: int| #[trigger]
                    is_step(steps, i) ==> exists|m: &mut E|
                        *m == machines[i] && *final(m) == machines[i + 1] && #[trigger] takes(
                            m,
                            steps[i],
                        )
                &&& stored(
                    stores_parent_hash(before.rules(), *block),
                    contracts.history_storage,
                    self.ctx.parent_hash.bytes(),
                    "EIP-2935 error: "@,
                    steps,
                    before,
                    between,
                    hashed,
                )
            };
        let ghost begun = seq![from, ready] + path.drop_first();
        proof {
            lemma_paths_join(seq![from, ready], seq![cleared], path, hash, from, ready, middle);
        }
        match hashed {
            Ok(_) => {},
            Err(e) => {
                proof {
                    assert(opening_steps(clears, hash, Seq::empty()) =~= seq![cleared] + hash);
                    assert(clears == clears_state(before.rules(), *block));
                    assert(opened(
                        self.ctx,
                        *contracts,
                        *block,
                        seq![cleared] + hash,
                        before,
                        between,
                        hashed,
                    ));
                    assert(is_path(
                        begun,
                        seq![cleared] + hash,
                        old(self).machine(),
                        self.machine(),
                    ));
                }
                return Err(e);
            },
        }
        let r = self.system_caller.apply_beacon_root_contract_call(
            contracts,
            self.ctx.parent_beacon_block_root,
            block,
            &mut self.evm,
        );
        let ghost to = self.evm;
        let ghost after = self.system_caller;
        proof {
            let (more, root) = choose|machines: Seq<E>, steps: Seq<Step>|
                {
                    &&& #[trigger] is_path(machines, steps, middle, to)
                    &&& forall|i: int| #[trigger]
                        is_step(steps, i) ==> exists|m: &mut E|
                            *m == machines[i] && *final(m) == machines[i + 1] && #[trigger] takes(
                                m,
                                steps[i],
                            )
                    &&& stored(
                        stores_beacon_root(before.rules(), *block)
                            && self.ctx.parent_beacon_block_root is Some,
                        contracts.beacon_roots,
                        (self.ctx.parent_beacon_block_root->0).bytes(),
                        "EIP-4788 error: "@,
                        steps,
                        between,
                        after,
                        r,
                    )
                };
            lemma_paths_join(begun, seq![cleared] + hash, more, root, from, middle, to);
            assert(opening_steps(clears, hash, root) == seq![cleared] + hash + root);
            assert(clears == clears_state(before.rules(), *block));
            assert(opened(
                self.ctx,
                *contracts,
                *block,
                seq![cleared] + hash + root,
                before,
                after,
                r,
            ));
            assert(is_path(
                begun + more.drop_first(),
                seq![cleared] + hash + root,
                old(self).machine(),
                self.machine(),
            ));
        }
        r
    }

    /// What the balances grow by at the end of the block, with what was drained from the accounts of
    /// the DAO.
    fn drained_increments(&mut self, rules: &BlockRules, block: &BlockEnv) -> (r: Result<
        BalanceIncrements,
        BlockExecutionError,
    >)
        ensures
            final(self).same_books(*old(self)),
            final(self).caller() == old(self).caller(),
            exists|machines: Seq<E>, steps: Seq<Step>|
                {
                    &&& #[trigger] is_path(
                        machines,
                        steps,
                        old(self).machine(),
                        final(self).machine(),
                    )
                    &&& forall|i: int| #[trigger]
                            is_step(steps, i) ==> exists|m: &mut E|
                                *m == machines[i] && *final(m) == machines[i + 1] && #[trigger] takes(
                                    m,
                                    steps[i],
                                )
                    &&& drained(*old(self), *rules, *block, steps, viewed(r))
                },
    {
        let ghost from = self.evm;
        let mut increments = self.balance_increments(block);
        if !self.drains_dao(block) {
            proof {
                lemma_no_step(from);
                assert(is_path(seq![from], Seq::empty(), old(self).machine(), self.machine()));
            }
            return Ok(increments);
        }
        let outcome = self.evm.drain_balances(&rules.dao_accounts);
        proof {
            let to = self.evm;
            let step = Step::Drain { accounts: rules.dao_accounts, outcome };
            let m = choose|m: &mut E|
                *m == from && *final(m) == to && #[trigger] call_ensures(
                    E::drain_balances,
                    (m, &rules.dao_accounts),
                    outcome,
                );
            assert(takes(m, step));
            lemma_one_step(from, step, to);
            assert(is_path(seq![from, to], seq![step], old(self).machine(), self.machine()));
        }
        match outcome {
            Ok(drained) => {
                credit_drained(&mut increments, rules.dao_beneficiary, &drained);
                Ok(increments)
            },
            Err(e) => Err(BlockExecutionError::Evm(e)),
        }
    }

    /// Lets the balances grow, if there are any that do.
    fn grow_balances(&mut self, increments: &BalanceIncrements) -> (r: Result<
        (),
        BlockExecutionError,
    >)
        ensures
            final(self).same_books(*old(self)),
            final(self).caller() == old(self).caller(),
            exists|machines: Seq<E>, steps: Seq<Step>|
                {
                    &&& #[trigger] is_path(
                        machines,
                        steps,
                        old(self).machine(),
                        final(self).machine(),
                    )
                    &&& forall|i: int| #[trigger]
                            is_step(steps, i) ==> exists|m: &mut E|
                                *m == machines[i] && *final(m) == machines[i + 1] && #[trigger] takes(
                                    m,
                                    steps[i],
                                )
                    &&& paid(increments@, steps, r)
                },
    {
        let ghost from = self.evm;
        if increments.is_empty() {
            proof {
                lemma_no_step(from);
                assert(is_path(seq![from], Seq::empty(), old(self).machine(), self.machine()));
            }
            return Ok(());
        }
        let list = increments.entries();
        let outcome = self.evm.increment_balances(list);
        proof {
            let to = self.evm;
            let step = Step::Grow { list: *list, outcome };
            let m = choose|m: &mut E|
                *m == from && *final(m) == to && #[trigger] call_ensures(
                    E::increment_balances,
                    (m, list),
                    outcome,
                );
            assert(takes(m, step));
            lemma_one_step(from, step, to);
            assert(is_path(seq![from, to], seq![step], old(self).machine(), self.machine()));
        }
        match outcome {
            Ok(_) => Ok(()),
            Err(e) => Err(BlockExecutionError::Evm(e)),
        }
    }

    /// Tells the observer, if there is one, of the accounts whose balances grow.
    fn report_increments(&mut self, increments: &BalanceIncrements) -> (r: Result<
        (),
        BlockExecutionError,
    >)
        ensures
            final(self).same_books(*old(self)),
            exists|machines: Seq<E>, steps: Seq<Step>|
                {
                    &&& #[trigger] is_path(
                        machines,
                        steps,
                        old(self).machine(),
                        final(self).machine(),
                    )
                    &&& forall|i: int| #[trigger]
                            is_step(steps, i) ==> exists|m: &mut E|
                                *m == machines[i] && *final(m) == machines[i + 1] && #[trigger] takes(
                                    m,
                                    steps[i],
                                )
                    &&& reported(
                            old(self).caller(),
                            increments@,
                            steps,
                            match r {
                                Ok(_) => Ok(final(self).caller().pending()),
                                Err(e) => Err(e),
                            },
                        )
                },
            r is Err ==> final(self).caller() == old(self).caller(),
    {
        let ghost mut path = seq![self.evm];
        let ghost mut steps = Seq::<Step>::empty();
        if !self.is_observed() {
            assert(is_path(path, steps, old(self).machine(), self.machine()));
            return Ok(());
        }
        let nonzero = increments.nonzero();
        let mut accounts_before: Vec<Option<AccountInfo>> = Vec::new();
        let mut i: usize = 0;
        while i < nonzero.len()
            invariant
                i <= nonzero@.len(),
                steps.len() == i,
                is_path(path, steps, old(self).machine(), self.evm),
                forall|i: int| #[trigger]
                    is_step(steps, i) ==> exists|m: &mut E|
                        *m == path[i] && *final(m) == path[i + 1] && #[trigger] takes(m, steps[i]),
                loads(nonzero@, steps),
                i > 0 ==> (steps.last() matches Step::Load { address, outcome } && outcome is Ok),
                accounts_before@ =~= loaded(steps),
                lists_nonzero(nonzero@, increments@),
                self.same_books(*old(self)),
                self.caller() == old(self).caller(),
                old(self).caller().observed(),
            decreases nonzero@.len() - i,
        {
            let ghost from = self.evm;
            let ghost seen = steps;
            let ghost until = path;
            let ghost address = nonzero@[i as int].0;
            let outcome = self.evm.load_account(nonzero[i].0);
            proof {
                let to = self.evm;
                let step = Step::Load { address, outcome };
                let m = choose|m: &mut E|
                    *m == from && *final(m) == to && #[trigger] call_ensures(
                        E::load_account,
                        (m, address),
                        outcome,
                    );
                assert(takes(m, step));
                lemma_one_step(from, step, to);
                lemma_paths_join(
                    until,
                    seen,
                    seq![from, to],
                    seq![step],
                    old(self).machine(),
                    from,
                    to,
                );
                steps = seen + seq![step];
                path = until + seq![from, to].drop_first();
                assert forall|k: int| 0 <= k < steps.len() implies ((
                #[trigger] steps[k]) matches Step::Load { address, outcome } && address
                    == nonzero@[k].0 && (k < steps.len() - 1 ==> outcome is Ok)) by {
                    if k < seen.len() {
                        assert(steps[k] == seen[k]);
                    }
                }
                assert(steps.last() == step);
                assert(loads(nonzero@, steps));
                assert(is_path(path, steps, old(self).machine(), self.machine()));
            }
            match outcome {
                Ok(info) => {
                    accounts_before.push(info);
                    assert(accounts_before@ =~= loaded(steps)) by {
                        assert forall|k: int| 0 <= k < steps.len() implies accounts_before@[k]
                            == loaded(steps)[k] by {
                            if k < seen.len() {
                                assert(loaded(seen)[k] == loaded(steps)[k]);
                            }
                        }
                    }
                },
                Err(e) => {
                    return Err(BlockExecutionError::Evm(e));
                },
            }
            i = i + 1;
        }
        let ghost infos = accounts_before@;
        let accounts = balance_increment_state(&nonzero, accounts_before);
        assert(grown_from(accounts@, nonzero@, infos));
        let state: EvmState = Arc::new(accounts);
        let ghost change = StateChange { source: StateChangeSource::System, state };
        let work = || -> (worked: Result<EvmState, BlockExecutionError>)
            ensures
                worked == Ok::<EvmState, BlockExecutionError>(state),
            { Ok(state) };
        let r = self.system_caller.try_on_state_with(work);
        proof {
            assert(self.caller().pending() == old(self).caller().pending().push(change));
            assert(self.caller().pending().drop_last() =~= old(self).caller().pending());
            assert(is_path(path, steps, old(self).machine(), self.machine()));
        }
        r
    }

    /// Ends the block: its requests are collected, balances grow, and the observer is told. Gives the
    /// virtual machine, what came of the block and its context, and the changes that the observer has
    /// still to be told of, also where the end of the block fails.
    pub(crate) fn finish_with_context<P: RequestParser<R::Receipt>>(
        self,
        rules: &BlockRules,
        block: &BlockEnv,
        parser: &P,
    ) -> (r: (
        Result<
            (E, BlockExecutionResult<R::Receipt>, EthBlockExecutionCtx),
            BlockExecutionError,
        >,
        Vec<StateChange>,
    ))
        ensures
            exists|machines: Seq<E>, steps: Seq<Step>, to: E|
                {
                    &&& #[trigger] is_path(machines, steps, self.machine(), to)
                    &&& forall|i: int| #[trigger]
                            is_step(steps, i) ==> exists|m: &mut E|
                                *m == machines[i] && *final(m) == machines[i + 1] && #[trigger] takes(
                                    m,
                                    steps[i],
                                )
                    &&& match r.0 {
                        Ok(done) => {
                            &&& done.0 == to
                            &&& done.2 == self.context()
                            &&& done.1.receipts@ == self.made_receipts()
                            &&& done.1.gas_used == self.gas()
                            &&& done.1.blob_gas_used == self.blob_gas()
                            &&& closed::<E, R, P>(
                                self,
                                *rules,
                                *block,
                                *parser,
                                steps,
                                Ok(done.1.requests@),
                                r.1@,
                            )
                        },
                        Err(e) => closed::<E, R, P>(
                            self,
                            *rules,
                            *block,
                            *parser,
                            steps,
                            Err(e),
                            r.1@,
                        ),
                    }
                },
    {
        let ghost start = self;
        let ghost from = self.machine();
        let ghost none = Seq::<Step>::empty();
        let mut executor = self;
        let ghost unopened = Closing {
            opened: Ok(Seq::empty()),
            asking: none,
            requests: Seq::empty(),
            told: start.caller(),
            asked: Ok(()),
            draining: none,
            amounts: Ok(Map::empty()),
            paying: none,
            paid: Ok(()),
            loading: none,
        };
        let deposits = if executor.collects_deposits(block) {
            match parser.parse_deposits(&executor.receipts) {
                Ok(deposits) => deposits,
                Err(e) => {
                    let changes = executor.take_changes();
                    proof {
                        let c = Closing { opened: Err(BlockExecutionError::Evm(e)), ..unopened };
                        lemma_no_step(from);
                        assert(c.steps() =~= none);
                        assert(is_path(seq![from], c.steps(), start.machine(), from));
                        assert(c.ends::<E, R, P>(
                            start,
                            *rules,
                            *block,
                            *parser,
                            Err(BlockExecutionError::Evm(e)),
                            changes@,
                        ));
                    }
                    return (Err(BlockExecutionError::Evm(e)), changes);
                },
            }
        } else {
            Vec::new()
        };
        let ghost receipts = executor.receipts;
        let ghost read = deposits;
        let mut requests: Vec<Request> = executor.open_requests(deposits);
        let ghost first = requests@;
        proof {
            if collects_requests(start.caller().rules(), *block) {
                assert(call_ensures(
                    P::parse_deposits,
                    (parser, &receipts),
                    Ok::<Vec<u8>, String>(read),
                ));
            }
            assert(read@.len() == 0 ==> first =~= Seq::empty());
            assert(deposited::<E, R, P>(start, *block, *parser, Ok(first)));
        }
        let asked = executor.system_caller.append_post_execution_changes(
            &rules.contracts,
            block,
            &mut executor.evm,
            &mut requests,
            parser,
        );
        let ghost collected = requests@;
        let ghost caller = executor.caller();
        let ghost at = executor.machine();
        let ghost (path, asking) = choose|machines: Seq<E>, steps: Seq<Step>|
            {
                &&& #[trigger] is_path(machines, steps, from, at)
                &&& forall|i: int| #[trigger]
                        is_step(steps, i) ==> exists|m: &mut E|
                            *m == machines[i] && *final(m) == machines[i + 1] && #[trigger] takes(
                                m,
                                steps[i],
                            )
                &&& gathered::<R::Receipt, P>(
                        collects_requests(start.caller().rules(), *block),
                        rules.contracts,
                        *parser,
                        steps,
                        start.caller(),
                        caller,
                        first,
                        collected,
                        asked,
                    )
            };
        let ghost c = Closing {
            opened: Ok(first),
            asking,
            requests: collected,
            told: caller,
            asked,
            ..unopened
        };
        assert(c.steps() =~= asking);
        match asked {
            Ok(_) => {},
            Err(e) => {
                let changes = executor.take_changes();
                proof {
                    assert(is_path(path, c.steps(), start.machine(), executor.machine()));
                    assert(c.ends::<E, R, P>(
                        start,
                        *rules,
                        *block,
                        *parser,
                        Err(e),
                        changes@,
                    ));
                }
                return (Err(e), changes);
            },
        }
        let ghost before = executor;
        let increments = executor.drained_increments(rules, block);
        let ghost amounts = viewed(increments);
        let ghost to = executor.machine();
        assert(due(before, *block) == due(start, *block));
        let ghost (more, draining) = choose|machines: Seq<E>, steps: Seq<Step>|
            {
                &&& #[trigger] is_path(machines, steps, at, to)
                &&& forall|i: int| #[trigger]
                        is_step(steps, i) ==> exists|m: &mut E|
                            *m == machines[i] && *final(m) == machines[i + 1] && #[trigger] takes(
                                m,
                                steps[i],
                            )
                &&& drained(before, *rules, *block, steps, amounts)
            };
        proof {
            lemma_paths_join(path, c.steps(), more, draining, from, at, to);
        }
        let ghost path = path + more.drop_first();
        let ghost so_far = c.steps() + draining;
        let ghost c = Closing { draining, amounts, ..c };
        assert(c.steps() =~= so_far);
        let increments = match increments {
            Ok(increments) => increments,
            Err(e) => {
                let changes = executor.take_changes();
                proof {
                    assert(is_path(path, c.steps(), start.machine(), executor.machine()));
                    assert(c.ends::<E, R, P>(
                        start,
                        *rules,
                        *block,
                        *parser,
                        Err(e),
                        changes@,
                    ));
                }
                return (Err(e), changes);
            },
        };
        let ghost at = executor.machine();
        let grown = executor.grow_balances(&increments);
        let ghost to = executor.machine();
        let ghost (more, paying) = choose|machines: Seq<E>, steps: Seq<Step>|
            {
                &&& #[trigger] is_path(machines, steps, at, to)
                &&& forall|i: int| #[trigger]
                        is_step(steps, i) ==> exists|m: &mut E|
                            *m == machines[i] && *final(m) == machines[i + 1] && #[trigger] takes(
                                m,
                                steps[i],
                            )
                &&& paid(increments@, steps, grown)
            };
        proof {
            lemma_paths_join(path, c.steps(), more, paying, from, at, to);
        }
        let ghost path = path + more.drop_first();
        let ghost so_far = c.steps() + paying;
        let ghost c = Closing { paying, paid: grown, ..c };
        assert(c.steps() =~= so_far);
        match grown {
            Ok(_) => {},
            Err(e) => {
                let changes = executor.take_changes();
                proof {
                    assert(is_path(path, c.steps(), start.machine(), executor.machine()));
                    assert(c.ends::<E, R, P>(
                        start,
                        *rules,
                        *block,
                        *parser,
                        Err(e),
                        changes@,
                    ));
                }
                return (Err(e), changes);
            },
        }
        let ghost at = executor.machine();
        let ghost before = executor.caller();
        let told = executor.report_increments(&increments);
        let ghost to = executor.machine();
        let ghost changes = executor.caller().pending();
        let ghost (more, loading) = choose|machines: Seq<E>, steps: Seq<Step>|
            {
                &&& #[trigger] is_path(machines, steps, at, to)
                &&& forall|i: int| #[trigger]
                        is_step(steps, i) ==> exists|m: &mut E|
                            *m == machines[i] && *final(m) == machines[i + 1] && #[trigger] takes(
                                m,
                                steps[i],
                            )
                &&& reported(
                        before,
                        increments@,
                        steps,
                        match told {
                            Ok(_) => Ok(changes),
                            Err(e) => Err(e),
                        },
                    )
            };
        proof {
            lemma_paths_join(path, c.steps(), more, loading, from, at, to);
        }
        let ghost path = path + more.drop_first();
        let ghost so_far = c.steps() + loading;
        let ghost c = Closing { loading, ..c };
        assert(c.steps() =~= so_far);
        match told {
            Ok(_) => {},
            Err(e) => {
                let changes = executor.take_changes();
                proof {
                    assert(is_path(path, c.steps(), start.machine(), executor.machine()));
                    assert(c.ends::<E, R, P>(
                        start,
                        *rules,
                        *block,
                        *parser,
                        Err(e),
                        changes@,
                    ));
                }
                return (Err(e), changes);
            },
        }
        assert(is_path(path, c.steps(), start.machine(), executor.machine()));
        assert(c.ends::<E, R, P>(start, *rules, *block, *parser, Ok(collected), changes));
        let (evm, result, ctx, changes) = executor.into_parts(requests);
        (Ok((evm, result, ctx)), changes)
    }

    /// Ends the block: its requests are collected, balances grow, and the observer is told. Gives the
    /// virtual machine and what came of the block, and the changes that the observer has still to be
    /// told of, also where the end of the block fails.
    pub fn finish<P: RequestParser<R::Receipt>>(
        self,
        rules: &BlockRules,
        block: &BlockEnv,
        parser: &P,
    ) -> (r: (
        Result<(E, BlockExecutionResult<R::Receipt>), BlockExecutionError>,
        Vec<StateChange>,
    ))
        ensures
            exists|machines: Seq<E>, steps: Seq<Step>, to: E|
                {
                    &&& #[trigger] is_path(machines, steps, self.machine(), to)
                    &&& forall|i: int| #[trigger]
                            is_step(steps, i) ==> exists|m: &mut E|
                                *m == machines[i] && *final(m) == machines[i + 1] && #[trigger] takes(
                                    m,
                                    steps[i],
                                )
                    &&& match r.0 {
                        Ok(done) => {
                            &&& done.0 == to
                            &&& done.1.receipts@ == self.made_receipts()
                            &&& done.1.gas_used == self.gas()
                            &&& done.1.blob_gas_used == self.blob_gas()
                            &&& closed::<E, R, P>(
                                self,
                                *rules,
                                *block,
                                *parser,
                                steps,
                                Ok(done.1.requests@),
                                r.1@,
                            )
                        },
                        Err(e) => closed::<E, R, P>(
                            self,
                            *rules,
                            *block,
                            *parser,
                            steps,
                            Err(e),
                            r.1@,
                        ),
                    }
                },
    {
        let (finished, changes) = self.finish_with_context(rules, block, parser);
        match finished {
            Ok((evm, result, _)) => (Ok((evm, result)), changes),
            Err(e) => (Err(e), changes),
        }
    }

    /// Executes the whole block: what comes before the transactions, the transactions in order, and
    /// its end. The first failure ends it. Gives the virtual machine and what came of the block, and
    /// the changes for the observer.
    pub fn execute_block<
        X: ExecutableTx<Transaction = Recovered<TransactionSigned>>,
        P: RequestParser<R::Receipt>,
    >(self, rules: &BlockRules, block: &BlockEnv, parser: &P, transactions: Vec<X>) -> (r: (
        Result<(E, BlockExecutionResult<R::Receipt>), BlockExecutionError>,
        Vec<StateChange>,
    ))
        ensures
            exists|machines: Seq<E>, steps: Seq<Step>, to: E|
                {
                    &&& #[trigger] is_path(machines, steps, self.machine(), to)
                    &&& forall|i: int| #[trigger]
                            is_step(steps, i) ==> exists|m: &mut E|
                                *m == machines[i] && *final(m) == machines[i + 1] && #[trigger] takes(
                                    m,
                                    steps[i],
                                )
                    &&& executed::<E, R, P>(
                        self,
                        *rules,
                        *block,
                        *parser,
                        parts_of(transactions@),
                        steps,
                        without_machine(r.0),
                        r.1@,
                    )
                    &&& r.0 matches Ok(done) ==> done.0 == to
                },
    {
        let ghost start = self;
        let ghost from = self.machine();
        let ghost none = Seq::<Step>::empty();
        let ghost all = parts_of(transactions@);
        let mut executor = self;
        let begun = executor.apply_pre_execution_changes(&rules.contracts, block);
        let ghost ready = executor.machine();
        let ghost caller = executor.caller();
        let ghost (opening_path, opening) = choose|machines: Seq<E>, steps: Seq<Step>|
            {
                &&& #[trigger] is_path(machines, steps, from, ready)
                &&& forall|i: int| #[trigger]
                        is_step(steps, i) ==> exists|m: &mut E|
                            *m == machines[i] && *final(m) == machines[i + 1] && #[trigger] takes(
                                m,
                                steps[i],
                            )
                &&& opened(
                    start.context(),
                    rules.contracts,
                    *block,
                    steps,
                    start.caller(),
                    caller,
                    begun,
                )
            };
        let ghost unrun = BlockRun {
            opening,
            begun: caller,
            opened: begun,
            dones: Seq::empty(),
            end: executor,
            ending: none,
            more: Seq::empty(),
        };
        match begun {
            Ok(_) => {},
            Err(e) => {
                let changes = executor.take_changes();
                proof {
                    assert(unrun.steps(all) =~= opening);
                    assert(is_path(opening_path, unrun.steps(all), start.machine(), ready));
                    assert(unrun.ends::<P>(
                        start,
                        *rules,
                        *block,
                        *parser,
                        all,
                        Err(e),
                        changes@,
                    ));
                }
                return (Err(e), changes);
            },
        }
        let ghost mut dones = Seq::<ResultAndState>::empty();
        let ghost mut path = seq![ready];
        let ghost mut steps = none;
        let ghost observed = start.caller().observed();
        let ghost first = start.made_receipts().len();
        proof {
            let receipts = executor.made_receipts();
            assert(receipts.take(receipts.len() as int) =~= receipts);
            assert(results_of(dones) =~= Seq::empty());
            assert(executed_in_order(start, *block, all.take(0), results_of(dones), receipts));
            assert(run_changes(first, dones) =~= Seq::empty());
            assert(caller.pending() + run_changes(first, dones) =~= caller.pending());
        }
        for tx in it: transactions
            invariant
                start == self,
                all == parts_of(transactions@),
                it.seq() == transactions@,
                all.len() == transactions@.len(),
                dones.len() == it.index(),
                first == start.made_receipts().len(),
                observed == start.caller().observed(),
                begun is Ok,
                opened(
                    start.context(),
                    rules.contracts,
                    *block,
                    opening,
                    start.caller(),
                    caller,
                    begun,
                ),
                is_path(opening_path, opening, start.machine(), ready),
                forall|i: int| #[trigger]
                    is_step(opening, i) ==> exists|m: &mut E|
                        *m == opening_path[i] && *final(m) == opening_path[i + 1] && #[trigger] takes(
                            m,
                            opening[i],
                        ),
                unrun.opening == opening,
                unrun.begun == caller,
                unrun.opened == begun,
                is_path(path, steps, ready, executor.machine()),
                forall|i: int| #[trigger]
                    is_step(steps, i) ==> exists|m: &mut E|
                        *m == path[i] && *final(m) == path[i + 1] && #[trigger] takes(m, steps[i]),
                steps == run_steps(all, dones),
                executor.context() == start.context(),
                executor.builder() == start.builder(),
                executor.caller().rules() == start.caller().rules(),
                executor.caller().observed() == observed,
                executor.caller().pending() == if observed {
                    caller.pending() + run_changes(first, dones)
                } else {
                    caller.pending()
                },
                executor.gas() == gas_counted(start.gas(), results_of(dones), dones.len()),
                executor.blob_gas() == blob_gas_counted(start.blob_gas(), all, dones.len()),
                executed_in_order(
                    start,
                    *block,
                    all.take(dones.len() as int),
                    results_of(dones),
                    executor.made_receipts(),
                ),
        {
            let ghost n = dones.len() as int;
            let ghost before = executor;
            assert(tx == transactions@[n]);
            assert(tx.parts() == all[n]);
            let ran = executor.execute_transaction_without_commit(block, tx);
            let ghost after = executor;
            match ran {
                Ok(output) => {
                    let ghost done = output.result;
                    proof {
                        lemma_ran(before.machine(), all[n].0, Ok(done), after.machine());
                    }
                    match executor.commit_transaction(output) {
                        Ok(_) => {},
                        Err(e) => {
                            let changes = executor.take_changes();
                            return (Err(e), changes);
                        },
                    }
                    proof {
                        let to = executor.machine();
                        let seen = dones;
                        let so_far = steps;
                        let until = path;
                        let run = Step::Run { tx: all[n].0, outcome: Ok(done) };
                        let keep = Step::Keep { state: done.state };
                        let m = choose|m: &mut E|
                            *m == after.machine() && *final(m) == to && #[trigger] call_ensures(
                                E::commit,
                                (m, done.state),
                                (),
                            );
                        assert(takes(m, keep));
                        lemma_one_step(before.machine(), run, after.machine());
                        lemma_one_step(after.machine(), keep, to);
                        lemma_paths_join(
                            until,
                            so_far,
                            seq![before.machine(), after.machine()],
                            seq![run],
                            ready,
                            before.machine(),
                            after.machine(),
                        );
                        let once = until + seq![before.machine(), after.machine()].drop_first();
                        lemma_paths_join(
                            once,
                            so_far + seq![run],
                            seq![after.machine(), to],
                            seq![keep],
                            ready,
                            after.machine(),
                            to,
                        );
                        dones = seen.push(done);
                        path = once + seq![after.machine(), to].drop_first();
                        steps = so_far + seq![run] + seq![keep];
                        assert(dones.drop_last() =~= seen);
                        assert(steps =~= run_steps(all, dones));
                        assert(results_of(dones) =~= results_of(seen).push(done.result));
                        assert(run_changes(first, dones) =~= run_changes(first, seen).push(
                            StateChange {
                                source: StateChangeSource::Transaction((first + n) as usize),
                                state: done.state,
                            },
                        ));
                        assert(executor.caller().pending() =~= if observed {
                            caller.pending() + run_changes(first, dones)
                        } else {
                            caller.pending()
                        });
                        lemma_executed_one_more(
                            start,
                            *block,
                            all,
                            results_of(seen),
                            after,
                            done,
                            executor,
                        );
                    }
                },
                Err(e) => {
                    let changes = executor.take_changes();
                    proof {
                        let available = available_gas(before, *block);
                        let over = all[n].0.gas_limit > available;
                        let run = Step::Run { tx: all[n].0, outcome: Err(e->Evm_0) };
                        let ending = if over {
                            Seq::<Step>::empty()
                        } else {
                            seq![run]
                        };
                        let last = if over {
                            seq![before.machine()]
                        } else {
                            seq![before.machine(), after.machine()]
                        };
                        if over {
                            lemma_no_step(before.machine());
                        } else {
                            lemma_ran(before.machine(), all[n].0, Err(e->Evm_0), after.machine());
                            lemma_one_step(before.machine(), run, after.machine());
                        }
                        lemma_paths_join(
                            path,
                            steps,
                            last,
                            ending,
                            ready,
                            before.machine(),
                            after.machine(),
                        );
                        lemma_paths_join(
                            opening_path,
                            opening,
                            path + last.drop_first(),
                            steps + ending,
                            start.machine(),
                            ready,
                            after.machine(),
                        );
                        let done = BlockRun { dones, end: before, ending, ..unrun };
                        assert(done.steps(all) =~= opening + (steps + ending));
                        assert(done.runs(start, *block, all));
                        assert(done.ends::<P>(
                            start,
                            *rules,
                            *block,
                            *parser,
                            all,
                            Err(e),
                            changes@,
                        ));
                    }
                    return (Err(e), changes);
                },
            }
        }
        let mut changes = executor.take_changes();
        let ghost told_before = changes@;
        let ghost end = executor;
        proof {
            assert(dones.len() == all.len());
            assert(all.take(all.len() as int) =~= all);
        }
        let (finished, mut rest) = executor.finish(rules, block, parser);
        let ghost (closing_path, closing, to) = choose|machines: Seq<E>, steps: Seq<Step>, to: E|
            {
                &&& #[trigger] is_path(machines, steps, end.machine(), to)
                &&& forall|i: int| #[trigger]
                        is_step(steps, i) ==> exists|m: &mut E|
                            *m == machines[i] && *final(m) == machines[i + 1] && #[trigger] takes(
                                m,
                                steps[i],
                            )
                &&& match finished {
                    Ok(done) => {
                        &&& done.0 == to
                        &&& done.1.receipts@ == end.made_receipts()
                        &&& done.1.gas_used == end.gas()
                        &&& done.1.blob_gas_used == end.blob_gas()
                        &&& closed::<E, R, P>(
                            end,
                            *rules,
                            *block,
                            *parser,
                            steps,
                            Ok(done.1.requests@),
                            rest@,
                        )
                    },
                    Err(e) => closed::<E, R, P>(
                        end,
                        *rules,
                        *block,
                        *parser,
                        steps,
                        Err(e),
                        rest@,
                    ),
                }
            };
        proof {
            lemma_paths_join(path, steps, closing_path, closing, ready, end.machine(), to);
            lemma_paths_join(
                opening_path,
                opening,
                path + closing_path.drop_first(),
                steps + closing,
                start.machine(),
                ready,
                to,
            );
        }
        let ghost done = BlockRun { dones, end, ending: closing, more: rest@, ..unrun };
        assert(done.steps(all) =~= opening + (steps + closing));
        assert(done.runs(start, *block, all));
        changes.append(&mut rest);
        assert(changes@ =~= done.changes(start) + done.more);
        match finished {
            Ok((evm, result)) => {
                assert(done.ends::<P>(start, *rules, *block, *parser, all, Ok(result), changes@));
                (Ok((evm, result)), changes)
            },
            Err(e) => {
                assert(done.ends::<P>(start, *rules, *block, *parser, all, Err(e), changes@));
                (Err(e), changes)
            },
        }
    }
}

/// A transaction that ran is a step.
proof fn lemma_ran<E: Evm>(
    from: E,
    tx: TxEnv,
    outcome: Result<ResultAndState, String>,
    to: E,
)
    requires
        exists|m: &mut E|
            *m == from && *final(m) == to && #[trigger] call_ensures(E::transact, (m, tx), outcome),
    ensures
        exists|m: &mut E|
            *m == from && *final(m) == to && #[trigger] takes(m, Step::Run { tx, outcome }),
{
    let m = choose|m: &mut E|
        *m == from && *final(m) == to && #[trigger] call_ensures(E::transact, (m, tx), outcome);
    assert(takes(m, Step::Run { tx, outcome }));
}

/// What came of a block, without the virtual machine.
pub open spec fn without_machine<E, T>(
    r: Result<(E, BlockExecutionResult<T>), BlockExecutionError>,
) -> Result<BlockExecutionResult<T>, BlockExecutionError> {
    match r {
        Ok(done) => Ok(done.1),
        Err(e) => Err(e),
    }
}

/// The parts of transactions.
pub open spec fn parts_of<X: ExecutableTx>(transactions: Seq<X>) -> Seq<(TxEnv, X::Transaction)> {
    Seq::new(transactions.len(), |i: int| transactions[i].parts())
}

/// The gas counted after the first `n` results.
pub open spec fn gas_counted(start: u64, results: Seq<ExecutionResult>, n: nat) -> int
    decreases n,
{
    if n == 0 {
        start as int
    } else {
        gas_after(gas_counted(start, results, (n - 1) as nat) as u64, results[n - 1].gas_used)
    }
}

/// The blob gas counted after the first `n` transactions.
pub open spec fn blob_gas_counted(
    start: u64,
    txs: Seq<(TxEnv, Recovered<TransactionSigned>)>,
    n: nat,
) -> int
    decreases n,
{
    if n == 0 {
        start as int
    } else {
        gas_after(
            blob_gas_counted(start, txs, (n - 1) as nat) as u64,
            blob_gas(txs[n - 1].0) as u64,
        )
    }
}

/// Whether the receipts are those that the executor had and then those of the transactions, in
/// order, each with the gas counted up to it; and whether each transaction fitted into the block when
/// its turn came.
pub open spec fn executed_in_order<E, R: ReceiptBuilder>(
    executor: EthBlockExecutor<E, R>,
    block: BlockEnv,
    txs: Seq<(TxEnv, Recovered<TransactionSigned>)>,
    results: Seq<ExecutionResult>,
    receipts: Seq<R::Receipt>,
) -> bool {
    let first = executor.made_receipts().len();
    &&& results.len() == txs.len()
    &&& receipts.len() == first + txs.len()
    &&& receipts.take(first as int) == executor.made_receipts()
    &&& forall|i: int|
        0 <= i < txs.len() ==> executor.builder().is_receipt_of(
            ReceiptBuilderCtx {
                tx_type: txs[i].1.tx.tx_type(),
                result: results[i],
                cumulative_gas_used: gas_counted(executor.gas(), results, (i + 1) as nat) as u64,
            },
            #[trigger] receipts[first + i],
        )
    &&& forall|i: int|
        0 <= i < txs.len() ==> (#[trigger] txs[i]).0.gas_limit <= clamp(
            block.gas_limit - gas_counted(executor.gas(), results, i as nat),
            0,
            u64::MAX as int,
        )
}

proof fn lemma_gas_counted_of_prefix(
    start: u64,
    results: Seq<ExecutionResult>,
    longer: Seq<ExecutionResult>,
    n: nat,
)
    requires
        n <= results.len() <= longer.len(),
        longer.take(results.len() as int) == results,
    ensures
        gas_counted(start, results, n) == gas_counted(start, longer, n),
        0 <= gas_counted(start, results, n) <= u64::MAX,
    decreases n,
{
    if n > 0 {
        assert(longer.take(results.len() as int)[n - 1] == longer[n - 1]);
        lemma_gas_counted_of_prefix(start, results, longer, (n - 1) as nat);
    }
}

proof fn lemma_executed_one_more<E, R: ReceiptBuilder>(
    start: EthBlockExecutor<E, R>,
    block: BlockEnv,
    all: Seq<(TxEnv, Recovered<TransactionSigned>)>,
    seen: Seq<ExecutionResult>,
    before: EthBlockExecutor<E, R>,
    done: ResultAndState,
    after: EthBlockExecutor<E, R>,
)
    requires
        seen.len() < all.len(),
        before.builder() == start.builder(),
        before.gas() == gas_counted(start.gas(), seen, seen.len()),
        before.blob_gas() == blob_gas_counted(start.blob_gas(), all, seen.len()),
        executed_in_order(
            start,
            block,
            all.take(seen.len() as int),
            seen,
            before.made_receipts(),
        ),
        all[seen.len() as int].0.gas_limit <= available_gas(before, block),
        booked(
            before,
            output_of(all[seen.len() as int].0, all[seen.len() as int].1, done),
            after,
        ),
    ensures
        after.gas() == gas_counted(start.gas(), seen.push(done.result), seen.len() + 1),
        after.blob_gas() == blob_gas_counted(start.blob_gas(), all, seen.len() + 1),
        executed_in_order(
            start,
            block,
            all.take((seen.len() + 1) as int),
            seen.push(done.result),
            after.made_receipts(),
        ),
{
    let n = seen.len() as int;
    let results = seen.push(done.result);
    let first = start.made_receipts().len() as int;
    let txs = all.take(n + 1);
    let receipts = after.made_receipts();
    assert(results.take(n) =~= seen);
    lemma_gas_counted_of_prefix(start.gas(), seen, results, n as nat);
    assert(receipts.take(first) =~= start.made_receipts()) by {
        assert(before.made_receipts().take(first) =~= receipts.take(first)) by {
            assert forall|i: int| 0 <= i < first implies before.made_receipts()[i] == receipts[i] by {
                assert(receipts.drop_last()[i] == receipts[i]);
            }
        }
    }
    assert forall|i: int| 0 <= i < txs.len() implies start.builder().is_receipt_of(
        ReceiptBuilderCtx {
            tx_type: txs[i].1.tx.tx_type(),
            result: results[i],
            cumulative_gas_used: gas_counted(start.gas(), results, (i + 1) as nat) as u64,
        },
        #[trigger] receipts[first + i],
    ) by {
        if i < n {
            lemma_gas_counted_of_prefix(start.gas(), seen, results, (i + 1) as nat);
            assert(receipts.drop_last()[first + i] == receipts[first + i]);
            assert(all.take(n)[i] == txs[i]);
            assert(before.made_receipts()[first + i] == receipts[first + i]);
        } else {
            assert(receipts.last() == receipts[first + i]);
        }
    }
    assert forall|i: int| 0 <= i < txs.len() implies (#[trigger] txs[i]).0.gas_limit <= clamp(
        block.gas_limit - gas_counted(start.gas(), results, i as nat),
        0,
        u64::MAX as int,
    ) by {
        lemma_gas_counted_of_prefix(start.gas(), seen, results, i as nat);
        if i < n {
            assert(all.take(n)[i] == txs[i]);
        }
    }
}

/// What the end of a block depends on besides the block.
pub struct BlockRules {
    pub contracts: SystemContracts,
    pub dao_accounts: Vec<Address>,
    pub dao_beneficiary: Address,
}

/// Whether the accounts of the DAO are drained at the end of the block.
pub open spec fn drains_dao_at(spec: ChainSpec, block: BlockEnv) -> bool {
    spec.dao_fork_block == Some(clamp(block.number@, 0, u64::MAX as int) as u64)
}

/// What the balances grow by at the end of a block, without what the DAO had.
pub open spec fn due<E, R: ReceiptBuilder>(executor: EthBlockExecutor<E, R>, block: BlockEnv) -> Map<Address, int> {
    credited(
        block_credits(
            executor.caller().rules(),
            block,
            executor.context().ommers@,
            withdrawals_of(executor.context()),
        ),
    )
}

/// The amounts, with what was drained added to what the beneficiary gets.
pub open spec fn with_drained(
    amounts: Map<Address, int>,
    beneficiary: Address,
    drained: Seq<u128>,
) -> Map<Address, int> {
    amounts.insert(
        beneficiary,
        (amount_of(amounts, beneficiary) + drained_sum(drained)) % amount_count(),
    )
}

/// Whether the accounts are the loaded ones, each with its amount added.
pub open spec fn grown_from(
    accounts: Seq<StateAccount>,
    amounts: Seq<(Address, u128)>,
    loaded: Seq<Option<AccountInfo>>,
) -> bool {
    &&& accounts.len() == amounts.len() == loaded.len()
    &&& forall|i: int|
        0 <= i < accounts.len() ==> is_incremented(
            #[trigger] accounts[i],
            amounts[i].0,
            loaded[i],
            amounts[i].1,
        )
}

/// Whether empty accounts are cleared: from Spurious Dragon on.
pub open spec fn clears_state(spec: ChainSpec, block: BlockEnv) -> bool {
    reached(spec.spurious_dragon_block, clamp(block.number@, 0, u64::MAX as int) as u64)
}

} // verus!
