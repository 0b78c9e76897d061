//! The Block-STM executor: which way a block is executed, what the outcome of an execution or a
//! validation asks of the scheduler, and how the results of a block are put together.

use crate::evm::spec_id::SpecId;
use crate::parallel::memory::{FinishExecFlags, TxIdx, TxVersion};
use crate::parallel::mv_memory::MvMemory;
use crate::evm::tx_env::TxEnv;
use crate::parallel::settlement::{
    block_settled, can_settle, outcome_of, same_receipts, settle_block, states_of,
};
use crate::parallel::storage::Storage;
use crate::parallel::state::{transitions, PevmTxExecutionResult, Receipt, RunOutcome};
use crate::parallel::vm::{ExecutionError, VmExecutionError, VmExecutionResult};
use crate::primitives::{clamp, Address};
use vstd::prelude::*;

verus! {

/// Errors of the executor.
#[derive(Clone, PartialEq, Eq, Debug)]
pub enum PevmError {
    MissingTransactionData,
    /// A transaction was executed with another nonce than its own.
    NonceMismatch { tx_idx: TxIdx, tx_nonce: u64, executed_nonce: u64 },
    StorageError(String),
    ExecutionError(ExecutionError),
    /// An internal error.
    UnreachableError,
}

/// Why a block is given up.
pub enum AbortReason {
    FallbackToSequential,
    ExecutionError(ExecutionError),
}

/// Blocks with less gas than this are not worth executing in parallel.
pub const MIN_PARALLEL_GAS_LIMIT: u64 = 4_000_000;

/// Whether a block is executed sequentially: on request, with fewer transactions than threads, or
/// with too little gas.
pub fn prefers_sequential(
    force_sequential: bool,
    tx_count: usize,
    concurrency_level: usize,
    gas_limit: u64,
) -> (r: bool)
    ensures
        r == (force_sequential || tx_count < concurrency_level || gas_limit
            < MIN_PARALLEL_GAS_LIMIT),
{
    force_sequential || tx_count < concurrency_level || gas_limit < MIN_PARALLEL_GAS_LIMIT
}

/// What is to be done about a transaction next.
pub enum ExecutionStep {
    /// Execute it again.
    ExecuteAgain,
    /// Ask the scheduler for another task.
    NoTask,
    /// Stop the scheduler.
    AbortScheduler,
    /// Make it wait for another transaction.
    AddDependency { tx_idx: TxIdx, blocking_tx_idx: TxIdx },
    /// Tell the scheduler that it has executed.
    FinishExecution { tx_version: TxVersion, flags: FinishExecFlags },
}

/// The results of the block that is being executed.
pub struct ParallelEvm {
    pub execution_results: Vec<Option<PevmTxExecutionResult>>,
    pub abort_reason: Option<AbortReason>,
}

/// The gas that the first `n` results have used, as far as it can be counted.
pub open spec fn gas_sum(results: Seq<PevmTxExecutionResult>, n: nat) -> int
    decreases n,
{
    if n == 0 {
        0
    } else {
        gas_sum(results, (n - 1) as nat) + results[n - 1].receipt.cumulative_gas_used
    }
}

pub proof fn lemma_gas_sum_nonnegative(results: Seq<PevmTxExecutionResult>, n: nat)
    ensures
        gas_sum(results, n) >= 0,
    decreases n,
{
    if n > 0 {
        lemma_gas_sum_nonnegative(results, (n - 1) as nat);
    }
}

/// Whether `after` is `before` but for the gas, which counts all results up to its own.
pub open spec fn accumulated(before: PevmTxExecutionResult, gas: int, after: PevmTxExecutionResult) ->
    bool {
    &&& after.receipt.status == before.receipt.status
    &&& after.receipt.logs == before.receipt.logs
    &&& after.state == before.state
    &&& after.receipt.cumulative_gas_used == clamp(gas, 0, u64::MAX as int)
}

impl Default for ParallelEvm {
    fn default() -> (r: Self)
        ensures
            r.execution_results@.len() == 0,
            r.abort_reason is None,
    {
        ParallelEvm { execution_results: Vec::new(), abort_reason: None }
    }
}

impl ParallelEvm {
    /// Makes room for the results of a block.
    pub fn reserve(&mut self, block_size: usize)
        ensures
            final(self).abort_reason == old(self).abort_reason,
            final(self).execution_results@.len() == if old(self).execution_results@.len()
                < block_size {
                block_size as nat
            } else {
                old(self).execution_results@.len()
            },
            final(self).execution_results@.take(old(self).execution_results@.len() as int) == old(
                self,
            ).execution_results@,
            forall|i: int|
                old(self).execution_results@.len() <= i < final(self).execution_results@.len()
                    ==> final(self).execution_results@[i] is None,
    {
        let ghost before = self.execution_results@;
        let ghost reason = self.abort_reason;
        while self.execution_results.len() < block_size
            invariant
                self.abort_reason == reason,
                before.len() <= self.execution_results@.len(),
                self.execution_results@.len() <= block_size || self.execution_results@ == before,
                self.execution_results@.take(before.len() as int) == before,
                forall|i: int|
                    before.len() <= i < self.execution_results@.len()
                        ==> self.execution_results@[i] is None,
            decreases block_size - self.execution_results@.len(),
        {
            self.execution_results.push(None);
            assert(self.execution_results@.take(before.len() as int) =~= before);
        }
    }

    /// Notes why the block is given up. The first reason stays.
    fn abort(&mut self, reason: AbortReason)
        ensures
            final(self).execution_results == old(self).execution_results,
            final(self).abort_reason == if old(self).abort_reason is Some {
                old(self).abort_reason
            } else {
                Some(reason)
            },
    {
        if self.abort_reason.is_none() {
            self.abort_reason = Some(reason);
        }
    }

    /// What the outcome of an execution asks for. A result is kept for the end of the block.
    pub fn on_executed(
        &mut self,
        tx_version: TxVersion,
        outcome: Result<VmExecutionResult, VmExecutionError>,
    ) -> (r: ExecutionStep)
        requires
            tx_version.tx_idx < old(self).execution_results@.len(),
        ensures
            match outcome {
                Err(VmExecutionError::Retry) => {
                    &&& r == if old(self).abort_reason is None {
                        ExecutionStep::ExecuteAgain
                    } else {
                        ExecutionStep::NoTask
                    }
                    &&& *final(self) == *old(self)
                },
                Err(VmExecutionError::Blocking(idx)) => {
                    &&& r == ExecutionStep::AddDependency {
                        tx_idx: tx_version.tx_idx,
                        blocking_tx_idx: idx,
                    }
                    &&& *final(self) == *old(self)
                },
                Err(VmExecutionError::FallbackToSequential) => {
                    &&& r == ExecutionStep::AbortScheduler
                    &&& final(self).execution_results == old(self).execution_results
                    &&& final(self).abort_reason == if old(self).abort_reason is Some {
                        old(self).abort_reason
                    } else {
                        Some(AbortReason::FallbackToSequential)
                    }
                },
                Err(VmExecutionError::ExecutionError(e)) => {
                    &&& r == ExecutionStep::AbortScheduler
                    &&& final(self).execution_results == old(self).execution_results
                    &&& final(self).abort_reason == if old(self).abort_reason is Some {
                        old(self).abort_reason
                    } else {
                        Some(AbortReason::ExecutionError(e))
                    }
                },
                Ok(executed) => {
                    &&& r == ExecutionStep::FinishExecution { tx_version, flags: executed.flags }
                    &&& final(self).abort_reason == old(self).abort_reason
                    &&& final(self).execution_results@ == old(self).execution_results@.update(
                        tx_version.tx_idx as int,
                        Some(executed.execution_result),
                    )
                },
            },
    {
        match outcome {
            Err(VmExecutionError::Retry) => {
                if self.abort_reason.is_none() {
                    ExecutionStep::ExecuteAgain
                } else {
                    ExecutionStep::NoTask
                }
            },
            Err(VmExecutionError::FallbackToSequential) => {
                self.abort(AbortReason::FallbackToSequential);
                ExecutionStep::AbortScheduler
            },
            Err(VmExecutionError::Blocking(blocking_tx_idx)) => {
                ExecutionStep::AddDependency { tx_idx: tx_version.tx_idx, blocking_tx_idx }
            },
            Err(VmExecutionError::ExecutionError(e)) => {
                self.abort(AbortReason::ExecutionError(e));
                ExecutionStep::AbortScheduler
            },
            Ok(executed) => {
                let VmExecutionResult { execution_result, flags } = executed;
                self.execution_results.set(tx_version.tx_idx, Some(execution_result));
                ExecutionStep::FinishExecution { tx_version, flags }
            },
        }
    }

    /// What the scheduler's answer to a dependency asks for: where the other transaction has
    /// executed meanwhile, there is nothing to wait for.
    pub fn on_dependency(&self, added: bool) -> (r: ExecutionStep)
        ensures
            r == if !added && self.abort_reason is None {
                ExecutionStep::ExecuteAgain
            } else {
                ExecutionStep::NoTask
            },
    {
        if !added && self.abort_reason.is_none() {
            ExecutionStep::ExecuteAgain
        } else {
            ExecutionStep::NoTask
        }
    }

    /// Takes the reason why the block was given up, if it was.
    pub fn take_abort(&mut self) -> (r: Option<AbortReason>)
        ensures
            r == old(self).abort_reason,
            final(self).abort_reason is None,
            final(self).execution_results == old(self).execution_results,
    {
        self.abort_reason.take()
    }

    /// Takes the results of the block, with the gas of each counting all results up to it.
    pub fn take_results(&mut self, block_size: usize) -> (r: Vec<PevmTxExecutionResult>)
        requires
            block_size <= old(self).execution_results@.len(),
            forall|i: int|
                0 <= i < block_size ==> (#[trigger] old(self).execution_results@[i]) is Some,
        ensures
            r@.len() == block_size,
            ({
                let taken = Seq::new(
                    block_size as nat,
                    |i: int| old(self).execution_results@[i]->0,
                );
                forall|i: int|
                    0 <= i < block_size ==> accumulated(
                        taken[i],
                        gas_sum(taken, (i + 1) as nat),
                        #[trigger] r@[i],
                    )
            }),
            final(self).abort_reason == old(self).abort_reason,
            final(self).execution_results@.len() == old(self).execution_results@.len(),
            forall|i: int|
                0 <= i < block_size ==> (#[trigger] final(self).execution_results@[i]) is None,
            forall|i: int|
                block_size <= i < old(self).execution_results@.len() ==> (
                #[trigger] final(self).execution_results@[i]) == old(self).execution_results@[i],
    {
        let ghost before = self.execution_results@;
        let ghost reason = self.abort_reason;
        let ghost taken = Seq::new(block_size as nat, |i: int| before[i]->0);
        let mut results: Vec<PevmTxExecutionResult> = Vec::new();
        let mut cumulative_gas: u64 = 0;
        let mut i: usize = 0;
        while i < block_size
            invariant
                i <= block_size <= before.len(),
                self.abort_reason == reason,
                taken == Seq::new(block_size as nat, |j: int| before[j]->0),
                self.execution_results@.len() == before.len(),
                forall|j: int| 0 <= j < block_size ==> (#[trigger] before[j]) is Some,
                forall|j: int| 0 <= j < i ==> (#[trigger] self.execution_results@[j]) is None,
                forall|j: int|
                    i <= j < before.len() ==> (#[trigger] self.execution_results@[j]) == before[j],
                results@.len() == i,
                cumulative_gas == clamp(gas_sum(taken, i as nat), 0, u64::MAX as int),
                forall|j: int|
                    0 <= j < i ==> accumulated(
                        taken[j],
                        gas_sum(taken, (j + 1) as nat),
                        #[trigger] results@[j],
                    ),
            decreases block_size - i,
        {
            assert(before[i as int] is Some);
            let mut slot = None;
            std::mem::swap(&mut slot, &mut self.execution_results[i]);
            let mut result = slot.unwrap();
            proof {
                lemma_gas_sum_nonnegative(taken, i as nat);
            }
            cumulative_gas = cumulative_gas.saturating_add(result.receipt.cumulative_gas_used);
            result.receipt.cumulative_gas_used = cumulative_gas;
            results.push(result);
            i = i + 1;
        }
        results
    }
}

/// How the parallel execution of a block ends.
pub enum Conclusion {
    /// The block has to be executed sequentially.
    RunSequentially,
    Done(Result<Vec<PevmTxExecutionResult>, PevmError>),
}

/// Whether the results are those that were kept, with the gas of each counting all results up to it.
pub open spec fn are_taken(
    kept: Seq<Option<PevmTxExecutionResult>>,
    results: Seq<PevmTxExecutionResult>,
) -> bool {
    let taken = Seq::new(results.len(), |i: int| kept[i]->0);
    forall|i: int|
        0 <= i < results.len() ==> accumulated(
            taken[i],
            gas_sum(taken, (i + 1) as nat),
            #[trigger] results[i],
        )
}

impl ParallelEvm {
    /// Ends the parallel execution of a block, once there is nothing left to do: a block that was
    /// given up is executed sequentially, or fails; the results of any other are settled.
    pub fn conclude<S: Storage>(
        &mut self,
        mv_memory: &mut MvMemory,
        storage: &S,
        spec_id: SpecId,
        txs: &Vec<TxEnv>,
    ) -> (r: Conclusion)
        requires
            old(mv_memory).wf(),
            old(self).abort_reason is None ==> {
                &&& can_settle(old(mv_memory)@, txs@.len())
                &&& txs@.len() <= old(self).execution_results@.len()
                &&& forall|i: int|
                    0 <= i < txs@.len() ==> (#[trigger] old(self).execution_results@[i]) is Some
            },
        ensures
            final(self).abort_reason is None,
            match old(self).abort_reason {
                Some(AbortReason::FallbackToSequential) => r == Conclusion::RunSequentially
                    && final(mv_memory)@ == old(mv_memory)@ && final(self).execution_results == old(
                    self,
                ).execution_results,
                Some(AbortReason::ExecutionError(e)) => r == Conclusion::Done(
                    Err(PevmError::ExecutionError(e)),
                ) && final(mv_memory)@ == old(mv_memory)@ && final(self).execution_results == old(
                    self,
                ).execution_results,
                None => exists|results: Seq<PevmTxExecutionResult>, addresses: Seq<Address>|
                    {
                        &&& results.len() == txs@.len()
                        &&& are_taken(old(self).execution_results@, results)
                        &&& addresses.no_duplicates()
                        &&& addresses.to_set() == old(mv_memory)@.lazy
                        &&& r is Done
                        &&& #[trigger] block_settled(
                            storage,
                            spec_id.enables(SpecId::SpuriousDragon),
                            txs@,
                            old(mv_memory)@.data,
                            addresses,
                            states_of(results),
                            outcome_of(r->Done_0),
                        )
                        &&& r->Done_0 matches Ok(settled) ==> same_receipts(settled@, results)
                    },
            },
    {
        match self.take_abort() {
            Some(AbortReason::FallbackToSequential) => {
                return Conclusion::RunSequentially;
            },
            Some(AbortReason::ExecutionError(e)) => {
                return Conclusion::Done(Err(PevmError::ExecutionError(e)));
            },
            None => {},
        }
        let results = self.take_results(txs.len());
        let ghost taken = results@;
        assert(are_taken(old(self).execution_results@, taken));
        Conclusion::Done(settle_block(mv_memory, storage, spec_id, txs, results))
    }
}

/// Whether a version's reads have to be given up: then the scheduler is asked whether it may abort
/// the version.
pub fn must_abort(mv_memory: &MvMemory, tx_version: &TxVersion) -> (r: bool)
    requires
        mv_memory.wf(),
        tx_version.tx_idx < mv_memory@.reads.len(),
    ensures
        r == !mv_memory@.valid(tx_version.tx_idx),
{
    !mv_memory.validate_read_locations(tx_version.tx_idx)
}

/// Ends a validation. Where the version is aborted its writes become estimates. Returns whether it
/// was.
pub fn conclude_validation(
    mv_memory: &mut MvMemory,
    tx_version: &TxVersion,
    must_abort: bool,
    may_abort: bool,
) -> (r: bool)
    requires
        old(mv_memory).wf(),
        tx_version.tx_idx < old(mv_memory)@.writes.len(),
    ensures
        final(mv_memory).wf(),
        r == (must_abort && may_abort),
        final(mv_memory)@ == if must_abort && may_abort {
            old(mv_memory)@.aborted(tx_version.tx_idx)
        } else {
            old(mv_memory)@
        },
{
    let aborted = must_abort && may_abort;
    if aborted {
        mv_memory.convert_writes_to_estimates(tx_version.tx_idx);
    }
    aborted
}

/// What an error of a sequential run is reported as: a failed read as a failure of storage, with
/// its message.
pub open spec fn sequential_error(e: ExecutionError, message: String) -> PevmError {
    match e {
        ExecutionError::Database(_) => PevmError::StorageError(message),
        _ => PevmError::ExecutionError(e),
    }
}

pub fn report_sequential_error(e: ExecutionError, message: String) -> (r: PevmError)
    ensures
        r == sequential_error(e, message),
{
    match e {
        ExecutionError::Database(_) => PevmError::StorageError(message),
        e => PevmError::ExecutionError(e),
    }
}

/// A run that failed: how, and the message of a read that failed.
pub struct RunFailure {
    pub error: ExecutionError,
    pub message: String,
}

/// A virtual machine that executes the transactions of a block one after the other.
pub trait SequentialEvm: Sized {
    /// Runs a transaction; what it changes is not kept yet.
    fn transact(&mut self, tx: TxEnv) -> Result<RunOutcome, RunFailure>;

    /// Keeps what a run has changed.
    fn commit(&mut self, outcome: &RunOutcome);
}

/// The gas that the first `n` runs have used.
pub open spec fn gas_of_runs(outcomes: Seq<RunOutcome>, n: nat) -> int
    decreases n,
{
    if n == 0 {
        0
    } else {
        gas_of_runs(outcomes, (n - 1) as nat) + outcomes[n - 1].result().gas_used
    }
}

proof fn lemma_gas_of_runs(outcomes: Seq<RunOutcome>, more: Seq<RunOutcome>, n: nat)
    requires
        n <= outcomes.len(),
    ensures
        gas_of_runs(outcomes, n) >= 0,
        gas_of_runs(outcomes + more, n) == gas_of_runs(outcomes, n),
    decreases n,
{
    if n > 0 {
        lemma_gas_of_runs(outcomes, more, (n - 1) as nat);
    }
}

/// Whether the results are those of the runs, each with the gas used up to it, as far as it can be
/// counted.
pub open spec fn results_of_runs(
    outcomes: Seq<RunOutcome>,
    eip_161_enabled: bool,
    results: Seq<PevmTxExecutionResult>,
) -> bool {
    &&& results.len() == outcomes.len()
    &&& forall|i: int|
        0 <= i < results.len() ==> {
            &&& (#[trigger] results[i]).receipt.status == outcomes[i].result().success
            &&& results[i].receipt.logs == outcomes[i].result().logs
            &&& results[i].receipt.cumulative_gas_used == clamp(
                gas_of_runs(outcomes, (i + 1) as nat),
                0,
                u64::MAX as int,
            )
            &&& results[i].state@ == transitions(outcomes[i].accounts(), eip_161_enabled)
        }
}

/// Whether a run is one of those that ended with the outcomes.
pub open spec fn is_run(outcomes: Seq<RunOutcome>, i: int) -> bool {
    0 <= i < outcomes.len()
}

/// Executes the transactions of a block one after the other. The first failure ends it.
pub fn execute_revm_sequential<E: SequentialEvm>(
    evm: &mut E,
    txs: Vec<TxEnv>,
    spec_id: SpecId,
) -> (r: Result<Vec<PevmTxExecutionResult>, PevmError>)
    ensures
        exists|machines: Seq<E>, outcomes: Seq<RunOutcome>|
            {
                &&& #[trigger] machines.len() == #[trigger] outcomes.len() + 1
                &&& outcomes.len() <= txs@.len()
                &&& machines[0] == *old(evm)
                &&& forall|i: int|
                    #[trigger] is_run(outcomes, i) ==> exists|m: &mut E, d: &mut E|
                        {
                            &&& *m == machines[i]
                            &&& #[trigger] call_ensures(
                                E::transact,
                                (m, txs@[i]),
                                Ok::<RunOutcome, RunFailure>(outcomes[i]),
                            )
                            &&& *d == *final(m)
                            &&& #[trigger] call_ensures(E::commit, (d, &outcomes[i]), ())
                            &&& *final(d) == machines[i + 1]
                        }
                &&& match r {
                    Ok(results) => {
                        &&& outcomes.len() == txs@.len()
                        &&& *final(evm) == machines.last()
                        &&& results_of_runs(
                            outcomes,
                            spec_id.enables(SpecId::SpuriousDragon),
                            results@,
                        )
                    },
                    Err(e) => {
                        &&& outcomes.len() < txs@.len()
                        &&& exists|m: &mut E, failure: RunFailure|
                            {
                                &&& *m == machines.last()
                                &&& #[trigger] call_ensures(
                                    E::transact,
                                    (m, txs@[outcomes.len() as int]),
                                    Err::<RunOutcome, RunFailure>(failure),
                                )
                                &&& *final(m) == *final(evm)
                                &&& e == sequential_error(failure.error, failure.message)
                            }
                    },
                }
            },
{
    let eip_161_enabled = spec_id.is_enabled_in(SpecId::SpuriousDragon);
    let ghost mut outcomes = Seq::<RunOutcome>::empty();
    let ghost mut machines = seq![*evm];
    let mut results: Vec<PevmTxExecutionResult> = Vec::new();
    let mut cumulative_gas: u64 = 0;
    for tx in it: txs
        invariant
            it.seq() == txs@,
            eip_161_enabled == spec_id.enables(SpecId::SpuriousDragon),
            outcomes.len() == it.index(),
            machines.len() == outcomes.len() + 1,
            machines[0] == *old(evm),
            machines.last() == *evm,
            forall|i: int|
            #[trigger] is_run(outcomes, i) ==> exists|m: &mut E, d: &mut E|
                {
                    &&& *m == machines[i]
                    &&& #[trigger] call_ensures(
                        E::transact,
                        (m, txs@[i]),
                        Ok::<RunOutcome, RunFailure>(outcomes[i]),
                    )
                    &&& *d == *final(m)
                    &&& #[trigger] call_ensures(E::commit, (d, &outcomes[i]), ())
                    &&& *final(d) == machines[i + 1]
                },
            results_of_runs(outcomes, eip_161_enabled, results@),
            cumulative_gas == clamp(
                gas_of_runs(outcomes, outcomes.len()),
                0,
                u64::MAX as int,
            ),
    {
        let ghost n = outcomes.len() as int;
        let ghost seen = outcomes;
        let ghost before = results@;
        assert(tx == txs@[n]);
        let ghost from = *evm;
        match evm.transact(tx) {
            Ok(outcome) => {
                evm.commit(&outcome);
                assert(exists|m: &mut E, d: &mut E|
                    {
                        &&& *m == from
                        &&& #[trigger] call_ensures(
                            E::transact,
                            (m, tx),
                            Ok::<RunOutcome, RunFailure>(outcome),
                        )
                        &&& *d == *final(m)
                        &&& #[trigger] call_ensures(E::commit, (d, &outcome), ())
                        &&& *final(d) == *evm
                    });
                proof {
                    outcomes = seen.push(outcome);
                    assert(outcomes =~= seen + seq![outcome]);
                    lemma_gas_of_runs(seen, seq![outcome], n as nat);
                    let until = machines;
                    machines = until.push(*evm);
                    assert forall|i: int| #[trigger] is_run(outcomes, i) implies exists|
                        m: &mut E,
                        d: &mut E,
                    |
                        {
                            &&& *m == machines[i]
                            &&& #[trigger] call_ensures(
                                E::transact,
                                (m, txs@[i]),
                                Ok::<RunOutcome, RunFailure>(outcomes[i]),
                            )
                            &&& *d == *final(m)
                            &&& #[trigger] call_ensures(E::commit, (d, &outcomes[i]), ())
                            &&& *final(d) == machines[i + 1]
                        } by {
                        if i < n {
                            assert(is_run(seen, i));
                            assert(outcomes[i] == seen[i]);
                            assert(machines[i] == until[i]);
                            assert(machines[i + 1] == until[i + 1]);
                        } else {
                            assert(machines[i] == from);
                            assert(outcomes[i] == outcome);
                        }
                    }
                }
                let ghost run = outcome;
                let (result, state) = outcome.into_parts();
                let mut r = PevmTxExecutionResult::from_revm(result, &state, eip_161_enabled);
                cumulative_gas = cumulative_gas.saturating_add(r.receipt.cumulative_gas_used);
                r.receipt.cumulative_gas_used = cumulative_gas;
                results.push(r);
                proof {
                    assert forall|i: int| 0 <= i < results@.len() implies {
                        &&& (#[trigger] results@[i]).receipt.status
                            == outcomes[i].result().success
                        &&& results@[i].receipt.logs == outcomes[i].result().logs
                        &&& results@[i].receipt.cumulative_gas_used == clamp(
                            gas_of_runs(outcomes, (i + 1) as nat),
                            0,
                            u64::MAX as int,
                        )
                        &&& results@[i].state@ == transitions(
                            outcomes[i].accounts(),
                            eip_161_enabled,
                        )
                    } by {
                        if i < n {
                            lemma_gas_of_runs(seen, seq![run], (i + 1) as nat);
                            assert(results@[i] == before[i]);
                            assert(outcomes[i] == seen[i]);
                        }
                    }
                }
            },
            Err(failure) => {
                return Err(report_sequential_error(failure.error, failure.message));
            },
        }
    }
    Ok(results)
}

/// What executes the transactions of a block in parallel.
pub trait ParallelWorkers: Sized {
    /// Executes the transactions, and says how that ended.
    fn execute_parallel(&mut self, evm: &mut ParallelEvm, txs: &Vec<TxEnv>) -> Conclusion;
}

impl ParallelEvm {
    /// Executes the transactions of a block: in parallel, unless the block is small or the sequential
    /// way is asked for. A parallel execution that was given up is repeated sequentially.
    pub fn execute<E: SequentialEvm, W: ParallelWorkers>(
        &mut self,
        evm: &mut E,
        workers: &mut W,
        txs: Vec<TxEnv>,
        spec_id: SpecId,
        gas_limit: u64,
        concurrency_level: usize,
        force_sequential: bool,
    ) -> (r: Result<Vec<PevmTxExecutionResult>, PevmError>)
        ensures
            ({
                ||| force_sequential
                ||| txs@.len() < concurrency_level
                ||| gas_limit < MIN_PARALLEL_GAS_LIMIT
            }) ==> {
                &&& *final(self) == *old(self)
                &&& *final(workers) == *old(workers)
                &&& exists|e: &mut E|
                    {
                        &&& *e == *old(evm)
                        &&& *final(e) == *final(evm)
                        &&& #[trigger] call_ensures(
                            execute_revm_sequential::<E>,
                            (e, txs, spec_id),
                            r,
                        )
                    }
            },
            !force_sequential && txs@.len() >= concurrency_level && gas_limit
                >= MIN_PARALLEL_GAS_LIMIT && txs@.len() == 0 ==> {
                &&& r matches Ok(results) && results@.len() == 0
                &&& *final(self) == *old(self)
                &&& *final(workers) == *old(workers)
                &&& *final(evm) == *old(evm)
            },
            !force_sequential && txs@.len() >= concurrency_level && gas_limit
                >= MIN_PARALLEL_GAS_LIMIT && txs@.len() > 0 ==> exists|
                w: &mut W,
                p: &mut ParallelEvm,
                end: Conclusion,
            |
                {
                    &&& *w == *old(workers)
                    &&& *p == *old(self)
                    &&& *final(w) == *final(workers)
                    &&& *final(p) == *final(self)
                    &&& #[trigger] call_ensures(W::execute_parallel, (w, p, &txs), end)
                    &&& match end {
                        Conclusion::Done(done) => r == done && *final(evm) == *old(evm),
                        Conclusion::RunSequentially => exists|e: &mut E|
                            {
                                &&& *e == *old(evm)
                                &&& *final(e) == *final(evm)
                                &&& #[trigger] call_ensures(
                                    execute_revm_sequential::<E>,
                                    (e, txs, spec_id),
                                    r,
                                )
                            },
                    }
                },
    {
        if prefers_sequential(force_sequential, txs.len(), concurrency_level, gas_limit) {
            return execute_revm_sequential(evm, txs, spec_id);
        }
        if txs.len() == 0 {
            return Ok(Vec::new());
        }
        match workers.execute_parallel(self, &txs) {
            Conclusion::Done(results) => results,
            Conclusion::RunSequentially => execute_revm_sequential(evm, txs, spec_id),
        }
    }
}

/// Where every transaction of a block ran to the same outcome, the parallel execution and the
/// sequential one give the same receipts: status, events, and the gas up to each.
pub proof fn law_same_runs_give_the_same_receipts(
    outcomes: Seq<RunOutcome>,
    eip_161_enabled: bool,
    sequential: Seq<PevmTxExecutionResult>,
    kept: Seq<Option<PevmTxExecutionResult>>,
    taken: Seq<PevmTxExecutionResult>,
    parallel: Seq<PevmTxExecutionResult>,
)
    requires
        results_of_runs(outcomes, eip_161_enabled, sequential),
        kept.len() >= outcomes.len(),
        forall|i: int|
            0 <= i < outcomes.len() ==> ((#[trigger] kept[i]) matches Some(result)
                && is_result_of(outcomes[i], result)),
        taken.len() == outcomes.len(),
        are_taken(kept, taken),
        same_receipts(parallel, taken),
    ensures
        parallel.len() == sequential.len(),
        forall|i: int|
            0 <= i < parallel.len() ==> same_receipt(
                (#[trigger] parallel[i]).receipt,
                sequential[i].receipt,
            ),
{
    let results = Seq::new(taken.len(), |i: int| kept[i]->0);
    assert forall|i: int| 0 <= i < parallel.len() implies same_receipt(
        (#[trigger] parallel[i]).receipt,
        sequential[i].receipt,
    ) by {
        assert(kept[i] is Some);
        assert(accumulated(results[i], gas_sum(results, (i + 1) as nat), taken[i]));
        lemma_gas_of_same_runs(outcomes, results, (i + 1) as nat);
        assert(sequential[i].receipt.status == outcomes[i].result().success);
    }
}

/// Whether the result is that of the run, before the gas of earlier transactions is added.
pub open spec fn is_result_of(outcome: RunOutcome, result: PevmTxExecutionResult) -> bool {
    &&& result.receipt.status == outcome.result().success
    &&& result.receipt.logs == outcome.result().logs
    &&& result.receipt.cumulative_gas_used == outcome.result().gas_used
}

/// Whether two receipts say the same.
pub open spec fn same_receipt(a: Receipt, b: Receipt) -> bool {
    &&& a.status == b.status
    &&& a.logs == b.logs
    &&& a.cumulative_gas_used == b.cumulative_gas_used
}

proof fn lemma_gas_of_same_runs(
    outcomes: Seq<RunOutcome>,
    results: Seq<PevmTxExecutionResult>,
    n: nat,
)
    requires
        n <= outcomes.len() == results.len(),
        forall|i: int| 0 <= i < outcomes.len() ==> is_result_of(outcomes[i], #[trigger] results[i]),
    ensures
        gas_sum(results, n) == gas_of_runs(outcomes, n),
    decreases n,
{
    if n > 0 {
        lemma_gas_of_same_runs(outcomes, results, (n - 1) as nat);
        assert(is_result_of(outcomes[n - 1], results[n - 1]));
    }
}

/// The gas of a receipt is that of all transactions up to and with its own: the first holds its own gas,
/// and each holds its own gas more than the one before it, as long as it can be counted. Status and
/// events are those of its own transaction.
pub proof fn law_receipts_count_the_gas_up_to_them(
    kept: Seq<Option<PevmTxExecutionResult>>,
    results: Seq<PevmTxExecutionResult>,
    i: int,
)
    requires
        are_taken(kept, results),
        0 <= i < results.len(),
        (i > 0 ==> results[i - 1].receipt.cumulative_gas_used + (
        kept[i]->0).receipt.cumulative_gas_used <= u64::MAX),
    ensures
        results[i].receipt.cumulative_gas_used == (kept[i]->0).receipt.cumulative_gas_used + if i
            == 0 {
            0
        } else {
            results[i - 1].receipt.cumulative_gas_used as int
        },
        results[i].receipt.status == (kept[i]->0).receipt.status,
        results[i].receipt.logs == (kept[i]->0).receipt.logs,
        results[i].state == (kept[i]->0).state,
{
    let taken = Seq::new(results.len(), |k: int| kept[k]->0);
    assert(accumulated(taken[i], gas_sum(taken, (i + 1) as nat), results[i]));
    lemma_gas_sum_nonnegative(taken, i as nat);
    if i > 0 {
        assert(accumulated(taken[i - 1], gas_sum(taken, i as nat), results[i - 1]));
    } else {
        assert(gas_sum(taken, 0) == 0);
    }
}

/// The same holds of the receipts of a sequential execution, whose results hold what their runs have left.
pub proof fn law_sequential_receipts_count_the_gas_up_to_them(
    outcomes: Seq<RunOutcome>,
    eip_161_enabled: bool,
    results: Seq<PevmTxExecutionResult>,
    i: int,
)
    requires
        results_of_runs(outcomes, eip_161_enabled, results),
        0 <= i < results.len(),
        (i > 0 ==> results[i - 1].receipt.cumulative_gas_used + outcomes[i].result().gas_used
            <= u64::MAX),
    ensures
        results.len() == outcomes.len(),
        results[i].receipt.cumulative_gas_used == outcomes[i].result().gas_used + if i == 0 {
            0
        } else {
            results[i - 1].receipt.cumulative_gas_used as int
        },
        results[i].receipt.status == outcomes[i].result().success,
        results[i].receipt.logs == outcomes[i].result().logs,
        results[i].state@ == transitions(outcomes[i].accounts(), eip_161_enabled),
{
    lemma_gas_of_runs(outcomes, Seq::empty(), i as nat);
    assert(results[i].receipt.status == outcomes[i].result().success);
    if i > 0 {
        assert(results[i - 1].receipt.status == outcomes[i - 1].result().success);
        assert(gas_of_runs(outcomes, (i + 1) as nat) == gas_of_runs(outcomes, i as nat)
            + outcomes[i].result().gas_used);
    } else {
        assert(gas_of_runs(outcomes, 0) == 0);
        assert(gas_of_runs(outcomes, 1) == outcomes[0].result().gas_used);
    }
}

/// A failed read of a sequential run is a failure of storage, with its message; any other failure is
/// reported as it is.
pub proof fn law_sequential_failures_are_reported(e: ExecutionError, message: String)
    ensures
        e is Database ==> sequential_error(e, message) == PevmError::StorageError(message),
        !(e is Database) ==> sequential_error(e, message) == PevmError::ExecutionError(e),
{
}

} // verus!
