//! The execution of blocks that exist.

use crate::evm::block_executor::{
    parts_of, without_machine, BlockExecutionResult, BlockRules, EthBlockExecutionCtx,
    EthBlockExecutor, ExecutableTx,
};
use crate::evm::block_run::executed;
use crate::evm::chain_spec::ChainSpec;
use crate::evm::config::EthEvmConfig;
use crate::evm::env::{BlockEnv, Header};
use crate::evm::machine::{Evm, RequestParser};
use crate::evm::receipts::{Receipt, RethReceiptBuilder};
use crate::evm::steps::{
    is_path, is_step, lemma_one_step, lemma_paths_join, takes, Step,
};
use crate::evm::system_calls::{BlockExecutionError, StateChange};
use crate::evm::tx_env::{Recovered, TransactionSigned};
use crate::primitives::Withdrawal;
use vstd::prelude::*;

verus! {

/// A block that exists, with its transactions.
pub struct RecoveredBlock<X> {
    pub header: Header,
    pub transactions: Vec<X>,
    pub ommers: Vec<Header>,
    pub withdrawals: Option<Vec<Withdrawal>>,
}

/// Executes blocks that exist, one after the other.
pub struct BasicBlockExecutor<F> {
    pub strategy_factory: EthEvmConfig<F>,
}

/// The context of a block.
pub open spec fn context_of<X>(block: RecoveredBlock<X>) -> EthBlockExecutionCtx {
    EthBlockExecutionCtx {
        parent_hash: block.header.parent_hash,
        parent_beacon_block_root: block.header.parent_beacon_block_root,
        ommers: block.ommers,
        withdrawals: block.withdrawals,
        extra_data: block.header.extra_data,
        tx_count_hint: Some(block.transactions@.len() as usize),
    }
}

/// Whether an executor is one for the block, with nothing executed yet.
pub open spec fn is_fresh<E, X>(
    executor: EthBlockExecutor<E, RethReceiptBuilder>,
    evm: E,
    block: RecoveredBlock<X>,
    rules: ChainSpec,
    observed: bool,
) -> bool {
    &&& executor.machine() == evm
    &&& executor.context() == context_of(block)
    &&& executor.gas() == 0
    &&& executor.blob_gas() == 0
    &&& executor.made_receipts().len() == 0
    &&& executor.caller().rules() == rules
    &&& executor.caller().observed() == observed
    &&& executor.caller().pending() == Seq::<StateChange>::empty()
}

impl<F> BasicBlockExecutor<F> {
    pub fn new(strategy_factory: EthEvmConfig<F>) -> (r: Self)
        ensures
            r.strategy_factory == strategy_factory,
    {
        BasicBlockExecutor { strategy_factory }
    }

    /// Executes a block on a virtual machine that was made for its environment, and merges what it
    /// changed. Gives the machine and what came of the block, and the changes for an observer, if
    /// there is one.
    pub fn execute_one<
        E: Evm,
        X: ExecutableTx<Transaction = Recovered<TransactionSigned>>,
        P: RequestParser<Receipt>,
    >(
        &self,
        evm: E,
        env: &BlockEnv,
        block: RecoveredBlock<X>,
        rules: &BlockRules,
        parser: &P,
        observed: bool,
    ) -> (r: (
        Result<(E, BlockExecutionResult<Receipt>), BlockExecutionError>,
        Vec<StateChange>,
    ))
        ensures
            exists|
                executor: EthBlockExecutor<E, RethReceiptBuilder>,
                machines: Seq<E>,
                steps: Seq<Step>,
                to: E,
            |
                {
                    &&& #[trigger] is_fresh(
                        executor,
                        evm,
                        block,
                        self.strategy_factory.executor_factory.rules(),
                        observed,
                    )
                    &&& #[trigger] is_path(machines, steps, evm, to)
                    &&& forall|i: int| #[trigger]
                            is_step(steps, i) ==> exists|m: &mut E|
                                *m == machines[i] && *final(m) == machines[i + 1] && #[trigger] takes(
                                    m,
                                    steps[i],
                                )
                    &&& executed::<E, RethReceiptBuilder, P>(
                        executor,
                        *rules,
                        *env,
                        *parser,
                        parts_of(block.transactions@),
                        if r.0 is Ok {
                            steps.drop_last()
                        } else {
                            steps
                        },
                        without_machine(r.0),
                        r.1@,
                    )
                    &&& r.0 matches Ok(done) ==> {
                        &&& steps.len() > 0
                        &&& steps.last() is Merge
                        &&& done.0 == to
                    }
                },
    {
        let ctx = self.strategy_factory.context_for_block(
            block.header,
            block.transactions.len(),
            block.ommers,
            block.withdrawals,
        );
        let mut executor = self.strategy_factory.block_executor_factory().create_executor(evm, ctx);
        executor.set_state_hook(observed);
        assert(is_fresh(
            executor,
            evm,
            block,
            self.strategy_factory.executor_factory.rules(),
            observed,
        ));
        let ghost start = executor;
        let (executed_block, changes) = executor.execute_block(
            rules,
            env,
            parser,
            block.transactions,
        );
        let ghost (path, run, end) = choose|machines: Seq<E>, steps: Seq<Step>, to: E|
            {
                &&& #[trigger] is_path(machines, steps, start.machine(), to)
                &&& forall|i: int| #[trigger]
                        is_step(steps, i) ==> exists|m: &mut E|
                            *m == machines[i] && *final(m) == machines[i + 1] && #[trigger] takes(
                                m,
                                steps[i],
                            )
                &&& executed::<E, RethReceiptBuilder, P>(
                    start,
                    *rules,
                    *env,
                    *parser,
                    parts_of(block.transactions@),
                    steps,
                    without_machine(executed_block),
                    changes@,
                )
                &&& executed_block matches Ok(done) ==> done.0 == to
            };
        match executed_block {
            Ok((machine, result)) => {
                let mut machine = machine;
                machine.merge_transitions();
                proof {
                    let to = machine;
                    let m = choose|m: &mut E|
                        *m == end && *final(m) == to && #[trigger] call_ensures(
                            E::merge_transitions,
                            (m,),
                            (),
                        );
                    assert(takes(m, Step::Merge));
                    lemma_one_step(end, Step::Merge, to);
                    lemma_paths_join(path, run, seq![end, to], seq![Step::Merge], evm, end, to);
                    assert((run + seq![Step::Merge]).drop_last() =~= run);
                    assert(is_path(
                        path + seq![end, to].drop_first(),
                        run + seq![Step::Merge],
                        evm,
                        to,
                    ));
                }
                (Ok((machine, result)), changes)
            },
            Err(e) => {
                assert(is_path(path, run, evm, end));
                (Err(e), changes)
            },
        }
    }
}

} // verus!
