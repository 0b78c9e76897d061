//! The execution of a new block, which keeps the transactions that stay.

use crate::evm::block_executor::{
    available_gas, booked, output_of, refused, BlockExecutionResult, BlockRules, CommitChanges,
    EthBlockExecutionCtx, EthBlockExecutor, EthTxResult, ExecutableTx,
};
use crate::evm::assembler::{AssembledBlock, EthBlockAssembler};
use crate::evm::block_run::closed;
use crate::evm::config::EthEvmConfig;
use crate::evm::env::{BlockEnv, EvmEnv, Header, NextBlockEnvAttributes};
use crate::evm::machine::{Evm, RequestParser, StateRootProvider};
use crate::evm::receipts::{Receipt, ReceiptBuilder, RethReceiptBuilder};
use crate::evm::steps::{
    is_path, is_step, lemma_one_step, lemma_paths_join, takes, Step,
};
use crate::evm::system_calls::{BlockExecutionError, Request, ResultAndState, StateChange};
use crate::evm::tx_env::{Recovered, TransactionSigned};
use crate::parallel::state::ExecutionResult;
use crate::primitives::{Address, B256};
use vstd::prelude::*;

verus! {

/// Executes the transactions of a new block, and keeps those that stay.
pub struct BasicBlockBuilder<E, R: ReceiptBuilder> {
    pub executor: EthBlockExecutor<E, R>,
    pub transactions: Vec<Recovered<TransactionSigned>>,
}

/// The transactions and who signed each, apart.
pub fn unzip_recovered<T>(recovered: Vec<Recovered<T>>) -> (r: (Vec<T>, Vec<Address>))
    ensures
        r.0@ == Seq::new(recovered@.len(), |i: int| recovered@[i].tx),
        r.1@ == Seq::new(recovered@.len(), |i: int| recovered@[i].signer),
{
    let mut transactions: Vec<T> = Vec::new();
    let mut signers: Vec<Address> = Vec::new();
    for one in it: recovered
        invariant
            it.seq() == recovered@,
            transactions@.len() == it.index(),
            signers@.len() == it.index(),
            forall|i: int|
                0 <= i < transactions@.len() ==> (#[trigger] transactions@[i]) == recovered@[i].tx,
            forall|i: int|
                0 <= i < signers@.len() ==> (#[trigger] signers@[i]) == recovered@[i].signer,
    {
        let Recovered { tx, signer } = one;
        transactions.push(tx);
        signers.push(signer);
    }
    assert(transactions@ =~= Seq::new(recovered@.len(), |i: int| recovered@[i].tx));
    assert(signers@ =~= Seq::new(recovered@.len(), |i: int| recovered@[i].signer));
    (transactions, signers)
}

impl<E: Evm, R: ReceiptBuilder> BasicBlockBuilder<E, R> {
    pub fn new(executor: EthBlockExecutor<E, R>) -> (r: Self)
        ensures
            r.executor == executor,
            r.transactions@.len() == 0,
    {
        BasicBlockBuilder { executor, transactions: Vec::new() }
    }

    /// Runs a transaction, and commits what came of it if the condition says so. A transaction that
    /// is committed becomes one of the block. Gives the gas that it used.
    pub fn execute_transaction_with_commit_condition<
        X: ExecutableTx<Transaction = Recovered<TransactionSigned>>,
        F: FnOnce(&ExecutionResult) -> CommitChanges,
    >(&mut self, block: &BlockEnv, tx: X, f: F) -> (r: Result<Option<u64>, BlockExecutionError>)
        requires
            forall|result: &ExecutionResult| #[trigger] f.requires((result,)),
        ensures
            tx.parts().0.gas_limit > available_gas(old(self).executor, *block) ==> {
                &&& refused(tx.parts().0.gas_limit, available_gas(old(self).executor, *block), r)
                &&& final(self).executor.machine() == old(self).executor.machine()
                &&& final(self).executor.same_books(old(self).executor)
                &&& final(self).executor.caller() == old(self).executor.caller()
                &&& final(self).transactions@ == old(self).transactions@
            },
            tx.parts().0.gas_limit <= available_gas(old(self).executor, *block) ==> exists|
                m: &mut E,
                outcome: Result<ResultAndState, String>,
            |
                {
                    &&& *m == old(self).executor.machine()
                    &&& #[trigger] call_ensures(E::transact, (m, tx.parts().0), outcome)
                    &&& match outcome {
                        Ok(done) => exists|changes: CommitChanges| #[trigger]
                            f.ensures((&done.result,), changes) && match changes {
                                CommitChanges::Yes => {
                                    &&& r == Ok::<_, BlockExecutionError>(
                                        Some(done.result.gas_used),
                                    )
                                    &&& booked(
                                        old(self).executor,
                                        output_of(tx.parts().0, tx.parts().1, done),
                                        final(self).executor,
                                    )
                                    &&& final(self).transactions@ == old(self).transactions@.push(
                                        tx.parts().1,
                                    )
                                    &&& exists|c: &mut E|
                                        {
                                            &&& *c == *final(m)
                                            &&& *final(c) == final(self).executor.machine()
                                            &&& #[trigger] call_ensures(
                                                E::commit,
                                                (c, done.state),
                                                (),
                                            )
                                        }
                                },
                                CommitChanges::No => {
                                    &&& r == Ok::<Option<u64>, BlockExecutionError>(None)
                                    &&& *final(m) == final(self).executor.machine()
                                    &&& final(self).executor.same_books(old(self).executor)
                                    &&& final(self).executor.caller() == old(
                                        self,
                                    ).executor.caller()
                                    &&& final(self).transactions@ == old(self).transactions@
                                },
                            },
                        Err(e) => {
                            &&& r == Err::<Option<u64>, _>(BlockExecutionError::Evm(e))
                            &&& *final(m) == final(self).executor.machine()
                            &&& final(self).executor.same_books(old(self).executor)
                            &&& final(self).executor.caller() == old(self).executor.caller()
                            &&& final(self).transactions@ == old(self).transactions@
                        },
                    }
                },
    {
        let output = match self.executor.execute_transaction_without_commit(block, tx) {
            Ok(output) => output,
            Err(e) => {
                return Err(e);
            },
        };
        if !f(&output.result.result).should_commit() {
            return Ok(None);
        }
        let EthTxResult { result, blob_gas_used, tx: recovered, tx_type } = output;
        let output = EthTxResult { result, blob_gas_used, tx: (), tx_type };
        match self.executor.commit_transaction(output) {
            Ok(gas_used) => {
                self.transactions.push(recovered);
                Ok(Some(gas_used))
            },
            Err(e) => Err(e),
        }
    }
}

/// A new block, and what came of its execution.
pub struct BlockBuilderOutcome<E, H, U> {
    pub evm: E,
    pub execution_result: BlockExecutionResult<Receipt>,
    pub hashed_state: H,
    pub trie_updates: U,
    pub block: AssembledBlock,
    /// Who signed each transaction.
    pub senders: Vec<Address>,
}

/// What a new block is put together under.
pub struct Assembly<'a, S> {
    pub assembler: &'a EthBlockAssembler,
    pub env: &'a EvmEnv,
    pub parent: &'a Header,
    pub target_blob_gas: u64,
    pub state: &'a S,
}

impl<E: Evm> BasicBlockBuilder<E, RethReceiptBuilder> {
    /// Ends the execution and puts the block together: what the block changed is merged, the state
    /// gives its root, and the transactions that stayed are those of the block. Gives the changes
    /// that the observer has still to be told of too.
    pub fn finish<P: RequestParser<Receipt>, S: StateRootProvider<E>>(
        self,
        rules: &BlockRules,
        parser: &P,
        assembly: &Assembly<S>,
    ) -> (r: (
        Result<BlockBuilderOutcome<E, S::HashedState, S::TrieUpdates>, BlockExecutionError>,
        Vec<StateChange>,
    ))
        ensures
            exists|machines: Seq<E>, steps: Seq<Step>, to: E|
                {
                    &&& #[trigger] is_path(machines, steps, self.executor.machine(), to)
                    &&& forall|i: int| #[trigger]
                            is_step(steps, i) ==> exists|m: &mut E|
                                *m == machines[i] && *final(m) == machines[i + 1] && #[trigger] takes(
                                    m,
                                    steps[i],
                                )
                    &&& ended_with::<E, P, S>(
                        self,
                        *rules,
                        *parser,
                        *assembly,
                        steps,
                        to,
                        r.0,
                        r.1@,
                    )
                },
    {
        let ghost start = self;
        let BasicBlockBuilder { executor, transactions } = self;
        let ghost block = assembly.env.block_env;
        let (finished, changes) = executor.finish_with_context(
            rules,
            &assembly.env.block_env,
            parser,
        );
        let ghost (path, run, end) = choose|machines: Seq<E>, steps: Seq<Step>, to: E|
            {
                &&& #[trigger] is_path(machines, steps, start.executor.machine(), to)
                &&& forall|i: int| #[trigger]
                        is_step(steps, i) ==> exists|m: &mut E|
                            *m == machines[i] && *final(m) == machines[i + 1] && #[trigger] takes(
                                m,
                                steps[i],
                            )
                &&& match finished {
                    Ok(done) => {
                        &&& done.0 == to
                        &&& done.2 == start.executor.context()
                        &&& done.1.receipts@ == start.executor.made_receipts()
                        &&& done.1.gas_used == start.executor.gas()
                        &&& done.1.blob_gas_used == start.executor.blob_gas()
                        &&& closed::<E, RethReceiptBuilder, P>(
                            start.executor,
                            *rules,
                            block,
                            *parser,
                            steps,
                            Ok(done.1.requests@),
                            changes@,
                        )
                    },
                    Err(e) => closed::<E, RethReceiptBuilder, P>(
                        start.executor,
                        *rules,
                        block,
                        *parser,
                        steps,
                        Err(e),
                        changes@,
                    ),
                }
            };
        let (evm, execution_result, ctx) = match finished {
            Ok(done) => done,
            Err(e) => {
                assert(is_path(path, run, start.executor.machine(), end));
                return (Err(e), changes);
            },
        };
        let mut evm = evm;
        evm.merge_transitions();
        let ghost merged = run + seq![Step::Merge];
        proof {
            let to = evm;
            let m = choose|m: &mut E|
                *m == end && *final(m) == to && #[trigger] call_ensures(
                    E::merge_transitions,
                    (m,),
                    (),
                );
            assert(takes(m, Step::Merge));
            lemma_one_step(end, Step::Merge, to);
            lemma_paths_join(
                path,
                run,
                seq![end, to],
                seq![Step::Merge],
                start.executor.machine(),
                end,
                to,
            );
            assert(merged.drop_last() =~= run);
            assert(is_path(
                path + seq![end, to].drop_first(),
                merged,
                start.executor.machine(),
                to,
            ));
        }
        let hashed_state = assembly.state.hashed_post_state(&evm);
        let root = assembly.state.state_root_with_updates(&hashed_state);
        let (state_root, trie_updates) = match root {
            Ok(root) => root,
            Err(e) => {
                assert(ended_with::<E, P, S>(
                    start,
                    *rules,
                    *parser,
                    *assembly,
                    merged,
                    evm,
                    Err(BlockExecutionError::Other(e)),
                    changes@,
                ));
                return (Err(BlockExecutionError::Other(e)), changes);
            },
        };
        let (txs, senders) = unzip_recovered(transactions);
        let block = assembly.assembler.assemble_block(
            assembly.env,
            ctx,
            assembly.parent,
            assembly.target_blob_gas,
            txs,
            &execution_result,
            state_root,
        );
        let outcome = BlockBuilderOutcome {
            evm,
            execution_result,
            hashed_state,
            trie_updates,
            block,
            senders,
        };
        assert(ended_with::<E, P, S>(
            start,
            *rules,
            *parser,
            *assembly,
            merged,
            outcome.evm,
            Ok(outcome),
            changes@,
        ));
        (Ok(outcome), changes)
    }
}

/// Whether the end of a new block comes to the outcome: the end of its execution, the merge of what it
/// changed, the root of the state, and the block that is put together from it.
pub open spec fn ended_with<E: Evm, P: RequestParser<Receipt>, S: StateRootProvider<E>>(
    builder: BasicBlockBuilder<E, RethReceiptBuilder>,
    rules: BlockRules,
    parser: P,
    assembly: Assembly<S>,
    steps: Seq<Step>,
    to: E,
    r: Result<BlockBuilderOutcome<E, S::HashedState, S::TrieUpdates>, BlockExecutionError>,
    changes: Seq<StateChange>,
) -> bool {
    let executor = builder.executor;
    let block = assembly.env.block_env;
    match r {
        Ok(done) => {
            &&& steps.len() > 0
            &&& steps.last() is Merge
            &&& done.evm == to
            &&& done.execution_result.receipts@ == executor.made_receipts()
            &&& done.execution_result.gas_used == executor.gas()
            &&& done.execution_result.blob_gas_used == executor.blob_gas()
            &&& closed::<E, RethReceiptBuilder, P>(
                executor,
                rules,
                block,
                parser,
                steps.drop_last(),
                Ok(done.execution_result.requests@),
                changes,
            )
            &&& call_ensures(S::hashed_post_state, (assembly.state, &to), done.hashed_state)
            &&& call_ensures(
                S::state_root_with_updates,
                (assembly.state, &done.hashed_state),
                Ok::<_, String>((done.block.header.state_root, done.trie_updates)),
            )
            &&& assembly.assembler.assembles(
                *assembly.env,
                executor.context(),
                *assembly.parent,
                assembly.target_blob_gas,
                done.block.body.transactions,
                done.execution_result,
                done.block.header.state_root,
                done.block,
            )
            &&& done.block.body.transactions@ == Seq::new(
                builder.transactions@.len(),
                |i: int| builder.transactions@[i].tx,
            )
            &&& done.senders@ == Seq::new(
                builder.transactions@.len(),
                |i: int| builder.transactions@[i].signer,
            )
        },
        Err(e) => {
            ||| closed::<E, RethReceiptBuilder, P>(
                executor,
                rules,
                block,
                parser,
                steps,
                Err(e),
                changes,
            )
            ||| exists|requests: Seq<Request>, hashed: S::HashedState, message: String|
                {
                    &&& steps.len() > 0
                    &&& steps.last() is Merge
                    &&& #[trigger] closed::<E, RethReceiptBuilder, P>(
                        executor,
                        rules,
                        block,
                        parser,
                        steps.drop_last(),
                        Ok(requests),
                        changes,
                    )
                    &&& call_ensures(S::hashed_post_state, (assembly.state, &to), hashed)
                    &&& #[trigger] call_ensures(
                        S::state_root_with_updates,
                        (assembly.state, &hashed),
                        Err::<(B256, S::TrieUpdates), String>(message),
                    )
                    &&& e == BlockExecutionError::Other(message)
                }
        },
    }
}

impl<F> EthEvmConfig<F> {
    /// A builder for a block, with nothing executed yet.
    pub fn create_block_builder<E: Evm>(&self, evm: E, ctx: EthBlockExecutionCtx) -> (r:
        BasicBlockBuilder<E, RethReceiptBuilder>)
        ensures
            r.executor.machine() == evm,
            r.executor.context() == ctx,
            r.executor.gas() == 0,
            r.executor.blob_gas() == 0,
            r.executor.made_receipts().len() == 0,
            r.executor.caller().rules() == self.executor_factory.rules(),
            !r.executor.caller().observed(),
            r.executor.caller().pending() == Seq::<StateChange>::empty(),
            r.transactions@.len() == 0,
    {
        BasicBlockBuilder::new(self.block_executor_factory().create_executor(evm, ctx))
    }

    /// A builder for the next block, on a virtual machine that was made for its environment.
    pub fn builder_for_next_block<E: Evm>(
        &self,
        evm: E,
        parent_hash: B256,
        attributes: NextBlockEnvAttributes,
    ) -> (r: BasicBlockBuilder<E, RethReceiptBuilder>)
        ensures
            r.executor.machine() == evm,
            r.executor.context().parent_hash == parent_hash,
            r.executor.context().parent_beacon_block_root == attributes.parent_beacon_block_root,
            r.executor.context().ommers@.len() == 0,
            r.executor.context().withdrawals == attributes.withdrawals,
            r.executor.context().extra_data == attributes.extra_data,
            r.executor.gas() == 0,
            r.executor.blob_gas() == 0,
            r.executor.made_receipts().len() == 0,
            r.executor.caller().rules() == self.executor_factory.rules(),
            !r.executor.caller().observed(),
            r.executor.caller().pending() == Seq::<StateChange>::empty(),
            r.transactions@.len() == 0,
    {
        let ctx = self.context_for_next_block(parent_hash, attributes);
        self.create_block_builder(evm, ctx)
    }
}

} // verus!
