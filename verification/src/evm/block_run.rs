//! What the execution of a block comes to, from its first step to its last.

use crate::evm::block_executor::{
    blob_gas_counted, clears_state, drains_dao_at, due, executed_in_order, gas_counted, grown_from,
    refused, with_drained, BlockExecutionResult, BlockRules, EthBlockExecutionCtx,
    EthBlockExecutor,
};
use crate::evm::chain_spec::ChainSpec;
use crate::evm::env::BlockEnv;
use crate::evm::machine::RequestParser;
use crate::evm::receipts::ReceiptBuilder;
use crate::evm::rewards::{lists, lists_nonzero};
use crate::evm::steps::Step;
use crate::evm::system_calls::{
    collects_requests, gathered, stored, stores_beacon_root, stores_parent_hash,
    BlockExecutionError, Request, ResultAndState, StateChange, StateChangeSource, SystemCaller,
    SystemContracts, DEPOSIT_REQUEST_TYPE,
};
use crate::evm::tx_env::{Recovered, TransactionSigned, TxEnv};
use crate::parallel::state::ExecutionResult;
use crate::parallel::storage::AccountInfo;
use crate::primitives::{clamp, Address};
use vstd::prelude::*;

verus! {

/// The steps before the transactions.
pub open spec fn opening_steps(on: bool, hash: Seq<Step>, root: Seq<Step>) -> Seq<Step> {
    seq![Step::Clear { on }] + hash + root
}

/// Whether what comes before the transactions comes to the result: whether empty accounts are cleared
/// is set, then the hash of the parent and the beacon root are stored. The first failure ends it.
pub open spec fn opened(
    ctx: EthBlockExecutionCtx,
    contracts: SystemContracts,
    block: BlockEnv,
    steps: Seq<Step>,
    before: SystemCaller<ChainSpec>,
    after: SystemCaller<ChainSpec>,
    r: Result<(), BlockExecutionError>,
) -> bool {
    exists|
        hash: Seq<Step>,
        root: Seq<Step>,
        between: SystemCaller<ChainSpec>,
        hashed: Result<(), BlockExecutionError>,
    |
        {
            &&& steps == #[trigger] opening_steps(clears_state(before.rules(), block), hash, root)
            &&& #[trigger] stored(
                stores_parent_hash(before.rules(), block),
                contracts.history_storage,
                ctx.parent_hash.bytes(),
                "EIP-2935 error: "@,
                hash,
                before,
                between,
                hashed,
            )
            &&& match hashed {
                Ok(_) => stored(
                    stores_beacon_root(before.rules(), block) && ctx.parent_beacon_block_root
                        is Some,
                    contracts.beacon_roots,
                    (ctx.parent_beacon_block_root->0).bytes(),
                    "EIP-4788 error: "@,
                    root,
                    between,
                    after,
                    r,
                ),
                Err(_) => root.len() == 0 && after == between && r == hashed,
            }
        }
}

/// Whether the requests of a block start with the deposits that its receipts tell of, if it collects
/// requests and there are any.
pub open spec fn deposited<E, R: ReceiptBuilder, P: RequestParser<R::Receipt>>(
    executor: EthBlockExecutor<E, R>,
    block: BlockEnv,
    parser: P,
    r: Result<Seq<Request>, BlockExecutionError>,
) -> bool {
    if !collects_requests(executor.caller().rules(), block) {
        r == Ok::<_, BlockExecutionError>(Seq::<Request>::empty())
    } else {
        exists|receipts: Vec<R::Receipt>, parsed: Result<Vec<u8>, String>|
            {
                &&& receipts@ == executor.made_receipts()
                &&& #[trigger] call_ensures(P::parse_deposits, (&parser, &receipts), parsed)
                &&& match parsed {
                    Ok(data) => r == Ok::<_, BlockExecutionError>(
                        if data@.len() == 0 {
                            Seq::<Request>::empty()
                        } else {
                            seq![Request { request_type: DEPOSIT_REQUEST_TYPE, data }]
                        },
                    ),
                    Err(e) => r == Err::<Seq<Request>, _>(BlockExecutionError::Evm(e)),
                }
            }
    }
}

/// Whether the amounts are what the balances grow by, with what was drained from the accounts of the
/// DAO if the block does so.
pub open spec fn drained<E, R: ReceiptBuilder>(
    executor: EthBlockExecutor<E, R>,
    rules: BlockRules,
    block: BlockEnv,
    steps: Seq<Step>,
    r: Result<Map<Address, int>, BlockExecutionError>,
) -> bool {
    if !drains_dao_at(executor.caller().rules(), block) {
        &&& steps.len() == 0
        &&& r == Ok::<_, BlockExecutionError>(due(executor, block))
    } else {
        &&& steps.len() == 1
        &&& steps[0] matches Step::Drain { accounts, outcome } && {
            &&& accounts == rules.dao_accounts
            &&& r == match outcome {
                Ok(amounts) => Ok(
                    with_drained(due(executor, block), rules.dao_beneficiary, amounts@),
                ),
                Err(e) => Err(BlockExecutionError::Evm(e)),
            }
        }
    }
}

/// Whether the balances grew by the amounts, if there are any.
pub open spec fn paid(
    amounts: Map<Address, int>,
    steps: Seq<Step>,
    r: Result<(), BlockExecutionError>,
) -> bool {
    if amounts == Map::<Address, int>::empty() {
        steps.len() == 0 && r is Ok
    } else {
        &&& steps.len() == 1
        &&& steps[0] matches Step::Grow { list, outcome } && {
            &&& lists(list@, amounts)
            &&& r == match outcome {
                Ok(_) => Ok(()),
                Err(e) => Err(BlockExecutionError::Evm(e)),
            }
        }
    }
}

/// Whether the steps load the listed accounts in order, each but the last with success.
pub open spec fn loads(list: Seq<(Address, u128)>, steps: Seq<Step>) -> bool {
    &&& steps.len() <= list.len()
    &&& forall|i: int|
        0 <= i < steps.len() ==> ((#[trigger] steps[i]) matches Step::Load { address, outcome }
            && address == list[i].0 && (i < steps.len() - 1 ==> outcome is Ok))
}

/// What was loaded.
pub open spec fn loaded(steps: Seq<Step>) -> Seq<Option<AccountInfo>> {
    Seq::new(
        steps.len(),
        |i: int|
            match steps[i] {
                Step::Load { address, outcome: Ok(info) } => info,
                _ => None,
            },
    )
}

/// Whether the observer, if there is one, is told of the accounts whose balances grow: they are
/// loaded, and each gets its amount.
pub open spec fn reported(
    caller: SystemCaller<ChainSpec>,
    amounts: Map<Address, int>,
    steps: Seq<Step>,
    r: Result<Seq<StateChange>, BlockExecutionError>,
) -> bool {
    if !caller.observed() {
        steps.len() == 0 && r == Ok::<_, BlockExecutionError>(caller.pending())
    } else {
        exists|list: Seq<(Address, u128)>|
            {
                &&& lists_nonzero(list, amounts)
                &&& #[trigger] loads(list, steps)
                &&& match r {
                    Ok(changes) => {
                        &&& steps.len() == list.len()
                        &&& steps.len() > 0 ==> (steps.last() matches Step::Load { address, outcome }
                            && outcome is Ok)
                        &&& changes.len() == caller.pending().len() + 1
                        &&& changes.drop_last() == caller.pending()
                        &&& changes.last().source == StateChangeSource::System
                        &&& grown_from(changes.last().state@, list, loaded(steps))
                    },
                    Err(error) => {
                        &&& steps.len() > 0
                        &&& steps.last() matches Step::Load { address, outcome } && (
                        outcome matches Err(e) && error == BlockExecutionError::Evm(e))
                    },
                }
            }
    }
}

/// The end of a block: the steps of its parts, and what came of each.
pub struct Closing {
    pub opened: Result<Seq<Request>, BlockExecutionError>,
    pub asking: Seq<Step>,
    pub requests: Seq<Request>,
    /// What the observer has been told of until the requests were collected.
    pub told: SystemCaller<ChainSpec>,
    pub asked: Result<(), BlockExecutionError>,
    pub draining: Seq<Step>,
    pub amounts: Result<Map<Address, int>, BlockExecutionError>,
    pub paying: Seq<Step>,
    pub paid: Result<(), BlockExecutionError>,
    pub loading: Seq<Step>,
}

impl Closing {
    pub open spec fn steps(self) -> Seq<Step> {
        self.asking + self.draining + self.paying + self.loading
    }

    /// Whether the end of the block comes to the requests, and to the changes for the observer: the
    /// requests are collected, accounts are drained, balances grow, and the observer is told. The
    /// first failure ends it, and what the observer was told up to it stays.
    pub open spec fn ends<E, R: ReceiptBuilder, P: RequestParser<R::Receipt>>(
        self,
        executor: EthBlockExecutor<E, R>,
        rules: BlockRules,
        block: BlockEnv,
        parser: P,
        r: Result<Seq<Request>, BlockExecutionError>,
        changes: Seq<StateChange>,
    ) -> bool {
        &&& deposited::<E, R, P>(executor, block, parser, self.opened)
        &&& match self.opened {
            Err(e) => {
                &&& self.asking.len() == 0
                &&& self.draining.len() == 0
                &&& self.paying.len() == 0
                &&& self.loading.len() == 0
                &&& r == Err::<Seq<Request>, _>(e)
                &&& changes == executor.caller().pending()
            },
            Ok(first) => {
                &&& gathered::<R::Receipt, P>(
                    collects_requests(executor.caller().rules(), block),
                    rules.contracts,
                    parser,
                    self.asking,
                    executor.caller(),
                    self.told,
                    first,
                    self.requests,
                    self.asked,
                )
                &&& match self.asked {
                    Err(e) => {
                        &&& self.draining.len() == 0
                        &&& self.paying.len() == 0
                        &&& self.loading.len() == 0
                        &&& r == Err::<Seq<Request>, _>(e)
                        &&& changes == self.told.pending()
                    },
                    Ok(_) => self.settles(executor, rules, block, r, changes),
                }
            },
        }
    }

    /// What follows the requests.
    pub open spec fn settles<E, R: ReceiptBuilder>(
        self,
        executor: EthBlockExecutor<E, R>,
        rules: BlockRules,
        block: BlockEnv,
        r: Result<Seq<Request>, BlockExecutionError>,
        changes: Seq<StateChange>,
    ) -> bool {
        &&& drained(executor, rules, block, self.draining, self.amounts)
        &&& match self.amounts {
            Err(e) => {
                &&& self.paying.len() == 0
                &&& self.loading.len() == 0
                &&& r == Err::<Seq<Request>, _>(e)
                &&& changes == self.told.pending()
            },
            Ok(amounts) => {
                &&& paid(amounts, self.paying, self.paid)
                &&& match self.paid {
                    Err(e) => {
                        &&& self.loading.len() == 0
                        &&& r == Err::<Seq<Request>, _>(e)
                        &&& changes == self.told.pending()
                    },
                    Ok(_) => match r {
                        Ok(requests) => {
                            &&& requests == self.requests
                            &&& reported(self.told, amounts, self.loading, Ok(changes))
                        },
                        Err(e) => {
                            &&& reported(self.told, amounts, self.loading, Err(e))
                            &&& changes == self.told.pending()
                        },
                    },
                }
            },
        }
    }
}

/// Whether the end of a block takes the steps and comes to the requests and the changes for the
/// observer.
pub open spec fn closed<E, R: ReceiptBuilder, P: RequestParser<R::Receipt>>(
    executor: EthBlockExecutor<E, R>,
    rules: BlockRules,
    block: BlockEnv,
    parser: P,
    steps: Seq<Step>,
    r: Result<Seq<Request>, BlockExecutionError>,
    changes: Seq<StateChange>,
) -> bool {
    exists|c: Closing|
        steps == c.steps() && #[trigger] c.ends::<E, R, P>(
            executor,
            rules,
            block,
            parser,
            r,
            changes,
        )
}

/// The steps of transactions that ran: each is kept before the next runs.
pub open spec fn run_steps(
    txs: Seq<(TxEnv, Recovered<TransactionSigned>)>,
    dones: Seq<ResultAndState>,
) -> Seq<Step>
    decreases dones.len(),
{
    if dones.len() == 0 {
        Seq::empty()
    } else {
        run_steps(txs, dones.drop_last()) + seq![
            Step::Run { tx: txs[dones.len() - 1].0, outcome: Ok(dones.last()) },
            Step::Keep { state: dones.last().state },
        ]
    }
}

/// What the observer is told of transactions that ran.
pub open spec fn run_changes(first: nat, dones: Seq<ResultAndState>) -> Seq<StateChange> {
    Seq::new(
        dones.len(),
        |i: int|
            StateChange {
                source: StateChangeSource::Transaction((first + i) as usize),
                state: dones[i].state,
            },
    )
}

/// How the transactions ended.
pub open spec fn results_of(dones: Seq<ResultAndState>) -> Seq<ExecutionResult> {
    Seq::new(dones.len(), |i: int| dones[i].result)
}

/// A block that was executed: the steps of its parts, and what came of each.
pub struct BlockRun<E, R: ReceiptBuilder> {
    pub opening: Seq<Step>,
    pub begun: SystemCaller<ChainSpec>,
    pub opened: Result<(), BlockExecutionError>,
    pub dones: Seq<ResultAndState>,
    /// The executor after the transactions that ran.
    pub end: EthBlockExecutor<E, R>,
    pub ending: Seq<Step>,
    /// What the observer is told of at the end.
    pub more: Seq<StateChange>,
}

impl<E, R: ReceiptBuilder> BlockRun<E, R> {
    pub open spec fn steps(self, txs: Seq<(TxEnv, Recovered<TransactionSigned>)>) -> Seq<Step> {
        self.opening + run_steps(txs, self.dones) + self.ending
    }

    /// What the observer is told of until the last transaction that ran.
    pub open spec fn changes(self, executor: EthBlockExecutor<E, R>) -> Seq<StateChange> {
        if executor.caller().observed() {
            self.begun.pending() + run_changes(executor.made_receipts().len(), self.dones)
        } else {
            self.begun.pending()
        }
    }

    /// Whether the executor after the transactions that ran holds what came of them.
    pub open spec fn runs(
        self,
        executor: EthBlockExecutor<E, R>,
        block: BlockEnv,
        txs: Seq<(TxEnv, Recovered<TransactionSigned>)>,
    ) -> bool {
        let results = results_of(self.dones);
        &&& self.dones.len() <= txs.len()
        &&& executed_in_order(
            executor,
            block,
            txs.take(self.dones.len() as int),
            results,
            self.end.made_receipts(),
        )
        &&& self.end.gas() == gas_counted(executor.gas(), results, results.len())
        &&& self.end.blob_gas() == blob_gas_counted(executor.blob_gas(), txs, results.len())
        &&& self.end.context() == executor.context()
        &&& self.end.builder() == executor.builder()
        &&& self.end.caller().rules() == executor.caller().rules()
        &&& self.end.caller().observed() == executor.caller().observed()
    }

    /// Whether the block comes to the result and the changes for the observer: what comes before the
    /// transactions, the transactions in order, and its end. The first failure ends it.
    pub open spec fn ends<P: RequestParser<R::Receipt>>(
        self,
        executor: EthBlockExecutor<E, R>,
        rules: BlockRules,
        block: BlockEnv,
        parser: P,
        txs: Seq<(TxEnv, Recovered<TransactionSigned>)>,
        r: Result<BlockExecutionResult<R::Receipt>, BlockExecutionError>,
        changes: Seq<StateChange>,
    ) -> bool {
        let n = self.dones.len() as int;
        &&& opened(
            executor.context(),
            rules.contracts,
            block,
            self.opening,
            executor.caller(),
            self.begun,
            self.opened,
        )
        &&& match self.opened {
            Err(e) => {
                &&& n == 0
                &&& self.ending.len() == 0
                &&& r == Err::<BlockExecutionResult<R::Receipt>, _>(e)
                &&& changes == self.begun.pending()
            },
            Ok(_) => {
                &&& self.runs(executor, block, txs)
                &&& if n < txs.len() {
                    let available = clamp(block.gas_limit - self.end.gas(), 0, u64::MAX as int);
                    &&& changes == self.changes(executor)
                    &&& if txs[n].0.gas_limit > available {
                        self.ending.len() == 0 && refused(txs[n].0.gas_limit, available, r)
                    } else {
                        &&& self.ending.len() == 1
                        &&& self.ending[0] matches Step::Run { tx, outcome } && tx == txs[n].0 && (
                        outcome matches Err(e) && r == Err::<BlockExecutionResult<R::Receipt>, _>(
                            BlockExecutionError::Evm(e),
                        ))
                    }
                } else {
                    &&& self.end.caller().pending() == Seq::<StateChange>::empty()
                    &&& changes == self.changes(executor) + self.more
                    &&& closed::<E, R, P>(
                        self.end,
                        rules,
                        block,
                        parser,
                        self.ending,
                        match r {
                            Ok(done) => Ok(done.requests@),
                            Err(e) => Err(e),
                        },
                        self.more,
                    )
                    &&& r matches Ok(done) ==> {
                        &&& done.receipts@ == self.end.made_receipts()
                        &&& done.gas_used == self.end.gas()
                        &&& done.blob_gas_used == self.end.blob_gas()
                    }
                }
            },
        }
    }
}

/// Whether the execution of a block takes the steps and comes to the result and the changes for the
/// observer.
pub open spec fn executed<E, R: ReceiptBuilder, P: RequestParser<R::Receipt>>(
    executor: EthBlockExecutor<E, R>,
    rules: BlockRules,
    block: BlockEnv,
    parser: P,
    txs: Seq<(TxEnv, Recovered<TransactionSigned>)>,
    steps: Seq<Step>,
    r: Result<BlockExecutionResult<R::Receipt>, BlockExecutionError>,
    changes: Seq<StateChange>,
) -> bool {
    exists|run: BlockRun<E, R>|
        steps == run.steps(txs) && #[trigger] run.ends::<P>(
            executor,
            rules,
            block,
            parser,
            txs,
            r,
            changes,
        )
}

} // verus!
