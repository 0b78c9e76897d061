//! What a virtual machine is made to do for a block, and what an observer is told.

use crate::evm::assoc::holds_at;
use crate::evm::basic_executor::{is_fresh, RecoveredBlock};
use crate::evm::block_executor::{
    booked, clears_state, drains_dao_at, due, grown_from, with_drained, BlockExecutionResult,
    BlockRules, EthBlockExecutionCtx, EthBlockExecutor, EthTxResult,
};
use crate::evm::block_run::{
    closed, deposited, drained, executed, loaded, loads, opened, opening_steps, paid, reported,
    results_of, run_changes, run_steps, BlockRun, Closing,
};
use crate::evm::chain_spec::ChainSpec;
use crate::evm::env::BlockEnv;
use crate::evm::machine::RequestParser;
use crate::evm::receipts::{ReceiptBuilder, RethReceiptBuilder};
use crate::evm::rewards::{is_incremented, lists, lists_nonzero};
use crate::evm::steps::Step;
use crate::evm::system_calls::{
    asked, collects_requests, gathered, is_system_call, stored, stores_beacon_root,
    stores_parent_hash, told, BlockExecutionError, EvmState, Request, ResultAndState, StateChange,
    StateChangeSource, SystemCall, SystemCaller, SystemContracts, CONSOLIDATION_REQUEST_TYPE,
    DEPOSIT_REQUEST_TYPE, WITHDRAWAL_REQUEST_TYPE,
};
use crate::evm::tx_env::{Recovered, TransactionSigned, TxEnv};
use crate::primitives::{lemma_u256_bounds, Address};
use vstd::prelude::*;

verus! {

/// The hash of the parent is stored from Prague on, but not by the first block; the beacon root from
/// Cancun on; requests are collected from Prague on.
pub proof fn law_calls_come_with_their_fork(spec: ChainSpec, block: BlockEnv)
    requires
        block.timestamp@ <= u64::MAX,
    ensures
        ({
            let prague = spec.prague_time matches Some(at) && at <= block.timestamp@;
            let cancun = spec.cancun_time matches Some(at) && at <= block.timestamp@;
            &&& stores_parent_hash(spec, block) <==> prague && block.number@ > 0
            &&& stores_beacon_root(spec, block) <==> cancun
            &&& collects_requests(spec, block) <==> prague
        }),
{
    lemma_u256_bounds(block.timestamp);
    lemma_u256_bounds(block.number);
}

/// A call of the protocol comes from `0xfffffffffffffffffffffffffffffffffffffffe`, and goes to the contract
/// with the data.
pub proof fn law_calls_come_from_the_protocol(call: SystemCall, contract: Address, data: Seq<u8>)
    ensures
        is_system_call(call, contract, data) <==> {
            &&& call.caller == (Address { hi: u128::MAX, lo: 0xfffffffeu32 })
            &&& call.contract == contract
            &&& call.data@ == data
        },
{
}

/// An observer is told of a change after all that it was told before; without an observer nothing is
/// noted.
pub proof fn law_observers_are_told_in_order<Spec>(
    caller: SystemCaller<Spec>,
    source: StateChangeSource,
    state: EvmState,
)
    ensures
        !caller.observed() ==> told(caller, source, state) == caller.pending(),
        caller.observed() ==> {
            let now = told(caller, source, state);
            &&& now.len() == caller.pending().len() + 1
            &&& now.last().source == source
            &&& now.last().state == state
            &&& forall|i: int|
                0 <= i < caller.pending().len() ==> #[trigger] now[i] == caller.pending()[i]
        },
{
}

/// A call before the transactions that succeeds is made, is told of, and what it changed is kept; one that
/// fails is reported under its label and nothing is kept or told. Where the block makes no call nothing
/// happens.
pub proof fn law_calls_before_the_transactions(
    wanted: bool,
    contract: Address,
    data: Seq<u8>,
    label: Seq<char>,
    steps: Seq<Step>,
    before: SystemCaller<ChainSpec>,
    after: SystemCaller<ChainSpec>,
    r: Result<(), BlockExecutionError>,
)
    requires
        stored(wanted, contract, data, label, steps, before, after, r),
    ensures
        after.rules() == before.rules(),
        after.observed() == before.observed(),
        !wanted ==> steps.len() == 0 && r is Ok && after.pending() == before.pending(),
        wanted ==> steps.len() > 0 && steps[0] is Call && {
            &&& steps[0]->call.caller == (Address { hi: u128::MAX, lo: 0xfffffffeu32 })
            &&& steps[0]->call.contract == contract
            &&& steps[0]->call.data@ == data
        },
        wanted ==> (r is Ok <==> steps[0]->Call_outcome is Ok),
        wanted && r is Ok ==> steps.len() == 2 && steps[1] is Keep && {
            let state = (steps[0]->Call_outcome->Ok_0).state;
            &&& steps[1]->state == state
            &&& before.observed() ==> after.pending().len() == before.pending().len() + 1
                && after.pending().last() == (StateChange {
                source: StateChangeSource::System,
                state,
            })
            &&& !before.observed() ==> after.pending() == before.pending()
        },
        wanted && r is Err ==> steps.len() == 1 && after.pending() == before.pending() && (
        r->Err_0 matches BlockExecutionError::Other(message) && message@ == label
            + (steps[0]->Call_outcome->Err_0)@),
{
}

/// Before the transactions it is set whether empty accounts are cleared, then the hash of the parent is
/// stored, then the beacon root; a failure of the first call leaves out the second.
pub proof fn law_blocks_open_in_order(
    ctx: EthBlockExecutionCtx,
    contracts: SystemContracts,
    block: BlockEnv,
    steps: Seq<Step>,
    before: SystemCaller<ChainSpec>,
    after: SystemCaller<ChainSpec>,
    r: Result<(), BlockExecutionError>,
)
    requires
        opened(ctx, contracts, block, steps, before, after, r),
    ensures
        steps.len() >= 1,
        steps[0] == (Step::Clear {
            on: clears_state(before.rules(), block),
        }),
        stores_parent_hash(before.rules(), block) ==> steps.len() >= 2 && steps[1] is Call && {
            &&& steps[1]->call.contract == contracts.history_storage
            &&& steps[1]->call.data@ == ctx.parent_hash.bytes()
        },
        r is Ok ==> {
            let hash = stores_parent_hash(before.rules(), block);
            let root = stores_beacon_root(before.rules(), block) && ctx.parent_beacon_block_root
                is Some;
            let at = if hash {
                3int
            } else {
                1int
            };
            &&& steps.len() == at + if root {
                2int
            } else {
                0int
            }
            &&& hash ==> steps[2] is Keep && steps[1]->Call_outcome is Ok && steps[2]->state == (
            steps[1]->Call_outcome->Ok_0).state
            &&& root ==> steps[at] is Call && steps[at]->call.contract == contracts.beacon_roots
                && steps[at]->call.data@ == (ctx.parent_beacon_block_root->0).bytes()
                && steps[at]->Call_outcome is Ok && steps[at + 1] is Keep && steps[at + 1]->state
                == (steps[at]->Call_outcome->Ok_0).state
        },
{
    let on = clears_state(before.rules(), block);
    let (hash, root, between, hashed) = choose|
        hash: Seq<Step>,
        root: Seq<Step>,
        between: SystemCaller<ChainSpec>,
        hashed: Result<(), BlockExecutionError>,
    |
        {
            &&& steps == #[trigger] opening_steps(on, hash, root)
            &&& #[trigger] stored(
                stores_parent_hash(before.rules(), block),
                contracts.history_storage,
                ctx.parent_hash.bytes(),
                "EIP-2935 error: "@,
                hash,
                before,
                between,
                hashed,
            )
            &&& match hashed {
                Ok(_) => stored(
                    stores_beacon_root(before.rules(), block) && ctx.parent_beacon_block_root
                        is Some,
                    contracts.beacon_roots,
                    (ctx.parent_beacon_block_root->0).bytes(),
                    "EIP-4788 error: "@,
                    root,
                    between,
                    after,
                    r,
                ),
                Err(_) => root.len() == 0 && after == between && r == hashed,
            }
        };
    assert(steps[0] == (Step::Clear { on }));
    if hash.len() > 0 {
        assert(steps[1] == hash[0]);
    }
    if hash.len() > 1 {
        assert(steps[2] == hash[1]);
    }
    if root.len() > 0 {
        assert(steps[(1 + hash.len()) as int] == root[0]);
    }
    if root.len() > 1 {
        assert(steps[(2 + hash.len()) as int] == root[1]);
    }
}

/// Every transaction is run, and what it changed is kept before the next one runs.
pub proof fn law_transactions_run_one_after_the_other(
    txs: Seq<(TxEnv, Recovered<TransactionSigned>)>,
    dones: Seq<ResultAndState>,
    i: int,
)
    requires
        0 <= i < dones.len(),
    ensures
        run_steps(txs, dones).len() == 2 * dones.len(),
        run_steps(txs, dones)[2 * i] == (Step::Run { tx: txs[i].0, outcome: Ok(dones[i]) }),
        run_steps(txs, dones)[2 * i + 1] == (Step::Keep { state: dones[i].state }),
    decreases dones.len(),
{
    let rest = dones.drop_last();
    let e = dones.len() - 1;
    if e > 0 {
        law_transactions_run_one_after_the_other(txs, rest, 0);
    } else {
        assert(run_steps(txs, rest) =~= Seq::empty());
    }
    assert(run_steps(txs, rest).len() == 2 * rest.len());
    if i < e {
        law_transactions_run_one_after_the_other(txs, rest, i);
        assert(rest[i] == dones[i]);
    } else {
        assert(dones.last() == dones[i]);
    }
}

/// An observer is told of what each transaction changed, in order, under its position in the block; and
/// each transaction ended as the machine said.
pub proof fn law_transactions_are_told_of(first: nat, dones: Seq<ResultAndState>, i: int)
    requires
        0 <= i < dones.len(),
        first + i <= usize::MAX,
    ensures
        run_changes(first, dones).len() == dones.len(),
        run_changes(first, dones)[i].state == dones[i].state,
        run_changes(first, dones)[i].source matches StateChangeSource::Transaction(at) && at
            == first + i,
        results_of(dones).len() == dones.len(),
        results_of(dones)[i] == dones[i].result,
{
}

/// A contract that hands out requests is called without data. What it returned is parsed under the type of
/// the requests and becomes the last request; what it changed is told of and kept. Where the call or the
/// parsing fails no request is added.
pub proof fn law_contracts_hand_out_requests<T, P: RequestParser<T>>(
    wanted: bool,
    contract: Address,
    request_type: u8,
    parser: P,
    steps: Seq<Step>,
    caller: SystemCaller<ChainSpec>,
    caller_after: SystemCaller<ChainSpec>,
    before: Seq<Request>,
    after: Seq<Request>,
    r: Result<(), BlockExecutionError>,
)
    requires
        asked::<T, P>(
            wanted,
            contract,
            request_type,
            parser,
            steps,
            caller,
            caller_after,
            before,
            after,
            r,
        ),
    ensures
        !wanted ==> steps.len() == 0 && r is Ok && after == before,
        caller_after.observed() == caller.observed(),
        wanted ==> steps.len() > 0 && steps[0] is Call && steps[0]->call.contract == contract
            && steps[0]->call.data@.len() == 0,
        r is Err ==> after == before && steps.len() == 1 && r->Err_0 is Evm,
        wanted && r is Ok ==> {
            &&& steps[0]->Call_outcome is Ok
            &&& steps.len() == 2
            &&& steps[1] is Keep
            &&& steps[1]->state == (steps[0]->Call_outcome->Ok_0).state
            &&& after.len() == before.len() + 1
            &&& after.drop_last() == before
            &&& after.last().request_type == request_type
            &&& call_ensures(
                P::parse_requests,
                (&parser, request_type, &(steps[0]->Call_outcome->Ok_0).result),
                Ok::<Vec<u8>, String>(after.last().data),
            )
            &&& caller_after.pending() == told(
                caller,
                StateChangeSource::System,
                (steps[0]->Call_outcome->Ok_0).state,
            )
        },
{
    if wanted && r is Ok {
        assert(after.drop_last() =~= before);
    }
}

/// Where a block collects requests, withdrawals of type 1 come first and consolidations of type 2 after
/// them, each from its own contract.
pub proof fn law_requests_come_in_order<T, P: RequestParser<T>>(
    contracts: SystemContracts,
    parser: P,
    steps: Seq<Step>,
    caller: SystemCaller<ChainSpec>,
    caller_after: SystemCaller<ChainSpec>,
    before: Seq<Request>,
    after: Seq<Request>,
    r: Result<(), BlockExecutionError>,
)
    requires
        r is Ok,
        gathered::<T, P>(
            true,
            contracts,
            parser,
            steps,
            caller,
            caller_after,
            before,
            after,
            r,
        ),
    ensures
        after.len() == before.len() + 2,
        forall|i: int| 0 <= i < before.len() ==> #[trigger] after[i] == before[i],
        after[before.len() as int].request_type == 1,
        after[(before.len() + 1) as int].request_type == 2,
        steps.len() == 4,
        steps[0] is Call && steps[0]->call.contract == contracts.withdrawal_requests,
        steps[1] is Keep,
        steps[2] is Call && steps[2]->call.contract == contracts.consolidation_requests,
        steps[3] is Keep,
        caller.observed() ==> caller_after.pending().len() == caller.pending().len() + 2,
        !caller.observed() ==> caller_after.pending() == caller.pending(),
{
    let (first, second, caller_between, between, withdrawn) = choose|
        first: Seq<Step>,
        second: Seq<Step>,
        caller_between: SystemCaller<ChainSpec>,
        between: Seq<Request>,
        withdrawn: Result<(), BlockExecutionError>,
    |
        {
            &&& steps == #[trigger] (first + second)
            &&& #[trigger] asked::<T, P>(
                true,
                contracts.withdrawal_requests,
                WITHDRAWAL_REQUEST_TYPE,
                parser,
                first,
                caller,
                caller_between,
                before,
                between,
                withdrawn,
            )
            &&& match withdrawn {
                Ok(_) => asked::<T, P>(
                    true,
                    contracts.consolidation_requests,
                    CONSOLIDATION_REQUEST_TYPE,
                    parser,
                    second,
                    caller_between,
                    caller_after,
                    between,
                    after,
                    r,
                ),
                Err(_) => {
                    &&& second.len() == 0
                    &&& caller_after == caller_between
                    &&& after == between
                    &&& r == withdrawn
                },
            }
        };
    assert(withdrawn is Ok);
    assert(first.len() == 2 && second.len() == 2);
    assert(steps[0] == first[0] && steps[1] == first[1]);
    assert(steps[2] == second[0] && steps[3] == second[1]);
    assert forall|i: int| 0 <= i < before.len() implies #[trigger] after[i] == before[i] by {
        assert(between[i] == before[i]);
    }
}

/// The deposits that the receipts of a block tell of are the first request, of type 0, if there are any.
pub proof fn law_deposits_come_first<E, R: ReceiptBuilder, P: RequestParser<R::Receipt>>(
    executor: EthBlockExecutor<E, R>,
    block: BlockEnv,
    parser: P,
    requests: Seq<Request>,
)
    requires
        deposited::<E, R, P>(executor, block, parser, Ok(requests)),
    ensures
        !collects_requests(executor.caller().rules(), block) ==> requests.len() == 0,
        requests.len() <= 1,
        collects_requests(executor.caller().rules(), block) ==> exists|
            receipts: Vec<R::Receipt>,
            data: Vec<u8>,
        |
            {
                &&& receipts@ == executor.made_receipts()
                &&& #[trigger] call_ensures(
                    P::parse_deposits,
                    (&parser, &receipts),
                    Ok::<Vec<u8>, String>(data),
                )
                &&& requests.len() == 0 <==> data@.len() == 0
                &&& requests.len() == 1 ==> requests[0].request_type == 0 && requests[0].data
                    == data
            },
{
    if collects_requests(executor.caller().rules(), block) {
        let (receipts, parsed) = choose|
            receipts: Vec<R::Receipt>,
            parsed: Result<Vec<u8>, String>,
        |
            {
                &&& receipts@ == executor.made_receipts()
                &&& #[trigger] call_ensures(P::parse_deposits, (&parser, &receipts), parsed)
                &&& match parsed {
                    Ok(data) => requests == if data@.len() == 0 {
                        Seq::<Request>::empty()
                    } else {
                        seq![
                            Request {
                                request_type: DEPOSIT_REQUEST_TYPE,
                                data,
                            },
                        ]
                    },
                    Err(e) => false,
                }
            };
        assert(call_ensures(
            P::parse_deposits,
            (&parser, &receipts),
            Ok::<Vec<u8>, String>(parsed->Ok_0),
        ));
    }
}

/// Balances grow by exactly the amounts, in one step, and where there are none no step is taken.
pub proof fn law_amounts_are_paid_at_once(
    amounts: Map<Address, int>,
    steps: Seq<Step>,
    r: Result<(), BlockExecutionError>,
)
    requires
        paid(amounts, steps, r),
    ensures
        amounts.dom() == Set::<Address>::empty() ==> steps.len() == 0 && r is Ok,
        amounts.dom() != Set::<Address>::empty() ==> steps.len() == 1 && steps[0] is Grow && lists(
            steps[0]->list@,
            amounts,
        ) && (r is Ok <==> steps[0]->Grow_outcome is Ok),
        forall|a: Address| #[trigger]
            amounts.contains_key(a) ==> exists|i: int|
                0 <= i < steps[0]->list@.len() && (#[trigger] steps[0]->list@[i]).0 == a
                    && steps[0]->list@[i].1 == amounts[a],
{
    if amounts.dom() == Set::<Address>::empty() {
        assert(amounts =~= Map::<Address, int>::empty());
    }
    assert(Map::<Address, int>::empty().dom() =~= Set::<Address>::empty());
    assert forall|a: Address| #[trigger] amounts.contains_key(a) implies exists|i: int|
        0 <= i < steps[0]->list@.len() && (#[trigger] steps[0]->list@[i]).0 == a
            && steps[0]->list@[i].1 == amounts[a] by {
        let list = steps[0]->list@;
        let i = choose|i: int| holds_at(list, a, i);
        assert(list[i].0 == a);
    }
}

/// An observer is told once, at the end and by the system, of the accounts whose balances grow: of one for
/// each amount that is not zero, with the amount added to what was loaded of it.
pub proof fn law_grown_balances_are_told_of(
    caller: SystemCaller<ChainSpec>,
    amounts: Map<Address, int>,
    steps: Seq<Step>,
    changes: Seq<StateChange>,
)
    requires
        reported(caller, amounts, steps, Ok(changes)),
    ensures
        !caller.observed() ==> steps.len() == 0 && changes == caller.pending(),
        caller.observed() ==> {
            &&& changes.len() == caller.pending().len() + 1
            &&& forall|i: int|
                0 <= i < caller.pending().len() ==> #[trigger] changes[i] == caller.pending()[i]
            &&& changes.last().source == StateChangeSource::System
            &&& changes.last().state@.len() == steps.len()
            &&& forall|i: int|
                0 <= i < steps.len() ==> (#[trigger] steps[i]) is Load && steps[i]->Load_outcome
                    is Ok && changes.last().state@[i].address == steps[i]->address
                    && amounts.contains_key(steps[i]->address) && amounts[steps[i]->address] != 0
                    && is_incremented(
                    changes.last().state@[i],
                    steps[i]->address,
                    steps[i]->Load_outcome->Ok_0,
                    amounts[steps[i]->address] as u128,
                )
        },
{
    if caller.observed() {
        let list = choose|list: Seq<(Address, u128)>|
            {
                &&& lists_nonzero(list, amounts)
                &&& #[trigger] loads(list, steps)
                &&& steps.len() == list.len()
                &&& steps.len() > 0 ==> (steps.last() matches Step::Load { address, outcome }
                    && outcome is Ok)
                &&& changes.len() == caller.pending().len() + 1
                &&& changes.drop_last() == caller.pending()
                &&& changes.last().source == StateChangeSource::System
                &&& grown_from(changes.last().state@, list, loaded(steps))
            };
        assert forall|i: int| 0 <= i < caller.pending().len() implies #[trigger] changes[i]
            == caller.pending()[i] by {
            assert(changes.drop_last()[i] == changes[i]);
        }
        assert forall|i: int| 0 <= i < steps.len() implies (#[trigger] steps[i]) is Load
            && steps[i]->Load_outcome is Ok && changes.last().state@[i].address
            == steps[i]->address && amounts.contains_key(steps[i]->address)
            && amounts[steps[i]->address] != 0 && is_incremented(
            changes.last().state@[i],
            steps[i]->address,
            steps[i]->Load_outcome->Ok_0,
            amounts[steps[i]->address] as u128,
        ) by {
            assert(steps[i] is Load);
            assert(list[i].0 == steps[i]->address);
            if i == steps.len() - 1 {
                assert(steps[i] == steps.last());
            }
            assert(loaded(steps)[i] == steps[i]->Load_outcome->Ok_0);
            assert(is_incremented(
                changes.last().state@[i],
                list[i].0,
                loaded(steps)[i],
                list[i].1,
            ));
        }
    }
}

/// The accounts of the DAO are drained at its fork alone, in one step, and what they had is added to what is
/// due; else what is due is paid.
pub proof fn law_the_dao_is_drained_at_its_fork<E, R: ReceiptBuilder>(
    executor: EthBlockExecutor<E, R>,
    rules: BlockRules,
    block: BlockEnv,
    steps: Seq<Step>,
    amounts: Map<Address, int>,
)
    requires
        drained(executor, rules, block, steps, Ok(amounts)),
    ensures
        !drains_dao_at(executor.caller().rules(), block)
            ==> steps.len() == 0 && amounts == due(executor, block),
        drains_dao_at(executor.caller().rules(), block) ==> {
            &&& steps.len() == 1
            &&& steps[0] is Drain
            &&& steps[0]->accounts == rules.dao_accounts
            &&& steps[0]->Drain_outcome is Ok
            &&& amounts == with_drained(
                due(executor, block),
                rules.dao_beneficiary,
                (steps[0]->Drain_outcome->Ok_0)@,
            )
        },
{
}

/// A block that was executed has run all of its transactions, in order and each kept before the next: after
/// its opening steps come two steps for each transaction, and its end comes after them. It has a
/// receipt for each.
pub proof fn law_executed_blocks_run_every_transaction<
    E,
    R: ReceiptBuilder,
    P: RequestParser<R::Receipt>,
>(
    executor: EthBlockExecutor<E, R>,
    rules: BlockRules,
    block: BlockEnv,
    parser: P,
    txs: Seq<(TxEnv, Recovered<TransactionSigned>)>,
    steps: Seq<Step>,
    done: BlockExecutionResult<R::Receipt>,
    changes: Seq<StateChange>,
)
    requires
        executed::<E, R, P>(executor, rules, block, parser, txs, steps, Ok(done), changes),
    ensures
        done.receipts@.len() == executor.made_receipts().len() + txs.len(),
        exists|at: int, dones: Seq<ResultAndState>|
            {
                &&& 1 <= at
                &&& at + 2 * txs.len() <= steps.len()
                &&& #[trigger] is_run_at(steps, at, txs, dones)
            },
{
    let run = choose|run: BlockRun<E, R>|
        steps == run.steps(txs) && #[trigger] run.ends::<P>(
            executor,
            rules,
            block,
            parser,
            txs,
            Ok(done),
            changes,
        );
    assert(run.opened is Ok);
    assert(run.dones.len() == txs.len());
    law_blocks_open_in_order(
        executor.context(),
        rules.contracts,
        block,
        run.opening,
        executor.caller(),
        run.begun,
        run.opened,
    );
    let at = run.opening.len() as int;
    let middle = run_steps(txs, run.dones);
    if txs.len() > 0 {
        law_transactions_run_one_after_the_other(txs, run.dones, 0);
    } else {
        assert(middle =~= Seq::empty());
    }
    assert forall|i: int| 0 <= i < txs.len() implies #[trigger] is_run_of(
        steps,
        at,
        txs,
        run.dones,
        i,
    ) by {
        law_transactions_run_one_after_the_other(txs, run.dones, i);
        assert(steps[at + 2 * i] == middle[2 * i]);
        assert(steps[at + 2 * i + 1] == middle[2 * i + 1]);
    }
    assert(is_run_at(steps, at, txs, run.dones));
}

/// Whether the steps from the position on run all transactions, each kept before the next.
pub open spec fn is_run_at(
    steps: Seq<Step>,
    at: int,
    txs: Seq<(TxEnv, Recovered<TransactionSigned>)>,
    dones: Seq<ResultAndState>,
) -> bool {
    &&& dones.len() == txs.len()
    &&& forall|i: int| 0 <= i < txs.len() ==> #[trigger] is_run_of(steps, at, txs, dones, i)
}

/// Whether the steps of a transaction run it and keep what it changed.
pub open spec fn is_run_of(
    steps: Seq<Step>,
    at: int,
    txs: Seq<(TxEnv, Recovered<TransactionSigned>)>,
    dones: Seq<ResultAndState>,
    i: int,
) -> bool {
    &&& steps[at + 2 * i] == (Step::Run { tx: txs[i].0, outcome: Ok(dones[i]) })
    &&& steps[at + 2 * i + 1] == (Step::Keep { state: dones[i].state })
}

/// The end of a block takes its steps in order: requests, what is drained, what is paid, and what is loaded
/// to be told of.
pub proof fn law_blocks_close_in_order<E, R: ReceiptBuilder, P: RequestParser<R::Receipt>>(
    executor: EthBlockExecutor<E, R>,
    rules: BlockRules,
    block: BlockEnv,
    parser: P,
    steps: Seq<Step>,
    requests: Seq<Request>,
    changes: Seq<StateChange>,
)
    requires
        closed::<E, R, P>(executor, rules, block, parser, steps, Ok(requests), changes),
    ensures
        exists|
            first: Seq<Request>,
            asking: Seq<Step>,
            between: SystemCaller<ChainSpec>,
            draining: Seq<Step>,
            amounts: Map<Address, int>,
            paying: Seq<Step>,
            loading: Seq<Step>,
            collected: Result<(), BlockExecutionError>,
            grown: Result<(), BlockExecutionError>,
        |
            {
                &&& steps == #[trigger] (asking + draining + paying + loading)
                &&& deposited::<E, R, P>(executor, block, parser, Ok(first))
                &&& #[trigger] gathered::<R::Receipt, P>(
                    collects_requests(executor.caller().rules(), block),
                    rules.contracts,
                    parser,
                    asking,
                    executor.caller(),
                    between,
                    first,
                    requests,
                    collected,
                )
                &&& collected is Ok
                &&& #[trigger] drained(executor, rules, block, draining, Ok(amounts))
                &&& #[trigger] paid(amounts, paying, grown)
                &&& grown is Ok
                &&& reported(between, amounts, loading, Ok(changes))
            },
{
    let c = choose|c: Closing|
        steps == c.steps() && #[trigger] c.ends::<E, R, P>(
            executor,
            rules,
            block,
            parser,
            Ok(requests),
            changes,
        );
    assert(steps == c.asking + c.draining + c.paying + c.loading);
    assert(c.opened is Ok && c.asked is Ok && c.amounts is Ok && c.paid is Ok);
    let first = c.opened->Ok_0;
    let amounts = c.amounts->Ok_0;
    assert(c.opened == Ok::<_, BlockExecutionError>(first));
    assert(c.amounts == Ok::<_, BlockExecutionError>(amounts));
    assert(c.requests == requests);
    assert(gathered::<R::Receipt, P>(
        collects_requests(executor.caller().rules(), block),
        rules.contracts,
        parser,
        c.asking,
        executor.caller(),
        c.told,
        first,
        requests,
        c.asked,
    ));
    assert(drained(executor, rules, block, c.draining, Ok(amounts)));
    assert(paid(amounts, c.paying, c.paid));
    assert(reported(c.told, amounts, c.loading, Ok(changes)));
}

/// A transaction that is committed has the last receipt and is told of under the number of receipts before
/// it, with what it changed; its gas and its blob gas are counted.
pub proof fn law_commits_are_told_of<E, R: ReceiptBuilder, T>(
    before: EthBlockExecutor<E, R>,
    output: EthTxResult<T>,
    after: EthBlockExecutor<E, R>,
)
    requires
        booked(before, output, after),
        before.made_receipts().len() <= usize::MAX,
    ensures
        after.made_receipts().len() == before.made_receipts().len() + 1,
        forall|i: int|
            0 <= i < before.made_receipts().len() ==> #[trigger] after.made_receipts()[i]
                == before.made_receipts()[i],
        before.gas() + output.result.result.gas_used <= u64::MAX ==> after.gas() == before.gas()
            + output.result.result.gas_used,
        before.blob_gas() + output.blob_gas_used <= u64::MAX ==> after.blob_gas()
            == before.blob_gas() + output.blob_gas_used,
        after.context() == before.context(),
        after.caller().rules() == before.caller().rules(),
        after.caller().observed() == before.caller().observed(),
        !before.caller().observed() ==> after.caller().pending() == before.caller().pending(),
        before.caller().observed() ==> {
            let now = after.caller().pending();
            &&& now.len() == before.caller().pending().len() + 1
            &&& now.last().state == output.result.state
            &&& now.last().source matches StateChangeSource::Transaction(at) && at
                == before.made_receipts().len()
        },
{
    assert forall|i: int| 0 <= i < before.made_receipts().len() implies
        #[trigger] after.made_receipts()[i] == before.made_receipts()[i] by {
        assert(after.made_receipts().drop_last()[i] == after.made_receipts()[i]);
    }
}

/// An executor of a block that exists has the machine, the parent, the beacon root, the ommers, the
/// withdrawals and the rules of the block, and has executed nothing yet.
pub proof fn law_executors_start_with_their_block<E, X>(
    executor: EthBlockExecutor<E, RethReceiptBuilder>,
    evm: E,
    block: RecoveredBlock<X>,
    rules: ChainSpec,
    observed: bool,
)
    requires
        is_fresh(executor, evm, block, rules, observed),
    ensures
        executor.machine() == evm,
        executor.context().parent_hash == block.header.parent_hash,
        executor.context().parent_beacon_block_root == block.header.parent_beacon_block_root,
        executor.context().ommers == block.ommers,
        executor.context().withdrawals == block.withdrawals,
        executor.context().extra_data == block.header.extra_data,
        executor.caller().rules() == rules,
        executor.caller().observed() == observed,
        executor.caller().pending().len() == 0,
        executor.made_receipts().len() == 0,
        executor.gas() == 0,
        executor.blob_gas() == 0,
{
}

} // verus!
