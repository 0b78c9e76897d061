//! Calls that the protocol itself makes around the transactions of a block.

use crate::evm::chain_spec::{reached, ChainSpec};
use crate::evm::env::BlockEnv;
use crate::evm::machine::{Evm, RequestParser};
use crate::evm::steps::{
    is_path, is_step, lemma_no_step, lemma_one_step, lemma_paths_join, takes, Step,
};
use crate::parallel::state::{ExecutionResult, StateAccount};
use crate::primitives::{clamp, Address, B256};
use std::sync::Arc;
use vstd::prelude::*;

verus! {

/// The accounts that an execution has changed.
pub type EvmState = Arc<Vec<StateAccount>>;

/// How an execution ended, and what it changed.
#[derive(Clone, Debug)]
pub struct ResultAndState {
    pub result: ExecutionResult,
    pub state: EvmState,
}

/// Why a block cannot be executed.
#[derive(Clone, PartialEq, Eq, Debug)]
pub enum BlockExecutionError {
    /// A transaction may use more gas than the block has left.
    TransactionGasLimitMoreThanAvailableBlockGas {
        transaction_gas_limit: u64,
        block_available_gas: u64,
    },
    /// The virtual machine failed, with its message.
    Evm(String),
    /// Anything else, with its message.
    Other(String),
}

/// Where a change of the state comes from.
#[derive(Clone, Copy, PartialEq, Eq, Structural, Debug)]
pub enum StateChangeSource {
    /// The transaction with the given position in the block.
    Transaction(usize),
    System,
}

/// A change of the state that an observer is told of.
#[derive(Clone, Debug)]
pub struct StateChange {
    pub source: StateChangeSource,
    pub state: EvmState,
}

/// A call by the protocol.
#[derive(Clone, PartialEq, Eq, Debug)]
pub struct SystemCall {
    pub caller: Address,
    pub contract: Address,
    pub data: Vec<u8>,
}

/// The caller of all system calls: `0xfffffffffffffffffffffffffffffffffffffffe`.
pub open spec fn system_address_spec() -> Address {
    Address { hi: 0xffffffffffffffffffffffffffffffffu128, lo: 0xfffffffeu32 }
}

pub fn system_address() -> (r: Address)
    ensures
        r == system_address_spec(),
{
    Address { hi: 0xffffffffffffffffffffffffffffffffu128, lo: 0xfffffffeu32 }
}

/// The contracts that the protocol calls.
#[derive(Clone, Copy, PartialEq, Eq, Structural, Debug)]
pub struct SystemContracts {
    pub history_storage: Address,
    pub beacon_roots: Address,
    pub withdrawal_requests: Address,
    pub consolidation_requests: Address,
}

impl SystemContracts {
    /// Block hashes go to `0x0000f90827f1c53a10cb7a3a0b9cf48b2ee53d6d`, beacon roots to
    /// `0x000f3df6d732807ef1f25338d7bfb72e35e395a7`.
    pub fn with_requests(withdrawal_requests: Address, consolidation_requests: Address) -> (r: Self)
        ensures
            r.history_storage == (Address {
                hi: 0x0000f90827f1c53a10cb7a3a0b9cf48bu128,
                lo: 0x2ee53d6du32,
            }),
            r.beacon_roots == (Address {
                hi: 0x000f3df6d732807ef1f25338d7bfb72eu128,
                lo: 0x35e395a7u32,
            }),
            r.withdrawal_requests == withdrawal_requests,
            r.consolidation_requests == consolidation_requests,
    {
        SystemContracts {
            history_storage: Address {
                hi: 0x0000f90827f1c53a10cb7a3a0b9cf48bu128,
                lo: 0x2ee53d6du32,
            },
            beacon_roots: Address {
                hi: 0x000f3df6d732807ef1f25338d7bfb72eu128,
                lo: 0x35e395a7u32,
            },
            withdrawal_requests,
            consolidation_requests,
        }
    }
}

/// Whether a block stores the hash of its parent: from Prague on, and not for the first block.
pub open spec fn stores_parent_hash(spec: ChainSpec, block: BlockEnv) -> bool {
    reached(spec.prague_time, clamp(block.timestamp@, 0, u64::MAX as int) as u64)
        && block.number@ != 0
}

/// Whether a block stores a beacon root: from Cancun on.
pub open spec fn stores_beacon_root(spec: ChainSpec, block: BlockEnv) -> bool {
    reached(spec.cancun_time, clamp(block.timestamp@, 0, u64::MAX as int) as u64)
}

/// Whether a block collects requests: from Prague on.
pub open spec fn collects_requests(spec: ChainSpec, block: BlockEnv) -> bool {
    reached(spec.prague_time, clamp(block.timestamp@, 0, u64::MAX as int) as u64)
}

/// The call that stores the hash of the parent block, if the block makes one.
pub fn transact_blockhashes_contract_call(
    spec: &ChainSpec,
    contracts: &SystemContracts,
    parent_block_hash: B256,
    block: &BlockEnv,
) -> (r: Option<SystemCall>)
    ensures
        match r {
            Some(call) => {
                &&& stores_parent_hash(*spec, *block)
                &&& is_system_call(call, contracts.history_storage, parent_block_hash.bytes())
            },
            None => !stores_parent_hash(*spec, *block),
        },
{
    let timestamp: u64 = block.timestamp.saturating_to_u64();
    if !spec.is_prague_active_at_timestamp(timestamp) || block.number.is_zero() {
        return None;
    }
    Some(
        SystemCall {
            caller: system_address(),
            contract: contracts.history_storage,
            data: parent_block_hash.to_bytes(),
        },
    )
}

/// The call that stores the root of the parent beacon block, if the block makes one: it needs the
/// root.
pub fn transact_beacon_root_contract_call(
    spec: &ChainSpec,
    contracts: &SystemContracts,
    parent_beacon_block_root: Option<B256>,
    block: &BlockEnv,
) -> (r: Option<SystemCall>)
    ensures
        match r {
            Some(call) => {
                &&& stores_beacon_root(*spec, *block)
                &&& parent_beacon_block_root matches Some(root) && is_system_call(
                    call,
                    contracts.beacon_roots,
                    root.bytes(),
                )
            },
            None => !stores_beacon_root(*spec, *block) || parent_beacon_block_root is None,
        },
{
    let timestamp: u64 = block.timestamp.saturating_to_u64();
    if !spec.is_cancun_active_at_timestamp(timestamp) {
        return None;
    }
    match parent_beacon_block_root {
        Some(root) => Some(
            SystemCall {
                caller: system_address(),
                contract: contracts.beacon_roots,
                data: root.to_bytes(),
            },
        ),
        None => None,
    }
}

/// A request to the consensus layer.
#[derive(Clone, PartialEq, Eq, Debug)]
pub struct Request {
    pub request_type: u8,
    pub data: Vec<u8>,
}

pub const DEPOSIT_REQUEST_TYPE: u8 = 0;

pub const WITHDRAWAL_REQUEST_TYPE: u8 = 1;

pub const CONSOLIDATION_REQUEST_TYPE: u8 = 2;

/// Adds a request of a block.
pub fn push_request(requests: &mut Vec<Request>, request_type: u8, data: Vec<u8>)
    ensures
        final(requests)@ == old(requests)@.push(Request { request_type, data }),
{
    requests.push(Request { request_type, data });
}

/// What the observer has still to be told after a change, if there is one.
pub open spec fn told<Spec>(
    caller: SystemCaller<Spec>,
    source: StateChangeSource,
    state: EvmState,
) -> Seq<StateChange> {
    if caller.observed() {
        caller.pending().push(StateChange { source, state })
    } else {
        caller.pending()
    }
}

/// Whether the call is one of the protocol to the contract with the data.
pub open spec fn is_system_call(call: SystemCall, contract: Address, data: Seq<u8>) -> bool {
    &&& call.caller == system_address_spec()
    &&& call.contract == contract
    &&& call.data@ == data
}

/// Makes the calls of the protocol, and collects the changes that an observer is to be told of.
pub struct SystemCaller<Spec> {
    spec: Spec,
    hooked: bool,
    changes: Vec<StateChange>,
}

impl<Spec> SystemCaller<Spec> {
    pub closed spec fn rules(self) -> Spec {
        self.spec
    }

    /// Whether there is an observer.
    pub closed spec fn observed(self) -> bool {
        self.hooked
    }

    /// The changes that the observer has not been told of yet.
    pub closed spec fn pending(self) -> Seq<StateChange> {
        self.changes@
    }

    /// Without an observer.
    pub fn new(spec: Spec) -> (r: Self)
        ensures
            r.rules() == spec,
            !r.observed(),
            r.pending() == Seq::<StateChange>::empty(),
    {
        let r = SystemCaller { spec, hooked: false, changes: Vec::new() };
        assert(r.pending() =~= Seq::<StateChange>::empty());
        r
    }

    pub fn spec(&self) -> (r: &Spec)
        ensures
            *r == self.rules(),
    {
        &self.spec
    }

    pub fn is_observed(&self) -> (r: bool)
        ensures
            r == self.observed(),
    {
        self.hooked
    }

    /// Sets whether there is an observer.
    pub fn with_state_hook(&mut self, hooked: bool)
        ensures
            final(self).rules() == old(self).rules(),
            final(self).observed() == hooked,
            final(self).pending() == old(self).pending(),
    {
        self.hooked = hooked;
    }

    /// Tells the observer, if there is one, of a change.
    pub fn on_state(&mut self, source: StateChangeSource, state: &EvmState)
        ensures
            final(self).rules() == old(self).rules(),
            final(self).observed() == old(self).observed(),
            final(self).pending() == told(*old(self), source, *state),
    {
        if self.hooked {
            self.changes.push(StateChange { source, state: state.clone() });
        }
    }

    /// Tells the observer, if there is one, of a change by the system that is worked out only then.
    pub fn try_on_state_with<E, F: FnOnce() -> Result<EvmState, E>>(&mut self, f: F) -> (r: Result<
        (),
        E,
    >)
        requires
            old(self).observed() ==> f.requires(()),
        ensures
            final(self).rules() == old(self).rules(),
            final(self).observed() == old(self).observed(),
            !old(self).observed() ==> r is Ok && final(self).pending() == old(self).pending(),
            old(self).observed() ==> exists|worked: Result<EvmState, E>| #[trigger]
                f.ensures((), worked) && match worked {
                    Ok(state) => r is Ok && final(self).pending() == old(self).pending().push(
                        StateChange { source: StateChangeSource::System, state },
                    ),
                    Err(e) => r == Err::<(), E>(e) && final(self).pending() == old(self).pending(),
                },
    {
        if self.hooked {
            let worked = f();
            match worked {
                Ok(state) => {
                    self.changes.push(StateChange { source: StateChangeSource::System, state });
                },
                Err(e) => {
                    return Err(e);
                },
            }
        }
        Ok(())
    }

    /// Hands out the changes that the observer has not been told of yet.
    pub fn take_changes(&mut self) -> (r: Vec<StateChange>)
        ensures
            r@ == old(self).pending(),
            final(self).pending() == Seq::<StateChange>::empty(),
            final(self).rules() == old(self).rules(),
            final(self).observed() == old(self).observed(),
    {
        let mut taken = Vec::new();
        std::mem::swap(&mut taken, &mut self.changes);
        assert(self.changes@ =~= Seq::empty());
        taken
    }

    /// Takes the outcome of a call before the transactions: the observer is told, and the state is
    /// to be committed. A failure is reported under the given label.
    pub fn on_system_call(&mut self, label: &str, outcome: Result<ResultAndState, String>) -> (r:
        Result<EvmState, BlockExecutionError>)
        ensures
            final(self).rules() == old(self).rules(),
            final(self).observed() == old(self).observed(),
            match outcome {
                Ok(done) => {
                    &&& r == Ok::<_, BlockExecutionError>(done.state)
                    &&& final(self).pending() == told(
                        *old(self),
                        StateChangeSource::System,
                        done.state,
                    )
                },
                Err(e) => {
                    &&& r matches Err(BlockExecutionError::Other(message)) && message@ == label@
                        + e@
                    &&& final(self).pending() == old(self).pending()
                },
            },
    {
        match outcome {
            Ok(done) => {
                self.on_state(StateChangeSource::System, &done.state);
                Ok(done.state)
            },
            Err(e) => {
                let mut message = label.to_owned();
                message.append(e.as_str());
                Err(BlockExecutionError::Other(message))
            },
        }
    }
}

/// Whether a call before the transactions comes to the result: the contract is called if that is
/// wanted, the observer is told, and what the call changed is kept. A failure is reported under the
/// label.
pub open spec fn stored(
    wanted: bool,
    contract: Address,
    data: Seq<u8>,
    label: Seq<char>,
    steps: Seq<Step>,
    before: SystemCaller<ChainSpec>,
    after: SystemCaller<ChainSpec>,
    r: Result<(), BlockExecutionError>,
) -> bool {
    if !wanted {
        steps.len() == 0 && r is Ok && after == before
    } else {
        &&& after.rules() == before.rules()
        &&& after.observed() == before.observed()
        &&& steps.len() > 0
        &&& steps[0] matches Step::Call { call, outcome } && {
            &&& is_system_call(call, contract, data)
            &&& match outcome {
                Ok(done) => {
                    &&& steps == seq![steps[0], Step::Keep { state: done.state }]
                    &&& r is Ok
                    &&& after.pending() == told(before, StateChangeSource::System, done.state)
                },
                Err(e) => {
                    &&& steps.len() == 1
                    &&& r matches Err(BlockExecutionError::Other(message)) && message@ == label + e@
                    &&& after.pending() == before.pending()
                },
            }
        }
    }
}

/// Whether a call for requests comes to the result: the contract is called if that is wanted, the
/// observer is told, what it returned is parsed and added to the requests, and what the call changed
/// is kept.
pub open spec fn asked<T, P: RequestParser<T>>(
    wanted: bool,
    contract: Address,
    request_type: u8,
    parser: P,
    steps: Seq<Step>,
    caller: SystemCaller<ChainSpec>,
    caller_after: SystemCaller<ChainSpec>,
    before: Seq<Request>,
    after: Seq<Request>,
    r: Result<(), BlockExecutionError>,
) -> bool {
    if !wanted {
        steps.len() == 0 && r is Ok && after == before && caller_after == caller
    } else {
        &&& caller_after.rules() == caller.rules()
        &&& caller_after.observed() == caller.observed()
        &&& steps.len() > 0
        &&& steps[0] matches Step::Call { call, outcome } && {
            &&& is_system_call(call, contract, Seq::empty())
            &&& match outcome {
                Ok(done) => {
                    &&& caller_after.pending() == told(
                        caller,
                        StateChangeSource::System,
                        done.state,
                    )
                    &&& exists|parsed: Result<Vec<u8>, String>|
                        {
                            &&& #[trigger] call_ensures(
                                P::parse_requests,
                                (&parser, request_type, &done.result),
                                parsed,
                            )
                            &&& match parsed {
                                Ok(data) => {
                                    &&& steps == seq![steps[0], Step::Keep { state: done.state }]
                                    &&& r is Ok
                                    &&& after == before.push(Request { request_type, data })
                                },
                                Err(e) => {
                                    &&& steps.len() == 1
                                    &&& r == Err::<(), _>(BlockExecutionError::Evm(e))
                                    &&& after == before
                                },
                            }
                        }
                },
                Err(e) => {
                    &&& caller_after.pending() == caller.pending()
                    &&& steps.len() == 1
                    &&& r == Err::<(), _>(BlockExecutionError::Evm(e))
                    &&& after == before
                },
            }
        }
    }
}

/// Whether the requests that contracts hand out were collected: withdrawals, then consolidations.
/// The first failure ends it.
pub open spec fn gathered<T, P: RequestParser<T>>(
    wanted: bool,
    contracts: SystemContracts,
    parser: P,
    steps: Seq<Step>,
    caller: SystemCaller<ChainSpec>,
    caller_after: SystemCaller<ChainSpec>,
    before: Seq<Request>,
    after: Seq<Request>,
    r: Result<(), BlockExecutionError>,
) -> bool {
    exists|
        first: Seq<Step>,
        second: Seq<Step>,
        caller_between: SystemCaller<ChainSpec>,
        between: Seq<Request>,
        withdrawn: Result<(), BlockExecutionError>,
    |
        {
            &&& steps == #[trigger] (first + second)
            &&& #[trigger] asked::<T, P>(
                wanted,
                contracts.withdrawal_requests,
                WITHDRAWAL_REQUEST_TYPE,
                parser,
                first,
                caller,
                caller_between,
                before,
                between,
                withdrawn,
            )
            &&& match withdrawn {
                Ok(_) => asked::<T, P>(
                    wanted,
                    contracts.consolidation_requests,
                    CONSOLIDATION_REQUEST_TYPE,
                    parser,
                    second,
                    caller_between,
                    caller_after,
                    between,
                    after,
                    r,
                ),
                Err(_) => {
                    &&& second.len() == 0
                    &&& caller_after == caller_between
                    &&& after == between
                    &&& r == withdrawn
                },
            }
        }
}

/// A call that succeeded, and the keeping of what it changed, are a path.
proof fn lemma_called_and_kept<E: Evm>(
    machines: Seq<E>,
    steps: Seq<Step>,
    called: Step,
    state: EvmState,
)
    requires
        machines.len() == 3,
        steps == seq![called, Step::Keep { state }],
        exists|m: &mut E|
            *m == machines[0] && *final(m) == machines[1] && #[trigger] takes(m, called),
        exists|m: &mut E|
            *m == machines[1] && *final(m) == machines[2] && #[trigger] call_ensures(
                E::commit,
                (m, state),
                (),
            ),
    ensures
        is_path(machines, steps, machines[0], machines[2]),
        forall|i: int| #[trigger]
            is_step(steps, i) ==> exists|m: &mut E|
                *m == machines[i] && *final(m) == machines[i + 1] && #[trigger] takes(m, steps[i]),
{
    let m = choose|m: &mut E|
        *m == machines[1] && *final(m) == machines[2] && #[trigger] call_ensures(
            E::commit,
            (m, state),
            (),
        );
    assert(takes(m, steps[1]));
    assert forall|i: int| #[trigger] is_step(steps, i) implies exists|m: &mut E|
        *m == machines[i] && *final(m) == machines[i + 1] && #[trigger] takes(m, steps[i]) by {
        if i == 0 {
            assert(steps[i] == called);
        } else {
            assert(i == 1);
        }
    }
}

/// A call is a step.
proof fn lemma_called<E: Evm>(
    from: E,
    call: SystemCall,
    outcome: Result<ResultAndState, String>,
    to: E,
)
    requires
        exists|m: &mut E|
            *m == from && *final(m) == to && #[trigger] call_ensures(
                E::transact_system_call,
                (m, &call),
                outcome,
            ),
    ensures
        exists|m: &mut E|
            *m == from && *final(m) == to && #[trigger] takes(m, Step::Call { call, outcome }),
{
    let m = choose|m: &mut E|
        *m == from && *final(m) == to && #[trigger] call_ensures(
            E::transact_system_call,
            (m, &call),
            outcome,
        );
    assert(takes(m, Step::Call { call, outcome }));
}

impl SystemCaller<ChainSpec> {
    /// Stores the hash of the parent block, if the block does so.
    pub fn apply_blockhashes_contract_call<E: Evm>(
        &mut self,
        contracts: &SystemContracts,
        parent_block_hash: B256,
        block: &BlockEnv,
        evm: &mut E,
    ) -> (r: Result<(), BlockExecutionError>)
        ensures
            exists|machines: Seq<E>, steps: Seq<Step>|
                {
                    &&& #[trigger] is_path(machines, steps, *old(evm), *final(evm))
                    &&& forall|i: int| #[trigger]
                        is_step(steps, i) ==> exists|m: &mut E|
                            *m == machines[i] && *final(m) == machines[i + 1] && #[trigger] takes(
                                m,
                                steps[i],
                            )
                    &&& stored(
                        stores_parent_hash(old(self).rules(), *block),
                        contracts.history_storage,
                        parent_block_hash.bytes(),
                        "EIP-2935 error: "@,
                        steps,
                        *old(self),
                        *final(self),
                        r,
                    )
                },
    {
        let ghost from = *evm;
        let call = match transact_blockhashes_contract_call(
            &self.spec,
            contracts,
            parent_block_hash,
            block,
        ) {
            Some(call) => call,
            None => {
                proof {
                    lemma_no_step(from);
                }
                return Ok(());
            },
        };
        let outcome = evm.transact_system_call(&call);
        let ghost called = Step::Call { call, outcome };
        let ghost between = *evm;
        proof {
            lemma_called(from, call, outcome, between);
            lemma_one_step(from, called, between);
        }
        match self.on_system_call("EIP-2935 error: ", outcome) {
            Ok(state) => {
                evm.commit(state);
                proof {
                    lemma_called_and_kept(
                        seq![from, between, *evm],
                        seq![called, Step::Keep { state }],
                        called,
                        state,
                    );
                }
                Ok(())
            },
            Err(e) => Err(e),
        }
    }

    /// Stores the root of the parent beacon block, if the block does so and the root is known.
    pub fn apply_beacon_root_contract_call<E: Evm>(
        &mut self,
        contracts: &SystemContracts,
        parent_beacon_block_root: Option<B256>,
        block: &BlockEnv,
        evm: &mut E,
    ) -> (r: Result<(), BlockExecutionError>)
        ensures
            exists|machines: Seq<E>, steps: Seq<Step>|
                {
                    &&& #[trigger] is_path(machines, steps, *old(evm), *final(evm))
                    &&& forall|i: int| #[trigger]
                        is_step(steps, i) ==> exists|m: &mut E|
                            *m == machines[i] && *final(m) == machines[i + 1] && #[trigger] takes(
                                m,
                                steps[i],
                            )
                    &&& stored(
                        stores_beacon_root(old(self).rules(), *block)
                            && parent_beacon_block_root is Some,
                        contracts.beacon_roots,
                        (parent_beacon_block_root->0).bytes(),
                        "EIP-4788 error: "@,
                        steps,
                        *old(self),
                        *final(self),
                        r,
                    )
                },
    {
        let ghost from = *evm;
        let call = match transact_beacon_root_contract_call(
            &self.spec,
            contracts,
            parent_beacon_block_root,
            block,
        ) {
            Some(call) => call,
            None => {
                proof {
                    lemma_no_step(from);
                }
                return Ok(());
            },
        };
        let outcome = evm.transact_system_call(&call);
        let ghost called = Step::Call { call, outcome };
        let ghost between = *evm;
        proof {
            lemma_called(from, call, outcome, between);
            lemma_one_step(from, called, between);
        }
        match self.on_system_call("EIP-4788 error: ", outcome) {
            Ok(state) => {
                evm.commit(state);
                proof {
                    lemma_called_and_kept(
                        seq![from, between, *evm],
                        seq![called, Step::Keep { state }],
                        called,
                        state,
                    );
                }
                Ok(())
            },
            Err(e) => Err(e),
        }
    }

    /// Calls a contract that hands out requests, tells the observer, and adds what it returned to the
    /// requests of the block, if the block collects requests.
    fn apply_request_contract_call<E: Evm, T, P: RequestParser<T>>(
        &mut self,
        contract: Address,
        request_type: u8,
        block: &BlockEnv,
        evm: &mut E,
        requests: &mut Vec<Request>,
        parser: &P,
    ) -> (r: Result<(), BlockExecutionError>)
        ensures
            exists|machines: Seq<E>, steps: Seq<Step>|
                {
                    &&& #[trigger] is_path(machines, steps, *old(evm), *final(evm))
                    &&& forall|i: int| #[trigger]
                        is_step(steps, i) ==> exists|m: &mut E|
                            *m == machines[i] && *final(m) == machines[i + 1] && #[trigger] takes(
                                m,
                                steps[i],
                            )
                    &&& asked::<T, P>(
                        collects_requests(old(self).rules(), *block),
                        contract,
                        request_type,
                        *parser,
                        steps,
                        *old(self),
                        *final(self),
                        old(requests)@,
                        final(requests)@,
                        r,
                    )
                },
    {
        let ghost from = *evm;
        if !self.spec.is_prague_active_at_timestamp(block.timestamp.saturating_to_u64()) {
            proof {
                lemma_no_step(from);
            }
            return Ok(());
        }
        let call = SystemCall { caller: system_address(), contract, data: Vec::new() };
        assert(call.data@ =~= Seq::empty());
        let outcome = evm.transact_system_call(&call);
        let ghost called = Step::Call { call, outcome };
        let ghost between = *evm;
        proof {
            lemma_called(from, call, outcome, between);
            lemma_one_step(from, called, between);
        }
        let done = match outcome {
            Ok(done) => done,
            Err(e) => {
                return Err(BlockExecutionError::Evm(e));
            },
        };
        self.on_state(StateChangeSource::System, &done.state);
        let data = match parser.parse_requests(request_type, &done.result) {
            Ok(data) => data,
            Err(e) => {
                return Err(BlockExecutionError::Evm(e));
            },
        };
        push_request(requests, request_type, data);
        evm.commit(done.state);
        proof {
            lemma_called_and_kept(
                seq![from, between, *evm],
                seq![called, Step::Keep { state: done.state }],
                called,
                done.state,
            );
        }
        Ok(())
    }

    /// Collects the requests of a block that contracts hand out: withdrawals, then consolidations.
    pub fn append_post_execution_changes<E: Evm, T, P: RequestParser<T>>(
        &mut self,
        contracts: &SystemContracts,
        block: &BlockEnv,
        evm: &mut E,
        requests: &mut Vec<Request>,
        parser: &P,
    ) -> (r: Result<(), BlockExecutionError>)
        ensures
            exists|machines: Seq<E>, steps: Seq<Step>|
                {
                    &&& #[trigger] is_path(machines, steps, *old(evm), *final(evm))
                    &&& forall|i: int| #[trigger]
                        is_step(steps, i) ==> exists|m: &mut E|
                            *m == machines[i] && *final(m) == machines[i + 1] && #[trigger] takes(
                                m,
                                steps[i],
                            )
                    &&& gathered::<T, P>(
                        collects_requests(old(self).rules(), *block),
                        *contracts,
                        *parser,
                        steps,
                        *old(self),
                        *final(self),
                        old(requests)@,
                        final(requests)@,
                        r,
                    )
                },
    {
        let ghost wanted = collects_requests(self.rules(), *block);
        let ghost from = *evm;
        let ghost caller = *self;
        let ghost before = requests@;
        let withdrawn = self.apply_request_contract_call(
            contracts.withdrawal_requests,
            WITHDRAWAL_REQUEST_TYPE,
            block,
            evm,
            requests,
            parser,
        );
        let ghost middle = *evm;
        let ghost caller_between = *self;
        let ghost between = requests@;
        let ghost (machines, first) = choose|machines: Seq<E>, steps: Seq<Step>|
            {
                &&& #[trigger] is_path(machines, steps, from, middle)
                &&& forall|i: int| #[trigger]
                    is_step(steps, i) ==> exists|m: &mut E|
                        *m == machines[i] && *final(m) == machines[i + 1] && #[trigger] takes(
                            m,
                            steps[i],
                        )
                &&& asked::<T, P>(
                    wanted,
                    contracts.withdrawal_requests,
                    WITHDRAWAL_REQUEST_TYPE,
                    *parser,
                    steps,
                    caller,
                    caller_between,
                    before,
                    between,
                    withdrawn,
                )
            };
        match withdrawn {
            Ok(_) => {},
            Err(e) => {
                assert(first + Seq::<Step>::empty() =~= first);
                return Err(e);
            },
        }
        let r = self.apply_request_contract_call(
            contracts.consolidation_requests,
            CONSOLIDATION_REQUEST_TYPE,
            block,
            evm,
            requests,
            parser,
        );
        let ghost to = *evm;
        let ghost caller_after = *self;
        let ghost after = requests@;
        proof {
            let (more, second) = choose|machines: Seq<E>, steps: Seq<Step>|
                {
                    &&& #[trigger] is_path(machines, steps, middle, to)
                    &&& forall|i: int| #[trigger]
                        is_step(steps, i) ==> exists|m: &mut E|
                            *m == machines[i] && *final(m) == machines[i + 1] && #[trigger] takes(
                                m,
                                steps[i],
                            )
                    &&& asked::<T, P>(
                        wanted,
                        contracts.consolidation_requests,
                        CONSOLIDATION_REQUEST_TYPE,
                        *parser,
                        steps,
                        caller_between,
                        caller_after,
                        between,
                        after,
                        r,
                    )
                };
            lemma_paths_join(machines, first, more, second, from, middle, to);
        }
        r
    }
}

} // verus!
