use private_chain::evm::assembler::{
    calc_excess_blob_gas, empty_ommer_hash, receipts_bloom, EthBlockAssembler,
};
use private_chain::evm::basic_executor::{BasicBlockExecutor, RecoveredBlock};
use private_chain::evm::block_builder::{unzip_recovered, Assembly, BasicBlockBuilder};
use private_chain::evm::block_executor::{
    BlockExecutionResult, BlockRules, CommitChanges, EthBlockExecutionCtx, EthBlockExecutor,
};
use private_chain::evm::builder::{
    EthEvm, EthEvmBuilder, EthEvmFactory, NoOpInspector, PrecompileSet, RunMode,
};
use private_chain::evm::chain_spec::ChainSpec;
use private_chain::evm::config::EthEvmConfig;
use private_chain::evm::env::{
    BlockEnv, CfgEnv, EvmEnv, Header, NextBlockEnvAttributes,
};
use private_chain::evm::machine::{Evm, RequestParser, StateRootProvider};
use private_chain::evm::receipts::{
    Receipt, ReceiptBuilder, ReceiptBuilderCtx, RethReceiptBuilder,
};
use private_chain::evm::rewards::{
    balance_increment_state, base_block_reward, block_reward, credit_drained, ommer_reward,
    post_block_balance_increments, BalanceIncrements,
};
use private_chain::evm::roots::{
    calculate_receipt_root, calculate_transaction_root, calculate_withdrawals_root,
};
use private_chain::evm::spec_id::SpecId;
use private_chain::evm::system_calls::{
    BlockExecutionError, EvmState, Request, ResultAndState, StateChangeSource, SystemCall,
    SystemCaller, SystemContracts,
};
use private_chain::evm::tx_env::{
    AccessListItem, FromRecoveredTx, Recovered, SignedAuthorization, TransactionSigned, TxEnv,
    TxPricing, TxType,
};
use private_chain::parallel::state::{ExecutionResult, Log};
use private_chain::parallel::storage::AccountInfo;
use private_chain::primitives::{keccak_empty, Address, TxKind, Withdrawal, B256, U256};
use std::sync::Arc;

fn address(n: u32) -> Address {
    Address { hi: 0, lo: n }
}

fn hash(n: u128) -> B256 {
    B256 { hi: 0, lo: n }
}

fn signed(pricing: TxPricing) -> TransactionSigned {
    TransactionSigned {
        gas_limit: 50_000,
        to: TxKind::Call(address(9)),
        value: U256::from_u64(5),
        input: vec![1, 2],
        nonce: 3,
        chain_id: Some(7),
        access_list: None,
        pricing,
        encoded: vec![0xc3, 1, 2, 3],
    }
}

fn env_of(pricing: TxPricing) -> TxEnv {
    TxEnv::from_recovered_tx(signed(pricing), address(1))
}

#[test]
fn transactions_keep_their_fields() {
    let mut tx = signed(TxPricing::Legacy { gas_price: 11 });
    let item = AccessListItem { address: address(4), storage_keys: vec![hash(1)] };
    tx.access_list = Some(vec![item.clone()]);
    let env = TxEnv::from_recovered_tx(tx, address(1));
    assert_eq!(env.caller, address(1));
    assert_eq!(env.gas_limit, 50_000);
    assert_eq!(env.kind, TxKind::Call(address(9)));
    assert_eq!(env.value, U256::from_u64(5));
    assert_eq!(env.data, vec![1, 2]);
    assert_eq!(env.nonce, 3);
    assert_eq!(env.chain_id, Some(7));
    assert_eq!(env.access_list, vec![item]);
}

#[test]
fn transactions_are_priced_by_their_type() {
    for pricing in [TxPricing::Legacy { gas_price: 11 }, TxPricing::Eip2930 { gas_price: 11 }] {
        let env = env_of(pricing);
        assert_eq!((env.gas_price, env.max_fee_per_gas), (11, 11));
        assert_eq!(env.gas_priority_fee, None);
        assert_eq!(env.access_list, Vec::new());
    }
    let env = env_of(TxPricing::Eip1559 { max_fee_per_gas: 20, max_priority_fee_per_gas: 2 });
    assert_eq!((env.gas_price, env.max_fee_per_gas), (20, 20));
    assert_eq!(env.gas_priority_fee, Some(2));
    assert_eq!(env.blob_hashes, None);
    let env = env_of(TxPricing::Eip4844 {
        max_fee_per_gas: 20,
        max_priority_fee_per_gas: 2,
        blob_versioned_hashes: vec![hash(1), hash(2)],
        max_fee_per_blob_gas: 30,
    });
    assert_eq!(env.blob_hashes, Some(vec![hash(1), hash(2)]));
    assert_eq!(env.max_fee_per_blob_gas, Some(30));
    let authorization = SignedAuthorization {
        chain_id: U256::from_u64(7),
        address: address(4),
        nonce: 1,
        y_parity: 0,
        r: U256::from_u64(1),
        s: U256::from_u64(2),
    };
    let env = env_of(TxPricing::Eip7702 {
        max_fee_per_gas: 20,
        authorization_list: vec![authorization],
    });
    assert_eq!(env.gas_price, 20);
    assert_eq!(env.gas_priority_fee, None);
    assert_eq!(env.authorization_list, Some(vec![authorization]));
}

#[test]
fn receipts_repeat_what_they_are_made_of() {
    let log = Log { address: address(2), topics: vec![hash(3)], data: vec![4] };
    let result = ExecutionResult { success: true, gas_used: 10, logs: vec![log.clone()], output: Vec::new() };
    let receipt = RethReceiptBuilder.build_receipt(ReceiptBuilderCtx {
        tx_type: TxType::Eip1559,
        result,
        cumulative_gas_used: 99,
    });
    let expected = Receipt {
        tx_type: TxType::Eip1559,
        success: true,
        cumulative_gas_used: 99,
        logs: vec![log],
    };
    assert_eq!(receipt, expected);
}

fn header(number: u64) -> Header {
    Header {
        parent_hash: hash(1),
        ommers_hash: hash(2),
        beneficiary: address(3),
        state_root: hash(4),
        transactions_root: hash(5),
        receipts_root: hash(6),
        withdrawals_root: None,
        logs_bloom: Vec::new(),
        difficulty: U256::from_u64(17),
        number,
        gas_limit: 30_000_000,
        gas_used: 0,
        timestamp: 1000,
        mix_hash: hash(7),
        nonce: 0,
        base_fee_per_gas: Some(8),
        blob_gas_used: None,
        excess_blob_gas: None,
        parent_beacon_block_root: Some(hash(9)),
        requests_hash: None,
        extra_data: vec![1],
    }
}

fn chain(prague: Option<u64>) -> ChainSpec {
    ChainSpec {
        chain_id: 7,
        spurious_dragon_block: Some(0),
        dao_fork_block: None,
        constantinople_block: Some(0),
        paris_block: Some(0),
        shanghai_time: Some(0),
        cancun_time: prague,
        prague_time: prague,
    }
}

#[test]
fn environments_of_blocks() {
    let config = EthEvmConfig::new(Arc::new(chain(None)));
    let env = config.evm_env(&header(5), SpecId::Merge, None);
    assert_eq!(env.cfg_env, CfgEnv { spec: SpecId::Merge, chain_id: 7 });
    assert_eq!(env.block_env.number, U256::from_u64(5));
    assert_eq!(env.block_env.difficulty, U256::zero());
    assert_eq!(env.block_env.prevrandao, Some(hash(7)));
    assert_eq!(env.block_env.basefee, 8);
    let env = config.evm_env(&header(5), SpecId::London, None);
    assert_eq!(env.block_env.difficulty, U256::from_u64(17));
    assert_eq!(env.block_env.prevrandao, None);
}

#[test]
fn environments_of_next_blocks() {
    let config = EthEvmConfig::ethereum(Arc::new(chain(None)));
    let attributes = NextBlockEnvAttributes {
        timestamp: 2000,
        suggested_fee_recipient: address(11),
        prev_randao: hash(12),
        gas_limit: 100,
        parent_beacon_block_root: Some(hash(13)),
        withdrawals: Some(Vec::new()),
        extra_data: vec![2],
    };
    let env = config.next_evm_env(&header(5), &attributes, Some(21), SpecId::Cancun, None);
    assert_eq!(env.block_env.number, U256::from_u64(6));
    assert_eq!(env.block_env.beneficiary, address(11));
    assert_eq!(env.block_env.timestamp, U256::from_u64(2000));
    assert_eq!(env.block_env.gas_limit, 100);
    assert_eq!(env.block_env.basefee, 21);
    assert_eq!(env.block_env.prevrandao, Some(hash(12)));
    let ctx = config.context_for_next_block(hash(1), attributes);
    assert_eq!(ctx.parent_hash, hash(1));
    assert_eq!(ctx.parent_beacon_block_root, Some(hash(13)));
    assert_eq!(ctx.withdrawals, Some(Vec::new()));
    assert_eq!(ctx.extra_data, vec![2]);
    assert_eq!(ctx.tx_count_hint, None);
    let ctx = config.context_for_block(header(5), 3, vec![header(4)], None);
    assert_eq!(ctx.parent_hash, hash(1));
    assert_eq!(ctx.tx_count_hint, Some(3));
    assert_eq!(ctx.ommers.len(), 1);
}

#[test]
fn rule_sets_enable_those_before() {
    assert!(SpecId::Cancun.is_enabled_in(SpecId::Shanghai));
    assert!(SpecId::Cancun.is_enabled_in(SpecId::Cancun));
    assert!(!SpecId::Cancun.is_enabled_in(SpecId::Prague));
}

/// A virtual machine that answers as it is told, and remembers what it was asked.
struct Script {
    replies: Vec<Result<ResultAndState, String>>,
    done: Vec<String>,
    balances: Vec<(Address, u128)>,
    fails: bool,
}

fn outcome(gas_used: u64) -> ResultAndState {
    let result = ExecutionResult { success: true, gas_used, logs: Vec::new(), output: vec![gas_used as u8] };
    ResultAndState { result, state: Arc::new(Vec::new()) }
}

impl Script {
    fn new(replies: Vec<Result<ResultAndState, String>>) -> Self {
        Script { replies, done: Vec::new(), balances: Vec::new(), fails: false }
    }
}

impl Evm for Script {
    fn transact(&mut self, tx: TxEnv) -> Result<ResultAndState, String> {
        self.done.push(format!("transact {}", tx.nonce));
        self.replies.remove(0)
    }

    fn transact_system_call(&mut self, call: &SystemCall) -> Result<ResultAndState, String> {
        assert_eq!(call.caller, Address { hi: u128::MAX, lo: 0xffff_fffe });
        self.done.push(format!("call {} with {} bytes", call.contract.lo, call.data.len()));
        self.replies.remove(0)
    }

    fn commit(&mut self, _state: EvmState) {
        self.done.push("commit".to_string());
    }

    fn set_state_clear_flag(&mut self, on: bool) {
        self.done.push(format!("clear {}", on));
    }

    fn drain_balances(&mut self, accounts: &Vec<Address>) -> Result<Vec<u128>, String> {
        self.done.push(format!("drain {}", accounts.len()));
        Ok(accounts.iter().map(|a| a.lo as u128).collect())
    }

    fn increment_balances(&mut self, increments: &Vec<(Address, u128)>) -> Result<(), String> {
        if self.fails {
            return Err("no disk".to_string());
        }
        self.balances = increments.clone();
        Ok(())
    }

    fn load_account(&mut self, _address: Address) -> Result<Option<AccountInfo>, String> {
        Ok(None)
    }

    fn merge_transitions(&mut self) {
        self.done.push("merge".to_string());
    }
}

/// A state whose root tells how many steps the machine has taken.
struct State {
    fails: bool,
}

impl StateRootProvider<Script> for State {
    type HashedState = usize;

    type TrieUpdates = char;

    fn hashed_post_state(&self, evm: &Script) -> usize {
        evm.done.len()
    }

    fn state_root_with_updates(&self, hashed: &usize) -> Result<(B256, char), String> {
        if self.fails { Err("no trie".to_string()) } else { Ok((hash(400 + *hashed as u128), 'u')) }
    }
}

fn environment() -> EvmEnv {
    EvmEnv { cfg_env: CfgEnv { spec: SpecId::Cancun, chain_id: 7 }, block_env: block(100) }
}

struct Parser {
    deposits: Vec<u8>,
}

impl RequestParser<Receipt> for Parser {
    fn parse_deposits(&self, _receipts: &Vec<Receipt>) -> Result<Vec<u8>, String> {
        Ok(self.deposits.clone())
    }

    fn parse_requests(&self, request_type: u8, result: &ExecutionResult) -> Result<Vec<u8>, String> {
        Ok([vec![request_type], result.output.clone()].concat())
    }
}

fn context(withdrawals: Option<Vec<Withdrawal>>) -> EthBlockExecutionCtx {
    EthBlockExecutionCtx {
        parent_hash: hash(1),
        parent_beacon_block_root: Some(hash(2)),
        ommers: Vec::new(),
        withdrawals,
        extra_data: Vec::new(),
        tx_count_hint: None,
    }
}

fn block(gas_limit: u64) -> BlockEnv {
    BlockEnv {
        number: U256::from_u64(10),
        beneficiary: address(3),
        timestamp: U256::from_u64(1000),
        gas_limit,
        basefee: 0,
        difficulty: U256::zero(),
        prevrandao: None,
        blob_excess_gas_and_price: None,
    }
}

fn contracts() -> SystemContracts {
    SystemContracts {
        history_storage: address(101),
        beacon_roots: address(102),
        withdrawal_requests: address(103),
        consolidation_requests: address(104),
    }
}

fn rules() -> BlockRules {
    BlockRules {
        contracts: contracts(),
        dao_accounts: vec![address(40), address(2)],
        dao_beneficiary: address(50),
    }
}

fn executor(
    script: Script,
    spec: ChainSpec,
    ctx: EthBlockExecutionCtx,
) -> EthBlockExecutor<Script, RethReceiptBuilder> {
    EthBlockExecutor::new(script, ctx, spec, RethReceiptBuilder)
}

fn executable(gas_limit: u64, nonce: u64) -> (TxEnv, Recovered<TransactionSigned>) {
    let mut tx = signed(TxPricing::Legacy { gas_price: 1 });
    tx.gas_limit = gas_limit;
    tx.nonce = nonce;
    let env = TxEnv::from_recovered_tx(tx.clone(), address(1));
    (env, Recovered { tx, signer: address(1) })
}

#[test]
fn protocol_contracts_have_fixed_addresses() {
    let known = SystemContracts::with_requests(address(1), address(2));
    let history = Address { hi: 0x0000f90827f1c53a10cb7a3a0b9cf48b, lo: 0x2ee53d6d };
    let roots = Address { hi: 0x000f3df6d732807ef1f25338d7bfb72e, lo: 0x35e395a7 };
    assert_eq!(known.history_storage, history);
    assert_eq!(known.beacon_roots, roots);
    assert_eq!(known.withdrawal_requests, address(1));
    assert_eq!(known.consolidation_requests, address(2));
}

#[test]
fn before_prague_a_block_makes_no_calls() {
    let script = Script::new(Vec::new());
    let mut executor = executor(script, chain(None), context(None));
    assert_eq!(executor.apply_pre_execution_changes(&contracts(), &block(100)), Ok(()));
    assert_eq!(executor.evm().done, vec!["clear true"]);
}

#[test]
fn from_prague_on_a_block_stores_hashes() {
    let script = Script::new(vec![Ok(outcome(0)), Ok(outcome(0))]);
    let mut executor = executor(script, chain(Some(1000)), context(None));
    executor.set_state_hook(true);
    assert_eq!(executor.apply_pre_execution_changes(&contracts(), &block(100)), Ok(()));
    let expected =
        vec!["clear true", "call 101 with 32 bytes", "commit", "call 102 with 32 bytes", "commit"];
    assert_eq!(executor.evm().done, expected);
    let told: Vec<StateChangeSource> =
        executor.take_changes().iter().map(|change| change.source).collect();
    assert_eq!(told, vec![StateChangeSource::System, StateChangeSource::System]);
    assert!(executor.take_changes().is_empty());
}

#[test]
fn failed_calls_are_labelled() {
    let script = Script::new(vec![Err("boom".to_string())]);
    let mut first = executor(script, chain(Some(0)), context(None));
    let e = first.apply_pre_execution_changes(&contracts(), &block(100));
    assert_eq!(e, Err(BlockExecutionError::Other("EIP-2935 error: boom".to_string())));
    let script = Script::new(vec![Ok(outcome(0)), Err("boom".to_string())]);
    let mut second = executor(script, chain(Some(0)), context(None));
    let e = second.apply_pre_execution_changes(&contracts(), &block(100));
    assert_eq!(e, Err(BlockExecutionError::Other("EIP-4788 error: boom".to_string())));
}

#[test]
fn transactions_count_their_gas() {
    let script = Script::new(vec![Ok(outcome(30)), Ok(outcome(25))]);
    let mut executor = executor(script, chain(None), context(None));
    assert_eq!(executor.execute_transaction(&block(100), executable(60, 0)), Ok(30));
    assert_eq!(executor.execute_transaction(&block(100), executable(70, 1)), Ok(25));
    let gas: Vec<u64> = executor.receipts().iter().map(|r| r.cumulative_gas_used).collect();
    assert_eq!(gas, vec![30, 55]);
    let refused = executor.execute_transaction(&block(100), executable(46, 2));
    let expected = BlockExecutionError::TransactionGasLimitMoreThanAvailableBlockGas {
        transaction_gas_limit: 46,
        block_available_gas: 45,
    };
    assert_eq!(refused, Err(expected));
    assert_eq!(executor.evm().done, vec!["transact 0", "commit", "transact 1", "commit"]);
}

#[test]
fn transactions_that_are_not_committed_leave_nothing() {
    let script = Script::new(vec![Ok(outcome(30)), Err("bad nonce".to_string())]);
    let mut executor = executor(script, chain(None), context(None));
    let keep_small = |result: &ExecutionResult| {
        if result.gas_used < 10 { CommitChanges::Yes } else { CommitChanges::No }
    };
    let block = block(100);
    let outcome =
        executor.execute_transaction_with_commit_condition(&block, executable(60, 0), keep_small);
    assert_eq!(outcome, Ok(None));
    assert!(executor.receipts().is_empty());
    let failed = executor.execute_transaction(&block, executable(60, 1));
    assert_eq!(failed, Err(BlockExecutionError::Evm("bad nonce".to_string())));
    assert_eq!(executor.evm().done, vec!["transact 0", "transact 1"]);
}

#[test]
fn a_whole_block_before_prague() {
    let withdrawals = vec![
        Withdrawal { index: 0, validator_index: 0, address: address(70), amount: 3 },
        Withdrawal { index: 1, validator_index: 0, address: address(71), amount: 0 },
        Withdrawal { index: 2, validator_index: 0, address: address(70), amount: 4 },
    ];
    let script = Script::new(vec![Ok(outcome(30)), Ok(outcome(25))]);
    let executor = executor(script, chain(None), context(Some(withdrawals)));
    let txs = vec![executable(50, 0), executable(50, 1)];
    let parser = Parser { deposits: vec![1] };
    let (done, changes) = executor.execute_block(&rules(), &block(100), &parser, txs);
    let (evm, done) = done.ok().unwrap();
    assert_eq!(evm.balances, vec![(address(70), 7_000_000_000)]);
    assert!(changes.is_empty());
    assert_eq!(done.gas_used, 55);
    assert_eq!(done.blob_gas_used, 0);
    assert_eq!(done.requests, Vec::new());
    let gas: Vec<u64> = done.receipts.iter().map(|r| r.cumulative_gas_used).collect();
    assert_eq!(gas, vec![30, 55]);
}

#[test]
fn results_are_shown_before_they_are_committed() {
    let script = Script::new(vec![Ok(outcome(30))]);
    let mut executor = executor(script, chain(None), context(None));
    let mut shown = 0;
    let show = |result: &ExecutionResult| shown = result.gas_used;
    let done =
        executor.execute_transaction_with_result_closure(&block(100), executable(60, 0), show);
    assert_eq!(done, Ok(30));
    assert_eq!(shown, 30);
    assert_eq!(executor.evm().done, vec!["transact 0", "commit"]);
}

#[test]
fn the_next_block_gets_a_builder() {
    let config = EthEvmConfig::new(Arc::new(chain(None)));
    let attributes = NextBlockEnvAttributes {
        timestamp: 2000,
        suggested_fee_recipient: address(11),
        prev_randao: hash(12),
        gas_limit: 100,
        parent_beacon_block_root: None,
        withdrawals: Some(vec![Withdrawal {
            index: 0,
            validator_index: 0,
            address: address(70),
            amount: 2,
        }]),
        extra_data: Vec::new(),
    };
    let script = Script::new(vec![Ok(outcome(30))]);
    let mut builder = config.builder_for_next_block(script, hash(1), attributes);
    let yes = |_: &ExecutionResult| CommitChanges::Yes;
    let ran =
        builder.execute_transaction_with_commit_condition(&block(100), executable(60, 0), yes);
    assert_eq!(ran, Ok(Some(30)));
    let parser = Parser { deposits: Vec::new() };
    let assembly = Assembly {
        assembler: config.block_assembler(),
        env: &environment(),
        parent: &header(9),
        target_blob_gas: 0,
        state: &State { fails: false },
    };
    let (done, changes) = builder.finish(&rules(), &parser, &assembly);
    let done = done.ok().unwrap();
    assert!(changes.is_empty());
    assert_eq!(done.block.body.transactions.len(), 1);
    assert!(done.block.header.withdrawals_root.is_some());
    assert_eq!(done.evm.balances, vec![(address(70), 2_000_000_000)]);
}

#[test]
fn a_block_over_its_gas_fails() {
    let script = Script::new(vec![Ok(outcome(50))]);
    let executor = executor(script, chain(None), context(None));
    let txs = vec![executable(60, 0), executable(60, 1)];
    let parser = Parser { deposits: Vec::new() };
    let (failed, _) = executor.execute_block(&rules(), &block(100), &parser, txs);
    let expected = BlockExecutionError::TransactionGasLimitMoreThanAvailableBlockGas {
        transaction_gas_limit: 60,
        block_available_gas: 50,
    };
    assert_eq!(failed.err(), Some(expected));
}

#[test]
fn withdrawals_are_paid_in_wei() {
    let withdrawals = vec![
        Withdrawal { index: 0, validator_index: 0, address: address(70), amount: 3 },
        Withdrawal { index: 1, validator_index: 0, address: address(71), amount: 0 },
        Withdrawal { index: 2, validator_index: 0, address: address(70), amount: 4 },
    ];
    let executor = executor(Script::new(Vec::new()), chain(None), context(Some(withdrawals)));
    let parser = Parser { deposits: Vec::new() };
    let (evm, _) = executor.finish(&rules(), &block(100), &parser).0.ok().unwrap();
    assert_eq!(evm.balances, vec![(address(70), 7_000_000_000)]);
}

const ETHER: u128 = 1_000_000_000_000_000_000;

#[test]
fn rewards_follow_the_rules() {
    let mut spec = chain(None);
    assert_eq!(base_block_reward(&spec, 10), None);
    spec.paris_block = Some(20);
    spec.constantinople_block = Some(11);
    assert_eq!(base_block_reward(&spec, 10), Some(5 * ETHER));
    assert_eq!(base_block_reward(&spec, 11), Some(2 * ETHER));
    assert_eq!(base_block_reward(&spec, 19), Some(2 * ETHER));
    assert_eq!(base_block_reward(&spec, 20), None);
    assert_eq!(ommer_reward(2 * ETHER, 10, 9), 2 * ETHER * 7 / 8);
    assert_eq!(ommer_reward(2 * ETHER, 10, 4), 2 * ETHER / 4);
    assert_eq!(block_reward(2 * ETHER, 0), 2 * ETHER);
    assert_eq!(block_reward(2 * ETHER, 2), 2 * ETHER + ETHER / 8);
}

#[test]
fn rewards_are_paid() {
    let mut spec = chain(None);
    spec.paris_block = None;
    let mut ctx = context(None);
    let mut other = header(8);
    other.beneficiary = address(3);
    let mut ommer = header(9);
    ommer.beneficiary = address(8);
    ctx.ommers = vec![ommer, other];
    let executor = executor(Script::new(Vec::new()), spec, ctx);
    let parser = Parser { deposits: Vec::new() };
    let (evm, _) = executor.finish(&rules(), &block(100), &parser).0.ok().unwrap();
    let mut paid = evm.balances.clone();
    paid.sort_by_key(|entry| entry.0.lo);
    let miner = 2 * ETHER + ETHER / 8 + ETHER * 3 / 2;
    assert_eq!(paid, vec![(address(3), miner), (address(8), 2 * ETHER * 7 / 8)]);
}

#[test]
fn the_dao_is_drained_once() {
    let mut spec = chain(None);
    spec.dao_fork_block = Some(10);
    let first = executor(Script::new(Vec::new()), spec, context(None));
    let parser = Parser { deposits: Vec::new() };
    let (evm, _) = first.finish(&rules(), &block(100), &parser).0.ok().unwrap();
    assert_eq!(evm.done, vec!["drain 2"]);
    assert_eq!(evm.balances, vec![(address(50), 42)]);
    spec.dao_fork_block = Some(9);
    let later = executor(Script::new(Vec::new()), spec, context(None));
    let (evm, _) = later.finish(&rules(), &block(100), &parser).0.ok().unwrap();
    assert!(evm.done.is_empty() && evm.balances.is_empty());
}

#[test]
fn requests_are_collected_from_prague_on() {
    let replies = || vec![Ok(outcome(7)), Ok(outcome(8))];
    let with = executor(Script::new(replies()), chain(Some(0)), context(None));
    let parser = Parser { deposits: vec![9, 9] };
    let (evm, done) = with.finish(&rules(), &block(100), &parser).0.ok().unwrap();
    let expected = vec![
        Request { request_type: 0, data: vec![9, 9] },
        Request { request_type: 1, data: vec![1, 7] },
        Request { request_type: 2, data: vec![2, 8] },
    ];
    assert_eq!(done.requests, expected);
    let calls = vec!["call 103 with 0 bytes", "commit", "call 104 with 0 bytes", "commit"];
    assert_eq!(evm.done, calls);
    let without = executor(Script::new(replies()), chain(Some(0)), context(None));
    let parser = Parser { deposits: Vec::new() };
    let (_, done) = without.finish(&rules(), &block(100), &parser).0.ok().unwrap();
    assert_eq!(done.requests.len(), 2);
}

#[test]
fn failures_at_the_end_of_a_block() {
    let calls = executor(
        Script::new(vec![Err("boom".to_string())]),
        chain(Some(0)),
        context(None),
    );
    let parser = Parser { deposits: Vec::new() };
    let failed = calls.finish(&rules(), &block(100), &parser).0.err();
    assert_eq!(failed, Some(BlockExecutionError::Evm("boom".to_string())));
    let mut script = Script::new(Vec::new());
    script.fails = true;
    let mut mined = chain(None);
    mined.paris_block = None;
    let payment = executor(script, mined, context(None));
    let failed = payment.finish(&rules(), &block(100), &parser).0.err();
    assert_eq!(failed, Some(BlockExecutionError::Evm("no disk".to_string())));
}

#[test]
fn the_observer_is_told_of_the_calls_at_the_end() {
    let parser = Parser { deposits: Vec::new() };
    let script = Script::new(vec![Ok(outcome(7)), Ok(outcome(8))]);
    let mut whole = executor(script, chain(Some(0)), context(None));
    whole.set_state_hook(true);
    let (done, changes) = whole.finish(&rules(), &block(100), &parser);
    assert!(done.is_ok());
    assert_eq!(changes.len(), 3);
    assert!(changes.iter().all(|change| change.source == StateChangeSource::System));
    let script = Script::new(vec![Ok(outcome(7)), Err("boom".to_string())]);
    let mut broken = executor(script, chain(Some(0)), context(None));
    broken.set_state_hook(true);
    let (failed, changes) = broken.finish(&rules(), &block(100), &parser);
    assert_eq!(failed.err(), Some(BlockExecutionError::Evm("boom".to_string())));
    assert_eq!(changes.len(), 1);
}

#[test]
fn a_builder_keeps_what_was_committed() {
    let script = Script::new(vec![Ok(outcome(30)), Ok(outcome(25))]);
    let mut builder = BasicBlockBuilder::new(executor(script, chain(None), context(None)));
    let block = block(100);
    let yes = |_: &ExecutionResult| CommitChanges::Yes;
    let no = |_: &ExecutionResult| CommitChanges::No;
    let first =
        builder.execute_transaction_with_commit_condition(&block, executable(60, 0), yes);
    assert_eq!(first, Ok(Some(30)));
    let second = builder.execute_transaction_with_commit_condition(&block, executable(60, 1), no);
    assert_eq!(second, Ok(None));
    let parser = Parser { deposits: Vec::new() };
    let assembler = EthBlockAssembler::new(Arc::new(chain(None)));
    let assembly = Assembly {
        assembler: &assembler,
        env: &environment(),
        parent: &header(9),
        target_blob_gas: 0,
        state: &State { fails: false },
    };
    let done = builder.finish(&rules(), &parser, &assembly).0.ok().unwrap();
    assert_eq!(done.evm.done, vec!["transact 0", "commit", "transact 1", "merge"]);
    assert_eq!(done.execution_result.gas_used, 30);
    let made = done.block;
    assert_eq!(made.body.transactions.len(), 1);
    assert_eq!(made.body.transactions[0].nonce, 0);
    assert_eq!(done.senders, vec![address(1)]);
    assert_eq!((done.hashed_state, done.trie_updates), (4, 'u'));
    assert_eq!(made.header.state_root, hash(404));
    assert_eq!(outer_hash(made.header.transactions_root), trie_root(&[vec![0xc3, 1, 2, 3]]));
    assert_eq!(made.header.gas_used, 30);
    let pair = Recovered { tx: 4u8, signer: address(2) };
    assert_eq!(unzip_recovered(vec![pair]), (vec![4u8], vec![address(2)]));
}

#[test]
fn a_block_without_a_state_root_fails() {
    let script = Script::new(Vec::new());
    let builder = BasicBlockBuilder::new(executor(script, chain(None), context(None)));
    let assembler = EthBlockAssembler::new(Arc::new(chain(None)));
    let assembly = Assembly {
        assembler: &assembler,
        env: &environment(),
        parent: &header(9),
        target_blob_gas: 0,
        state: &State { fails: true },
    };
    let parser = Parser { deposits: Vec::new() };
    let failed = builder.finish(&rules(), &parser, &assembly).0.err();
    assert_eq!(failed, Some(BlockExecutionError::Other("no trie".to_string())));
}

#[test]
fn commits_add_up() {
    let replies = vec![Ok(outcome(30)), Ok(outcome(25)), Ok(outcome(5))];
    let mut executor = executor(Script::new(replies), chain(None), context(None));
    for nonce in 0..3 {
        let mut tx = executable(60, nonce);
        tx.0.gas_limit = 40;
        tx.0.blob_hashes = Some(vec![hash(1); nonce as usize]);
        executor.execute_transaction(&block(100), tx).unwrap();
    }
    let parser = Parser { deposits: Vec::new() };
    let (_, done) = executor.finish(&rules(), &block(100), &parser).0.ok().unwrap();
    let gas: Vec<u64> = done.receipts.iter().map(|r| r.cumulative_gas_used).collect();
    assert_eq!(gas, vec![30, 55, 60]);
    assert_eq!((done.gas_used, done.blob_gas_used), (60, 3 * 131_072));
}

#[test]
fn an_observed_block_tells_of_its_changes() {
    let withdrawals =
        vec![Withdrawal { index: 0, validator_index: 0, address: address(70), amount: 3 }];
    let block_to_run = || RecoveredBlock {
        header: header(10),
        transactions: vec![executable(50, 0), executable(50, 1)],
        ommers: Vec::new(),
        withdrawals: Some(withdrawals.clone()),
    };
    let parser = Parser { deposits: Vec::new() };
    let basic = BasicBlockExecutor::new(EthEvmConfig::new(Arc::new(chain(None))));
    let replies = || Script::new(vec![Ok(outcome(30)), Ok(outcome(25))]);
    let env = block(100);
    let (done, changes) =
        basic.execute_one(replies(), &env, block_to_run(), &rules(), &parser, true);
    let (evm, done) = done.ok().unwrap();
    assert_eq!(done.gas_used, 55);
    assert_eq!(evm.done.last().unwrap(), "merge");
    let sources: Vec<StateChangeSource> = changes.iter().map(|change| change.source).collect();
    let expected = vec![
        StateChangeSource::Transaction(0),
        StateChangeSource::Transaction(1),
        StateChangeSource::System,
    ];
    assert_eq!(sources, expected);
    assert_eq!(changes[2].state.len(), 1);
    assert_eq!(changes[2].state[0].address, address(70));
    assert_eq!(changes[2].state[0].info.balance, U256::from_u64(3_000_000_000));
    let (done, changes) =
        basic.execute_one(replies(), &env, block_to_run(), &rules(), &parser, false);
    assert!(done.is_ok() && changes.is_empty());
}

#[test]
fn a_failed_block_still_tells_of_its_changes() {
    let script = Script::new(vec![Ok(outcome(50)), Err("bad".to_string())]);
    let mut executor = executor(script, chain(None), context(None));
    executor.set_state_hook(true);
    let txs = vec![executable(60, 0), executable(50, 1)];
    let parser = Parser { deposits: Vec::new() };
    let (failed, changes) = executor.execute_block(&rules(), &block(100), &parser, txs);
    assert_eq!(failed.err(), Some(BlockExecutionError::Evm("bad".to_string())));
    assert_eq!(changes.len(), 1);
    assert_eq!(changes[0].source, StateChangeSource::Transaction(0));
}

#[test]
fn blob_gas_is_counted() {
    let script = Script::new(vec![Ok(outcome(1))]);
    let mut executor = executor(script, chain(None), context(None));
    let mut tx = executable(60, 0);
    tx.0.blob_hashes = Some(vec![hash(1), hash(2), hash(3)]);
    assert_eq!(executor.execute_transaction(&block(100), tx), Ok(1));
    let parser = Parser { deposits: Vec::new() };
    let (_, done) = executor.finish(&rules(), &block(100), &parser).0.ok().unwrap();
    assert_eq!(done.blob_gas_used, 393_216);
}

#[test]
fn the_observer_is_told_of_grown_balances() {
    let mut caller: SystemCaller<u8> = SystemCaller::new(5);
    let state: EvmState = Arc::new(Vec::new());
    caller.on_state(StateChangeSource::Transaction(0), &state);
    let lazily: Result<(), String> = caller.try_on_state_with(|| Err("never asked".to_string()));
    assert_eq!(lazily, Ok(()));
    assert!(caller.take_changes().is_empty());
    caller.with_state_hook(true);
    caller.on_state(StateChangeSource::Transaction(4), &state);
    let failed = caller.try_on_state_with(|| Err("asked".to_string()));
    assert_eq!(failed, Err("asked".to_string()));
    let told: Result<(), String> = caller.try_on_state_with(|| Ok(state));
    assert_eq!(told, Ok(()));
    let sources: Vec<StateChangeSource> =
        caller.take_changes().iter().map(|change| change.source).collect();
    assert_eq!(sources, vec![StateChangeSource::Transaction(4), StateChangeSource::System]);
}

#[test]
fn grown_accounts_are_touched() {
    let info = AccountInfo {
        balance: U256::from_u64(10),
        nonce: 4,
        code_hash: keccak_empty(),
        code: None,
    };
    let increments = vec![(address(1), 5u128), (address(2), 6)];
    let accounts = balance_increment_state(&increments, vec![Some(info), None]);
    assert_eq!(accounts.len(), 2);
    assert_eq!(accounts[0].info.balance, U256::from_u64(15));
    assert_eq!(accounts[0].info.nonce, 4);
    assert!(accounts[0].touched && accounts[0].storage.is_empty());
    assert_eq!(accounts[1].address, address(2));
    assert_eq!(accounts[1].info.balance, U256::from_u64(6));
    assert_eq!(accounts[1].info.code_hash, keccak_empty());
}

#[test]
fn balances_beyond_the_largest_start_over() {
    let info = AccountInfo {
        balance: U256::max_value(),
        nonce: 0,
        code_hash: keccak_empty(),
        code: None,
    };
    let accounts = balance_increment_state(&vec![(address(1), 3)], vec![Some(info)]);
    assert_eq!(accounts[0].info.balance, U256::from_u64(2));
}

#[test]
fn every_credit_is_paid() {
    let mut increments = BalanceIncrements::new();
    assert!(increments.is_empty());
    increments.credit(address(1), 5);
    increments.credit(address(2), 0);
    increments.credit(address(1), 6);
    credit_drained(&mut increments, address(2), &vec![10, 20]);
    let mut entries = increments.entries().clone();
    entries.sort_by_key(|entry| entry.0.lo);
    assert_eq!(entries, vec![(address(1), 11), (address(2), 30)]);
    increments.credit(address(3), 0);
    assert_eq!(increments.nonzero().len(), 2);
    let spec = chain(None);
    assert!(post_block_balance_increments(&spec, &block(1), &vec![header(4)], None).is_empty());
}

#[test]
fn blocks_are_assembled() {
    let config = EthEvmConfig::new(Arc::new(chain(Some(1000))));
    let env = EvmEnv {
        cfg_env: CfgEnv { spec: SpecId::Cancun, chain_id: 7 },
        block_env: block(100),
    };
    let output: BlockExecutionResult<Receipt> = BlockExecutionResult {
        receipts: Vec::new(),
        requests: Vec::new(),
        gas_used: 55,
        blob_gas_used: 66,
    };
    let ctx = context(Some(Vec::new()));
    let tx = signed(TxPricing::Legacy { gas_price: 1 });
    let mut parent = header(9);
    parent.blob_gas_used = Some(70);
    parent.excess_blob_gas = None;
    let made = config.block_assembler().assemble_block(
        &env,
        ctx.clone(),
        &parent,
        30,
        vec![tx.clone()],
        &output,
        hash(21),
    );
    assert_eq!(made.header.parent_hash, hash(1));
    assert_eq!(made.header.ommers_hash, empty_ommer_hash());
    assert_eq!(made.header.state_root, hash(21));
    assert_eq!(outer_hash(made.header.transactions_root), trie_root(&[vec![0xc3, 1, 2, 3]]));
    assert_eq!(outer_hash(made.header.receipts_root), trie_root(&[]));
    assert_eq!(made.header.logs_bloom, vec![0u8; 256]);
    assert_eq!(made.header.number, 10);
    assert_eq!(made.header.timestamp, 1000);
    assert_eq!(made.header.gas_used, 55);
    assert_eq!(made.header.mix_hash, hash(0));
    assert_eq!(made.header.withdrawals_root.map(outer_hash), Some(trie_root(&[])));
    assert_eq!(made.header.blob_gas_used, Some(66));
    assert_eq!(made.header.excess_blob_gas, Some(40));
    let nothing = B256 {
        hi: 0xe3b0c44298fc1c149afbf4c8996fb924,
        lo: 0x27ae41e4649b934ca495991b7852b855,
    };
    assert_eq!(made.header.requests_hash, Some(nothing));
    assert_eq!(made.body.transactions.len(), 1);
    assert_eq!(made.body.withdrawals, Some(Vec::new()));
    let early = EthBlockAssembler::new(Arc::new(chain(None)));
    let old = EvmEnv { cfg_env: CfgEnv { spec: SpecId::London, chain_id: 7 }, ..env };
    let made = early.assemble_block(&old, ctx, &parent, 30, vec![tx], &output, hash(21));
    assert_eq!(made.header.withdrawals_root, None);
    assert_eq!(made.header.blob_gas_used, None);
    assert_eq!(made.header.excess_blob_gas, None);
    assert_eq!(made.header.requests_hash, None);
    assert_eq!(made.body.withdrawals, None);
    let ommers = B256 {
        hi: 0x1dcc4de8dec75d7aab85b567b6ccd41a,
        lo: 0xd312451b948a7413f0a142fd40d49347,
    };
    assert_eq!(empty_ommer_hash(), ommers);
}

fn outer_hash(h: B256) -> alloy_primitives::B256 {
    alloy_primitives::B256::from_slice(&[h.hi.to_be_bytes(), h.lo.to_be_bytes()].concat())
}

fn trie_root(items: &[Vec<u8>]) -> alloy_primitives::B256 {
    alloy_consensus::proofs::ordered_trie_root_encoded(items)
}

#[test]
fn roots_are_those_of_the_lists() {
    let first = signed(TxPricing::Legacy { gas_price: 1 });
    let mut second = first.clone();
    second.encoded = vec![2, 7, 7];
    let expected = trie_root(&[first.encoded.clone(), second.encoded.clone()]);
    assert_eq!(outer_hash(calculate_transaction_root(&vec![first, second])), expected);
    let withdrawals = vec![
        Withdrawal { index: 1, validator_index: 2, address: address(3), amount: 4 },
        Withdrawal { index: 5, validator_index: 6, address: address(7), amount: 8 },
    ];
    let outer: Vec<alloy_eips::eip4895::Withdrawal> = withdrawals
        .iter()
        .map(|w| alloy_eips::eip4895::Withdrawal {
            index: w.index,
            validator_index: w.validator_index,
            address: alloy_primitives::Address::with_last_byte(w.address.lo as u8),
            amount: w.amount,
        })
        .collect();
    let expected = alloy_consensus::proofs::calculate_withdrawals_root(&outer);
    assert_eq!(outer_hash(calculate_withdrawals_root(&withdrawals)), expected);
    let log = Log { address: address(9), topics: vec![hash(2)], data: vec![1, 2] };
    let receipt = |tx_type: TxType, success: bool, logs: Vec<Log>| Receipt {
        tx_type,
        success,
        cumulative_gas_used: 21_000,
        logs,
    };
    let receipts =
        vec![receipt(TxType::Legacy, true, vec![log]), receipt(TxType::Eip1559, false, Vec::new())];
    let outer_log = alloy_primitives::Log::new_unchecked(
        alloy_primitives::Address::with_last_byte(9),
        vec![alloy_primitives::B256::with_last_byte(2)],
        vec![1, 2].into(),
    );
    let outer_receipt = |success: bool, logs: Vec<alloy_primitives::Log>| {
        alloy_consensus::Receipt { status: success.into(), cumulative_gas_used: 21_000, logs }
            .with_bloom()
    };
    let outer = vec![
        alloy_consensus::ReceiptEnvelope::Legacy(outer_receipt(true, vec![outer_log])),
        alloy_consensus::ReceiptEnvelope::Eip1559(outer_receipt(false, Vec::new())),
    ];
    let expected = alloy_consensus::proofs::calculate_receipt_root(&outer);
    assert_eq!(outer_hash(calculate_receipt_root(&receipts)), expected);
}

#[test]
fn headers_hash_their_requests() {
    let config = EthEvmConfig::new(Arc::new(chain(Some(0))));
    let output: BlockExecutionResult<Receipt> = BlockExecutionResult {
        receipts: Vec::new(),
        requests: vec![
            Request { request_type: 0, data: vec![9, 9] },
            Request { request_type: 1, data: Vec::new() },
            Request { request_type: 2, data: vec![4] },
        ],
        gas_used: 0,
        blob_gas_used: 0,
    };
    let made = config.block_assembler().assemble_block(
        &environment(),
        context(None),
        &header(9),
        0,
        Vec::new(),
        &output,
        hash(1),
    );
    let plain = vec![vec![0u8, 9, 9], vec![2, 4]];
    let expected = alloy_eips::eip7685::Requests::from_requests(plain).requests_hash();
    let found = made.header.requests_hash.unwrap();
    let bytes = [found.hi.to_be_bytes(), found.lo.to_be_bytes()].concat();
    assert_eq!(bytes, expected.to_vec());
}

#[test]
fn headers_filter_their_logs() {
    let log = |n: u32, topics: Vec<B256>| Log { address: address(n), topics, data: vec![1] };
    let receipt = |logs: Vec<Log>| Receipt {
        tx_type: TxType::Legacy,
        success: true,
        cumulative_gas_used: 0,
        logs,
    };
    let receipts = vec![
        receipt(vec![log(1, vec![hash(2)]), log(3, Vec::new())]),
        receipt(Vec::new()),
        receipt(vec![log(4, vec![hash(5), hash(6)])]),
    ];
    let outer = |n: u8| alloy_primitives::Address::with_last_byte(n);
    let topic = |n: u8| alloy_primitives::B256::with_last_byte(n);
    let mut expected = alloy_primitives::Bloom::ZERO;
    expected.accrue_raw_log(outer(1), &[topic(2)]);
    expected.accrue_raw_log(outer(3), &[]);
    expected.accrue_raw_log(outer(4), &[topic(5), topic(6)]);
    assert_eq!(receipts_bloom(&receipts), expected.to_vec());
}

#[test]
fn excess_blob_gas_follows_the_parent() {
    let mut parent = header(9);
    parent.blob_gas_used = None;
    parent.excess_blob_gas = None;
    assert_eq!(calc_excess_blob_gas(&parent, 10), 0);
    parent.excess_blob_gas = Some(393_216);
    parent.blob_gas_used = Some(131_072);
    assert_eq!(calc_excess_blob_gas(&parent, 393_216), 131_072);
}

#[test]
fn machines_are_built() {
    let env = EvmEnv {
        cfg_env: CfgEnv { spec: SpecId::Prague, chain_id: 7 },
        block_env: block(100),
    };
    let plain: EthEvm<u8, NoOpInspector, u16> = EthEvmFactory.create_evm(1u8, env);
    assert_eq!(plain.run_mode(), RunMode::Plain);
    assert_eq!(plain.chain_id(), 7);
    assert_eq!(plain.block().gas_limit, 100);
    assert!(matches!(plain.into_inner().precompiles, PrecompileSet::OfSpec(SpecId::Prague)));
    let inspected: EthEvm<u8, &str, u16> =
        EthEvmFactory.create_evm_with_inspector(1u8, env, "spy");
    assert_eq!(inspected.run_mode(), RunMode::Inspect);
    assert_eq!(inspected.into_inner().inspector, "spy");
    let builder: EthEvmBuilder<u8, NoOpInspector, u16> = EthEvmBuilder::new(1u8, env);
    let mut built = builder.inspector("spy").precompiles(4).inspect().set_inspect(false).build();
    assert_eq!(built.run_mode(), RunMode::Plain);
    built.set_inspector_enabled(true);
    assert_eq!(built.run_mode(), RunMode::Inspect);
    *built.db_mut() += 1;
    assert_eq!(*built.db(), 2);
    let (db, finished) = built.finish();
    assert_eq!((db, finished), (2, env));
    let builder: EthEvmBuilder<u8, NoOpInspector, u16> = EthEvmBuilder::new(1u8, env);
    let active = builder.activate_inspector("spy").precompiles(4).build();
    assert_eq!(active.run_mode(), RunMode::Inspect);
    assert!(matches!(active.into_inner().precompiles, PrecompileSet::Custom(4)));
}
