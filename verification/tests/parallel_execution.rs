use private_chain::evm::env::BlockEnv;
use private_chain::evm::spec_id::SpecId;
use private_chain::evm::tx_env::TxEnv;
use private_chain::parallel::executor::{
    apply_pevm_results_to_state, build_changes, merge_results, AccountChange,
    ParallelEthereumExecutorBuilder, StateCache,
};
use private_chain::parallel::memory::{
    AccountBasic, FinishExecFlags, MemoryEntry, MemoryValue, TxIdx, TxVersion,
};
use private_chain::parallel::mv_memory::MvMemory;
use private_chain::parallel::pevm::{
    conclude_validation, execute_revm_sequential, must_abort, prefers_sequential, AbortReason,
    Conclusion, ExecutionStep, ParallelEvm, ParallelWorkers, PevmError, RunFailure, SequentialEvm,
};
use private_chain::parallel::settlement::{is_settleable, settle_block};
use private_chain::parallel::state::{
    ExecutionResult, PevmTxExecutionResult, RunOutcome, SlotChange, StateAccount,
};
use private_chain::parallel::storage::{AccountInfo, EvmCode, LegacyCode, JumpTable, Storage};
use private_chain::parallel::vm::{
    classify_run_error, ExecutionError, InvalidTransaction, TransactionRunner, Vm,
    VmExecutionError, VmExecutionResult,
};
use private_chain::parallel::vm_db::{ReadError, VmDb};
use private_chain::evm::chain_spec::ChainSpec;
use private_chain::primitives::{keccak_empty, Address, TxKind, B256, U256};
use std::sync::Arc;

fn address(n: u32) -> Address {
    Address { hi: 0, lo: n }
}

fn hash(n: u128) -> B256 {
    B256 { hi: 0, lo: n }
}

fn word(n: u64) -> U256 {
    U256::from_u64(n)
}

fn basic(balance: u64, nonce: u64) -> AccountBasic {
    AccountBasic { balance: word(balance), nonce }
}

/// The state before a block.
#[derive(Default)]
struct Chain {
    accounts: Vec<(Address, AccountBasic)>,
    code_hashes: Vec<(Address, B256)>,
    codes: Vec<(B256, Arc<EvmCode>)>,
    slots: Vec<(Address, U256, U256)>,
    fails: bool,
}

impl Chain {
    fn with_accounts(accounts: Vec<(Address, AccountBasic)>) -> Self {
        Chain { accounts, ..Chain::default() }
    }

    fn check(&self) -> Result<(), String> {
        if self.fails { Err("no disk".to_string()) } else { Ok(()) }
    }
}

impl Storage for Chain {
    fn basic(&self, address: &Address) -> Result<Option<AccountBasic>, String> {
        self.check()?;
        Ok(self.accounts.iter().find(|entry| entry.0 == *address).map(|entry| entry.1))
    }

    fn code_hash(&self, address: &Address) -> Result<Option<B256>, String> {
        self.check()?;
        Ok(self.code_hashes.iter().find(|entry| entry.0 == *address).map(|entry| entry.1))
    }

    fn code_by_hash(&self, hash: &B256) -> Result<Option<Arc<EvmCode>>, String> {
        self.check()?;
        Ok(self.codes.iter().find(|entry| entry.0 == *hash).map(|entry| entry.1.clone()))
    }

    fn has_storage(&self, _address: &Address) -> Result<bool, String> {
        Ok(false)
    }

    fn storage(&self, address: &Address, slot: &U256) -> Result<U256, String> {
        self.check()?;
        let found = self.slots.iter().find(|entry| entry.0 == *address && entry.1 == *slot);
        Ok(found.map(|entry| entry.2).unwrap_or(word(0)))
    }

    fn block_hash(&self, number: &u64) -> Result<B256, String> {
        self.check()?;
        Ok(hash(*number as u128))
    }
}

fn code(byte: u8) -> Arc<EvmCode> {
    let legacy = LegacyCode {
        bytecode: vec![byte, 0],
        original_len: 1,
        jump_table: JumpTable { table: vec![0], len: 1 },
    };
    Arc::new(EvmCode::Legacy(legacy))
}

fn block() -> BlockEnv {
    BlockEnv {
        number: word(10),
        beneficiary: address(99),
        timestamp: word(1000),
        gas_limit: 30_000_000,
        basefee: 7,
        difficulty: word(0),
        prevrandao: None,
        blob_excess_gas_and_price: None,
    }
}

fn tx(from: u32, to: u32, value: u64, nonce: u64) -> TxEnv {
    TxEnv {
        caller: address(from),
        gas_limit: 21_000,
        gas_price: 10,
        max_fee_per_gas: 10,
        gas_priority_fee: None,
        kind: TxKind::Call(address(to)),
        value: word(value),
        data: Vec::new(),
        nonce,
        chain_id: Some(1),
        access_list: Vec::new(),
        blob_hashes: None,
        max_fee_per_blob_gas: None,
        authorization_list: None,
    }
}

fn vm() -> Vm {
    Vm::new(block(), SpecId::Cancun, 1)
}

fn version(tx_idx: TxIdx, tx_incarnation: usize) -> TxVersion {
    TxVersion { tx_idx, tx_incarnation }
}

fn account(n: u32, balance: U256, nonce: u64) -> StateAccount {
    StateAccount {
        address: address(n),
        info: AccountInfo { balance, nonce, code_hash: keccak_empty(), code: None },
        touched: true,
        selfdestructed: false,
        storage: Vec::new(),
    }
}

fn success(gas_used: u64) -> ExecutionResult {
    ExecutionResult { success: true, gas_used, logs: Vec::new(), output: Vec::new() }
}

/// A run that reads the given addresses, and ends as it is told.
struct Run<'a> {
    reads: &'a [u32],
    ends: Option<Result<RunOutcome, ExecutionError>>,
}

impl TransactionRunner<Chain> for Run<'_> {
    fn run(&mut self, db: &mut VmDb<Chain>, _tx: &TxEnv) -> Result<RunOutcome, ExecutionError> {
        for n in self.reads {
            db.basic(address(*n)).map_err(ExecutionError::Database)?;
        }
        self.ends.take().unwrap()
    }
}

/// Executes a version: reads the given addresses, and ends with the given accounts.
fn execute(
    memory: &mut MvMemory,
    chain: &Chain,
    tx: &TxEnv,
    at: TxVersion,
    reads: &[u32],
    accounts: Vec<StateAccount>,
    gas_used: u64,
) -> Result<VmExecutionResult, VmExecutionError> {
    let outcome = RunOutcome::new(success(gas_used), accounts).unwrap();
    let mut run = Run { reads, ends: Some(Ok(outcome)) };
    vm().execute(memory, chain, &at, tx, &mut run)
}

/// The state of a result, as a list of accounts in the order of their addresses.
fn listed(result: PevmTxExecutionResult) -> Vec<(u32, Option<(U256, u64)>)> {
    let mut list: Vec<(u32, Option<(U256, u64)>)> = merge_results(vec![result])
        .iter()
        .map(|entry| (entry.0.lo, entry.1.as_ref().map(|a| (a.balance, a.nonce))))
        .collect();
    list.sort_by_key(|entry| entry.0);
    list
}

#[test]
fn transactions_see_what_earlier_ones_wrote() {
    let chain = Chain::with_accounts(vec![(address(1), basic(1_000_000, 0))]);
    let mut memory = MvMemory::new(3, Vec::new(), Vec::new());
    let first = tx(1, 2, 50, 0);
    let after = vec![account(1, word(700_000), 1), account(2, word(50), 0)];
    execute(&mut memory, &chain, &first, version(0, 0), &[1, 2], after, 21_000).ok().unwrap();
    let reader = tx(5, 6, 0, 0);
    let vm = vm();
    let mut db = vm.open(&memory, &chain, 1, &reader).ok().unwrap();
    assert!(!db.is_lazy);
    let seen = db.basic(address(1)).unwrap().unwrap();
    assert_eq!((seen.balance, seen.nonce), (word(700_000), 1));
    assert_eq!(seen.code_hash, keccak_empty());
    assert_eq!(db.basic(address(2)).unwrap().unwrap().balance, word(50));
    assert!(db.basic(address(3)).unwrap().is_none());
    let mut earlier = vm.open(&memory, &chain, 0, &reader).ok().unwrap();
    assert_eq!(earlier.basic(address(1)).unwrap().unwrap().balance, word(1_000_000));
}

#[test]
fn reads_repeat_within_an_execution() {
    let chain = Chain::with_accounts(vec![(address(1), basic(10, 0))]);
    let memory = MvMemory::new(2, Vec::new(), Vec::new());
    let reader = tx(5, 6, 0, 0);
    let vm = vm();
    let mut db = vm.open(&memory, &chain, 1, &reader).ok().unwrap();
    let first = db.basic(address(1)).unwrap().unwrap();
    let second = db.basic(address(1)).unwrap().unwrap();
    assert_eq!(first.balance, second.balance);
    assert_eq!(db.storage(address(1), word(4)), Ok(word(0)));
    assert_eq!(db.storage(address(1), word(4)), Ok(word(0)));
    assert_eq!(db.get_code_hash(address(1)), Ok(None));
    assert_eq!(db.get_code_hash(address(1)), Ok(None));
}

#[test]
fn the_beneficiary_is_rewarded_lazily() {
    let chain = Chain::with_accounts(vec![(address(1), basic(1_000_000, 0))]);
    let mut memory = MvMemory::new(2, Vec::new(), Vec::new());
    let first = tx(1, 2, 50, 0);
    let after = vec![account(1, word(700_000), 1), account(2, word(50), 0)];
    execute(&mut memory, &chain, &first, version(0, 0), &[1, 2], after, 1000).ok().unwrap();
    let location = vm().beneficiary_location_hash;
    let history = memory.history(location).unwrap();
    let expected = MemoryEntry::Data(0, MemoryValue::LazyRecipient(word(3000)));
    assert_eq!(history.below(1), vec![(0, expected)]);
    let vm = vm();
    let reader = tx(5, 6, 0, 0);
    let mut db = vm.open(&memory, &chain, 1, &reader).ok().unwrap();
    assert_eq!(db.basic(address(99)).unwrap().unwrap().balance, word(3000));
}

#[test]
fn rewards_follow_the_price() {
    let vm = vm();
    let mut priced = tx(1, 2, 0, 0);
    priced.gas_price = 100;
    priced.gas_priority_fee = Some(5);
    let mut writes = Vec::new();
    assert_eq!(vm.apply_rewards(&mut writes, &priced, 10), Ok(()));
    let location = vm.beneficiary_location_hash;
    assert_eq!(writes, vec![(location, MemoryValue::LazyRecipient(word(50)))]);
    priced.gas_priority_fee = Some(1000);
    assert_eq!(vm.apply_rewards(&mut writes, &priced, 10), Ok(()));
    assert_eq!(writes, vec![(location, MemoryValue::LazyRecipient(word(980)))]);
    let early = Vm::new(block(), SpecId::Berlin, 1);
    let mut writes = vec![(location, MemoryValue::Basic(basic(4, 6)))];
    priced.gas_priority_fee = None;
    assert_eq!(early.apply_rewards(&mut writes, &priced, 10), Ok(()));
    assert_eq!(writes, vec![(location, MemoryValue::Basic(basic(1004, 6)))]);
    let mut writes = vec![(location, MemoryValue::LazySender(word(930)))];
    priced.gas_price = 100;
    assert_eq!(vm.apply_rewards(&mut writes, &priced, 10), Ok(()));
    assert_eq!(writes, vec![(location, MemoryValue::LazySender(word(0)))]);
    let mut writes = vec![(location, MemoryValue::LazySender(word(1000)))];
    assert_eq!(vm.apply_rewards(&mut writes, &priced, 10), Ok(()));
    assert_eq!(writes, vec![(location, MemoryValue::LazySender(word(70)))]);
}

#[test]
fn rewards_do_not_pass_the_largest_balance() {
    let vm = vm();
    let mut priced = tx(1, 2, 0, 0);
    priced.gas_price = u128::MAX;
    let location = vm.beneficiary_location_hash;
    let mut writes = vec![(location, MemoryValue::LazyRecipient(U256::max_value()))];
    assert_eq!(vm.apply_rewards(&mut writes, &priced, 10), Ok(()));
    assert_eq!(writes, vec![(location, MemoryValue::LazyRecipient(U256::max_value()))]);
    let mut writes = vec![(location, MemoryValue::SelfDestructed)];
    let refused = VmExecutionError::ExecutionError(ExecutionError::Database(
        ReadError::InvalidMemoryValueType,
    ));
    assert_eq!(vm.apply_rewards(&mut writes, &priced, 10), Err(refused));
    let mut writes = Vec::new();
    assert_eq!(vm.apply_rewards(&mut writes, &priced, u64::MAX), Ok(()));
    // (2^128 - 8) * (2^64 - 1)
    let expected = U256 { l0: 8, l1: u64::MAX - 7, l2: u64::MAX - 1, l3: 0 };
    assert_eq!(writes, vec![(location, MemoryValue::LazyRecipient(expected))]);
}

#[test]
fn plain_transfers_become_lazy() {
    let chain = Chain::with_accounts(vec![
        (address(1), basic(1_000_000, 0)),
        (address(2), basic(1_000_000, 0)),
    ]);
    let mut memory = MvMemory::new(3, Vec::new(), Vec::new());
    let first = tx(1, 2, 50, 0);
    let after = vec![account(1, word(700_000), 1), account(2, word(1_000_050), 0)];
    execute(&mut memory, &chain, &first, version(0, 0), &[1, 2], after, 1000).ok().unwrap();
    let second = tx(2, 3, 10, 0);
    let vm = vm();
    {
        let mut db = vm.open(&memory, &chain, 1, &second).ok().unwrap();
        assert!(db.is_lazy);
        let sender = db.basic(address(2)).unwrap().unwrap();
        assert_eq!((sender.balance, sender.nonce), (U256::max_value(), 0));
        assert!(db.basic(address(3)).unwrap().is_none());
    }
    let spent = U256 { l0: u64::MAX - 10_010, l1: u64::MAX, l2: u64::MAX, l3: u64::MAX };
    let after = vec![account(2, spent, 1), account(3, word(10), 0)];
    let done =
        execute(&mut memory, &chain, &second, version(1, 0), &[], after, 1000).ok().unwrap();
    assert!(!done.flags.contains(FinishExecFlags::need_validation()));
    assert!(done.flags.contains(FinishExecFlags::empty().with_new_location()));
    let mut lazy = memory.lazy_addresses().clone();
    lazy.sort_by_key(|a| a.lo);
    assert_eq!(lazy, vec![address(2), address(3), address(99)]);
    let reader = tx(5, 6, 0, 0);
    let mut db = vm.open(&memory, &chain, 2, &reader).ok().unwrap();
    let sender = db.basic(address(2)).unwrap().unwrap();
    assert_eq!((sender.balance, sender.nonce), (word(990_040), 1));
    assert_eq!(db.basic(address(3)).unwrap().unwrap().balance, word(10));
}

#[test]
fn aborted_writes_block_readers() {
    let chain = Chain::with_accounts(vec![(address(1), basic(1_000_000, 0))]);
    let mut memory = MvMemory::new(2, Vec::new(), Vec::new());
    let first = tx(1, 2, 50, 0);
    let after = || vec![account(1, word(700_000), 1), account(2, word(50), 0)];
    let done =
        execute(&mut memory, &chain, &first, version(0, 0), &[1, 2], after(), 1000).ok().unwrap();
    assert!(!done.flags.contains(FinishExecFlags::need_validation()));
    let reader = tx(5, 6, 0, 0);
    let one = vec![account(6, word(1), 0)];
    let done = execute(&mut memory, &chain, &reader, version(1, 0), &[1], one, 10).ok().unwrap();
    assert!(done.flags.contains(FinishExecFlags::need_validation()));
    assert!(memory.validate_read_locations(1));
    assert!(!must_abort(&memory, &version(1, 0)));
    memory.convert_writes_to_estimates(0);
    assert!(!memory.validate_read_locations(1));
    {
        let vm = vm();
        let mut db = vm.open(&memory, &chain, 1, &reader).ok().unwrap();
        assert_eq!(db.basic(address(1)).err(), Some(ReadError::Blocking(0)));
    }
    execute(&mut memory, &chain, &first, version(0, 1), &[1, 2], after(), 1000).ok().unwrap();
    assert!(must_abort(&memory, &version(1, 0)));
    assert!(!conclude_validation(&mut memory, &version(1, 0), true, false));
    assert!(conclude_validation(&mut memory, &version(1, 0), true, true));
    assert!(!conclude_validation(&mut memory, &version(0, 1), false, true));
}

#[test]
fn valid_reads_find_what_they_found() {
    let chain = Chain::with_accounts(vec![(address(1), basic(1_000_000, 0))]);
    let mut memory = MvMemory::new(3, Vec::new(), Vec::new());
    let first = tx(1, 2, 50, 0);
    let after = vec![account(1, word(700_000), 1), account(2, word(50), 0)];
    execute(&mut memory, &chain, &first, version(0, 0), &[1, 2], after, 1000).ok().unwrap();
    let mut reader = tx(5, 6, 0, 0);
    reader.kind = TxKind::Create;
    let nothing = vec![account(7, word(1), 0)];
    execute(&mut memory, &chain, &reader, version(2, 0), &[1], nothing, 10).ok().unwrap();
    let other = tx(8, 9, 0, 0);
    let apart = vec![account(9, word(4), 0)];
    execute(&mut memory, &chain, &other, version(1, 0), &[], apart, 10).ok().unwrap();
    assert!(memory.validate_read_locations(2));
    let vm = vm();
    let found = |memory: &MvMemory| {
        let mut db = vm.open(memory, &chain, 2, &reader).ok().unwrap();
        db.basic(address(1)).unwrap().unwrap().balance
    };
    assert_eq!(found(&memory), word(700_000));
    let mut third = tx(1, 9, 0, 1);
    third.kind = TxKind::Create;
    let changed = vec![account(1, word(600_000), 2)];
    execute(&mut memory, &chain, &third, version(1, 1), &[1], changed, 10).ok().unwrap();
    assert!(!memory.validate_read_locations(2));
    assert_eq!(found(&memory), word(600_000));
}

#[test]
fn a_second_incarnation_replaces_the_first() {
    let chain = Chain::with_accounts(vec![(address(1), basic(1_000_000, 0))]);
    let mut memory = MvMemory::new(1, Vec::new(), Vec::new());
    let mut first = tx(1, 2, 50, 0);
    first.kind = TxKind::Create;
    let wide = vec![account(1, word(700_000), 1), account(2, word(50), 0)];
    let done =
        execute(&mut memory, &chain, &first, version(0, 0), &[1, 2], wide, 1000).ok().unwrap();
    assert!(done.flags.contains(FinishExecFlags::empty().with_new_location()));
    let narrow = vec![account(1, word(600_000), 1)];
    let done =
        execute(&mut memory, &chain, &first, version(0, 1), &[1, 2], narrow, 1000).ok().unwrap();
    assert_eq!(done.flags.bits, 0);
    let vm = vm();
    let reader = tx(5, 6, 0, 0);
    let db = vm.open(&memory, &chain, 0, &reader).ok().unwrap();
    let kept = memory.history(db.hash_basic(&address(1))).unwrap();
    let expected = MemoryEntry::Data(1, MemoryValue::Basic(basic(600_000, 1)));
    assert_eq!(kept.closest(1), Some((0, expected)));
    let gone = memory.history(db.hash_basic(&address(2))).unwrap();
    assert_eq!(gone.closest(1), None);
}

#[test]
fn slots_and_code_are_seen() {
    let chain = Chain {
        accounts: vec![(address(1), basic(1_000_000, 0)), (address(8), basic(5, 1))],
        code_hashes: vec![(address(8), hash(88))],
        codes: vec![(hash(88), code(1))],
        slots: vec![(address(8), word(3), word(30))],
        fails: false,
    };
    let mut memory = MvMemory::new(2, Vec::new(), Vec::new());
    let caller = tx(1, 8, 0, 0);
    let mut contract = account(8, word(5), 1);
    contract.info.code_hash = hash(88);
    contract.info.code = Some(code(1));
    contract.storage = vec![
        SlotChange { slot: word(3), original: word(30), present: word(31) },
        SlotChange { slot: word(4), original: word(7), present: word(7) },
    ];
    let mut fresh = account(9, word(0), 1);
    fresh.info.code_hash = hash(77);
    fresh.info.code = Some(code(2));
    let after = vec![account(1, word(900_000), 1), contract, fresh];
    execute(&mut memory, &chain, &caller, version(0, 0), &[1, 8], after, 1000).ok().unwrap();
    let vm = vm();
    let reader = tx(5, 6, 0, 0);
    let mut db = vm.open(&memory, &chain, 1, &reader).ok().unwrap();
    assert_eq!(db.storage(address(8), word(3)), Ok(word(31)));
    assert_eq!(db.storage(address(8), word(4)), Ok(word(0)));
    assert_eq!(db.get_code_hash(address(9)), Ok(Some(hash(77))));
    let deployed = db.basic(address(9)).unwrap().unwrap();
    assert_eq!(deployed.code_hash, hash(77));
    assert_eq!(deployed.code, Some(code(2)));
    assert_eq!(memory.deployed_code(hash(77)), Some(code(2)));
    assert_eq!(memory.deployed_code(hash(88)), None);
    let known = db.basic(address(8)).unwrap().unwrap();
    assert_eq!(known.code, Some(code(1)));
    assert_eq!(db.code_by_hash(hash(88)), Ok(code(1)));
    assert_eq!(db.code_by_hash(hash(1)), Ok(Arc::new(EvmCode::default())));
    assert_eq!(db.block_hash(12), Ok(hash(12)));
}

#[test]
fn self_destruction_falls_back() {
    let chain = Chain::with_accounts(vec![(address(1), basic(1_000_000, 0))]);
    let mut memory = MvMemory::new(2, Vec::new(), Vec::new());
    let caller = tx(1, 8, 0, 0);
    let mut dead = account(8, word(0), 0);
    dead.selfdestructed = true;
    let after = vec![account(1, word(900_000), 1), dead];
    let done =
        execute(&mut memory, &chain, &caller, version(0, 0), &[1], after, 1000).ok().unwrap();
    let state = listed(done.execution_result);
    assert_eq!(state, vec![(1, Some((word(900_000), 1))), (8, None)]);
    let reader = tx(5, 8, 0, 0);
    let opened = vm().open(&memory, &chain, 1, &reader).err();
    assert_eq!(opened, Some(VmExecutionError::FallbackToSequential));
}

#[test]
fn nonces_are_checked_against_the_sender() {
    let chain = Chain::with_accounts(vec![(address(1), basic(1_000_000, 4))]);
    let memory = MvMemory::new(2, Vec::new(), Vec::new());
    let vm = vm();
    let ahead = tx(1, 2, 0, 6);
    let mut first = vm.open(&memory, &chain, 0, &ahead).ok().unwrap();
    assert_eq!(first.basic(address(1)).err(), Some(ReadError::InvalidNonce(0)));
    let mut second = vm.open(&memory, &chain, 1, &ahead).ok().unwrap();
    assert_eq!(second.basic(address(1)).err(), Some(ReadError::Blocking(0)));
}

#[test]
fn failing_storage_is_reported() {
    let mut chain = Chain::default();
    let memory = MvMemory::new(1, Vec::new(), Vec::new());
    let reader = tx(5, 6, 0, 0);
    let vm = vm();
    let failure = ReadError::StorageError("no disk".to_string());
    chain.fails = true;
    let opened = vm.open(&memory, &chain, 0, &reader).err();
    let expected = VmExecutionError::ExecutionError(ExecutionError::Database(failure.clone()));
    assert_eq!(opened, Some(expected));
    let mut creation = tx(5, 6, 0, 0);
    creation.kind = TxKind::Create;
    let mut db: VmDb<Chain> = vm.open(&memory, &chain, 0, &creation).ok().unwrap();
    assert_eq!(db.basic(address(1)).err(), Some(failure.clone()));
    assert_eq!(db.storage(address(1), word(1)), Err(failure.clone()));
    assert_eq!(db.block_hash(1), Err(failure.clone()));
    assert_eq!(db.code_by_hash(hash(1)), Err(failure));
}

#[test]
fn failed_runs_leave_no_trace() {
    let chain = Chain::with_accounts(vec![(address(1), basic(1_000_000, 0))]);
    let mut memory = MvMemory::new(2, Vec::new(), Vec::new());
    let funds = ExecutionError::Transaction(InvalidTransaction::LackOfFundForMaxFee {
        fee: word(5),
        balance: word(4),
    });
    let mut run = Run { reads: &[1], ends: Some(Err(funds)) };
    let waits = vm().execute(&mut memory, &chain, &version(1, 0), &tx(5, 6, 0, 0), &mut run);
    assert_eq!(waits.err(), Some(VmExecutionError::Blocking(0)));
    assert!(!memory.has_location(vm().beneficiary_location_hash));
    let mut run = Run { reads: &[1], ends: None };
    let ahead = vm().execute(&mut memory, &chain, &version(1, 0), &tx(1, 6, 0, 9), &mut run);
    assert_eq!(ahead.err(), Some(VmExecutionError::Blocking(0)));
}

#[test]
fn read_errors_say_what_to_do() {
    assert_eq!(VmExecutionError::from(ReadError::InconsistentRead), VmExecutionError::Retry);
    let blocked = VmExecutionError::from(ReadError::Blocking(3));
    assert_eq!(blocked, VmExecutionError::Blocking(3));
    let gone = VmExecutionError::from(ReadError::SelfDestructedAccount);
    assert_eq!(gone, VmExecutionError::FallbackToSequential);
    let funds = || {
        ExecutionError::Transaction(InvalidTransaction::LackOfFundForMaxFee {
            fee: word(5),
            balance: word(4),
        })
    };
    assert_eq!(classify_run_error(funds(), 3), VmExecutionError::Blocking(2));
    assert_eq!(classify_run_error(funds(), 0), VmExecutionError::ExecutionError(funds()));
    let nonce = ExecutionError::Transaction(InvalidTransaction::NonceTooHigh { tx: 5, state: 4 });
    assert_eq!(classify_run_error(nonce, 1), VmExecutionError::Blocking(0));
    let other = ExecutionError::Header("no randomness".to_string());
    let kept = VmExecutionError::ExecutionError(other.clone());
    assert_eq!(classify_run_error(other, 3), kept);
    let read = ExecutionError::Database(ReadError::Blocking(1));
    assert_eq!(classify_run_error(read, 3), VmExecutionError::Blocking(1));
}

#[test]
fn outcomes_carry_their_code() {
    let mut bare = account(1, word(1), 0);
    bare.info.code_hash = hash(5);
    assert!(RunOutcome::new(success(1), vec![bare.clone()]).is_none());
    bare.selfdestructed = true;
    assert!(RunOutcome::new(success(1), vec![bare.clone()]).is_some());
    bare.selfdestructed = false;
    bare.touched = false;
    let outcome = RunOutcome::new(success(1), vec![bare]).unwrap();
    assert_eq!(outcome.state().len(), 1);
    assert_eq!(outcome.into_parts().0, success(1));
}

#[test]
fn results_hold_touched_accounts() {
    let mut untouched = account(3, word(1), 0);
    untouched.touched = false;
    let state = vec![account(1, word(5), 2), account(2, word(0), 0), untouched];
    let result = PevmTxExecutionResult::from_revm(success(77), &state, true);
    assert_eq!(result.receipt.cumulative_gas_used, 77);
    assert!(result.receipt.status);
    assert_eq!(listed(result), vec![(1, Some((word(5), 2))), (2, None)]);
    let kept = PevmTxExecutionResult::from_revm(success(77), &state, false);
    assert_eq!(listed(kept), vec![(1, Some((word(5), 2))), (2, Some((word(0), 0)))]);
}

#[test]
fn small_blocks_are_executed_sequentially() {
    assert!(prefers_sequential(true, 100, 4, 30_000_000));
    assert!(prefers_sequential(false, 3, 4, 30_000_000));
    assert!(prefers_sequential(false, 4, 4, 3_999_999));
    assert!(!prefers_sequential(false, 4, 4, 4_000_000));
}

fn executed(gas: u64) -> VmExecutionResult {
    let state = Vec::new();
    VmExecutionResult {
        execution_result: PevmTxExecutionResult::from_revm(success(gas), &state, true),
        flags: FinishExecFlags::empty().with_new_location(),
    }
}

#[test]
fn outcomes_of_executions_say_what_comes_next() {
    let mut evm = ParallelEvm::default();
    evm.reserve(2);
    assert_eq!(evm.execution_results.len(), 2);
    let again = evm.on_executed(version(0, 0), Err(VmExecutionError::Retry));
    assert!(matches!(again, ExecutionStep::ExecuteAgain));
    let waits = evm.on_executed(version(1, 0), Err(VmExecutionError::Blocking(0)));
    let expected = matches!(waits, ExecutionStep::AddDependency { tx_idx: 1, blocking_tx_idx: 0 });
    assert!(expected);
    assert!(matches!(evm.on_dependency(false), ExecutionStep::ExecuteAgain));
    assert!(matches!(evm.on_dependency(true), ExecutionStep::NoTask));
    let done = evm.on_executed(version(0, 0), Ok(executed(5)));
    assert!(matches!(done, ExecutionStep::FinishExecution { flags, .. } if flags.bits == 2));
    let stop = evm.on_executed(version(1, 0), Err(VmExecutionError::FallbackToSequential));
    assert!(matches!(stop, ExecutionStep::AbortScheduler));
    let custom = ExecutionError::Custom("x".to_string());
    evm.on_executed(version(1, 0), Err(VmExecutionError::ExecutionError(custom)));
    assert!(matches!(evm.on_dependency(false), ExecutionStep::NoTask));
    let given_up = evm.on_executed(version(0, 0), Err(VmExecutionError::Retry));
    assert!(matches!(given_up, ExecutionStep::NoTask));
    assert!(matches!(evm.take_abort(), Some(AbortReason::FallbackToSequential)));
    assert!(evm.take_abort().is_none());
}

#[test]
fn gas_accumulates_over_the_block() {
    let mut evm = ParallelEvm::default();
    evm.reserve(3);
    for (i, gas) in [10, 20, u64::MAX].into_iter().enumerate() {
        evm.on_executed(version(i, 0), Ok(executed(gas)));
    }
    let results = evm.take_results(3);
    let gas: Vec<u64> = results.iter().map(|r| r.receipt.cumulative_gas_used).collect();
    assert_eq!(gas, vec![10, 30, u64::MAX]);
    assert!(evm.execution_results.iter().all(|slot| slot.is_none()));
}

/// Executes two lazy transfers on top of a full one, and gives the memory and the transactions.
fn lazy_block(chain: &Chain) -> (MvMemory, Vec<TxEnv>, ParallelEvm) {
    let mut memory = MvMemory::new(2, Vec::new(), Vec::new());
    let txs = vec![tx(1, 2, 50, 0), tx(2, 3, 10, 0)];
    let mut evm = ParallelEvm::default();
    evm.reserve(2);
    let after = vec![account(1, word(700_000), 1), account(2, word(1_000_050), 0)];
    let done = execute(&mut memory, chain, &txs[0], version(0, 0), &[1, 2], after, 1000);
    evm.on_executed(version(0, 0), done);
    let spent = U256 { l0: u64::MAX - 10_010, l1: u64::MAX, l2: u64::MAX, l3: u64::MAX };
    let after = vec![account(2, spent, 1), account(3, word(10), 0)];
    let done = execute(&mut memory, chain, &txs[1], version(1, 0), &[], after, 1000);
    evm.on_executed(version(1, 0), done);
    (memory, txs, evm)
}

fn lazy_chain(funds: u64) -> Chain {
    Chain::with_accounts(vec![(address(1), basic(1_000_000, 0)), (address(2), basic(funds, 0))])
}

#[test]
fn lazy_accounts_are_settled() {
    let chain = lazy_chain(1_000_000);
    let (mut memory, txs, mut evm) = lazy_block(&chain);
    assert!(is_settleable(&memory, 2));
    let settled = match evm.conclude(&mut memory, &chain, SpecId::Cancun, &txs) {
        Conclusion::Done(settled) => settled.ok().unwrap(),
        Conclusion::RunSequentially => panic!("the block was not given up"),
    };
    assert!(memory.lazy_addresses().is_empty());
    let gas: Vec<u64> = settled.iter().map(|r| r.receipt.cumulative_gas_used).collect();
    assert_eq!(gas, vec![1000, 2000]);
    let mut states = settled.into_iter().map(listed);
    let first = states.next().unwrap();
    let expected = vec![
        (1, Some((word(700_000), 1))),
        (2, Some((word(1_000_050), 0))),
        (99, Some((word(3000), 0))),
    ];
    assert_eq!(first, expected);
    let second = states.next().unwrap();
    let expected = vec![
        (2, Some((word(990_040), 1))),
        (3, Some((word(10), 0))),
        (99, Some((word(6000), 0))),
    ];
    assert_eq!(second, expected);
}

#[test]
fn a_beneficiary_that_is_written_gets_its_reward() {
    let chain = lazy_chain(1_000_000);
    let mut memory = MvMemory::new(1, Vec::new(), Vec::new());
    let txs = vec![tx(1, 99, 50, 0)];
    let mut evm = ParallelEvm::default();
    evm.reserve(1);
    let after = vec![account(1, word(700_000), 1), account(99, word(50), 0)];
    let done = execute(&mut memory, &chain, &txs[0], version(0, 0), &[1, 99], after, 1000);
    evm.on_executed(version(0, 0), done);
    let settled = match evm.conclude(&mut memory, &chain, SpecId::Cancun, &txs) {
        Conclusion::Done(settled) => settled.ok().unwrap(),
        Conclusion::RunSequentially => panic!("the block was not given up"),
    };
    let states: Vec<Vec<(u32, Option<(U256, u64)>)>> = settled.into_iter().map(listed).collect();
    let expected = vec![(1, Some((word(700_000), 1))), (99, Some((word(3050), 0)))];
    assert_eq!(states[0], expected);
}

#[test]
fn settled_senders_need_funds() {
    let chain = lazy_chain(100);
    let mut memory = MvMemory::new(1, Vec::new(), Vec::new());
    let txs = vec![tx(2, 3, 10, 0)];
    let estimate = {
        let vm = vm();
        let reader = tx(5, 6, 0, 0);
        let db = vm.open(&memory, &chain, 0, &reader).ok().unwrap();
        db.hash_basic(&address(2))
    };
    memory = MvMemory::new(1, vec![(estimate, Vec::new())], Vec::new());
    let spent = U256 { l0: u64::MAX - 10_010, l1: u64::MAX, l2: u64::MAX, l3: u64::MAX };
    let after = vec![account(2, spent, 1), account(3, word(10), 0)];
    let done = execute(&mut memory, &chain, &txs[0], version(0, 0), &[], after, 1000).ok().unwrap();
    let results = vec![done.execution_result];
    let failed = settle_block(&mut memory, &chain, SpecId::Cancun, &txs, results).err();
    let expected = PevmError::ExecutionError(ExecutionError::Transaction(
        InvalidTransaction::LackOfFundForMaxFee { fee: word(210_010), balance: word(100) },
    ));
    assert_eq!(failed, Some(expected));
}

#[test]
fn settled_nonces_have_to_match() {
    let chain = lazy_chain(1_000_000);
    let (mut memory, mut txs, mut evm) = lazy_block(&chain);
    txs[1].nonce = 5;
    let concluded = evm.conclude(&mut memory, &chain, SpecId::Cancun, &txs);
    let failed = match concluded {
        Conclusion::Done(settled) => settled.err(),
        Conclusion::RunSequentially => None,
    };
    let expected = PevmError::NonceMismatch { tx_idx: 1, tx_nonce: 5, executed_nonce: 0 };
    assert_eq!(failed, Some(expected));
}

#[test]
fn blocks_that_were_given_up() {
    let chain = lazy_chain(1_000_000);
    let (mut memory, txs, mut evm) = lazy_block(&chain);
    evm.on_executed(version(0, 0), Err(VmExecutionError::FallbackToSequential));
    let concluded = evm.conclude(&mut memory, &chain, SpecId::Cancun, &txs);
    assert!(matches!(concluded, Conclusion::RunSequentially));
    let custom = ExecutionError::Custom("x".to_string());
    evm.on_executed(version(0, 0), Err(VmExecutionError::ExecutionError(custom.clone())));
    let failed = match evm.conclude(&mut memory, &chain, SpecId::Cancun, &txs) {
        Conclusion::Done(settled) => settled.err(),
        Conclusion::RunSequentially => None,
    };
    assert_eq!(failed, Some(PevmError::ExecutionError(custom)));
}

/// A virtual machine that answers as it is told.
struct Script {
    replies: Vec<Result<RunOutcome, RunFailure>>,
    commits: usize,
}

impl SequentialEvm for Script {
    fn transact(&mut self, _tx: TxEnv) -> Result<RunOutcome, RunFailure> {
        self.replies.remove(0)
    }

    fn commit(&mut self, _outcome: &RunOutcome) {
        self.commits += 1;
    }
}

fn run(gas: u64, balance: u64) -> Result<RunOutcome, RunFailure> {
    Ok(RunOutcome::new(success(gas), vec![account(1, word(balance), 1)]).unwrap())
}

#[test]
fn sequential_blocks() {
    let mut evm = Script { replies: vec![run(10, 4), run(20, 0)], commits: 0 };
    let txs = vec![tx(1, 2, 0, 0), tx(1, 2, 0, 1)];
    let results = execute_revm_sequential(&mut evm, txs, SpecId::Cancun).ok().unwrap();
    assert_eq!(evm.commits, 2);
    let gas: Vec<u64> = results.iter().map(|r| r.receipt.cumulative_gas_used).collect();
    assert_eq!(gas, vec![10, 30]);
    let states: Vec<Vec<(u32, Option<(U256, u64)>)>> = results.into_iter().map(listed).collect();
    assert_eq!(states[0], vec![(1, Some((word(4), 1)))]);
    assert_eq!(states[1], vec![(1, Some((word(0), 1)))]);
}

/// Workers that end as they are told.
struct Workers {
    end: Option<Conclusion>,
    asked: usize,
}

impl ParallelWorkers for Workers {
    fn execute_parallel(&mut self, _evm: &mut ParallelEvm, _txs: &Vec<TxEnv>) -> Conclusion {
        self.asked += 1;
        self.end.take().unwrap()
    }
}

#[test]
fn blocks_are_executed_in_parallel_or_not() {
    let txs = || vec![tx(1, 2, 0, 0), tx(1, 2, 0, 1)];
    let script = || Script { replies: vec![run(10, 4), run(20, 0)], commits: 0 };
    let gas = |results: Vec<PevmTxExecutionResult>| -> Vec<u64> {
        results.iter().map(|r| r.receipt.cumulative_gas_used).collect()
    };
    let mut parallel = ParallelEvm::default();
    for (limit, threads, forced) in [(3_999_999, 2, false), (9_000_000, 3, false), (9_000_000, 2, true)] {
        let mut workers = Workers { end: None, asked: 0 };
        let mut evm = script();
        let done = parallel
            .execute(&mut evm, &mut workers, txs(), SpecId::Cancun, limit, threads, forced)
            .ok()
            .unwrap();
        assert_eq!((gas(done), workers.asked, evm.commits), (vec![10, 30], 0, 2));
    }
    let mut workers = Workers { end: Some(Conclusion::RunSequentially), asked: 0 };
    let mut evm = script();
    let done = parallel
        .execute(&mut evm, &mut workers, txs(), SpecId::Cancun, 9_000_000, 2, false)
        .ok()
        .unwrap();
    assert_eq!((gas(done), workers.asked, evm.commits), (vec![10, 30], 1, 2));
    let mut workers = Workers { end: Some(Conclusion::Done(Ok(Vec::new()))), asked: 0 };
    let mut evm = script();
    let done = parallel
        .execute(&mut evm, &mut workers, txs(), SpecId::Cancun, 9_000_000, 2, false)
        .ok()
        .unwrap();
    assert_eq!((done.len(), workers.asked, evm.commits), (0, 1, 0));
}

#[test]
fn sequential_failures() {
    let read = ExecutionError::Database(ReadError::InvalidMemoryValueType);
    let failure = RunFailure { error: read, message: "no disk".to_string() };
    let mut evm = Script { replies: vec![run(10, 4), Err(failure)], commits: 0 };
    let txs = vec![tx(1, 2, 0, 0), tx(1, 2, 0, 1)];
    let failed = execute_revm_sequential(&mut evm, txs, SpecId::Cancun).err();
    assert_eq!(failed, Some(PevmError::StorageError("no disk".to_string())));
    assert_eq!(evm.commits, 1);
    let header = ExecutionError::Header("bad".to_string());
    let failure = RunFailure { error: header.clone(), message: String::new() };
    let mut evm = Script { replies: vec![Err(failure)], commits: 0 };
    let failed = execute_revm_sequential(&mut evm, vec![tx(1, 2, 0, 0)], SpecId::Cancun).err();
    assert_eq!(failed, Some(PevmError::ExecutionError(header)));
}

/// A state that remembers what it was asked.
#[derive(Default)]
struct Cache {
    loaded: Vec<u32>,
    committed: Vec<AccountChange>,
    fails: bool,
}

impl StateCache for Cache {
    fn load_cache_account(&mut self, address: Address) -> Result<(), String> {
        if self.fails {
            return Err("no disk".to_string());
        }
        self.loaded.push(address.lo);
        Ok(())
    }

    fn storage_ref(&self, _address: &Address, slot: &U256) -> Result<U256, String> {
        if *slot == word(9) { Err("no disk".to_string()) } else { Ok(word(slot.l0 * 10)) }
    }

    fn commit(&mut self, changes: Vec<AccountChange>) {
        self.committed = changes;
    }
}

fn results_of_two() -> Vec<PevmTxExecutionResult> {
    let mut contract = account(8, word(5), 1);
    contract.info.code_hash = hash(88);
    contract.info.code = Some(code(1));
    contract.storage = vec![
        SlotChange { slot: word(3), original: word(0), present: word(31) },
        SlotChange { slot: word(9), original: word(0), present: word(91) },
    ];
    let first = vec![account(1, word(4), 1), contract, account(2, word(7), 0)];
    let second = vec![account(1, word(3), 2), account(2, word(0), 0)];
    vec![
        PevmTxExecutionResult::from_revm(success(1), &first, true),
        PevmTxExecutionResult::from_revm(success(1), &second, true),
    ]
}

#[test]
fn the_last_result_of_an_account_wins() {
    let mut list: Vec<(u32, Option<(U256, u64)>)> = merge_results(results_of_two())
        .iter()
        .map(|entry| (entry.0.lo, entry.1.as_ref().map(|a| (a.balance, a.nonce))))
        .collect();
    list.sort_by_key(|entry| entry.0);
    let expected = vec![(1, Some((word(3), 2))), (2, None), (8, Some((word(5), 1)))];
    assert_eq!(list, expected);
    assert!(merge_results(Vec::new()).is_empty());
}

#[test]
fn slots_of_earlier_results_stay() {
    let touching = |slots: Vec<(u64, u64)>, gone: bool| {
        let mut contract = account(8, word(5), 1);
        contract.selfdestructed = gone;
        contract.storage = slots
            .into_iter()
            .map(|(slot, value)| SlotChange {
                slot: word(slot),
                original: word(0),
                present: word(value),
            })
            .collect();
        PevmTxExecutionResult::from_revm(success(1), &vec![contract], true)
    };
    let slots_after = |results: Vec<PevmTxExecutionResult>| {
        let mut cache = Cache::default();
        assert_eq!(apply_pevm_results_to_state(&mut cache, results), Ok(()));
        let mut slots: Vec<(u64, u64)> = cache.committed[0]
            .storage
            .iter()
            .map(|change| (change.slot.l0, change.present.l0))
            .collect();
        slots.sort();
        slots
    };
    let first = || touching(vec![(1, 10), (3, 30)], false);
    let second = || touching(vec![(2, 20), (3, 31)], false);
    assert_eq!(slots_after(vec![first(), second()]), vec![(1, 10), (2, 20), (3, 31)]);
    let gone = touching(Vec::new(), true);
    assert_eq!(slots_after(vec![first(), gone, second()]), vec![(2, 20), (3, 31)]);
}

#[test]
fn results_are_applied_to_the_state() {
    let mut cache = Cache::default();
    assert_eq!(apply_pevm_results_to_state(&mut cache, results_of_two()), Ok(()));
    cache.loaded.sort();
    assert_eq!(cache.loaded, vec![1, 2, 8]);
    cache.committed.sort_by_key(|change| change.address.lo);
    let changes = &cache.committed;
    assert_eq!(changes.len(), 3);
    assert_eq!((changes[0].info.balance, changes[0].info.nonce), (word(3), 2));
    assert_eq!(changes[0].info.code_hash, keccak_empty());
    assert!(!changes[0].destroyed && changes[0].storage.is_empty());
    assert!(changes[1].destroyed);
    assert_eq!(changes[1].info.balance, word(0));
    assert_eq!(changes[2].info.code_hash, hash(88));
    assert_eq!(changes[2].info.code, Some(code(1)));
    let mut slots = changes[2].storage.clone();
    slots.sort_by_key(|slot| slot.slot.l0);
    let expected = vec![
        SlotChange { slot: word(3), original: word(30), present: word(31) },
        SlotChange { slot: word(9), original: word(0), present: word(91) },
    ];
    assert_eq!(slots, expected);
    assert!(build_changes(&cache, Vec::new()).is_empty());
}

#[test]
fn states_that_cannot_be_loaded() {
    let mut cache = Cache { fails: true, ..Cache::default() };
    let failed = apply_pevm_results_to_state(&mut cache, results_of_two());
    assert_eq!(failed, Err(PevmError::StorageError("no disk".to_string())));
    assert_eq!(apply_pevm_results_to_state(&mut cache, Vec::new()), Ok(()));
    assert!(cache.committed.is_empty());
}

#[test]
fn executors_are_configured() {
    let spec = ChainSpec {
        chain_id: 41,
        spurious_dragon_block: None,
        dao_fork_block: None,
        constantinople_block: None,
        paris_block: None,
        shanghai_time: None,
        cancun_time: None,
        prague_time: None,
    };
    let config = ParallelEthereumExecutorBuilder::new(6).build_evm(Arc::new(spec));
    assert_eq!(config.parallel_factory.concurrency, 6);
    assert_eq!(config.parallel_factory.chain_id, 41);
    assert_eq!(config.parallel_factory.spec_id, SpecId::Cancun);
    assert_eq!(**config.inner.chain_spec(), spec);
    let cores = ParallelEthereumExecutorBuilder::all_cores(Some(3)).build_evm(Arc::new(spec));
    assert_eq!(cores.parallel_factory.concurrency, 3);
    let unknown = ParallelEthereumExecutorBuilder::all_cores(None).build_evm(Arc::new(spec));
    assert_eq!(unknown.parallel_factory.concurrency, 4);
}
