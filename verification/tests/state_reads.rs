use private_chain::evm::assoc::AssocMap;
use private_chain::evm::cached_reads::{
    CachedReads, DatabaseRef, EvmStateProvider, ProviderAccount, StateProviderDatabase,
};
use private_chain::parallel::hashers::{IdentityHasher, SuffixHasher};
use private_chain::parallel::history::WriteHistory;
use private_chain::parallel::memory::{AccountBasic, FinishExecFlags, MemoryEntry, MemoryValue};
use private_chain::parallel::mv_memory::MvMemory;
use private_chain::parallel::state_storage::StateStorage;
use private_chain::parallel::storage::{
    assemble_account, AccountInfo, EvmCode, JumpTable, LegacyCode, Storage, StorageWrapper,
    StorageWrapperError,
};
use private_chain::primitives::{keccak_empty, Address, TxKind, B256, U256};
use std::cell::Cell;
use std::hash::Hasher;
use std::sync::Arc;

fn address(n: u32) -> Address {
    Address { hi: 0, lo: n }
}

fn hash(n: u128) -> B256 {
    B256 { hi: 0, lo: n }
}

fn word(n: u64) -> U256 {
    U256::from_u64(n)
}

fn code() -> Arc<EvmCode> {
    let legacy = LegacyCode {
        bytecode: vec![1, 0],
        original_len: 1,
        jump_table: JumpTable { table: vec![0], len: 1 },
    };
    Arc::new(EvmCode::Legacy(legacy))
}

/// A database that counts how often it was asked.
#[derive(Default)]
struct Counting {
    asked: Cell<usize>,
    fails: bool,
}

impl Counting {
    fn ask(&self) -> Result<(), String> {
        self.asked.set(self.asked.get() + 1);
        if self.fails { Err("no disk".to_string()) } else { Ok(()) }
    }
}

impl EvmStateProvider for &Counting {
    fn basic_account(&self, address: &Address) -> Result<Option<ProviderAccount>, String> {
        self.ask()?;
        let bytecode_hash = if address.lo == 8 { Some(hash(88)) } else { None };
        let account = ProviderAccount { balance: word(5), nonce: 2, bytecode_hash };
        Ok(if address.lo < 10 { Some(account) } else { None })
    }

    fn bytecode_by_hash(&self, h: &B256) -> Result<Option<Arc<EvmCode>>, String> {
        self.ask()?;
        Ok(if *h == hash(88) { Some(code()) } else { None })
    }

    fn storage(&self, _address: &Address, slot: &U256) -> Result<Option<U256>, String> {
        self.ask()?;
        Ok(if slot.l0 < 10 { Some(word(slot.l0 + 100)) } else { None })
    }

    fn block_hash(&self, number: u64) -> Result<Option<B256>, String> {
        self.ask()?;
        Ok(if number < 10 { Some(hash(number as u128)) } else { None })
    }
}

#[test]
fn the_database_is_served() {
    let counting = Counting::default();
    let db = StateProviderDatabase(&counting);
    let contract = db.basic_ref(address(8)).unwrap().unwrap();
    assert_eq!((contract.balance, contract.nonce), (word(5), 2));
    assert_eq!(contract.code_hash, hash(88));
    assert!(contract.code.is_none());
    assert_eq!(db.basic_ref(address(1)).unwrap().unwrap().code_hash, keccak_empty());
    assert!(db.basic_ref(address(11)).unwrap().is_none());
    assert_eq!(db.code_by_hash_ref(hash(88)), Ok(code()));
    assert_eq!(db.code_by_hash_ref(hash(1)), Ok(Arc::new(EvmCode::default())));
    assert_eq!(db.storage_ref(address(1), word(3)), Ok(word(103)));
    assert_eq!(db.storage_ref(address(1), word(30)), Ok(word(0)));
    assert_eq!(db.block_hash_ref(3), Ok(hash(3)));
    assert_eq!(db.block_hash_ref(30), Ok(hash(0)));
}

#[test]
fn reads_are_cached() {
    let counting = Counting::default();
    let mut cached = CachedReads::new();
    let mut db = cached.as_db_mut(StateProviderDatabase(&counting));
    for _ in 0..2 {
        assert_eq!(db.basic_ref(address(8)).unwrap().unwrap().nonce, 2);
        assert!(db.basic_ref(address(11)).unwrap().is_none());
        assert_eq!(db.code_by_hash_ref(hash(88)), Ok(code()));
        assert_eq!(db.storage_ref(address(8), word(3)), Ok(word(103)));
        assert_eq!(db.block_hash_ref(3), Ok(hash(3)));
    }
    assert_eq!(counting.asked.get(), 5);
}

#[test]
fn a_slot_read_first_does_not_hide_the_account() {
    let counting = Counting::default();
    let mut cached = CachedReads::new();
    let mut db = cached.as_db_mut(StateProviderDatabase(&counting));
    assert_eq!(db.storage_ref(address(8), word(3)), Ok(word(103)));
    assert_eq!(db.basic_ref(address(8)).unwrap().unwrap().nonce, 2);
    assert_eq!(db.storage_ref(address(8), word(3)), Ok(word(103)));
    assert_eq!(db.storage_ref(address(8), word(4)), Ok(word(104)));
}

#[test]
fn failures_are_not_cached() {
    let failing = Counting { fails: true, ..Counting::default() };
    let mut cached = CachedReads::new();
    let mut db = cached.as_db_mut(StateProviderDatabase(&failing));
    assert_eq!(db.storage_ref(address(8), word(3)), Err("no disk".to_string()));
    assert_eq!(db.block_hash_ref(3), Err("no disk".to_string()));
    assert_eq!(db.basic_ref(address(8)).err(), Some("no disk".to_string()));
    assert_eq!(db.code_by_hash_ref(hash(88)), Err("no disk".to_string()));
    let working = Counting::default();
    let mut db = cached.as_db_mut(StateProviderDatabase(&working));
    assert_eq!(db.storage_ref(address(8), word(3)), Ok(word(103)));
    assert_eq!(db.basic_ref(address(8)).unwrap().unwrap().nonce, 2);
}

#[test]
fn the_state_is_read_in_parallel() {
    let counting = Counting::default();
    let db = StateProviderDatabase(&counting);
    let storage = StateStorage(&db);
    let expected = AccountBasic { balance: word(5), nonce: 2 };
    assert_eq!(storage.basic(&address(8)), Ok(Some(expected)));
    assert_eq!(storage.basic(&address(11)), Ok(None));
    assert_eq!(storage.code_hash(&address(8)), Ok(Some(hash(88))));
    assert_eq!(storage.code_hash(&address(1)), Ok(None));
    assert_eq!(storage.code_by_hash(&hash(88)), Ok(Some(code())));
    assert_eq!(storage.code_by_hash(&hash(1)), Ok(None));
    assert_eq!(storage.has_storage(&address(8)), Ok(false));
    assert_eq!(storage.storage(&address(8), &word(3)), Ok(word(103)));
    assert_eq!(storage.block_hash(&3), Ok(hash(3)));
    let failing = Counting { fails: true, ..Counting::default() };
    let db = StateProviderDatabase(&failing);
    let storage = StateStorage(&db);
    let message = Err("EVM database error: no disk".to_string());
    assert_eq!(storage.block_hash(&3), message);
    assert_eq!(storage.storage(&address(8), &word(3)).err(), message.err());
}

#[test]
fn storage_is_wrapped_for_the_machine() {
    let counting = Counting::default();
    let db = StateProviderDatabase(&counting);
    let storage = StateStorage(&db);
    let wrapper = StorageWrapper(&storage);
    let contract = wrapper.basic(address(8)).ok().unwrap().unwrap();
    assert_eq!(contract.code_hash, hash(88));
    assert_eq!(contract.code, Some(code()));
    let plain = wrapper.basic(address(1)).ok().unwrap().unwrap();
    assert_eq!(plain.code_hash, keccak_empty());
    assert!(plain.code.is_none());
    assert!(wrapper.basic(address(11)).ok().unwrap().is_none());
    assert_eq!(wrapper.code_by_hash(hash(88)).ok(), Some(code()));
    assert_eq!(wrapper.code_by_hash(hash(1)).ok(), Some(Arc::new(EvmCode::default())));
    assert_eq!(wrapper.storage(address(1), word(3)).ok(), Some(word(103)));
    assert_eq!(wrapper.block_hash(3).ok(), Some(hash(3)));
    let failing = Counting { fails: true, ..Counting::default() };
    let db = StateProviderDatabase(&failing);
    let storage = StateStorage(&db);
    let failed = StorageWrapper(&storage).block_hash(3).err().unwrap();
    let message = "EVM database error: no disk".to_string();
    assert!(matches!(failed, StorageWrapperError::StorageError(text) if text == message));
}

#[test]
fn accounts_are_assembled() {
    let basic = AccountBasic { balance: word(1), nonce: 2 };
    let made = assemble_account(basic, Some(hash(3)), Some(code()));
    assert_eq!((made.balance, made.nonce, made.code_hash), (word(1), 2, hash(3)));
    assert!(!made.is_empty_code_hash() && !made.is_empty());
    let empty = AccountInfo {
        balance: word(0),
        nonce: 0,
        code_hash: keccak_empty(),
        code: None,
    };
    assert!(empty.is_empty());
    assert!(empty.is_empty_code_hash());
}

#[test]
fn histories_are_ordered() {
    let value = |n: u64| MemoryEntry::Data(0, MemoryValue::Storage(word(n)));
    let mut history = WriteHistory::new();
    assert_eq!(history.closest(10), None);
    history.insert(5, value(5));
    history.insert(1, value(1));
    history.insert(3, MemoryEntry::Estimate);
    history.insert(5, value(50));
    assert_eq!(history.below(5), vec![(3, MemoryEntry::Estimate), (1, value(1))]);
    assert_eq!(history.closest(5), Some((3, MemoryEntry::Estimate)));
    assert_eq!(history.closest(6), Some((5, value(50))));
    assert_eq!(history.closest(1), None);
    history.remove(3);
    history.remove(4);
    assert_eq!(history.clone().below(9), vec![(5, value(50)), (1, value(1))]);
}

#[test]
fn expected_writes_are_estimates() {
    let mut memory = MvMemory::new(2, vec![(7, vec![0, 1])], vec![address(1), address(1)]);
    assert!(memory.has_location(7));
    assert!(!memory.has_location(8));
    let entries = memory.history(7).unwrap().below(2);
    assert_eq!(entries, vec![(1, MemoryEntry::Estimate), (0, MemoryEntry::Estimate)]);
    memory.add_lazy_addresses(vec![address(2), address(1)]);
    let mut lazy = memory.consume_lazy_addresses();
    lazy.sort_by_key(|a| a.lo);
    assert_eq!(lazy, vec![address(1), address(2)]);
    assert!(memory.consume_lazy_addresses().is_empty());
    memory.deploy_code(hash(3), code());
    assert_eq!(memory.deployed_code(hash(3)), Some(code()));
}

#[test]
fn hashers_take_what_they_are_given() {
    let mut suffix = SuffixHasher::new();
    let mut bytes = vec![0u8; 24];
    bytes.extend([1, 2, 3, 4, 5, 6, 7, 8]);
    suffix.write(&bytes);
    assert_eq!(suffix.finish(), 0x0102_0304_0506_0708);
    let mut identity = IdentityHasher::new();
    identity.write_u64(0xdead_beef);
    assert_eq!(identity.finish(), 0xdead_beef);
    identity.write_usize(77);
    assert_eq!(identity.finish(), 77);
}

#[test]
fn flags() {
    assert_eq!(FinishExecFlags::empty().bits, 0);
    let needed = FinishExecFlags::need_validation();
    let wrote = FinishExecFlags::empty().with_new_location();
    assert!(!wrote.contains(needed) && !needed.contains(wrote));
    assert!(!FinishExecFlags::empty().contains(wrote));
    assert!(!FinishExecFlags::empty().contains(needed));
    let both = needed.with_new_location();
    assert!(both.contains(needed) && both.contains(wrote));
}

#[test]
fn association_maps() {
    let mut map: AssocMap<u64, char> = AssocMap::new();
    map.insert(1, 'a');
    map.insert(2, 'b');
    map.insert(1, 'c');
    assert_eq!(map.get(1), Some(&'c'));
    assert_eq!(map.get(3), None);
    assert_eq!(map.entries().len(), 2);
    assert_eq!(map.take(1), Some('c'));
    assert_eq!(map.take(1), None);
}

#[test]
fn words() {
    let big = U256 { l0: 1, l1: 1, l2: 0, l3: 0 };
    assert_eq!(U256::from_u128(0x1_0000_0000_0000_0001), big);
    assert_eq!(big.saturating_to_u64(), u64::MAX);
    assert_eq!(word(9).saturating_to_u64(), 9);
    assert!(word(9).less_than(&big));
    assert!(!big.less_than(&big));
    assert!(U256::zero().is_zero() && !big.is_zero());
    assert!(big.less_than(&U256::max_value()));
    let bytes = B256 { hi: 1, lo: 2 }.to_bytes();
    assert_eq!(bytes.len(), 32);
    assert_eq!((bytes[15], bytes[31]), (1, 2));
    assert_eq!(TxKind::Call(address(3)).to(), Some(address(3)));
    assert_eq!(TxKind::Create.to(), None);
    let empty = B256 {
        hi: 0xc5d2460186f7233c927e7db2dcc703c0,
        lo: 0xe500b653ca82273b7bfad8045d85a470,
    };
    assert_eq!(keccak_empty(), empty);
}
