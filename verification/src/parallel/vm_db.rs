//! The reads of one execution: from the multi-version memory where an earlier transaction has
//! written, from storage otherwise, and every one of them remembered with its origin.

use crate::evm::tx_env::TxEnv;
use crate::parallel::collections::{ReadAccounts, ReadOrigins, ReadSet};
use crate::parallel::history::{closest_before, descending, lemma_closest_before};
use crate::parallel::memory::{
    hash_deterministic, location_hash, AccountBasic, MemoryEntry, MemoryLocation,
    MemoryLocationHash, MemoryValue, ReadOrigin, TxIdx, TxVersion,
};
use crate::parallel::mv_memory::{entries_at, MemoryData, MvMemory};
use crate::parallel::storage::{
    answers_basic, answers_block_hash, answers_code, answers_code_hash, answers_slot,
    assemble_account, assembled, AccountInfo, BytecodeConversionError, EvmCode, Storage,
};
use crate::primitives::{
    clamp, keccak_empty, keccak_empty_spec, lemma_u256_bounds, u256_max, Address, TxKind, B256, U256,
};
use std::sync::Arc;
use vstd::prelude::*;

verus! {

/// Error reading a memory location during parallel execution.
#[derive(Clone, PartialEq, Eq, Debug)]
pub enum ReadError {
    /// Storage failed, with the message it gave.
    StorageError(String),
    /// The value depends on a transaction that has to execute first.
    Blocking(TxIdx),
    /// A location read before has changed since.
    InconsistentRead,
    /// The nonce of the transaction is not that of its sender.
    InvalidNonce(TxIdx),
    /// The account was self-destructed earlier in the block.
    SelfDestructedAccount,
    InvalidBytecode(BytecodeConversionError),
    /// A value of the wrong kind stands at the location.
    InvalidMemoryValueType,
}

/// What a read of a location that other reads have gone before makes of its origins: a first read
/// sets the origin, a later one has to find the last one again.
pub open spec fn pushed(origins: Seq<ReadOrigin>, origin: ReadOrigin) -> Option<Seq<ReadOrigin>> {
    if origins.len() == 0 {
        Some(seq![origin])
    } else if origins.last() == origin {
        Some(origins)
    } else {
        None
    }
}

/// The origins remembered of a location; none where it was not read.
pub open spec fn origins_at(
    reads: Map<MemoryLocationHash, Seq<ReadOrigin>>,
    location: MemoryLocationHash,
) -> Seq<ReadOrigin> {
    if reads.contains_key(location) {
        reads[location]
    } else {
        Seq::empty()
    }
}

/// The origins that stay: those of the first read.
pub open spec fn kept(prior: Seq<ReadOrigin>, found: Seq<ReadOrigin>) -> Seq<ReadOrigin> {
    if prior.len() == 0 {
        found
    } else {
        prior
    }
}

/// The version that an entry carries.
pub open spec fn version_of(entry: (TxIdx, MemoryEntry)) -> TxVersion {
    TxVersion {
        tx_idx: entry.0,
        tx_incarnation: match entry.1 {
            MemoryEntry::Data(incarnation, _) => incarnation,
            MemoryEntry::Estimate => 0,
        },
    }
}

/// The origins that a read finds for the first `depth` entries of a list.
pub open spec fn versions(entries: Seq<(TxIdx, MemoryEntry)>, depth: nat) -> Seq<ReadOrigin> {
    Seq::new(depth, |j: int| ReadOrigin::MvMemory(version_of(entries[j])))
}

/// What a look into the memory gives: the origins of the location after it, and a value, a request
/// to ask storage (`None`), or an error.
pub struct Lookup<T> {
    pub origins: Seq<ReadOrigin>,
    pub found: Result<Option<T>, ReadError>,
}

/// A look that ends at the given origin.
pub open spec fn looked_at<T>(
    origins: Seq<ReadOrigin>,
    origin: ReadOrigin,
    value: Option<T>,
) -> Lookup<T> {
    match pushed(origins, origin) {
        Some(o) => Lookup { origins: o, found: Ok(value) },
        None => Lookup { origins, found: Err(ReadError::InconsistentRead) },
    }
}

/// The code hash of an account: the hash that the closest earlier transaction has left, unless it
/// destroyed the account; else that of storage.
pub open spec fn code_hash_lookup(
    data: MemoryData,
    tx_idx: TxIdx,
    location: MemoryLocationHash,
    origins: Seq<ReadOrigin>,
) -> Lookup<B256> {
    match closest_before(entries_at(data, location), tx_idx) {
        Some((k, MemoryEntry::Data(_, MemoryValue::SelfDestructed))) => Lookup {
            origins,
            found: Err(ReadError::SelfDestructedAccount),
        },
        Some((k, MemoryEntry::Data(incarnation, MemoryValue::CodeHash(h)))) => looked_at(
            origins,
            ReadOrigin::MvMemory(TxVersion { tx_idx: k, tx_incarnation: incarnation }),
            Some(h),
        ),
        _ => looked_at(origins, ReadOrigin::Storage, None),
    }
}

/// The value of a storage slot: the one that the closest earlier transaction has left, else that of
/// storage.
pub open spec fn slot_lookup(
    data: MemoryData,
    tx_idx: TxIdx,
    location: MemoryLocationHash,
    origins: Seq<ReadOrigin>,
) -> Lookup<U256> {
    match closest_before(entries_at(data, location), tx_idx) {
        Some((k, MemoryEntry::Data(incarnation, MemoryValue::Storage(v)))) => looked_at(
            origins,
            ReadOrigin::MvMemory(TxVersion { tx_idx: k, tx_incarnation: incarnation }),
            Some(v),
        ),
        Some((k, MemoryEntry::Estimate)) => Lookup { origins, found: Err(ReadError::Blocking(k)) },
        Some(_) => Lookup { origins, found: Err(ReadError::InvalidMemoryValueType) },
        None => looked_at(origins, ReadOrigin::Storage, None),
    }
}

/// Where a walk back through the entries of an account ended: the account that it found, if any,
/// what the lazy entries on the way add to its balance (never more than a word either way) and
/// nonce, and how many entries it saw.
pub struct Walked {
    pub base: Option<AccountBasic>,
    pub delta: int,
    pub nonce_add: nat,
    pub depth: nat,
}

/// The walk back from the entry `i`, with what the entries before it have added up to. It ends at
/// the first full account. With origins from an earlier read, every entry has to be the one that
/// was found then.
pub open spec fn walk(
    entries: Seq<(TxIdx, MemoryEntry)>,
    prior: Seq<ReadOrigin>,
    i: nat,
    delta: int,
    nonce_add: nat,
) -> Result<Walked, ReadError>
    decreases entries.len() - i,
{
    if i >= entries.len() {
        Ok(Walked { base: None, delta, nonce_add, depth: i })
    } else {
        match entries[i as int].1 {
            MemoryEntry::Estimate => Err(ReadError::Blocking(entries[i as int].0)),
            MemoryEntry::Data(_, value) => {
                let origin = ReadOrigin::MvMemory(version_of(entries[i as int]));
                if prior.len() > 0 && (i >= prior.len() || prior[i as int] != origin) {
                    Err(ReadError::InconsistentRead)
                } else {
                    match value {
                        MemoryValue::Basic(basic) => Ok(
                            Walked { base: Some(basic), delta, nonce_add, depth: i + 1 },
                        ),
                        MemoryValue::LazyRecipient(add) => walk(
                            entries,
                            prior,
                            i + 1,
                            clamp(delta + add@, -u256_max(), u256_max()),
                            nonce_add,
                        ),
                        MemoryValue::LazySender(sub) => walk(
                            entries,
                            prior,
                            i + 1,
                            clamp(delta - sub@, -u256_max(), u256_max()),
                            nonce_add + 1,
                        ),
                        _ => Err(ReadError::InvalidMemoryValueType),
                    }
                }
            },
        }
    }
}

/// Whether `r` is the code hash of an account, given what the memory has found: that, or what
/// storage replies.
pub open spec fn code_hash_read<S: Storage>(
    storage: &S,
    address: Address,
    found: Result<Option<B256>, ReadError>,
    r: Result<Option<B256>, ReadError>,
) -> bool {
    match found {
        Err(e) => r == Err::<Option<B256>, _>(e),
        Ok(Some(h)) => r == Ok::<_, ReadError>(Some(h)),
        Ok(None) => exists|reply: Result<Option<B256>, String>| #[trigger]
            answers_code_hash(storage, address, reply) && match reply {
                Ok(v) => r == Ok::<_, ReadError>(v),
                Err(e) => r == Err::<Option<B256>, _>(ReadError::StorageError(e)),
            },
    }
}

/// What a walk back through the entries of an account has found.
struct WalkResult {
    base: Option<AccountBasic>,
    balance_add: U256,
    positive: bool,
    nonce_add: u64,
    origins: ReadOrigins,
}

impl WalkResult {
    /// What the lazy entries add to the balance.
    spec fn delta(self) -> int {
        if self.positive {
            self.balance_add@
        } else {
            -self.balance_add@
        }
    }

    /// Only a difference below zero is marked negative, and it is one that a balance can lose.
    spec fn wf(self) -> bool {
        !self.positive ==> self.balance_add@ > 0
    }

    /// Whether this is where the given walk through the entries ended.
    spec fn is_walked(self, entries: Seq<(TxIdx, MemoryEntry)>, w: Walked) -> bool {
        &&& self.wf()
        &&& self.base == w.base
        &&& self.delta() == w.delta
        &&& self.nonce_add == w.nonce_add
        &&& self.origins@ == versions(entries, w.depth)
    }
}

/// Walks back through the entries of an account.
fn walk_back(entries: &Vec<(TxIdx, MemoryEntry)>, prior: &ReadOrigins) -> (r: Result<
    WalkResult,
    ReadError,
>)
    ensures
        match walk(entries@, prior@, 0, 0, 0) {
            Ok(w) => r matches Ok(result) && result.is_walked(entries@, w),
            Err(e) => r == Err::<WalkResult, _>(e),
        },
{
    let has_prev = prior.len() > 0;
    let mut result = WalkResult {
        base: None,
        balance_add: U256::zero(),
        positive: true,
        nonce_add: 0,
        origins: ReadOrigins::new(),
    };
    let mut i: usize = 0;
    assert(result.origins@ =~= versions(entries@, 0));
    while i < entries.len()
        invariant
            i <= entries@.len(),
            has_prev == (prior@.len() > 0),
            result.base is None,
            result.wf(),
            result.nonce_add <= i,
            result.origins@ == versions(entries@, i as nat),
            walk(entries@, prior@, 0, 0, 0) == walk(
                entries@,
                prior@,
                i as nat,
                result.delta(),
                result.nonce_add as nat,
            ),
        decreases entries@.len() - i,
    {
        let (tx_idx, entry) = entries[i];
        let (tx_incarnation, value) = match entry {
            MemoryEntry::Estimate => {
                return Err(ReadError::Blocking(tx_idx));
            },
            MemoryEntry::Data(tx_incarnation, value) => (tx_incarnation, value),
        };
        let origin = ReadOrigin::MvMemory(TxVersion { tx_idx, tx_incarnation });
        if has_prev && (i >= prior.len() || prior.get(i) != origin) {
            return Err(ReadError::InconsistentRead);
        }
        result.origins.push(origin);
        assert(result.origins@ =~= versions(entries@, (i + 1) as nat));
        proof {
            lemma_u256_bounds(result.balance_add);
        }
        match value {
            MemoryValue::Basic(basic) => {
                result.base = Some(basic);
                return Ok(result);
            },
            MemoryValue::LazyRecipient(add) => {
                proof {
                    lemma_u256_bounds(add);
                }
                if result.positive {
                    result.balance_add = result.balance_add.saturating_add(add);
                } else {
                    result.positive = !add.less_than(&result.balance_add);
                    result.balance_add = result.balance_add.abs_diff(add);
                }
            },
            MemoryValue::LazySender(sub) => {
                proof {
                    lemma_u256_bounds(sub);
                }
                if result.positive {
                    result.positive = !result.balance_add.less_than(&sub);
                    result.balance_add = result.balance_add.abs_diff(sub);
                } else {
                    result.balance_add = result.balance_add.saturating_add(sub);
                }
                result.nonce_add = result.nonce_add + 1;
            },
            _ => {
                return Err(ReadError::InvalidMemoryValueType);
            },
        }
        i = i + 1;
    }
    Ok(result)
}

/// The account that a base account and the lazy entries after it make.
pub open spec fn settles_to(base: AccountBasic, w: Walked, account: AccountBasic) -> bool {
    &&& account.nonce == (base.nonce + w.nonce_add) % 0x1_0000_0000_0000_0000
    &&& account.balance@ == clamp(base.balance@ + w.delta, 0, u256_max())
}

/// Settles the lazy entries on the base account.
fn settle(base: AccountBasic, result: &WalkResult) -> (r: AccountBasic)
    requires
        result.wf(),
    ensures
        forall|w: Walked|
            w.delta == result.delta() && w.nonce_add == result.nonce_add ==> #[trigger] settles_to(
                base,
                w,
                r,
            ),
{
    let balance = if result.positive {
        base.balance.saturating_add(result.balance_add)
    } else {
        base.balance.saturating_sub(result.balance_add)
    };
    proof {
        lemma_u256_bounds(base.balance);
        lemma_u256_bounds(result.balance_add);
    }
    AccountBasic { balance, nonce: base.nonce.wrapping_add(result.nonce_add) }
}

/// The database that one execution reads from.
pub struct VmDb<'a, S> {
    pub mv_memory: &'a MvMemory,
    pub storage: &'a S,
    pub tx_idx: TxIdx,
    pub from_hash: MemoryLocationHash,
    pub to_hash: Option<MemoryLocationHash>,
    pub to_code_hash: Option<B256>,
    /// Whether the transaction is a plain transfer whose accounts are settled at the end of the
    /// block.
    pub is_lazy: bool,
    pub read_set: ReadSet,
    pub read_accounts: ReadAccounts,
    pub tx_kind: TxKind,
    pub tx_caller: Address,
    pub tx_nonce: u64,
    pub tx_value: U256,
}

/// Adds the origin of a read, or finds it where one was added before.
fn push_origin(origins: &mut ReadOrigins, origin: ReadOrigin) -> (r: Result<(), ReadError>)
    ensures
        match pushed(old(origins)@, origin) {
            Some(o) => r == Ok::<(), ReadError>(()) && final(origins)@ == o,
            None => r == Err::<(), ReadError>(ReadError::InconsistentRead) && final(origins)@
                == old(origins)@,
        },
{
    let n: usize = origins.len();
    if n > 0 {
        if origins.get(n - 1) != origin {
            return Err(ReadError::InconsistentRead);
        }
    } else {
        origins.push(origin);
        assert(origins@ =~= seq![origin]);
    }
    Ok(())
}

impl<'a, S: Storage> VmDb<'a, S> {
    /// A called address has its hash.
    pub open spec fn wf(self) -> bool {
        &&& self.mv_memory.wf()
        &&& self.tx_kind is Call ==> self.to_hash is Some
    }

    /// Whether two states differ at most in what was read.
    pub open spec fn same_setting(self, other: Self) -> bool {
        &&& self.mv_memory == other.mv_memory
        &&& self.storage == other.storage
        &&& self.tx_idx == other.tx_idx
        &&& self.from_hash == other.from_hash
        &&& self.to_hash == other.to_hash
        &&& self.to_code_hash == other.to_code_hash
        &&& self.is_lazy == other.is_lazy
        &&& self.tx_kind == other.tx_kind
        &&& self.tx_caller == other.tx_caller
        &&& self.tx_nonce == other.tx_nonce
        &&& self.tx_value == other.tx_value
    }

    /// The hash of an account's location. Those of the sender and of the called address are at
    /// hand.
    pub open spec fn basic_hash(self, address: Address) -> MemoryLocationHash {
        if address == self.tx_caller {
            self.from_hash
        } else if self.tx_kind == TxKind::Call(address) {
            self.to_hash->0
        } else {
            location_hash(MemoryLocation::Basic(address))
        }
    }

    pub fn hash_basic(&self, address: &Address) -> (r: MemoryLocationHash)
        requires
            self.wf(),
        ensures
            r == self.basic_hash(*address),
    {
        if *address == self.tx_caller {
            return self.from_hash;
        }
        if let TxKind::Call(to) = self.tx_kind {
            if to == *address {
                return self.to_hash.unwrap();
            }
        }
        hash_deterministic(MemoryLocation::Basic(*address))
    }

    /// Looks for the code hash in the memory; `None` asks for storage.
    fn look_up_code_hash(&mut self, location: MemoryLocationHash) -> (r: Result<
        Option<B256>,
        ReadError,
    >)
        ensures
            final(self).same_setting(*old(self)),
            final(self).read_accounts == old(self).read_accounts,
            ({
                let look = code_hash_lookup(
                    old(self).mv_memory@.data,
                    old(self).tx_idx,
                    location,
                    origins_at(old(self).read_set@, location),
                );
                final(self).read_set@ == old(self).read_set@.insert(location, look.origins) && r
                    == look.found
            }),
    {
        let ghost reads = self.read_set@;
        let mut origins = match self.read_set.take(location) {
            Some(origins) => origins,
            None => ReadOrigins::new(),
        };
        let closest = match self.mv_memory.history(location) {
            Some(history) => history.closest(self.tx_idx),
            None => None,
        };
        proof {
            lemma_closest_before(Map::empty(), self.tx_idx);
        }
        let r = match closest {
            Some((_, MemoryEntry::Data(_, MemoryValue::SelfDestructed))) => Err(
                ReadError::SelfDestructedAccount,
            ),
            Some((tx_idx, MemoryEntry::Data(tx_incarnation, MemoryValue::CodeHash(hash)))) => {
                let version = TxVersion { tx_idx, tx_incarnation };
                match push_origin(&mut origins, ReadOrigin::MvMemory(version)) {
                    Ok(_) => Ok(Some(hash)),
                    Err(e) => Err(e),
                }
            },
            _ => match push_origin(&mut origins, ReadOrigin::Storage) {
                Ok(_) => Ok(None),
                Err(e) => Err(e),
            },
        };
        self.read_set.insert(location, origins);
        assert(reads.remove(location).insert(location, origins@) =~= reads.insert(
            location,
            origins@,
        ));
        r
    }

    /// The code hash of an account, as the transaction sees it.
    pub fn get_code_hash(&mut self, address: Address) -> (r: Result<Option<B256>, ReadError>)
        ensures
            final(self).same_setting(*old(self)),
            final(self).read_accounts == old(self).read_accounts,
            ({
                let location = location_hash(MemoryLocation::CodeHash(address));
                let look = code_hash_lookup(
                    old(self).mv_memory@.data,
                    old(self).tx_idx,
                    location,
                    origins_at(old(self).read_set@, location),
                );
                &&& final(self).read_set@ == old(self).read_set@.insert(location, look.origins)
                &&& code_hash_read(old(self).storage, address, look.found, r)
            }),
    {
        let location = hash_deterministic(MemoryLocation::CodeHash(address));
        match self.look_up_code_hash(location) {
            Err(e) => Err(e),
            Ok(Some(hash)) => Ok(Some(hash)),
            Ok(None) => {
                let reply = self.storage.code_hash(&address);
                assert(answers_code_hash(self.storage, address, reply));
                match reply {
                    Ok(v) => Ok(v),
                    Err(e) => Err(ReadError::StorageError(e)),
                }
            },
        }
    }

    /// Whether the database is set up for the transaction at the index, and no account was read.
    pub open spec fn is_set_up(
        self,
        mv_memory: &MvMemory,
        storage: &S,
        tx_idx: TxIdx,
        tx: TxEnv,
        from_hash: MemoryLocationHash,
        to_hash: Option<MemoryLocationHash>,
    ) -> bool {
        &&& self.mv_memory == mv_memory
        &&& self.storage == storage
        &&& self.tx_idx == tx_idx
        &&& self.from_hash == from_hash
        &&& self.to_hash == to_hash
        &&& self.tx_kind == tx.kind
        &&& self.tx_caller == tx.caller
        &&& self.tx_nonce == tx.nonce
        &&& self.tx_value == tx.value
        &&& self.read_accounts@ == Map::<
            MemoryLocationHash,
            (AccountBasic, Option<B256>),
        >::empty()
    }

    /// Whether `r` is the database that a transaction starts with: it is set up for the transaction.
    /// The code hash of a called address is read first. A call to an account without code is lazy, if its sender or its
    /// recipient occurs in the memory.
    pub open spec fn started(
        mv_memory: &MvMemory,
        storage: &S,
        tx_idx: TxIdx,
        tx: TxEnv,
        from_hash: MemoryLocationHash,
        to_hash: Option<MemoryLocationHash>,
        r: Result<Self, ReadError>,
    ) -> bool {
        &&& r matches Ok(db) ==> db.is_set_up(mv_memory, storage, tx_idx, tx, from_hash, to_hash)
        &&& match tx.kind {
            TxKind::Create => r matches Ok(db) && db.to_code_hash is None && !db.is_lazy
                && db.read_set@ == Map::<MemoryLocationHash, Seq<ReadOrigin>>::empty(),
            TxKind::Call(to) => {
                let location = location_hash(MemoryLocation::CodeHash(to));
                let look = code_hash_lookup(mv_memory@.data, tx_idx, location, Seq::empty());
                match r {
                    Ok(db) => {
                        &&& code_hash_read(storage, to, look.found, Ok(db.to_code_hash))
                        &&& db.is_lazy == (db.to_code_hash is None && (
                        mv_memory@.data.contains_key(from_hash) || mv_memory@.data.contains_key(
                            to_hash->0,
                        )))
                        &&& db.read_set@ == Map::<
                            MemoryLocationHash,
                            Seq<ReadOrigin>,
                        >::empty().insert(location, look.origins)
                    },
                    Err(e) => code_hash_read(storage, to, look.found, Err(e)),
                }
            },
        }
    }

    /// Opens the database for a transaction.
    pub fn new(
        mv_memory: &'a MvMemory,
        storage: &'a S,
        tx_idx: TxIdx,
        tx: &TxEnv,
        from_hash: MemoryLocationHash,
        to_hash: Option<MemoryLocationHash>,
    ) -> (r: Result<Self, ReadError>)
        requires
            mv_memory.wf(),
            tx.kind is Call ==> to_hash is Some,
        ensures
            Self::started(mv_memory, storage, tx_idx, *tx, from_hash, to_hash, r),
            r matches Ok(db) ==> db.wf(),
    {
        let mut db = VmDb {
            mv_memory,
            storage,
            tx_idx,
            from_hash,
            to_hash,
            to_code_hash: None,
            is_lazy: false,
            read_set: ReadSet::with_capacity(2),
            read_accounts: ReadAccounts::with_capacity(2),
            tx_kind: tx.kind,
            tx_caller: tx.caller,
            tx_nonce: tx.nonce,
            tx_value: tx.value,
        };
        assert(db.read_set@ =~= Map::empty());
        assert(db.read_accounts@ =~= Map::empty());
        if let TxKind::Call(to) = tx.kind {
            match db.get_code_hash(to) {
                Ok(code_hash) => {
                    db.to_code_hash = code_hash;
                    db.is_lazy = code_hash.is_none() && (mv_memory.has_location(from_hash)
                        || mv_memory.has_location(to_hash.unwrap()));
                },
                Err(e) => {
                    return Err(e);
                },
            }
        }
        Ok(db)
    }

    /// The value of a storage slot, as the transaction sees it.
    pub fn storage(&mut self, address: Address, index: U256) -> (r: Result<U256, ReadError>)
        ensures
            final(self).same_setting(*old(self)),
            final(self).read_accounts == old(self).read_accounts,
            ({
                let location = location_hash(MemoryLocation::Storage(address, index));
                let look = slot_lookup(
                    old(self).mv_memory@.data,
                    old(self).tx_idx,
                    location,
                    origins_at(old(self).read_set@, location),
                );
                &&& final(self).read_set@ == old(self).read_set@.insert(location, look.origins)
                &&& match look.found {
                    Err(e) => r == Err::<U256, _>(e),
                    Ok(Some(v)) => r == Ok::<_, ReadError>(v),
                    Ok(None) => exists|reply: Result<U256, String>| #[trigger]
                        answers_slot(old(self).storage, address, index, reply) && match reply {
                            Ok(v) => r == Ok::<_, ReadError>(v),
                            Err(e) => r == Err::<U256, _>(ReadError::StorageError(e)),
                        },
                }
            }),
    {
        let location = hash_deterministic(MemoryLocation::Storage(address, index));
        match self.look_up_slot(location) {
            Err(e) => Err(e),
            Ok(Some(v)) => Ok(v),
            Ok(None) => {
                let reply = self.storage.storage(&address, &index);
                assert(answers_slot(self.storage, address, index, reply));
                match reply {
                    Ok(v) => Ok(v),
                    Err(e) => Err(ReadError::StorageError(e)),
                }
            },
        }
    }

    /// Looks for a storage slot in the memory; `None` asks for storage.
    fn look_up_slot(&mut self, location: MemoryLocationHash) -> (r: Result<Option<U256>, ReadError>)
        ensures
            final(self).same_setting(*old(self)),
            final(self).read_accounts == old(self).read_accounts,
            ({
                let look = slot_lookup(
                    old(self).mv_memory@.data,
                    old(self).tx_idx,
                    location,
                    origins_at(old(self).read_set@, location),
                );
                final(self).read_set@ == old(self).read_set@.insert(location, look.origins) && r
                    == look.found
            }),
    {
        let ghost reads = self.read_set@;
        let mut origins = match self.read_set.take(location) {
            Some(origins) => origins,
            None => ReadOrigins::new(),
        };
        let closest = match self.mv_memory.history(location) {
            Some(history) => history.closest(self.tx_idx),
            None => None,
        };
        proof {
            lemma_closest_before(Map::empty(), self.tx_idx);
        }
        let r = match closest {
            Some((tx_idx, MemoryEntry::Data(tx_incarnation, MemoryValue::Storage(value)))) => {
                let version = TxVersion { tx_idx, tx_incarnation };
                match push_origin(&mut origins, ReadOrigin::MvMemory(version)) {
                    Ok(_) => Ok(Some(value)),
                    Err(e) => Err(e),
                }
            },
            Some((tx_idx, MemoryEntry::Estimate)) => Err(ReadError::Blocking(tx_idx)),
            Some(_) => Err(ReadError::InvalidMemoryValueType),
            None => match push_origin(&mut origins, ReadOrigin::Storage) {
                Ok(_) => Ok(None),
                Err(e) => Err(e),
            },
        };
        self.read_set.insert(location, origins);
        assert(reads.remove(location).insert(location, origins@) =~= reads.insert(
            location,
            origins@,
        ));
        r
    }

    /// The code under a hash, or the default code where storage has none.
    pub fn code_by_hash(&self, code_hash: B256) -> (r: Result<Arc<EvmCode>, ReadError>)
        ensures
            exists|code: Result<Option<Arc<EvmCode>>, String>| #[trigger]
                answers_code(self.storage, code_hash, code) && match code {
                    Err(e) => r == Err::<Arc<EvmCode>, _>(ReadError::StorageError(e)),
                    Ok(Some(c)) => r == Ok::<_, ReadError>(c),
                    Ok(None) => r matches Ok(c) && c.is_default(),
                },
    {
        let code = self.storage.code_by_hash(&code_hash);
        assert(answers_code(self.storage, code_hash, code));
        match code {
            Err(e) => Err(ReadError::StorageError(e)),
            Ok(Some(c)) => Ok(c),
            Ok(None) => Ok(Arc::new(EvmCode::default())),
        }
    }

    /// The hash of an earlier block.
    pub fn block_hash(&self, number: u64) -> (r: Result<B256, ReadError>)
        ensures
            exists|reply: Result<B256, String>| #[trigger]
                answers_block_hash(self.storage, number, reply) && match reply {
                    Err(e) => r == Err::<B256, _>(ReadError::StorageError(e)),
                    Ok(h) => r == Ok::<_, ReadError>(h),
                },
    {
        let reply = self.storage.block_hash(&number);
        assert(answers_block_hash(self.storage, number, reply));
        match reply {
            Err(e) => Err(ReadError::StorageError(e)),
            Ok(h) => Ok(h),
        }
    }

    /// Whether `r` hands out the account with its code, and the account is noted. The code is that
    /// which the block has deployed under the hash, else that of storage.
    pub open spec fn handed_out(
        self,
        location: MemoryLocationHash,
        account: AccountBasic,
        code_hash: Option<B256>,
        r: Result<Option<AccountInfo>, ReadError>,
        after: Self,
    ) -> bool {
        let noted = self.read_accounts@.insert(location, (account, code_hash));
        match code_hash {
            None => r == Ok::<_, ReadError>(Some(assembled(account, None, None)))
                && after.read_accounts@ == noted,
            Some(h) => if self.mv_memory@.codes.contains_key(h) {
                r == Ok::<_, ReadError>(
                    Some(assembled(account, Some(h), Some(self.mv_memory@.codes[h]))),
                ) && after.read_accounts@ == noted
            } else {
                exists|code: Result<Option<Arc<EvmCode>>, String>| #[trigger]
                    answers_code(self.storage, h, code) && match code {
                        Err(e) => r == Err::<Option<AccountInfo>, _>(ReadError::StorageError(e))
                            && after.read_accounts@ == self.read_accounts@,
                        Ok(c) => r == Ok::<_, ReadError>(Some(assembled(account, Some(h), c)))
                            && after.read_accounts@ == noted,
                    }
            },
        }
    }

    fn hand_out(
        &mut self,
        location: MemoryLocationHash,
        account: AccountBasic,
        code_hash: Option<B256>,
    ) -> (r: Result<Option<AccountInfo>, ReadError>)
        ensures
            final(self).same_setting(*old(self)),
            final(self).read_set == old(self).read_set,
            old(self).handed_out(location, account, code_hash, r, *final(self)),
    {
        let code = match code_hash {
            None => None,
            Some(hash) => match self.mv_memory.deployed_code(hash) {
                Some(code) => Some(code),
                None => {
                    let reply = self.storage.code_by_hash(&hash);
                    assert(answers_code(self.storage, hash, reply));
                    match reply {
                        Ok(code) => code,
                        Err(e) => {
                            return Err(ReadError::StorageError(e));
                        },
                    }
                },
            },
        };
        self.read_accounts.insert(location, (account, code_hash));
        Ok(Some(assemble_account(account, code_hash, code)))
    }

    /// Whether `r` is what a base account and the lazy entries after it come to. The sender has to
    /// have the nonce of the transaction: else the transaction before has to execute first, or the
    /// nonce is wrong.
    pub open spec fn settled(
        self,
        address: Address,
        location: MemoryLocationHash,
        base: AccountBasic,
        w: Walked,
        r: Result<Option<AccountInfo>, ReadError>,
        after: Self,
    ) -> bool {
        exists|account: AccountBasic| #[trigger]
            settles_to(base, w, account) && {
                if location == self.from_hash && self.tx_nonce != account.nonce {
                    &&& r == Err::<Option<AccountInfo>, _>(
                        if self.tx_idx > 0 {
                            ReadError::Blocking((self.tx_idx - 1) as usize)
                        } else {
                            ReadError::InvalidNonce(self.tx_idx)
                        },
                    )
                    &&& after.read_set@ == self.read_set@
                    &&& after.read_accounts@ == self.read_accounts@
                } else if Some(location) == self.to_hash {
                    &&& self.handed_out(location, account, self.to_code_hash, r, after)
                    &&& after.read_set@ == self.read_set@
                } else {
                    self.settled_with_code(address, location, account, r, after)
                }
            }
    }

    /// Whether `r` is the account with the code hash that a read of it gives.
    pub open spec fn settled_with_code(
        self,
        address: Address,
        location: MemoryLocationHash,
        account: AccountBasic,
        r: Result<Option<AccountInfo>, ReadError>,
        after: Self,
    ) -> bool {
        let code_location = location_hash(MemoryLocation::CodeHash(address));
        let look = code_hash_lookup(
            self.mv_memory@.data,
            self.tx_idx,
            code_location,
            origins_at(self.read_set@, code_location),
        );
        &&& after.read_set@ == self.read_set@.insert(code_location, look.origins)
        &&& exists|code_hash: Result<Option<B256>, ReadError>| #[trigger]
            code_hash_read(self.storage, address, look.found, code_hash) && match code_hash {
                Err(e) => r == Err::<Option<AccountInfo>, _>(e) && after.read_accounts@
                    == self.read_accounts@,
                Ok(h) => self.handed_out(location, account, h, r, after),
            }
    }

    fn settle_account(
        &mut self,
        address: Address,
        location: MemoryLocationHash,
        base: AccountBasic,
        result: &WalkResult,
        Ghost(w): Ghost<Walked>,
    ) -> (r: Result<Option<AccountInfo>, ReadError>)
        requires
            result.wf(),
            w.delta == result.delta(),
            w.nonce_add == result.nonce_add,
        ensures
            final(self).same_setting(*old(self)),
            old(self).settled(address, location, base, w, r, *final(self)),
    {
        let account = settle(base, result);
        assert(settles_to(base, w, account));
        if location == self.from_hash && self.tx_nonce != account.nonce {
            return if self.tx_idx > 0 {
                Err(ReadError::Blocking(self.tx_idx - 1))
            } else {
                Err(ReadError::InvalidNonce(self.tx_idx))
            };
        }
        let known = match self.to_hash {
            Some(to_hash) => to_hash == location,
            None => false,
        };
        if known {
            return self.hand_out(location, account, self.to_code_hash);
        }
        match self.get_code_hash(address) {
            Err(e) => Err(e),
            Ok(code_hash) => self.hand_out(location, account, code_hash),
        }
    }

    /// The state with the given origins for a location.
    pub open spec fn with_origins(
        self,
        location: MemoryLocationHash,
        origins: Seq<ReadOrigin>,
        other: Self,
    ) -> bool {
        &&& other.same_setting(self)
        &&& other.read_accounts == self.read_accounts
        &&& other.read_set@ == self.read_set@.insert(location, origins)
    }

    /// Whether `r` is an error that leaves the reads as they were, but for the location, which is
    /// noted as asked for.
    pub open spec fn refused(
        self,
        location: MemoryLocationHash,
        e: ReadError,
        r: Result<Option<AccountInfo>, ReadError>,
        after: Self,
    ) -> bool {
        &&& r == Err::<Option<AccountInfo>, _>(e)
        &&& self.with_origins(location, origins_at(self.read_set@, location), after)
    }

    /// What a read of an account does. The accounts of a lazy transaction are not read: the sender
    /// has all there is to spend and the nonce that the transaction needs, the recipient does not
    /// exist. Otherwise the entries of earlier
    /// transactions are walked back to the first full account, or to storage.
    pub open spec fn basic_read(
        self,
        address: Address,
        r: Result<Option<AccountInfo>, ReadError>,
        after: Self,
    ) -> bool {
        let location = self.basic_hash(address);
        let entries = descending(
            entries_at(self.mv_memory@.data, location),
            self.tx_idx as nat,
        );
        let prior = origins_at(self.read_set@, location);
        if self.is_lazy && location == self.from_hash {
            &&& after == self
            &&& r matches Ok(Some(info)) && info.nonce == self.tx_nonce && info.balance@
                == u256_max() && info.code is None && info.code_hash == keccak_empty_spec()
        } else if self.is_lazy && Some(location) == self.to_hash {
            &&& after == self
            &&& r == Ok::<Option<AccountInfo>, ReadError>(None)
        } else {
            match walk(entries, prior, 0, 0, 0) {
                Err(e) => self.refused(location, e, r, after),
                Ok(w) => match w.base {
                    Some(base) => {
                        let origins = kept(prior, versions(entries, w.depth));
                        exists|noted: Self| #[trigger]
                            self.with_origins(location, origins, noted) && noted.settled(
                                address,
                                location,
                                base,
                                w,
                                r,
                                after,
                            )
                    },
                    None => if prior.len() > 0 && (prior.len() != w.depth + 1 || prior.last()
                        != ReadOrigin::Storage) {
                        self.refused(location, ReadError::InconsistentRead, r, after)
                    } else {
                        exists|reply: Result<Option<AccountBasic>, String>| #[trigger]
                            answers_basic(self.storage, address, reply) && self.storage_read(
                                address,
                                location,
                                entries,
                                w,
                                reply,
                                r,
                                after,
                            )
                    },
                },
            }
        }
    }

    /// What the reply of storage makes of an account that no earlier transaction has written whole:
    /// an account that storage does not know exists only where lazy entries change its balance.
    pub open spec fn storage_read(
        self,
        address: Address,
        location: MemoryLocationHash,
        entries: Seq<(TxIdx, MemoryEntry)>,
        w: Walked,
        reply: Result<Option<AccountBasic>, String>,
        r: Result<Option<AccountInfo>, ReadError>,
        after: Self,
    ) -> bool {
        let prior = origins_at(self.read_set@, location);
        let origins = kept(prior, versions(entries, w.depth).push(ReadOrigin::Storage));
        match reply {
            Err(e) => self.refused(location, ReadError::StorageError(e), r, after),
            Ok(Some(base)) => exists|noted: Self| #[trigger]
                self.with_origins(location, origins, noted) && noted.settled(
                    address,
                    location,
                    base,
                    w,
                    r,
                    after,
                ),
            Ok(None) => if w.delta == 0 {
                r == Ok::<Option<AccountInfo>, ReadError>(None) && self.with_origins(
                    location,
                    origins,
                    after,
                )
            } else {
                exists|noted: Self, base: AccountBasic| #[trigger]
                    self.with_origins(location, origins, noted) && base.balance@ == 0
                        && base.nonce == 0 && #[trigger] noted.settled(
                        address,
                        location,
                        base,
                        w,
                        r,
                        after,
                    )
            },
        }
    }

    /// The account at an address, as the transaction sees it.
    pub fn basic(&mut self, address: Address) -> (r: Result<Option<AccountInfo>, ReadError>)
        requires
            old(self).wf(),
        ensures
            final(self).same_setting(*old(self)),
            old(self).basic_read(address, r, *final(self)),
    {
        let location = self.hash_basic(&address);
        if self.is_lazy {
            if location == self.from_hash {
                return Ok(
                    Some(
                        AccountInfo {
                            balance: U256::max_value(),
                            nonce: self.tx_nonce,
                            code_hash: keccak_empty(),
                            code: None,
                        },
                    ),
                );
            }
            if let Some(to_hash) = self.to_hash {
                if location == to_hash {
                    return Ok(None);
                }
            }
        }
        let ghost db = *self;
        let prior = match self.read_set.take(location) {
            Some(origins) => origins,
            None => ReadOrigins::new(),
        };
        let has_prev = prior.len() > 0;
        let entries = match self.mv_memory.history(location) {
            Some(history) => history.below(self.tx_idx),
            None => Vec::new(),
        };
        proof {
            lemma_closest_before(Map::empty(), self.tx_idx);
            assert(entries@ =~= descending(
                entries_at(self.mv_memory@.data, location),
                self.tx_idx as nat,
            ));
            assert forall|o: Seq<ReadOrigin>| #[trigger]
                db.read_set@.remove(location).insert(location, o) =~= db.read_set@.insert(
                location,
                o,
            ) by {}
        }
        let ghost walked = walk(entries@, prior@, 0, 0, 0);
        let mut result = match walk_back(&entries, &prior) {
            Ok(result) => result,
            Err(e) => {
                self.read_set.insert(location, prior);
                return Err(e);
            },
        };
        let ghost w = walked->Ok_0;
        let base = match result.base {
            Some(base) => Some(base),
            None => {
                if !has_prev {
                    result.origins.push(ReadOrigin::Storage);
                } else if prior.len() - 1 != result.origins.len() || prior.get(prior.len() - 1)
                    != ReadOrigin::Storage {
                    self.read_set.insert(location, prior);
                    return Err(ReadError::InconsistentRead);
                }
                let reply = self.storage.basic(&address);
                assert(answers_basic(self.storage, address, reply));
                match reply {
                    Ok(Some(base)) => Some(base),
                    Ok(None) => if result.balance_add.is_zero() {
                        None
                    } else {
                        Some(AccountBasic::default())
                    },
                    Err(e) => {
                        self.read_set.insert(location, prior);
                        return Err(ReadError::StorageError(e));
                    },
                }
            },
        };
        let mut found = ReadOrigins::new();
        std::mem::swap(&mut found, &mut result.origins);
        if has_prev {
            self.read_set.insert(location, prior);
        } else {
            self.read_set.insert(location, found);
        }
        let ghost noted = *self;
        proof {
            if w.base is Some {
                assert(db.with_origins(location, kept(prior@, versions(entries@, w.depth)), noted));
            } else {
                let fresh = versions(entries@, w.depth).push(ReadOrigin::Storage);
                assert(db.with_origins(location, kept(prior@, fresh), noted));
            }
        }
        match base {
            None => Ok(None),
            Some(base) => self.settle_account(address, location, base, &result, Ghost(w)),
        }
    }
}

} // verus!
