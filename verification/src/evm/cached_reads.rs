//! Reads of the state, and a cache for them.

use crate::evm::assoc::AssocMap;
use crate::parallel::storage::{AccountInfo, EvmCode};
use crate::primitives::{keccak_empty, keccak_empty_spec, Address, B256, U256};
use std::sync::Arc;
use vstd::prelude::*;

verus! {

/// An account as the database keeps it.
#[derive(Clone, Copy, PartialEq, Eq, Structural, Debug)]
pub struct ProviderAccount {
    pub balance: U256,
    pub nonce: u64,
    pub bytecode_hash: Option<B256>,
}

/// The database of the node, at some block. An error is given by its message.
pub trait EvmStateProvider {
    fn basic_account(&self, address: &Address) -> Result<Option<ProviderAccount>, String>;

    fn bytecode_by_hash(&self, hash: &B256) -> Result<Option<Arc<EvmCode>>, String>;

    fn storage(&self, address: &Address, slot: &U256) -> Result<Option<U256>, String>;

    fn block_hash(&self, number: u64) -> Result<Option<B256>, String>;
}

/// What the virtual machine reads from.
pub trait DatabaseRef {
    fn basic_ref(&self, address: Address) -> Result<Option<AccountInfo>, String>;

    fn code_by_hash_ref(&self, hash: B256) -> Result<Arc<EvmCode>, String>;

    fn storage_ref(&self, address: Address, index: U256) -> Result<U256, String>;

    fn block_hash_ref(&self, number: u64) -> Result<B256, String>;
}

/// Serves the database of the node to the virtual machine.
pub struct StateProviderDatabase<DB>(pub DB);

/// An account of the database as the virtual machine sees it: its code is read only when needed.
pub open spec fn provided(account: ProviderAccount) -> AccountInfo {
    AccountInfo {
        balance: account.balance,
        nonce: account.nonce,
        code_hash: match account.bytecode_hash {
            Some(h) => h,
            None => keccak_empty_spec(),
        },
        code: None,
    }
}

impl<DB: EvmStateProvider> DatabaseRef for StateProviderDatabase<DB> {
    fn basic_ref(&self, address: Address) -> (r: Result<Option<AccountInfo>, String>)
        ensures
            exists|reply: Result<Option<ProviderAccount>, String>| #[trigger]
                call_ensures(DB::basic_account, (&self.0, &address), reply) && r == match reply {
                    Ok(Some(account)) => Ok(Some(provided(account))),
                    Ok(None) => Ok(None),
                    Err(e) => Err(e),
                },
    {
        let reply = self.0.basic_account(&address);
        assert(call_ensures(DB::basic_account, (&self.0, &address), reply));
        match reply {
            Ok(Some(account)) => {
                let code_hash = match account.bytecode_hash {
                    Some(hash) => hash,
                    None => keccak_empty(),
                };
                Ok(
                    Some(
                        AccountInfo {
                            balance: account.balance,
                            nonce: account.nonce,
                            code_hash,
                            code: None,
                        },
                    ),
                )
            },
            Ok(None) => Ok(None),
            Err(e) => Err(e),
        }
    }

    fn code_by_hash_ref(&self, hash: B256) -> (r: Result<Arc<EvmCode>, String>)
        ensures
            exists|reply: Result<Option<Arc<EvmCode>>, String>| #[trigger]
                call_ensures(DB::bytecode_by_hash, (&self.0, &hash), reply) && match reply {
                    Ok(Some(code)) => r == Ok::<_, String>(code),
                    Ok(None) => r matches Ok(code) && code.is_default(),
                    Err(e) => r == Err::<Arc<EvmCode>, _>(e),
                },
    {
        let reply = self.0.bytecode_by_hash(&hash);
        assert(call_ensures(DB::bytecode_by_hash, (&self.0, &hash), reply));
        match reply {
            Ok(Some(code)) => Ok(code),
            Ok(None) => Ok(Arc::new(EvmCode::default())),
            Err(e) => Err(e),
        }
    }

    fn storage_ref(&self, address: Address, index: U256) -> (r: Result<U256, String>)
        ensures
            exists|reply: Result<Option<U256>, String>| #[trigger]
                call_ensures(DB::storage, (&self.0, &address, &index), reply) && match reply {
                    Ok(Some(value)) => r == Ok::<_, String>(value),
                    Ok(None) => r matches Ok(value) && value@ == 0,
                    Err(e) => r == Err::<U256, _>(e),
                },
    {
        let reply = self.0.storage(&address, &index);
        assert(call_ensures(DB::storage, (&self.0, &address, &index), reply));
        match reply {
            Ok(Some(value)) => Ok(value),
            Ok(None) => Ok(U256::zero()),
            Err(e) => Err(e),
        }
    }

    fn block_hash_ref(&self, number: u64) -> (r: Result<B256, String>)
        ensures
            exists|reply: Result<Option<B256>, String>| #[trigger]
                call_ensures(DB::block_hash, (&self.0, number), reply) && r == match reply {
                    Ok(Some(hash)) => Ok(hash),
                    Ok(None) => Ok(B256 { hi: 0, lo: 0 }),
                    Err(e) => Err(e),
                },
    {
        let reply = self.0.block_hash(number);
        assert(call_ensures(DB::block_hash, (&self.0, number), reply));
        match reply {
            Ok(Some(hash)) => Ok(hash),
            Ok(None) => Ok(B256::zero()),
            Err(e) => Err(e),
        }
    }
}

/// What has been read of an account.
#[derive(Debug)]
pub struct CachedAccount {
    /// Whether the account itself has been read.
    pub info_read: bool,
    /// The account; none where it does not exist, or has not been read.
    pub info: Option<AccountInfo>,
    /// The slots that have been read.
    pub storage: AssocMap<U256, U256>,
}

/// All that has been read of the state of one block.
#[derive(Debug)]
pub struct CachedReads {
    pub accounts: AssocMap<Address, CachedAccount>,
    pub contracts: AssocMap<B256, Arc<EvmCode>>,
    pub block_hashes: AssocMap<u64, B256>,
}

/// The abstract value of a `CachedReads`: what is known.
#[verifier::ext_equal]
pub struct CachedReadsView {
    pub infos: Map<Address, Option<AccountInfo>>,
    pub slots: Map<(Address, U256), U256>,
    pub codes: Map<B256, Arc<EvmCode>>,
    pub block_hashes: Map<u64, B256>,
}

impl View for CachedReads {
    type V = CachedReadsView;

    open spec fn view(&self) -> CachedReadsView {
        CachedReadsView {
            infos: Map::new(
                |a: Address| self.accounts@.contains_key(a) && self.accounts@[a].info_read,
                |a: Address| self.accounts@[a].info,
            ),
            slots: Map::new(
                |k: (Address, U256)|
                    self.accounts@.contains_key(k.0) && self.accounts@[k.0].storage@.contains_key(
                        k.1,
                    ),
                |k: (Address, U256)| self.accounts@[k.0].storage@[k.1],
            ),
            codes: self.contracts@,
            block_hashes: self.block_hashes@,
        }
    }
}

impl CachedReads {
    pub fn new() -> (r: Self)
        ensures
            r@ == (CachedReadsView {
                infos: Map::empty(),
                slots: Map::empty(),
                codes: Map::empty(),
                block_hashes: Map::empty(),
            }),
            r.accounts@ == Map::<Address, CachedAccount>::empty(),
    {
        let r = CachedReads {
            accounts: AssocMap::new(),
            contracts: AssocMap::new(),
            block_hashes: AssocMap::new(),
        };
        assert(r@.infos =~= Map::empty());
        assert(r@.slots =~= Map::empty());
        r
    }

    /// Puts the cache before a database.
    pub fn as_db_mut<'a, DB: DatabaseRef>(&'a mut self, db: DB) -> (r: CachedReadsDbMut<'a, DB>)
        ensures
            *r.cached == *old(self),
            r.db == db,
            *final(self) == *final(r.cached),
    {
        CachedReadsDbMut { cached: self, db }
    }

    /// Notes the account that was read.
    fn note_info(&mut self, address: Address, info: Option<AccountInfo>)
        ensures
            final(self)@ == (CachedReadsView {
                infos: old(self)@.infos.insert(address, info),
                ..old(self)@
            }),
    {
        let ghost before = *self;
        let storage = match self.accounts.take(address) {
            Some(account) => account.storage,
            None => AssocMap::new(),
        };
        self.accounts.insert(address, CachedAccount { info_read: true, info, storage });
        proof {
            assert(self@.infos =~= before@.infos.insert(address, info));
            assert(self@.slots =~= before@.slots);
        }
    }

    /// Notes the slot that was read.
    fn note_slot(&mut self, address: Address, index: U256, value: U256)
        ensures
            final(self)@ == (CachedReadsView {
                slots: old(self)@.slots.insert((address, index), value),
                ..old(self)@
            }),
    {
        let ghost before = *self;
        let mut account = match self.accounts.take(address) {
            Some(account) => account,
            None => CachedAccount { info_read: false, info: None, storage: AssocMap::new() },
        };
        account.storage.insert(index, value);
        self.accounts.insert(address, account);
        proof {
            assert(self@.infos =~= before@.infos);
            assert(self@.slots =~= before@.slots.insert((address, index), value));
        }
    }
}

/// A cache before a database: what is known is not read again, and what is read is known from then
/// on.
pub struct CachedReadsDbMut<'a, DB> {
    pub cached: &'a mut CachedReads,
    pub db: DB,
}

impl<'a, DB: DatabaseRef> CachedReadsDbMut<'a, DB> {
    pub fn basic_ref(&mut self, address: Address) -> (r: Result<Option<AccountInfo>, String>)
        ensures
            final(self).db == old(self).db,
            *final(final(self).cached) == *final(old(self).cached),
            ({
                let known = old(self).cached@;
                if known.infos.contains_key(address) {
                    r == Ok::<_, String>(known.infos[address]) && final(self).cached@ == known
                } else {
                    call_ensures(DB::basic_ref, (&old(self).db, address), r) && final(self).cached@
                        == match r {
                        Ok(info) => CachedReadsView {
                            infos: known.infos.insert(address, info),
                            ..known
                        },
                        Err(_) => known,
                    }
                }
            }),
    {
        if let Some(account) = self.cached.accounts.get(address) {
            if account.info_read {
                return Ok(
                    match &account.info {
                        Some(info) => Some(info.clone()),
                        None => None,
                    },
                );
            }
        }
        let reply = self.db.basic_ref(address);
        match reply {
            Ok(info) => {
                let known = match &info {
                    Some(info) => Some(info.clone()),
                    None => None,
                };
                self.cached.note_info(address, known);
                Ok(info)
            },
            Err(e) => Err(e),
        }
    }

    pub fn code_by_hash_ref(&mut self, hash: B256) -> (r: Result<Arc<EvmCode>, String>)
        ensures
            final(self).db == old(self).db,
            *final(final(self).cached) == *final(old(self).cached),
            ({
                let known = old(self).cached@;
                if known.codes.contains_key(hash) {
                    r == Ok::<_, String>(known.codes[hash]) && final(self).cached@ == known
                } else {
                    call_ensures(DB::code_by_hash_ref, (&old(self).db, hash), r)
                        && final(self).cached@ == match r {
                        Ok(code) => CachedReadsView {
                            codes: known.codes.insert(hash, code),
                            ..known
                        },
                        Err(_) => known,
                    }
                }
            }),
    {
        if let Some(code) = self.cached.contracts.get(hash) {
            return Ok(code.clone());
        }
        match self.db.code_by_hash_ref(hash) {
            Ok(code) => {
                let ghost known = self.cached@;
                self.cached.contracts.insert(hash, code.clone());
                proof {
                    assert(self.cached@.infos =~= known.infos);
                    assert(self.cached@.slots =~= known.slots);
                }
                Ok(code)
            },
            Err(e) => Err(e),
        }
    }

    pub fn storage_ref(&mut self, address: Address, index: U256) -> (r: Result<U256, String>)
        ensures
            final(self).db == old(self).db,
            *final(final(self).cached) == *final(old(self).cached),
            ({
                let known = old(self).cached@;
                if known.slots.contains_key((address, index)) {
                    r == Ok::<_, String>(known.slots[(address, index)]) && final(self).cached@
                        == known
                } else {
                    call_ensures(DB::storage_ref, (&old(self).db, address, index), r)
                        && final(self).cached@ == match r {
                        Ok(value) => CachedReadsView {
                            slots: known.slots.insert((address, index), value),
                            ..known
                        },
                        Err(_) => known,
                    }
                }
            }),
    {
        if let Some(account) = self.cached.accounts.get(address) {
            if let Some(value) = account.storage.get(index) {
                return Ok(*value);
            }
        }
        match self.db.storage_ref(address, index) {
            Ok(value) => {
                self.cached.note_slot(address, index, value);
                Ok(value)
            },
            Err(e) => Err(e),
        }
    }

    pub fn block_hash_ref(&mut self, number: u64) -> (r: Result<B256, String>)
        ensures
            final(self).db == old(self).db,
            *final(final(self).cached) == *final(old(self).cached),
            ({
                let known = old(self).cached@;
                if known.block_hashes.contains_key(number) {
                    r == Ok::<_, String>(known.block_hashes[number]) && final(self).cached@ == known
                } else {
                    call_ensures(DB::block_hash_ref, (&old(self).db, number), r)
                        && final(self).cached@ == match r {
                        Ok(hash) => CachedReadsView {
                            block_hashes: known.block_hashes.insert(number, hash),
                            ..known
                        },
                        Err(_) => known,
                    }
                }
            }),
    {
        if let Some(hash) = self.cached.block_hashes.get(number) {
            return Ok(*hash);
        }
        match self.db.block_hash_ref(number) {
            Ok(hash) => {
                let ghost known = self.cached@;
                self.cached.block_hashes.insert(number, hash);
                proof {
                    assert(self.cached@.infos =~= known.infos);
                    assert(self.cached@.slots =~= known.slots);
                }
                Ok(hash)
            },
            Err(e) => Err(e),
        }
    }
}

} // verus!
