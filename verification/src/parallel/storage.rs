//! What the parallel executor reads of the state before the block.

use crate::parallel::memory::AccountBasic;
use crate::primitives::{keccak_empty, keccak_empty_spec, Address, B256, U256};
use std::sync::Arc;
use vstd::prelude::*;

verus! {

/// The positions in a bytecode to which a jump is valid, one bit each.
#[derive(Clone, PartialEq, Eq, Debug)]
pub struct JumpTable {
    pub table: Vec<u8>,
    pub len: usize,
}

/// Analyzed legacy bytecode.
#[derive(Clone, PartialEq, Eq, Debug)]
pub struct LegacyCode {
    pub bytecode: Vec<u8>,
    pub original_len: usize,
    pub jump_table: JumpTable,
}

/// The code of an account.
#[derive(Clone, PartialEq, Eq, Debug)]
pub enum EvmCode {
    Legacy(LegacyCode),
    Eip7702 { delegated_address: Address, version: u8 },
}

impl EvmCode {
    /// Whether this is the code of an account without code: a single stop instruction, none of it
    /// original, and no jump destinations.
    pub open spec fn is_default(self) -> bool {
        self matches EvmCode::Legacy(code) && code.bytecode@ == seq![0u8] && code.original_len == 0
            && code.jump_table.table@.len() == 0 && code.jump_table.len == 0
    }
}

impl Default for EvmCode {
    fn default() -> (r: Self)
        ensures
            r.is_default(),
    {
        let mut bytecode = Vec::new();
        bytecode.push(0u8);
        let jump_table = JumpTable { table: Vec::new(), len: 0 };
        let code = LegacyCode { bytecode, original_len: 0, jump_table };
        assert(code.bytecode@ =~= seq![0u8]);
        EvmCode::Legacy(code)
    }
}

/// Error converting bytecode.
#[derive(Clone, Copy, PartialEq, Eq, Structural, Debug)]
pub enum BytecodeConversionError {
    InvalidEof,
}

/// An account as the virtual machine sees it.
#[derive(Debug)]
pub struct AccountInfo {
    pub balance: U256,
    pub nonce: u64,
    pub code_hash: B256,
    pub code: Option<Arc<EvmCode>>,
}

impl Clone for AccountInfo {
    fn clone(&self) -> (r: Self)
        ensures
            r == *self,
    {
        let code = match &self.code {
            Some(code) => Some(code.clone()),
            None => None,
        };
        AccountInfo { balance: self.balance, nonce: self.nonce, code_hash: self.code_hash, code }
    }
}

impl AccountInfo {
    pub open spec fn has_code(self) -> bool {
        self.code_hash != keccak_empty_spec()
    }

    /// Without balance, nonce and code.
    pub open spec fn is_empty_spec(self) -> bool {
        (self.code_hash == keccak_empty_spec() || self.code_hash == B256 { hi: 0, lo: 0 })
            && self.balance@ == 0 && self.nonce == 0
    }

    pub fn is_empty_code_hash(&self) -> (r: bool)
        ensures
            r == !self.has_code(),
    {
        self.code_hash == keccak_empty()
    }

    pub fn is_empty(&self) -> (r: bool)
        ensures
            r == self.is_empty_spec(),
    {
        (self.is_empty_code_hash() || self.code_hash.is_zero()) && self.balance.is_zero()
            && self.nonce == 0
    }
}

/// The state before the block, as the parallel executor reads it. An error is given by its
/// message.
pub trait Storage {
    fn basic(&self, address: &Address) -> Result<Option<AccountBasic>, String>;

    fn code_hash(&self, address: &Address) -> Result<Option<B256>, String>;

    fn code_by_hash(&self, hash: &B256) -> Result<Option<Arc<EvmCode>>, String>;

    fn has_storage(&self, address: &Address) -> Result<bool, String>;

    fn storage(&self, address: &Address, slot: &U256) -> Result<U256, String>;

    fn block_hash(&self, number: &u64) -> Result<B256, String>;
}

/// Whether `reply` is an answer that the storage may give when it is asked for the account.
pub open spec fn answers_basic<S: Storage>(
    storage: &S,
    address: Address,
    reply: Result<Option<AccountBasic>, String>,
) -> bool {
    call_ensures(S::basic, (storage, &address), reply)
}

/// Whether `reply` is an answer that the storage may give when it is asked for the code hash.
pub open spec fn answers_code_hash<S: Storage>(
    storage: &S,
    address: Address,
    reply: Result<Option<B256>, String>,
) -> bool {
    call_ensures(S::code_hash, (storage, &address), reply)
}

/// Whether `reply` is an answer that the storage may give when it is asked for the code.
pub open spec fn answers_code<S: Storage>(
    storage: &S,
    hash: B256,
    reply: Result<Option<Arc<EvmCode>>, String>,
) -> bool {
    call_ensures(S::code_by_hash, (storage, &hash), reply)
}

/// Whether `reply` is an answer that the storage may give when it is asked for a slot.
pub open spec fn answers_slot<S: Storage>(
    storage: &S,
    address: Address,
    slot: U256,
    reply: Result<U256, String>,
) -> bool {
    call_ensures(S::storage, (storage, &address, &slot), reply)
}

/// Whether `reply` is an answer that the storage may give when it is asked for a block hash.
pub open spec fn answers_block_hash<S: Storage>(
    storage: &S,
    number: u64,
    reply: Result<B256, String>,
) -> bool {
    call_ensures(S::block_hash, (storage, &number), reply)
}

/// An account put together from what storage holds of it: an account without code hash has the
/// hash of the empty code.
pub open spec fn assembled(
    basic: AccountBasic,
    code_hash: Option<B256>,
    code: Option<Arc<EvmCode>>,
) -> AccountInfo {
    AccountInfo {
        balance: basic.balance,
        nonce: basic.nonce,
        code_hash: match code_hash {
            Some(h) => h,
            None => keccak_empty_spec(),
        },
        code,
    }
}

pub fn assemble_account(
    basic: AccountBasic,
    code_hash: Option<B256>,
    code: Option<Arc<EvmCode>>,
) -> (r: AccountInfo)
    ensures
        r == assembled(basic, code_hash, code),
{
    let code_hash = match code_hash {
        Some(h) => h,
        None => keccak_empty(),
    };
    AccountInfo { balance: basic.balance, nonce: basic.nonce, code_hash, code }
}

/// Serves a `Storage` to a virtual machine.
pub struct StorageWrapper<'a, S>(pub &'a S);

/// Error of a `StorageWrapper`.
#[derive(Clone, PartialEq, Eq, Debug)]
pub enum StorageWrapperError<E> {
    StorageError(E),
    BytecodeConversion(BytecodeConversionError),
}

/// Whether `r` is what the storage's answers make of an account: nothing where the storage knows
/// none, the first error that an answer brings, the account otherwise. The code hash is asked for
/// only where there is an account, the code only where there is a code hash.
pub open spec fn served_account<S: Storage>(
    storage: &S,
    address: Address,
    r: Result<Option<AccountInfo>, StorageWrapperError<String>>,
) -> bool {
    exists|basic: Result<Option<AccountBasic>, String>| #[trigger]
        answers_basic(storage, address, basic) && match basic {
            Err(e) => r == Err::<Option<AccountInfo>, _>(StorageWrapperError::StorageError(e)),
            Ok(None) => r == Ok::<Option<AccountInfo>, StorageWrapperError<String>>(None),
            Ok(Some(b)) => served_code(storage, address, b, r),
        }
}

pub open spec fn served_code<S: Storage>(
    storage: &S,
    address: Address,
    basic: AccountBasic,
    r: Result<Option<AccountInfo>, StorageWrapperError<String>>,
) -> bool {
    exists|code_hash: Result<Option<B256>, String>| #[trigger]
        answers_code_hash(storage, address, code_hash) && match code_hash {
            Err(e) => r == Err::<Option<AccountInfo>, _>(StorageWrapperError::StorageError(e)),
            Ok(None) => r == Ok::<_, StorageWrapperError<String>>(
                Some(assembled(basic, None, None)),
            ),
            Ok(Some(h)) => exists|code: Result<Option<Arc<EvmCode>>, String>| #[trigger]
                answers_code(storage, h, code) && match code {
                    Err(e) => r == Err::<Option<AccountInfo>, _>(
                        StorageWrapperError::StorageError(e),
                    ),
                    Ok(c) => r == Ok::<_, StorageWrapperError<String>>(
                        Some(assembled(basic, Some(h), c)),
                    ),
                },
        }
}

impl<'a, S: Storage> StorageWrapper<'a, S> {
    pub fn basic(&self, address: Address) -> (r: Result<
        Option<AccountInfo>,
        StorageWrapperError<String>,
    >)
        ensures
            served_account(self.0, address, r),
    {
        let basic = self.0.basic(&address);
        assert(answers_basic(self.0, address, basic));
        let basic = match basic {
            Err(e) => {
                return Err(StorageWrapperError::StorageError(e));
            },
            Ok(None) => {
                return Ok(None);
            },
            Ok(Some(b)) => b,
        };
        let code_hash = self.0.code_hash(&address);
        assert(answers_code_hash(self.0, address, code_hash));
        match code_hash {
            Err(e) => Err(StorageWrapperError::StorageError(e)),
            Ok(None) => Ok(Some(assemble_account(basic, None, None))),
            Ok(Some(h)) => {
                let code = self.0.code_by_hash(&h);
                assert(answers_code(self.0, h, code));
                match code {
                    Err(e) => Err(StorageWrapperError::StorageError(e)),
                    Ok(c) => Ok(Some(assemble_account(basic, Some(h), c))),
                }
            },
        }
    }

    /// The code under a hash, or the default code where the storage has none.
    pub fn code_by_hash(&self, code_hash: B256) -> (r: Result<
        Arc<EvmCode>,
        StorageWrapperError<String>,
    >)
        ensures
            exists|code: Result<Option<Arc<EvmCode>>, String>| #[trigger]
                answers_code(self.0, code_hash, code) && match code {
                    Err(e) => r == Err::<Arc<EvmCode>, _>(StorageWrapperError::StorageError(e)),
                    Ok(Some(c)) => r == Ok::<_, StorageWrapperError<String>>(c),
                    Ok(None) => r matches Ok(c) && c.is_default(),
                },
    {
        let code = self.0.code_by_hash(&code_hash);
        assert(answers_code(self.0, code_hash, code));
        match code {
            Err(e) => Err(StorageWrapperError::StorageError(e)),
            Ok(Some(c)) => Ok(c),
            Ok(None) => Ok(Arc::new(EvmCode::default())),
        }
    }

    pub fn storage(&self, address: Address, index: U256) -> (r: Result<
        U256,
        StorageWrapperError<String>,
    >)
        ensures
            exists|reply: Result<U256, String>| #[trigger]
                answers_slot(self.0, address, index, reply) && match reply {
                    Err(e) => r == Err::<U256, _>(StorageWrapperError::StorageError(e)),
                    Ok(v) => r == Ok::<_, StorageWrapperError<String>>(v),
                },
    {
        let reply = self.0.storage(&address, &index);
        assert(answers_slot(self.0, address, index, reply));
        match reply {
            Err(e) => Err(StorageWrapperError::StorageError(e)),
            Ok(v) => Ok(v),
        }
    }

    pub fn block_hash(&self, number: u64) -> (r: Result<B256, StorageWrapperError<String>>)
        ensures
            exists|reply: Result<B256, String>| #[trigger]
                answers_block_hash(self.0, number, reply) && match reply {
                    Err(e) => r == Err::<B256, _>(StorageWrapperError::StorageError(e)),
                    Ok(h) => r == Ok::<_, StorageWrapperError<String>>(h),
                },
    {
        let reply = self.0.block_hash(&number);
        assert(answers_block_hash(self.0, number, reply));
        match reply {
            Err(e) => Err(StorageWrapperError::StorageError(e)),
            Ok(h) => Ok(h),
        }
    }
}

} // verus!
