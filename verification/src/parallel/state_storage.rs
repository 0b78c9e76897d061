//! The state of the chain as the parallel executor reads it.

use crate::evm::cached_reads::DatabaseRef;
use crate::parallel::memory::AccountBasic;
use crate::parallel::storage::{AccountInfo, EvmCode, Storage};
use crate::primitives::{Address, B256, U256};
use std::sync::Arc;
use vstd::prelude::*;

verus! {

/// Serves a database to the parallel executor. Reads see what was changed before the transactions of
/// the block.
pub struct StateStorage<'a, DB>(pub &'a DB);

/// How a failure of the database is reported.
pub open spec fn database_error(message: Seq<char>) -> Seq<char> {
    "EVM database error: "@ + message
}

fn report_database_error(message: String) -> (r: String)
    ensures
        r@ == database_error(message@),
{
    let mut text = "EVM database error: ".to_owned();
    text.append(message.as_str());
    text
}

impl EvmCode {
    /// Without any original instruction.
    pub open spec fn holds_nothing(self) -> bool {
        self matches EvmCode::Legacy(code) && code.original_len == 0
    }

    pub fn is_empty(&self) -> (r: bool)
        ensures
            r == self.holds_nothing(),
    {
        match self {
            EvmCode::Legacy(code) => code.original_len == 0,
            EvmCode::Eip7702 { .. } => false,
        }
    }
}

impl<'a, DB: DatabaseRef> Storage for StateStorage<'a, DB> {
    fn basic(&self, address: &Address) -> (r: Result<Option<AccountBasic>, String>)
        ensures
            exists|reply: Result<Option<AccountInfo>, String>| #[trigger]
                call_ensures(DB::basic_ref, (self.0, *address), reply) && match reply {
                    Ok(Some(info)) => r == Ok::<_, String>(
                        Some(AccountBasic { balance: info.balance, nonce: info.nonce }),
                    ),
                    Ok(None) => r == Ok::<Option<AccountBasic>, String>(None),
                    Err(e) => r matches Err(message) && message@ == database_error(e@),
                },
    {
        match self.0.basic_ref(*address) {
            Ok(Some(info)) => Ok(
                Some(AccountBasic { balance: info.balance, nonce: info.nonce }),
            ),
            Ok(None) => Ok(None),
            Err(e) => Err(report_database_error(e)),
        }
    }

    /// An account without code has no code hash.
    fn code_hash(&self, address: &Address) -> (r: Result<Option<B256>, String>)
        ensures
            exists|reply: Result<Option<AccountInfo>, String>| #[trigger]
                call_ensures(DB::basic_ref, (self.0, *address), reply) && match reply {
                    Ok(Some(info)) => r == Ok::<_, String>(
                        if info.has_code() {
                            Some(info.code_hash)
                        } else {
                            None
                        },
                    ),
                    Ok(None) => r == Ok::<Option<B256>, String>(None),
                    Err(e) => r matches Err(message) && message@ == database_error(e@),
                },
    {
        match self.0.basic_ref(*address) {
            Ok(Some(info)) => if info.is_empty_code_hash() {
                Ok(None)
            } else {
                Ok(Some(info.code_hash))
            },
            Ok(None) => Ok(None),
            Err(e) => Err(report_database_error(e)),
        }
    }

    fn code_by_hash(&self, hash: &B256) -> (r: Result<Option<Arc<EvmCode>>, String>)
        ensures
            exists|reply: Result<Arc<EvmCode>, String>| #[trigger]
                call_ensures(DB::code_by_hash_ref, (self.0, *hash), reply) && match reply {
                    Ok(code) => r == Ok::<_, String>(
                        if code.holds_nothing() {
                            None
                        } else {
                            Some(code)
                        },
                    ),
                    Err(e) => r matches Err(message) && message@ == database_error(e@),
                },
    {
        match self.0.code_by_hash_ref(*hash) {
            Ok(code) => if code.is_empty() {
                Ok(None)
            } else {
                Ok(Some(code))
            },
            Err(e) => Err(report_database_error(e)),
        }
    }

    /// Never known: slots are read one by one.
    fn has_storage(&self, _address: &Address) -> (r: Result<bool, String>)
        ensures
            r == Ok::<_, String>(false),
    {
        Ok(false)
    }

    fn storage(&self, address: &Address, slot: &U256) -> (r: Result<U256, String>)
        ensures
            exists|reply: Result<U256, String>| #[trigger]
                call_ensures(DB::storage_ref, (self.0, *address, *slot), reply) && match reply {
                    Ok(value) => r == Ok::<_, String>(value),
                    Err(e) => r matches Err(message) && message@ == database_error(e@),
                },
    {
        match self.0.storage_ref(*address, *slot) {
            Ok(value) => Ok(value),
            Err(e) => Err(report_database_error(e)),
        }
    }

    fn block_hash(&self, number: &u64) -> (r: Result<B256, String>)
        ensures
            exists|reply: Result<B256, String>| #[trigger]
                call_ensures(DB::block_hash_ref, (self.0, *number), reply) && match reply {
                    Ok(hash) => r == Ok::<_, String>(hash),
                    Err(e) => r matches Err(message) && message@ == database_error(e@),
                },
    {
        match self.0.block_hash_ref(*number) {
            Ok(hash) => Ok(hash),
            Err(e) => Err(report_database_error(e)),
        }
    }
}

} // verus!
