//! What the execution of a block runs on.

use crate::evm::system_calls::{EvmState, ResultAndState, SystemCall};
use crate::evm::tx_env::TxEnv;
use crate::parallel::state::ExecutionResult;
use crate::parallel::storage::AccountInfo;
use crate::primitives::{Address, B256};
use vstd::prelude::*;

verus! {

/// A virtual machine, with the state that it works on. An error is given by its message.
pub trait Evm: Sized {
    /// Runs a transaction; what it changes is not kept yet.
    fn transact(&mut self, tx: TxEnv) -> Result<ResultAndState, String>;

    /// Runs a call of the protocol; what it changes is not kept yet.
    fn transact_system_call(&mut self, call: &SystemCall) -> Result<ResultAndState, String>;

    /// Keeps what was changed.
    fn commit(&mut self, state: EvmState);

    /// Sets whether empty accounts are cleared.
    fn set_state_clear_flag(&mut self, on: bool);

    /// Takes the whole balance of each account, and says how much each had.
    fn drain_balances(&mut self, accounts: &Vec<Address>) -> Result<Vec<u128>, String>;

    /// Adds to balances.
    fn increment_balances(&mut self, increments: &Vec<(Address, u128)>) -> Result<(), String>;

    /// The account as it is kept.
    fn load_account(&mut self, address: Address) -> Result<Option<AccountInfo>, String>;

    /// Merges what was kept since the last merge into the changes of the whole, with what undoes it.
    fn merge_transitions(&mut self);
}

/// The state before a block, which knows the root of the state after it. An error is given by its
/// message.
pub trait StateRootProvider<E> {
    type HashedState;

    type TrieUpdates;

    /// The changed accounts and slots, by their hashes.
    fn hashed_post_state(&self, evm: &E) -> Self::HashedState;

    /// The root of the state after the changes, and the nodes that change with it.
    fn state_root_with_updates(&self, hashed: &Self::HashedState) -> Result<
        (B256, Self::TrieUpdates),
        String,
    >;
}

/// Reads the requests of a block. An error is given by its message.
pub trait RequestParser<Receipt> {
    /// The deposits that the receipts of a block tell of.
    fn parse_deposits(&self, receipts: &Vec<Receipt>) -> Result<Vec<u8>, String>;

    /// The requests that a call of the protocol returned.
    fn parse_requests(&self, request_type: u8, result: &ExecutionResult) -> Result<Vec<u8>, String>;
}

} // verus!
