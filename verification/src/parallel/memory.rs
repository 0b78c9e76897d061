//! Memory locations, the values written to them, and the versions that tag every write and read.

use crate::primitives::{Address, B256, U256};
use std::hash::BuildHasher;
use vstd::prelude::*;

verus! {

/// Index of a transaction within the block.
pub type TxIdx = usize;

/// Number of times a transaction has been executed again, counting from 0.
pub type TxIncarnation = usize;

/// A hashed memory location: the key of the multi-version memory.
pub type MemoryLocationHash = u64;

/// A memory location that a transaction may read or write.
#[derive(Clone, Copy, PartialEq, Eq, Structural, Hash, Debug)]
pub enum MemoryLocation {
    Basic(Address),
    CodeHash(Address),
    Storage(Address, U256),
}

/// Balance and nonce of an account.
#[derive(Clone, Copy, PartialEq, Eq, Structural, Debug)]
pub struct AccountBasic {
    pub balance: U256,
    pub nonce: u64,
}

impl Default for AccountBasic {
    /// An account without balance that has sent nothing.
    fn default() -> (r: Self)
        ensures
            r.balance@ == 0,
            r.nonce == 0,
    {
        AccountBasic { balance: U256::zero(), nonce: 0 }
    }
}

/// The value stored at a memory location.
#[derive(Clone, Copy, PartialEq, Eq, Structural, Debug)]
pub enum MemoryValue {
    Basic(AccountBasic),
    CodeHash(B256),
    Storage(U256),
    /// A balance increment, settled at the end of the block or on an explicit read: the reward of
    /// the beneficiary, or what the recipient of a plain transfer gets.
    LazyRecipient(U256),
    /// A balance decrement and a nonce increment: what the sender of a plain transfer spends.
    LazySender(U256),
    /// The account was self-destructed.
    SelfDestructed,
}

/// One entry of the multi-version memory: a value, or the mark of an aborted incarnation whose
/// successor is estimated to write here again.
#[derive(Clone, Copy, PartialEq, Eq, Structural, Debug)]
pub enum MemoryEntry {
    Data(TxIncarnation, MemoryValue),
    Estimate,
}

/// A transaction and how often it has been executed.
#[derive(Clone, Copy, PartialEq, Eq, Structural, Debug)]
pub struct TxVersion {
    pub tx_idx: TxIdx,
    pub tx_incarnation: TxIncarnation,
}

/// Where the value of a memory location was read from.
#[derive(Clone, Copy, PartialEq, Eq, Structural, Debug)]
pub enum ReadOrigin {
    MvMemory(TxVersion),
    Storage,
}

/// How far the execution of an incarnation has come.
#[derive(Clone, Copy, PartialEq, Eq, Structural, Debug)]
pub enum IncarnationStatus {
    ReadyToExecute,
    Executing,
    Executed,
    Validated,
    Aborting,
}

/// The current incarnation of a transaction and its status.
#[derive(Clone, Copy, PartialEq, Eq, Structural, Debug)]
pub struct TxStatus {
    pub incarnation: TxIncarnation,
    pub status: IncarnationStatus,
}

/// Work item for an execution thread.
#[derive(Clone, Copy, PartialEq, Eq, Structural, Debug)]
pub enum Task {
    Execution(TxVersion),
    Validation(TxVersion),
}

/// The updates produced by one incarnation of a transaction.
pub type WriteSet = Vec<(MemoryLocationHash, MemoryValue)>;

/// What a finished execution asks of the scheduler. Each flag has a bit of its own.
#[derive(Clone, Copy, PartialEq, Eq, Structural, Debug)]
pub struct FinishExecFlags {
    pub bits: u8,
}

/// The bit of a finished execution that needs a validation task.
pub const NEED_VALIDATION: u8 = 1;

/// The bit of a finished execution that wrote where the incarnation before it had not.
pub const WROTE_NEW_LOCATION: u8 = 2;

/// Whether all the bits are set.
pub open spec fn has_flags(flags: FinishExecFlags, bits: u8) -> bool {
    flags.bits & bits == bits
}

impl FinishExecFlags {
    pub fn need_validation() -> (r: Self)
        ensures
            r.bits == NEED_VALIDATION,
    {
        FinishExecFlags { bits: NEED_VALIDATION }
    }

    pub fn empty() -> (r: Self)
        ensures
            r.bits == 0,
    {
        FinishExecFlags { bits: 0 }
    }

    /// Whether every bit of `other` is set here too.
    pub fn contains(&self, other: FinishExecFlags) -> (r: bool)
        ensures
            r == has_flags(*self, other.bits),
    {
        self.bits & other.bits == other.bits
    }

    /// Sets the bit of a write to a new location.
    pub fn with_new_location(self) -> (r: Self)
        ensures
            r.bits == self.bits | WROTE_NEW_LOCATION,
    {
        FinishExecFlags { bits: self.bits | WROTE_NEW_LOCATION }
    }
}

/// What `rustc_hash::FxBuildHasher` makes of a memory location, on a machine whose words have
/// `word_bits` bits.
pub uninterp spec fn fx_hash(word_bits: u32, location: MemoryLocation) -> u64;

/// The hash under which a location is kept.
pub open spec fn location_hash(location: MemoryLocation) -> u64 {
    fx_hash(usize::BITS, location)
}

/// `rustc_hash::FxBuildHasher::hash_one`: the hash of a location. The hasher starts from a fixed
/// state and is fed integers alone, so its result depends on nothing but the location and the
/// width of a machine word. That different locations hash differently is not claimed.
#[verifier::external_body]
pub(crate) fn hash_deterministic(location: MemoryLocation) -> (r: u64)
    ensures
        r == fx_hash(usize::BITS, location),
{
    rustc_hash::FxBuildHasher.hash_one(location)
}

} // verus!
