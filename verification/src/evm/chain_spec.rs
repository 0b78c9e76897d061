//! What the execution of a block asks of the rules of the chain.

use vstd::prelude::*;

verus! {

/// When the rules of the chain change: early changes come with a block, later ones with a time.
#[derive(Clone, Copy, PartialEq, Eq, Structural, Debug)]
pub struct ChainSpec {
    pub chain_id: u64,
    pub spurious_dragon_block: Option<u64>,
    pub dao_fork_block: Option<u64>,
    pub constantinople_block: Option<u64>,
    /// The first block that is not mined.
    pub paris_block: Option<u64>,
    pub shanghai_time: Option<u64>,
    pub cancun_time: Option<u64>,
    pub prague_time: Option<u64>,
}

/// Whether a change that comes at `at`, if ever, has come by `now`.
pub open spec fn reached(at: Option<u64>, now: u64) -> bool {
    at matches Some(t) && now >= t
}

fn has_reached(at: Option<u64>, now: u64) -> (r: bool)
    ensures
        r == reached(at, now),
{
    match at {
        Some(t) => now >= t,
        None => false,
    }
}

impl ChainSpec {
    /// Whether empty accounts are cleared.
    pub fn is_spurious_dragon_active_at_block(&self, number: u64) -> (r: bool)
        ensures
            r == reached(self.spurious_dragon_block, number),
    {
        has_reached(self.spurious_dragon_block, number)
    }

    /// Whether the block is the one at which the accounts of the DAO are drained.
    pub fn is_dao_transition(&self, number: u64) -> (r: bool)
        ensures
            r == (self.dao_fork_block == Some(number)),
    {
        match self.dao_fork_block {
            Some(at) => at == number,
            None => false,
        }
    }

    pub fn is_constantinople_active_at_block(&self, number: u64) -> (r: bool)
        ensures
            r == reached(self.constantinople_block, number),
    {
        has_reached(self.constantinople_block, number)
    }

    /// Whether blocks are no longer mined.
    pub fn is_paris_active_at_block(&self, number: u64) -> (r: bool)
        ensures
            r == reached(self.paris_block, number),
    {
        has_reached(self.paris_block, number)
    }

    pub fn is_shanghai_active_at_timestamp(&self, timestamp: u64) -> (r: bool)
        ensures
            r == reached(self.shanghai_time, timestamp),
    {
        has_reached(self.shanghai_time, timestamp)
    }

    pub fn is_cancun_active_at_timestamp(&self, timestamp: u64) -> (r: bool)
        ensures
            r == reached(self.cancun_time, timestamp),
    {
        has_reached(self.cancun_time, timestamp)
    }

    pub fn is_prague_active_at_timestamp(&self, timestamp: u64) -> (r: bool)
        ensures
            r == reached(self.prague_time, timestamp),
    {
        has_reached(self.prague_time, timestamp)
    }
}

} // verus!
