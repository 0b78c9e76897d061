//! The environment of a block.

use crate::evm::spec_id::SpecId;
use crate::primitives::{Address, Withdrawal, B256, U256};
use vstd::prelude::*;

verus! {

/// The excess blob gas of a block and the price that follows from it.
#[derive(Clone, Copy, PartialEq, Eq, Structural, Debug)]
pub struct BlobExcessGasAndPrice {
    pub excess_blob_gas: u64,
    pub blob_gasprice: u128,
}

/// What the virtual machine knows of the block.
#[derive(Clone, Copy, PartialEq, Eq, Structural, Debug)]
pub struct BlockEnv {
    pub number: U256,
    pub beneficiary: Address,
    pub timestamp: U256,
    pub gas_limit: u64,
    pub basefee: u64,
    pub difficulty: U256,
    pub prevrandao: Option<B256>,
    pub blob_excess_gas_and_price: Option<BlobExcessGasAndPrice>,
}

/// What the virtual machine knows of the chain.
#[derive(Clone, Copy, PartialEq, Eq, Structural, Debug)]
pub struct CfgEnv {
    pub spec: SpecId,
    pub chain_id: u64,
}

/// Chain and block together.
#[derive(Clone, Copy, PartialEq, Eq, Structural, Debug)]
pub struct EvmEnv {
    pub cfg_env: CfgEnv,
    pub block_env: BlockEnv,
}

/// The header of a block.
#[derive(Clone, PartialEq, Eq, Debug)]
pub struct Header {
    pub parent_hash: B256,
    pub ommers_hash: B256,
    pub beneficiary: Address,
    pub state_root: B256,
    pub transactions_root: B256,
    pub receipts_root: B256,
    pub withdrawals_root: Option<B256>,
    pub logs_bloom: Vec<u8>,
    pub difficulty: U256,
    pub number: u64,
    pub gas_limit: u64,
    pub gas_used: u64,
    pub timestamp: u64,
    pub mix_hash: B256,
    pub nonce: u64,
    pub base_fee_per_gas: Option<u64>,
    pub blob_gas_used: Option<u64>,
    pub excess_blob_gas: Option<u64>,
    pub parent_beacon_block_root: Option<B256>,
    pub requests_hash: Option<B256>,
    pub extra_data: Vec<u8>,
}

/// What the consensus layer lays down for the next block.
#[derive(Clone, PartialEq, Eq, Debug)]
pub struct NextBlockEnvAttributes {
    pub timestamp: u64,
    pub suggested_fee_recipient: Address,
    pub prev_randao: B256,
    pub gas_limit: u64,
    pub parent_beacon_block_root: Option<B256>,
    pub withdrawals: Option<Vec<Withdrawal>>,
    pub extra_data: Vec<u8>,
}

/// The part of the attributes that the environment of the next block is made of.
#[derive(Clone, Copy, PartialEq, Eq, Structural, Debug)]
pub struct NextEvmEnvAttributes {
    pub timestamp: u64,
    pub suggested_fee_recipient: Address,
    pub prev_randao: B256,
    pub gas_limit: u64,
}

/// Whether the environment is that of the block with the header.
pub open spec fn is_env_of(header: Header, spec: SpecId, env: BlockEnv) -> bool {
    &&& env.number@ == header.number
    &&& env.beneficiary == header.beneficiary
    &&& env.timestamp@ == header.timestamp
    &&& env.gas_limit == header.gas_limit
    &&& env.basefee == match header.base_fee_per_gas {
        Some(fee) => fee,
        None => 0,
    }
    &&& if spec.enables(SpecId::Merge) {
        env.difficulty@ == 0 && env.prevrandao == Some(header.mix_hash)
    } else {
        env.difficulty == header.difficulty && env.prevrandao is None
    }
}

impl EvmEnv {
    /// The environment of a block that exists, under the rules `spec`. From the merge on the
    /// difficulty is zero and the mix hash is the random value.
    pub fn for_eth_block(
        header: &Header,
        spec: SpecId,
        chain_id: u64,
        blob_excess_gas_and_price: Option<BlobExcessGasAndPrice>,
    ) -> (r: Self)
        ensures
            r.cfg_env == (CfgEnv { spec, chain_id }),
            r.block_env.number@ == header.number,
            r.block_env.beneficiary == header.beneficiary,
            r.block_env.timestamp@ == header.timestamp,
            r.block_env.gas_limit == header.gas_limit,
            r.block_env.basefee == match header.base_fee_per_gas {
                Some(fee) => fee,
                None => 0,
            },
            spec.enables(SpecId::Merge) ==> r.block_env.difficulty@ == 0 && r.block_env.prevrandao
                == Some(header.mix_hash),
            !spec.enables(SpecId::Merge) ==> r.block_env.difficulty == header.difficulty
                && r.block_env.prevrandao is None,
            r.block_env.blob_excess_gas_and_price == blob_excess_gas_and_price,
            is_env_of(*header, spec, r.block_env),
    {
        let (difficulty, prevrandao) = if spec.is_enabled_in(SpecId::Merge) {
            (U256::zero(), Some(header.mix_hash))
        } else {
            (header.difficulty, None)
        };
        let basefee: u64 = match header.base_fee_per_gas {
            Some(fee) => fee,
            None => 0,
        };
        EvmEnv {
            cfg_env: CfgEnv { spec, chain_id },
            block_env: BlockEnv {
                number: U256::from_u64(header.number),
                beneficiary: header.beneficiary,
                timestamp: U256::from_u64(header.timestamp),
                gas_limit: header.gas_limit,
                basefee,
                difficulty,
                prevrandao,
                blob_excess_gas_and_price,
            },
        }
    }

    /// The environment of the block after `parent`, as the consensus layer lays it down.
    pub fn for_eth_next_block(
        parent: &Header,
        attributes: NextEvmEnvAttributes,
        base_fee_per_gas: u64,
        spec: SpecId,
        chain_id: u64,
        blob_excess_gas_and_price: Option<BlobExcessGasAndPrice>,
    ) -> (r: Self)
        requires
            parent.number < u64::MAX,
        ensures
            r.cfg_env == (CfgEnv { spec, chain_id }),
            r.block_env.number@ == parent.number + 1,
            r.block_env.beneficiary == attributes.suggested_fee_recipient,
            r.block_env.timestamp@ == attributes.timestamp,
            r.block_env.gas_limit == attributes.gas_limit,
            r.block_env.basefee == base_fee_per_gas,
            r.block_env.difficulty@ == 0,
            r.block_env.prevrandao == Some(attributes.prev_randao),
            r.block_env.blob_excess_gas_and_price == blob_excess_gas_and_price,
    {
        EvmEnv {
            cfg_env: CfgEnv { spec, chain_id },
            block_env: BlockEnv {
                number: U256::from_u64(parent.number + 1),
                beneficiary: attributes.suggested_fee_recipient,
                timestamp: U256::from_u64(attributes.timestamp),
                gas_limit: attributes.gas_limit,
                basefee: base_fee_per_gas,
                difficulty: U256::zero(),
                prevrandao: Some(attributes.prev_randao),
                blob_excess_gas_and_price,
            },
        }
    }
}

impl NextBlockEnvAttributes {
    /// The part of the attributes that the environment is made of.
    pub fn env_attributes(&self) -> (r: NextEvmEnvAttributes)
        ensures
            r == (NextEvmEnvAttributes {
                timestamp: self.timestamp,
                suggested_fee_recipient: self.suggested_fee_recipient,
                prev_randao: self.prev_randao,
                gas_limit: self.gas_limit,
            }),
    {
        NextEvmEnvAttributes {
            timestamp: self.timestamp,
            suggested_fee_recipient: self.suggested_fee_recipient,
            prev_randao: self.prev_randao,
            gas_limit: self.gas_limit,
        }
    }
}

} // verus!
