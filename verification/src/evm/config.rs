//! How blocks of the chain are executed: which rules, which environment, which context.

use crate::evm::assembler::EthBlockAssembler;
use crate::evm::block_executor::{EthBlockExecutionCtx, EthBlockExecutor};
use crate::evm::builder::EthEvmFactory;
use crate::evm::chain_spec::ChainSpec;
use crate::evm::env::{BlobExcessGasAndPrice, EvmEnv, Header, NextBlockEnvAttributes};
use crate::evm::receipts::RethReceiptBuilder;
use crate::evm::spec_id::SpecId;
use crate::evm::system_calls::StateChange;
use crate::primitives::{Withdrawal, B256};
use std::sync::Arc;
use vstd::prelude::*;

verus! {

/// Makes block executors.
#[derive(Clone, Debug)]
pub struct EthBlockExecutorFactory<F> {
    receipt_builder: RethReceiptBuilder,
    spec: Arc<ChainSpec>,
    evm_factory: F,
}

impl<F> EthBlockExecutorFactory<F> {
    pub closed spec fn rules(self) -> ChainSpec {
        *self.spec
    }

    pub closed spec fn machines(self) -> F {
        self.evm_factory
    }

    pub fn new(receipt_builder: RethReceiptBuilder, spec: Arc<ChainSpec>, evm_factory: F) -> (r:
        Self)
        ensures
            r.rules() == *spec,
            r.machines() == evm_factory,
    {
        EthBlockExecutorFactory { receipt_builder, spec, evm_factory }
    }

    pub fn spec(&self) -> (r: &Arc<ChainSpec>)
        ensures
            **r == self.rules(),
    {
        &self.spec
    }

    pub fn evm_factory(&self) -> (r: &F)
        ensures
            *r == self.machines(),
    {
        &self.evm_factory
    }

    /// An executor for a block, with nothing executed yet.
    pub fn create_executor<E>(&self, evm: E, ctx: EthBlockExecutionCtx) -> (r: EthBlockExecutor<
        E,
        RethReceiptBuilder,
    >)
        ensures
            r.machine() == evm,
            r.context() == ctx,
            r.gas() == 0,
            r.blob_gas() == 0,
            r.made_receipts().len() == 0,
            r.caller().rules() == self.rules(),
            !r.caller().observed(),
            r.caller().pending() == Seq::<StateChange>::empty(),
    {
        EthBlockExecutor::new(evm, ctx, *self.spec, self.receipt_builder)
    }
}

/// The configuration of the chain.
#[derive(Clone, Debug)]
pub struct EthEvmConfig<F> {
    pub executor_factory: EthBlockExecutorFactory<F>,
    pub block_assembler: EthBlockAssembler,
}

impl EthEvmConfig<EthEvmFactory> {
    pub fn new(chain_spec: Arc<ChainSpec>) -> (r: Self)
        ensures
            r.executor_factory.rules() == *chain_spec,
            r.block_assembler.rules() == *chain_spec,
    {
        Self::ethereum(chain_spec)
    }

    pub fn ethereum(chain_spec: Arc<ChainSpec>) -> (r: Self)
        ensures
            r.executor_factory.rules() == *chain_spec,
            r.block_assembler.rules() == *chain_spec,
    {
        Self::new_with_evm_factory(chain_spec, EthEvmFactory)
    }
}

impl<F> EthEvmConfig<F> {
    pub fn new_with_evm_factory(chain_spec: Arc<ChainSpec>, evm_factory: F) -> (r: Self)
        ensures
            r.executor_factory.rules() == *chain_spec,
            r.executor_factory.machines() == evm_factory,
            r.block_assembler.rules() == *chain_spec,
    {
        EthEvmConfig {
            block_assembler: EthBlockAssembler::new(chain_spec.clone()),
            executor_factory: EthBlockExecutorFactory::new(
                RethReceiptBuilder,
                chain_spec,
                evm_factory,
            ),
        }
    }

    pub fn chain_spec(&self) -> (r: &Arc<ChainSpec>)
        ensures
            **r == self.executor_factory.rules(),
    {
        self.executor_factory.spec()
    }

    pub fn block_executor_factory(&self) -> (r: &EthBlockExecutorFactory<F>)
        ensures
            *r == self.executor_factory,
    {
        &self.executor_factory
    }

    pub fn block_assembler(&self) -> (r: &EthBlockAssembler)
        ensures
            *r == self.block_assembler,
    {
        &self.block_assembler
    }

    /// The environment of a block that exists, given the rule set and the blob price of its time.
    pub fn evm_env(
        &self,
        header: &Header,
        spec: SpecId,
        blob_excess_gas_and_price: Option<BlobExcessGasAndPrice>,
    ) -> (r: EvmEnv)
        ensures
            r.cfg_env.spec == spec,
            r.cfg_env.chain_id == self.executor_factory.rules().chain_id,
            r.block_env.number@ == header.number,
            r.block_env.beneficiary == header.beneficiary,
            r.block_env.timestamp@ == header.timestamp,
            r.block_env.gas_limit == header.gas_limit,
            r.block_env.basefee == match header.base_fee_per_gas {
                Some(fee) => fee,
                None => 0,
            },
            spec.enables(SpecId::Merge) ==> r.block_env.difficulty@ == 0 && r.block_env.prevrandao
                == Some(header.mix_hash),
            !spec.enables(SpecId::Merge) ==> r.block_env.difficulty == header.difficulty
                && r.block_env.prevrandao is None,
            r.block_env.blob_excess_gas_and_price == blob_excess_gas_and_price,
    {
        let chain_id: u64 = self.chain_spec().chain_id;
        EvmEnv::for_eth_block(header, spec, chain_id, blob_excess_gas_and_price)
    }

    /// The environment of the next block, given the base fee that follows from its parent, if one
    /// does.
    pub fn next_evm_env(
        &self,
        parent: &Header,
        attributes: &NextBlockEnvAttributes,
        next_base_fee: Option<u64>,
        spec: SpecId,
        blob_excess_gas_and_price: Option<BlobExcessGasAndPrice>,
    ) -> (r: EvmEnv)
        requires
            parent.number < u64::MAX,
        ensures
            r.cfg_env.spec == spec,
            r.cfg_env.chain_id == self.executor_factory.rules().chain_id,
            r.block_env.number@ == parent.number + 1,
            r.block_env.beneficiary == attributes.suggested_fee_recipient,
            r.block_env.timestamp@ == attributes.timestamp,
            r.block_env.gas_limit == attributes.gas_limit,
            r.block_env.basefee == match next_base_fee {
                Some(fee) => fee,
                None => 0,
            },
            r.block_env.difficulty@ == 0,
            r.block_env.prevrandao == Some(attributes.prev_randao),
            r.block_env.blob_excess_gas_and_price == blob_excess_gas_and_price,
    {
        let base_fee: u64 = match next_base_fee {
            Some(fee) => fee,
            None => 0,
        };
        let chain_id: u64 = self.chain_spec().chain_id;
        EvmEnv::for_eth_next_block(
            parent,
            attributes.env_attributes(),
            base_fee,
            spec,
            chain_id,
            blob_excess_gas_and_price,
        )
    }

    /// The context of a block that exists.
    pub fn context_for_block(
        &self,
        header: Header,
        transaction_count: usize,
        ommers: Vec<Header>,
        withdrawals: Option<Vec<Withdrawal>>,
    ) -> (r: EthBlockExecutionCtx)
        ensures
            r == (EthBlockExecutionCtx {
                parent_hash: header.parent_hash,
                parent_beacon_block_root: header.parent_beacon_block_root,
                ommers,
                withdrawals,
                extra_data: header.extra_data,
                tx_count_hint: Some(transaction_count),
            }),
    {
        EthBlockExecutionCtx {
            parent_hash: header.parent_hash,
            parent_beacon_block_root: header.parent_beacon_block_root,
            ommers,
            withdrawals,
            extra_data: header.extra_data,
            tx_count_hint: Some(transaction_count),
        }
    }

    /// The context of the next block: how many transactions it will have is not known, and it has no
    /// ommers.
    pub fn context_for_next_block(
        &self,
        parent_hash: B256,
        attributes: NextBlockEnvAttributes,
    ) -> (r: EthBlockExecutionCtx)
        ensures
            r.parent_hash == parent_hash,
            r.parent_beacon_block_root == attributes.parent_beacon_block_root,
            r.ommers@.len() == 0,
            r.withdrawals == attributes.withdrawals,
            r.extra_data == attributes.extra_data,
            r.tx_count_hint is None,
    {
        EthBlockExecutionCtx {
            parent_hash,
            parent_beacon_block_root: attributes.parent_beacon_block_root,
            ommers: Vec::new(),
            withdrawals: attributes.withdrawals,
            extra_data: attributes.extra_data,
            tx_count_hint: None,
        }
    }
}

} // verus!
