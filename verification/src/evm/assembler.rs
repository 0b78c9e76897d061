//! A new block, put together from what its execution gave.

use crate::evm::block_executor::{BlockExecutionResult, EthBlockExecutionCtx};
use crate::evm::chain_spec::{reached, ChainSpec};
use crate::evm::env::{EvmEnv, Header};
use crate::evm::receipts::Receipt;
use crate::evm::roots::{
    calculate_receipt_root, calculate_transaction_root, calculate_withdrawals_root,
    receipts_root_of, transactions_root_of, withdrawals_root_of,
};
use crate::evm::spec_id::SpecId;
use crate::evm::system_calls::Request;
use crate::evm::tx_env::TransactionSigned;
use crate::parallel::state::Log;
use crate::primitives::{clamp, Address, Withdrawal, B256, U256};
use std::sync::Arc;
use vstd::prelude::*;

verus! {

/// The transactions of a block and what goes with them.
#[derive(Clone, PartialEq, Eq, Debug)]
pub struct BlockBody {
    pub transactions: Vec<TransactionSigned>,
    pub ommers: Vec<Header>,
    pub withdrawals: Option<Vec<Withdrawal>>,
}

/// A whole block.
#[derive(Clone, PartialEq, Eq, Debug)]
pub struct AssembledBlock {
    pub header: Header,
    pub body: BlockBody,
}

/// The hash of an empty list of ommers.
pub open spec fn empty_ommer_hash_spec() -> B256 {
    B256 { hi: 0x1dcc4de8dec75d7aab85b567b6ccd41au128, lo: 0xd312451b948a7413f0a142fd40d49347u128 }
}

pub fn empty_ommer_hash() -> (r: B256)
    ensures
        r == empty_ommer_hash_spec(),
{
    B256 { hi: 0x1dcc4de8dec75d7aab85b567b6ccd41au128, lo: 0xd312451b948a7413f0a142fd40d49347u128 }
}

/// What `alloy_primitives::logs_bloom` makes of logs, by the address and the topics of each.
pub uninterp spec fn bloom_of(logs: Seq<(Address, Seq<B256>)>) -> Seq<u8>;

/// What the bloom of a log depends on.
pub open spec fn emitted(log: Log) -> (Address, Seq<B256>) {
    (log.address, log.topics@)
}

/// `alloy_primitives::logs_bloom`: the filter of the addresses and topics of logs. What else a log holds
/// does not matter to it.
#[verifier::external_body]
fn logs_bloom(logs: &Vec<&Log>) -> (r: Vec<u8>)
    ensures
        r@ == bloom_of(Seq::new(logs@.len(), |i: int| emitted(*logs@[i]))),
{
    let hash = |h: &B256| {
        alloy_primitives::B256::from_slice(&[h.hi.to_be_bytes(), h.lo.to_be_bytes()].concat())
    };
    let address = |a: &Address| {
        let bytes = [&a.hi.to_be_bytes()[..], &a.lo.to_be_bytes()[..]].concat();
        alloy_primitives::Address::from_slice(&bytes)
    };
    let outer = logs.iter().map(|l| {
        let topics = l.topics.iter().map(hash).collect();
        alloy_primitives::Log::new_unchecked(address(&l.address), topics, Default::default())
    });
    let outer: Vec<alloy_primitives::Log> = outer.collect();
    alloy_primitives::logs_bloom(&outer).to_vec()
}

/// What `alloy_eips::eip7685::Requests::requests_hash` makes of requests, each given by its type and
/// its data.
pub uninterp spec fn hash_of_requests(requests: Seq<(u8, Seq<u8>)>) -> B256;

/// `alloy_eips::eip7685::Requests::requests_hash`: the hash of the requests, each of which is its type
/// followed by its data.
#[verifier::external_body]
fn requests_hash(requests: &Vec<Request>) -> (r: B256)
    ensures
        r == hash_of_requests(
            Seq::new(requests@.len(), |i: int| (requests@[i].request_type, requests@[i].data@)),
        ),
{
    let bytes = requests.iter().map(|r| [&[r.request_type][..], &r.data[..]].concat());
    let hash = alloy_eips::eip7685::Requests::from_requests(bytes).requests_hash();
    let (hi, lo) = hash.split_at(16);
    B256 {
        hi: u128::from_be_bytes(hi.try_into().unwrap()),
        lo: u128::from_be_bytes(lo.try_into().unwrap()),
    }
}

/// The logs of receipts, in order.
pub open spec fn logs_of(receipts: Seq<Receipt>) -> Seq<(Address, Seq<B256>)>
    decreases receipts.len(),
{
    if receipts.len() == 0 {
        Seq::empty()
    } else {
        let logs = receipts.last().logs@;
        logs_of(receipts.drop_last()) + Seq::new(logs.len(), |i: int| emitted(logs[i]))
    }
}

/// The filter of all logs of the receipts.
pub fn receipts_bloom(receipts: &Vec<Receipt>) -> (r: Vec<u8>)
    ensures
        r@ == bloom_of(logs_of(receipts@)),
{
    let mut logs: Vec<&Log> = Vec::new();
    let mut i: usize = 0;
    assert(receipts@.take(0) =~= Seq::empty());
    assert(Seq::new(logs@.len(), |k: int| emitted(*logs@[k])) =~= logs_of(receipts@.take(0)));
    while i < receipts.len()
        invariant
            i <= receipts@.len(),
            Seq::new(logs@.len(), |k: int| emitted(*logs@[k])) == logs_of(
                receipts@.take(i as int),
            ),
        decreases receipts@.len() - i,
    {
        let own = &receipts[i].logs;
        let ghost before = logs_of(receipts@.take(i as int));
        let mut j: usize = 0;
        assert(before + Seq::new(0, |k: int| emitted(own@[k])) =~= before);
        while j < own.len()
            invariant
                j <= own@.len(),
                Seq::new(logs@.len(), |k: int| emitted(*logs@[k])) == before + Seq::new(
                    j as nat,
                    |k: int| emitted(own@[k]),
                ),
            decreases own@.len() - j,
        {
            let ghost seen = Seq::new(logs@.len(), |k: int| emitted(*logs@[k]));
            logs.push(&own[j]);
            proof {
                let now = Seq::new(logs@.len(), |k: int| emitted(*logs@[k]));
                assert(now =~= seen.push(emitted(own@[j as int])));
                assert(now =~= before + Seq::new((j + 1) as nat, |k: int| emitted(own@[k])));
            }
            j = j + 1;
        }
        proof {
            let next = receipts@.take(i + 1);
            assert(next.drop_last() =~= receipts@.take(i as int));
            assert(next.last() == receipts@[i as int]);
        }
        i = i + 1;
    }
    assert(receipts@.take(i as int) =~= receipts@);
    logs_bloom(&logs)
}

/// A field that may be missing, as a number.
pub open spec fn or_zero(n: Option<u64>) -> u64 {
    match n {
        Some(n) => n,
        None => 0,
    }
}

/// The blob gas that blocks up to and with the parent have used beyond what they aim at. A sum beyond
/// the largest number starts over.
pub open spec fn excess_after(parent: Header, target_blob_gas: u64) -> int {
    clamp(
        (or_zero(parent.excess_blob_gas) + or_zero(parent.blob_gas_used)) % 0x1_0000_0000_0000_0000
            - target_blob_gas,
        0,
        u64::MAX as int,
    )
}

/// The excess blob gas of the block after `parent`, whose missing blob fields count as zero.
pub fn calc_excess_blob_gas(parent: &Header, target_blob_gas: u64) -> (r: u64)
    ensures
        r == excess_after(*parent, target_blob_gas),
{
    let excess: u64 = match parent.excess_blob_gas {
        Some(n) => n,
        None => 0,
    };
    let used: u64 = match parent.blob_gas_used {
        Some(n) => n,
        None => 0,
    };
    excess.wrapping_add(used).saturating_sub(target_blob_gas)
}

/// Puts blocks together under the rules of a chain.
#[derive(Clone, Debug)]
pub struct EthBlockAssembler {
    chain_spec: Arc<ChainSpec>,
}

impl EthBlockAssembler {
    pub closed spec fn rules(self) -> ChainSpec {
        *self.chain_spec
    }

    pub fn new(chain_spec: Arc<ChainSpec>) -> (r: Self)
        ensures
            r.rules() == *chain_spec,
    {
        EthBlockAssembler { chain_spec }
    }

    /// The withdrawals that a block keeps: those of its context, from Shanghai on.
    pub fn kept_withdrawals(&self, env: &EvmEnv, ctx: &EthBlockExecutionCtx) -> (r: Option<
        Vec<Withdrawal>,
    >)
        ensures
            match r {
                Some(w) => env.cfg_env.spec.enables(SpecId::Shanghai) && (
                ctx.withdrawals matches Some(all) && w@ == all@),
                None => !env.cfg_env.spec.enables(SpecId::Shanghai) || ctx.withdrawals is None,
            },
    {
        if !env.cfg_env.spec.is_enabled_in(SpecId::Shanghai) {
            return None;
        }
        match &ctx.withdrawals {
            Some(all) => {
                let mut kept: Vec<Withdrawal> = Vec::new();
                let mut i: usize = 0;
                while i < all.len()
                    invariant
                        i <= all@.len(),
                        kept@ == all@.take(i as int),
                    decreases all@.len() - i,
                {
                    kept.push(all[i]);
                    assert(kept@ =~= all@.take(i + 1));
                    i = i + 1;
                }
                assert(kept@ =~= all@);
                Some(kept)
            },
            None => None,
        }
    }

    /// Whether the block is put together from its parts: the header takes the environment, the
    /// context, the roots of what the block holds, and the gas; the fields of proof of work are
    /// empty; withdrawals come with Shanghai, blob gas with Cancun, requests with Prague.
    pub open spec fn assembles(
        self,
        env: EvmEnv,
        ctx: EthBlockExecutionCtx,
        parent: Header,
        target_blob_gas: u64,
        transactions: Vec<TransactionSigned>,
        output: BlockExecutionResult<Receipt>,
        state_root: B256,
        block: AssembledBlock,
    ) -> bool {
        let h = block.header;
        let timestamp = clamp(env.block_env.timestamp@, 0, u64::MAX as int) as u64;
        &&& h.parent_hash == ctx.parent_hash
        &&& h.ommers_hash == empty_ommer_hash_spec()
        &&& h.beneficiary == env.block_env.beneficiary
        &&& h.state_root == state_root
        &&& h.transactions_root == transactions_root_of(transactions@)
        &&& h.receipts_root == receipts_root_of(output.receipts@)
        &&& h.logs_bloom@ == bloom_of(logs_of(output.receipts@))
        &&& h.difficulty@ == 0
        &&& h.number == clamp(env.block_env.number@, 0, u64::MAX as int)
        &&& h.gas_limit == env.block_env.gas_limit
        &&& h.gas_used == output.gas_used
        &&& h.timestamp == timestamp
        &&& h.mix_hash == match env.block_env.prevrandao {
            Some(randao) => randao,
            None => B256 { hi: 0, lo: 0 },
        }
        &&& h.nonce == 0
        &&& h.base_fee_per_gas == Some(env.block_env.basefee)
        &&& h.blob_gas_used == if reached(self.rules().cancun_time, timestamp) {
            Some(output.blob_gas_used)
        } else {
            None
        }
        &&& h.excess_blob_gas == if reached(self.rules().cancun_time, timestamp) {
            Some(excess_after(parent, target_blob_gas) as u64)
        } else {
            None
        }
        &&& h.parent_beacon_block_root == ctx.parent_beacon_block_root
        &&& h.requests_hash == if reached(self.rules().prague_time, timestamp) {
            Some(
                hash_of_requests(
                    Seq::new(
                        output.requests@.len(),
                        |i: int| (output.requests@[i].request_type, output.requests@[i].data@),
                    ),
                ),
            )
        } else {
            None
        }
        &&& h.extra_data == ctx.extra_data
        &&& block.body.transactions == transactions
        &&& block.body.ommers@.len() == 0
        &&& match block.body.withdrawals {
            Some(w) => {
                &&& env.cfg_env.spec.enables(SpecId::Shanghai)
                &&& ctx.withdrawals matches Some(all) && w@ == all@
                &&& h.withdrawals_root == Some(withdrawals_root_of(w@))
            },
            None => {
                &&& !env.cfg_env.spec.enables(SpecId::Shanghai) || ctx.withdrawals is None
                &&& h.withdrawals_root is None
            },
        }
    }

    /// The block.
    pub fn assemble_block(
        &self,
        env: &EvmEnv,
        ctx: EthBlockExecutionCtx,
        parent: &Header,
        target_blob_gas: u64,
        transactions: Vec<TransactionSigned>,
        output: &BlockExecutionResult<Receipt>,
        state_root: B256,
    ) -> (r: AssembledBlock)
        ensures
            self.assembles(
                *env,
                ctx,
                *parent,
                target_blob_gas,
                transactions,
                *output,
                state_root,
                r,
            ),
    {
        let timestamp: u64 = env.block_env.timestamp.saturating_to_u64();
        let transactions_root = calculate_transaction_root(&transactions);
        let receipts_root = calculate_receipt_root(&output.receipts);
        let withdrawals = self.kept_withdrawals(env, &ctx);
        let withdrawals_root = match &withdrawals {
            Some(w) => Some(calculate_withdrawals_root(w)),
            None => None,
        };
        let (blob_gas_used, excess_blob_gas) = if self.chain_spec.is_cancun_active_at_timestamp(
            timestamp,
        ) {
            (Some(output.blob_gas_used), Some(calc_excess_blob_gas(parent, target_blob_gas)))
        } else {
            (None, None)
        };
        let requests_hash = if self.chain_spec.is_prague_active_at_timestamp(timestamp) {
            Some(requests_hash(&output.requests))
        } else {
            None
        };
        let mix_hash = match env.block_env.prevrandao {
            Some(randao) => randao,
            None => B256::zero(),
        };
        let header = Header {
            parent_hash: ctx.parent_hash,
            ommers_hash: empty_ommer_hash(),
            beneficiary: env.block_env.beneficiary,
            state_root,
            transactions_root,
            receipts_root,
            withdrawals_root,
            logs_bloom: receipts_bloom(&output.receipts),
            difficulty: U256::zero(),
            number: env.block_env.number.saturating_to_u64(),
            gas_limit: env.block_env.gas_limit,
            gas_used: output.gas_used,
            timestamp,
            mix_hash,
            nonce: 0,
            base_fee_per_gas: Some(env.block_env.basefee),
            blob_gas_used,
            excess_blob_gas,
            parent_beacon_block_root: ctx.parent_beacon_block_root,
            requests_hash,
            extra_data: ctx.extra_data,
        };
        AssembledBlock {
            header,
            body: BlockBody { transactions, ommers: Vec::new(), withdrawals },
        }
    }
}

} // verus!
