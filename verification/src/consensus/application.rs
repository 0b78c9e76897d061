//! What the application does about the requests of consensus: name the block that an epoch starts
//! from, propose a block, verify one. Every step takes the reply to the request before it and gives
//! the next request, or the outcome.

use crate::consensus::block::{Block, Digest};
use crate::primitives::{Address, Withdrawal, B256};
use vstd::prelude::*;

verus! {

/// A view of an epoch.
#[derive(Clone, Copy, PartialEq, Eq, Structural, Debug)]
pub struct Round {
    pub epoch: u64,
    pub view: u64,
}

/// Where the block that an epoch starts from is found.
#[derive(Clone, Copy, PartialEq, Eq, Structural, Debug)]
pub enum GenesisSource {
    /// The genesis block of the execution layer.
    ExecutionGenesis,
    /// The finalized block at a height.
    Finalized { height: u64 },
}

/// Blocks per epoch where the epochs of the chain do not say where one starts.
pub const FALLBACK_EPOCH_LENGTH: u64 = 100;

/// Where the block that an epoch starts from is found, given the first height of the epoch.
pub fn genesis_source(epoch: u64, first_height: Option<u64>) -> (r: GenesisSource)
    ensures
        r == if epoch == 0 {
            GenesisSource::ExecutionGenesis
        } else {
            GenesisSource::Finalized {
                height: match first_height {
                    Some(height) => height,
                    None => if epoch * FALLBACK_EPOCH_LENGTH > u64::MAX {
                        u64::MAX
                    } else {
                        (epoch * FALLBACK_EPOCH_LENGTH) as u64
                    },
                },
            }
        },
{
    if epoch == 0 {
        return GenesisSource::ExecutionGenesis;
    }
    let height: u64 = match first_height {
        Some(height) => height,
        None => match epoch.checked_mul(FALLBACK_EPOCH_LENGTH) {
            Some(height) => height,
            None => u64::MAX,
        },
    };
    GenesisSource::Finalized { height }
}

/// The digest that an epoch starts from: that of the block that was found, else zero.
pub fn genesis_digest(found: Option<B256>) -> (r: Digest)
    ensures
        r == Digest(
            match found {
                Some(hash) => hash,
                None => B256 { hi: 0, lo: 0 },
            },
        ),
{
    match found {
        Some(hash) => Digest(hash),
        None => Digest(B256::zero()),
    }
}

/// A request for a block, from a round or from wherever it comes.
#[derive(Clone, Copy, PartialEq, Eq, Structural, Debug)]
pub struct Subscribe {
    pub round: Option<Round>,
    pub digest: Digest,
}

/// The blocks that the execution layer is to hold for head, safe and finalized.
#[derive(Clone, Copy, PartialEq, Eq, Structural, Debug)]
pub struct ForkchoiceState {
    pub head_block_hash: B256,
    pub safe_block_hash: B256,
    pub finalized_block_hash: B256,
}

/// What a block to be built has to hold.
#[derive(Clone, PartialEq, Eq, Debug)]
pub struct PayloadAttributes {
    pub timestamp: u64,
    pub prev_randao: B256,
    pub suggested_fee_recipient: Address,
    pub withdrawals: Option<Vec<Withdrawal>>,
    pub parent_beacon_block_root: Option<B256>,
}

/// Why no block is proposed.
#[derive(Clone, Copy, PartialEq, Eq, Structural, Debug)]
pub enum ProposeError {
    ParentUnresolved,
    ForkchoiceFailed,
    NoPayloadId,
    PayloadMissing,
    PayloadFailed,
    NewPayloadFailed,
}

/// A proposal that waits for its parent.
#[derive(Clone, Copy, PartialEq, Eq, Structural, Debug)]
pub struct ProposalOpened {
    pub round: Round,
    pub fee_recipient: Address,
}

/// A proposal that waits for the execution layer to start building.
#[derive(Clone, Copy, PartialEq, Eq, Structural, Debug)]
pub struct ProposalForked {
    pub round: Round,
}

/// A proposal whose block is being built.
#[derive(Clone, Copy, PartialEq, Eq, Structural, Debug)]
pub struct ProposalBuilding {
    pub round: Round,
    pub payload_id: u64,
}

/// A proposal whose block waits for the execution layer to take it.
#[derive(Debug)]
pub struct ProposalBuilt {
    pub round: Round,
    pub block: Block,
}

/// A block to be handed to all peers, and the digest to answer with.
#[derive(Debug)]
pub struct Proposed {
    pub round: Round,
    pub block: Block,
    pub digest: Digest,
}

/// Opens a proposal: the parent is asked for from its own view of the epoch.
pub fn open_proposal(parent_view: u64, parent: Digest, round: Round, fee_recipient: Address) -> (r: (
    ProposalOpened,
    Subscribe,
))
    ensures
        r.0 == (ProposalOpened { round, fee_recipient }),
        r.1 == (Subscribe {
            round: Some(Round { epoch: round.epoch, view: parent_view }),
            digest: parent,
        }),
{
    let from = Round { epoch: round.epoch, view: parent_view };
    (ProposalOpened { round, fee_recipient }, Subscribe { round: Some(from), digest: parent })
}

impl ProposalOpened {
    /// With its parent, a proposal asks the execution layer to build on it: at the given time, for
    /// the fee recipient, without randomness, withdrawals and beacon root.
    pub fn on_parent(self, parent_hash: Option<B256>, now_millis: u64) -> (r: Result<
        (ProposalForked, ForkchoiceState, PayloadAttributes),
        ProposeError,
    >)
        ensures
            match parent_hash {
                None => r == Err::<(ProposalForked, ForkchoiceState, PayloadAttributes), _>(
                    ProposeError::ParentUnresolved,
                ),
                Some(hash) => r matches Ok(next) && {
                    &&& next.0 == (ProposalForked { round: self.round })
                    &&& next.1 == (ForkchoiceState {
                        head_block_hash: hash,
                        safe_block_hash: hash,
                        finalized_block_hash: hash,
                    })
                    &&& next.2.timestamp == now_millis / 1000
                    &&& next.2.prev_randao == (B256 { hi: 0, lo: 0 })
                    &&& next.2.suggested_fee_recipient == self.fee_recipient
                    &&& next.2.withdrawals matches Some(w) && w@.len() == 0
                    &&& next.2.parent_beacon_block_root == Some(B256 { hi: 0, lo: 0 })
                },
            },
    {
        match parent_hash {
            None => Err(ProposeError::ParentUnresolved),
            Some(hash) => {
                let forkchoice = ForkchoiceState {
                    head_block_hash: hash,
                    safe_block_hash: hash,
                    finalized_block_hash: hash,
                };
                let attributes = PayloadAttributes {
                    timestamp: now_millis / 1000,
                    prev_randao: B256::zero(),
                    suggested_fee_recipient: self.fee_recipient,
                    withdrawals: Some(Vec::new()),
                    parent_beacon_block_root: Some(B256::zero()),
                };
                Ok((ProposalForked { round: self.round }, forkchoice, attributes))
            },
        }
    }
}

impl ProposalForked {
    /// With a payload under way, a proposal waits, and asks for the payload then. `None` is a failed
    /// request, `Some(None)` a reply without payload.
    pub fn on_forkchoice(self, reply: Option<Option<u64>>) -> (r: Result<
        ProposalBuilding,
        ProposeError,
    >)
        ensures
            r == match reply {
                None => Err(ProposeError::ForkchoiceFailed),
                Some(None) => Err(ProposeError::NoPayloadId),
                Some(Some(payload_id)) => Ok(ProposalBuilding { round: self.round, payload_id }),
            },
    {
        match reply {
            None => Err(ProposeError::ForkchoiceFailed),
            Some(None) => Err(ProposeError::NoPayloadId),
            Some(Some(payload_id)) => Ok(ProposalBuilding { round: self.round, payload_id }),
        }
    }
}

impl ProposalBuilding {
    /// With its block, a proposal hands it to the execution layer. `None` is no payload, `Some(None)`
    /// one that could not be built.
    pub fn on_payload(self, resolved: Option<Option<Block>>) -> (r: Result<
        ProposalBuilt,
        ProposeError,
    >)
        ensures
            r == match resolved {
                None => Err(ProposeError::PayloadMissing),
                Some(None) => Err(ProposeError::PayloadFailed),
                Some(Some(block)) => Ok(ProposalBuilt { round: self.round, block }),
            },
    {
        match resolved {
            None => Err(ProposeError::PayloadMissing),
            Some(None) => Err(ProposeError::PayloadFailed),
            Some(Some(block)) => Ok(ProposalBuilt { round: self.round, block }),
        }
    }
}

impl ProposalBuilt {
    /// Once the execution layer has taken the block, it goes to all peers, and its digest is the
    /// answer.
    pub fn on_new_payload(self, sent: bool) -> (r: Result<Proposed, ProposeError>)
        ensures
            r == if sent {
                Ok(
                    Proposed {
                        round: self.round,
                        block: self.block,
                        digest: Digest(self.block@.hash),
                    },
                )
            } else {
                Err(ProposeError::NewPayloadFailed)
            },
    {
        if !sent {
            return Err(ProposeError::NewPayloadFailed);
        }
        let digest = self.block.digest();
        Ok(Proposed { round: self.round, block: self.block, digest })
    }
}

/// The answer to a request for a proposal: the digest, or none where it failed.
pub fn proposal_answer(outcome: &Result<Proposed, ProposeError>) -> (r: Option<Digest>)
    ensures
        r == match outcome {
            Ok(proposed) => Some(proposed.digest),
            Err(_) => None,
        },
{
    match outcome {
        Ok(proposed) => Some(proposed.digest),
        Err(_) => None,
    }
}

/// Why a block is not judged.
#[derive(Clone, Copy, PartialEq, Eq, Structural, Debug)]
pub enum VerifyError {
    BlockUnresolved,
    ParentUnresolved,
    NewPayloadFailed,
}

/// The judgement of the execution layer.
#[derive(Clone, Copy, PartialEq, Eq, Structural, Debug)]
pub enum PayloadStatus {
    Valid,
    Invalid,
    Syncing,
    Accepted,
}

/// A verification that waits for its block.
#[derive(Clone, Copy, PartialEq, Eq, Structural, Debug)]
pub struct VerificationOpened {
    pub round: Round,
    pub parent: Digest,
}

/// A verification that waits for the parent of its block.
#[derive(Debug)]
pub struct VerificationResolved {
    pub round: Round,
    pub block: Block,
}

/// A verification whose block is with the execution layer.
#[derive(Debug)]
pub struct VerificationSubmitted {
    pub round: Round,
    pub block: Block,
}

/// A request to make a block the head of the chain.
#[derive(Clone, Copy, PartialEq, Eq, Structural, Debug)]
pub struct CanonicalizeHead {
    pub height: u64,
    pub digest: Digest,
}

/// The answer to a request for verification, and the block that counts as verified, if it does.
#[derive(Debug)]
pub struct Verdict {
    pub is_valid: bool,
    pub verified: Option<(Round, Block)>,
}

/// A block counts as verified exactly where the answer is that it is valid, and then it is the block
/// that was submitted, in its round.
pub open spec fn consistent(submitted: VerificationSubmitted, outcome: Result<Verdict, VerifyError>) ->
    bool {
    outcome matches Ok(verdict) ==> {
        &&& verdict.is_valid <==> verdict.verified is Some
        &&& verdict.verified matches Some(v) ==> v == (submitted.round, submitted.block)
    }
}

/// Opens a verification: the block is asked for from wherever it comes, as it has no certificate
/// yet.
pub fn open_verification(payload: Digest, parent: Digest, round: Round) -> (r: (
    VerificationOpened,
    Subscribe,
))
    ensures
        r.0 == (VerificationOpened { round, parent }),
        r.1 == (Subscribe { round: None, digest: payload }),
{
    (VerificationOpened { round, parent }, Subscribe { round: None, digest: payload })
}

impl VerificationOpened {
    /// With its block, a verification asks for the parent.
    pub fn on_block(self, block: Option<Block>) -> (r: Result<
        (VerificationResolved, Subscribe),
        VerifyError,
    >)
        ensures
            r == match block {
                None => Err(VerifyError::BlockUnresolved),
                Some(block) => Ok(
                    (
                        VerificationResolved { round: self.round, block },
                        Subscribe { round: None, digest: self.parent },
                    ),
                ),
            },
    {
        match block {
            None => Err(VerifyError::BlockUnresolved),
            Some(block) => {
                let parent = Subscribe { round: None, digest: self.parent };
                Ok((VerificationResolved { round: self.round, block }, parent))
            },
        }
    }
}

impl VerificationResolved {
    /// With the parent, a verification makes it the head of the chain, and hands the block to the
    /// execution layer then. Whether the head changed does not matter.
    pub fn on_parent(self, parent: Option<&Block>) -> (r: Result<
        (VerificationSubmitted, CanonicalizeHead),
        VerifyError,
    >)
        ensures
            r == match parent {
                None => Err(VerifyError::ParentUnresolved),
                Some(parent) => Ok(
                    (
                        VerificationSubmitted { round: self.round, block: self.block },
                        CanonicalizeHead {
                            height: parent@.number,
                            digest: Digest(parent@.hash),
                        },
                    ),
                ),
            },
    {
        match parent {
            None => Err(VerifyError::ParentUnresolved),
            Some(parent) => {
                let head = CanonicalizeHead { height: parent.height(), digest: parent.digest() };
                Ok((VerificationSubmitted { round: self.round, block: self.block }, head))
            },
        }
    }
}

impl VerificationSubmitted {
    /// With the judgement of the execution layer, a verification ends: the answer is whether the
    /// block is valid, and a valid block counts as verified. `None` is a failed request.
    pub fn on_status(self, status: Option<PayloadStatus>) -> (r: Result<Verdict, VerifyError>)
        ensures
            r == match status {
                None => Err(VerifyError::NewPayloadFailed),
                Some(PayloadStatus::Valid) => Ok(
                    Verdict { is_valid: true, verified: Some((self.round, self.block)) },
                ),
                Some(_) => Ok(Verdict { is_valid: false, verified: None }),
            },
            consistent(self, r),
    {
        match status {
            None => Err(VerifyError::NewPayloadFailed),
            Some(PayloadStatus::Valid) => Ok(
                Verdict { is_valid: true, verified: Some((self.round, self.block)) },
            ),
            Some(_) => Ok(Verdict { is_valid: false, verified: None }),
        }
    }
}

/// The answer to a request for verification: whether the block is valid, or none where it was not
/// judged.
pub fn verification_answer(outcome: &Result<Verdict, VerifyError>) -> (r: Option<bool>)
    ensures
        r == match outcome {
            Ok(verdict) => Some(verdict.is_valid),
            Err(_) => None,
        },
{
    match outcome {
        Ok(verdict) => Some(verdict.is_valid),
        Err(_) => None,
    }
}

/// News of the finalized chain.
#[derive(Clone, Copy, PartialEq, Eq, Structural, Debug)]
pub enum Update {
    /// The height of the latest finalized block.
    Tip { height: u64 },
    /// A finalized block, which has to be acknowledged.
    Block,
}

/// Whether an actor acknowledges an update: every block, and no tip.
pub fn acknowledges(update: Update) -> (r: bool)
    ensures
        r == (update is Block),
{
    match update {
        Update::Tip { .. } => false,
        Update::Block => true,
    }
}

} // verus!
