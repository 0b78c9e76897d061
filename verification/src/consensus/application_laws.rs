//! What holds of a proposal and of a verification from the request to the answer.

use crate::consensus::application::{
    acknowledges, genesis_digest, genesis_source, open_proposal, open_verification,
    proposal_answer, verification_answer, CanonicalizeHead, ForkchoiceState, GenesisSource,
    PayloadAttributes, PayloadStatus, ProposalBuilding, ProposalBuilt, ProposalForked,
    ProposalOpened, ProposeError, Proposed, Round, Subscribe, Update, Verdict, VerificationOpened,
    VerificationResolved, VerificationSubmitted, VerifyError,
};
use crate::consensus::block::{decoded_block, frame_of, Block, Digest, FrameError};
use crate::primitives::{Address, B256};
use vstd::prelude::*;

verus! {

/// A proposal asks for the parent that it was told of, from the view of the parent in its own epoch, and
/// the parent becomes the head, safe and finalized block. The block is built for the fee recipient, at the
/// second that the time lies in.
pub proof fn law_proposals_build_on_their_parent(
    parent_view: u64,
    parent: Digest,
    round: Round,
    fee_recipient: Address,
    opened: (ProposalOpened, Subscribe),
    parent_hash: B256,
    now_millis: u64,
    forked: (ProposalForked, ForkchoiceState, PayloadAttributes),
)
    requires
        call_ensures(open_proposal, (parent_view, parent, round, fee_recipient), opened),
        call_ensures(
            ProposalOpened::on_parent,
            (opened.0, Some(parent_hash), now_millis),
            Ok::<_, ProposeError>(forked),
        ),
    ensures
        opened.1.digest == parent,
        opened.1.round == Some(Round { epoch: round.epoch, view: parent_view }),
        forked.1.head_block_hash == parent_hash,
        forked.1.safe_block_hash == parent_hash,
        forked.1.finalized_block_hash == parent_hash,
        forked.2.timestamp * 1000 <= now_millis < (forked.2.timestamp + 1) * 1000,
        forked.2.suggested_fee_recipient == fee_recipient,
        forked.2.prev_randao.hi == 0 && forked.2.prev_randao.lo == 0,
        forked.2.withdrawals matches Some(w) && w@.len() == 0,
        forked.2.parent_beacon_block_root matches Some(root) && root.hi == 0 && root.lo == 0,
{
}

/// What is proposed is the block that was built, in the round that was asked for, and the answer is the
/// hash of that block.
pub proof fn law_proposals_answer_with_their_own_block(
    opened: ProposalOpened,
    parent_hash: B256,
    now_millis: u64,
    forked: (ProposalForked, ForkchoiceState, PayloadAttributes),
    payload_id: u64,
    building: ProposalBuilding,
    block: Block,
    built: ProposalBuilt,
    proposed: Proposed,
    answer: Option<Digest>,
)
    requires
        call_ensures(
            ProposalOpened::on_parent,
            (opened, Some(parent_hash), now_millis),
            Ok::<_, ProposeError>(forked),
        ),
        call_ensures(
            ProposalForked::on_forkchoice,
            (forked.0, Some(Some(payload_id))),
            Ok::<_, ProposeError>(building),
        ),
        call_ensures(
            ProposalBuilding::on_payload,
            (building, Some(Some(block))),
            Ok::<_, ProposeError>(built),
        ),
        call_ensures(
            ProposalBuilt::on_new_payload,
            (built, true),
            Ok::<_, ProposeError>(proposed),
        ),
        call_ensures(proposal_answer, (&Ok::<_, ProposeError>(proposed),), answer),
    ensures
        building.payload_id == payload_id,
        proposed.block == block,
        proposed.round == opened.round,
        answer == Some(proposed.digest),
        proposed.digest.0 == block@.hash,
{
}

/// A proposal ends without an answer as soon as a reply is missing, and says which one was; with every
/// reply it goes on.
pub proof fn law_proposals_end_where_a_reply_is_missing(
    opened: ProposalOpened,
    parent_hash: Option<B256>,
    now_millis: u64,
    on_parent: Result<(ProposalForked, ForkchoiceState, PayloadAttributes), ProposeError>,
    forked: ProposalForked,
    reply: Option<Option<u64>>,
    on_forkchoice: Result<ProposalBuilding, ProposeError>,
    building: ProposalBuilding,
    resolved: Option<Option<Block>>,
    on_payload: Result<ProposalBuilt, ProposeError>,
    built: ProposalBuilt,
    sent: bool,
    on_new_payload: Result<Proposed, ProposeError>,
    answer: Option<Digest>,
)
    requires
        call_ensures(ProposalOpened::on_parent, (opened, parent_hash, now_millis), on_parent),
        call_ensures(ProposalForked::on_forkchoice, (forked, reply), on_forkchoice),
        call_ensures(ProposalBuilding::on_payload, (building, resolved), on_payload),
        call_ensures(ProposalBuilt::on_new_payload, (built, sent), on_new_payload),
        call_ensures(proposal_answer, (&on_new_payload,), answer),
    ensures
        on_parent is Ok <==> parent_hash is Some,
        on_parent matches Err(e) ==> e is ParentUnresolved,
        on_forkchoice is Ok <==> reply matches Some(Some(_)),
        on_forkchoice matches Err(e) ==> (reply is None <==> e is ForkchoiceFailed) && (
        reply is Some <==> e is NoPayloadId),
        on_payload is Ok <==> resolved matches Some(Some(_)),
        on_payload matches Err(e) ==> (resolved is None <==> e is PayloadMissing) && (
        resolved is Some <==> e is PayloadFailed),
        on_new_payload is Ok <==> sent,
        on_new_payload matches Err(e) ==> e is NewPayloadFailed,
        answer is Some <==> sent,
{
}

/// A verification asks for the block and for the parent that it was told of, makes the parent the head, and
/// answers for that block: it is valid, and counts as verified in its round, exactly where the execution
/// layer says so.
pub proof fn law_verifications_judge_their_own_block(
    payload: Digest,
    parent: Digest,
    round: Round,
    opened: (VerificationOpened, Subscribe),
    block: Block,
    resolved: (VerificationResolved, Subscribe),
    parent_block: &Block,
    submitted: (VerificationSubmitted, CanonicalizeHead),
    status: PayloadStatus,
    outcome: Result<Verdict, VerifyError>,
    answer: Option<bool>,
)
    requires
        call_ensures(open_verification, (payload, parent, round), opened),
        call_ensures(
            VerificationOpened::on_block,
            (opened.0, Some(block)),
            Ok::<_, VerifyError>(resolved),
        ),
        call_ensures(
            VerificationResolved::on_parent,
            (resolved.0, Some(parent_block)),
            Ok::<_, VerifyError>(submitted),
        ),
        call_ensures(VerificationSubmitted::on_status, (submitted.0, Some(status)), outcome),
        call_ensures(verification_answer, (&outcome,), answer),
    ensures
        opened.1.digest == payload,
        opened.1.round is None,
        resolved.1.digest == parent,
        resolved.1.round is None,
        submitted.1.height == parent_block@.number,
        submitted.1.digest.0 == parent_block@.hash,
        submitted.0.block == block,
        submitted.0.round == round,
        answer == Some(status is Valid),
        outcome matches Ok(verdict) && if status is Valid {
            verdict.verified == Some((round, block))
        } else {
            verdict.verified is None
        },
{
}

/// A verification ends without an answer as soon as a reply is missing, and says which one was; with every
/// reply it goes on.
pub proof fn law_verifications_end_where_a_reply_is_missing(
    opened: VerificationOpened,
    block: Option<Block>,
    on_block: Result<(VerificationResolved, Subscribe), VerifyError>,
    resolved: VerificationResolved,
    parent: Option<&Block>,
    on_parent: Result<(VerificationSubmitted, CanonicalizeHead), VerifyError>,
    submitted: VerificationSubmitted,
    status: Option<PayloadStatus>,
    outcome: Result<Verdict, VerifyError>,
    answer: Option<bool>,
)
    requires
        call_ensures(VerificationOpened::on_block, (opened, block), on_block),
        call_ensures(VerificationResolved::on_parent, (resolved, parent), on_parent),
        call_ensures(VerificationSubmitted::on_status, (submitted, status), outcome),
        call_ensures(verification_answer, (&outcome,), answer),
    ensures
        on_block is Ok <==> block is Some,
        on_block matches Err(e) ==> e is BlockUnresolved,
        on_parent is Ok <==> parent is Some,
        on_parent matches Err(e) ==> e is ParentUnresolved,
        outcome is Ok <==> status is Some,
        outcome matches Err(e) ==> e is NewPayloadFailed,
        answer is Some <==> status is Some,
{
}

/// The first epoch starts from the genesis block. Every other one starts from the block at its first
/// height; where that is not known, an epoch has 100 blocks.
pub proof fn law_epochs_start_at_their_first_height(
    epoch: u64,
    first_height: Option<u64>,
    source: GenesisSource,
)
    requires
        call_ensures(genesis_source, (epoch, first_height), source),
    ensures
        source is ExecutionGenesis <==> epoch == 0,
        source matches GenesisSource::Finalized { height } ==> {
            &&& first_height is Some ==> Some(height) == first_height
            &&& first_height is None && epoch * 100 <= u64::MAX ==> height == epoch * 100
            &&& first_height is None && epoch * 100 > u64::MAX ==> height == u64::MAX
        },
{
}

/// An epoch starts from the hash of the block that was found, and from zero where none was.
pub proof fn law_epochs_start_from_the_block_found(found: Option<B256>, digest: Digest)
    requires
        call_ensures(genesis_digest, (found,), digest),
    ensures
        found matches Some(hash) ==> digest.0 == hash,
        found is None ==> digest.0.hi == 0 && digest.0.lo == 0,
{
}

/// Blocks are acknowledged and tips are not.
pub proof fn law_blocks_are_acknowledged(update: Update, r: bool)
    requires
        call_ensures(acknowledges, (update,), r),
    ensures
        update is Block ==> r,
        update is Tip ==> !r,
{
}

/// A block says of itself what its header says: its digest and commitment are its hash, its parent is that
/// of its header, and its height is its number.
pub proof fn law_blocks_say_what_their_header_says(
    block: &Block,
    digest: Digest,
    commitment: Digest,
    parent_digest: Digest,
    parent: Digest,
    height: u64,
    timestamp: u64,
    size: usize,
)
    requires
        call_ensures(Block::digest, (block,), digest),
        call_ensures(Block::commitment, (block,), commitment),
        call_ensures(Block::parent_digest, (block,), parent_digest),
        call_ensures(Block::parent, (block,), parent),
        call_ensures(Block::height, (block,), height),
        call_ensures(Block::timestamp, (block,), timestamp),
        call_ensures(Block::encode_size, (block,), size),
    ensures
        digest == commitment && digest.0 == block@.hash,
        parent_digest == parent && parent.0 == block@.parent_hash,
        height == block@.number,
        timestamp == block@.timestamp,
        size == block@.encoded.len(),
{
}

/// A block of the execution layer is taken exactly where its encoding is one whole frame that decodes to a
/// block, and then it keeps its encoding and says what its header says.
pub proof fn law_blocks_are_taken_whole(encoded: Vec<u8>, r: Option<Block>)
    requires
        call_ensures(Block::from_execution_block, (encoded,), r),
    ensures
        r is Some <==> frame_of(encoded@) == Ok::<_, FrameError>(encoded@) && decoded_block(
            encoded@,
        ) is Some,
        r matches Some(block) ==> {
            let fields = decoded_block(encoded@)->0;
            &&& block@.encoded == encoded@
            &&& block@.hash == fields.hash
            &&& block@.parent_hash == fields.parent_hash
            &&& block@.number == fields.number
            &&& block@.timestamp == fields.timestamp
        },
{
}

} // verus!
