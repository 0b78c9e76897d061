use alloy_consensus::TxEnvelope;
use alloy_rlp::Encodable;
use private_chain::consensus::application::{
    acknowledges, genesis_digest, genesis_source, open_proposal, open_verification,
    proposal_answer, verification_answer, CanonicalizeHead, ForkchoiceState, GenesisSource,
    PayloadStatus, ProposalBuilding, ProposalBuilt, ProposalForked, ProposalOpened, ProposeError,
    Round, Subscribe, Update, VerificationOpened, VerificationResolved, VerificationSubmitted,
    VerifyError,
};
use private_chain::consensus::block::{
    read_frame, Block, Digest, FrameError, ReadBlockError,
};
use private_chain::consensus::durations::{Duration, DurationError, PositiveDuration};
use private_chain::consensus::epochs::{
    partition_name, EnterError, EpochManager, Metrics, Role,
};
use private_chain::consensus::stack::{ended_by, plan_stack, Args, StackError};
use private_chain::primitives::{Address, B256};

fn hash(n: u128) -> B256 {
    B256 { hi: 0, lo: n }
}

fn outer(h: B256) -> alloy_primitives::B256 {
    alloy_primitives::B256::from_slice(&[h.hi.to_be_bytes(), h.lo.to_be_bytes()].concat())
}

fn execution_block(parent: B256, number: u64) -> alloy_consensus::Block<TxEnvelope> {
    let mut block = alloy_consensus::Block::<TxEnvelope>::default();
    block.header.parent_hash = outer(parent);
    block.header.number = number;
    block.header.timestamp = 17;
    block
}

fn encoded_block(parent: B256, number: u64) -> Vec<u8> {
    let mut encoded = Vec::new();
    execution_block(parent, number).encode(&mut encoded);
    encoded
}

fn block(parent: u128, number: u64) -> Block {
    Block::from_execution_block(encoded_block(hash(parent), number)).unwrap()
}

fn round() -> Round {
    Round { epoch: 3, view: 9 }
}

#[test]
fn durations_are_read() {
    let two = PositiveDuration::parse("2s").unwrap();
    assert_eq!(two.into_duration(), Duration { secs: 2, nanos: 0 });
    let half: PositiveDuration = "500ms".parse().unwrap();
    assert_eq!(half.into_duration(), Duration { secs: 0, nanos: 500_000_000 });
    let long = PositiveDuration::parse("1h30m").unwrap();
    assert_eq!(long.into_duration(), Duration { secs: 5400, nanos: 0 });
}

#[test]
fn durations_have_to_be_positive() {
    assert_eq!(PositiveDuration::parse("-1s"), Err(DurationError::NotPositive));
    assert_eq!(PositiveDuration::parse("0s"), Err(DurationError::NotPositive));
    assert_eq!(PositiveDuration::parse("soon"), Err(DurationError::NotADuration));
    assert_eq!(PositiveDuration::parse(""), Err(DurationError::NotADuration));
    assert_eq!(PositiveDuration::from_signed(0, -1), Err(DurationError::NotPositive));
    assert!(PositiveDuration::from_signed(0, 1).is_ok());
}

#[test]
fn blocks_name_their_parts() {
    let b = block(6, 42);
    let expected = execution_block(hash(6), 42).header.hash_slow();
    assert_eq!(outer(b.block_hash()), expected);
    assert_eq!(b.digest(), Digest(b.block_hash()));
    assert_eq!(b.commitment(), b.digest());
    assert_eq!(b.parent_hash(), hash(6));
    assert_eq!(b.parent(), Digest(hash(6)));
    assert_eq!(b.parent_digest(), b.parent());
    assert_eq!(b.height(), 42);
    assert_eq!(b.timestamp(), 17);
    let encoded = encoded_block(hash(6), 42);
    assert_eq!(b.encode_size(), encoded.len());
    assert_eq!(b.into_inner(), encoded);
}

#[test]
fn written_blocks_are_read_back() {
    let b = block(6, 42);
    let mut buf = Vec::new();
    b.write(&mut buf);
    assert_eq!(buf.len(), b.encode_size());
    buf.extend([9, 9, 9]);
    let (back, used) = Block::read_cfg(&buf).unwrap();
    assert_eq!(used, b.encode_size());
    assert_eq!(buf[used..], [9, 9, 9]);
    assert_eq!((back.digest(), back.height(), back.parent()), (b.digest(), 42, b.parent()));
    assert_eq!(back.into_inner(), b.into_inner());
}

#[test]
fn bytes_without_a_block() {
    let short = Block::read_cfg(&[0xc3, 1]).err();
    assert_eq!(short, Some(ReadBlockError::Frame(FrameError::Header)));
    let empty = Block::read_cfg(&[0xc0, 5]).err();
    assert_eq!(empty, Some(ReadBlockError::Decode));
    let mut more = encoded_block(hash(6), 42);
    more.push(1);
    assert!(Block::from_execution_block(more).is_none());
    assert!(Block::from_execution_block(vec![0xc1, 1]).is_none());
}

#[test]
fn long_frames_are_read() {
    let mut item = vec![0xf8u8, 60];
    item.extend(vec![5u8; 60]);
    let mut stream = item.clone();
    stream.push(1);
    assert_eq!(read_frame(&stream), Ok(item));
    let mut longer = vec![0xf9u8, 1, 44];
    longer.extend(vec![5u8; 300]);
    assert_eq!(read_frame(&longer), Ok(longer.clone()));
}

#[test]
fn bytes_without_a_frame() {
    assert_eq!(read_frame(&[]), Err(FrameError::Header));
    assert_eq!(read_frame(&[0xc3, 1]), Err(FrameError::Header));
    assert_eq!(read_frame(&[0xf8, 3, 1, 2, 3]), Err(FrameError::Header));
    assert_eq!(read_frame(&[0x01]), Err(FrameError::EndOfBuffer));
}

#[test]
fn a_frame_is_a_prefix() {
    let stream = [0xc2, 8, 9, 10];
    let frame = read_frame(&stream).unwrap();
    assert_eq!(frame, stream[..frame.len()]);
}

#[test]
fn epochs_start_from_finalized_blocks() {
    assert_eq!(genesis_source(0, Some(5)), GenesisSource::ExecutionGenesis);
    assert_eq!(genesis_source(2, Some(250)), GenesisSource::Finalized { height: 250 });
    assert_eq!(genesis_source(2, None), GenesisSource::Finalized { height: 200 });
    let far = genesis_source(u64::MAX, None);
    assert_eq!(far, GenesisSource::Finalized { height: u64::MAX });
    assert_eq!(genesis_digest(Some(hash(4))), Digest(hash(4)));
    assert_eq!(genesis_digest(None), Digest(hash(0)));
}

#[test]
fn a_proposal_that_succeeds() {
    let fees = Address { hi: 5, lo: 6 };
    let (opened, subscribe) = open_proposal(8, Digest(hash(6)), round(), fees);
    let from = Round { epoch: 3, view: 8 };
    assert_eq!(subscribe, Subscribe { round: Some(from), digest: Digest(hash(6)) });
    let (forked, forkchoice, attributes) = opened.on_parent(Some(hash(6)), 12_345).unwrap();
    let expected = ForkchoiceState {
        head_block_hash: hash(6),
        safe_block_hash: hash(6),
        finalized_block_hash: hash(6),
    };
    assert_eq!(forkchoice, expected);
    assert_eq!(attributes.timestamp, 12);
    assert_eq!(attributes.suggested_fee_recipient, fees);
    assert_eq!(attributes.prev_randao, hash(0));
    assert_eq!(attributes.withdrawals, Some(Vec::new()));
    assert_eq!(attributes.parent_beacon_block_root, Some(hash(0)));
    let building = forked.on_forkchoice(Some(Some(99))).unwrap();
    assert_eq!(building, ProposalBuilding { round: round(), payload_id: 99 });
    let built = building.on_payload(Some(Some(block(6, 42)))).unwrap();
    let outcome = built.on_new_payload(true);
    assert_eq!(proposal_answer(&outcome), Some(block(6, 42).digest()));
    let proposed = outcome.unwrap();
    assert_eq!(proposed.round, round());
    assert_eq!(proposed.block.height(), 42);
}

#[test]
fn a_proposal_that_fails() {
    let opened = ProposalOpened { round: round(), fee_recipient: Address { hi: 0, lo: 0 } };
    assert_eq!(opened.on_parent(None, 1).unwrap_err(), ProposeError::ParentUnresolved);
    let forked = ProposalForked { round: round() };
    assert_eq!(forked.on_forkchoice(None).unwrap_err(), ProposeError::ForkchoiceFailed);
    assert_eq!(forked.on_forkchoice(Some(None)).unwrap_err(), ProposeError::NoPayloadId);
    let building = ProposalBuilding { round: round(), payload_id: 1 };
    assert_eq!(building.on_payload(None).unwrap_err(), ProposeError::PayloadMissing);
    assert_eq!(building.on_payload(Some(None)).unwrap_err(), ProposeError::PayloadFailed);
    let built = ProposalBuilt { round: round(), block: block(6, 42) };
    let outcome = built.on_new_payload(false);
    assert_eq!(proposal_answer(&outcome), None);
    assert_eq!(outcome.unwrap_err(), ProposeError::NewPayloadFailed);
}

#[test]
fn a_verification_that_succeeds() {
    let (opened, subscribe) = open_verification(Digest(hash(7)), Digest(hash(6)), round());
    assert_eq!(subscribe, Subscribe { round: None, digest: Digest(hash(7)) });
    let (resolved, parent) = opened.on_block(Some(block(6, 42))).unwrap();
    assert_eq!(parent, Subscribe { round: None, digest: Digest(hash(6)) });
    let parent = block(5, 41);
    let (submitted, head) = resolved.on_parent(Some(&parent)).unwrap();
    assert_eq!(head, CanonicalizeHead { height: 41, digest: parent.digest() });
    let outcome = submitted.on_status(Some(PayloadStatus::Valid));
    assert_eq!(verification_answer(&outcome), Some(true));
    let (at, verified) = outcome.unwrap().verified.unwrap();
    assert_eq!(at, round());
    assert_eq!(verified.digest(), block(6, 42).digest());
}

#[test]
fn a_verification_that_fails() {
    let opened = VerificationOpened { round: round(), parent: Digest(hash(6)) };
    assert_eq!(opened.on_block(None).unwrap_err(), VerifyError::BlockUnresolved);
    let resolved = VerificationResolved { round: round(), block: block(6, 42) };
    assert_eq!(resolved.on_parent(None).unwrap_err(), VerifyError::ParentUnresolved);
    let submitted = VerificationSubmitted { round: round(), block: block(6, 42) };
    let outcome = submitted.on_status(None);
    assert_eq!(verification_answer(&outcome), None);
    assert_eq!(outcome.unwrap_err(), VerifyError::NewPayloadFailed);
    for status in [PayloadStatus::Invalid, PayloadStatus::Syncing, PayloadStatus::Accepted] {
        let submitted = VerificationSubmitted { round: round(), block: block(6, 42) };
        let outcome = submitted.on_status(Some(status));
        assert_eq!(verification_answer(&outcome), Some(false));
        assert!(outcome.unwrap().verified.is_none());
    }
}

#[test]
fn finalized_blocks_are_acknowledged() {
    assert!(acknowledges(Update::Block));
    assert!(!acknowledges(Update::Tip { height: 3 }));
}

#[test]
fn epochs_start_in_order() {
    let mut manager = EpochManager::new();
    assert_eq!(manager.enter(0, true), Ok(Role::Signer));
    manager.started(0, 4, Role::Signer);
    assert_eq!(manager.enter(0, true), Err(EnterError::NotNewer { epoch: 0, latest: 0 }));
    assert_eq!(manager.enter(3, false), Ok(Role::Verifier));
    manager.started(3, 5, Role::Verifier);
    assert_eq!(manager.enter(2, true), Err(EnterError::NotNewer { epoch: 2, latest: 3 }));
    assert!(manager.exit(3));
    assert!(!manager.exit(3));
    assert_eq!(manager.enter(2, true), Ok(Role::Signer));
    let expected = Metrics {
        active_epochs: 1,
        latest_epoch: 3,
        latest_participants: 5,
        how_often_signer: 1,
        how_often_verifier: 1,
    };
    assert_eq!(manager.metrics(), expected);
}

#[test]
fn records_of_an_epoch_have_a_name() {
    assert_eq!(partition_name("private-chain", 12), "private-chain_consensus_epoch_12");
    assert_eq!(partition_name("", 0), "_consensus_epoch_0");
}

fn args() -> Args {
    let d = |text: &str| PositiveDuration::parse(text).unwrap();
    Args {
        max_message_size_bytes: 1000,
        worker_threads: 3,
        message_backlog: 64,
        mailbox_size: 128,
        deque_size: 10,
        fee_recipient: None,
        wait_for_peer_response: d("1s"),
        wait_for_notarizations: d("2s"),
        wait_for_proposal: d("3s"),
        wait_to_rebroadcast_nullify: d("4s"),
        views_to_track: 256,
        inactive_views_until_leader_skip: 32,
        time_to_build_proposal: d("500ms"),
        bypass_ip_check: false,
        allow_private_ips: true,
        allow_dns: true,
        synchrony_bound: d("5s"),
        wait_before_peers_redial: d("6s"),
        wait_before_peers_reping: d("7s"),
        wait_before_peers_discovery: d("8s"),
        connection_per_peer_min_period: d("9s"),
        handshake_per_ip_min_period: d("10s"),
        handshake_per_subnet_min_period: d("11s"),
        handshake_stale_after: d("12s"),
        handshake_timeout: d("13s"),
        max_concurrent_handshakes: 512,
        time_to_unblock_byzantine_peer: d("14s"),
        backfill_frequency: 8,
        fcu_heartbeat_interval: d("15s"),
        known_peers: Vec::new(),
    }
}

#[test]
fn a_stack_is_planned() {
    let plan = plan_stack(&args(), true).ok().unwrap();
    assert_eq!(plan.network.namespace, b"\x0dPRIVATE_CHAIN_P2P".to_vec());
    assert_eq!(plan.network.max_message_size, 1000);
    assert_eq!(plan.network.tracked_peer_sets, 3);
    assert_eq!(plan.network.synchrony_bound.secs, 5);
    assert_eq!(plan.network.dial_frequency.secs, 6);
    assert_eq!(plan.network.ping_frequency.secs, 7);
    assert_eq!(plan.network.query_frequency.secs, 8);
    assert_eq!(plan.network.connection_period_per_peer.secs, 9);
    assert_eq!(plan.network.handshake_period_per_ip.secs, 10);
    assert_eq!(plan.network.handshake_period_per_subnet.secs, 11);
    assert_eq!(plan.network.max_handshake_age.secs, 12);
    assert_eq!(plan.network.handshake_timeout.secs, 13);
    assert_eq!(plan.network.block_duration.secs, 14);
    assert_eq!(plan.engine.partition_prefix, "private-chain");
    assert_eq!(plan.engine.fee_recipient, Address { hi: 0, lo: 0 });
    assert_eq!(plan.engine.time_for_peer_response.secs, 1);
    assert_eq!(plan.engine.time_to_collect_notarizations.secs, 2);
    assert_eq!(plan.engine.time_to_propose.secs, 3);
    assert_eq!(plan.engine.time_to_retry_nullify_broadcast.secs, 4);
    assert_eq!(plan.engine.new_payload_wait_time, Duration { secs: 0, nanos: 500_000_000 });
    assert_eq!(plan.engine.fcu_heartbeat_interval.secs, 15);
    let limits: Vec<(u64, u32, usize)> =
        plan.channels.iter().map(|c| (c.ident, c.limit, c.backlog)).collect();
    assert_eq!(limits, vec![(3, 8, 64), (4, 8, 64), (0, 128, 64), (1, 128, 64), (2, 128, 64)]);
}

#[test]
fn a_stack_needs_a_signing_key() {
    assert_eq!(plan_stack(&args(), false).err(), Some(StackError::SigningKeyRequired));
    assert_eq!(ended_by(true), StackError::NetworkFailed);
    assert_eq!(ended_by(false), StackError::EngineFailed);
}

#[test]
fn channels_do_not_share_an_identifier() {
    let plan = plan_stack(&args(), true).ok().unwrap();
    for i in 0..plan.channels.len() {
        for j in 0..i {
            assert_ne!(plan.channels[i].ident, plan.channels[j].ident);
        }
    }
}
