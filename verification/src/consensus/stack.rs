//! The settings of the consensus stack, and what they make of the network and the engine.

use crate::consensus::config::{
    namespace_bytes, p2p_namespace, p2p_suffix_bytes, BROADCASTER_CHANNEL_IDENT, BROADCASTER_LIMIT,
    CERTIFICATES_CHANNEL_IDENT, CERTIFICATES_LIMIT, MARSHAL_CHANNEL_IDENT, MARSHAL_LIMIT,
    PEERSETS_TO_TRACK, RESOLVER_CHANNEL_IDENT, RESOLVER_LIMIT, VOTES_CHANNEL_IDENT, VOTES_LIMIT,
};
use crate::consensus::durations::{Duration, PositiveDuration};
use crate::primitives::Address;
use vstd::prelude::*;

verus! {

/// What the consensus layer of a node is started with.
pub struct Args {
    pub max_message_size_bytes: u32,
    pub worker_threads: usize,
    pub message_backlog: usize,
    pub mailbox_size: usize,
    pub deque_size: usize,
    pub fee_recipient: Option<Address>,
    pub wait_for_peer_response: PositiveDuration,
    pub wait_for_notarizations: PositiveDuration,
    pub wait_for_proposal: PositiveDuration,
    pub wait_to_rebroadcast_nullify: PositiveDuration,
    pub views_to_track: u64,
    pub inactive_views_until_leader_skip: u64,
    pub time_to_build_proposal: PositiveDuration,
    pub bypass_ip_check: bool,
    pub allow_private_ips: bool,
    pub allow_dns: bool,
    pub synchrony_bound: PositiveDuration,
    pub wait_before_peers_redial: PositiveDuration,
    pub wait_before_peers_reping: PositiveDuration,
    pub wait_before_peers_discovery: PositiveDuration,
    pub connection_per_peer_min_period: PositiveDuration,
    pub handshake_per_ip_min_period: PositiveDuration,
    pub handshake_per_subnet_min_period: PositiveDuration,
    pub handshake_stale_after: PositiveDuration,
    pub handshake_timeout: PositiveDuration,
    pub max_concurrent_handshakes: u32,
    pub time_to_unblock_byzantine_peer: PositiveDuration,
    pub backfill_frequency: u32,
    pub fcu_heartbeat_interval: PositiveDuration,
    pub known_peers: Vec<String>,
}

/// Why the stack does not start, or has ended.
#[derive(Clone, Copy, PartialEq, Eq, Structural, Debug)]
pub enum StackError {
    /// A validator needs a signing key.
    SigningKeyRequired,
    /// The network has ended.
    NetworkFailed,
    /// The engine has ended.
    EngineFailed,
}

/// The settings of the peer-to-peer network.
pub struct NetworkSettings {
    pub namespace: Vec<u8>,
    pub mailbox_size: usize,
    pub max_message_size: u32,
    pub synchrony_bound: Duration,
    pub allow_private_ips: bool,
    pub allow_dns: bool,
    pub tracked_peer_sets: usize,
    /// The least time between connections of one peer.
    pub connection_period_per_peer: Duration,
    /// The least time between handshakes from one address.
    pub handshake_period_per_ip: Duration,
    /// The least time between handshakes from one subnet.
    pub handshake_period_per_subnet: Duration,
    pub max_handshake_age: Duration,
    pub handshake_timeout: Duration,
    pub max_concurrent_handshakes: u32,
    pub block_duration: Duration,
    pub dial_frequency: Duration,
    pub ping_frequency: Duration,
    pub query_frequency: Duration,
    pub bypass_ip_check: bool,
}

/// Whether a span of time is the given duration.
pub open spec fn spans(d: Duration, of: PositiveDuration) -> bool {
    &&& d.secs == of.parts().0
    &&& d.nanos == of.parts().1
    &&& d.secs > 0 || d.nanos > 0
}

impl NetworkSettings {
    /// Whether these are the settings that the arguments ask for.
    pub open spec fn are_of(self, args: Args) -> bool {
        &&& self.namespace@ == seq![13u8] + namespace_bytes() + p2p_suffix_bytes()
        &&& self.mailbox_size == args.mailbox_size
        &&& self.max_message_size == args.max_message_size_bytes
        &&& spans(self.synchrony_bound, args.synchrony_bound)
        &&& self.allow_private_ips == args.allow_private_ips
        &&& self.allow_dns == args.allow_dns
        &&& self.tracked_peer_sets == PEERSETS_TO_TRACK
        &&& spans(self.connection_period_per_peer, args.connection_per_peer_min_period)
        &&& spans(self.handshake_period_per_ip, args.handshake_per_ip_min_period)
        &&& spans(self.handshake_period_per_subnet, args.handshake_per_subnet_min_period)
        &&& spans(self.max_handshake_age, args.handshake_stale_after)
        &&& spans(self.handshake_timeout, args.handshake_timeout)
        &&& self.max_concurrent_handshakes == args.max_concurrent_handshakes
        &&& spans(self.block_duration, args.time_to_unblock_byzantine_peer)
        &&& spans(self.dial_frequency, args.wait_before_peers_redial)
        &&& spans(self.ping_frequency, args.wait_before_peers_reping)
        &&& spans(self.query_frequency, args.wait_before_peers_discovery)
        &&& self.bypass_ip_check == args.bypass_ip_check
    }
}

/// A channel of the network.
#[derive(Clone, Copy, PartialEq, Eq, Structural, Debug)]
pub struct ChannelSettings {
    pub ident: u64,
    /// Messages per second.
    pub limit: u32,
    pub backlog: usize,
}

/// The settings of the consensus engine.
pub struct EngineSettings {
    /// What the names of all records of the engine start with.
    pub partition_prefix: String,
    pub fee_recipient: Address,
    pub mailbox_size: usize,
    pub deque_size: usize,
    pub time_to_propose: Duration,
    pub time_to_collect_notarizations: Duration,
    pub time_to_retry_nullify_broadcast: Duration,
    pub time_for_peer_response: Duration,
    pub views_to_track: u64,
    pub views_until_leader_skip: u64,
    pub new_payload_wait_time: Duration,
    pub fcu_heartbeat_interval: Duration,
}

impl EngineSettings {
    /// Whether these are the settings that the arguments ask for.
    pub open spec fn are_of(self, args: Args) -> bool {
        &&& self.partition_prefix@ == "private-chain"@
        &&& self.fee_recipient == match args.fee_recipient {
            Some(a) => a,
            None => Address { hi: 0, lo: 0 },
        }
        &&& self.mailbox_size == args.mailbox_size
        &&& self.deque_size == args.deque_size
        &&& spans(self.time_to_propose, args.wait_for_proposal)
        &&& spans(self.time_to_collect_notarizations, args.wait_for_notarizations)
        &&& spans(self.time_to_retry_nullify_broadcast, args.wait_to_rebroadcast_nullify)
        &&& spans(self.time_for_peer_response, args.wait_for_peer_response)
        &&& self.views_to_track == args.views_to_track
        &&& self.views_until_leader_skip == args.inactive_views_until_leader_skip
        &&& spans(self.new_payload_wait_time, args.time_to_build_proposal)
        &&& spans(self.fcu_heartbeat_interval, args.fcu_heartbeat_interval)
    }
}

/// All that the stack is built from.
pub struct StackPlan {
    pub network: NetworkSettings,
    /// The channels of the network: blocks, finalized blocks, votes, certificates and requests.
    pub channels: Vec<ChannelSettings>,
    pub engine: EngineSettings,
}

/// The channels, with the given backlog.
pub open spec fn channels_of(backlog: usize) -> Seq<ChannelSettings> {
    seq![
        ChannelSettings { ident: BROADCASTER_CHANNEL_IDENT, limit: BROADCASTER_LIMIT, backlog },
        ChannelSettings { ident: MARSHAL_CHANNEL_IDENT, limit: MARSHAL_LIMIT, backlog },
        ChannelSettings { ident: VOTES_CHANNEL_IDENT, limit: VOTES_LIMIT, backlog },
        ChannelSettings { ident: CERTIFICATES_CHANNEL_IDENT, limit: CERTIFICATES_LIMIT, backlog },
        ChannelSettings { ident: RESOLVER_CHANNEL_IDENT, limit: RESOLVER_LIMIT, backlog },
    ]
}

fn network_settings(args: &Args) -> (r: NetworkSettings)
    ensures
        r.are_of(*args),
{
    NetworkSettings {
        namespace: p2p_namespace(),
        mailbox_size: args.mailbox_size,
        max_message_size: args.max_message_size_bytes,
        synchrony_bound: args.synchrony_bound.into_duration(),
        allow_private_ips: args.allow_private_ips,
        allow_dns: args.allow_dns,
        tracked_peer_sets: PEERSETS_TO_TRACK,
        connection_period_per_peer: args.connection_per_peer_min_period.into_duration(),
        handshake_period_per_ip: args.handshake_per_ip_min_period.into_duration(),
        handshake_period_per_subnet: args.handshake_per_subnet_min_period.into_duration(),
        max_handshake_age: args.handshake_stale_after.into_duration(),
        handshake_timeout: args.handshake_timeout.into_duration(),
        max_concurrent_handshakes: args.max_concurrent_handshakes,
        block_duration: args.time_to_unblock_byzantine_peer.into_duration(),
        dial_frequency: args.wait_before_peers_redial.into_duration(),
        ping_frequency: args.wait_before_peers_reping.into_duration(),
        query_frequency: args.wait_before_peers_discovery.into_duration(),
        bypass_ip_check: args.bypass_ip_check,
    }
}

fn engine_settings(args: &Args) -> (r: EngineSettings)
    ensures
        r.are_of(*args),
{
    let fee_recipient = match args.fee_recipient {
        Some(address) => address,
        None => Address::zero(),
    };
    EngineSettings {
        partition_prefix: "private-chain".to_owned(),
        fee_recipient,
        mailbox_size: args.mailbox_size,
        deque_size: args.deque_size,
        time_to_propose: args.wait_for_proposal.into_duration(),
        time_to_collect_notarizations: args.wait_for_notarizations.into_duration(),
        time_to_retry_nullify_broadcast: args.wait_to_rebroadcast_nullify.into_duration(),
        time_for_peer_response: args.wait_for_peer_response.into_duration(),
        views_to_track: args.views_to_track,
        views_until_leader_skip: args.inactive_views_until_leader_skip,
        new_payload_wait_time: args.time_to_build_proposal.into_duration(),
        fcu_heartbeat_interval: args.fcu_heartbeat_interval.into_duration(),
    }
}

/// Plans the stack. Without a signing key there is none.
pub fn plan_stack(args: &Args, has_signing_key: bool) -> (r: Result<StackPlan, StackError>)
    ensures
        match r {
            Ok(plan) => {
                &&& has_signing_key
                &&& plan.network.are_of(*args)
                &&& plan.channels@ == channels_of(args.message_backlog)
                &&& plan.engine.are_of(*args)
            },
            Err(e) => !has_signing_key && e == StackError::SigningKeyRequired,
        },
{
    if !has_signing_key {
        return Err(StackError::SigningKeyRequired);
    }
    let backlog: usize = args.message_backlog;
    let channels: Vec<ChannelSettings> = vec![
        ChannelSettings { ident: BROADCASTER_CHANNEL_IDENT, limit: BROADCASTER_LIMIT, backlog },
        ChannelSettings { ident: MARSHAL_CHANNEL_IDENT, limit: MARSHAL_LIMIT, backlog },
        ChannelSettings { ident: VOTES_CHANNEL_IDENT, limit: VOTES_LIMIT, backlog },
        ChannelSettings { ident: CERTIFICATES_CHANNEL_IDENT, limit: CERTIFICATES_LIMIT, backlog },
        ChannelSettings { ident: RESOLVER_CHANNEL_IDENT, limit: RESOLVER_LIMIT, backlog },
    ];
    assert(channels@ =~= channels_of(backlog));
    Ok(StackPlan { network: network_settings(args), channels, engine: engine_settings(args) })
}

/// Which part of the stack ended first: neither is meant to.
pub fn ended_by(network_ended: bool) -> (r: StackError)
    ensures
        r == if network_ended {
            StackError::NetworkFailed
        } else {
            StackError::EngineFailed
        },
{
    if network_ended {
        StackError::NetworkFailed
    } else {
        StackError::EngineFailed
    }
}

/// No two channels of the stack share an identifier.
pub proof fn law_channels_are_distinct(backlog: usize, i: int, j: int)
    requires
        0 <= i < j < channels_of(backlog).len(),
    ensures
        channels_of(backlog)[i].ident != channels_of(backlog)[j].ident,
{
}

} // verus!
