//! Channel identifiers, rate limits and names of the peer-to-peer network.

use vstd::prelude::*;

verus! {

pub const VOTES_CHANNEL_IDENT: u64 = 0;

pub const CERTIFICATES_CHANNEL_IDENT: u64 = 1;

pub const RESOLVER_CHANNEL_IDENT: u64 = 2;

pub const BROADCASTER_CHANNEL_IDENT: u64 = 3;

pub const MARSHAL_CHANNEL_IDENT: u64 = 4;

pub const DKG_CHANNEL_IDENT: u64 = 5;

pub const NUMBER_CONCURRENT_FETCHES: usize = 4;

pub const PEERSETS_TO_TRACK: usize = 3;

pub const BLOCKS_FREEZER_TABLE_INITIAL_SIZE_BYTES: u32 = 2_097_152;

/// Messages per second on each channel.
pub const BROADCASTER_LIMIT: u32 = 8;

pub const DKG_LIMIT: u32 = 128;

pub const MARSHAL_LIMIT: u32 = 8;

pub const VOTES_LIMIT: u32 = 128;

pub const CERTIFICATES_LIMIT: u32 = 128;

pub const RESOLVER_LIMIT: u32 = 128;

/// The bytes of `PRIVATE_CHAIN`.
pub open spec fn namespace_bytes() -> Seq<u8> {
    seq![80u8, 82u8, 73u8, 86u8, 65u8, 84u8, 69u8, 95u8, 67u8, 72u8, 65u8, 73u8, 78u8]
}

/// The name under which the chain signs.
pub fn namespace() -> (r: Vec<u8>)
    ensures
        r@ == namespace_bytes(),
{
    let r: Vec<u8> = vec![80, 82, 73, 86, 65, 84, 69, 95, 67, 72, 65, 73, 78];
    assert(r@ =~= namespace_bytes());
    r
}

/// The bytes of `_P2P`.
pub open spec fn p2p_suffix_bytes() -> Seq<u8> {
    seq![95u8, 80u8, 50u8, 80u8]
}

/// A number in groups of 7 bits, the lowest first, with a mark on all but the last.
pub open spec fn varint(n: nat) -> Seq<u8>
    decreases n,
{
    if n < 128 {
        seq![n as u8]
    } else {
        seq![(n % 128 + 128) as u8] + varint(n / 128)
    }
}

/// `commonware_utils::union_unique`: the length of the namespace as a varint, the namespace, and
/// the message. It panics on a namespace whose length does not fit in 32 bits.
#[verifier::external_body]
fn union_unique(namespace: &Vec<u8>, msg: &Vec<u8>) -> (r: Vec<u8>)
    requires
        namespace@.len() <= u32::MAX,
    ensures
        r@ == varint(namespace@.len()) + namespace@ + msg@,
{
    commonware_utils::union_unique(namespace, msg)
}

/// The name under which peers shake hands.
pub fn p2p_namespace() -> (r: Vec<u8>)
    ensures
        r@ == seq![13u8] + namespace_bytes() + p2p_suffix_bytes(),
{
    let suffix: Vec<u8> = vec![95, 80, 50, 80];
    assert(suffix@ =~= p2p_suffix_bytes());
    union_unique(&namespace(), &suffix)
}

} // verus!
