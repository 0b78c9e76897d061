//! What holds of keys, peers, the key ceremony, epochs, frames and the settings of the stack.

use crate::consensus::block::{
    block_of, byte_width, decoded_block, frame_of, rlp_header, BlockView, FrameError,
    ReadBlockError,
};
use crate::consensus::ceremony::{told_by, CeremonyUpdate, EpochMessage};
use crate::consensus::config::{namespace_bytes, p2p_suffix_bytes, varint};
use crate::consensus::dkg::{
    dealt, epoch_after, fed, is_material, key_pairs, labelled_state, le_bytes, lies_beyond,
    named_state, position_of, seed_bytes, seed_label_bytes, seed_of_states, share_bytes,
    EpochTracker, KeyMaterial, Transition,
};
use crate::consensus::durations::{
    positive_duration, signed_duration, DurationError, PositiveDuration,
};
use crate::consensus::epochs::{
    decimal, is_newer, partition_name, wrapping_last_i64, wrapping_next_i64, wrapping_next_u64,
    EnterError, EpochManager, Role,
};
use crate::consensus::genesis::{keys_of, PrivateGenesisInfo, ValidatorConfig};
use crate::consensus::keys::{
    hex_bytes, hex_digit, is_ed25519_key, is_key_text, spells_key, without_0x, without_prefix,
    PublicKey,
};
use crate::consensus::peers::{
    candidate_texts, entries_of, first_at_sign, genesis_candidates, is_first_entry,
    is_first_of_key, is_peer_set,
    key_before, keyed, known_candidates, split_peer, PeerCandidate,
};
use crate::consensus::stack::{
    channels_of, ended_by, plan_stack, Args, EngineSettings, NetworkSettings, StackError, StackPlan,
};
use crate::parallel::hashers::big_endian;
use crate::primitives::Address;
use std::collections::hash_map::DefaultHasher;
use vstd::arithmetic::power::pow;
use vstd::std_specs::hash::DefaultHasherAdditionalSpecFns;
use vstd::prelude::*;

verus! {

/// Whether the bytes differ first at `k`, where the first have the lower byte.
pub open spec fn lower_at(a: Seq<u8>, b: Seq<u8>, k: int) -> bool {
    &&& a.len() == b.len()
    &&& 0 <= k < a.len()
    &&& a[k] < b[k]
    &&& forall|j: int| 0 <= j < k ==> #[trigger] a[j] == b[j]
}

/// Numbers order as their bytes do: the first byte that differs decides.
pub proof fn law_first_bytes_decide(a: Seq<u8>, b: Seq<u8>, k: int)
    requires
        lower_at(a, b, k),
    ensures
        big_endian(a) < big_endian(b),
    decreases a.len(),
{
    let n = a.len() - 1;
    if k < n {
        assert forall|j: int| 0 <= j < k implies #[trigger] a.drop_last()[j]
            == b.drop_last()[j] by {
            assert(a[j] == b[j]);
        }
        law_first_bytes_decide(a.drop_last(), b.drop_last(), k);
    } else {
        assert forall|j: int| 0 <= j < n implies a[j] == b[j] by {}
        assert(a.drop_last() =~= b.drop_last());
    }
}

/// Bytes that spell the same number are the same, if they are as many.
pub proof fn law_numbers_tell_bytes_apart(a: Seq<u8>, b: Seq<u8>)
    requires
        a.len() == b.len(),
        big_endian(a) == big_endian(b),
    ensures
        a == b,
    decreases a.len(),
{
    if a.len() > 0 {
        let x = big_endian(a.drop_last()) as int;
        let y = big_endian(b.drop_last()) as int;
        assert(x == y && a.last() == b.last()) by {
            assert(x * 256 + a.last() == y * 256 + b.last());
        }
        law_numbers_tell_bytes_apart(a.drop_last(), b.drop_last());
        assert(a =~= a.drop_last().push(a.last()));
        assert(b =~= b.drop_last().push(b.last()));
    } else {
        assert(a =~= b);
    }
}

/// A key has one spelling in bytes, and keys order as their bytes do.
pub proof fn law_keys_order_as_their_bytes(
    a: PublicKey,
    b: PublicKey,
    of_a: Seq<u8>,
    of_b: Seq<u8>,
    k: int,
)
    requires
        a.has_bytes(of_a),
        b.has_bytes(of_b),
    ensures
        of_a.len() == 32,
        a == b <==> of_a == of_b,
        lower_at(of_a, of_b, k) ==> key_before((a.hi, a.lo), (b.hi, b.lo)),
{
    if a == b {
        law_numbers_tell_bytes_apart(of_a.take(16), of_b.take(16));
        law_numbers_tell_bytes_apart(of_a.skip(16), of_b.skip(16));
        assert(of_a =~= of_a.take(16) + of_a.skip(16));
        assert(of_b =~= of_b.take(16) + of_b.skip(16));
    }
    if lower_at(of_a, of_b, k) {
        if k < 16 {
            assert forall|j: int| 0 <= j < k implies #[trigger] of_a.take(16)[j]
                == of_b.take(16)[j] by {
                assert(of_a[j] == of_b[j]);
            }
            law_first_bytes_decide(of_a.take(16), of_b.take(16), k);
        } else {
            assert(of_a.take(16) =~= of_b.take(16)) by {
                assert forall|j: int| 0 <= j < 16 implies of_a[j] == of_b[j] by {}
            }
            assert forall|j: int| 0 <= j < k - 16 implies #[trigger] of_a.skip(16)[j]
                == of_b.skip(16)[j] by {
                assert(of_a[j + 16] == of_b[j + 16]);
            }
            law_first_bytes_decide(of_a.skip(16), of_b.skip(16), k - 16);
        }
    }
}

/// Keys are in one order: of two different keys exactly one comes before the other, and the order goes on.
pub proof fn law_keys_have_an_order(a: (u128, u128), b: (u128, u128), c: (u128, u128))
    ensures
        !key_before(a, a),
        a != b ==> key_before(a, b) != key_before(b, a),
        key_before(a, b) && key_before(b, c) ==> key_before(a, c),
        a.0 < b.0 ==> key_before(a, b),
{
}

/// The hexadecimal digits stand for 0 to 15, large and small letters for the same, and nothing else is a
/// digit.
pub proof fn law_hexadecimal_digits(c: char)
    ensures
        hex_digit('0') == Some(0u8) && hex_digit('1') == Some(1u8) && hex_digit('2') == Some(2u8)
            && hex_digit('3') == Some(3u8) && hex_digit('4') == Some(4u8) && hex_digit('5')
            == Some(5u8) && hex_digit('6') == Some(6u8) && hex_digit('7') == Some(7u8)
            && hex_digit('8') == Some(8u8) && hex_digit('9') == Some(9u8),
        hex_digit('a') == Some(10u8) && hex_digit('b') == Some(11u8) && hex_digit('c') == Some(
            12u8,
        ) && hex_digit('d') == Some(13u8) && hex_digit('e') == Some(14u8) && hex_digit('f') == Some(
            15u8,
        ),
        hex_digit('A') == hex_digit('a') && hex_digit('B') == hex_digit('b') && hex_digit('C')
            == hex_digit('c') && hex_digit('D') == hex_digit('d') && hex_digit('E') == hex_digit(
            'e',
        ) && hex_digit('F') == hex_digit('f'),
        hex_digit(c) matches Some(d) ==> d < 16,
        hex_digit(c) is Some <==> '0' <= c <= '9' || 'a' <= c <= 'f' || 'A' <= c <= 'F',
{
}

/// A text without prefix spells a byte with each two of its characters, the first the higher.
pub proof fn law_two_digits_spell_a_byte(s: Seq<char>, bytes: Seq<u8>, i: int)
    requires
        hex_bytes(s) == Some(bytes),
        !(s.len() >= 2 && s[0] == '0' && (s[1] == 'x' || s[1] == 'X')),
        0 <= i < bytes.len(),
    ensures
        bytes.len() * 2 == s.len(),
        hex_digit(s[2 * i]) is Some,
        hex_digit(s[2 * i + 1]) is Some,
        bytes[i] == hex_digit(s[2 * i])->0 * 16 + hex_digit(s[2 * i + 1])->0,
{
    assert(without_prefix(s) == s);
    assert(hex_digit(s[2 * i]) is Some);
    assert(hex_digit(s[2 * i + 1]) is Some);
    law_hexadecimal_digits(s[2 * i]);
    law_hexadecimal_digits(s[2 * i + 1]);
}

/// A key is spelled with or without `0x`, and is the same key.
pub proof fn law_the_prefix_makes_no_difference(s: Seq<char>, key: PublicKey)
    requires
        !(s.len() >= 2 && s[0] == '0' && s[1] == 'x'),
    ensures
        is_key_text(seq!['0', 'x'] + s) == is_key_text(s),
        spells_key(seq!['0', 'x'] + s, key) == spells_key(s, key),
{
    let prefixed = seq!['0', 'x'] + s;
    assert(prefixed[0] == '0' && prefixed[1] == 'x');
    assert(without_0x(prefixed) =~= s);
    assert(without_0x(s) == s);
}

/// A text spells at most one key, and some key exactly where it is the text of a key; the key has the bytes
/// that the text spells, which are those of a key.
pub proof fn law_texts_spell_one_key(s: Seq<char>, a: PublicKey, b: PublicKey)
    requires
        spells_key(s, a),
        !(s.len() >= 2 && s[0] == '0' && s[1] == 'x'),
    ensures
        is_key_text(s),
        spells_key(s, b) ==> a == b,
        hex_bytes(s) matches Some(bytes) && bytes.len() == 32 && is_ed25519_key(bytes)
            && a.has_bytes(bytes),
{
}

/// A peer is written as its key, an `@`, and its address: nothing of the text is lost, and the key holds no
/// `@`. A text without `@` is no peer.
pub proof fn law_peers_split_at_the_first_at_sign(s: Seq<char>)
    ensures
        match split_peer(s) {
            Some((key, address)) => s == key + seq!['@'] + address && !key.contains('@'),
            None => !s.contains('@'),
        },
{
    if s.contains('@') {
        let k = choose|k: int| 0 <= k < s.len() && s[k] == '@';
        lemma_first_at_sign(s, k);
        let i = choose|i: int| first_at_sign(s, i);
        assert(s =~= s.take(i) + seq!['@'] + s.skip(i + 1));
        assert(!s.take(i).contains('@')) by {
            if s.take(i).contains('@') {
                let j = choose|j: int| 0 <= j < i && s.take(i)[j] == '@';
                assert(s[j] != '@');
            }
        }
    }
}

proof fn lemma_first_at_sign(s: Seq<char>, k: int)
    requires
        0 <= k < s.len(),
        s[k] == '@',
    ensures
        exists|i: int| first_at_sign(s, i),
    decreases k,
{
    if forall|j: int| 0 <= j < k ==> #[trigger] s[j] != '@' {
        assert(first_at_sign(s, k));
    } else {
        let j = choose|j: int| 0 <= j < k && #[trigger] s[j] == '@';
        lemma_first_at_sign(s, j);
    }
}

/// Every text of the command line with an `@` is a candidate, in the order of the texts, and nothing else
/// is; every validator of the genesis is one.
pub proof fn law_candidates_are_all_that_were_named(
    known: Seq<String>,
    next: String,
    validators: Seq<ValidatorConfig>,
)
    ensures
        known_candidates(Seq::<String>::empty()).len() == 0,
        !next@.contains('@') ==> known_candidates(known.push(next)) == known_candidates(known),
        next@.contains('@') ==> {
            let all = known_candidates(known.push(next));
            &&& all.len() == known_candidates(known).len() + 1
            &&& all.drop_last() == known_candidates(known)
            &&& all.last().0 + seq!['@'] + all.last().1 == next@
        },
        genesis_candidates(validators).len() == validators.len(),
        forall|i: int|
            0 <= i < validators.len() ==> (#[trigger] genesis_candidates(validators)[i]).0
                == validators[i].pubkey@ && genesis_candidates(validators)[i].1
                == validators[i].address@,
{
    assert(known.push(next).drop_last() =~= known);
    law_peers_split_at_the_first_at_sign(next@);
    if next@.contains('@') {
        assert(known_candidates(known.push(next)).drop_last() =~= known_candidates(known));
    }
}

/// Every candidate that spells a key and whose address was understood has an entry, with its key and its
/// address.
pub proof fn law_usable_candidates_have_entries<A>(
    candidates: Seq<PeerCandidate>,
    addresses: Seq<Option<A>>,
    entries: Seq<(PublicKey, A)>,
    i: int,
) -> (e: int)
    requires
        entries_of(candidates, addresses, entries),
        candidates.len() == addresses.len(),
        0 <= i < candidates.len(),
        is_key_text(candidates[i].pubkey@),
        addresses[i] is Some,
    ensures
        0 <= e < entries.len(),
        spells_key(candidates[i].pubkey@, entries[e].0),
        addresses[i] == Some(entries[e].1),
    decreases candidates.len(),
{
    let n = candidates.len() - 1;
    if i == n {
        entries.len() - 1
    } else if addresses[n] is Some && is_key_text(candidates[n].pubkey@) {
        law_usable_candidates_have_entries(
            candidates.drop_last(),
            addresses.drop_last(),
            entries.drop_last(),
            i,
        )
    } else {
        law_usable_candidates_have_entries(
            candidates.drop_last(),
            addresses.drop_last(),
            entries,
            i,
        )
    }
}

/// Every entry is of a candidate that spells its key and whose address is its address.
pub proof fn law_entries_are_of_candidates<A>(
    candidates: Seq<PeerCandidate>,
    addresses: Seq<Option<A>>,
    entries: Seq<(PublicKey, A)>,
    e: int,
) -> (i: int)
    requires
        entries_of(candidates, addresses, entries),
        candidates.len() == addresses.len(),
        0 <= e < entries.len(),
    ensures
        0 <= i < candidates.len(),
        spells_key(candidates[i].pubkey@, entries[e].0),
        addresses[i] == Some(entries[e].1),
    decreases candidates.len(),
{
    let n = candidates.len() - 1;
    if addresses[n] is Some && is_key_text(candidates[n].pubkey@) {
        if e == entries.len() - 1 {
            n
        } else {
            law_entries_are_of_candidates(
                candidates.drop_last(),
                addresses.drop_last(),
                entries.drop_last(),
                e,
            )
        }
    } else {
        law_entries_are_of_candidates(
            candidates.drop_last(),
            addresses.drop_last(),
            entries,
            e,
        )
    }
}

/// The entries stand in the order of the candidates: one more candidate leaves those before it as they are,
/// and its own entry, if it is usable, comes last.
pub proof fn law_entries_keep_the_order_of_candidates<A>(
    candidates: Seq<PeerCandidate>,
    addresses: Seq<Option<A>>,
    candidate: PeerCandidate,
    address: Option<A>,
    entries: Seq<(PublicKey, A)>,
)
    requires
        candidates.len() == addresses.len(),
        entries_of(candidates.push(candidate), addresses.push(address), entries),
    ensures
        is_key_text(candidate.pubkey@) && address is Some ==> entries.len() > 0 && spells_key(
            candidate.pubkey@,
            entries.last().0,
        ) && Some(entries.last().1) == address && entries_of(
            candidates,
            addresses,
            entries.drop_last(),
        ),
        !(is_key_text(candidate.pubkey@) && address is Some) ==> entries_of(
            candidates,
            addresses,
            entries,
        ),
{
    assert(candidates.push(candidate).drop_last() =~= candidates);
    assert(addresses.push(address).drop_last() =~= addresses);
}

/// Every key of the entries may connect, once, under the address of its first entry, and nobody else may;
/// the peers come by increasing key.
pub proof fn law_every_named_peer_may_connect<A>(
    entries: Seq<(PublicKey, A)>,
    peers: Seq<(PublicKey, A)>,
    j: int,
)
    requires
        is_peer_set(entries, peers),
        0 <= j < entries.len(),
        forall|i: int| 0 <= i < j ==> (#[trigger] entries[i]).0 != entries[j].0,
    ensures
        exists|p: int| 0 <= p < peers.len() && #[trigger] peers[p] == entries[j],
        forall|p: int, q: int|
            0 <= p < q < peers.len() ==> (#[trigger] peers[p]).0 != (#[trigger] peers[q]).0
                && key_before((peers[p].0.hi, peers[p].0.lo), (peers[q].0.hi, peers[q].0.lo)),
        forall|p: int|
            0 <= p < peers.len() ==> exists|e: int|
                0 <= e < entries.len() && #[trigger] entries[e] == #[trigger] peers[p],
{
    let all = keyed(entries);
    assert(is_first_of_key(all, j)) by {
        assert forall|i: int| 0 <= i < j implies (#[trigger] all[i]).0 != all[j].0 by {
            assert(entries[i].0 != entries[j].0);
        }
    }
    let p = choose|p: int| 0 <= p < keyed(peers).len() && keyed(peers)[p] == all[j];
    assert(peers[p].0 == entries[j].0);
    assert(peers[p] == entries[j]);
    assert forall|p: int, q: int| 0 <= p < q < peers.len() implies (#[trigger] peers[p]).0 != (
    #[trigger] peers[q]).0 && key_before(
        (peers[p].0.hi, peers[p].0.lo),
        (peers[q].0.hi, peers[q].0.lo),
    ) by {
        assert(key_before(keyed(peers)[p].0, keyed(peers)[q].0));
    }
    assert forall|p: int| 0 <= p < peers.len() implies exists|e: int|
        0 <= e < entries.len() && #[trigger] entries[e] == #[trigger] peers[p] by {
        assert(is_first_entry(all, keyed(peers)[p]));
        let e = choose|e: int| #[trigger] is_first_of_key(all, e) && all[e] == keyed(peers)[p];
        assert(entries[e].0 == peers[p].0);
        assert(entries[e] == peers[p]);
    }
}

/// Every validator of the genesis that spells a key has it among the keys.
pub proof fn law_validators_have_their_keys(
    validators: Seq<ValidatorConfig>,
    keys: Seq<PublicKey>,
    i: int,
) -> (k: int)
    requires
        keys_of(validators, keys),
        0 <= i < validators.len(),
        is_key_text(validators[i].pubkey@),
    ensures
        0 <= k < keys.len(),
        spells_key(validators[i].pubkey@, keys[k]),
    decreases validators.len(),
{
    let n = validators.len() - 1;
    if i == n {
        keys.len() - 1
    } else if is_key_text(validators[n].pubkey@) {
        law_validators_have_their_keys(validators.drop_last(), keys.drop_last(), i)
    } else {
        law_validators_have_their_keys(validators.drop_last(), keys, i)
    }
}

/// Every key of the genesis is spelled by one of its validators.
pub proof fn law_keys_are_those_of_the_validators(
    validators: Seq<ValidatorConfig>,
    keys: Seq<PublicKey>,
    k: int,
) -> (i: int)
    requires
        keys_of(validators, keys),
        0 <= k < keys.len(),
    ensures
        0 <= i < validators.len(),
        spells_key(validators[i].pubkey@, keys[k]),
    decreases validators.len(),
{
    let n = validators.len() - 1;
    if is_key_text(validators[n].pubkey@) {
        if k == keys.len() - 1 {
            n
        } else {
            law_keys_are_those_of_the_validators(validators.drop_last(), keys.drop_last(), k)
        }
    } else {
        law_keys_are_those_of_the_validators(validators.drop_last(), keys, k)
    }
}

/// The bytes of a number, lowest first, spell the number when they are read backwards.
pub proof fn law_lowest_bytes_first(x: nat, n: nat)
    ensures
        le_bytes(x, n).len() == n,
        x < pow(256, n) ==> big_endian(le_bytes(x, n).reverse()) == x,
    decreases n,
{
    reveal_with_fuel(pow, 2);
    if n > 0 {
        let m = (n - 1) as nat;
        let bytes = le_bytes(x, n);
        let rest = le_bytes(x / 256, m);
        law_lowest_bytes_first(x / 256, m);
        assert(bytes.reverse() =~= rest.reverse().push((x % 256) as u8));
        assert(bytes.reverse().drop_last() =~= rest.reverse());
        if x < pow(256, n) {
            assert(x / 256 < pow(256, m)) by {
                let p = pow(256, m);
                assert(pow(256, n) == 256 * p);
            }
        }
    } else {
        assert(le_bytes(x, 0).reverse() =~= Seq::empty());
    }
}

/// A seed has 32 bytes: the first hash and the second, the lowest byte first, and zeros.
pub proof fn law_seeds_hold_both_hashes(h: u64, h2: u64)
    ensures
        seed_bytes(h, h2).len() == 32,
        big_endian(seed_bytes(h, h2).subrange(0, 8).reverse()) == h,
        big_endian(seed_bytes(h, h2).subrange(8, 16).reverse()) == h2,
        forall|i: int| 16 <= i < 32 ==> #[trigger] seed_bytes(h, h2)[i] == 0,
{
    reveal_with_fuel(pow, 9);
    law_lowest_bytes_first(h as nat, 8);
    law_lowest_bytes_first(h2 as nat, 8);
    assert(seed_bytes(h, h2).subrange(0, 8) =~= le_bytes(h as nat, 8));
    assert(seed_bytes(h, h2).subrange(8, 16) =~= le_bytes(h2 as nat, 8));
}

/// The share of a node is the one that it was given; else the one that was dealt to the position of its own
/// key among the participants; and none where it is not one of them. The participants are the keys, once
/// each and by increasing key, and the polynomial is that which was dealt to so many.
pub proof fn law_nodes_get_the_share_of_their_key(
    material: KeyMaterial,
    seed: Seq<u8>,
    keys: Seq<PublicKey>,
    my_key: PublicKey,
    pre_share: Option<Seq<u8>>,
    i: int,
)
    requires
        is_material(material, seed, keys, my_key, pre_share),
    ensures
        pre_share is Some ==> share_bytes(material.share) == pre_share,
        pre_share is None && 0 <= i < material.participants@.len() && material.participants@[i]
            == my_key ==> (material.share matches Some(share) && share@ == dealt(
            seed,
            material.participants@.len(),
        ).1[i]),
        pre_share is None && !keys.contains(my_key) ==> material.share is None,
        pre_share is None && keys.contains(my_key) ==> material.share is Some,
        material.polynomial@ == dealt(seed, material.participants@.len()).0,
        forall|k: PublicKey| material.participants@.contains(k) <==> keys.contains(k),
        forall|a: int, b: int|
            0 <= a < b < material.participants@.len() ==> key_before(
                (
                    (#[trigger] material.participants@[a]).hi,
                    material.participants@[a].lo,
                ),
                (
                    (#[trigger] material.participants@[b]).hi,
                    material.participants@[b].lo,
                ),
            ),
{
    let participants = material.participants@;
    let pairs = key_pairs(participants);
    assert forall|k: PublicKey| participants.contains(k) <==> keys.contains(k) by {
        assert(participants.to_set().contains(k) <==> keys.to_set().contains(k));
    }
    assert forall|a: int, b: int| 0 <= a < b < participants.len() implies key_before(
        ((#[trigger] participants[a]).hi, participants[a].lo),
        ((#[trigger] participants[b]).hi, participants[b].lo),
    ) by {
        assert(key_before(pairs[a], pairs[b]));
    }
    if pre_share is None && participants.contains(my_key) {
        let p = position_of(participants, my_key);
        assert(0 <= p < participants.len() && participants[p] == my_key);
        if 0 <= i < participants.len() && participants[i] == my_key {
            if i < p {
                assert(key_before(pairs[i], pairs[p]));
            }
            if p < i {
                assert(key_before(pairs[p], pairs[i]));
            }
            assert(i == p);
        }
    }
}

/// Nodes with different keys, neither of which was given a share, get the shares of different positions.
pub proof fn law_different_nodes_stand_at_different_positions(
    participants: Seq<PublicKey>,
    a: PublicKey,
    b: PublicKey,
)
    requires
        participants.contains(a),
        participants.contains(b),
        a != b,
    ensures
        position_of(participants, a) != position_of(participants, b),
        participants[position_of(participants, a)] == a,
        0 <= position_of(participants, a) < participants.len(),
{
    let i = choose|i: int| 0 <= i < participants.len() && participants[i] == a;
    let j = choose|j: int| 0 <= j < participants.len() && participants[j] == b;
}

/// An epoch is never entered before a tip lies in it or beyond it: where no tip lies beyond an epoch, the
/// epochs do not pass it. A tip beyond the current epoch leads one epoch on.
pub proof fn law_epochs_do_not_pass_the_tips(start: u64, tips: Seq<Option<u64>>, most: u64)
    requires
        start <= most,
        forall|i: int|
            0 <= i < tips.len() ==> ((#[trigger] tips[i]) matches Some(epoch) ==> epoch <= most),
    ensures
        start <= epoch_after(start, tips) <= most,
    decreases tips.len(),
{
    if tips.len() > 0 {
        let rest = tips.drop_last();
        assert forall|i: int| 0 <= i < rest.len() implies ((
        #[trigger] rest[i]) matches Some(epoch) ==> epoch <= most) by {
            assert(tips[i] == rest[i]);
        }
        law_epochs_do_not_pass_the_tips(start, rest, most);
        assert(tips[tips.len() - 1] == tips.last());
    }
}

/// A tip leads on exactly where it lies in a later epoch than the current one, and then by one epoch.
pub proof fn law_tips_beyond_lead_on(start: u64, tips: Seq<Option<u64>>, tip: Option<u64>)
    ensures
        ({
            let current = epoch_after(start, tips);
            let next = epoch_after(start, tips.push(tip));
            &&& tip is None ==> next == current
            &&& tip matches Some(epoch) ==> if epoch > current {
                next == current + 1
            } else {
                next == current
            }
            &&& lies_beyond(tip, current) <==> (tip matches Some(epoch) && epoch > current)
        }),
{
    assert(tips.push(tip).drop_last() =~= tips);
}

/// The name of the chain is `PRIVATE_CHAIN`, peers shake hands under it with `_P2P` behind it, and the seed
/// is labelled `PRIVATE_CHAIN_DKG_SEED`.
pub proof fn law_names_are_those_of_the_chain()
    ensures
        namespace_bytes().len() == "PRIVATE_CHAIN"@.len(),
        forall|i: int|
            0 <= i < namespace_bytes().len() ==> #[trigger] namespace_bytes()[i] as char
                == "PRIVATE_CHAIN"@[i],
        p2p_suffix_bytes().len() == "_P2P"@.len(),
        forall|i: int|
            0 <= i < p2p_suffix_bytes().len() ==> #[trigger] p2p_suffix_bytes()[i] as char
                == "_P2P"@[i],
        seed_label_bytes().len() == "PRIVATE_CHAIN_DKG_SEED"@.len(),
        forall|i: int|
            0 <= i < seed_label_bytes().len() ==> #[trigger] seed_label_bytes()[i] as char
                == "PRIVATE_CHAIN_DKG_SEED"@[i],
{
    reveal_strlit("PRIVATE_CHAIN");
    reveal_strlit("_P2P");
    reveal_strlit("PRIVATE_CHAIN_DKG_SEED");
    assert forall|i: int| 0 <= i < seed_label_bytes().len() implies
        #[trigger] seed_label_bytes()[i] as char == "PRIVATE_CHAIN_DKG_SEED"@[i] by {
        if i < 13 {
            assert(seed_label_bytes()[i] == namespace_bytes()[i]);
        }
    }
}

/// A number in groups of 7 bits ends with a byte below 128 and has only bytes from 128 on before it, and the
/// groups spell the number.
pub proof fn law_groups_of_bits_spell_the_number(n: nat)
    ensures
        varint(n).len() >= 1,
        varint(n).last() < 128,
        n < 128 ==> varint(n).len() == 1,
        varint(n)[0] as nat % 128 == n % 128,
        n >= 128 ==> varint(n)[0] >= 128 && varint(n).drop_first() == varint(n / 128),
    decreases n,
{
    if n >= 128 {
        law_groups_of_bits_spell_the_number(n / 128);
        assert(varint(n).drop_first() =~= varint(n / 128));
        assert(varint(n).last() == varint(n / 128).last());
    }
}

/// A text is a positive duration exactly where it spells a span of time that is longer than none, and then
/// it is that span.
pub proof fn law_durations_are_longer_than_none(text: Seq<char>, secs: i64, nanos: i32)
    requires
        signed_duration(text) == Some((secs, nanos)),
        -1_000_000_000 < nanos < 1_000_000_000,
        !(secs > 0 && nanos < 0) && !(secs < 0 && nanos > 0),
    ensures
        positive_duration(text) is Ok <==> secs * 1_000_000_000 + nanos > 0,
        positive_duration(text) matches Ok(d) ==> d == (secs, nanos),
        positive_duration(text) matches Err(e) ==> e == DurationError::NotPositive,
{
}

/// A text that spells no span of time is refused as that.
pub proof fn law_other_texts_are_no_durations(text: Seq<char>)
    requires
        signed_duration(text) is None,
    ensures
        positive_duration(text) == Err::<(i64, i32), _>(DurationError::NotADuration),
{
}

/// The number that decimal digits spell.
pub open spec fn spelled(digits: Seq<char>) -> int
    decreases digits.len(),
{
    if digits.len() == 0 {
        0
    } else {
        spelled(digits.drop_last()) * 10 + (digits.last() as u32 - '0' as u32)
    }
}

/// The decimal digits of a number are digits, spell the number, and start with 0 for 0 alone.
pub proof fn law_digits_spell_their_number(n: nat)
    ensures
        decimal(n).len() >= 1,
        forall|i: int| 0 <= i < decimal(n).len() ==> '0' <= #[trigger] decimal(n)[i] <= '9',
        spelled(decimal(n)) == n,
        decimal(n)[0] == '0' ==> n == 0,
    decreases n,
{
    let digits = decimal(n);
    if n < 10 {
        assert(digits.drop_last() =~= Seq::<char>::empty());
        assert(spelled(Seq::<char>::empty()) == 0);
    } else {
        law_digits_spell_their_number(n / 10);
        assert(digits.drop_last() =~= decimal(n / 10));
    }
}

/// An epoch is newer than the running ones exactly where it comes after each of them, and counts go up and
/// down by one within their range.
pub proof fn law_newer_epochs_come_after_all(
    running: Set<u64>,
    epoch: u64,
    one: u64,
    n: i64,
    m: u64,
)
    ensures
        is_newer(running, epoch) && running.contains(one) ==> one < epoch,
        running.contains(one) && epoch <= one ==> !is_newer(running, epoch),
        is_newer(Set::empty(), epoch),
        n < i64::MAX ==> wrapping_next_i64(n) == n + 1,
        n > i64::MIN ==> wrapping_last_i64(n) == n - 1,
        m < u64::MAX ==> wrapping_next_u64(m) == m + 1,
{
}

/// A number takes as few bytes as can hold it.
pub proof fn law_numbers_take_as_few_bytes_as_they_can(n: nat)
    ensures
        byte_width(n) >= 1,
        n < pow(256, byte_width(n)),
        byte_width(n) > 1 ==> n >= pow(256, (byte_width(n) - 1) as nat),
    decreases n,
{
    reveal_with_fuel(pow, 2);
    if n >= 256 {
        law_numbers_take_as_few_bytes_as_they_can(n / 256);
        let w = byte_width(n / 256);
        let p = pow(256, w);
        assert(pow(256, w + 1) == 256 * p);
        if w > 1 {
            let q = pow(256, (w - 1) as nat);
            assert(p == 256 * q);
        } else {
            assert(pow(256, 1) == 256);
        }
    } else {
        assert(pow(256, 1) == 256);
    }
}

/// A frame is the header of an item and its payload: one byte of header for a payload below 56 bytes, else
/// one more for each byte of the length. Bytes that are too few hold no frame.
pub proof fn law_frames_hold_one_item(bytes: Seq<u8>, list: bool, payload: usize)
    requires
        rlp_header(bytes) == Some((list, payload)),
    ensures
        ({
            let header = if payload < 56 {
                1int
            } else {
                (1 + byte_width(payload as nat)) as int
            };
            match frame_of(bytes) {
                Ok(frame) => frame.len() == header + payload && frame.len() <= bytes.len() && forall|
                    i: int,
                |
                    0 <= i < frame.len() ==> #[trigger] frame[i] == bytes[i],
                Err(e) => e == FrameError::EndOfBuffer && bytes.len() < header + payload,
            }
        }),
{
}

/// A block that is read has the hash, the parent, the number and the time of the block that its frame
/// decodes to, and the frame is its encoding.
pub proof fn law_read_blocks_are_what_their_frame_holds(
    bytes: Seq<u8>,
    block: BlockView,
    used: int,
)
    requires
        block_of(bytes) == Ok::<_, ReadBlockError>((block, used)),
    ensures
        frame_of(bytes) == Ok::<_, FrameError>(block.encoded),
        used == block.encoded.len(),
        decoded_block(block.encoded) matches Some(fields) && fields.hash == block.hash
            && fields.parent_hash == block.parent_hash && fields.number == block.number
            && fields.timestamp == block.timestamp,
{
}

/// The network is set up as the arguments ask: each span of time and each limit is that of its own argument.
pub proof fn law_networks_are_set_up_as_asked(settings: NetworkSettings, args: Args)
    requires
        settings.are_of(args),
    ensures
        settings.namespace@.len() == 18,
        settings.namespace@[0] == namespace_bytes().len(),
        settings.namespace@.subrange(1, 14) == namespace_bytes(),
        settings.namespace@.skip(14) == p2p_suffix_bytes(),
        settings.mailbox_size == args.mailbox_size,
        settings.max_message_size == args.max_message_size_bytes,
        settings.max_concurrent_handshakes == args.max_concurrent_handshakes,
        settings.allow_private_ips == args.allow_private_ips,
        settings.allow_dns == args.allow_dns,
        settings.bypass_ip_check == args.bypass_ip_check,
        settings.tracked_peer_sets == 3,
        lasts(settings.synchrony_bound.secs, settings.synchrony_bound.nanos, args.synchrony_bound),
        lasts(
            settings.connection_period_per_peer.secs,
            settings.connection_period_per_peer.nanos,
            args.connection_per_peer_min_period,
        ),
        lasts(
            settings.handshake_period_per_ip.secs,
            settings.handshake_period_per_ip.nanos,
            args.handshake_per_ip_min_period,
        ),
        lasts(
            settings.handshake_period_per_subnet.secs,
            settings.handshake_period_per_subnet.nanos,
            args.handshake_per_subnet_min_period,
        ),
        lasts(
            settings.max_handshake_age.secs,
            settings.max_handshake_age.nanos,
            args.handshake_stale_after,
        ),
        lasts(
            settings.handshake_timeout.secs,
            settings.handshake_timeout.nanos,
            args.handshake_timeout,
        ),
        lasts(
            settings.block_duration.secs,
            settings.block_duration.nanos,
            args.time_to_unblock_byzantine_peer,
        ),
        lasts(
            settings.dial_frequency.secs,
            settings.dial_frequency.nanos,
            args.wait_before_peers_redial,
        ),
        lasts(
            settings.ping_frequency.secs,
            settings.ping_frequency.nanos,
            args.wait_before_peers_reping,
        ),
        lasts(
            settings.query_frequency.secs,
            settings.query_frequency.nanos,
            args.wait_before_peers_discovery,
        ),
{
    assert(settings.namespace@.subrange(1, 14) =~= namespace_bytes());
    assert(settings.namespace@.skip(14) =~= p2p_suffix_bytes());
}

/// Whether the seconds and nanoseconds are those of the duration, and not none.
pub open spec fn lasts(
    secs: u64,
    nanos: u32,
    of: PositiveDuration,
) -> bool {
    &&& secs as int * 1_000_000_000 + nanos as int == of.parts().0 as int * 1_000_000_000
        + of.parts().1 as int
    &&& secs as int * 1_000_000_000 + nanos as int > 0
}

/// The engine is set up as the arguments ask; without a recipient fees go to the zero address.
pub proof fn law_engines_are_set_up_as_asked(settings: EngineSettings, args: Args)
    requires
        settings.are_of(args),
    ensures
        settings.partition_prefix@ == "private-chain"@,
        args.fee_recipient matches Some(to) ==> settings.fee_recipient == to,
        args.fee_recipient is None ==> settings.fee_recipient == (Address { hi: 0, lo: 0 }),
        settings.mailbox_size == args.mailbox_size,
        settings.deque_size == args.deque_size,
        settings.views_to_track == args.views_to_track,
        settings.views_until_leader_skip == args.inactive_views_until_leader_skip,
        lasts(
            settings.time_to_propose.secs,
            settings.time_to_propose.nanos,
            args.wait_for_proposal,
        ),
        lasts(
            settings.time_to_collect_notarizations.secs,
            settings.time_to_collect_notarizations.nanos,
            args.wait_for_notarizations,
        ),
        lasts(
            settings.time_to_retry_nullify_broadcast.secs,
            settings.time_to_retry_nullify_broadcast.nanos,
            args.wait_to_rebroadcast_nullify,
        ),
        lasts(
            settings.time_for_peer_response.secs,
            settings.time_for_peer_response.nanos,
            args.wait_for_peer_response,
        ),
        lasts(
            settings.new_payload_wait_time.secs,
            settings.new_payload_wait_time.nanos,
            args.time_to_build_proposal,
        ),
        lasts(
            settings.fcu_heartbeat_interval.secs,
            settings.fcu_heartbeat_interval.nanos,
            args.fcu_heartbeat_interval,
        ),
{
}

/// The stack has five channels, each with the backlog that is asked for: blocks and finalized blocks carry 8
/// messages per second, votes, certificates and requests 128.
pub proof fn law_channels_carry_their_messages(backlog: usize, i: int)
    requires
        0 <= i < channels_of(backlog).len(),
    ensures
        channels_of(backlog).len() == 5,
        channels_of(backlog)[i].backlog == backlog,
        channels_of(backlog)[i].ident < 5,
        channels_of(backlog)[i].limit == if channels_of(backlog)[i].ident == 3
            || channels_of(backlog)[i].ident == 4 {
            8u32
        } else {
            128u32
        },
        channels_of(backlog)[0].ident == 3 && channels_of(backlog)[1].ident == 4
            && channels_of(backlog)[2].ident == 0 && channels_of(backlog)[3].ident == 1
            && channels_of(backlog)[4].ident == 2,
{
}

/// The records of different epochs have different names.
pub proof fn law_epochs_keep_records_of_their_own(
    prefix: &str,
    a: u64,
    b: u64,
    of_a: String,
    of_b: String,
)
    requires
        call_ensures(partition_name, (prefix, a), of_a),
        call_ensures(partition_name, (prefix, b), of_b),
        a != b,
    ensures
        of_a@ != of_b@,
        of_a@.take(prefix@.len() as int) == prefix@,
        of_a@.skip(prefix@.len() as int) == "_consensus_epoch_"@ + decimal(a as nat),
{
    let start = prefix@ + "_consensus_epoch_"@;
    assert(of_a@.take(prefix@.len() as int) =~= prefix@);
    assert(of_a@.skip(prefix@.len() as int) =~= "_consensus_epoch_"@ + decimal(a as nat));
    if of_a@ == of_b@ {
        assert(of_a@.skip(start.len() as int) =~= decimal(a as nat));
        assert(of_b@.skip(start.len() as int) =~= decimal(b as nat));
        law_digits_spell_their_number(a as nat);
        law_digits_spell_their_number(b as nat);
    }
}

/// An epoch starts exactly where it comes after every running one: with a share to sign, else to verify. One
/// that is refused is told the latest of the running ones.
pub proof fn law_only_newer_epochs_start(
    manager: &EpochManager,
    epoch: u64,
    has_share: bool,
    r: Result<Role, EnterError>,
    running: u64,
)
    requires
        call_ensures(EpochManager::enter, (manager, epoch, has_share), r),
        manager@.contains(running),
    ensures
        epoch <= running ==> r is Err,
        r matches Ok(role) ==> running < epoch && (role is Signer <==> has_share) && (
        role is Verifier <==> !has_share),
        r matches Err(e) ==> (e matches EnterError::NotNewer { epoch: refused, latest } && refused
            == epoch && manager@.contains(latest) && running <= latest && epoch <= latest),
{
}

/// Where no epoch is running, every epoch may start.
pub proof fn law_first_epochs_start(
    manager: &EpochManager,
    epoch: u64,
    has_share: bool,
    r: Result<Role, EnterError>,
)
    requires
        call_ensures(EpochManager::enter, (manager, epoch, has_share), r),
        manager@ == Set::<u64>::empty(),
    ensures
        r matches Ok(role) && (role is Signer <==> has_share),
{
}

/// An epoch has the length that the genesis gives it, else 100 blocks, and there are as many validators as
/// the genesis lists. A genesis that says nothing lists none.
pub proof fn law_the_genesis_counts(
    parsed: Option<PrivateGenesisInfo>,
    info: PrivateGenesisInfo,
    length: u64,
    validators: usize,
)
    requires
        call_ensures(PrivateGenesisInfo::from_chain_spec, (parsed,), info),
        call_ensures(PrivateGenesisInfo::epoch_length, (&info,), length),
        call_ensures(PrivateGenesisInfo::num_validators, (&info,), validators),
    ensures
        parsed matches Some(said) ==> {
            &&& info == said
            &&& said.epoch_length matches Some(n) ==> length == n
            &&& said.epoch_length is None ==> length == 100
            &&& said.validators matches Some(v) ==> validators == v@.len()
            &&& said.validators is None ==> validators == 0
        },
        parsed is None ==> length == 100 && validators == 0,
{
}

/// A stack is planned exactly where there is a signing key, and then for the arguments.
pub proof fn law_stacks_need_a_signing_key(
    args: &Args,
    has_signing_key: bool,
    r: Result<StackPlan, StackError>,
)
    requires
        call_ensures(plan_stack, (args, has_signing_key), r),
    ensures
        r is Ok <==> has_signing_key,
        r matches Err(e) ==> e is SigningKeyRequired,
        r matches Ok(plan) ==> plan.network.are_of(*args) && plan.engine.are_of(*args)
            && plan.channels@ == channels_of(args.message_backlog),
{
}

/// A stack that has ended names the part that ended.
pub proof fn law_stacks_name_the_part_that_ended(network_ended: bool, r: StackError)
    requires
        call_ensures(ended_by, (network_ended,), r),
    ensures
        network_ended ==> r is NetworkFailed,
        !network_ended ==> r is EngineFailed,
{
}

/// The seed of the ceremony holds what a hasher finishes with after the name of the chain, and then what it
/// finishes with after the label of the seed, each with the lowest byte first.
pub proof fn law_seeds_come_from_the_name_and_the_label(
    big_endian_machine: bool,
    name: Seq<u8>,
    label: Seq<u8>,
)
    requires
        name.len() == "PRIVATE_CHAIN"@.len(),
        forall|i: int| 0 <= i < name.len() ==> #[trigger] name[i] as char == "PRIVATE_CHAIN"@[i],
        label.len() == "PRIVATE_CHAIN_DKG_SEED"@.len(),
        forall|i: int|
            0 <= i < label.len() ==> #[trigger] label[i] as char == "PRIVATE_CHAIN_DKG_SEED"@[i],
    ensures
        ({
            let named = fed(usize::BITS, big_endian_machine, Seq::empty(), name);
            let labelled = fed(usize::BITS, big_endian_machine, named, label);
            let seed = seed_of_states(named, labelled);
            &&& named_state(big_endian_machine) == named
            &&& labelled_state(named, big_endian_machine) == labelled
            &&& big_endian(seed.subrange(0, 8).reverse()) == DefaultHasher::spec_finish(named)
            &&& big_endian(seed.subrange(8, 16).reverse()) == DefaultHasher::spec_finish(labelled)
            &&& seed.len() == 32
        }),
{
    law_names_are_those_of_the_chain();
    assert(name =~= namespace_bytes()) by {
        assert forall|i: int| 0 <= i < name.len() implies name[i] == namespace_bytes()[i] by {
            assert(name[i] as char == namespace_bytes()[i] as char);
        }
    }
    assert(label =~= seed_label_bytes()) by {
        assert forall|i: int| 0 <= i < label.len() implies label[i] == seed_label_bytes()[i] by {
            assert(label[i] as char == seed_label_bytes()[i] as char);
        }
    }
    let named = fed(usize::BITS, big_endian_machine, Seq::empty(), name);
    let labelled = fed(usize::BITS, big_endian_machine, named, label);
    law_seeds_hold_both_hashes(
        DefaultHasher::spec_finish(named),
        DefaultHasher::spec_finish(labelled),
    );
}

/// A tip beyond the epoch has the next epoch entered and then this one left; any other news has nothing
/// told.
pub proof fn law_tips_beyond_are_told_of(current: u64, update: CeremonyUpdate)
    ensures
        match update {
            CeremonyUpdate::Tip { epoch: Some(tip) } => if tip > current {
                &&& told_by(current, update).len() == 2
                &&& told_by(current, update)[0] == EpochMessage::Enter {
                    epoch: (current + 1) as u64,
                }
                &&& told_by(current, update)[1] == EpochMessage::Exit { epoch: current }
            } else {
                told_by(current, update).len() == 0
            },
            _ => told_by(current, update).len() == 0,
        },
{
}

/// A candidate says its key first and its address then.
pub proof fn law_candidates_say_their_key_and_address(candidates: Seq<PeerCandidate>, i: int)
    requires
        0 <= i < candidates.len(),
    ensures
        candidate_texts(candidates).len() == candidates.len(),
        candidate_texts(candidates)[i].0 == candidates[i].pubkey@,
        candidate_texts(candidates)[i].1 == candidates[i].address@,
{
}

/// An epoch that has started is running, beside those that were, and is the latest one; it counts once as
/// what this node takes part as.
pub proof fn law_started_epochs_run(
    manager: &mut EpochManager,
    epoch: u64,
    participants: usize,
    role: Role,
    other: u64,
)
    requires
        is_newer(old(manager)@, epoch),
        call_ensures(EpochManager::started, (manager, epoch, participants, role), ()),
    ensures
        final(manager)@.contains(epoch),
        other != epoch ==> (final(manager)@.contains(other) <==> old(manager)@.contains(other)),
        ({
            let before = old(manager).counted();
            let after = final(manager).counted();
            &&& epoch <= i64::MAX ==> after.latest_epoch == epoch
            &&& participants <= i64::MAX ==> after.latest_participants == participants
            &&& before.active_epochs < i64::MAX ==> after.active_epochs == before.active_epochs + 1
            &&& role is Verifier ==> after.how_often_signer == before.how_often_signer
            &&& role is Signer ==> after.how_often_verifier == before.how_often_verifier
            &&& role is Signer && before.how_often_signer < u64::MAX ==> after.how_often_signer
                == before.how_often_signer + 1
            &&& role is Verifier && before.how_often_verifier < u64::MAX
                ==> after.how_often_verifier == before.how_often_verifier + 1
        }),
{
}

/// An epoch that has ended no longer runs, all others do as before, and its engine is stopped exactly where
/// it was running.
pub proof fn law_ended_epochs_stop(
    manager: &mut EpochManager,
    epoch: u64,
    stopped: bool,
    other: u64,
)
    requires
        call_ensures(EpochManager::exit, (manager, epoch), stopped),
    ensures
        stopped <==> old(manager)@.contains(epoch),
        !final(manager)@.contains(epoch),
        other != epoch ==> (final(manager)@.contains(other) <==> old(manager)@.contains(other)),
        stopped && old(manager).counted().active_epochs > i64::MIN
            ==> final(manager).counted().active_epochs == old(manager).counted().active_epochs - 1,
        !stopped ==> final(manager).counted() == old(manager).counted(),
        final(manager).counted().latest_epoch == old(manager).counted().latest_epoch,
        final(manager).counted().how_often_signer == old(manager).counted().how_often_signer,
        final(manager).counted().how_often_verifier == old(manager).counted().how_often_verifier,
{
}

/// The tracker moves on by one epoch on a tip beyond its own, and tells of the epoch that it enters and of
/// the one that it leaves; else it stays.
pub proof fn law_trackers_move_on_by_one(
    tracker: &mut EpochTracker,
    tip: Option<u64>,
    r: Option<Transition>,
)
    requires
        call_ensures(EpochTracker::on_tip, (tracker, tip), r),
    ensures
        r is Some <==> (tip matches Some(epoch) && epoch > old(tracker).current),
        r matches Some(change) ==> change.exit == old(tracker).current && change.enter
            == old(tracker).current + 1 && final(tracker).current == change.enter,
        r is None ==> final(tracker).current == old(tracker).current,
{
}

} // verus!
