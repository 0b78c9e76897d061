//! The static key ceremony: every node deals the same threshold key to the validators of the
//! genesis, picks its own share, and walks through the epochs as the chain grows.

use crate::consensus::config::{namespace, namespace_bytes};
use crate::consensus::genesis::{keys_of, parse_validator_keys, ValidatorConfig};
use crate::consensus::keys::{is_key_text, PublicKey};
use crate::consensus::peers::key_before;
use commonware_codec::Encode;
use commonware_cryptography::bls12381::dkg::deal;
use commonware_cryptography::bls12381::primitives::sharing::Mode;
use commonware_cryptography::bls12381::primitives::variant::MinSig;
use rand::SeedableRng;
use std::collections::hash_map::DefaultHasher;
use std::hash::{Hash, Hasher};
use vstd::std_specs::hash::DefaultHasherAdditionalSpecFns;
use vstd::prelude::*;

verus! {

/// The lowest `n` bytes of a number, the lowest first.
pub open spec fn le_bytes(x: nat, n: nat) -> Seq<u8>
    decreases n,
{
    if n == 0 {
        Seq::empty()
    } else {
        seq![(x % 256) as u8] + le_bytes(x / 256, (n - 1) as nat)
    }
}

/// A seed: the two hashes, and zeros.
pub open spec fn seed_bytes(h: u64, h2: u64) -> Seq<u8> {
    le_bytes(h as nat, 8) + le_bytes(h2 as nat, 8) + Seq::new(16, |i: int| 0u8)
}

proof fn lemma_le_bytes_len(x: nat, n: nat)
    ensures
        le_bytes(x, n).len() == n,
    decreases n,
{
    if n > 0 {
        lemma_le_bytes_len(x / 256, (n - 1) as nat);
    }
}

fn push_le_bytes(out: &mut Vec<u8>, x: u64)
    ensures
        final(out)@ == old(out)@ + le_bytes(x as nat, 8),
{
    let ghost before = out@;
    let mut rest: u64 = x;
    let mut i: usize = 0;
    while i < 8
        invariant
            i <= 8,
            out@ + le_bytes(rest as nat, (8 - i) as nat) == before + le_bytes(x as nat, 8),
        decreases 8 - i,
    {
        let ghost held = out@;
        let ghost tail = le_bytes((rest / 256) as nat, (8 - i - 1) as nat);
        out.push((rest % 256) as u8);
        assert(held + (seq![(rest % 256) as u8] + tail) =~= out@ + tail);
        rest = rest / 256;
        i = i + 1;
    }
    assert(out@ + le_bytes(rest as nat, 0) =~= out@);
}

/// The seed that two hashes make.
pub fn seed_from_hashes(h: u64, h2: u64) -> (r: Vec<u8>)
    ensures
        r@ == seed_bytes(h, h2),
        r@.len() == 32,
{
    let mut seed: Vec<u8> = Vec::new();
    push_le_bytes(&mut seed, h);
    push_le_bytes(&mut seed, h2);
    let ghost head = seed@;
    proof {
        lemma_le_bytes_len(h as nat, 8);
        lemma_le_bytes_len(h2 as nat, 8);
        assert(head =~= le_bytes(h as nat, 8) + le_bytes(h2 as nat, 8));
    }
    let mut i: usize = 0;
    while i < 16
        invariant
            i <= 16,
            seed@ == head + Seq::new(i as nat, |j: int| 0u8),
        decreases 16 - i,
    {
        seed.push(0);
        i = i + 1;
        assert(seed@ =~= head + Seq::new(i as nat, |j: int| 0u8));
    }
    seed
}

/// What `<[u8] as std::hash::Hash>::hash` makes of the state of a hasher that it feeds the bytes to,
/// on a machine whose words have `word_bits` bits, and which keeps the highest byte of a number first
/// or last.
pub uninterp spec fn fed(
    word_bits: u32,
    big_endian: bool,
    state: Seq<Seq<u8>>,
    bytes: Seq<u8>,
) -> Seq<Seq<u8>>;

/// `<[u8] as std::hash::Hash>::hash`: feeds the bytes to the hasher. Its state afterwards depends on
/// its state before, the bytes, and the word and the byte order of the machine, in which the length is
/// fed. How the standard library frames the bytes is not stated, as it may change with the release.
/// Says which byte order the machine has: whether it keeps the highest byte of a number first.
#[verifier::external_body]
fn feed(bytes: &Vec<u8>, hasher: &mut DefaultHasher) -> (big_endian: bool)
    ensures
        final(hasher)@ == fed(usize::BITS, big_endian, old(hasher)@, bytes@),
{
    bytes[..].hash(hasher);
    1u16.to_ne_bytes() == 1u16.to_be_bytes()
}

/// The bytes of `PRIVATE_CHAIN_DKG_SEED`.
pub open spec fn seed_label_bytes() -> Seq<u8> {
    namespace_bytes() + seq![95u8, 68u8, 75u8, 71u8, 95u8, 83u8, 69u8, 69u8, 68u8]
}

/// The label of the seed.
pub fn seed_label() -> (r: Vec<u8>)
    ensures
        r@ == seed_label_bytes(),
{
    let r: Vec<u8> = vec![
        80, 82, 73, 86, 65, 84, 69, 95, 67, 72, 65, 73, 78, 95, 68, 75, 71, 95, 83, 69, 69, 68,
    ];
    assert(r@ =~= seed_label_bytes());
    r
}

/// The state of a hasher that was fed the name of the chain.
pub open spec fn named_state(big_endian: bool) -> Seq<Seq<u8>> {
    fed(usize::BITS, big_endian, Seq::empty(), namespace_bytes())
}

/// The state of a hasher that was fed more after the name of the chain: the label of the seed.
pub open spec fn labelled_state(named: Seq<Seq<u8>>, big_endian: bool) -> Seq<Seq<u8>> {
    fed(usize::BITS, big_endian, named, seed_label_bytes())
}

/// The seed that the states of a hasher give: one fed the name of the chain, and one fed the label
/// after it.
pub open spec fn seed_of_states(named: Seq<Seq<u8>>, labelled: Seq<Seq<u8>>) -> Seq<u8> {
    seed_bytes(DefaultHasher::spec_finish(named), DefaultHasher::spec_finish(labelled))
}

/// The seed of the chain: a hash of its name, and a hash of its name and a label. Each is fed in the
/// byte order of the machine.
pub fn chain_seed() -> (r: Vec<u8>)
    ensures
        exists|first: bool, second: bool|
            r@ == #[trigger] seed_of_states(
                named_state(first),
                labelled_state(named_state(first), second),
            ),
        r@.len() == 32,
{
    let mut hasher = DefaultHasher::new();
    let first: bool = feed(&namespace(), &mut hasher);
    let h: u64 = hasher.finish();
    let second: bool = feed(&seed_label(), &mut hasher);
    let h2: u64 = hasher.finish();
    let seed = seed_from_hashes(h, h2);
    assert(seed@ == seed_of_states(
        named_state(first),
        labelled_state(named_state(first), second),
    ));
    seed
}

/// Whether the keys come in strictly increasing order.
pub open spec fn strictly_increasing(keys: Seq<(u128, u128)>) -> bool {
    forall|i: int, j: int|
        0 <= i < j < keys.len() ==> key_before(#[trigger] keys[i], #[trigger] keys[j])
}

/// `commonware_utils::ordered::Set::from_iter_dedup`, and the items of the set in order: every item
/// once, in increasing order.
#[verifier::external_body]
fn order_keys(keys: Vec<(u128, u128)>) -> (r: Vec<(u128, u128)>)
    ensures
        strictly_increasing(r@),
        r@.to_set() == keys@.to_set(),
{
    commonware_utils::ordered::Set::from_iter_dedup(keys).into_iter().collect()
}

/// What `commonware_cryptography::bls12381::dkg::deal` makes of a seed and a number of players: the
/// encoded public polynomial, and the encoded share of each player.
pub uninterp spec fn dealt(seed: Seq<u8>, players: nat) -> (Seq<u8>, Seq<Seq<u8>>);

/// `commonware_cryptography::bls12381::dkg::deal` for the MinSig variant with a quorum of all but a
/// third, driven by `rand::rngs::StdRng` from the seed. It fails exactly without players; each
/// player gets a share, in their order. What it deals depends on the seed and on how many players
/// there are, not on who they are. It panics on more players than fit in 32 bits.
#[verifier::external_body]
fn deal_shares(seed: &Vec<u8>, players: Vec<(u128, u128)>) -> (r: Option<
    (Vec<u8>, Vec<((u128, u128), Vec<u8>)>),
>)
    requires
        seed@.len() == 32,
        strictly_increasing(players@),
        players@.len() <= u32::MAX,
    ensures
        r is Some <==> players@.len() > 0,
        r matches Some(d) ==> d.0@ == dealt(seed@, players@.len()).0,
        r matches Some(d) ==> d.1@.len() == players@.len(),
        r matches Some(d) ==> forall|i: int|
            0 <= i < d.1@.len() ==> (#[trigger] d.1@[i]).0 == players@[i] && d.1@[i].1@ == dealt(
                seed@,
                players@.len(),
            ).1[i],
{
    let rng = rand::rngs::StdRng::from_seed(seed[..].try_into().ok()?);
    let players = commonware_utils::ordered::Set::from_iter_dedup(players);
    let dealing = deal::<MinSig, _, commonware_utils::N3f1>(rng, Mode::default(), players);
    let (output, shares) = dealing.ok()?;
    let shares = shares.into_iter().map(|pair| (pair.0, pair.1.encode().to_vec())).collect();
    Some((output.public().encode().to_vec(), shares))
}

/// The threshold key of the chain, and this node's part in it.
pub struct KeyMaterial {
    /// The encoded public polynomial.
    pub polynomial: Vec<u8>,
    /// The encoded share of this node, if it signs.
    pub share: Option<Vec<u8>>,
    /// The validators, by increasing key.
    pub participants: Vec<PublicKey>,
}

/// How the ceremony starts.
pub enum DkgStart {
    /// The genesis names no validators.
    NoValidators,
    /// No validator of the genesis spells a key.
    NoKeys,
    /// Epoch 0 can be entered.
    Ready(KeyMaterial),
}

/// The keys by the integers that they are made of.
pub open spec fn key_pairs(keys: Seq<PublicKey>) -> Seq<(u128, u128)> {
    Seq::new(keys.len(), |i: int| (keys[i].hi, keys[i].lo))
}

/// Where a key stands among the participants.
pub open spec fn position_of(participants: Seq<PublicKey>, key: PublicKey) -> int {
    choose|i: int| 0 <= i < participants.len() && participants[i] == key
}

/// The share of a node: the one that it was given, else the one dealt to its key.
pub open spec fn share_of(
    seed: Seq<u8>,
    participants: Seq<PublicKey>,
    my_key: PublicKey,
    pre_share: Option<Seq<u8>>,
) -> Option<Seq<u8>> {
    match pre_share {
        Some(share) => Some(share),
        None => if participants.contains(my_key) {
            Some(dealt(seed, participants.len()).1[position_of(participants, my_key)])
        } else {
            None
        },
    }
}

pub open spec fn share_bytes(share: Option<Vec<u8>>) -> Option<Seq<u8>> {
    match share {
        Some(s) => Some(s@),
        None => None,
    }
}

/// Whether the key material is that of the given keys.
pub open spec fn is_material(
    material: KeyMaterial,
    seed: Seq<u8>,
    keys: Seq<PublicKey>,
    my_key: PublicKey,
    pre_share: Option<Seq<u8>>,
) -> bool {
    let n = material.participants@.len();
    &&& strictly_increasing(key_pairs(material.participants@))
    &&& material.participants@.to_set() == keys.to_set()
    &&& material.polynomial@ == dealt(seed, n).0
    &&& share_bytes(material.share) == share_of(seed, material.participants@, my_key, pre_share)
}

proof fn lemma_pairs_distinct(keys: Seq<PublicKey>, i: int, j: int)
    requires
        strictly_increasing(key_pairs(keys)),
        0 <= i < keys.len(),
        0 <= j < keys.len(),
        keys[i] == keys[j],
    ensures
        i == j,
{
    let pairs = key_pairs(keys);
    if i < j {
        assert(key_before(pairs[i], pairs[j]));
    }
    if j < i {
        assert(key_before(pairs[j], pairs[i]));
    }
}

proof fn lemma_no_keys(validators: Seq<ValidatorConfig>, keys: Seq<PublicKey>)
    requires
        keys_of(validators, keys),
    ensures
        keys.len() == 0 <==> forall|i: int|
            0 <= i < validators.len() ==> !is_key_text((#[trigger] validators[i]).pubkey@),
        keys.len() <= validators.len(),
    decreases validators.len(),
{
    if validators.len() > 0 {
        let rest = validators.drop_last();
        let spells = is_key_text(validators.last().pubkey@);
        if spells {
            lemma_no_keys(rest, keys.drop_last());
            assert(validators[validators.len() - 1] == validators.last());
        } else {
            lemma_no_keys(rest, keys);
            if keys.len() == 0 {
                assert forall|i: int| 0 <= i < validators.len() implies !is_key_text(
                    (#[trigger] validators[i]).pubkey@,
                ) by {
                    if i < rest.len() {
                        assert(!is_key_text(rest[i].pubkey@));
                    }
                }
            } else if forall|i: int|
                0 <= i < validators.len() ==> !is_key_text((#[trigger] validators[i]).pubkey@) {
                assert forall|i: int| 0 <= i < rest.len() implies !is_key_text(
                    (#[trigger] rest[i]).pubkey@,
                ) by {
                    assert(!is_key_text(validators[i].pubkey@));
                }
            }
        }
    }
}

/// The ordered keys as the participants of the chain.
fn participants_from(keys: &Vec<PublicKey>) -> (r: Vec<PublicKey>)
    ensures
        strictly_increasing(key_pairs(r@)),
        r@.to_set() == keys@.to_set(),
        r@.len() <= keys@.len(),
{
    let mut pairs: Vec<(u128, u128)> = Vec::new();
    let mut i: usize = 0;
    while i < keys.len()
        invariant
            i <= keys@.len(),
            pairs@ == key_pairs(keys@).take(i as int),
        decreases keys@.len() - i,
    {
        pairs.push((keys[i].hi, keys[i].lo));
        assert(pairs@ =~= key_pairs(keys@).take(i + 1));
        i = i + 1;
    }
    assert(pairs@ =~= key_pairs(keys@));
    let ordered = order_keys(pairs);
    let mut participants: Vec<PublicKey> = Vec::new();
    let mut i: usize = 0;
    while i < ordered.len()
        invariant
            i <= ordered@.len(),
            key_pairs(participants@) == ordered@.take(i as int),
        decreases ordered@.len() - i,
    {
        let (hi, lo) = ordered[i];
        let ghost before = participants@;
        participants.push(PublicKey { hi, lo });
        assert(key_pairs(participants@) =~= key_pairs(before).push(ordered@[i as int]));
        assert(ordered@.take(i + 1) =~= ordered@.take(i as int).push(ordered@[i as int]));
        i = i + 1;
    }
    assert(key_pairs(participants@) =~= ordered@);
    proof {
        let (all, found) = (key_pairs(keys@), key_pairs(participants@));
        assert forall|k: PublicKey| participants@.contains(k) <==> keys@.contains(k) by {
            if participants@.contains(k) {
                let i = choose|i: int| 0 <= i < participants@.len() && participants@[i] == k;
                assert(found[i] == (k.hi, k.lo));
                assert(found.to_set().contains((k.hi, k.lo)));
                assert(all.contains((k.hi, k.lo)));
                let j = choose|j: int| 0 <= j < all.len() && all[j] == (k.hi, k.lo);
                assert(keys@[j] == k);
            }
            if keys@.contains(k) {
                let j = choose|j: int| 0 <= j < keys@.len() && keys@[j] == k;
                assert(all[j] == (k.hi, k.lo));
                assert(all.to_set().contains((k.hi, k.lo)));
                assert(found.contains((k.hi, k.lo)));
                let i = choose|i: int| 0 <= i < found.len() && found[i] == (k.hi, k.lo);
                assert(participants@[i] == k);
            }
        }
        assert(participants@.to_set() =~= keys@.to_set());
        assert(participants@.no_duplicates()) by {
            assert forall|i: int, j: int|
                0 <= i < participants@.len() && 0 <= j < participants@.len() && i
                    != j implies participants@[i] != participants@[j] by {
                if participants@[i] == participants@[j] {
                    lemma_pairs_distinct(participants@, i, j);
                }
            }
        }
        participants@.unique_seq_to_set();
        keys@.lemma_cardinality_of_set();
    }
    participants
}

/// Starts the ceremony from the validators of the genesis.
pub fn start_dkg(
    validators: &Option<Vec<ValidatorConfig>>,
    my_key: PublicKey,
    pre_share: Option<Vec<u8>>,
    seed: &Vec<u8>,
) -> (r: DkgStart)
    requires
        seed@.len() == 32,
        validators matches Some(v) ==> v@.len() <= u32::MAX,
    ensures
        match validators {
            None => r is NoValidators,
            Some(v) => if v@.len() == 0 {
                r is NoValidators
            } else if forall|i: int|
                0 <= i < v@.len() ==> !is_key_text((#[trigger] v@[i]).pubkey@) {
                r is NoKeys
            } else {
                exists|keys: Seq<PublicKey>| #[trigger]
                    keys_of(v@, keys) && (r matches DkgStart::Ready(material) && is_material(
                        material,
                        seed@,
                        keys,
                        my_key,
                        share_bytes(pre_share),
                    ))
            },
        },
        r matches DkgStart::Ready(material) ==> forall|i: int|
            pre_share is None && 0 <= i < material.participants@.len()
                && #[trigger] material.participants@[i] == my_key ==> (
            material.share matches Some(share) && share@ == dealt(
                seed@,
                material.participants@.len(),
            ).1[i]),
{
    let v = match validators {
        Some(v) => v,
        None => {
            return DkgStart::NoValidators;
        },
    };
    if v.len() == 0 {
        return DkgStart::NoValidators;
    }
    let keys = parse_validator_keys(v);
    proof {
        lemma_no_keys(v@, keys@);
    }
    if keys.len() == 0 {
        return DkgStart::NoKeys;
    }
    let participants = participants_from(&keys);
    assert(participants@.len() > 0) by {
        assert(keys@.to_set().contains(keys@[0]));
        assert(participants@.contains(keys@[0]));
    }
    let mut players: Vec<(u128, u128)> = Vec::new();
    let mut i: usize = 0;
    while i < participants.len()
        invariant
            i <= participants@.len(),
            players@ == key_pairs(participants@).take(i as int),
        decreases participants@.len() - i,
    {
        players.push((participants[i].hi, participants[i].lo));
        assert(players@ =~= key_pairs(participants@).take(i + 1));
        i = i + 1;
    }
    assert(players@ =~= key_pairs(participants@));
    let (polynomial, shares) = deal_shares(seed, players).unwrap();
    let ghost given = share_bytes(pre_share);
    let share = match pre_share {
        Some(share) => Some(share),
        None => find_share(shares, my_key, &participants),
    };
    proof {
        assert(key_pairs(participants@).len() == participants@.len());
        if participants@.contains(my_key) {
            let i = position_of(participants@, my_key);
            assert(0 <= i < participants@.len());
        }
        assert(share_bytes(share) == share_of(seed@, participants@, my_key, given));
    }
    let material = KeyMaterial { polynomial, share, participants };
    assert(is_material(material, seed@, keys@, my_key, given));
    DkgStart::Ready(material)
}

/// The share that was dealt to a key.
fn find_share(
    shares: Vec<((u128, u128), Vec<u8>)>,
    my_key: PublicKey,
    participants: &Vec<PublicKey>,
) -> (r: Option<Vec<u8>>)
    requires
        shares@.len() == participants@.len(),
        strictly_increasing(key_pairs(participants@)),
        forall|i: int|
            0 <= i < shares@.len() ==> (#[trigger] shares@[i]).0 == key_pairs(participants@)[i],
    ensures
        r is Some <==> participants@.contains(my_key),
        r matches Some(share) ==> share@ == shares@[position_of(participants@, my_key)].1@,
        forall|i: int|
            0 <= i < participants@.len() && #[trigger] participants@[i] == my_key ==> (
            r matches Some(share) && share@ == shares@[i].1@),
{
    let mut i: usize = 0;
    while i < participants.len()
        invariant
            i <= participants@.len() == shares@.len(),
            forall|j: int| 0 <= j < i ==> participants@[j] != my_key,
            strictly_increasing(key_pairs(participants@)),
        decreases participants@.len() - i,
    {
        if participants[i] == my_key {
            proof {
                assert(participants@[i as int] == my_key);
                lemma_pairs_distinct(participants@, i as int, position_of(participants@, my_key));
                assert forall|j: int|
                    0 <= j < participants@.len() && #[trigger] participants@[j] == my_key implies j
                    == i by {
                    lemma_pairs_distinct(participants@, i as int, j);
                }
            }
            return Some(shares[i].1.clone());
        }
        i = i + 1;
    }
    None
}

/// A change of epochs.
#[derive(Clone, Copy, PartialEq, Eq, Structural, Debug)]
pub struct Transition {
    pub enter: u64,
    pub exit: u64,
}

/// The epoch that the chain is in.
#[derive(Clone, Copy, PartialEq, Eq, Structural, Debug)]
pub struct EpochTracker {
    pub current: u64,
}

impl EpochTracker {
    pub fn new() -> (r: Self)
        ensures
            r.current == 0,
    {
        EpochTracker { current: 0 }
    }

    /// What a finalized tip asks for, given the epoch that its height belongs to. A tip beyond the
    /// current epoch leads into the next one, however far beyond it lies.
    pub fn on_tip(&mut self, block_epoch: Option<u64>) -> (r: Option<Transition>)
        ensures
            if lies_beyond(block_epoch, old(self).current) {
                &&& final(self).current == old(self).current + 1
                &&& r == Some(
                    Transition { enter: final(self).current, exit: old(self).current },
                )
            } else {
                r is None && *final(self) == *old(self)
            },
    {
        if let Some(epoch) = block_epoch {
            let exit: u64 = self.current;
            if epoch > exit {
                self.current = exit + 1;
                return Some(Transition { enter: exit + 1, exit });
            }
        }
        None
    }
}

/// Whether a tip lies beyond the epoch.
pub open spec fn lies_beyond(tip: Option<u64>, current: u64) -> bool {
    tip matches Some(epoch) && epoch > current
}

/// The epochs that tips lead into, each with the one that it takes over from.
pub open spec fn transitions_of(start: u64, tips: Seq<Option<u64>>) -> Seq<Transition>
    decreases tips.len(),
{
    if tips.len() == 0 {
        Seq::empty()
    } else {
        let earlier = transitions_of(start, tips.drop_last());
        let current = epoch_after(start, tips.drop_last());
        if lies_beyond(tips.last(), current) {
            earlier.push(Transition { enter: (current + 1) as u64, exit: current })
        } else {
            earlier
        }
    }
}

/// The epoch that tips lead to.
pub open spec fn epoch_after(start: u64, tips: Seq<Option<u64>>) -> u64
    decreases tips.len(),
{
    if tips.len() == 0 {
        start
    } else {
        let current = epoch_after(start, tips.drop_last());
        if lies_beyond(tips.last(), current) {
            (current + 1) as u64
        } else {
            current
        }
    }
}

/// Whatever tips come, every epoch is entered once and in order, none is left out, and with each the
/// one before it is left: after them exactly one epoch runs, if one ran before.
pub proof fn law_epochs_follow_one_another(start: u64, tips: Seq<Option<u64>>)
    ensures
        ({
            let entered = transitions_of(start, tips);
            &&& epoch_after(start, tips) == start + entered.len()
            &&& forall|i: int|
                0 <= i < entered.len() ==> (#[trigger] entered[i]).exit == start + i
                    && entered[i].enter == start + i + 1
            &&& running_after(set![start], entered) == set![epoch_after(start, tips)]
        }),
    decreases tips.len(),
{
    if tips.len() > 0 {
        let rest = tips.drop_last();
        law_epochs_follow_one_another(start, rest);
        let earlier = transitions_of(start, rest);
        let entered = transitions_of(start, tips);
        let current = epoch_after(start, rest);
        if lies_beyond(tips.last(), current) {
            assert(entered.drop_last() =~= earlier);
            let next = (current + 1) as u64;
            assert(set![current].insert(next).remove(current) =~= set![next]);
        }
    }
}

/// The running epochs after transitions.
pub open spec fn running_after(running: Set<u64>, entered: Seq<Transition>) -> Set<u64>
    decreases entered.len(),
{
    if entered.len() == 0 {
        running
    } else {
        let last = entered.last();
        running_after(running, entered.drop_last()).insert(last.enter).remove(last.exit)
    }
}

proof fn lemma_keys_unique(validators: Seq<ValidatorConfig>, a: Seq<PublicKey>, b: Seq<PublicKey>)
    requires
        keys_of(validators, a),
        keys_of(validators, b),
    ensures
        a == b,
    decreases validators.len(),
{
    if validators.len() > 0 {
        if is_key_text(validators.last().pubkey@) {
            lemma_keys_unique(validators.drop_last(), a.drop_last(), b.drop_last());
            assert(a.last() == b.last());
            assert(a =~= a.drop_last().push(a.last()));
            assert(b =~= b.drop_last().push(b.last()));
        } else {
            lemma_keys_unique(validators.drop_last(), a, b);
        }
    } else {
        assert(a =~= b);
    }
}

proof fn lemma_increasing_unique(a: Seq<(u128, u128)>, b: Seq<(u128, u128)>)
    requires
        strictly_increasing(a),
        strictly_increasing(b),
        forall|k: (u128, u128)| a.contains(k) <==> b.contains(k),
    ensures
        a == b,
    decreases a.len(),
{
    if a.len() == 0 {
        if b.len() > 0 {
            assert(b.contains(b[0]));
        }
        assert(a =~= b);
    } else {
        let x = a.last();
        assert(a.contains(x));
        assert(b.contains(x));
        let y = b.last();
        assert(b.contains(y));
        assert(a.contains(y));
        let i = choose|i: int| 0 <= i < a.len() && a[i] == y;
        let j = choose|j: int| 0 <= j < b.len() && b[j] == x;
        if i < a.len() - 1 {
            assert(key_before(a[i], a[a.len() - 1]));
        }
        if j < b.len() - 1 {
            assert(key_before(b[j], b[b.len() - 1]));
        }
        assert(x == y);
        let (ra, rb) = (a.drop_last(), b.drop_last());
        assert forall|k: (u128, u128)| ra.contains(k) <==> rb.contains(k) by {
            if ra.contains(k) {
                let p = choose|p: int| 0 <= p < ra.len() && ra[p] == k;
                assert(a[p] == k);
                assert(key_before(a[p], a[a.len() - 1]));
                assert(a.contains(k));
                let q = choose|q: int| 0 <= q < b.len() && b[q] == k;
                assert(q < rb.len());
                assert(rb[q] == k);
            }
            if rb.contains(k) {
                let p = choose|p: int| 0 <= p < rb.len() && rb[p] == k;
                assert(b[p] == k);
                assert(key_before(b[p], b[b.len() - 1]));
                assert(b.contains(k));
                let q = choose|q: int| 0 <= q < a.len() && a[q] == k;
                assert(q < ra.len());
                assert(ra[q] == k);
            }
        }
        assert(strictly_increasing(ra));
        assert(strictly_increasing(rb));
        lemma_increasing_unique(ra, rb);
        assert(a =~= ra.push(x));
        assert(b =~= rb.push(y));
    }
}

/// Nodes with the same genesis and seed agree on the participants and on the public polynomial,
/// whoever they are and whether they were given a share.
pub proof fn law_nodes_agree_on_the_key(
    validators: Seq<ValidatorConfig>,
    seed: Seq<u8>,
    keys_a: Seq<PublicKey>,
    a: KeyMaterial,
    my_key_a: PublicKey,
    pre_share_a: Option<Seq<u8>>,
    keys_b: Seq<PublicKey>,
    b: KeyMaterial,
    my_key_b: PublicKey,
    pre_share_b: Option<Seq<u8>>,
)
    requires
        keys_of(validators, keys_a),
        keys_of(validators, keys_b),
        is_material(a, seed, keys_a, my_key_a, pre_share_a),
        is_material(b, seed, keys_b, my_key_b, pre_share_b),
    ensures
        a.participants@ == b.participants@,
        a.polynomial@ == b.polynomial@,
{
    lemma_keys_unique(validators, keys_a, keys_b);
    let (pa, pb) = (key_pairs(a.participants@), key_pairs(b.participants@));
    assert forall|k: (u128, u128)| pa.contains(k) <==> pb.contains(k) by {
        let key = PublicKey { hi: k.0, lo: k.1 };
        if pa.contains(k) {
            let i = choose|i: int| 0 <= i < pa.len() && pa[i] == k;
            assert(a.participants@[i] == key);
            assert(a.participants@.to_set().contains(key));
            assert(b.participants@.contains(key));
            let j = choose|j: int|
                0 <= j < b.participants@.len() && b.participants@[j] == key;
            assert(pb[j] == k);
        }
        if pb.contains(k) {
            let i = choose|i: int| 0 <= i < pb.len() && pb[i] == k;
            assert(b.participants@[i] == key);
            assert(b.participants@.to_set().contains(key));
            assert(a.participants@.contains(key));
            let j = choose|j: int|
                0 <= j < a.participants@.len() && a.participants@[j] == key;
            assert(pa[j] == k);
        }
    }
    lemma_increasing_unique(pa, pb);
    assert forall|i: int| 0 <= i < a.participants@.len() implies a.participants@[i]
        == b.participants@[i] by {
        assert(pa[i] == pb[i]);
    }
    assert(a.participants@.len() == pa.len());
    assert(b.participants@.len() == pb.len());
    assert(a.participants@ =~= b.participants@);
}

} // verus!
