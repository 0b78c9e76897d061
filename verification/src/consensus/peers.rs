//! The peers that may connect: those named on the command line, and the validators of the genesis.

use crate::consensus::genesis::ValidatorConfig;
use crate::consensus::keys::{is_key_text, parse_public_key, spells_key, PublicKey};
use vstd::prelude::*;

verus! {

/// A peer as it was written down.
#[derive(Clone, PartialEq, Eq, Debug)]
pub struct PeerCandidate {
    pub pubkey: String,
    pub address: String,
}

/// Whether the first `@` of a text stands at `i`.
pub open spec fn first_at_sign(s: Seq<char>, i: int) -> bool {
    &&& 0 <= i < s.len()
    &&& s[i] == '@'
    &&& forall|j: int| 0 <= j < i ==> #[trigger] s[j] != '@'
}

/// The text before the first `@`, and the text after it.
pub open spec fn split_peer(s: Seq<char>) -> Option<(Seq<char>, Seq<char>)> {
    if s.contains('@') {
        let i = choose|i: int| first_at_sign(s, i);
        Some((s.take(i), s.skip(i + 1)))
    } else {
        None
    }
}

/// The peers named on the command line as `pubkey@ip:port`; a text without `@` is passed over.
pub open spec fn known_candidates(known_peers: Seq<String>) -> Seq<(Seq<char>, Seq<char>)>
    decreases known_peers.len(),
{
    if known_peers.len() == 0 {
        Seq::empty()
    } else {
        let rest = known_candidates(known_peers.drop_last());
        match split_peer(known_peers.last()@) {
            Some(pair) => rest.push(pair),
            None => rest,
        }
    }
}

/// The validators of the genesis.
pub open spec fn genesis_candidates(validators: Seq<ValidatorConfig>) -> Seq<
    (Seq<char>, Seq<char>),
> {
    Seq::new(validators.len(), |i: int| (validators[i].pubkey@, validators[i].address@))
}

/// What candidates say.
pub open spec fn candidate_texts(candidates: Seq<PeerCandidate>) -> Seq<(Seq<char>, Seq<char>)> {
    Seq::new(candidates.len(), |i: int| (candidates[i].pubkey@, candidates[i].address@))
}

fn split_candidate(text: &str) -> (r: Option<PeerCandidate>)
    ensures
        match r {
            Some(c) => split_peer(text@) == Some((c.pubkey@, c.address@)),
            None => split_peer(text@) is None,
        },
{
    let n: usize = text.unicode_len();
    let mut i: usize = 0;
    while i < n
        invariant
            i <= n == text@.len(),
            forall|j: int| 0 <= j < i ==> #[trigger] text@[j] != '@',
        decreases n - i,
    {
        if text.get_char(i) == '@' {
            let pubkey = text.substring_char(0, i).to_owned();
            let address = text.substring_char(i + 1, n).to_owned();
            proof {
                assert(first_at_sign(text@, i as int));
                let k = choose|k: int| first_at_sign(text@, k);
                assert(k == i) by {
                    if k < i {
                        assert(text@[k] != '@');
                    }
                    if i < k {
                        assert(text@[i as int] != '@');
                    }
                }
                assert(text@.contains('@'));
                assert(text@.subrange(0, i as int) =~= text@.take(i as int));
                assert(text@.subrange(i + 1, n as int) =~= text@.skip(i + 1));
            }
            return Some(PeerCandidate { pubkey, address });
        }
        i = i + 1;
    }
    None
}

/// The candidates of the command line, then those of the genesis.
pub fn peer_candidates(
    known_peers: &Vec<String>,
    validators: &Option<Vec<ValidatorConfig>>,
) -> (r: Vec<PeerCandidate>)
    ensures
        candidate_texts(r@) == known_candidates(known_peers@) + match validators {
            Some(v) => genesis_candidates(v@),
            None => Seq::empty(),
        },
{
    let mut candidates: Vec<PeerCandidate> = Vec::new();
    let mut i: usize = 0;
    assert(candidate_texts(candidates@) =~= known_candidates(known_peers@.take(0)));
    while i < known_peers.len()
        invariant
            i <= known_peers@.len(),
            candidate_texts(candidates@) == known_candidates(known_peers@.take(i as int)),
        decreases known_peers@.len() - i,
    {
        let ghost before = candidates@;
        assert(known_peers@.take(i + 1).drop_last() =~= known_peers@.take(i as int));
        if let Some(candidate) = split_candidate(known_peers[i].as_str()) {
            candidates.push(candidate);
            assert(candidate_texts(candidates@) =~= candidate_texts(before).push(
                (candidate.pubkey@, candidate.address@),
            ));
        }
        i = i + 1;
    }
    assert(known_peers@.take(i as int) =~= known_peers@);
    let ghost known = candidate_texts(candidates@);
    if let Some(v) = validators {
        let mut i: usize = 0;
        assert(known + genesis_candidates(v@).take(0) =~= known);
        while i < v.len()
            invariant
                i <= v@.len(),
                candidate_texts(candidates@) == known + genesis_candidates(v@).take(i as int),
            decreases v@.len() - i,
        {
            let ghost before = candidates@;
            let candidate = PeerCandidate {
                pubkey: v[i].pubkey.clone(),
                address: v[i].address.clone(),
            };
            candidates.push(candidate);
            proof {
                let text = genesis_candidates(v@)[i as int];
                assert(candidate_texts(candidates@) =~= candidate_texts(before).push(text));
                assert(genesis_candidates(v@).take(i + 1) =~= genesis_candidates(v@).take(
                    i as int,
                ).push(text));
                assert(candidate_texts(candidates@) =~= known + genesis_candidates(v@).take(i + 1));
            }
            i = i + 1;
        }
        assert(genesis_candidates(v@).take(i as int) =~= genesis_candidates(v@));
    } else {
        assert(known + Seq::empty() =~= known);
    }
    candidates
}

/// Whether the entries are the candidates that spell a key and whose address was understood, in
/// their order.
pub open spec fn entries_of<A>(
    candidates: Seq<PeerCandidate>,
    addresses: Seq<Option<A>>,
    entries: Seq<(PublicKey, A)>,
) -> bool
    decreases candidates.len(),
{
    if candidates.len() == 0 {
        entries.len() == 0
    } else {
        let rest = candidates.drop_last();
        match addresses.last() {
            Some(address) => if is_key_text(candidates.last().pubkey@) {
                &&& entries.len() > 0
                &&& spells_key(candidates.last().pubkey@, entries.last().0)
                &&& entries.last().1 == address
                &&& entries_of(rest, addresses.drop_last(), entries.drop_last())
            } else {
                entries_of(rest, addresses.drop_last(), entries)
            },
            None => entries_of(rest, addresses.drop_last(), entries),
        }
    }
}

/// The entries of the candidates, given what became of the address of each.
pub fn peer_entries<A: Copy>(candidates: &Vec<PeerCandidate>, addresses: &Vec<Option<A>>) -> (r: Vec<
    (PublicKey, A),
>)
    requires
        candidates@.len() == addresses@.len(),
    ensures
        entries_of(candidates@, addresses@, r@),
{
    let mut entries: Vec<(PublicKey, A)> = Vec::new();
    let mut i: usize = 0;
    while i < candidates.len()
        invariant
            i <= candidates@.len() == addresses@.len(),
            entries_of(candidates@.take(i as int), addresses@.take(i as int), entries@),
        decreases candidates@.len() - i,
    {
        let ghost before = entries@;
        proof {
            assert(candidates@.take(i + 1).drop_last() =~= candidates@.take(i as int));
            assert(addresses@.take(i + 1).drop_last() =~= addresses@.take(i as int));
        }
        if let Some(key) = parse_public_key(candidates[i].pubkey.as_str()) {
            if let Some(address) = addresses[i] {
                entries.push((key, address));
                assert(entries@.drop_last() =~= before);
            }
        }
        i = i + 1;
    }
    assert(candidates@.take(i as int) =~= candidates@);
    assert(addresses@.take(i as int) =~= addresses@);
    entries
}

/// Whether a key comes before another, by its bytes.
pub open spec fn key_before(a: (u128, u128), b: (u128, u128)) -> bool {
    a.0 < b.0 || (a.0 == b.0 && a.1 < b.1)
}

/// Whether the `i`-th entry is the first with its key.
pub open spec fn is_first_of_key<A>(entries: Seq<((u128, u128), A)>, i: int) -> bool {
    &&& 0 <= i < entries.len()
    &&& forall|j: int| 0 <= j < i ==> (#[trigger] entries[j]).0 != entries[i].0
}

/// Whether an entry is the first with its key.
pub open spec fn is_first_entry<A>(
    entries: Seq<((u128, u128), A)>,
    entry: ((u128, u128), A),
) -> bool {
    exists|j: int| #[trigger] is_first_of_key(entries, j) && entries[j] == entry
}

/// `commonware_utils::ordered::Map::from_iter_dedup`, and the entries of the map in order: by
/// increasing key, the first entry of each key.
#[verifier::external_body]
fn order_entries<A>(entries: Vec<((u128, u128), A)>) -> (r: Vec<((u128, u128), A)>)
    ensures
        forall|i: int, j: int|
            0 <= i < j < r@.len() ==> key_before((#[trigger] r@[i]).0, (#[trigger] r@[j]).0),
        forall|i: int| 0 <= i < r@.len() ==> is_first_entry(entries@, #[trigger] r@[i]),
        forall|j: int| #[trigger] is_first_of_key(entries@, j) ==> r@.contains(entries@[j]),
{
    commonware_utils::ordered::Map::from_iter_dedup(entries).into_iter().collect()
}

/// Entries by the integers that their keys are made of.
pub open spec fn keyed<A>(entries: Seq<(PublicKey, A)>) -> Seq<((u128, u128), A)> {
    Seq::new(entries.len(), |i: int| ((entries[i].0.hi, entries[i].0.lo), entries[i].1))
}

/// Whether the peers are the entries by increasing key, the first of each key.
pub open spec fn is_peer_set<A>(entries: Seq<(PublicKey, A)>, peers: Seq<(PublicKey, A)>) -> bool {
    &&& forall|i: int, j: int|
        0 <= i < j < peers.len() ==> key_before(
            (#[trigger] keyed(peers)[i]).0,
            (#[trigger] keyed(peers)[j]).0,
        )
    &&& forall|i: int|
        0 <= i < peers.len() ==> is_first_entry(keyed(entries), #[trigger] keyed(peers)[i])
    &&& forall|j: int| #[trigger]
        is_first_of_key(keyed(entries), j) ==> keyed(peers).contains(keyed(entries)[j])
}

/// The peers that may connect, by increasing key. Of several entries with one key the first counts.
/// None where there is no entry: then no peer set is tracked, and nobody may connect.
pub fn authorized_peers<A: Copy>(entries: &Vec<(PublicKey, A)>) -> (r: Option<Vec<(PublicKey, A)>>)
    ensures
        r is None <==> entries@.len() == 0,
        r matches Some(peers) ==> is_peer_set(entries@, peers@),
{
    if entries.len() == 0 {
        return None;
    }
    let mut by_key: Vec<((u128, u128), A)> = Vec::new();
    let mut i: usize = 0;
    while i < entries.len()
        invariant
            i <= entries@.len(),
            by_key@ == keyed(entries@).take(i as int),
        decreases entries@.len() - i,
    {
        let (key, address) = entries[i];
        by_key.push(((key.hi, key.lo), address));
        assert(by_key@ =~= keyed(entries@).take(i + 1));
        i = i + 1;
    }
    assert(by_key@ =~= keyed(entries@));
    let ordered = order_entries(by_key);
    let mut peers: Vec<(PublicKey, A)> = Vec::new();
    let mut i: usize = 0;
    while i < ordered.len()
        invariant
            i <= ordered@.len(),
            keyed(peers@) == ordered@.take(i as int),
        decreases ordered@.len() - i,
    {
        let ((hi, lo), address) = ordered[i];
        let ghost before = peers@;
        peers.push((PublicKey { hi, lo }, address));
        assert(keyed(peers@) =~= keyed(before).push(ordered@[i as int]));
        assert(ordered@.take(i + 1) =~= ordered@.take(i as int).push(ordered@[i as int]));
        i = i + 1;
    }
    assert(keyed(peers@) =~= ordered@);
    assert(peers@.len() == keyed(peers@).len());
    Some(peers)
}

/// A peer named on the command line keeps the address given there, whatever address the genesis has
/// for its key.
pub proof fn law_known_peers_win<A>(
    known: Seq<(PublicKey, A)>,
    genesis: Seq<(PublicKey, A)>,
    peers: Seq<(PublicKey, A)>,
    i: int,
    j: int,
)
    requires
        is_peer_set(known + genesis, peers),
        0 <= i < peers.len(),
        0 <= j < known.len(),
        peers[i].0 == known[j].0,
    ensures
        exists|k: int| 0 <= k < known.len() && #[trigger] known[k] == peers[i],
{
    let entries = known + genesis;
    let all = keyed(entries);
    assert(is_first_entry(all, keyed(peers)[i]));
    let k = choose|k: int| #[trigger] is_first_of_key(all, k) && all[k] == keyed(peers)[i];
    assert(all[j].0 == all[k].0);
    assert(k <= j);
    assert(known[k] == entries[k]);
    assert(entries[k].0 == peers[i].0);
}

} // verus!
