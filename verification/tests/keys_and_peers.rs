use private_chain::consensus::config::{namespace, p2p_namespace};
use private_chain::consensus::ceremony::{
    Ceremony, CeremonyError, CeremonyUpdate, EpochMessage,
};
use private_chain::consensus::dkg::{
    chain_seed, seed_from_hashes, start_dkg, DkgStart, EpochTracker, KeyMaterial, Transition,
};
use private_chain::consensus::genesis::{
    parse_validator_keys, PrivateGenesisInfo, ValidatorConfig,
};
use private_chain::consensus::keys::{parse_public_key, PublicKey};
use private_chain::consensus::peers::{
    authorized_peers, peer_candidates, peer_entries, PeerCandidate,
};

const KEY_A: &str = "d75a980182b10ab7d54bfed3c964073a0ee172f3daa62325af021a68f707511a";
const KEY_B: &str = "3d4017c3e843895a92b70aa74d1b7ebc9c982ccf2ec4968cc0cd55f12af4660c";
const KEY_C: &str = "fc51cd8e6218a1a38da47ed00230f0580816ed13ba3303ac5deb911548908025";

fn key_a() -> PublicKey {
    PublicKey { hi: 0xd75a980182b10ab7d54bfed3c964073a, lo: 0x0ee172f3daa62325af021a68f707511a }
}

fn key_b() -> PublicKey {
    PublicKey { hi: 0x3d4017c3e843895a92b70aa74d1b7ebc, lo: 0x9c982ccf2ec4968cc0cd55f12af4660c }
}

fn key_c() -> PublicKey {
    PublicKey { hi: 0xfc51cd8e6218a1a38da47ed00230f058, lo: 0x0816ed13ba3303ac5deb911548908025 }
}

fn validator(pubkey: &str, address: &str) -> ValidatorConfig {
    ValidatorConfig { pubkey: pubkey.to_string(), address: address.to_string() }
}

fn ready(start: DkgStart) -> KeyMaterial {
    match start {
        DkgStart::Ready(material) => material,
        _ => panic!("the ceremony does not start"),
    }
}

#[test]
fn namespaces() {
    assert_eq!(namespace(), b"PRIVATE_CHAIN".to_vec());
    assert_eq!(p2p_namespace(), b"\x0dPRIVATE_CHAIN_P2P".to_vec());
}

#[test]
fn keys_are_read_with_and_without_prefix() {
    assert_eq!(parse_public_key(KEY_A), Some(key_a()));
    assert_eq!(parse_public_key(&format!("0x{}", KEY_A)), Some(key_a()));
    assert_eq!(parse_public_key(&KEY_A.to_uppercase()), Some(key_a()));
}

#[test]
fn texts_that_spell_no_key() {
    assert_eq!(parse_public_key(""), None);
    assert_eq!(parse_public_key("0x"), None);
    assert_eq!(parse_public_key(&KEY_A[1..]), None);
    assert_eq!(parse_public_key(&KEY_A[2..]), None);
    assert_eq!(parse_public_key(&format!("{}00", KEY_A)), None);
    assert_eq!(parse_public_key(&KEY_A.replace('a', "g")), None);
}

#[test]
fn validators_without_a_key_are_passed_over() {
    let validators = vec![
        validator(KEY_B, "127.0.0.1:1"),
        validator("nonsense", "127.0.0.1:2"),
        validator(&format!("0x{}", KEY_A), "127.0.0.1:3"),
    ];
    assert_eq!(parse_validator_keys(&validators), vec![key_b(), key_a()]);
}

#[test]
fn genesis_defaults() {
    let none = PrivateGenesisInfo::from_chain_spec(None);
    assert_eq!(none, PrivateGenesisInfo::default());
    assert_eq!(none.epoch_length(), 100);
    assert_eq!(none.num_validators(), 0);
    let some = PrivateGenesisInfo {
        epoch_length: Some(7),
        validators: Some(vec![validator(KEY_A, "a"), validator(KEY_B, "b")]),
        public_polynomial: None,
    };
    let read = PrivateGenesisInfo::from_chain_spec(Some(some.clone()));
    assert_eq!(read, some);
    assert_eq!(read.epoch_length(), 7);
    assert_eq!(read.num_validators(), 2);
}

#[test]
fn candidates_of_the_command_line_come_first() {
    let known = vec![
        format!("{}@10.0.0.1:9000", KEY_A),
        "no address".to_string(),
        "key@host@port".to_string(),
    ];
    let validators = Some(vec![validator(KEY_A, "10.0.0.2:9000")]);
    let candidates = peer_candidates(&known, &validators);
    let expected = vec![
        PeerCandidate { pubkey: KEY_A.to_string(), address: "10.0.0.1:9000".to_string() },
        PeerCandidate { pubkey: "key".to_string(), address: "host@port".to_string() },
        PeerCandidate { pubkey: KEY_A.to_string(), address: "10.0.0.2:9000".to_string() },
    ];
    assert_eq!(candidates, expected);
    assert_eq!(peer_candidates(&Vec::new(), &None), Vec::new());
}

#[test]
fn entries_need_a_key_and_an_address() {
    let candidates = vec![
        PeerCandidate { pubkey: KEY_A.to_string(), address: "x".to_string() },
        PeerCandidate { pubkey: "nonsense".to_string(), address: "y".to_string() },
        PeerCandidate { pubkey: KEY_B.to_string(), address: "z".to_string() },
    ];
    let addresses = vec![None, Some(2u16), Some(3u16)];
    assert_eq!(peer_entries(&candidates, &addresses), vec![(key_b(), 3)]);
}

#[test]
fn peers_are_ordered_and_the_first_entry_of_a_key_counts() {
    let entries =
        vec![(key_a(), 1u16), (key_c(), 2), (key_b(), 3), (key_a(), 4), (key_c(), 5)];
    let peers = authorized_peers(&entries).unwrap();
    assert_eq!(peers, vec![(key_b(), 3), (key_a(), 1), (key_c(), 2)]);
    assert_eq!(authorized_peers::<u16>(&Vec::new()), None);
}

#[test]
fn a_known_peer_keeps_its_address() {
    let known = vec![format!("{}@10.0.0.1:9000", KEY_A)];
    let validators = Some(vec![validator(KEY_A, "10.0.0.2:9000")]);
    let candidates = peer_candidates(&known, &validators);
    let entries = peer_entries(&candidates, &vec![Some(1u16), Some(2)]);
    assert_eq!(authorized_peers(&entries), Some(vec![(key_a(), 1)]));
}

#[test]
fn seeds() {
    let seed = seed_from_hashes(0x0102, 0x0304_0506_0708_090a);
    let mut expected = vec![2u8, 1, 0, 0, 0, 0, 0, 0, 10, 9, 8, 7, 6, 5, 4, 3];
    expected.extend(vec![0u8; 16]);
    assert_eq!(seed, expected);
    let chain = chain_seed();
    assert_eq!(chain.len(), 32);
    assert_eq!(chain, chain_seed());
    assert_eq!(chain[16..], [0u8; 16]);
    assert_ne!(chain[..8], chain[8..16]);
}

#[test]
fn a_ceremony_needs_validators_with_keys() {
    let seed = seed_from_hashes(1, 2);
    assert!(matches!(start_dkg(&None, key_a(), None, &seed), DkgStart::NoValidators));
    let nobody = Some(Vec::new());
    assert!(matches!(start_dkg(&nobody, key_a(), None, &seed), DkgStart::NoValidators));
    let keyless = Some(vec![validator("nonsense", "a")]);
    assert!(matches!(start_dkg(&keyless, key_a(), None, &seed), DkgStart::NoKeys));
}

#[test]
fn participants_are_ordered_and_get_shares() {
    let seed = seed_from_hashes(1, 2);
    let validators = Some(vec![
        validator(KEY_C, "c"),
        validator(KEY_A, "a"),
        validator(KEY_B, "b"),
        validator(KEY_A, "a"),
    ]);
    let a = ready(start_dkg(&validators, key_a(), None, &seed));
    assert_eq!(a.participants, vec![key_b(), key_a(), key_c()]);
    assert!(!a.polynomial.is_empty());
    let share = a.share.unwrap();
    assert!(!share.is_empty());
    let b = ready(start_dkg(&validators, key_b(), None, &seed));
    assert_ne!(b.share.unwrap(), share);
    let outsider = PublicKey { hi: 1, lo: 1 };
    assert_eq!(ready(start_dkg(&validators, outsider, None, &seed)).share, None);
    let given = ready(start_dkg(&validators, key_a(), Some(vec![9, 9]), &seed));
    assert_eq!(given.share, Some(vec![9, 9]));
}

#[test]
fn nodes_agree_on_the_key() {
    let seed = chain_seed();
    let validators = Some(vec![validator(KEY_A, "a"), validator(KEY_B, "b")]);
    let a = ready(start_dkg(&validators, key_a(), None, &seed));
    let b = ready(start_dkg(&validators, key_b(), Some(vec![1]), &seed));
    assert_eq!(a.participants, b.participants);
    assert_eq!(a.polynomial, b.polynomial);
    let other = ready(start_dkg(&validators, key_a(), None, &seed_from_hashes(1, 2)));
    assert_ne!(a.polynomial, other.polynomial);
}

#[test]
fn a_ceremony_tells_the_epoch_manager() {
    let seed = seed_from_hashes(1, 2);
    let nobody = Ceremony::start(&None, key_a(), None, &seed).err();
    assert_eq!(nobody, Some(CeremonyError::NoValidators));
    let keyless = Some(vec![validator("nonsense", "a")]);
    let no_keys = Ceremony::start(&keyless, key_a(), None, &seed).err();
    assert_eq!(no_keys, Some(CeremonyError::NoKeys));
    let validators = Some(vec![validator(KEY_A, "a"), validator(KEY_B, "b")]);
    let started = Ceremony::start(&validators, key_a(), Some(vec![7]), &seed);
    let (mut ceremony, first) = started.ok().unwrap();
    let mut messages = vec![first];
    let tip = |epoch: u64| CeremonyUpdate::Tip { epoch: Some(epoch) };
    let none = CeremonyUpdate::Tip { epoch: None };
    for update in [tip(0), tip(4), CeremonyUpdate::Block, none, tip(1), tip(2)] {
        messages.extend(ceremony.on_update(update));
    }
    let enter = |epoch: u64| EpochMessage::Enter { epoch };
    let exit = |epoch: u64| EpochMessage::Exit { epoch };
    assert_eq!(messages, vec![enter(0), enter(1), exit(0), enter(2), exit(1)]);
    assert_eq!(ceremony.material().participants, vec![key_b(), key_a()]);
    assert_eq!(ceremony.material().share, Some(vec![7]));
}

#[test]
fn tips_lead_through_the_epochs_one_by_one() {
    let mut tracker = EpochTracker::new();
    assert_eq!(tracker.on_tip(Some(0)), None);
    assert_eq!(tracker.on_tip(None), None);
    assert_eq!(tracker.on_tip(Some(5)), Some(Transition { enter: 1, exit: 0 }));
    assert_eq!(tracker.on_tip(Some(1)), None);
    assert_eq!(tracker.on_tip(Some(5)), Some(Transition { enter: 2, exit: 1 }));
    assert_eq!(tracker.current, 2);
}
