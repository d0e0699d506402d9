use ed25519_dalek::SigningKey;
use kooforge::base58::encode_base58;
use kooforge::identity::{
    encode_private_key_protobuf, keypair_from_signing_key, peer_id_bytes, peer_id_from_public,
    verifying_key,
};
use kooforge::matching::{Matcher, Mode};
use kooforge::search::{
    attempt_extreme, attempt_standard, init_thread_rng, try_key_extreme, try_key_standard, KeyRng,
    RngError,
};
use rand::rngs::StdRng;
use rand::SeedableRng;

/// The secret seed of the first test vector of RFC 8032.
const SEED: [u8; 32] = [
    0x9d, 0x61, 0xb1, 0x9d, 0xef, 0xfd, 0x5a, 0x60, 0xba, 0x84, 0x4a, 0xf4, 0x92, 0xec, 0x2c, 0xc4,
    0x44, 0x49, 0xc5, 0x69, 0x7b, 0x32, 0x69, 0x19, 0x70, 0x3b, 0xac, 0x03, 0x1c, 0xae, 0x7f, 0x60,
];

/// Its public key.
const PUBLIC: [u8; 32] = [
    0xd7, 0x5a, 0x98, 0x01, 0x82, 0xb1, 0x0a, 0xb7, 0xd5, 0x4b, 0xfe, 0xd3, 0xc9, 0x64, 0x07, 0x3a,
    0x0e, 0xe1, 0x72, 0xf3, 0xda, 0xa6, 0x23, 0x25, 0xaf, 0x02, 0x1a, 0x68, 0xf7, 0x07, 0x51, 0x1a,
];

/// Its peer identifier.
const PEER_ID: &str = "12D3KooWQK1wnefoLrcVHbbnf5tLzbopUd3K3bFAoJpA7YJgL5pV";

#[test]
fn extreme_peer_id_encoding_matches_libp2p_for_random_keys() {
    let mut rng = StdRng::seed_from_u64(7);
    let mut std_buf = Vec::with_capacity(64);
    let mut fast_buf = Vec::with_capacity(64);

    for _ in 0..1000 {
        let sk = SigningKey::generate(&mut rng).to_bytes();
        let vk = verifying_key(&sk);

        let kp = keypair_from_signing_key(&sk);
        encode_base58(&peer_id_bytes(&kp), &mut std_buf);
        let std_pid = String::from_utf8(std_buf.clone()).expect("utf8");

        encode_base58(&peer_id_from_public(&vk), &mut fast_buf);
        let fast_pid = String::from_utf8(fast_buf.clone()).expect("utf8");

        assert_eq!(fast_pid, std_pid);

        let public = libp2p_identity::ed25519::PublicKey::try_from_bytes(&vk).expect("public key");
        let public = libp2p_identity::PublicKey::from(public);
        let libp2p_pid = bs58::encode(
            libp2p_identity::PeerId::from_public_key(&public).to_bytes(),
        )
        .into_string();
        assert_eq!(fast_pid, libp2p_pid);
    }
}

#[test]
fn protobuf_roundtrip_compatible_for_hit_path() {
    let mut rng = StdRng::seed_from_u64(11);
    for _ in 0..128 {
        let sk = SigningKey::generate(&mut rng).to_bytes();
        let kp = keypair_from_signing_key(&sk);
        let encoded = encode_private_key_protobuf(&kp).expect("encode");
        let decoded =
            libp2p_identity::Keypair::from_protobuf_encoding(&encoded).expect("decode");
        let decoded_public = decoded.public().try_into_ed25519().expect("ed25519");
        assert_eq!(kp.public(), decoded_public.to_bytes());
    }
}

#[test]
fn known_key_and_identifier() {
    assert_eq!(verifying_key(&SEED), PUBLIC);
    let kp = keypair_from_signing_key(&SEED);
    assert_eq!(kp.public(), PUBLIC);
    let mut raw = vec![0x00, 0x24, 0x08, 0x01, 0x12, 0x20];
    raw.extend_from_slice(&PUBLIC);
    assert_eq!(peer_id_bytes(&kp), raw);
    assert_eq!(peer_id_from_public(&PUBLIC).to_vec(), raw);
    let mut buf = Vec::new();
    encode_base58(&raw, &mut buf);
    assert_eq!(buf, PEER_ID.as_bytes().to_vec());
}

#[test]
fn known_key_in_its_stored_form() {
    let kp = keypair_from_signing_key(&SEED);
    let stored = encode_private_key_protobuf(&kp).expect("encode");
    assert_eq!(stored.len(), 68);
    assert_eq!(stored[..4], [0x08, 0x01, 0x12, 0x40]);
    assert_eq!(stored[4..36], SEED);
    assert_eq!(stored[36..], PUBLIC);
}

#[test]
fn an_attempt_that_hits() {
    let matcher = Matcher::new(Mode::Suffix, true, "GL5Pv");
    for print_only in [false, true] {
        let mut buf = Vec::new();
        let standard = try_key_standard(&SEED, &matcher, print_only, &mut buf).expect("hit");
        let extreme = try_key_extreme(&SEED, &matcher, print_only, &mut buf).expect("hit");
        assert_eq!(standard.peer_id_b58, PEER_ID);
        assert_eq!(extreme.peer_id_b58, PEER_ID);
        assert_eq!(standard.sk_protobuf, extreme.sk_protobuf);
        assert_eq!(standard.sk_protobuf.is_none(), print_only);
        assert_eq!(buf, PEER_ID.as_bytes().to_vec());
        if let Some(stored) = standard.sk_protobuf {
            assert_eq!(stored[4..36], SEED);
        }
    }
}

#[test]
fn an_attempt_that_misses() {
    let matcher = Matcher::new(Mode::Suffix, false, "GL5Pv");
    let mut buf = Vec::new();
    assert!(try_key_standard(&SEED, &matcher, false, &mut buf).is_none());
    assert!(try_key_extreme(&SEED, &matcher, false, &mut buf).is_none());
}

#[test]
fn random_attempts() {
    let mut rng = init_thread_rng().expect("random numbers");
    let matcher = Matcher::new(Mode::Prefix, false, "12D3KooW");
    let mut buf = Vec::new();
    let first = attempt_standard(&mut rng, &matcher, true, &mut buf).expect("hit");
    let second = attempt_extreme(&mut rng, &matcher, false, &mut buf).expect("hit");
    assert!(first.peer_id_b58.starts_with("12D3KooW"));
    assert_ne!(first.peer_id_b58, second.peer_id_b58);
    assert!(first.sk_protobuf.is_none());
    let stored = second.sk_protobuf.expect("key");
    let decoded = libp2p_identity::Keypair::from_protobuf_encoding(&stored).expect("decode");
    assert_eq!(decoded.public().to_peer_id().to_string(), second.peer_id_b58);
}

#[test]
fn random_keys_differ() {
    let mut rng = init_thread_rng().expect("random numbers");
    assert_ne!(rng.next_signing_key(), rng.next_signing_key());
}

#[test]
fn identifiers_meet_no_illegal_pattern() {
    for pattern in ["0", "O", "I", "l", "-", "é"] {
        let matcher = Matcher::new(Mode::Any, false, pattern);
        assert!(!matcher.is_match(PEER_ID.as_bytes()));
    }
}

#[test]
fn completion_keeps_the_matches() {
    for (pattern, ci) in [("12", false), ("12d3", true), ("12D3kOOwqk1", true)] {
        let completed = kooforge::prefix::normalize_prefix_pattern(pattern);
        let before = Matcher::new(Mode::Prefix, ci, pattern);
        let after = Matcher::new(Mode::Prefix, ci, &completed);
        assert!(before.is_match(PEER_ID.as_bytes()));
        assert!(after.is_match(PEER_ID.as_bytes()));
    }
}

#[test]
fn prefix_patterns_must_agree_with_the_required_prefix() {
    for (pattern, agrees) in [("12D3", true), ("12D3KooWQK", true), ("12D4", false), ("Q", false)] {
        let matcher = Matcher::new(Mode::Prefix, false, pattern);
        assert_eq!(matcher.is_match(PEER_ID.as_bytes()), agrees);
    }
}

#[test]
fn exact_matches_are_matches_in_any_case() {
    for (mode, pattern) in [(Mode::Any, "QK1w"), (Mode::Prefix, "12D3"), (Mode::Suffix, "L5pV")] {
        assert!(Matcher::new(mode, false, pattern).is_match(PEER_ID.as_bytes()));
        assert!(Matcher::new(mode, true, pattern).is_match(PEER_ID.as_bytes()));
        let upper = PEER_ID.to_uppercase();
        assert!(Matcher::new(mode, true, &pattern.to_lowercase()).is_match(upper.as_bytes()));
    }
}

#[test]
fn identifiers_tell_keys_apart() {
    let mut other = PUBLIC;
    other[31] ^= 1;
    let (mut a, mut b) = (Vec::new(), Vec::new());
    encode_base58(&peer_id_from_public(&PUBLIC), &mut a);
    encode_base58(&peer_id_from_public(&other), &mut b);
    assert_ne!(a, b);
}

#[test]
fn keys_are_drawn_from_the_generator_that_was_seeded() {
    let mut source = KeyRng::from_seeding(Ok(StdRng::seed_from_u64(7))).ok().expect("source");
    let mut rng = StdRng::seed_from_u64(7);
    for _ in 0..10 {
        assert_eq!(source.next_signing_key(), SigningKey::generate(&mut rng).to_bytes());
    }
}

#[test]
fn seeding_can_fail() {
    let code = std::num::NonZeroU32::new(5).expect("code");
    let failed = KeyRng::from_seeding(Err(rand::Error::from(code)));
    assert_eq!(failed.err(), Some(RngError));
}

#[test]
fn attempts_use_the_key_that_was_drawn() {
    let mut source = KeyRng::from_seeding(Ok(StdRng::seed_from_u64(7))).ok().expect("source");
    let mut rng = StdRng::seed_from_u64(7);
    let matcher = Matcher::new(Mode::Prefix, false, "12D3KooW");
    let mut buf = Vec::new();
    for attempt in [attempt_standard, attempt_extreme, attempt_standard] {
        let seed = SigningKey::generate(&mut rng).to_bytes();
        let hit = attempt(&mut source, &matcher, false, &mut buf).expect("hit");
        assert_eq!(hit.peer_id_b58.as_bytes(), &buf[..]);
        assert_eq!(hit.sk_protobuf.expect("key")[4..36], seed);
    }
}
