//! One attempt of the search: draw a key, make its peer identifier, compare it with
//! the pattern.

use crate::base58::{base58, encode_base58};
use crate::identity::{
    encode_private_key_protobuf, ed25519_public, keypair_from_signing_key, peer_id_bytes,
    peer_id_from_public, peer_id_text, private_key_message, verifying_key, Keypair,
};
use crate::matching::{meets, Matcher};
use crate::prefix::{law_peer_id_has_required_prefix, REQUIRED_PREFIX};
use crate::text::{lemma_same_bytes_same_text, lower_bytes};
use vstd::prelude::*;
use vstd::utf8::encode_utf8;

verus! {

/// A key whose identifier meets the pattern.
#[derive(Clone, Debug)]
pub struct Hit {
    /// The peer identifier in Base58.
    pub peer_id_b58: String,
    /// The stored form of the private key, or `None` where only the identifier counts.
    pub sk_protobuf: Option<Vec<u8>>,
}

/// `r` is what an attempt with the secret seed `seed` has to give: a hit with the
/// identifier and, unless only that is wanted, the private key; nothing where the
/// identifier does not meet the pattern.
pub open spec fn is_outcome(
    seed: Seq<u8>,
    matcher: &Matcher,
    print_only: bool,
    r: Option<Hit>,
) -> bool {
    let id = peer_id_text(seed);
    match r {
        Some(hit) => {
            &&& matcher.accepts(encode_utf8(id))
            &&& hit.peer_id_b58@ == id
            &&& match hit.sk_protobuf {
                Some(sk) => !print_only && sk@ == private_key_message(seed),
                None => print_only,
            }
        },
        None => !matcher.accepts(encode_utf8(id)),
    }
}

/// Makes the hit for an identifier in `buf`, if it meets the pattern. The key pair
/// comes from the caller or, where it has none yet, from the seed.
fn judge(
    sk: &[u8; 32],
    kp: Option<Keypair>,
    matcher: &Matcher,
    print_only: bool,
    buf: &Vec<u8>,
) -> (r: Option<Hit>)
    requires
        buf@ == encode_utf8(peer_id_text(sk@)),
        kp matches Some(k) ==> k.seed() == sk@,
    ensures
        is_outcome(sk@, matcher, print_only, r),
{
    if !matcher.is_match(buf.as_slice()) {
        return None;
    }
    let copy: Vec<u8> = buf.clone();
    assert(copy@ =~= buf@);
    proof {
        vstd::utf8::encode_utf8_valid_utf8(peer_id_text(sk@));
    }
    let peer_id_b58: String = String::from_utf8(copy).expect(
        "base58 output must be utf8 · Base58 输出必须是 UTF-8",
    );
    proof {
        lemma_same_bytes_same_text(peer_id_b58@, peer_id_text(sk@));
    }
    let sk_protobuf: Option<Vec<u8>> = if print_only {
        None
    } else {
        let pair: Keypair = match kp {
            Some(k) => k,
            None => keypair_from_signing_key(sk),
        };
        encode_private_key_protobuf(&pair).ok()
    };
    Some(Hit { peer_id_b58, sk_protobuf })
}

/// An attempt with the seed `sk`: the key pair is made first, and the network library
/// makes the identifier from it. `buf` is working space.
pub fn try_key_standard(sk: &[u8; 32], matcher: &Matcher, print_only: bool, buf: &mut Vec<u8>) -> (r:
    Option<Hit>)
    ensures
        is_outcome(sk@, matcher, print_only, r),
        r matches Some(hit) ==> REQUIRED_PREFIX@.is_prefix_of(hit.peer_id_b58@),
        final(buf)@ == encode_utf8(peer_id_text(sk@)),
{
    let kp: Keypair = keypair_from_signing_key(sk);
    let raw: Vec<u8> = peer_id_bytes(&kp);
    proof {
        law_peer_id_has_required_prefix(ed25519_public(sk@));
    }
    encode_base58(raw.as_slice(), buf);
    judge(sk, Some(kp), matcher, print_only, buf)
}

/// An attempt with the seed `sk`: the identifier is put together from the public key,
/// and the key pair is made for a hit only. `buf` is working space.
pub fn try_key_extreme(sk: &[u8; 32], matcher: &Matcher, print_only: bool, buf: &mut Vec<u8>) -> (r:
    Option<Hit>)
    ensures
        is_outcome(sk@, matcher, print_only, r),
        r matches Some(hit) ==> REQUIRED_PREFIX@.is_prefix_of(hit.peer_id_b58@),
        final(buf)@ == encode_utf8(peer_id_text(sk@)),
{
    let vk: [u8; 32] = verifying_key(sk);
    let raw: [u8; 38] = peer_id_from_public(&vk);
    proof {
        law_peer_id_has_required_prefix(vk@);
    }
    encode_base58(raw.as_slice(), buf);
    judge(sk, None, matcher, print_only, buf)
}

/// The operating system gave no random numbers.
#[derive(Clone, Copy, Debug, PartialEq, Eq, Structural)]
pub struct RngError;

/// `rand::rngs::StdRng`, of which nothing is known.
#[verifier::external_type_specification]
#[verifier::external_body]
pub struct ExStdRng(rand::rngs::StdRng);

/// `rand::Error`, of which nothing is known.
#[verifier::external_type_specification]
#[verifier::external_body]
pub struct ExRandError(rand::Error);

/// `rand::rngs::StdRng::from_rng` on `rand::rngs::OsRng`. The generator is seeded by
/// the operating system, which can fail. Nothing holds of every outcome.
#[verifier::external_body]
fn std_rng_from_os() -> (r: Result<rand::rngs::StdRng, rand::Error>) {
    rand::SeedableRng::from_rng(&mut rand::rngs::OsRng)
}

/// `ed25519_dalek::SigningKey::generate`, with the key given back as its seed. The
/// seed is 32 random bytes. Nothing more holds of every outcome.
#[verifier::external_body]
fn dalek_generate(rng: &mut rand::rngs::StdRng) -> (seed: [u8; 32]) {
    ed25519_dalek::SigningKey::generate(rng).to_bytes()
}

/// A source of random secret seeds.
pub struct KeyRng {
    rng: rand::rngs::StdRng,
    drawn: Ghost<Seq<Seq<u8>>>,
}

impl KeyRng {
    /// The generator that the seeds come from.
    pub closed spec fn generator(&self) -> rand::rngs::StdRng {
        self.rng
    }

    /// The seeds that were drawn so far, in order.
    pub closed spec fn drawn(&self) -> Seq<Seq<u8>> {
        self.drawn@
    }

    /// What a try to seed a generator comes down to: a source that draws from that generator,
    /// and an error where the try failed.
    pub fn from_seeding(seeded: Result<rand::rngs::StdRng, rand::Error>) -> (r: Result<
        KeyRng,
        RngError,
    >)
        ensures
            match seeded {
                Ok(rng) => r matches Ok(source) && source.generator() == rng && source.drawn()
                    == Seq::<Seq<u8>>::empty(),
                Err(_) => r == Err::<KeyRng, RngError>(RngError),
            },
    {
        match seeded {
            Ok(rng) => Ok(KeyRng { rng, drawn: Ghost(Seq::empty()) }),
            Err(_) => Err(RngError),
        }
    }

    /// A fresh secret seed, drawn from the generator. Which one comes rests on chance.
    pub fn next_signing_key(&mut self) -> (seed: [u8; 32])
        ensures
            final(self).drawn() == old(self).drawn().push(seed@),
    {
        let seed: [u8; 32] = dalek_generate(&mut self.rng);
        self.drawn = Ghost(self.drawn@.push(seed@));
        seed
    }
}

/// A source that the operating system seeds. It fails where the system gives no random
/// numbers, and only there; whether it does rests with the system. `KeyRng::from_seeding`
/// says what becomes of either outcome.
pub fn init_thread_rng() -> (r: Result<KeyRng, RngError>)
    ensures
        r matches Ok(source) ==> source.drawn() == Seq::<Seq<u8>>::empty(),
{
    KeyRng::from_seeding(std_rng_from_os())
}

/// One attempt, as `try_key_standard` makes it, with the next key that `rng` draws. Which key
/// that is rests on chance.
pub fn attempt_standard(
    rng: &mut KeyRng,
    matcher: &Matcher,
    print_only: bool,
    buf: &mut Vec<u8>,
) -> (r: Option<Hit>)
    ensures
        final(rng).drawn().len() == old(rng).drawn().len() + 1,
        final(rng).drawn().drop_last() == old(rng).drawn(),
        is_outcome(final(rng).drawn().last(), matcher, print_only, r),
        final(buf)@ == encode_utf8(peer_id_text(final(rng).drawn().last())),
        r matches Some(hit) ==> REQUIRED_PREFIX@.is_prefix_of(hit.peer_id_b58@),
{
    let sk: [u8; 32] = rng.next_signing_key();
    assert(rng.drawn().drop_last() =~= old(rng).drawn());
    try_key_standard(&sk, matcher, print_only, buf)
}

/// One attempt, as `try_key_extreme` makes it, with the next key that `rng` draws. Which key
/// that is rests on chance.
pub fn attempt_extreme(
    rng: &mut KeyRng,
    matcher: &Matcher,
    print_only: bool,
    buf: &mut Vec<u8>,
) -> (r: Option<Hit>)
    ensures
        final(rng).drawn().len() == old(rng).drawn().len() + 1,
        final(rng).drawn().drop_last() == old(rng).drawn(),
        is_outcome(final(rng).drawn().last(), matcher, print_only, r),
        final(buf)@ == encode_utf8(peer_id_text(final(rng).drawn().last())),
        r matches Some(hit) ==> REQUIRED_PREFIX@.is_prefix_of(hit.peer_id_b58@),
{
    let sk: [u8; 32] = rng.next_signing_key();
    assert(rng.drawn().drop_last() =~= old(rng).drawn());
    try_key_extreme(&sk, matcher, print_only, buf)
}

/// Two outcomes are the same hit, or no hit both.
pub open spec fn same_outcome(a: Option<Hit>, b: Option<Hit>) -> bool {
    match (a, b) {
        (Some(x), Some(y)) => {
            &&& x.peer_id_b58@ == y.peer_id_b58@
            &&& match (x.sk_protobuf, y.sk_protobuf) {
                (Some(s), Some(t)) => s@ == t@,
                (None, None) => true,
                _ => false,
            }
        },
        (None, None) => true,
        _ => false,
    }
}

/// The two ways to make an attempt give the same for the same seed.
pub proof fn law_standard_and_extreme_agree(
    seed: Seq<u8>,
    matcher: &Matcher,
    print_only: bool,
    standard: Option<Hit>,
    extreme: Option<Hit>,
)
    requires
        is_outcome(seed, matcher, print_only, standard),
        is_outcome(seed, matcher, print_only, extreme),
    ensures
        same_outcome(standard, extreme),
{
}

/// What an attempt gives: a hit exactly where the identifier of the key is one that the
/// matcher accepts. A hit holds that identifier, whole, and the stored form of that very key,
/// which is left out exactly where only identifiers are wanted.
pub proof fn law_hits_hold_the_key_that_was_tried(
    seed: Seq<u8>,
    matcher: &Matcher,
    print_only: bool,
    r: Option<Hit>,
)
    requires
        is_outcome(seed, matcher, print_only, r),
    ensures
        ({
            let public = ed25519_public(seed);
            let id = base58(seq![0x00u8, 0x24u8, 0x08u8, 0x01u8, 0x12u8, 0x20u8] + public);
            &&& r is Some <==> matcher.accepts(encode_utf8(id))
            &&& r is Some ==> r->0.peer_id_b58@ == id
            &&& r is Some ==> (r->0.sk_protobuf is None <==> print_only)
            &&& r is Some && !print_only ==> r->0.sk_protobuf->0@ == seq![
                0x08u8,
                0x01u8,
                0x12u8,
                0x40u8,
            ] + seed + public
        }),
{
    crate::identity::law_identifier_is_that_of_the_public_key(seed);
}

/// What a matcher accepts: the texts that hold its needle where its mode wants it. Those are
/// the texts themselves where case counts, and their lower case where it does not.
pub proof fn law_matchers_accept_what_meets(matcher: &Matcher, pattern: Seq<u8>, hay: Seq<u8>)
    requires
        matcher.needle() == (if matcher.case_insensitive() {
            lower_bytes(pattern)
        } else {
            pattern
        }),
    ensures
        matcher.accepts(hay) == meets(matcher.mode(), matcher.case_insensitive(), pattern, hay),
{
}

} // verus!
