//! Ed25519 keys, the peer identifiers made from them, and the encoding in which a
//! private key is stored.

use crate::base58::base58;
use vstd::prelude::*;

verus! {

/// The bytes before the public key in the raw identifier of an Ed25519 peer: the
/// code and the length of an identity multihash, then the protobuf fields for the
/// key type and for the length of the key.
pub const ED25519_PEER_ID_MULTIHASH_PREFIX: [u8; 6] = [0x00, 0x24, 0x08, 0x01, 0x12, 0x20];

/// The Ed25519 public key that belongs to the secret seed `seed`.
pub uninterp spec fn ed25519_public(seed: Seq<u8>) -> Seq<u8>;

/// The raw peer identifier of an Ed25519 public key.
pub open spec fn raw_peer_id(public: Seq<u8>) -> Seq<u8> {
    ED25519_PEER_ID_MULTIHASH_PREFIX@ + public
}

/// The peer identifier of the key with the secret seed `seed`, in Base58.
pub open spec fn peer_id_text(seed: Seq<u8>) -> Seq<char> {
    base58(raw_peer_id(ed25519_public(seed)))
}

/// The protobuf message that stores an Ed25519 key: the key type, then the length
/// and the bytes of the seed with the public key behind it.
pub open spec fn private_key_message(seed: Seq<u8>) -> Seq<u8> {
    seq![0x08u8, 0x01u8, 0x12u8, 0x40u8] + seed + ed25519_public(seed)
}

/// The 64 bytes of a seed with its public key behind it.
pub open spec fn is_keypair(bytes: Seq<u8>) -> bool {
    &&& bytes.len() == 64
    &&& bytes.skip(32) == ed25519_public(bytes.take(32))
}

/// `libp2p_identity::DecodingError`, of which nothing is known.
#[verifier::external_type_specification]
#[verifier::external_body]
pub struct ExDecodingError(libp2p_identity::DecodingError);

/// `ed25519_dalek::SigningKey::verifying_key`, on the key made from `seed`. The
/// public key is a function of the seed; what function that is takes the curve
/// arithmetic to say, so it has a name only.
#[verifier::external_body]
fn dalek_verifying_key(seed: &[u8; 32]) -> (public: [u8; 32])
    ensures
        public@ == ed25519_public(seed@),
{
    ed25519_dalek::SigningKey::from_bytes(seed).verifying_key().to_bytes()
}

/// `libp2p_identity::ed25519::Keypair::try_from_bytes`, with the key pair given back
/// as its bytes. It takes 64 bytes whose second half is the public key of the first
/// half, keeps them as they are, and refuses any others.
#[verifier::external_body]
fn libp2p_keypair(mut bytes: [u8; 64]) -> (r: Result<[u8; 64], libp2p_identity::DecodingError>)
    ensures
        r is Ok <==> is_keypair(bytes@),
        r is Ok ==> r->Ok_0@ == bytes@,
{
    libp2p_identity::ed25519::Keypair::try_from_bytes(&mut bytes).map(|kp| kp.to_bytes())
}

/// `libp2p_identity::PeerId::from_public_key`, on the public key of a key pair, as
/// bytes. The protobuf message of an Ed25519 public key has 36 bytes, few enough for
/// an identity multihash: code 0x00, length 0x24, then the message, which is 0x08
/// 0x01 for the key type, 0x12 0x20 for 32 bytes of data, and the key.
#[verifier::external_body]
fn libp2p_peer_id(mut bytes: [u8; 64]) -> (r: Vec<u8>)
    requires
        is_keypair(bytes@),
    ensures
        r@ == raw_peer_id(bytes@.skip(32)),
{
    let pair = libp2p_identity::ed25519::Keypair::try_from_bytes(&mut bytes).unwrap();
    let public = libp2p_identity::Keypair::from(pair).public();
    libp2p_identity::PeerId::from_public_key(&public).to_bytes()
}

/// `libp2p_identity::Keypair::to_protobuf_encoding` of a key pair. For an Ed25519
/// pair it does not fail, and writes 0x08 0x01 for the key type, 0x12 0x40 for 64
/// bytes of data, and the bytes of the pair.
#[verifier::external_body]
fn libp2p_private_key(mut bytes: [u8; 64]) -> (r: Result<Vec<u8>, libp2p_identity::DecodingError>)
    requires
        is_keypair(bytes@),
    ensures
        r is Ok && r->Ok_0@ == seq![0x08u8, 0x01u8, 0x12u8, 0x40u8] + bytes@,
{
    let pair = libp2p_identity::ed25519::Keypair::try_from_bytes(&mut bytes).unwrap();
    libp2p_identity::Keypair::from(pair).to_protobuf_encoding()
}

/// An Ed25519 key pair: a secret seed with its public key behind it.
pub struct Keypair {
    bytes: [u8; 64],
}

/// A private key has no encoding.
#[derive(Clone, Copy, Debug, PartialEq, Eq, Structural)]
pub struct KeyEncodingError;

impl Keypair {
    #[verifier::type_invariant]
    spec fn inv(self) -> bool {
        is_keypair(self.bytes@)
    }

    /// The secret seed.
    pub closed spec fn seed(&self) -> Seq<u8> {
        self.bytes@.take(32)
    }

    /// The public key.
    pub fn public(&self) -> (r: [u8; 32])
        ensures
            r@ == ed25519_public(self.seed()),
    {
        proof {
            use_type_invariant(self);
        }
        let mut r: [u8; 32] = [0u8; 32];
        let mut i: usize = 0;
        while i < 32
            invariant
                i <= 32,
                forall|k: int| 0 <= k < i ==> r@[k] == self.bytes@[32 + k],
            decreases 32 - i,
        {
            r[i] = self.bytes[32 + i];
            i = i + 1;
        }
        assert(r@ =~= self.bytes@.skip(32));
        r
    }
}

/// The public key of the secret seed `seed`.
pub fn verifying_key(seed: &[u8; 32]) -> (public: [u8; 32])
    ensures
        public@ == ed25519_public(seed@),
{
    dalek_verifying_key(seed)
}

/// The key pair of the secret seed `sk`.
pub fn keypair_from_signing_key(sk: &[u8; 32]) -> (r: Keypair)
    ensures
        r.seed() == sk@,
        ed25519_public(r.seed()).len() == 32,
{
    let vk: [u8; 32] = verifying_key(sk);
    let mut kp_bytes: [u8; 64] = [0u8; 64];
    let mut i: usize = 0;
    while i < 32
        invariant
            i <= 32,
            forall|k: int| 0 <= k < i ==> kp_bytes@[k] == sk@[k] && kp_bytes@[32 + k] == vk@[k],
        decreases 32 - i,
    {
        kp_bytes[i] = sk[i];
        kp_bytes[32 + i] = vk[i];
        i = i + 1;
    }
    proof {
        assert(kp_bytes@.take(32) =~= sk@);
        assert(kp_bytes@.skip(32) =~= vk@);
    }
    let bytes: [u8; 64] = libp2p_keypair(kp_bytes).expect(
        "ed25519 key compose · 组装 ed25519 密钥失败",
    );
    Keypair { bytes }
}

/// The raw peer identifier of a key pair, as the network library makes it.
pub fn peer_id_bytes(kp: &Keypair) -> (r: Vec<u8>)
    ensures
        r@ == raw_peer_id(ed25519_public(kp.seed())),
{
    proof {
        use_type_invariant(kp);
    }
    libp2p_peer_id(kp.bytes)
}

/// The raw peer identifier of a public key, put together directly.
pub fn peer_id_from_public(public: &[u8; 32]) -> (r: [u8; 38])
    ensures
        r@ == raw_peer_id(public@),
{
    let mut raw: [u8; 38] = [0u8; 38];
    let mut i: usize = 0;
    while i < 6
        invariant
            i <= 6,
            forall|k: int| 0 <= k < i ==> raw@[k] == ED25519_PEER_ID_MULTIHASH_PREFIX@[k],
        decreases 6 - i,
    {
        raw[i] = ED25519_PEER_ID_MULTIHASH_PREFIX[i];
        i = i + 1;
    }
    let mut j: usize = 0;
    while j < 32
        invariant
            j <= 32,
            forall|k: int| 0 <= k < 6 ==> raw@[k] == ED25519_PEER_ID_MULTIHASH_PREFIX@[k],
            forall|k: int| 0 <= k < j ==> raw@[6 + k] == public@[k],
        decreases 32 - j,
    {
        raw[6 + j] = public[j];
        j = j + 1;
    }
    assert(raw@ =~= raw_peer_id(public@));
    raw
}

/// The protobuf message that stores a key pair.
pub fn encode_private_key_protobuf(kp: &Keypair) -> (r: Result<Vec<u8>, KeyEncodingError>)
    ensures
        r is Ok,
        r->Ok_0@ == private_key_message(kp.seed()),
{
    proof {
        use_type_invariant(kp);
        assert(kp.bytes@.take(32) + kp.bytes@.skip(32) =~= kp.bytes@);
    }
    match libp2p_private_key(kp.bytes) {
        Ok(bytes) => {
            assert(bytes@ =~= private_key_message(kp.seed()));
            Ok(bytes)
        },
        Err(_) => Err(KeyEncodingError),
    }
}

/// The raw identifier is six fixed bytes, which say that an Ed25519 key of 32 bytes follows
/// as it is, and then the public key.
pub proof fn law_raw_identifier_holds_the_key(public: Seq<u8>)
    ensures
        raw_peer_id(public).len() == 6 + public.len(),
        raw_peer_id(public)[0] == 0x00,
        raw_peer_id(public)[1] == 0x24,
        raw_peer_id(public)[2] == 0x08,
        raw_peer_id(public)[3] == 0x01,
        raw_peer_id(public)[4] == 0x12,
        raw_peer_id(public)[5] == 0x20,
        forall|i: int|
            0 <= i < public.len() ==> raw_peer_id(public)[6 + i] == #[trigger] public[i],
{
}

/// The identifier of a seed is that of its public key, in Base58.
pub proof fn law_identifier_is_that_of_the_public_key(seed: Seq<u8>)
    ensures
        peer_id_text(seed) == base58(
            seq![0x00u8, 0x24u8, 0x08u8, 0x01u8, 0x12u8, 0x20u8] + ed25519_public(seed),
        ),
{
    assert(raw_peer_id(ed25519_public(seed)) =~= seq![0x00u8, 0x24u8, 0x08u8, 0x01u8, 0x12u8, 0x20u8]
        + ed25519_public(seed));
}

/// The bytes of a key pair are a seed and its public key, 32 bytes each.
pub proof fn law_key_pairs_are_seed_and_public_key(seed: Seq<u8>, public: Seq<u8>)
    requires
        seed.len() == 32,
        public.len() == 32,
    ensures
        is_keypair(seed + public) <==> public == ed25519_public(seed),
{
    assert((seed + public).take(32) =~= seed);
    assert((seed + public).skip(32) =~= public);
}

} // verus!
