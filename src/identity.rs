//! The identity vault: a long-lived Ed25519 signing identity, its public
//! export, the node id derived from it, and the passphrase-sealed identity
//! file `salt (32) || nonce (24) || ciphertext`.

use vstd::prelude::*;
use base64::Engine;
use vstd::slice::slice_subrange;
use vstd::slice::slice_to_vec;
use crate::crypto::secret_box_open;
use crate::types::NodeId;
use vstd::utf8::encode_utf8;

verus! {

/// Errors of the vault.
#[derive(Clone, Copy, Debug, PartialEq, Eq, Structural)]
pub enum VaultError {
    /// The passphrase does not open the identity file.
    WrongPassphrase,
    /// Malformed input: a short identity file, bad base64, a key that is not
    /// an Ed25519 public key.
    InvalidInput,
    /// The key derivation did not complete (it could not get its memory).
    KeyDerivation,
}

/// The canonical (protobuf) encoding of the key pair of a seed.
pub uninterp spec fn keypair_proto_of(seed: Seq<u8>) -> Seq<u8>;

/// The seed of a key pair in canonical encoding, if it is an Ed25519 one.
pub uninterp spec fn seed_of_proto(b: Seq<u8>) -> Option<Seq<u8>>;

/// The canonical encoding of the public key of a seed.
pub uninterp spec fn public_proto_of(seed: Seq<u8>) -> Seq<u8>;

/// The raw Ed25519 public key in a canonical public-key encoding, if any.
pub uninterp spec fn raw_public_of_proto(b: Seq<u8>) -> Option<Seq<u8>>;

/// The raw Ed25519 public key of a seed.
pub uninterp spec fn ed25519_public_of(seed: Seq<u8>) -> Seq<u8>;

/// The node id (encoded peer id) of a raw Ed25519 public key, if valid.
pub uninterp spec fn node_id_of_public(pk: Seq<u8>) -> Option<Seq<u8>>;

/// The node id (encoded peer id) of a seed.
pub uninterp spec fn node_id_of_seed(seed: Seq<u8>) -> Seq<u8>;

/// Standard base64 (with padding) of bytes.
pub uninterp spec fn base64_of(b: Seq<u8>) -> Seq<char>;

/// Bytes that a standard base64 text decodes to, if it is valid.
pub uninterp spec fn base64_decoded(s: Seq<char>) -> Option<Seq<u8>>;

/// The key that the passphrase KDF (scrypt, interactive limits) derives.
pub uninterp spec fn passphrase_key_of(passphrase: Seq<u8>, salt: Seq<u8>) -> Seq<u8>;

/// Relies on libp2p's `ed25519::Keypair::generate`: a random 32-byte seed.
#[verifier::external_body]
fn random_seed() -> (r: Vec<u8>)
    ensures
        r@.len() == 32,
{
    libp2p::identity::ed25519::Keypair::generate().secret().as_ref().to_vec()
}

/// Relies on libp2p's `Keypair::to_protobuf_encoding` of the Ed25519 key pair
/// of a seed; `from_protobuf_encoding` reads the same seed back.
#[verifier::external_body]
fn encode_keypair(seed: &[u8]) -> (r: Vec<u8>)
    requires
        seed@.len() == 32,
    ensures
        r@ == keypair_proto_of(seed@),
        seed_of_proto(r@) == Some(seed@),
{
    let kp = libp2p::identity::Keypair::ed25519_from_bytes(seed.to_vec()).unwrap();
    kp.to_protobuf_encoding().unwrap()
}

/// Relies on libp2p's `Keypair::from_protobuf_encoding` and
/// `try_into_ed25519`: the 32-byte seed of an encoded Ed25519 key pair.
#[verifier::external_body]
fn decode_keypair(b: &[u8]) -> (r: Option<Vec<u8>>)
    ensures
        match r {
            Some(s) => seed_of_proto(b@) == Some(s@) && s@.len() == 32,
            None => seed_of_proto(b@) is None,
        },
{
    libp2p::identity::Keypair::from_protobuf_encoding(b)
        .ok()
        .and_then(|kp| kp.try_into_ed25519().ok())
        .map(|kp| kp.secret().as_ref().to_vec())
}

/// Relies on libp2p's `PublicKey::encode_protobuf` of the public key of a
/// seed's key pair.
#[verifier::external_body]
fn encode_public(seed: &[u8]) -> (r: Vec<u8>)
    requires
        seed@.len() == 32,
    ensures
        r@ == public_proto_of(seed@),
{
    let kp = libp2p::identity::Keypair::ed25519_from_bytes(seed.to_vec()).unwrap();
    kp.public().encode_protobuf()
}

/// Relies on libp2p's `PublicKey::try_decode_protobuf` and
/// `try_into_ed25519`: the raw 32-byte key of an encoded Ed25519 public key.
#[verifier::external_body]
fn decode_public(b: &[u8]) -> (r: Option<Vec<u8>>)
    ensures
        match r {
            Some(k) => raw_public_of_proto(b@) == Some(k@) && k@.len() == 32,
            None => raw_public_of_proto(b@) is None,
        },
{
    libp2p::identity::PublicKey::try_decode_protobuf(b)
        .ok()
        .and_then(|k| k.try_into_ed25519().ok())
        .map(|k| k.to_bytes().to_vec())
}

/// Relies on libp2p's `ed25519::Keypair::public` and `PublicKey::to_bytes`.
#[verifier::external_body]
fn public_of_seed(seed: &[u8]) -> (r: Vec<u8>)
    requires
        seed@.len() == 32,
    ensures
        r@ == ed25519_public_of(seed@),
        r@.len() == 32,
{
    let sk = libp2p::identity::ed25519::SecretKey::try_from_bytes(seed.to_vec()).unwrap();
    libp2p::identity::ed25519::Keypair::from(sk).public().to_bytes().to_vec()
}

/// Relies on libp2p's `PeerId::from_public_key` and `PeerId::to_bytes`, after
/// `ed25519::PublicKey::try_from_bytes`, which fails on an invalid point.
#[verifier::external_body]
fn peer_id_of_public(pk: &[u8]) -> (r: Option<Vec<u8>>)
    ensures
        match r {
            Some(id) => node_id_of_public(pk@) == Some(id@),
            None => node_id_of_public(pk@) is None,
        },
{
    libp2p::identity::ed25519::PublicKey::try_from_bytes(pk)
        .ok()
        .map(|k| libp2p::identity::PublicKey::from(k).to_peer_id().to_bytes())
}

/// Relies on libp2p's `PublicKey::to_peer_id` and `PeerId::to_bytes` for the
/// key pair of a seed.
#[verifier::external_body]
fn peer_id_of_seed(seed: &[u8]) -> (r: Vec<u8>)
    requires
        seed@.len() == 32,
    ensures
        r@ == node_id_of_seed(seed@),
{
    let kp = libp2p::identity::Keypair::ed25519_from_bytes(seed.to_vec()).unwrap();
    kp.public().to_peer_id().to_bytes()
}

/// Relies on base64's `STANDARD.encode`.
#[verifier::external_body]
fn base64_encode(b: &[u8]) -> (r: String)
    ensures
        r@ == base64_of(b@),
        b@.len() > 0 ==> r@.len() > 0,
{
    base64::engine::general_purpose::STANDARD.encode(b)
}

/// Relies on base64's `STANDARD.decode`.
#[verifier::external_body]
fn base64_decode(s: &str) -> (r: Option<Vec<u8>>)
    ensures
        match r {
            Some(b) => base64_decoded(s@) == Some(b@),
            None => base64_decoded(s@) is None,
        },
{
    base64::engine::general_purpose::STANDARD.decode(s).ok()
}

/// Relies on sodiumoxide's `sodiumoxide::crypto::pwhash::derive_key` with `OPSLIMIT_INTERACTIVE`
/// and `MEMLIMIT_INTERACTIVE` into a 32-byte key; it fails when the memory it
/// asks for is refused.
#[verifier::external_body]
fn passphrase_key(passphrase: &[u8], salt: &[u8]) -> (r: Option<Vec<u8>>)
    requires
        salt@.len() == 32,
    ensures
        r is Some ==> r.unwrap()@ == passphrase_key_of(passphrase@, salt@) && r.unwrap()@.len() == 32,
{
    let salt = sodiumoxide::crypto::pwhash::Salt(salt.try_into().unwrap());
    let mut key = [0u8; 32];
    sodiumoxide::crypto::pwhash::derive_key(&mut key, passphrase, &salt, sodiumoxide::crypto::pwhash::OPSLIMIT_INTERACTIVE, sodiumoxide::crypto::pwhash::MEMLIMIT_INTERACTIVE)
        .ok()
        .map(|k| k.to_vec())
}

/// Relies on sodiumoxide's `sodiumoxide::crypto::pwhash::gen_salt`: 32 random bytes.
#[verifier::external_body]
fn random_salt() -> (r: Vec<u8>)
    ensures
        r@.len() == 32,
{
    sodiumoxide::crypto::pwhash::gen_salt().0.to_vec()
}

/// A signing identity, held as its 32-byte Ed25519 seed.
#[derive(Debug)]
pub struct Keypair {
    seed: Vec<u8>,
}

impl View for Keypair {
    type V = Seq<u8>;

    closed spec fn view(&self) -> Seq<u8> {
        self.seed@
    }
}

impl Keypair {
    #[verifier::type_invariant]
    spec fn seed_len(&self) -> bool {
        self.seed@.len() == 32
    }

    /// The identity of a 32-byte seed.
    pub fn from_seed(seed: &[u8]) -> (r: Option<Keypair>)
        ensures
            r is Some <==> seed@.len() == 32,
            r is Some ==> r.unwrap()@ == seed@,
    {
        if seed.len() != 32 {
            return None;
        }
        Some(Keypair { seed: slice_to_vec(seed) })
    }

    /// The seed.
    pub fn seed(&self) -> (r: Vec<u8>)
        ensures
            r@ == self@,
            r@.len() == 32,
    {
        proof {
            use_type_invariant(self);
        }
        crate::types::copy_bytes(&self.seed)
    }

    /// The raw 32-byte Ed25519 public key.
    pub fn public_key(&self) -> (r: Vec<u8>)
        ensures
            r@ == ed25519_public_of(self@),
    {
        proof {
            use_type_invariant(self);
        }
        public_of_seed(self.seed.as_slice())
    }
}

/// A fresh random signing identity.
pub fn generate_keypair() -> (r: Keypair) {
    let seed = random_seed();
    Keypair { seed }
}

/// The node id of an identity.
pub fn keypair_to_peer_id(keypair: &Keypair) -> (r: NodeId)
    ensures
        r@ == node_id_of_seed(keypair@),
{
    proof {
        use_type_invariant(keypair);
    }
    NodeId::from_bytes(peer_id_of_seed(keypair.seed.as_slice()))
}

/// The node id of a contact's raw Ed25519 public key; `InvalidInput` when
/// it is not one.
pub fn node_id_from_public_key(public_key: &[u8]) -> (r: Result<NodeId, VaultError>)
    ensures
        match r {
            Ok(id) => node_id_of_public(public_key@) == Some(id@),
            Err(e) => node_id_of_public(public_key@) is None && e == VaultError::InvalidInput,
        },
{
    match peer_id_of_public(public_key) {
        Some(id) => Ok(NodeId::from_bytes(id)),
        None => Err(VaultError::InvalidInput),
    }
}

/// The public key of an identity for exchange: base64 of its canonical
/// public-key encoding.
pub fn export_public_key(keypair: &Keypair) -> (r: String)
    ensures
        r@ == base64_of(public_proto_of(keypair@)),
{
    proof {
        use_type_invariant(keypair);
    }
    let proto = encode_public(keypair.seed.as_slice());
    base64_encode(proto.as_slice())
}

/// The raw Ed25519 public key in an exported public key. `InvalidInput`
/// when the text is not base64 or does not hold an Ed25519 public key.
pub fn import_public_key(encoded: &str) -> (r: Result<Vec<u8>, VaultError>)
    ensures
        match r {
            Ok(k) => base64_decoded(encoded@) is Some && raw_public_of_proto(base64_decoded(encoded@).unwrap()) == Some(k@),
            Err(e) => e == VaultError::InvalidInput && (base64_decoded(encoded@) is None
                || raw_public_of_proto(base64_decoded(encoded@).unwrap()) is None),
        },
{
    let bytes = match base64_decode(encoded) {
        Some(b) => b,
        None => return Err(VaultError::InvalidInput),
    };
    match decode_public(bytes.as_slice()) {
        Some(k) => Ok(k),
        None => Err(VaultError::InvalidInput),
    }
}

/// Least length of an identity file: salt (32), nonce (24), one byte more.
pub const IDENTITY_MIN_BYTES: usize = 57;

/// What opening an identity file with a passphrase gives, when the key
/// derivation completes: `salt (32) || nonce (24) || sealed encoding`.
pub open spec fn identity_open_spec(data: Seq<u8>, passphrase: Seq<u8>) -> Result<Seq<u8>, VaultError> {
    if data.len() < 57 {
        Err(VaultError::InvalidInput)
    } else {
        match secret_box_open(data.subrange(56, data.len() as int), data.subrange(32, 56),
            passphrase_key_of(passphrase, data.subrange(0, 32))) {
            None => Err(VaultError::WrongPassphrase),
            Some(plain) => match seed_of_proto(plain) {
                Some(seed) => Ok(seed),
                None => Err(VaultError::InvalidInput),
            },
        }
    }
}

/// The identity file of a key pair under a passphrase: a fresh salt, a fresh
/// nonce, and the canonical encoding of the key pair sealed under the key
/// derived from the passphrase and the salt.
pub fn seal_keypair(keypair: &Keypair, passphrase: &str) -> (r: Result<Vec<u8>, VaultError>)
    ensures
        r is Err ==> r == Err::<Vec<u8>, VaultError>(VaultError::KeyDerivation),
        r is Ok ==> r.unwrap()@.len() >= 57 && identity_open_spec(r.unwrap()@, encode_utf8(passphrase@)) == Ok::<Seq<u8>, VaultError>(keypair@),
{
    proof {
        use_type_invariant(keypair);
    }
    crate::crypto::init_sodium();
    let pass = passphrase.as_bytes();
    let salt = random_salt();
    let key = match passphrase_key(pass, salt.as_slice()) {
        Some(k) => k,
        None => return Err(VaultError::KeyDerivation),
    };
    let encoding = encode_keypair(keypair.seed.as_slice());
    let nonce = crate::crypto::random_nonce();
    let sealed = crate::crypto::seal_secret(encoding.as_slice(), nonce.as_slice(), key.as_slice());
    let mut out = salt;
    let ghost s0 = out@;
    crate::wire::append_bytes(&mut out, nonce.as_slice());
    crate::wire::append_bytes(&mut out, sealed.as_slice());
    assert(out@.subrange(0, 32) =~= s0);
    assert(out@.subrange(32, 56) =~= nonce@);
    assert(out@.subrange(56, out@.len() as int) =~= sealed@);
    Ok(out)
}

/// What opening an identity file under an already derived key gives.
pub open spec fn identity_open_with_key_spec(data: Seq<u8>, key: Seq<u8>) -> Result<Seq<u8>, VaultError> {
    if data.len() < 57 {
        Err(VaultError::InvalidInput)
    } else {
        match secret_box_open(data.subrange(56, data.len() as int), data.subrange(32, 56), key) {
            None => Err(VaultError::WrongPassphrase),
            Some(plain) => match seed_of_proto(plain) {
                Some(seed) => Ok(seed),
                None => Err(VaultError::InvalidInput),
            },
        }
    }
}

/// Opens an identity file under the key derived from the passphrase and the
/// file's salt (its first 32 bytes).
pub fn open_keypair_with_key(data: &[u8], key: &Vec<u8>) -> (r: Result<Keypair, VaultError>)
    requires
        key@.len() == 32,
    ensures
        match r {
            Ok(kp) => identity_open_with_key_spec(data@, key@) == Ok::<Seq<u8>, VaultError>(kp@),
            Err(e) => identity_open_with_key_spec(data@, key@) == Err::<Seq<u8>, VaultError>(e),
        },
{
    if data.len() < IDENTITY_MIN_BYTES {
        return Err(VaultError::InvalidInput);
    }
    let nonce = slice_subrange(data, 32, 56);
    let body = slice_subrange(data, 56, data.len());
    let plain = match crate::crypto::open_secret(body, nonce, key.as_slice()) {
        Some(p) => p,
        None => return Err(VaultError::WrongPassphrase),
    };
    match decode_keypair(plain.as_slice()) {
        Some(seed) => Ok(Keypair { seed }),
        None => Err(VaultError::InvalidInput),
    }
}

/// Opens an identity file with a passphrase. Fails with `KeyDerivation`
/// only when the key derivation does not complete; otherwise the result is
/// that of `open_keypair_with_key` under the derived key.
pub fn open_keypair(data: &[u8], passphrase: &str) -> (r: Result<Keypair, VaultError>)
    ensures
        r is Ok ==> identity_open_spec(data@, encode_utf8(passphrase@)) == Ok::<Seq<u8>, VaultError>(r.unwrap()@),
        r is Err ==> r == Err::<Keypair, VaultError>(VaultError::KeyDerivation)
            || identity_open_spec(data@, encode_utf8(passphrase@)) == Err::<Seq<u8>, VaultError>(r->Err_0),
        data@.len() < 57 ==> r == Err::<Keypair, VaultError>(VaultError::InvalidInput),
{
    if data.len() < IDENTITY_MIN_BYTES {
        return Err(VaultError::InvalidInput);
    }
    crate::crypto::init_sodium();
    let salt = slice_subrange(data, 0, 32);
    let key = match passphrase_key(passphrase.as_bytes(), salt) {
        Some(k) => k,
        None => return Err(VaultError::KeyDerivation),
    };
    assert(data@.subrange(0, 32) == salt@);
    open_keypair_with_key(data, &key)
}

} // verus!
