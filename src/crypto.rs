//! The crypto kernel: sealed boxes for direct messages, secret boxes with a
//! prepended nonce for group messages, and the derivation of encryption keys
//! from identity keys. The primitives are libsodium's, through sodiumoxide.

use vstd::prelude::*;
use vstd::slice::slice_subrange;
use vstd::slice::slice_to_vec;

verus! {

/// Errors of the crypto kernel.
#[derive(Clone, Copy, Debug, PartialEq, Eq, Structural)]
pub enum CryptoError {
    /// Authenticated decryption failed: tampering or the wrong key.
    DecryptAuth,
    /// Key bytes of the wrong length or otherwise malformed.
    BadKey,
    /// A group ciphertext shorter than its nonce.
    TooShort,
}

/// Bytes of a group nonce.
pub const NONCE_BYTES: usize = 24;

/// Bytes of a symmetric key, of an X25519 key and of an Ed25519 public key.
pub const KEY_BYTES: usize = 32;

/// What libsodium's sealed-box opening yields for ciphertext `c` under the
/// recipient key pair `(pk, sk)`.
pub uninterp spec fn sealed_box_open(c: Seq<u8>, pk: Seq<u8>, sk: Seq<u8>) -> Option<Seq<u8>>;

/// libsodium's X25519 base-point multiplication of a scalar.
pub uninterp spec fn x25519_base(scalar: Seq<u8>) -> Seq<u8>;

/// What libsodium's secret-box opening yields for ciphertext `c`.
pub uninterp spec fn secret_box_open(c: Seq<u8>, nonce: Seq<u8>, key: Seq<u8>) -> Option<Seq<u8>>;

/// SHA-512 digest.
pub uninterp spec fn sha512_of(m: Seq<u8>) -> Seq<u8>;

/// libsodium's map from an Ed25519 public key to the X25519 public key.
pub uninterp spec fn ed25519_pk_to_curve(pk: Seq<u8>) -> Option<Seq<u8>>;

/// X25519 shared secret of a scalar and a point.
pub uninterp spec fn x25519_shared(scalar: Seq<u8>, point: Seq<u8>) -> Option<Seq<u8>>;

/// Whether `c` opens to `m` under every key pair whose public key is `pk`.
pub open spec fn sealed_to(c: Seq<u8>, m: Seq<u8>, pk: Seq<u8>) -> bool {
    forall|sk: Seq<u8>| sk.len() == 32 && x25519_base(sk) == pk ==> #[trigger] sealed_box_open(c, pk, sk) == Some(m)
}

/// Relies on `sodiumoxide::init`: prepares libsodium (its random source).
#[verifier::external_body]
pub(crate) fn init_sodium() {
    let _ = sodiumoxide::init();
}

/// Relies on `sealedbox::seal`: a ciphertext that opens to `m` with the key
/// pair of `pk`, `SEALBYTES` (48) longer than `m`.
#[verifier::external_body]
fn seal_box(m: &[u8], pk: &[u8]) -> (r: Vec<u8>)
    requires
        pk@.len() == 32,
    ensures
        sealed_to(r@, m@, pk@),
        r@.len() == m@.len() + 48,
{
    let pk = sodiumoxide::crypto::box_::PublicKey(pk.try_into().unwrap());
    sodiumoxide::crypto::sealedbox::seal(m, &pk)
}

/// Relies on `sealedbox::open`.
#[verifier::external_body]
fn open_box(c: &[u8], pk: &[u8], sk: &[u8]) -> (r: Option<Vec<u8>>)
    requires
        pk@.len() == 32,
        sk@.len() == 32,
    ensures
        match r {
            Some(m) => sealed_box_open(c@, pk@, sk@) == Some(m@),
            None => sealed_box_open(c@, pk@, sk@) is None,
        },
{
    let pk = sodiumoxide::crypto::box_::PublicKey(pk.try_into().unwrap());
    let sk = sodiumoxide::crypto::box_::SecretKey(sk.try_into().unwrap());
    sodiumoxide::crypto::sealedbox::open(c, &pk, &sk).ok()
}

/// Relies on `secretbox::seal`: a ciphertext that opens to `m` under the same
/// nonce and key, `MACBYTES` (16) longer than `m`.
#[verifier::external_body]
pub(crate) fn seal_secret(m: &[u8], nonce: &[u8], key: &[u8]) -> (r: Vec<u8>)
    requires
        nonce@.len() == 24,
        key@.len() == 32,
    ensures
        secret_box_open(r@, nonce@, key@) == Some(m@),
        r@.len() == m@.len() + 16,
{
    let n = sodiumoxide::crypto::secretbox::Nonce(nonce.try_into().unwrap());
    let k = sodiumoxide::crypto::secretbox::Key(key.try_into().unwrap());
    sodiumoxide::crypto::secretbox::seal(m, &n, &k)
}

/// Relies on `secretbox::open`.
#[verifier::external_body]
pub(crate) fn open_secret(c: &[u8], nonce: &[u8], key: &[u8]) -> (r: Option<Vec<u8>>)
    requires
        nonce@.len() == 24,
        key@.len() == 32,
    ensures
        match r {
            Some(m) => secret_box_open(c@, nonce@, key@) == Some(m@),
            None => secret_box_open(c@, nonce@, key@) is None,
        },
{
    let n = sodiumoxide::crypto::secretbox::Nonce(nonce.try_into().unwrap());
    let k = sodiumoxide::crypto::secretbox::Key(key.try_into().unwrap());
    sodiumoxide::crypto::secretbox::open(c, &n, &k).ok()
}

/// Relies on `secretbox::gen_nonce`: 24 random bytes.
#[verifier::external_body]
pub(crate) fn random_nonce() -> (r: Vec<u8>)
    ensures
        r@.len() == 24,
{
    sodiumoxide::crypto::secretbox::gen_nonce().0.to_vec()
}

/// Relies on `secretbox::gen_key`: 32 random bytes.
#[verifier::external_body]
fn random_key() -> (r: Vec<u8>)
    ensures
        r@.len() == 32,
{
    sodiumoxide::crypto::secretbox::gen_key().0.to_vec()
}

/// Relies on `hash::sha512::hash`: the 64-byte digest.
#[verifier::external_body]
fn sha512(m: &[u8]) -> (r: Vec<u8>)
    ensures
        r@ == sha512_of(m@),
        r@.len() == 64,
{
    sodiumoxide::crypto::hash::sha512::hash(m).0.to_vec()
}

/// Relies on `scalarmult::scalarmult_base`.
#[verifier::external_body]
fn scalarmult_base(scalar: &[u8]) -> (r: Vec<u8>)
    requires
        scalar@.len() == 32,
    ensures
        r@ == x25519_base(scalar@),
        r@.len() == 32,
{
    let n = sodiumoxide::crypto::scalarmult::Scalar(scalar.try_into().unwrap());
    sodiumoxide::crypto::scalarmult::scalarmult_base(&n).0.to_vec()
}

/// Relies on `scalarmult::scalarmult`, which fails on a low-order point.
#[verifier::external_body]
fn scalarmult(scalar: &[u8], point: &[u8]) -> (r: Option<Vec<u8>>)
    requires
        scalar@.len() == 32,
        point@.len() == 32,
    ensures
        match r {
            Some(s) => x25519_shared(scalar@, point@) == Some(s@) && s@.len() == 32,
            None => x25519_shared(scalar@, point@) is None,
        },
{
    let n = sodiumoxide::crypto::scalarmult::Scalar(scalar.try_into().unwrap());
    let p = sodiumoxide::crypto::scalarmult::GroupElement(point.try_into().unwrap());
    sodiumoxide::crypto::scalarmult::scalarmult(&n, &p).ok().map(|g| g.0.to_vec())
}

/// Relies on `sign::to_curve25519_pk`, which fails on a key that is not a
/// valid Edwards point.
#[verifier::external_body]
fn to_curve25519_pk(pk: &[u8]) -> (r: Option<Vec<u8>>)
    requires
        pk@.len() == 32,
    ensures
        match r {
            Some(x) => ed25519_pk_to_curve(pk@) == Some(x@) && x@.len() == 32,
            None => ed25519_pk_to_curve(pk@) is None,
        },
{
    let ed = sodiumoxide::crypto::sign::PublicKey(pk.try_into().unwrap());
    sodiumoxide::crypto::sign::to_curve25519_pk(&ed).ok().map(|k| k.0.to_vec())
}

} // verus!

verus! {

/// Result of opening a direct (sealed-box) ciphertext with a key pair.
pub open spec fn direct_decrypt_spec(c: Seq<u8>, pk: Seq<u8>, sk: Seq<u8>) -> Result<Seq<u8>, CryptoError> {
    if pk.len() != 32 || sk.len() != 32 {
        Err(CryptoError::BadKey)
    } else {
        match sealed_box_open(c, pk, sk) {
            Some(m) => Ok(m),
            None => Err(CryptoError::DecryptAuth),
        }
    }
}

/// Result of opening a group ciphertext: its first 24 bytes are the nonce.
pub open spec fn group_decrypt_spec(c: Seq<u8>, key: Seq<u8>) -> Result<Seq<u8>, CryptoError> {
    if c.len() < 24 {
        Err(CryptoError::TooShort)
    } else if key.len() != 32 {
        Err(CryptoError::BadKey)
    } else {
        match secret_box_open(c.subrange(24, c.len() as int), c.subrange(0, 24), key) {
            Some(m) => Ok(m),
            None => Err(CryptoError::DecryptAuth),
        }
    }
}

/// The X25519 secret scalar of a signing seed: the low half of SHA-512 of
/// the seed, clamped.
pub open spec fn clamped_scalar(h: Seq<u8>) -> Seq<u8> {
    h.subrange(0, 32).update(0, h[0] & 248u8).update(31, (h[31] & 127u8) | 64u8)
}

/// Encrypts for a recipient with a sealed box (anonymous sender).
pub fn encrypt_message(plaintext: &[u8], recipient_pk: &Vec<u8>) -> (r: Result<Vec<u8>, CryptoError>)
    ensures
        r is Err <==> recipient_pk@.len() != 32,
        r is Err ==> r == Err::<Vec<u8>, CryptoError>(CryptoError::BadKey),
        r is Ok ==> sealed_to(r.unwrap()@, plaintext@, recipient_pk@) && r.unwrap()@.len() == plaintext@.len() + 48,
{
    if recipient_pk.len() != KEY_BYTES {
        return Err(CryptoError::BadKey);
    }
    init_sodium();
    Ok(seal_box(plaintext, recipient_pk.as_slice()))
}

/// Decrypts a sealed box with our key pair.
pub fn decrypt_message(ciphertext: &[u8], public_key: &Vec<u8>, secret_key: &Vec<u8>) -> (r: Result<Vec<u8>, CryptoError>)
    ensures
        match r {
            Ok(m) => direct_decrypt_spec(ciphertext@, public_key@, secret_key@) == Ok::<Seq<u8>, CryptoError>(m@),
            Err(e) => direct_decrypt_spec(ciphertext@, public_key@, secret_key@) == Err::<Seq<u8>, CryptoError>(e),
        },
{
    if public_key.len() != KEY_BYTES || secret_key.len() != KEY_BYTES {
        return Err(CryptoError::BadKey);
    }
    match open_box(ciphertext, public_key.as_slice(), secret_key.as_slice()) {
        Some(m) => Ok(m),
        None => Err(CryptoError::DecryptAuth),
    }
}

/// A fresh random 32-byte group key.
pub fn generate_group_key() -> (r: Vec<u8>)
    ensures
        r@.len() == 32,
{
    init_sodium();
    random_key()
}

/// Encrypts for a group: a fresh 24-byte nonce, then the secret box.
pub fn encrypt_for_group(plaintext: &[u8], group_key: &Vec<u8>) -> (r: Result<Vec<u8>, CryptoError>)
    ensures
        r is Err <==> group_key@.len() != 32,
        r is Err ==> r == Err::<Vec<u8>, CryptoError>(CryptoError::BadKey),
        r is Ok ==> r.unwrap()@.len() == plaintext@.len() + 40 && secret_box_open(
            r.unwrap()@.subrange(24, r.unwrap()@.len() as int),
            r.unwrap()@.subrange(0, 24),
            group_key@,
        ) == Some(plaintext@),
{
    if group_key.len() != KEY_BYTES {
        return Err(CryptoError::BadKey);
    }
    init_sodium();
    let nonce = random_nonce();
    let sealed = seal_secret(plaintext, nonce.as_slice(), group_key.as_slice());
    let mut out = nonce;
    let ghost n = out@;
    let mut i: usize = 0;
    while i < sealed.len()
        invariant
            i <= sealed@.len(),
            n.len() == 24,
            out@ == n + sealed@.subrange(0, i as int),
        decreases sealed@.len() - i,
    {
        out.push(sealed[i]);
        i = i + 1;
        assert(out@ =~= n + sealed@.subrange(0, i as int));
    }
    assert(out@.subrange(0, 24) =~= n);
    assert(out@.subrange(24, out@.len() as int) =~= sealed@);
    Ok(out)
}

/// Decrypts a group message: the first 24 bytes are the nonce.
pub fn decrypt_from_group(ciphertext: &[u8], group_key: &Vec<u8>) -> (r: Result<Vec<u8>, CryptoError>)
    ensures
        match r {
            Ok(m) => group_decrypt_spec(ciphertext@, group_key@) == Ok::<Seq<u8>, CryptoError>(m@),
            Err(e) => group_decrypt_spec(ciphertext@, group_key@) == Err::<Seq<u8>, CryptoError>(e),
        },
{
    if ciphertext.len() < NONCE_BYTES {
        return Err(CryptoError::TooShort);
    }
    if group_key.len() != KEY_BYTES {
        return Err(CryptoError::BadKey);
    }
    let nonce = slice_subrange(ciphertext, 0, NONCE_BYTES);
    let body = slice_subrange(ciphertext, NONCE_BYTES, ciphertext.len());
    match open_secret(body, nonce, group_key.as_slice()) {
        Some(m) => Ok(m),
        None => Err(CryptoError::DecryptAuth),
    }
}

/// The X25519 key pair `(public, secret)` bound to a 32-byte signing seed:
/// the secret is the clamped low half of SHA-512 of the seed, the public key
/// its base-point multiple.
pub fn keypair_to_encryption_keys(seed: &Vec<u8>) -> (r: Result<(Vec<u8>, Vec<u8>), CryptoError>)
    ensures
        r is Err <==> seed@.len() != 32,
        r is Err ==> r == Err::<(Vec<u8>, Vec<u8>), CryptoError>(CryptoError::BadKey),
        r is Ok ==> r.unwrap().1@ == clamped_scalar(sha512_of(seed@)) && r.unwrap().0@ == x25519_base(r.unwrap().1@),
        r is Ok ==> r.unwrap().0@.len() == 32 && r.unwrap().1@.len() == 32,
{
    if seed.len() != KEY_BYTES {
        return Err(CryptoError::BadKey);
    }
    init_sodium();
    let h = sha512(seed.as_slice());
    let mut sk = slice_to_vec(slice_subrange(h.as_slice(), 0, KEY_BYTES));
    let b0 = sk[0] & 248u8;
    sk.set(0, b0);
    let b31 = (sk[31] & 127u8) | 64u8;
    sk.set(31, b31);
    assert(sk@ =~= clamped_scalar(h@));
    let pk = scalarmult_base(sk.as_slice());
    Ok((pk, sk))
}

/// The X25519 public key of a contact's 32-byte Ed25519 public key, by the
/// birational map from Edwards to Montgomery form.
pub fn ed25519_pk_to_x25519(ed25519_pk: &Vec<u8>) -> (r: Result<Vec<u8>, CryptoError>)
    ensures
        r is Ok <==> ed25519_pk@.len() == 32 && ed25519_pk_to_curve(ed25519_pk@) is Some,
        r is Ok ==> ed25519_pk_to_curve(ed25519_pk@) == Some(r.unwrap()@) && r.unwrap()@.len() == 32,
        r is Err ==> r == Err::<Vec<u8>, CryptoError>(CryptoError::BadKey),
{
    if ed25519_pk.len() != KEY_BYTES {
        return Err(CryptoError::BadKey);
    }
    init_sodium();
    match to_curve25519_pk(ed25519_pk.as_slice()) {
        Some(x) => Ok(x),
        None => Err(CryptoError::BadKey),
    }
}

/// The X25519 shared secret of our secret key and their public key.
pub fn derive_shared_secret(our_sk: &Vec<u8>, their_pk: &Vec<u8>) -> (r: Result<Vec<u8>, CryptoError>)
    ensures
        r is Ok <==> our_sk@.len() == 32 && their_pk@.len() == 32 && x25519_shared(our_sk@, their_pk@) is Some,
        r is Ok ==> x25519_shared(our_sk@, their_pk@) == Some(r.unwrap()@) && r.unwrap()@.len() == 32,
        r is Err ==> r == Err::<Vec<u8>, CryptoError>(CryptoError::BadKey),
{
    if our_sk.len() != KEY_BYTES || their_pk.len() != KEY_BYTES {
        return Err(CryptoError::BadKey);
    }
    init_sodium();
    match scalarmult(our_sk.as_slice(), their_pk.as_slice()) {
        Some(s) => Ok(s),
        None => Err(CryptoError::BadKey),
    }
}

/// The bytes of a public key.
pub fn public_key_to_bytes(pk: &Vec<u8>) -> (r: Vec<u8>)
    ensures
        r@ == pk@,
{
    crate::types::copy_bytes(pk)
}

/// A public key from bytes; `BadKey` unless there are 32 of them.
pub fn public_key_from_bytes(bytes: &[u8]) -> (r: Result<Vec<u8>, CryptoError>)
    ensures
        r is Ok <==> bytes@.len() == 32,
        r is Ok ==> r.unwrap()@ == bytes@,
        r is Err ==> r == Err::<Vec<u8>, CryptoError>(CryptoError::BadKey),
{
    if bytes.len() != KEY_BYTES {
        return Err(CryptoError::BadKey);
    }
    Ok(slice_to_vec(bytes))
}

/// The bytes of a secret key.
pub fn secret_key_to_bytes(sk: &Vec<u8>) -> (r: Vec<u8>)
    ensures
        r@ == sk@,
{
    crate::types::copy_bytes(sk)
}

/// A secret key from bytes; `BadKey` unless there are 32 of them.
pub fn secret_key_from_bytes(bytes: &[u8]) -> (r: Result<Vec<u8>, CryptoError>)
    ensures
        r is Ok <==> bytes@.len() == 32,
        r is Ok ==> r.unwrap()@ == bytes@,
        r is Err ==> r == Err::<Vec<u8>, CryptoError>(CryptoError::BadKey),
{
    if bytes.len() != KEY_BYTES {
        return Err(CryptoError::BadKey);
    }
    Ok(slice_to_vec(bytes))
}

/// Direct round trip: a sealed box made for `pk` opens, with a key pair whose
/// public key is `pk`, to the plaintext it was made from.
pub proof fn lemma_direct_round_trip(c: Seq<u8>, plaintext: Seq<u8>, pk: Seq<u8>, sk: Seq<u8>)
    requires
        sealed_to(c, plaintext, pk),
        pk.len() == 32,
        sk.len() == 32,
        x25519_base(sk) == pk,
    ensures
        direct_decrypt_spec(c, pk, sk) == Ok::<Seq<u8>, CryptoError>(plaintext),
{
    assert(sealed_box_open(c, pk, sk) == Some(plaintext));
}

/// Group round trip: a group ciphertext made under `key` decrypts under the
/// same key to the plaintext it was made from.
pub proof fn lemma_group_round_trip(c: Seq<u8>, plaintext: Seq<u8>, key: Seq<u8>)
    requires
        key.len() == 32,
        c.len() == plaintext.len() + 40,
        secret_box_open(c.subrange(24, c.len() as int), c.subrange(0, 24), key) == Some(plaintext),
    ensures
        group_decrypt_spec(c, key) == Ok::<Seq<u8>, CryptoError>(plaintext),
{
}

} // verus!
