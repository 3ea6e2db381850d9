//! Files of a vault and the key that protects the store at rest.
//!
//! The store is kept as a sealed snapshot beside the identity file: a 24-byte
//! nonce and a secret box under a key that Argon2 derives from the
//! passphrase and the vault's salt (kept base64-encoded in `.whisper.salt`).

use vstd::prelude::*;
use argon2::PasswordHasher;
use vstd::utf8::encode_utf8;
use crate::crypto::{decrypt_from_group, encrypt_for_group, group_decrypt_spec, secret_box_open, CryptoError};

verus! {

/// Name of the identity file in the data directory.
pub const KEYPAIR_FILE: &'static str = "identity.key";

/// Name of the store file in the data directory.
pub const DATABASE_FILE: &'static str = "whisper.db";

/// Name of the salt file in the data directory.
pub const SALT_FILE: &'static str = ".whisper.salt";

/// Errors of opening the store.
#[derive(Clone, Copy, Debug, PartialEq, Eq, Structural)]
pub enum StoreKeyError {
    /// The passphrase is empty: the store must be encrypted.
    EmptyPassphrase,
    /// The salt is not valid salt text, or the key derivation failed.
    BadSalt,
    /// The passphrase does not open the store.
    WrongPassphrase,
    /// The snapshot is not a sealed store.
    Corrupt,
}

/// A path joined from a directory and a file name.
pub uninterp spec fn path_joined(dir: Seq<char>, file: Seq<char>) -> Seq<char>;

/// The 32-byte Argon2id (default parameters) output for a passphrase and a
/// base64 salt, if the salt is valid.
pub uninterp spec fn argon2_key_of(passphrase: Seq<u8>, salt: Seq<char>) -> Option<Seq<u8>>;

/// Relies on `Path::join` and `to_string_lossy` (lossless on text that came
/// from a `&str`).
#[verifier::external_body]
fn join_path(dir: &str, file: &str) -> (r: String)
    ensures
        r@ == path_joined(dir@, file@),
{
    std::path::Path::new(dir).join(file).to_string_lossy().into_owned()
}

/// Relies on argon2's `SaltString::from_b64`, `Argon2::default` and
/// `hash_password`: the raw hash output.
#[verifier::external_body]
fn argon2_key(passphrase: &[u8], salt_b64: &str) -> (r: Option<Vec<u8>>)
    ensures
        match r {
            Some(k) => argon2_key_of(passphrase@, salt_b64@) == Some(k@),
            None => argon2_key_of(passphrase@, salt_b64@) is None,
        },
{
    let salt = argon2::password_hash::SaltString::from_b64(salt_b64).ok()?;
    let hash = argon2::Argon2::default().hash_password(passphrase, &salt).ok()?;
    hash.hash.map(|out| out.as_bytes().to_vec())
}

/// Relies on argon2's `SaltString::generate` over the system's random source.
#[verifier::external_body]
fn random_salt_text() -> (r: String) {
    argon2::password_hash::SaltString::generate(&mut argon2::password_hash::rand_core::OsRng).as_str().to_string()
}

/// The path of the identity file in a data directory.
pub fn keypair_path(data_dir: &str) -> (r: String)
    ensures
        r@ == path_joined(data_dir@, KEYPAIR_FILE@),
{
    join_path(data_dir, KEYPAIR_FILE)
}

/// The path of the store file in a data directory.
pub fn database_path(data_dir: &str) -> (r: String)
    ensures
        r@ == path_joined(data_dir@, DATABASE_FILE@),
{
    join_path(data_dir, DATABASE_FILE)
}

/// The path of the salt file in a data directory.
pub fn salt_path(data_dir: &str) -> (r: String)
    ensures
        r@ == path_joined(data_dir@, SALT_FILE@),
{
    join_path(data_dir, SALT_FILE)
}

/// A fresh salt for a new vault, as base64 text.
pub fn fresh_store_salt() -> (r: String) {
    random_salt_text()
}

/// The store key of a passphrase under the vault's base64 salt. An empty
/// passphrase is refused; so is a salt that is not valid salt text.
pub fn derive_database_key(passphrase: &str, salt_b64: &str) -> (r: Result<Vec<u8>, StoreKeyError>)
    ensures
        passphrase@.len() == 0 ==> r == Err::<Vec<u8>, StoreKeyError>(StoreKeyError::EmptyPassphrase),
        passphrase@.len() > 0 ==> match argon2_key_of(encode_utf8(passphrase@), salt_b64@) {
            Some(k) => r is Ok && r.unwrap()@ == k,
            None => r == Err::<Vec<u8>, StoreKeyError>(StoreKeyError::BadSalt),
        },
{
    if passphrase.is_empty() {
        return Err(StoreKeyError::EmptyPassphrase);
    }
    match argon2_key(passphrase.as_bytes(), salt_b64) {
        Some(k) => Ok(k),
        None => Err(StoreKeyError::BadSalt),
    }
}

/// What opening a sealed store snapshot under a key gives.
pub open spec fn open_snapshot_spec(sealed: Seq<u8>, key: Seq<u8>) -> Result<Seq<u8>, StoreKeyError> {
    match group_decrypt_spec(sealed, key) {
        Ok(m) => Ok(m),
        Err(CryptoError::DecryptAuth) => Err(StoreKeyError::WrongPassphrase),
        Err(_) => Err(StoreKeyError::Corrupt),
    }
}

/// Seals a store snapshot under the store key: a fresh nonce, then the box.
pub fn seal_snapshot(snapshot: &[u8], key: &Vec<u8>) -> (r: Result<Vec<u8>, StoreKeyError>)
    ensures
        r is Err <==> key@.len() != 32,
        r is Ok ==> open_snapshot_spec(r.unwrap()@, key@) == Ok::<Seq<u8>, StoreKeyError>(snapshot@),
{
    match encrypt_for_group(snapshot, key) {
        Ok(c) => Ok(c),
        Err(_) => Err(StoreKeyError::Corrupt),
    }
}

/// Opens a sealed store snapshot. A key that does not open it, as a wrong
/// passphrase gives, is `WrongPassphrase`.
pub fn open_snapshot(sealed: &[u8], key: &Vec<u8>) -> (r: Result<Vec<u8>, StoreKeyError>)
    ensures
        match r {
            Ok(m) => open_snapshot_spec(sealed@, key@) == Ok::<Seq<u8>, StoreKeyError>(m@),
            Err(e) => open_snapshot_spec(sealed@, key@) == Err::<Seq<u8>, StoreKeyError>(e),
        },
{
    match decrypt_from_group(sealed, key) {
        Ok(m) => Ok(m),
        Err(CryptoError::DecryptAuth) => Err(StoreKeyError::WrongPassphrase),
        Err(_) => Err(StoreKeyError::Corrupt),
    }
}

/// Whether a passphrase opens the vault's store: it is not empty, it
/// yields a key under the vault's salt, and that key opens the sealed store.
pub fn verify_passphrase(passphrase: &str, salt_b64: &str, sealed_store: &[u8]) -> (r: bool)
    ensures
        r == (passphrase@.len() > 0 && match argon2_key_of(encode_utf8(passphrase@), salt_b64@) {
            Some(k) => open_snapshot_spec(sealed_store@, k) is Ok,
            None => false,
        }),
{
    if passphrase.is_empty() {
        return false;
    }
    match derive_database_key(passphrase, salt_b64) {
        Ok(key) => open_snapshot(sealed_store, &key).is_ok(),
        Err(_) => false,
    }
}

} // verus!
