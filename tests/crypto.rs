use sodiumoxide::crypto::box_;
use whisper::crypto::{
    decrypt_from_group, decrypt_message, derive_shared_secret, ed25519_pk_to_x25519,
    encrypt_for_group, encrypt_message, generate_group_key, keypair_to_encryption_keys,
    public_key_from_bytes, public_key_to_bytes, secret_key_from_bytes, secret_key_to_bytes,
    CryptoError,
};
use whisper::identity::generate_keypair;

fn init() {
    let _ = sodiumoxide::init();
}

fn keypair() -> (Vec<u8>, Vec<u8>) {
    let (pk, sk) = box_::gen_keypair();
    (pk.0.to_vec(), sk.0.to_vec())
}

#[test]
fn encrypt_decrypt_roundtrip() {
    init();
    let (pk, sk) = keypair();
    let plaintext = b"Hello, World!";
    let ciphertext = encrypt_message(plaintext, &pk).unwrap();
    let decrypted = decrypt_message(&ciphertext, &pk, &sk).unwrap();
    assert_eq!(plaintext.to_vec(), decrypted);
}

#[test]
fn wrong_key_fails_decryption() {
    init();
    let (pk1, _sk1) = keypair();
    let (pk2, sk2) = keypair();
    let ciphertext = encrypt_message(b"Secret message", &pk1).unwrap();
    let result = decrypt_message(&ciphertext, &pk2, &sk2);
    assert!(result.is_err());
    assert_eq!(result, Err(CryptoError::DecryptAuth));
}

#[test]
fn empty_message_works() {
    init();
    let (pk, sk) = keypair();
    let plaintext = b"";
    let ciphertext = encrypt_message(plaintext, &pk).unwrap();
    let decrypted = decrypt_message(&ciphertext, &pk, &sk).unwrap();
    assert_eq!(plaintext.to_vec(), decrypted);
}

#[test]
fn large_message_works() {
    init();
    let (pk, sk) = keypair();
    let plaintext: Vec<u8> = (0..10000).map(|i| (i % 256) as u8).collect();
    let ciphertext = encrypt_message(&plaintext, &pk).unwrap();
    let decrypted = decrypt_message(&ciphertext, &pk, &sk).unwrap();
    assert_eq!(plaintext, decrypted);
}

#[test]
fn group_encrypt_decrypt_roundtrip() {
    init();
    let group_key = generate_group_key();
    let plaintext = b"Group message";
    let ciphertext = encrypt_for_group(plaintext, &group_key).unwrap();
    let decrypted = decrypt_from_group(&ciphertext, &group_key).unwrap();
    assert_eq!(plaintext.to_vec(), decrypted);
}

#[test]
fn group_wrong_key_fails() {
    init();
    let key1 = generate_group_key();
    let key2 = generate_group_key();
    let ciphertext = encrypt_for_group(b"Secret group message", &key1).unwrap();
    let result = decrypt_from_group(&ciphertext, &key2);
    assert!(result.is_err());
}

#[test]
fn ciphertext_is_different_each_time() {
    init();
    let (pk, _sk) = keypair();
    let ct1 = encrypt_message(b"Same message", &pk).unwrap();
    let ct2 = encrypt_message(b"Same message", &pk).unwrap();
    assert_ne!(ct1, ct2);
}

#[test]
fn group_ciphertext_is_different_each_time() {
    init();
    let group_key = generate_group_key();
    let ct1 = encrypt_for_group(b"Same group message", &group_key).unwrap();
    let ct2 = encrypt_for_group(b"Same group message", &group_key).unwrap();
    assert_ne!(ct1, ct2);
}

#[test]
fn generate_group_key_correct_length() {
    init();
    let key = generate_group_key();
    assert_eq!(key.len(), 32);
}

#[test]
fn invalid_group_key_rejected() {
    init();
    let bad_key = vec![0u8; 16];
    let result = encrypt_for_group(b"Test", &bad_key);
    assert!(result.is_err());
    assert_eq!(result, Err(CryptoError::BadKey));
}

#[test]
fn truncated_ciphertext_rejected() {
    init();
    let group_key = generate_group_key();
    let short_ciphertext = vec![0u8; 10];
    let result = decrypt_from_group(&short_ciphertext, &group_key);
    assert!(result.is_err());
    assert_eq!(result, Err(CryptoError::TooShort));
}

#[test]
fn corrupted_ciphertext_rejected() {
    init();
    let group_key = generate_group_key();
    let mut ciphertext = encrypt_for_group(b"Test message", &group_key).unwrap();
    if let Some(byte) = ciphertext.last_mut() {
        *byte ^= 0xFF;
    }
    let result = decrypt_from_group(&ciphertext, &group_key);
    assert!(result.is_err());
    assert_eq!(result, Err(CryptoError::DecryptAuth));
}

#[test]
fn group_decrypt_wrong_key_length_is_bad_key() {
    init();
    let ciphertext = vec![0u8; 60];
    assert_eq!(decrypt_from_group(&ciphertext, &vec![1u8; 31]), Err(CryptoError::BadKey));
}

#[test]
fn group_empty_plaintext_round_trip() {
    init();
    let key = generate_group_key();
    let ciphertext = encrypt_for_group(b"", &key).unwrap();
    assert_eq!(ciphertext.len(), 40);
    assert_eq!(decrypt_from_group(&ciphertext, &key).unwrap(), Vec::<u8>::new());
}

#[test]
fn shared_secret_is_symmetric() {
    init();
    let (pk_a, sk_a) = keypair();
    let (pk_b, sk_b) = keypair();
    let secret_ab = derive_shared_secret(&sk_a, &pk_b).unwrap();
    let secret_ba = derive_shared_secret(&sk_b, &pk_a).unwrap();
    assert_eq!(secret_ab, secret_ba);
}

#[test]
fn different_keys_give_different_secrets() {
    init();
    let (_pk_a, sk_a) = keypair();
    let (pk_b, _sk_b) = keypair();
    let (pk_c, _sk_c) = keypair();
    let secret_ab = derive_shared_secret(&sk_a, &pk_b).unwrap();
    let secret_ac = derive_shared_secret(&sk_a, &pk_c).unwrap();
    assert_ne!(secret_ab, secret_ac);
}

#[test]
fn public_key_serialization_roundtrip() {
    init();
    let (pk, _sk) = keypair();
    let bytes = public_key_to_bytes(&pk);
    let recovered = public_key_from_bytes(&bytes).unwrap();
    assert_eq!(pk, recovered);
}

#[test]
fn secret_key_serialization_roundtrip() {
    init();
    let (_pk, sk) = keypair();
    let bytes = secret_key_to_bytes(&sk);
    let recovered = secret_key_from_bytes(&bytes).unwrap();
    assert_eq!(sk, recovered);
}

#[test]
fn invalid_public_key_bytes_rejected() {
    init();
    let result = public_key_from_bytes(&vec![0u8; 16]);
    assert!(result.is_err());
}

#[test]
fn invalid_secret_key_bytes_rejected() {
    init();
    let result = secret_key_from_bytes(&vec![0u8; 16]);
    assert!(result.is_err());
}

#[test]
fn empty_bytes_rejected() {
    init();
    assert!(public_key_from_bytes(&[]).is_err());
    assert!(secret_key_from_bytes(&[]).is_err());
}

#[test]
fn shared_secret_has_correct_length() {
    init();
    let (_pk_a, sk_a) = keypair();
    let (pk_b, _sk_b) = keypair();
    let secret = derive_shared_secret(&sk_a, &pk_b).unwrap();
    assert_eq!(secret.len(), 32);
}

#[test]
fn derived_key_matches_key_from_published_signing_key() {
    init();
    let kp = generate_keypair();
    let (enc_pk, enc_sk) = keypair_to_encryption_keys(&kp.seed()).unwrap();
    let from_public = ed25519_pk_to_x25519(&kp.public_key()).unwrap();
    assert_eq!(enc_pk, from_public);
    let ciphertext = encrypt_message(b"for you", &from_public).unwrap();
    assert_eq!(decrypt_message(&ciphertext, &enc_pk, &enc_sk).unwrap(), b"for you".to_vec());
}

#[test]
fn derived_secret_is_clamped() {
    init();
    let kp = generate_keypair();
    let (_pk, sk) = keypair_to_encryption_keys(&kp.seed()).unwrap();
    assert_eq!(sk.len(), 32);
    assert_eq!(sk[0] & 7, 0);
    assert_eq!(sk[31] & 128, 0);
    assert_eq!(sk[31] & 64, 64);
}

#[test]
fn derivation_rejects_short_seed() {
    assert_eq!(keypair_to_encryption_keys(&vec![1u8; 31]), Err(CryptoError::BadKey));
}

#[test]
fn ed25519_map_rejects_wrong_length() {
    assert_eq!(ed25519_pk_to_x25519(&vec![1u8; 16]), Err(CryptoError::BadKey));
}
