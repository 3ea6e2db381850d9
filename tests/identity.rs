use base64::Engine;
use sodiumoxide::crypto::pwhash;
use whisper::identity::{
    export_public_key, generate_keypair, import_public_key, keypair_to_peer_id,
    node_id_from_public_key, open_keypair, open_keypair_with_key, seal_keypair, Keypair,
    VaultError,
};

#[test]
fn generate_keypair_works() {
    let kp = generate_keypair();
    let peer_id = keypair_to_peer_id(&kp);
    assert!(!peer_id.bytes.is_empty());
}

#[test]
fn save_load_roundtrip() {
    let sealed_keys = generate_keypair();
    let passphrase = "test-password-123";
    let file = seal_keypair(&sealed_keys, passphrase).unwrap();
    let loaded = open_keypair(&file, passphrase).unwrap();
    assert_eq!(keypair_to_peer_id(&sealed_keys), keypair_to_peer_id(&loaded));
    assert_eq!(sealed_keys.seed(), loaded.seed());
}

#[test]
fn wrong_passphrase_fails() {
    let sealed_keys = generate_keypair();
    let file = seal_keypair(&sealed_keys, "correct").unwrap();
    let result = open_keypair(&file, "wrong");
    assert!(result.is_err());
    assert!(matches!(result, Err(VaultError::WrongPassphrase)));
}

#[test]
fn identity_file_layout() {
    let kp = generate_keypair();
    let file = seal_keypair(&kp, "pass").unwrap();
    assert!(file.len() >= 32 + 24 + 1);
    let again = seal_keypair(&kp, "pass").unwrap();
    assert_ne!(file[..32], again[..32]);
}

#[test]
fn export_public_key_produces_base64() {
    let kp = generate_keypair();
    let exported = export_public_key(&kp);
    assert!(!exported.is_empty());
    assert!(base64::engine::general_purpose::STANDARD.decode(&exported).is_ok());
}

#[test]
fn export_import_roundtrip() {
    let kp = generate_keypair();
    let exported = export_public_key(&kp);
    let imported = import_public_key(&exported).unwrap();
    assert_eq!(kp.public_key(), imported);
    assert_eq!(node_id_from_public_key(&imported).unwrap(), keypair_to_peer_id(&kp));
}

#[test]
fn import_rejects_bad_input() {
    assert!(matches!(import_public_key("not base64!"), Err(VaultError::InvalidInput)));
    assert!(matches!(import_public_key("AAAA"), Err(VaultError::InvalidInput)));
}

#[test]
fn peer_id_consistent() {
    let kp = generate_keypair();
    assert_eq!(keypair_to_peer_id(&kp), keypair_to_peer_id(&kp));
}

#[test]
fn different_keypairs_different_ids() {
    let kp1 = generate_keypair();
    let kp2 = generate_keypair();
    assert_ne!(keypair_to_peer_id(&kp1), keypair_to_peer_id(&kp2));
}

#[test]
fn empty_passphrase_works() {
    let sealed_keys = generate_keypair();
    let file = seal_keypair(&sealed_keys, "").unwrap();
    let loaded = open_keypair(&file, "").unwrap();
    assert_eq!(keypair_to_peer_id(&sealed_keys), keypair_to_peer_id(&loaded));
}

#[test]
fn invalid_file_rejected() {
    let result = open_keypair(b"too short", "pass");
    assert!(result.is_err());
    assert!(matches!(result, Err(VaultError::InvalidInput)));
}

#[test]
fn seed_of_wrong_length_is_refused() {
    assert!(Keypair::from_seed(&[7u8; 31]).is_none());
    let kp = Keypair::from_seed(&[7u8; 32]).unwrap();
    assert_eq!(kp.seed(), vec![7u8; 32]);
}

#[test]
fn open_with_derived_key() {
    let kp = generate_keypair();
    let file = seal_keypair(&kp, "pw").unwrap();
    let salt = pwhash::Salt::from_slice(&file[..32]).unwrap();
    let mut key = [0u8; 32];
    pwhash::derive_key(&mut key, b"pw", &salt, pwhash::OPSLIMIT_INTERACTIVE, pwhash::MEMLIMIT_INTERACTIVE).unwrap();
    let opened = open_keypair_with_key(&file, &key.to_vec()).unwrap();
    assert_eq!(opened.seed(), kp.seed());
    assert!(matches!(open_keypair_with_key(&file, &vec![0u8; 32]), Err(VaultError::WrongPassphrase)));
    assert!(matches!(open_keypair_with_key(&file[..40], &key.to_vec()), Err(VaultError::InvalidInput)));
}
