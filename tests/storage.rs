use whisper::storage::{
    derive_database_key, fresh_store_salt, open_snapshot, seal_snapshot, verify_passphrase,
    StoreKeyError,
};

#[test]
fn derive_key_fails_with_empty_passphrase() {
    let salt = fresh_store_salt();
    let result = derive_database_key("", &salt);
    assert!(result.is_err());
    assert_eq!(result, Err(StoreKeyError::EmptyPassphrase));
}

#[test]
fn derive_key_uses_existing_salt() {
    let salt = fresh_store_salt();
    let key1 = derive_database_key("test_passphrase", &salt).unwrap();
    let key2 = derive_database_key("test_passphrase", &salt).unwrap();
    assert_eq!(key1, key2);
    assert_eq!(key1.len(), 32);
}

#[test]
fn derive_key_different_passphrases_different_keys() {
    let key1 = derive_database_key("passphrase1", &fresh_store_salt()).unwrap();
    let key2 = derive_database_key("passphrase2", &fresh_store_salt()).unwrap();
    assert_ne!(key1, key2);
}

#[test]
fn derive_key_rejects_bad_salt() {
    assert_eq!(derive_database_key("p", "!!"), Err(StoreKeyError::BadSalt));
}

#[test]
fn verify_passphrase_checks() {
    let salt = fresh_store_salt();
    let key = derive_database_key("p1", &salt).unwrap();
    let sealed = seal_snapshot(b"{}", &key).unwrap();
    assert!(!verify_passphrase("", &salt, &sealed));
    assert!(verify_passphrase("p1", &salt, &sealed));
    assert!(!verify_passphrase("p2", &salt, &sealed));
}

#[test]
fn wrong_passphrase_opens_nothing() {
    let salt = fresh_store_salt();
    let key = derive_database_key("p1", &salt).unwrap();
    let sealed = seal_snapshot(b"store contents", &key).unwrap();
    assert_eq!(open_snapshot(&sealed, &key).unwrap(), b"store contents".to_vec());
    let wrong = derive_database_key("p2", &salt).unwrap();
    assert_eq!(open_snapshot(&sealed, &wrong), Err(StoreKeyError::WrongPassphrase));
    assert_eq!(open_snapshot(b"short", &key), Err(StoreKeyError::Corrupt));
}
