use std::collections::HashSet;

use pwdmgr::codec::{parse_store, serialize_store};
use pwdmgr::crypto::{generate_salt, CryptoError, CryptoManager, NONCE_LEN, SALT_LEN, TAG_LEN};
use pwdmgr::models::{PasswordEntry, PasswordStore};
use pwdmgr::storage::{Storage, StorageError};

fn test_manager(password: &str) -> CryptoManager {
    let salt = [7u8; 16];
    CryptoManager::new(password, &salt).unwrap()
}

fn sample_entry() -> PasswordEntry {
    PasswordEntry {
        id: 1,
        label: String::from("email"),
        username: String::from("a@b.com"),
        secret: String::from("xyz"),
        metadata: String::from(""),
    }
}

#[test]
fn test_encrypt_decrypt_roundtrip() {
    let cm = test_manager("correct horse battery staple");
    let blob = cm.encrypt("hello world").unwrap();
    assert_eq!(cm.decrypt(&blob).unwrap(), "hello world");
}

#[test]
fn test_roundtrip_empty_and_unicode() {
    let cm = test_manager("pw");
    let blob = cm.encrypt("").unwrap();
    assert_eq!(blob.len(), NONCE_LEN + TAG_LEN);
    assert_eq!(cm.decrypt(&blob).unwrap(), "");
    let text = "caf\u{e9} \u{1F512} secret";
    let blob2 = cm.encrypt(text).unwrap();
    assert_eq!(cm.decrypt(&blob2).unwrap(), text);
}

#[test]
fn test_tamper_detection() {
    let cm = test_manager("master");
    let blob = cm.encrypt("attack at dawn").unwrap();
    for byte in 0..blob.len() {
        for bit in 0..8 {
            let mut tampered = blob.clone();
            tampered[byte] ^= 1 << bit;
            assert_eq!(cm.decrypt(&tampered), Err(CryptoError::DecryptionFailed));
        }
    }
}

#[test]
fn test_nonce_uniqueness() {
    let cm = test_manager("master");
    let mut nonces: HashSet<Vec<u8>> = HashSet::new();
    for _ in 0..10_000 {
        let blob = cm.encrypt("xyz").unwrap();
        nonces.insert(blob[..NONCE_LEN].to_vec());
    }
    assert_eq!(nonces.len(), 10_000);
}

#[test]
fn test_cross_key_rejection() {
    let cm1 = test_manager("first password");
    let cm2 = test_manager("second password");
    let blob = cm1.encrypt("secret data").unwrap();
    assert_eq!(cm2.decrypt(&blob), Err(CryptoError::DecryptionFailed));
}

#[test]
fn test_salt_changes_key() {
    let salt_a = [1u8; 16];
    let salt_b = [2u8; 16];
    let cm_a = CryptoManager::new("same password", &salt_a).unwrap();
    let cm_b = CryptoManager::new("same password", &salt_b).unwrap();
    let blob = cm_a.encrypt("payload").unwrap();
    assert_eq!(cm_b.decrypt(&blob), Err(CryptoError::DecryptionFailed));
}

#[test]
fn test_truncated_input() {
    let cm = test_manager("master");
    let blob = cm.encrypt("some text").unwrap();
    for len in 0..(NONCE_LEN + TAG_LEN) {
        let short = &blob[..len];
        assert_eq!(cm.decrypt(short), Err(CryptoError::MalformedCiphertext));
    }
}

#[test]
fn test_bad_salt_length_is_key_derivation_failure() {
    let salt = [0u8; 3];
    match CryptoManager::new("pw", &salt) {
        Err(CryptoError::KeyDerivationFailure) => {}
        _ => panic!("expected KeyDerivationFailure"),
    }
}

#[test]
fn test_generate_salt_length() {
    let salt = generate_salt();
    assert_eq!(salt.len(), SALT_LEN);
}

#[test]
fn test_error_messages() {
    assert_eq!(CryptoError::DecryptionFailed.message(), "incorrect master password");
    assert_eq!(CryptoError::MalformedCiphertext.message(), "invalid ciphertext");
    assert_eq!(
        StorageError::IoError(String::from("broken pipe")).message(),
        "I/O error: broken pipe"
    );
}

#[test]
fn test_missing_file_load() {
    let storage = Storage { crypto: test_manager("master") };
    let store = storage.load(None).unwrap();
    assert_eq!(store.entries.len(), 0);
}

#[test]
fn test_save_load_idempotence() {
    let storage = Storage { crypto: test_manager("master") };
    let mut store = PasswordStore::new();
    store.add(sample_entry());
    store.add(PasswordEntry {
        id: 2,
        label: String::from("ba\"nk\\"),
        username: String::from("user two"),
        secret: String::from("p\u{e9}p\u{e9}"),
        metadata: String::from("note"),
    });
    let blob = storage.save(&store).unwrap();
    let loaded = storage.load(Some(&blob)).unwrap();
    assert_eq!(loaded.entries.len(), 2);
    for (a, b) in loaded.entries.iter().zip(store.entries.iter()) {
        assert_eq!(a.id, b.id);
        assert_eq!(a.label, b.label);
        assert_eq!(a.username, b.username);
        assert_eq!(a.secret, b.secret);
        assert_eq!(a.metadata, b.metadata);
    }
}

#[test]
fn test_single_entry_scenario() {
    let storage = Storage { crypto: test_manager("master") };
    let mut store = PasswordStore::new();
    store.add(sample_entry());
    let json = serialize_store(&store);
    let expected =
        "{\"entries\":[{\"id\":1,\"label\":\"email\",\"username\":\"a@b.com\",\"secret\":\"xyz\",\"metadata\":\"\"}]}";
    assert_eq!(json, expected);
    let blob = storage.save(&store).unwrap();
    assert_eq!(blob.len(), 12 + 16 + expected.len());
    let loaded = storage.load(Some(&blob)).unwrap();
    assert_eq!(loaded.entries.len(), 1);
    assert_eq!(loaded.entries[0].id, 1);
    assert_eq!(loaded.entries[0].label, "email");
    assert_eq!(loaded.entries[0].username, "a@b.com");
    assert_eq!(loaded.entries[0].secret, "xyz");
    assert_eq!(loaded.entries[0].metadata, "");
}

#[test]
fn test_wrong_password_load() {
    let storage = Storage { crypto: test_manager("right password") };
    let mut store = PasswordStore::new();
    store.add(sample_entry());
    let blob = storage.save(&store).unwrap();
    let other = Storage { crypto: test_manager("wrong password") };
    match other.load(Some(&blob)) {
        Err(StorageError::CryptoError(msg)) => assert_eq!(msg, "incorrect master password"),
        _ => panic!("expected a crypto failure"),
    }
}

#[test]
fn test_undecodable_content_load() {
    let cm = test_manager("master");
    let blob = cm.encrypt("this is not a store").unwrap();
    let storage = Storage { crypto: test_manager("master") };
    match storage.load(Some(&blob)) {
        Err(StorageError::SerdeError(msg)) => assert_eq!(msg, "invalid store content"),
        _ => panic!("expected a serialization failure"),
    }
}

#[test]
fn test_codec_roundtrip_direct() {
    let mut store = PasswordStore::new();
    store.add(PasswordEntry {
        id: 4294967295,
        label: String::from("quote \" and backslash \\"),
        username: String::from(""),
        secret: String::from("s"),
        metadata: String::from("m"),
    });
    let json = serialize_store(&store);
    let parsed = parse_store(&json).unwrap();
    assert_eq!(parsed.entries.len(), 1);
    assert_eq!(parsed.entries[0].id, 4294967295);
    assert_eq!(parsed.entries[0].label, "quote \" and backslash \\");
    assert_eq!(parsed.entries[0].username, "");
}

#[test]
fn test_codec_output_is_json() {
    let mut store = PasswordStore::new();
    store.add(sample_entry());
    let json = serialize_store(&store);
    let value: serde_json::Value = serde_json::from_str(&json).unwrap();
    assert_eq!(value["entries"][0]["label"], serde_json::Value::String(String::from("email")));
}

#[test]
fn test_parse_store_rejects_garbage() {
    assert!(parse_store("not json at all").is_none());
    assert!(parse_store("{\"entries\":[}").is_none());
    assert!(parse_store("{\"entries\":[]} trailing").is_none());
}

#[test]
fn test_collection_operations() {
    let mut store = PasswordStore::new();
    store.add(sample_entry());
    store.add(PasswordEntry {
        id: 2,
        label: String::from("b"),
        username: String::from("u"),
        secret: String::from("s"),
        metadata: String::from(""),
    });
    assert_eq!(store.len(), 2);
    assert_eq!(store.find(2).unwrap().label, "b");
    assert!(store.find(9).is_none());
    store.remove(1);
    assert_eq!(store.len(), 1);
    assert!(store.find(1).is_none());
}

#[test]
fn test_generate_password() {
    let storage = Storage { crypto: test_manager("master") };
    let charset = "AZERTYUIOPQSDFGHJKLMWXCVBNazertyuiopmlkjhgfdsqwxcvbn1234567890_!$()&-/:*%.;,?^+=}]@`|[{#~";
    let pw = storage.generate_password(24);
    assert_eq!(pw.chars().count(), 24);
    for c in pw.chars() {
        assert!(charset.contains(c));
    }
    assert_eq!(storage.generate_password(0), "");
}
