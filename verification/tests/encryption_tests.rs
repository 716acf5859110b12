use sha2::Digest;
use gitka::config::{Config, EncryptionConfig};
use gitka::encryption::{
    decrypt_data, derive_key, encrypt_data, generate_salt, is_encrypted, seal_with_nonce,
    EncryptionHeader,
};
use gitka::error::GitkaError;

#[test]
fn test_encrypt_decrypt_roundtrip() {
    let test_data = b"Hello, World! This is a test file.";
    let key = [7u8; 32];

    let encrypted = encrypt_data(test_data, &key).unwrap();
    assert!(is_encrypted(&encrypted));

    let decrypted = decrypt_data(&encrypted, &key).unwrap();
    assert_eq!(decrypted, test_data);
}

#[test]
fn header_roundtrip_and_errors() {
    let h = EncryptionHeader::with_nonce([5u8; 12]);
    let bytes = h.to_bytes();
    assert_eq!(bytes.len(), 18);
    assert_eq!(&bytes[0..5], b"GKENC");
    let back = EncryptionHeader::from_bytes(&bytes).unwrap();
    assert_eq!(back.nonce, [5u8; 12]);
    match EncryptionHeader::from_bytes(&bytes[..17]) {
        Err(GitkaError::Config(m)) => assert_eq!(m, "Header too short"),
        _ => panic!("expected too short"),
    }
    let mut bad = bytes.clone();
    bad[0] = b'X';
    match EncryptionHeader::from_bytes(&bad) {
        Err(GitkaError::Config(m)) => assert_eq!(m, "Invalid encryption header magic"),
        _ => panic!("expected bad magic"),
    }
    let mut v2 = bytes.clone();
    v2[5] = 2;
    match EncryptionHeader::from_bytes(&v2) {
        Err(GitkaError::Config(m)) => assert_eq!(m, "Unsupported encryption version: 2"),
        _ => panic!("expected bad version"),
    }
}

#[test]
fn wrong_key_and_short_input() {
    let sealed = seal_with_nonce(b"data", &[1u8; 32], [0u8; 12]).unwrap();
    assert_eq!(sealed.len(), 18 + 4 + 16);
    match decrypt_data(&sealed, &[2u8; 32]) {
        Err(GitkaError::Config(m)) => assert_eq!(m, "Decryption failed (wrong key?)"),
        _ => panic!("expected failure"),
    }
    match decrypt_data(b"short", &[2u8; 32]) {
        Err(GitkaError::Config(m)) => assert_eq!(m, "File too small for encryption header"),
        _ => panic!("expected failure"),
    }
    assert!(!is_encrypted(b"GKENC"));
}

#[test]
fn key_derivation_depends_on_inputs() {
    let k1 = derive_key("secret", &[1u8; 16]);
    let k2 = derive_key("secret", &[1u8; 16]);
    let k3 = derive_key("secret", &[2u8; 16]);
    let k4 = derive_key("other", &[1u8; 16]);
    assert_eq!(k1, k2);
    assert_ne!(k1, k3);
    assert_ne!(k1, k4);
}

#[test]
fn key_derivation_chains_the_rounds() {
    let mut key: Vec<u8> = Vec::new();
    for i in 0u32..10000 {
        let mut input = key.clone();
        input.extend_from_slice(b"pw");
        input.extend_from_slice(&[9u8; 16]);
        input.extend_from_slice(&i.to_le_bytes());
        key = sha2::Sha256::digest(&input).to_vec();
    }
    let expected: [u8; 32] = key.as_slice().try_into().unwrap();
    assert_eq!(derive_key("pw", &[9u8; 16]), expected);
    let mut last = b"pw".to_vec();
    last.extend_from_slice(&[9u8; 16]);
    last.extend_from_slice(&9999u32.to_le_bytes());
    let unchained: [u8; 32] = sha2::Sha256::digest(&last).into();
    assert_ne!(derive_key("pw", &[9u8; 16]), unchained);
}

#[test]
fn config_key_needs_toggle_password_and_salt() {
    let mut config = Config::default();
    assert!(config.get_encryption_key().is_none());
    config.toggles.encryption = true;
    config.encryption = Some(EncryptionConfig {
        password: Some("pw".to_string()),
        salt: Some("0102030405060708090a0b0c0d0e0f10".to_string()),
    });
    let salt: Vec<u8> = (1u8..=16).collect();
    assert_eq!(config.get_encryption_key().unwrap(), derive_key("pw", &salt));
    config.encryption = Some(EncryptionConfig {
        password: Some("pw".to_string()),
        salt: Some("0102".to_string()),
    });
    assert!(config.get_encryption_key().is_none());
    config.encryption = Some(EncryptionConfig {
        password: Some("pw".to_string()),
        salt: Some("zz02030405060708090a0b0c0d0e0f10".to_string()),
    });
    assert!(config.get_encryption_key().is_none());
}

#[test]
fn salt_is_persisted_once() {
    let mut config = Config::default();
    config.ensure_encryption_salt().unwrap();
    assert!(config.encryption.is_none());
    config.toggles.encryption = true;
    config.ensure_encryption_salt_with(&[0xABu8; 16]);
    let salt = config.encryption.as_ref().unwrap().salt.clone().unwrap();
    assert_eq!(salt, "ab".repeat(16));
    config.ensure_encryption_salt().unwrap();
    assert_eq!(config.encryption.as_ref().unwrap().salt.clone().unwrap(), salt);
    assert_eq!(generate_salt().unwrap().len(), 16);
}
