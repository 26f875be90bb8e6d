use eco_sync::encryption::EncryptionManager;
use eco_sync::error::Error;
use eco_sync::models::ClipboardPayload;

fn sample_payload() -> ClipboardPayload {
    ClipboardPayload {
        kind: "text".to_string(),
        group: Some("notes".to_string()),
        subtype: None,
        count: 3,
        value: "hello clipboard".to_string(),
        search: "hello".to_string(),
        width: None,
        height: Some(480),
        timestamp: "2024-05-01T10:00:00+00:00".to_string(),
    }
}

fn manager_with_master() -> EncryptionManager {
    let mut m = EncryptionManager::new();
    m.initialize_master_key("correct horse battery staple", "pepper").unwrap();
    m
}

#[test]
fn encrypt_decrypt_roundtrip() {
    let m = manager_with_master();
    let payload = sample_payload();
    let envelope = m.encrypt_clipboard_data(&payload).unwrap();
    assert_eq!(envelope.key_id, "master");
    assert_eq!(envelope.algorithm, "AES-256-GCM");
    let back = m.decrypt_clipboard_data(&envelope).unwrap();
    assert_eq!(back.kind, payload.kind);
    assert_eq!(back.group, payload.group);
    assert_eq!(back.subtype, payload.subtype);
    assert_eq!(back.count, payload.count);
    assert_eq!(back.value, payload.value);
    assert_eq!(back.search, payload.search);
    assert_eq!(back.width, payload.width);
    assert_eq!(back.height, payload.height);
    assert_eq!(back.timestamp, payload.timestamp);
}

#[test]
fn decrypt_with_other_key_fails() {
    let m = manager_with_master();
    let envelope = m.encrypt_clipboard_data(&sample_payload()).unwrap();
    // a manager whose master key derives from a different password
    let mut other = EncryptionManager::new();
    other.initialize_master_key("a completely different secret", "pepper").unwrap();
    let r = other.decrypt_clipboard_data(&envelope);
    assert!(matches!(r, Err(Error::DecryptionFailed(_))));
}

#[test]
fn decrypt_after_key_replacement_fails() {
    let mut m = manager_with_master();
    let envelope = m.encrypt_clipboard_data(&sample_payload()).unwrap();
    // replacing the master key makes old ciphertexts unreadable, by design
    m.initialize_master_key("rotated secret", "pepper").unwrap();
    let r = m.decrypt_clipboard_data(&envelope);
    assert!(matches!(r, Err(Error::DecryptionFailed(_))));
}

#[test]
fn tampered_ciphertext_fails_authentication() {
    let m = manager_with_master();
    let mut envelope = m.encrypt_clipboard_data(&sample_payload()).unwrap();
    // flip the first character of the base64 ciphertext
    let mut chars: Vec<char> = envelope.data.chars().collect();
    chars[0] = if chars[0] == 'A' { 'B' } else { 'A' };
    envelope.data = chars.into_iter().collect();
    let r = m.decrypt_clipboard_data(&envelope);
    assert!(matches!(r, Err(Error::DecryptionFailed(_))));
}

#[test]
fn encrypt_without_master_key_fails() {
    let m = EncryptionManager::new();
    let r = m.encrypt_clipboard_data(&sample_payload());
    assert!(matches!(r, Err(Error::EncryptionFailed(_))));
}

#[test]
fn unknown_key_id_fails_decryption() {
    let m = manager_with_master();
    let mut envelope = m.encrypt_clipboard_data(&sample_payload()).unwrap();
    envelope.key_id = "device_phantom".to_string();
    let r = m.decrypt_clipboard_data(&envelope);
    assert!(matches!(r, Err(Error::DecryptionFailed(_))));
}

#[test]
fn string_roundtrip_and_short_ciphertext_rejected() {
    let m = manager_with_master();
    let blob = m.encrypt_string("session token").unwrap();
    assert_eq!(m.decrypt_string(&blob).unwrap(), "session token");
    // base64 of fewer than 12 bytes: rejected before any cipher work
    let short = eco_sync::crypto::b64_encode(&[1u8, 2, 3, 4, 5]);
    let r = m.decrypt_string(&short);
    assert!(matches!(r, Err(Error::DecryptionFailed(_))));
}

#[test]
fn config_roundtrip() {
    let m = manager_with_master();
    let mut config = eco_sync::models::SyncConfig::default();
    config.auto_sync = false;
    config.max_image_size = 17;
    config.exclude_devices = vec!["laptop".to_string()];
    let envelope = m.encrypt_config(&config).unwrap();
    let back = m.decrypt_config(&envelope).unwrap();
    assert!(back.enabled);
    assert!(!back.auto_sync);
    assert_eq!(back.sync_types, vec!["text", "image", "files"]);
    assert_eq!(back.exclude_devices, vec!["laptop"]);
    assert_eq!(back.max_image_size, 17);
    assert_eq!(back.compression_quality, 80);
}

#[test]
fn derive_is_deterministic_and_password_sensitive() {
    let m = EncryptionManager::new();
    let a = m.derive_key_from_password("pw", "salt");
    let b = m.derive_key_from_password("pw", "salt");
    let c = m.derive_key_from_password("pw2", "salt");
    assert_eq!(a.len(), 32);
    assert_eq!(a, b);
    assert_ne!(a, c);
}

#[test]
fn hash_matches_known_sha256_vector() {
    let m = EncryptionManager::new();
    // SHA-256 of the empty input, base64-encoded
    assert_eq!(m.generate_hash(&[]), "47DEQpj8HBSa+/TImW+5JCeuQeRkm5NMpJWZG3hSuFU=");
    assert!(m.verify_integrity(&[], "47DEQpj8HBSa+/TImW+5JCeuQeRkm5NMpJWZG3hSuFU="));
    assert!(!m.verify_integrity(b"x", "47DEQpj8HBSa+/TImW+5JCeuQeRkm5NMpJWZG3hSuFU="));
}

#[test]
fn export_import_restores_device_key() {
    let mut m = manager_with_master();
    m.generate_device_key("tablet").unwrap();
    let exported = m.export_key("device_tablet").unwrap();
    let mut fresh = EncryptionManager::new();
    fresh.import_key(&exported).unwrap();
    let key = fresh.get_key_by_id("device_tablet").expect("imported key present");
    assert_eq!(key.key_id, "device_tablet");
    assert_eq!(key.key_data.len(), 32);
}

#[test]
fn export_unknown_key_fails() {
    let m = manager_with_master();
    let r = m.export_key("device_nope");
    assert!(matches!(r, Err(Error::Unknown(_))));
}

#[test]
fn import_garbage_fails() {
    let mut m = EncryptionManager::new();
    assert!(matches!(m.import_key("%%% not base64 %%%"), Err(Error::Unknown(_))));
    let bytes = eco_sync::crypto::b64_encode(&[9u8; 4]);
    assert!(matches!(m.import_key(&bytes), Err(Error::Unknown(_))));
}

#[test]
fn rotation_replaces_device_key() {
    let mut m = manager_with_master();
    m.generate_device_key("phone").unwrap();
    let before = m.export_key("device_phone").unwrap();
    m.rotate_device_key("phone").unwrap();
    let after = m.export_key("device_phone").unwrap();
    assert_ne!(before, after);
}

#[test]
fn clear_keys_drops_everything() {
    let mut m = manager_with_master();
    m.generate_device_key("phone").unwrap();
    m.clear_keys();
    assert!(m.get_key_by_id("master").is_none());
    assert!(m.get_key_by_id("device_phone").is_none());
    assert!(matches!(m.get_encryption_key(), Err(Error::EncryptionFailed(_))));
}

#[test]
fn payload_codec_roundtrip() {
    let payload = sample_payload();
    let bytes = eco_sync::codec::encode_payload(&payload).unwrap();
    let back = eco_sync::codec::decode_payload(&bytes).unwrap();
    assert_eq!(back.value, payload.value);
    assert_eq!(back.height, payload.height);
    // trailing garbage is rejected: the whole buffer must be consumed
    let mut longer = bytes.clone();
    longer.push(0);
    assert!(eco_sync::codec::decode_payload(&longer).is_none());
}
