//! Primitive-level behavior: AEAD round trips, digests against known
//! vectors, HMAC and signature verification, constant-time equality.

use mission_link::crypto::{
    compute_hmac, constant_time_eq, decrypt_data, encrypt_data, generate_device_fingerprint,
    verify_hmac, CryptoEngine, CryptoError,
};

fn hex(bytes: &[u8]) -> String {
    let mut s = String::new();
    for b in bytes {
        s.push_str(&format!("{:02x}", b));
    }
    s
}

#[test]
fn test_aead_seal_open_round_trip() {
    let key = [7u8; 32];
    let message = b"mission payload bytes".to_vec();
    let blob = encrypt_data(&key, &message).unwrap();
    assert_eq!(blob.len(), message.len() + 28);
    let opened = decrypt_data(&key, &blob).unwrap();
    assert_eq!(opened, message);
}

#[test]
fn test_aead_open_rejects_wrong_key() {
    let key = [7u8; 32];
    let other = [8u8; 32];
    let blob = encrypt_data(&key, b"secret").unwrap();
    assert!(decrypt_data(&other, &blob).is_err());
}

#[test]
fn test_aead_open_rejects_tampering() {
    let key = [9u8; 32];
    let mut blob = encrypt_data(&key, b"untouchable").unwrap();
    let last = blob.len() - 1;
    blob[last] ^= 0x01;
    assert!(decrypt_data(&key, &blob).is_err());
    assert!(matches!(decrypt_data(&key, &[0u8; 5]), Err(CryptoError::AeadError)));
}

#[test]
fn test_aead_nonces_differ_between_seals() {
    let key = [3u8; 32];
    let a = encrypt_data(&key, b"same message").unwrap();
    let b = encrypt_data(&key, b"same message").unwrap();
    assert_ne!(a[..12], b[..12]);
}

#[test]
fn test_fingerprint_known_vectors() {
    let empty = generate_device_fingerprint(b"");
    assert_eq!(
        hex(&empty),
        "e3b0c44298fc1c149afbf4c8996fb92427ae41e4649b934ca495991b7852b855"
    );
    let abc = generate_device_fingerprint(b"abc");
    assert_eq!(
        hex(&abc),
        "ba7816bf8f01cfea414140de5dae2223b00361a396177a9cb410ff61f20015ad"
    );
}

#[test]
fn test_hmac_known_vector() {
    // RFC 4231 test case 1.
    let key = [0x0bu8; 20];
    let tag = compute_hmac(&key, b"Hi There");
    assert_eq!(
        hex(&tag),
        "b0344c61d8db38535ca8afceaf0bf12b881dc200c9833da726e9376c2e32cff7"
    );
    assert!(verify_hmac(&key, b"Hi There", &tag).is_ok());
    assert!(verify_hmac(&key, b"Hi There!", &tag).is_err());
}

#[test]
fn test_constant_time_eq_semantics() {
    assert!(constant_time_eq(b"", b""));
    assert!(constant_time_eq(b"abc", b"abc"));
    assert!(!constant_time_eq(b"abc", b"abd"));
    assert!(!constant_time_eq(b"abc", b"abcd"));
    assert!(!constant_time_eq(b"abc", b""));
}

#[test]
fn test_sign_and_verify_detached() {
    let engine = CryptoEngine::new();
    let data = b"audit entry bytes";
    let sig = engine.sign_log_entry(data);
    assert_eq!(sig.len(), 64);
    let vk = *engine.ed25519_public_key();
    assert!(CryptoEngine::verify_log_signature(&vk, data, &sig).is_ok());
    assert!(CryptoEngine::verify_log_signature(&vk, b"different bytes", &sig).is_err());
    let mut bad = sig.clone();
    bad[0] ^= 1;
    assert!(CryptoEngine::verify_log_signature(&vk, data, &bad).is_err());
}

#[test]
fn test_key_agreement_matches_between_parties() {
    let mut a = CryptoEngine::new();
    let mut b = CryptoEngine::new();
    let a_pub = *a.ecdh_public_key();
    let b_pub = *b.ecdh_public_key();
    let a_shared = a.derive_shared_secret(&b_pub);
    let b_shared = b.derive_shared_secret(&a_pub);
    assert_eq!(a_shared, b_shared);
    // Both sides rotated their pairs: a new agreement uses new keys.
    assert_ne!(*a.ecdh_public_key(), a_pub);
}
