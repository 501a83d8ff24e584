//! Ephemeral session lifecycle: expiry boundary, key access, zeroization.

use mission_link::crypto::CryptoError;
use mission_link::session::EphemeralKeySession;

#[test]
fn test_session_expiry_boundary() {
    let s = EphemeralKeySession::new([1u8; 32], 5000, 1000);
    assert!(!s.is_expired(1000));
    assert!(!s.is_expired(6000));
    assert!(s.is_expired(6001));
    // A clock that runs backwards does not expire the key early.
    assert!(!s.is_expired(500));
}

#[test]
fn test_session_key_access_fails_after_expiry() {
    let mut s = EphemeralKeySession::new([2u8; 32], 5000, 0);
    let k = s.key(4000).unwrap();
    assert_eq!(k, [2u8; 32]);
    assert!(matches!(s.key(5001), Err(CryptoError::KeyExpired)));
}

#[test]
fn test_invalidate_zeroizes_and_expires() {
    let mut s = EphemeralKeySession::new([3u8; 32], 5000, 0);
    s.invalidate();
    assert!(s.is_expired(0));
    assert!(matches!(s.key(0), Err(CryptoError::KeyExpired)));
}
