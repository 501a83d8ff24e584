//! PIN gate, rate limiting with exponential backoff, scope grants and the
//! multi-factor predicate.

use mission_link::authz::{MFAAuthentication, SecurityError, SecurityManager};
use mission_link::mission::AuthorizationScope;

fn fresh_mfa(now: u64) -> MFAAuthentication {
    MFAAuthentication {
        pin_verified: false,
        biometric_verified: false,
        laser_channel_verified: true,
        ultrasound_channel_verified: true,
        cross_channel_binding_verified: true,
        last_verification: now,
    }
}

#[test]
fn test_pin_validate_accepts_and_rejects() {
    let mut sec = SecurityManager::new();
    sec.register_operator(b"operator-1", b"1234");
    assert!(sec.validate_pin(b"operator-1", b"1234", 1000).is_ok());
    assert!(matches!(
        sec.validate_pin(b"operator-1", b"9999", 2000),
        Err(SecurityError::PinRejected)
    ));
    assert!(matches!(
        sec.validate_pin(b"nobody", b"1234", 1000),
        Err(SecurityError::UnknownOperator)
    ));
}

#[test]
fn test_pin_brute_force_rate_limited() {
    let mut sec = SecurityManager::new();
    sec.register_operator(b"op", b"1234");
    // Five wrong PINs inside the sixty-second window, spaced past each
    // doubling backoff, are evaluated and rejected.
    let times: [u64; 5] = [0, 1500, 4000, 9000, 18000];
    for t in times {
        assert!(matches!(sec.validate_pin(b"op", b"0000", t), Err(SecurityError::PinRejected)));
    }
    // The sixth attempt in the window is refused without evaluation, even
    // with the correct PIN.
    assert!(matches!(
        sec.validate_pin(b"op", b"1234", 35000),
        Err(SecurityError::RateLimited)
    ));
    // Once the window rolls and the backoff has passed, the correct PIN
    // works again.
    assert!(sec.validate_pin(b"op", b"1234", 80000).is_ok());
}

#[test]
fn test_backoff_doubles_on_consecutive_failures() {
    let mut sec = SecurityManager::new();
    sec.register_operator(b"op", b"1234");
    // First failure: backoff 1 s.
    assert!(sec.validate_pin(b"op", b"0000", 0).is_err());
    assert!(matches!(sec.validate_pin(b"op", b"1234", 500), Err(SecurityError::RateLimited)));
    // Second failure at 1.5 s: backoff 2 s, until 3.5 s.
    assert!(matches!(sec.validate_pin(b"op", b"0000", 1500), Err(SecurityError::PinRejected)));
    assert!(matches!(sec.validate_pin(b"op", b"1234", 3000), Err(SecurityError::RateLimited)));
    // Third failure at 4 s: backoff 4 s, until 8 s.
    assert!(matches!(sec.validate_pin(b"op", b"0000", 4000), Err(SecurityError::PinRejected)));
    assert!(matches!(sec.validate_pin(b"op", b"1234", 7000), Err(SecurityError::RateLimited)));
    assert!(sec.validate_pin(b"op", b"1234", 8000).is_ok());
}

#[test]
fn test_grants_and_pruning() {
    let mut sec = SecurityManager::new();
    sec.grant_permission(b"op", AuthorizationScope::ExecuteMission, 10000);
    assert!(sec.check_permission(b"op", AuthorizationScope::ExecuteMission, 5000));
    assert!(!sec.check_permission(b"op", AuthorizationScope::Diagnostics, 5000));
    assert!(!sec.check_permission(b"other", AuthorizationScope::ExecuteMission, 5000));
    // Expired exactly at the boundary.
    assert!(!sec.check_permission(b"op", AuthorizationScope::ExecuteMission, 10000));
    sec.prune_expired_grants(10000);
    assert!(!sec.check_permission(b"op", AuthorizationScope::ExecuteMission, 5000));
}

#[test]
fn test_authorize_full_gate() {
    let mut sec = SecurityManager::new();
    sec.register_operator(b"op", b"1234");
    sec.grant_permission(b"op", AuthorizationScope::ExecuteMission, 1000000);
    let scopes = vec![AuthorizationScope::ExecuteMission];
    let mfa = fresh_mfa(1000);
    assert!(sec.authorize(b"op", b"1234", &scopes, &mfa, 1000).is_ok());

    // A missing scope is refused after the PIN.
    let wide = vec![AuthorizationScope::ExecuteMission, AuthorizationScope::Diagnostics];
    assert!(matches!(
        sec.authorize(b"op", b"1234", &wide, &mfa, 2000),
        Err(SecurityError::ScopeRejected)
    ));

    // Stale witnesses are refused last.
    let stale = MFAAuthentication { last_verification: 0, ..fresh_mfa(0) };
    assert!(matches!(
        sec.authorize(b"op", b"1234", &scopes, &stale, 400000),
        Err(SecurityError::MFANotVerified)
    ));
}
