//! Temporal coupling and acoustic sequencing.

use mission_link::validator::{ChannelValidator, IngestOutcome, ValidationError};

const SID: [u8; 16] = [9u8; 16];
const HASH: [u8; 32] = [5u8; 32];
const MAC: [u8; 32] = [6u8; 32];

#[test]
fn test_acoustic_sequence_monotonic_from_one() {
    let mut v = ChannelValidator::new(8);
    assert_eq!(v.observe_acoustic(&SID, 1, 10, &HASH, &MAC), IngestOutcome::Accepted);
    assert_eq!(v.observe_acoustic(&SID, 2, 20, &HASH, &MAC), IngestOutcome::Accepted);
    assert_eq!(v.observe_acoustic(&SID, 3, 30, &HASH, &MAC), IngestOutcome::Accepted);
    assert_eq!(v.observe_acoustic(&SID, 2, 40, &HASH, &MAC), IngestOutcome::DuplicateDropped);
    assert_eq!(v.observe_acoustic(&SID, 5, 50, &HASH, &MAC), IngestOutcome::OutOfOrderDropped);
}

#[test]
fn test_acoustic_first_frame_must_be_sequence_one() {
    let mut v = ChannelValidator::new(8);
    assert_eq!(v.observe_acoustic(&SID, 2, 10, &HASH, &MAC), IngestOutcome::OutOfOrderDropped);
    assert_eq!(v.observe_acoustic(&SID, 1, 10, &HASH, &MAC), IngestOutcome::Accepted);
}

#[test]
fn test_acoustic_buffer_is_bounded() {
    let mut v = ChannelValidator::new(8);
    for seq in 1..=8u32 {
        assert_eq!(
            v.observe_acoustic(&SID, seq, seq as u64, &HASH, &MAC),
            IngestOutcome::Accepted
        );
    }
    assert_eq!(v.observe_acoustic(&SID, 9, 90, &HASH, &MAC), IngestOutcome::BufferFull);
}

#[test]
fn test_coupling_window_boundary() {
    // Exactly 100 ms apart couples.
    let mut v = ChannelValidator::new(8);
    v.observe_visual(&SID, 1000).unwrap();
    assert_eq!(v.observe_acoustic(&SID, 1, 1100, &HASH, &MAC), IngestOutcome::Accepted);
    let w = v.await_coupled_witness(&SID, &HASH).unwrap();
    assert_eq!(w.visual_at_ms, 1000);
    assert_eq!(w.acoustic_at_ms, 1100);

    // 101 ms apart does not.
    let sid2 = [8u8; 16];
    let mut v2 = ChannelValidator::new(8);
    v2.observe_visual(&sid2, 1000).unwrap();
    assert_eq!(v2.observe_acoustic(&sid2, 1, 1101, &HASH, &MAC), IngestOutcome::Accepted);
    assert!(matches!(
        v2.await_coupled_witness(&sid2, &HASH),
        Err(ValidationError::TemporalMismatch)
    ));
}

#[test]
fn test_coupling_requires_both_witnesses() {
    let mut v = ChannelValidator::new(8);
    v.observe_visual(&SID, 1000).unwrap();
    assert!(matches!(v.await_coupled_witness(&SID, &HASH), Err(ValidationError::Timeout)));
    assert!(matches!(
        v.await_coupled_witness(&[1u8; 16], &HASH),
        Err(ValidationError::UnknownSession)
    ));
}

#[test]
fn test_coupling_rejects_hash_mismatch() {
    let mut v = ChannelValidator::new(8);
    v.observe_visual(&SID, 1000).unwrap();
    v.observe_acoustic(&SID, 1, 1010, &HASH, &MAC);
    let other = [0xEEu8; 32];
    assert!(matches!(
        v.await_coupled_witness(&SID, &other),
        Err(ValidationError::HashMismatch)
    ));
}

#[test]
fn test_second_visual_is_a_collision() {
    let mut v = ChannelValidator::new(8);
    v.observe_visual(&SID, 1000).unwrap();
    assert!(matches!(v.observe_visual(&SID, 1005), Err(ValidationError::Collision)));
    v.observe_acoustic(&SID, 1, 1010, &HASH, &MAC);
    assert!(matches!(
        v.await_coupled_witness(&SID, &HASH),
        Err(ValidationError::Collision)
    ));
}

#[test]
fn test_clear_session_forgets_the_buffer() {
    let mut v = ChannelValidator::new(8);
    v.observe_visual(&SID, 1000).unwrap();
    v.clear_session(&SID);
    assert!(matches!(
        v.await_coupled_witness(&SID, &HASH),
        Err(ValidationError::UnknownSession)
    ));
}
