//! The signed append-only log: creation, chain verification, export and
//! import, and tamper evidence.

use mission_link::crypto::CryptoEngine;
use mission_link::logging::{LogError, LogEvent, SignedLogger};

#[test]
fn test_log_entry_creation_and_verification() {
    let crypto = CryptoEngine::new();
    let mut logger = SignedLogger::new(crypto, b"test_device", 100);

    let event = LogEvent::SessionStarted { peer_fingerprint: [1u8; 32], timestamp: 1000 };

    logger.log_event(event, 1000).unwrap();
    assert_eq!(logger.entries().len(), 1);

    // Verify integrity
    assert!(logger.verify_log_integrity().is_ok());
}

#[test]
fn test_sequence_violation_detection() {
    let crypto = CryptoEngine::new();
    let mut logger = SignedLogger::new(crypto, b"test_device", 100);

    let event1 = LogEvent::SessionStarted { peer_fingerprint: [1u8; 32], timestamp: 1000 };
    logger.log_event(event1, 1000).unwrap();
    let event2 = LogEvent::MessageSent { sequence_id: 1, size_bytes: 64 };
    logger.log_event(event2, 1100).unwrap();

    // Corrupt the second entry's sequence number (should be 2) in the
    // exported bytes and re-import: the chain check must refuse.
    let mut exported = logger.export_log();
    let first_len = u32::from_be_bytes([exported[40], exported[41], exported[42], exported[43]]) as usize;
    let second_start = 40 + 4 + first_len;
    // Record layout: timestamp(8) | sequence(8) | ...
    let seq_pos = second_start + 4 + 8;
    exported[seq_pos + 7] = 5;

    assert!(matches!(
        logger.import_log(&exported),
        Err(LogError::SequenceViolation(_))
    ));
}

#[test]
fn test_log_import_export() {
    let crypto1 = CryptoEngine::new();
    let mut logger1 = SignedLogger::new(crypto1.clone(), b"test_device", 100);

    let event = LogEvent::MessageSent { sequence_id: 1, size_bytes: 256 };
    logger1.log_event(event, 1000).unwrap();

    // Export log
    let exported = logger1.export_log();

    // Import into new logger with same crypto engine
    let mut logger2 = SignedLogger::new(crypto1, b"test_device", 100);
    logger2.import_log(&exported).unwrap();

    // Verify contents match
    assert_eq!(logger1.entries().len(), logger2.entries().len());
    assert!(logger2.verify_log_integrity().is_ok());
}

#[test]
fn test_import_refuses_tampered_middle_entry() {
    let crypto = CryptoEngine::new();
    let mut logger = SignedLogger::new(crypto.clone(), b"test_device", 100);
    logger
        .log_event(LogEvent::ValidationPassed { channel_type: b"visual".to_vec() }, 1000)
        .unwrap();
    logger
        .log_event(
            LogEvent::ValidationFailed {
                channel_type: b"acoustic".to_vec(),
                reason: b"late frame".to_vec(),
            },
            2000,
        )
        .unwrap();
    logger
        .log_event(LogEvent::ValidationPassed { channel_type: b"acoustic".to_vec() }, 3000)
        .unwrap();

    let mut exported = logger.export_log();
    // Flip one byte inside the middle record's event content.
    let first_len = u32::from_be_bytes([exported[40], exported[41], exported[42], exported[43]]) as usize;
    let second_start = 40 + 4 + first_len;
    let content_pos = second_start + 4 + 8 + 8 + 32 + 4 + 5;
    exported[content_pos] ^= 0x01;

    let mut fresh = SignedLogger::new(crypto, b"test_device", 100);
    let before = fresh.entries().len();
    match fresh.import_log(&exported) {
        Err(LogError::TamperingDetected(seq)) => assert_eq!(seq, 2),
        other => panic!("expected tamper detection, got {:?}", other),
    }
    // No import occurred.
    assert_eq!(fresh.entries().len(), before);
}

#[test]
fn test_import_refuses_unknown_magic() {
    let crypto = CryptoEngine::new();
    let mut logger = SignedLogger::new(crypto, b"test_device", 100);
    let mut exported = logger.export_log();
    exported[0] = b'X';
    assert!(matches!(logger.import_log(&exported), Err(LogError::InvalidFormat)));
}

#[test]
fn test_log_eviction_keeps_newest() {
    let crypto = CryptoEngine::new();
    let mut logger = SignedLogger::new(crypto, b"test_device", 2);
    for i in 0..3u64 {
        logger
            .log_event(LogEvent::MessageSent { sequence_id: i, size_bytes: 1 }, 1000 + i)
            .unwrap();
    }
    let entries = logger.entries();
    assert_eq!(entries.len(), 2);
    assert_eq!(entries[0].sequence_number, 2);
    assert_eq!(entries[1].sequence_number, 3);
}
