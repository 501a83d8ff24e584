//! Frame and mission codecs: encoding is invertible, malformed input is
//! rejected, never panics.

use mission_link::frames::{BindingFrame, DecodeError, VisualFrame};
use mission_link::mission::MissionPayload;
use mission_link::transfer::EncryptedMissionPayload;

#[test]
fn test_visual_frame_round_trip() {
    let frame = VisualFrame {
        session_id: [1u8; 16],
        public_key: [2u8; 32],
        nonce: [3u8; 16],
        signature: vec![9u8; 64],
    };
    let bytes = frame.encode();
    assert_eq!(bytes.len(), 130);
    let back = VisualFrame::decode(&bytes).unwrap();
    assert_eq!(back.session_id, frame.session_id);
    assert_eq!(back.public_key, frame.public_key);
    assert_eq!(back.nonce, frame.nonce);
    assert_eq!(back.signature, frame.signature);
}

#[test]
fn test_visual_frame_rejects_malformed() {
    assert!(matches!(VisualFrame::decode(&[0u8; 10]), Err(DecodeError::Truncated)));
    let frame = VisualFrame {
        session_id: [0u8; 16],
        public_key: [0u8; 32],
        nonce: [0u8; 16],
        signature: vec![1u8; 8],
    };
    let mut bytes = frame.encode();
    bytes.push(0);
    assert!(matches!(VisualFrame::decode(&bytes), Err(DecodeError::TrailingBytes)));
    let mut oversize = frame.encode();
    oversize[64] = 0xff;
    assert!(VisualFrame::decode(&oversize).is_err());
}

#[test]
fn test_binding_frame_round_trip() {
    let frame = BindingFrame {
        session_id: [4u8; 16],
        mission_id: [5u8; 16],
        payload_hash: [6u8; 32],
        sequence_id: 1,
        emitted_at: 123456789,
        mac: [7u8; 32],
    };
    let bytes = frame.encode();
    assert_eq!(bytes.len(), 108);
    let back = BindingFrame::decode(&bytes).unwrap();
    assert_eq!(back.session_id, frame.session_id);
    assert_eq!(back.mission_id, frame.mission_id);
    assert_eq!(back.payload_hash, frame.payload_hash);
    assert_eq!(back.sequence_id, 1);
    assert_eq!(back.emitted_at, 123456789);
    assert_eq!(back.mac, frame.mac);
}

#[test]
fn test_binding_frame_rejects_wrong_length() {
    assert!(matches!(BindingFrame::decode(&[0u8; 107]), Err(DecodeError::Truncated)));
    assert!(matches!(BindingFrame::decode(&[0u8; 109]), Err(DecodeError::TrailingBytes)));
}

#[test]
fn test_mission_codec_round_trip() {
    let mission = MissionPayload { mission_id: [0xAAu8; 16], body: b"opaque application bytes".to_vec() };
    let bytes = mission.encode();
    let back = MissionPayload::decode(&bytes).unwrap();
    assert_eq!(back.mission_id, mission.mission_id);
    assert_eq!(back.body, mission.body);
    // Equal logical payloads give equal byte sequences.
    let again = MissionPayload { mission_id: [0xAAu8; 16], body: b"opaque application bytes".to_vec() };
    assert_eq!(again.encode(), bytes);
    assert_eq!(mission.hash(), again.hash());
}

#[test]
fn test_mission_codec_rejects_trailing_bytes() {
    let mission = MissionPayload { mission_id: [1u8; 16], body: vec![1, 2, 3] };
    let mut bytes = mission.encode();
    bytes.push(0);
    assert!(matches!(MissionPayload::decode(&bytes), Err(DecodeError::TrailingBytes)));
    assert!(matches!(MissionPayload::decode(&bytes[..10]), Err(DecodeError::Truncated)));
}

#[test]
fn test_encrypted_mission_round_trip() {
    let payload = EncryptedMissionPayload {
        mission_id: [1u8; 16],
        ciphertext: vec![0xCC; 40],
        signature: vec![0xDD; 64],
        session_nonce: [2u8; 16],
        validity_deadline: 300000,
        context_hash: [3u8; 32],
    };
    let bytes = payload.encode();
    let back = EncryptedMissionPayload::decode(&bytes).unwrap();
    assert_eq!(back.mission_id, payload.mission_id);
    assert_eq!(back.ciphertext, payload.ciphertext);
    assert_eq!(back.signature, payload.signature);
    assert_eq!(back.session_nonce, payload.session_nonce);
    assert_eq!(back.validity_deadline, payload.validity_deadline);
    assert_eq!(back.context_hash, payload.context_hash);
    let mut trailing = bytes.clone();
    trailing.push(7);
    assert!(EncryptedMissionPayload::decode(&trailing).is_err());
}
