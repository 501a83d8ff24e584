//! End-to-end transfer scenarios: the happy path, replay, binding
//! substitution, expiry boundaries and duplicate acknowledgments.

use mission_link::authz::SecurityError;
use mission_link::mission::{AuthorizationScope, MissionPayload};
use mission_link::transfer::{
    EncryptedMissionPayload, MissionDrone, MissionStation, MissionTransferError,
};
use mission_link::validator::IngestOutcome;

const MISSION_ID: [u8; 16] = [
    0x01, 0x02, 0x03, 0x04, 0x05, 0x06, 0x07, 0x08, 0x09, 0x0A, 0x0B, 0x0C, 0x0D, 0x0E, 0x0F,
    0x10,
];
const CONTEXT: [u8; 32] = [0x42u8; 32];

fn mission() -> MissionPayload {
    MissionPayload { mission_id: MISSION_ID, body: b"fly the survey pattern".to_vec() }
}

fn scopes() -> Vec<AuthorizationScope> {
    vec![AuthorizationScope::ExecuteMission, AuthorizationScope::Diagnostics]
}

/// Builds a ready pair: registered operator, granted scopes, trusted keys.
fn pair() -> (MissionStation, MissionDrone) {
    let station = MissionStation::new();
    let mut drone = MissionDrone::new(*station.signing_public_key());
    drone.security.register_operator(b"operator-7", b"1234");
    drone.security.grant_permission(b"operator-7", AuthorizationScope::ExecuteMission, u64::MAX);
    drone.security.grant_permission(b"operator-7", AuthorizationScope::Diagnostics, u64::MAX);
    (station, drone)
}

/// Runs prepare and emit at `t0` and hands the drone the visual bytes.
fn deliver_visual(station: &mut MissionStation, drone: &mut MissionDrone, t0: u64) -> (
    EncryptedMissionPayload,
    mission_link::frames::BindingFrame,
    [u8; 16],
) {
    let m = mission();
    let drone_public = *drone.public_key();
    let payload = station
        .prepare_mission_for_transfer(&m, &drone_public, &CONTEXT, t0)
        .unwrap();
    let (visual, binding) = station.emit_witnesses(&payload, t0).unwrap();
    let mut wide_channel = visual.encode();
    wide_channel.extend_from_slice(&payload.encode());
    let sid = drone.ingest_visual(&wide_channel, t0).unwrap();
    assert_eq!(sid, payload.session_nonce);
    (payload, binding, sid)
}

#[test]
fn test_happy_path_transfer() {
    let (mut station, mut drone) = pair();
    let t0: u64 = 1000;
    let (_payload, binding, sid) = deliver_visual(&mut station, &mut drone, t0);

    // The binding witness arrives 42 ms after the visual one.
    let outcome = drone.ingest_acoustic(&binding.encode(), t0 + 42).unwrap();
    assert_eq!(outcome, IngestOutcome::Accepted);

    let decrypted = drone
        .complete_transfer(&sid, b"operator-7", b"1234", &scopes(), t0 + 80)
        .unwrap();
    assert_eq!(decrypted.mission_id, MISSION_ID);
    assert_eq!(decrypted.body, mission().body);

    // The drone acknowledges with a sequence-2 frame.
    let ack = drone.send_mission_acknowledgment(&sid, t0 + 90).unwrap().unwrap();
    assert_eq!(ack.sequence_id, 2);
    assert_eq!(ack.session_id, sid);

    // The station accepts the first acknowledgment and ignores a repeat.
    assert_eq!(station.receive_acknowledgment(&ack, t0 + 95).unwrap(), true);
    assert_eq!(station.receive_acknowledgment(&ack, t0 + 99).unwrap(), false);

    // A second drone-side acknowledgment is a no-op.
    assert!(drone.send_mission_acknowledgment(&sid, t0 + 99).unwrap().is_none());
}

#[test]
fn test_replay_without_binding_times_out() {
    let (mut station, mut drone) = pair();
    let t0: u64 = 1000;
    // Only the (replayed) visual frame arrives; no fresh binding witness.
    let (_payload, _binding, sid) = deliver_visual(&mut station, &mut drone, t0);
    let err = drone
        .complete_transfer(&sid, b"operator-7", b"1234", &scopes(), t0 + 2000)
        .unwrap_err();
    assert_eq!(err, MissionTransferError::CouplingTimeout);
    drone.abort_session(&sid);
    // After the abort the session is gone for good.
    let err2 = drone
        .complete_transfer(&sid, b"operator-7", b"1234", &scopes(), t0 + 2100)
        .unwrap_err();
    assert_eq!(err2, MissionTransferError::SessionNotFound);
}

#[test]
fn test_binding_substitution_is_rejected() {
    let (mut station, mut drone) = pair();
    let t0: u64 = 1000;
    let (_payload, binding, sid) = deliver_visual(&mut station, &mut drone, t0);

    // The attacker substitutes a binding frame whose payload hash differs
    // by one bit.
    let mut forged = binding;
    forged.payload_hash[0] ^= 0x01;
    assert_eq!(
        drone.ingest_acoustic(&forged.encode(), t0 + 10).unwrap(),
        IngestOutcome::Accepted
    );
    let err = drone
        .complete_transfer(&sid, b"operator-7", b"1234", &scopes(), t0 + 50)
        .unwrap_err();
    assert_eq!(err, MissionTransferError::HashMismatch);
    // The binding mismatch is terminal: the session was rejected for good.
    let err2 = drone
        .complete_transfer(&sid, b"operator-7", b"1234", &scopes(), t0 + 60)
        .unwrap_err();
    assert_eq!(err2, MissionTransferError::SessionNotFound);
}

#[test]
fn test_forged_mac_is_rejected() {
    let (mut station, mut drone) = pair();
    let t0: u64 = 1000;
    let (_payload, binding, sid) = deliver_visual(&mut station, &mut drone, t0);
    let mut forged = binding;
    forged.mac[0] ^= 0x01;
    drone.ingest_acoustic(&forged.encode(), t0 + 10).unwrap();
    let err = drone
        .complete_transfer(&sid, b"operator-7", b"1234", &scopes(), t0 + 50)
        .unwrap_err();
    assert_eq!(err, MissionTransferError::HashMismatch);
}

#[test]
fn test_expired_session_is_not_decrypted() {
    let (mut station, mut drone) = pair();
    let t0: u64 = 1000;
    let (_payload, binding, sid) = deliver_visual(&mut station, &mut drone, t0);
    drone.ingest_acoustic(&binding.encode(), t0 + 42).unwrap();
    // The drone only gets around to it six seconds later: past the 5 s
    // session time to live, the payload is never opened.
    let err = drone
        .complete_transfer(&sid, b"operator-7", b"1234", &scopes(), t0 + 6000)
        .unwrap_err();
    assert_eq!(err, MissionTransferError::Expired);
}

#[test]
fn test_validity_deadline_boundary() {
    // The deadline is not under the detached signature, so the scenario can
    // place it inside the session's lifetime: one millisecond before the
    // deadline is accepted.
    let (mut station, mut drone) = pair();
    let m = mission();
    let mut payload = station
        .prepare_mission_for_transfer(&m, &*drone.public_key(), &CONTEXT, 0)
        .unwrap();
    assert_eq!(payload.validity_deadline, 300_000);
    payload.validity_deadline = 3000;
    let (visual, binding) = station.emit_witnesses(&payload, 0).unwrap();
    let mut wide = visual.encode();
    wide.extend_from_slice(&payload.encode());
    let sid = drone.ingest_visual(&wide, 0).unwrap();
    drone.ingest_acoustic(&binding.encode(), 10).unwrap();
    assert!(drone
        .complete_transfer(&sid, b"operator-7", b"1234", &scopes(), 2999)
        .is_ok());

    // Exactly at the deadline is rejected.
    let (mut station2, mut drone2) = pair();
    let mut payload2 = station2
        .prepare_mission_for_transfer(&m, &*drone2.public_key(), &CONTEXT, 0)
        .unwrap();
    payload2.validity_deadline = 3000;
    let (visual2, binding2) = station2.emit_witnesses(&payload2, 0).unwrap();
    let mut wide2 = visual2.encode();
    wide2.extend_from_slice(&payload2.encode());
    let sid2 = drone2.ingest_visual(&wide2, 0).unwrap();
    drone2.ingest_acoustic(&binding2.encode(), 10).unwrap();
    let err = drone2
        .complete_transfer(&sid2, b"operator-7", b"1234", &scopes(), 3000)
        .unwrap_err();
    assert_eq!(err, MissionTransferError::Expired);
}

#[test]
fn test_coupling_window_boundary_end_to_end() {
    // Witnesses exactly 100 ms apart couple.
    let (mut station, mut drone) = pair();
    let t0: u64 = 1000;
    let (_p, binding, sid) = deliver_visual(&mut station, &mut drone, t0);
    drone.ingest_acoustic(&binding.encode(), t0 + 100).unwrap();
    assert!(drone
        .complete_transfer(&sid, b"operator-7", b"1234", &scopes(), t0 + 150)
        .is_ok());

    // Witnesses 101 ms apart do not.
    let (mut station2, mut drone2) = pair();
    let (_p2, binding2, sid2) = deliver_visual(&mut station2, &mut drone2, t0);
    drone2.ingest_acoustic(&binding2.encode(), t0 + 101).unwrap();
    let err = drone2
        .complete_transfer(&sid2, b"operator-7", b"1234", &scopes(), t0 + 150)
        .unwrap_err();
    assert_eq!(err, MissionTransferError::CouplingTimeout);
}

#[test]
fn test_wrong_pin_and_missing_scope_are_refused() {
    let (mut station, mut drone) = pair();
    let t0: u64 = 1000;
    let (_p, binding, sid) = deliver_visual(&mut station, &mut drone, t0);
    drone.ingest_acoustic(&binding.encode(), t0 + 10).unwrap();
    let err = drone
        .complete_transfer(&sid, b"operator-7", b"9999", &scopes(), t0 + 50)
        .unwrap_err();
    assert_eq!(err, MissionTransferError::PinRejected);
    let wide = vec![
        AuthorizationScope::ExecuteMission,
        AuthorizationScope::EmergencyOverride,
    ];
    let err2 = drone
        .complete_transfer(&sid, b"operator-7", b"1234", &wide, t0 + 2000)
        .unwrap_err();
    assert_eq!(err2, MissionTransferError::ScopeRejected);
}

#[test]
fn test_tampered_ciphertext_fails_signature() {
    let (mut station, mut drone) = pair();
    let t0: u64 = 1000;
    let m = mission();
    let drone_public = *drone.public_key();
    let mut payload = station
        .prepare_mission_for_transfer(&m, &drone_public, &CONTEXT, t0)
        .unwrap();
    let (visual, _binding) = station.emit_witnesses(&payload, t0).unwrap();
    // Tamper with the ciphertext after signing; re-emit the binding frame
    // over the forged bytes so the hashes agree.
    let tampered_at = payload.ciphertext.len() - 1;
    payload.ciphertext[tampered_at] ^= 0x01;
    let forged_hash =
        mission_link::crypto::generate_device_fingerprint(&payload.ciphertext);
    let mut wide = visual.encode();
    wide.extend_from_slice(&payload.encode());
    let sid = drone.ingest_visual(&wide, t0).unwrap();
    let forged_binding = mission_link::frames::BindingFrame {
        session_id: sid,
        mission_id: payload.mission_id,
        payload_hash: forged_hash,
        sequence_id: 1,
        emitted_at: t0,
        mac: [0u8; 32],
    };
    drone.ingest_acoustic(&forged_binding.encode(), t0 + 5).unwrap();
    let err = drone
        .complete_transfer(&sid, b"operator-7", b"1234", &scopes(), t0 + 50)
        .unwrap_err();
    // The forged MAC falls first; either way nothing decrypts.
    assert!(
        err == MissionTransferError::HashMismatch
            || err == MissionTransferError::SignatureFailure
    );
}

#[test]
fn test_duplicate_visual_is_a_collision() {
    let (mut station, mut drone) = pair();
    let t0: u64 = 1000;
    let m = mission();
    let drone_public = *drone.public_key();
    let payload = station
        .prepare_mission_for_transfer(&m, &drone_public, &CONTEXT, t0)
        .unwrap();
    let (visual, _binding) = station.emit_witnesses(&payload, t0).unwrap();
    let mut wide = visual.encode();
    wide.extend_from_slice(&payload.encode());
    drone.ingest_visual(&wide, t0).unwrap();
    let err = drone.ingest_visual(&wide, t0 + 50).unwrap_err();
    assert_eq!(err, MissionTransferError::Collision);
}

#[test]
fn test_unknown_operator_is_refused() {
    let mut sec = mission_link::authz::SecurityManager::new();
    assert!(matches!(
        sec.validate_pin(b"ghost", b"1234", 0),
        Err(SecurityError::UnknownOperator)
    ));
}

#[test]
fn test_untrusted_station_fails_signature() {
    // The drone trusts station A's verifying key; station B's missions are
    // refused at the signature check even though the keys agree.
    let station_a = MissionStation::new();
    let mut station_b = MissionStation::new();
    let mut drone = MissionDrone::new(*station_a.signing_public_key());
    drone.security.register_operator(b"operator-7", b"1234");
    drone.security.grant_permission(b"operator-7", AuthorizationScope::ExecuteMission, u64::MAX);
    drone.security.grant_permission(b"operator-7", AuthorizationScope::Diagnostics, u64::MAX);
    let t0: u64 = 1000;
    let payload = station_b
        .prepare_mission_for_transfer(&mission(), &*drone.public_key(), &CONTEXT, t0)
        .unwrap();
    let (visual, binding) = station_b.emit_witnesses(&payload, t0).unwrap();
    let mut wide = visual.encode();
    wide.extend_from_slice(&payload.encode());
    let sid = drone.ingest_visual(&wide, t0).unwrap();
    drone.ingest_acoustic(&binding.encode(), t0 + 10).unwrap();
    let err = drone
        .complete_transfer(&sid, b"operator-7", b"1234", &scopes(), t0 + 50)
        .unwrap_err();
    assert_eq!(err, MissionTransferError::SignatureFailure);
}

#[test]
fn test_acknowledgment_with_wrong_sequence_is_refused() {
    let (mut station, mut drone) = pair();
    let t0: u64 = 1000;
    let (_p, binding, sid) = deliver_visual(&mut station, &mut drone, t0);
    drone.ingest_acoustic(&binding.encode(), t0 + 10).unwrap();
    drone
        .complete_transfer(&sid, b"operator-7", b"1234", &scopes(), t0 + 50)
        .unwrap();
    let mut ack = drone.send_mission_acknowledgment(&sid, t0 + 60).unwrap().unwrap();
    ack.sequence_id = 3;
    let err = station.receive_acknowledgment(&ack, t0 + 70).unwrap_err();
    assert_eq!(err, MissionTransferError::SequenceError);
}

#[test]
fn test_oversized_mission_is_refused_at_prepare() {
    let (mut station, drone) = pair();
    let big = MissionPayload {
        mission_id: MISSION_ID,
        body: vec![0u8; mission_link::mission::MAX_MISSION_BODY_BYTES + 1],
    };
    let err = station
        .prepare_mission_for_transfer(&big, &*drone.public_key(), &CONTEXT, 0)
        .unwrap_err();
    assert_eq!(err, MissionTransferError::PayloadTooLarge);
}

#[test]
fn test_ingest_visual_rejects_truncated_bytes() {
    let (_station, mut drone) = pair();
    let err = drone.ingest_visual(&[0u8; 20], 0).unwrap_err();
    assert!(matches!(err, MissionTransferError::FrameError(_)));
}
