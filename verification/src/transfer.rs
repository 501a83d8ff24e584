//! The dual-channel mission transfer protocol: station and drone halves.
//!
//! The station prepares an encrypted, signed mission, then emits a handshake
//! witness on the visual channel and a MAC-bound witness on the acoustic
//! channel.  The drone ingests both, requires them to couple within the
//! temporal window, gates decryption on operator authorization, checks the
//! detached signature, the validity deadline and the session time to live,
//! opens the payload, and acknowledges with a second acoustic frame.  Every
//! failure names its gate, and terminal transitions zeroize key material.

use vstd::prelude::*;
use crate::crypto::{
    aead_open_of, aead_seal_with_nonce, aead_open_with_nonce, constant_time_eq, derive_session_key,
    ed25519_verifies, generate_nonce, generate_device_fingerprint, hkdf_sha256_of, hmac_sha256_of,
    compute_hmac, sha256_of, x25519_of, CryptoEngine,
};
use crate::frames::{
    BindingFrame, DecodeError, VisualFrame, VisualFrameView, spec_decode_binding,
    spec_decode_visual,
};
use crate::mission::{MissionId, MissionPayload, spec_encode_mission, spec_decode_mission};
use crate::session::{EphemeralKeySession, MAX_SESSION_TTL_MS, zeroized_key};
use crate::validator::{
    ChannelValidator, IngestOutcome, ValidationError, within_coupling_window, spec_find_session,
    MIN_SESSION_BUFFER,
};
use crate::authz::{MFAAuthentication, SecurityError, SecurityManager};
use crate::mission::AuthorizationScope;
use crate::wire::{
    push_bytes, push_u16_be, push_u32_be, push_u64_be, read_u16_be, read_u32_be, read_u64_be,
    read_bytes16, read_bytes32, copy_range, spec_u16_to_be_bytes, spec_u32_to_be_bytes,
    spec_u64_to_be_bytes, spec_u16_from_be_bytes, spec_u32_from_be_bytes, spec_u64_from_be_bytes,
    lemma_u16_be_bytes_round_trip, lemma_u32_be_bytes_round_trip, lemma_u64_be_bytes_round_trip,
};

verus! {

/// How long a prepared mission stays valid, in milliseconds.
pub const MISSION_VALIDITY_MS: u64 = 300000;

/// Transfer failure, named after the first check that refused.
#[derive(Debug, Clone, PartialEq, Eq, Structural)]
pub enum MissionTransferError {
    /// Framing or serialization failure on an ingested frame.
    FrameError(DecodeError),
    /// No coupled witness: one channel is missing or the witnesses lie
    /// further apart than the coupling window.
    CouplingTimeout,
    /// The binding frame's payload hash does not match the ciphertext.
    HashMismatch,
    /// An acoustic frame arrived out of sequence.
    SequenceError,
    /// The detached signature over the encrypted mission does not verify.
    SignatureFailure,
    /// Authenticated decryption failed.
    AeadFailure,
    /// The validity deadline or the session time to live has lapsed.
    Expired,
    /// The operator's PIN was refused.
    PinRejected,
    /// A requested scope has no active grant.
    ScopeRejected,
    /// The channel-witness side of the authorization gate does not hold.
    MFANotVerified,
    /// Too many PIN attempts; the PIN was not evaluated.
    RateLimited,
    /// The decoded mission's embedded identifier differs from the frame's.
    MissionIdMismatch,
    /// Two sessions claimed the same identifier inside the window.
    Collision,
    /// No session under that identifier.
    SessionNotFound,
    /// The handshake frame and the encrypted mission name different sessions.
    SessionMismatch,
    /// The mission payload is larger than the codec accepts.
    PayloadTooLarge,
}

/// An encrypted mission ready for the wire.
#[derive(Debug)]
pub struct EncryptedMissionPayload {
    pub mission_id: MissionId,
    /// A 12-byte AEAD nonce followed by ciphertext and tag.
    pub ciphertext: Vec<u8>,
    /// Detached signature over `mission_id | ciphertext | session_nonce |
    /// context_hash`; 64 bytes.
    pub signature: Vec<u8>,
    /// Doubles as the session identifier.
    pub session_nonce: [u8; 16],
    /// Milliseconds since the epoch; the mission is rejected from this
    /// instant on.
    pub validity_deadline: u64,
    /// Binds the environmental context; opaque to this core.
    pub context_hash: [u8; 32],
}

/// Mathematical content of an `EncryptedMissionPayload`.
pub ghost struct EncryptedMissionView {
    pub mission_id: Seq<u8>,
    pub ciphertext: Seq<u8>,
    pub signature: Seq<u8>,
    pub session_nonce: Seq<u8>,
    pub validity_deadline: u64,
    pub context_hash: Seq<u8>,
}

impl View for EncryptedMissionPayload {
    type V = EncryptedMissionView;

    open spec fn view(&self) -> EncryptedMissionView {
        EncryptedMissionView {
            mission_id: self.mission_id@,
            ciphertext: self.ciphertext@,
            signature: self.signature@,
            session_nonce: self.session_nonce@,
            validity_deadline: self.validity_deadline,
            context_hash: self.context_hash@,
        }
    }
}

/// Field bounds of a well-formed encrypted mission.
pub open spec fn encrypted_mission_wf(v: EncryptedMissionView) -> bool {
    &&& v.mission_id.len() == 16
    &&& v.session_nonce.len() == 16
    &&& v.context_hash.len() == 32
    &&& v.ciphertext.len() <= u32::MAX
    &&& v.signature.len() <= 64
}

/// The wire layout: `mission_id(16) | nonce(16) | validity_deadline(u64 BE) |
/// context_hash(32) | ct_len(u32 BE) | ciphertext | sig_len(u16 BE) |
/// signature`.
pub open spec fn spec_encode_encrypted_mission(v: EncryptedMissionView) -> Seq<u8> {
    v.mission_id + v.session_nonce + spec_u64_to_be_bytes(v.validity_deadline) + v.context_hash
        + spec_u32_to_be_bytes(v.ciphertext.len() as u32) + v.ciphertext + spec_u16_to_be_bytes(
        v.signature.len() as u16,
    ) + v.signature
}

/// Exact inverse of `spec_encode_encrypted_mission`.
pub open spec fn spec_decode_encrypted_mission(s: Seq<u8>) -> Option<EncryptedMissionView> {
    if s.len() < 78 {
        None
    } else {
        let ct_len = spec_u32_from_be_bytes(s.subrange(72, 76)) as int;
        if s.len() < 78 + ct_len {
            None
        } else {
            let sig_len = spec_u16_from_be_bytes(s.subrange(76 + ct_len, 78 + ct_len)) as int;
            if sig_len > 64 || s.len() != 78 + ct_len + sig_len {
                None
            } else {
                Some(EncryptedMissionView {
                    mission_id: s.subrange(0, 16),
                    session_nonce: s.subrange(16, 32),
                    validity_deadline: spec_u64_from_be_bytes(s.subrange(32, 40)),
                    context_hash: s.subrange(40, 72),
                    ciphertext: s.subrange(76, 76 + ct_len),
                    signature: s.subrange(78 + ct_len, 78 + ct_len + sig_len),
                })
            }
        }
    }
}

/// Decoding inverts encoding for every well-formed encrypted mission.
pub proof fn lemma_encrypted_mission_round_trip(v: EncryptedMissionView)
    requires
        encrypted_mission_wf(v),
    ensures
        spec_decode_encrypted_mission(spec_encode_encrypted_mission(v)) == Some(v),
{
    lemma_u16_be_bytes_round_trip();
    lemma_u32_be_bytes_round_trip();
    lemma_u64_be_bytes_round_trip();
    let s = spec_encode_encrypted_mission(v);
    let n = v.ciphertext.len() as int;
    let m = v.signature.len() as int;
    assert(s.len() == 78 + n + m);
    assert(s.subrange(0, 16) =~= v.mission_id);
    assert(s.subrange(16, 32) =~= v.session_nonce);
    assert(s.subrange(32, 40) =~= spec_u64_to_be_bytes(v.validity_deadline));
    assert(s.subrange(40, 72) =~= v.context_hash);
    assert(s.subrange(72, 76) =~= spec_u32_to_be_bytes(v.ciphertext.len() as u32));
    assert(s.subrange(76, 76 + n) =~= v.ciphertext);
    assert(s.subrange(76 + n, 78 + n) =~= spec_u16_to_be_bytes(v.signature.len() as u16));
    assert(s.subrange(78 + n, 78 + n + m) =~= v.signature);
}

impl EncryptedMissionPayload {
    /// Whether the payload's fields are within the wire format's bounds.
    pub open spec fn wf(self) -> bool {
        encrypted_mission_wf(self@)
    }

    /// Serializes the payload to the wire layout.
    pub fn encode(&self) -> (r: Vec<u8>)
        requires
            self.wf(),
        ensures
            r@ == spec_encode_encrypted_mission(self@),
    {
        let mut out: Vec<u8> = Vec::new();
        push_bytes(&mut out, self.mission_id.as_slice());
        push_bytes(&mut out, self.session_nonce.as_slice());
        push_u64_be(&mut out, self.validity_deadline);
        push_bytes(&mut out, self.context_hash.as_slice());
        push_u32_be(&mut out, self.ciphertext.len() as u32);
        push_bytes(&mut out, self.ciphertext.as_slice());
        push_u16_be(&mut out, self.signature.len() as u16);
        push_bytes(&mut out, self.signature.as_slice());
        assert(out@ =~= spec_encode_encrypted_mission(self@));
        out
    }

    /// Parses a payload from bytes alone, rejecting malformed or trailing
    /// input with an error, never a panic.
    pub fn decode(bytes: &[u8]) -> (r: Result<EncryptedMissionPayload, DecodeError>)
        ensures
            r is Ok <==> spec_decode_encrypted_mission(bytes@) is Some,
            r is Ok ==> Some(r.unwrap()@) == spec_decode_encrypted_mission(bytes@),
            r is Ok ==> r.unwrap().wf(),
    {
        let n = bytes.len();
        if n < 78 {
            return Err(DecodeError::Truncated);
        }
        let ct_len = read_u32_be(bytes, 72) as usize;
        if ct_len > n - 78 {
            return Err(DecodeError::Truncated);
        }
        let sig_len = read_u16_be(bytes, 76 + ct_len) as usize;
        if sig_len > 64 {
            return Err(DecodeError::FieldTooLong);
        }
        let rest = n - 78 - ct_len;
        if sig_len > rest {
            return Err(DecodeError::Truncated);
        }
        if sig_len < rest {
            return Err(DecodeError::TrailingBytes);
        }
        let payload = EncryptedMissionPayload {
            mission_id: read_bytes16(bytes, 0),
            session_nonce: read_bytes16(bytes, 16),
            validity_deadline: read_u64_be(bytes, 32),
            context_hash: read_bytes32(bytes, 40),
            ciphertext: copy_range(bytes, 76, ct_len),
            signature: copy_range(bytes, 78 + ct_len, sig_len),
        };
        Ok(payload)
    }
}

/// The bytes a mission signature covers.
pub open spec fn spec_mission_signing_bytes(mission_id: Seq<u8>, ciphertext: Seq<u8>, session_nonce: Seq<u8>, context_hash: Seq<u8>) -> Seq<u8> {
    mission_id + ciphertext + session_nonce + context_hash
}

/// The associated data that binds a ciphertext to its context.
pub open spec fn spec_mission_aad(mission_id: Seq<u8>, session_nonce: Seq<u8>, context_hash: Seq<u8>) -> Seq<u8> {
    mission_id + session_nonce + context_hash
}

/// The bytes the binding MAC covers.
pub open spec fn spec_binding_mac_bytes(mission_id: Seq<u8>, payload_hash: Seq<u8>, session_id: Seq<u8>) -> Seq<u8> {
    mission_id + payload_hash + session_id
}

/// The info label of the session key derivation.
pub open spec fn spec_session_info() -> Seq<u8> {
    seq![109u8, 105u8, 115u8, 115u8, 105u8, 111u8, 110u8, 45u8, 107u8, 101u8, 121u8]
}

/// The session key both halves derive: the key agreement output expanded
/// under the session nonce.
pub open spec fn spec_session_key(shared: Seq<u8>, session_nonce: Seq<u8>) -> Seq<u8> {
    hkdf_sha256_of(shared, session_nonce, spec_session_info())
}

/// The acknowledged-mission digest carried by the sequence-2 acoustic frame.
pub open spec fn spec_ack_digest(mission_id: Seq<u8>) -> Seq<u8> {
    sha256_of(seq![65u8, 67u8, 75u8] + mission_id)
}

/// Builds the info label bytes.
fn session_info_bytes() -> (r: Vec<u8>)
    ensures
        r@ == spec_session_info(),
{
    let r = vec![109u8, 105u8, 115u8, 115u8, 105u8, 111u8, 110u8, 45u8, 107u8, 101u8, 121u8];
    proof {
        assert(r@ =~= spec_session_info());
    }
    r
}

/// Where a station-side session stands.  Emission is atomic here, so a
/// session observed from outside is never in the emitting state.
#[derive(Debug, Clone, Copy, PartialEq, Eq, Structural)]
pub enum StationSessionState {
    Prepared,
    Emitting,
    AwaitingAck,
    Acknowledged,
    Aborted,
}

/// One session the station is driving.
pub struct StationSession {
    session_id: [u8; 16],
    mission_id: [u8; 16],
    key: EphemeralKeySession,
    station_public: [u8; 32],
    payload_hash: Option<[u8; 32]>,
    state: StationSessionState,
}

/// Mathematical content of a `StationSession`.
pub ghost struct StationSessionView {
    pub session_id: Seq<u8>,
    pub mission_id: Seq<u8>,
    pub key: Seq<u8>,
    pub key_invalidated: bool,
    pub key_created_at: u64,
    pub key_ttl: u64,
    pub station_public: Seq<u8>,
    pub payload_hash: Option<Seq<u8>>,
    pub state: StationSessionState,
}

impl View for StationSession {
    type V = StationSessionView;

    closed spec fn view(&self) -> StationSessionView {
        StationSessionView {
            session_id: self.session_id@,
            mission_id: self.mission_id@,
            key: self.key.key_spec(),
            key_invalidated: self.key.invalidated_spec(),
            key_created_at: self.key.created_at_spec(),
            key_ttl: self.key.ttl_spec(),
            station_public: self.station_public@,
            payload_hash: match self.payload_hash {
                Some(h) => Some(h@),
                None => None,
            },
            state: self.state,
        }
    }
}

/// Station half of the transfer protocol.
pub struct MissionStation {
    crypto: CryptoEngine,
    sessions: Vec<StationSession>,
}

impl View for MissionStation {
    type V = Seq<StationSessionView>;

    closed spec fn view(&self) -> Seq<StationSessionView> {
        Seq::new(self.sessions@.len(), |i: int| self.sessions@[i]@)
    }
}

/// Whether a station session's key has lapsed at `now_ms`: it was
/// invalidated, or more than its time to live passed since its creation.
pub open spec fn spec_station_key_expired(s: StationSessionView, now_ms: u64) -> bool {
    s.key_invalidated || now_ms > s.key_created_at + s.key_ttl
}

/// Index of the station session with the given id, if any.
pub open spec fn spec_find_station_session(sessions: Seq<StationSessionView>, sid: Seq<u8>) -> Option<int> {
    if exists|i: int| 0 <= i < sessions.len() && sessions[i].session_id == sid {
        Some(choose|i: int| 0 <= i < sessions.len() && sessions[i].session_id == sid)
    } else {
        None
    }
}

impl Default for MissionStation {
    fn default() -> (r: Self)
        ensures
            r.wf(),
            r@.len() == 0,
    {
        MissionStation::new()
    }
}

impl MissionStation {
    /// The device key material, for contracts only.
    pub closed spec fn crypto_spec(self) -> CryptoEngine {
        self.crypto
    }

    /// The station's Ed25519 verifying key.
    pub closed spec fn verifying_key_spec(self) -> Seq<u8> {
        crate::crypto::ed25519_public_of(self.crypto.signing_secret_spec())
    }

    /// Session ids are pairwise distinct and the key material is well formed.
    pub open spec fn wf(self) -> bool {
        &&& self.crypto_spec().wf()
        &&& forall|i: int, j: int|
            0 <= i < j < self@.len() ==> (#[trigger] self@[i]).session_id != (
            #[trigger] self@[j]).session_id
        &&& forall|i: int| 0 <= i < self@.len() ==> (#[trigger] self@[i]).session_id.len() == 16
    }

    pub fn new() -> (r: Self)
        ensures
            r.wf(),
            r@.len() == 0,
    {
        MissionStation { crypto: CryptoEngine::new(), sessions: Vec::new() }
    }

    /// The Ed25519 verifying key a drone must use for this station.
    pub fn signing_public_key(&self) -> (r: &[u8; 32])
        requires
            self.wf(),
        ensures
            r@ == self.verifying_key_spec(),
    {
        self.crypto.ed25519_public_key()
    }

    /// The station's current X25519 public key (rotates after every prepare).
    pub fn public_key(&self) -> (r: &[u8; 32])
        requires
            self.wf(),
        ensures
            r@ == x25519_of(self.crypto_spec().ecdh_secret_spec(), crate::crypto::x25519_base_point()),
    {
        self.crypto.ecdh_public_key()
    }

    /// Index of the session with the given id.
    fn find_session(&self, sid: &[u8; 16]) -> (r: Option<usize>)
        requires
            self.wf(),
        ensures
            match r {
                Some(i) => i < self@.len() && self@[i as int].session_id == sid@
                    && spec_find_station_session(self@, sid@) == Some(i as int),
                None => spec_find_station_session(self@, sid@) is None,
            },
    {
        let n = self.sessions.len();
        let mut i: usize = 0;
        while i < n
            invariant
                self.wf(),
                n == self@.len(),
                0 <= i <= n,
                forall|j: int| 0 <= j < i ==> self@[j].session_id != sid@,
            decreases n - i,
        {
            if constant_time_eq(self.sessions[i].session_id.as_slice(), sid.as_slice()) {
                proof {
                    let k = i as int;
                    assert(self@[k].session_id == sid@);
                    let j = choose|j: int|
                        0 <= j < self@.len() && self@[j].session_id == sid@;
                    if j != k {
                        if j < k {
                            assert(self@[j].session_id != self@[k].session_id);
                        } else {
                            assert(self@[k].session_id != self@[j].session_id);
                        }
                    }
                }
                return Some(i);
            }
            i = i + 1;
        }
        None
    }

    /// Prepares a mission for transfer: draws a fresh session nonce, agrees
    /// with the drone's public key and rotates the local ephemeral pair,
    /// derives the session key, seals the canonical mission bytes with the
    /// context as associated data, and signs the result.
    pub fn prepare_mission_for_transfer(&mut self, mission: &MissionPayload, drone_public: &[u8; 32], context_hash: &[u8; 32], now_ms: u64) -> (r: Result<
        EncryptedMissionPayload,
        MissionTransferError,
    >)
        requires
            old(self).wf(),
            now_ms + MISSION_VALIDITY_MS <= u64::MAX,
        ensures
            final(self).wf(),
            !mission.wf() ==> r == Err::<EncryptedMissionPayload, MissionTransferError>(
                MissionTransferError::PayloadTooLarge,
            ),
            mission.wf() ==> r is Ok || r == Err::<EncryptedMissionPayload, MissionTransferError>(
                MissionTransferError::Collision,
            ),
            r == Err::<EncryptedMissionPayload, MissionTransferError>(
                MissionTransferError::Collision,
            ) ==> old(self)@.len() > 0,
            mission.wf() && old(self)@.len() == 0 ==> r is Ok,
            r is Ok ==> ({
                let p = r.unwrap()@;
                let key = spec_session_key(
                    x25519_of(old(self).crypto_spec().ecdh_secret_spec(), drone_public@),
                    p.session_nonce,
                );
                &&& r.unwrap().wf()
                &&& p.mission_id == mission@.mission_id
                &&& p.context_hash == context_hash@
                &&& p.validity_deadline == now_ms + MISSION_VALIDITY_MS
                &&& p.ciphertext.len() >= 28
                &&& aead_open_of(
                    key,
                    p.ciphertext.subrange(0, 12),
                    p.ciphertext.skip(12),
                    spec_mission_aad(p.mission_id, p.session_nonce, p.context_hash),
                ) == Some(spec_encode_mission(mission@))
                &&& p.signature.len() == 64
                &&& ed25519_verifies(
                    final(self).verifying_key_spec(),
                    spec_mission_signing_bytes(
                        p.mission_id,
                        p.ciphertext,
                        p.session_nonce,
                        p.context_hash,
                    ),
                    p.signature,
                )
                &&& ({
                    let found = spec_find_station_session(final(self)@, p.session_nonce);
                    &&& found is Some
                    &&& final(self)@[found.unwrap()].key == key
                    &&& final(self)@[found.unwrap()].mission_id == p.mission_id
                    &&& final(self)@[found.unwrap()].state == StationSessionState::Prepared
                    &&& !final(self)@[found.unwrap()].key_invalidated
                    &&& final(self)@[found.unwrap()].key_created_at == now_ms
                    &&& final(self)@[found.unwrap()].key_ttl == MAX_SESSION_TTL_MS
                })
            }),
    {
        if mission.body.len() > crate::mission::MAX_MISSION_BODY_BYTES {
            return Err(MissionTransferError::PayloadTooLarge);
        }
        let session_nonce = generate_nonce();
        let station_public = *self.crypto.ecdh_public_key();
        let shared = self.crypto.derive_shared_secret(drone_public);
        let info = session_info_bytes();
        let session_key = derive_session_key(&shared, session_nonce.as_slice(), info.as_slice());
        let mission_bytes = mission.encode();
        let mut aad: Vec<u8> = Vec::new();
        push_bytes(&mut aad, mission.mission_id.as_slice());
        push_bytes(&mut aad, session_nonce.as_slice());
        push_bytes(&mut aad, context_hash.as_slice());
        proof {
            assert(aad@ =~= spec_mission_aad(mission@.mission_id, session_nonce@, context_hash@));
        }
        let nonce12 = crate::crypto::generate_secure_random_bytes(12);
        let sealed = match aead_seal_with_nonce(
            &session_key,
            nonce12.as_slice(),
            mission_bytes.as_slice(),
            aad.as_slice(),
        ) {
            Ok(ct) => ct,
            Err(_) => {
                proof {
                    assert(false);
                }
                return Err(MissionTransferError::PayloadTooLarge);
            },
        };
        let mut ciphertext: Vec<u8> = Vec::new();
        push_bytes(&mut ciphertext, nonce12.as_slice());
        push_bytes(&mut ciphertext, sealed.as_slice());
        proof {
            assert(ciphertext@.subrange(0, 12) =~= nonce12@);
            assert(ciphertext@.skip(12) =~= sealed@);
        }
        let mut signing: Vec<u8> = Vec::new();
        push_bytes(&mut signing, mission.mission_id.as_slice());
        push_bytes(&mut signing, ciphertext.as_slice());
        push_bytes(&mut signing, session_nonce.as_slice());
        push_bytes(&mut signing, context_hash.as_slice());
        proof {
            assert(signing@ =~= spec_mission_signing_bytes(
                mission@.mission_id,
                ciphertext@,
                session_nonce@,
                context_hash@,
            ));
        }
        let signature = self.crypto.sign_log_entry(signing.as_slice());
        let session = StationSession {
            session_id: session_nonce,
            mission_id: mission.mission_id,
            key: EphemeralKeySession::new(session_key, MAX_SESSION_TTL_MS, now_ms),
            station_public,
            payload_hash: None,
            state: StationSessionState::Prepared,
        };
        let idx_opt = self.find_session(&session_nonce);
        match idx_opt {
            Some(_) => {
                // The fresh random nonce collided with a live session's id:
                // abort this prepare rather than corrupt that session.
                proof {
                    assert(self@ =~= old(self)@);
                }
                return Err(MissionTransferError::Collision);
            },
            None => {},
        }
        let ghost old_view = self@;
        self.sessions.push(session);
        proof {
            assert(self@ =~= old_view.push(session@));
            let k = old_view.len() as int;
            assert(self@[k].session_id == session_nonce@);
            assert(exists|i: int|
                0 <= i < self@.len() && (#[trigger] self@[i]).session_id == session_nonce@);
            let j = choose|i: int|
                0 <= i < self@.len() && (#[trigger] self@[i]).session_id == session_nonce@;
            if j != k {
                if j < k {
                    assert(old_view[j].session_id == session_nonce@);
                    assert(spec_find_station_session(old_view, session_nonce@) is Some);
                    assert(false);
                }
            }
        }
        Ok(EncryptedMissionPayload {
            mission_id: mission.mission_id,
            ciphertext,
            signature,
            session_nonce,
            validity_deadline: now_ms + MISSION_VALIDITY_MS,
            context_hash: *context_hash,
        })
    }

    /// Emits the two witnesses for a prepared mission: the visual handshake
    /// frame carrying the agreement public key, and the sequence-1 acoustic
    /// binding frame whose payload hash fingerprints the ciphertext under the
    /// session key's MAC.
    pub fn emit_witnesses(&mut self, payload: &EncryptedMissionPayload, now_ms: u64) -> (r: Result<
        (VisualFrame, BindingFrame),
        MissionTransferError,
    >)
        requires
            old(self).wf(),
            payload.wf(),
        ensures
            final(self).wf(),
            ({
                let found = spec_find_station_session(old(self)@, payload@.session_nonce);
                match found {
                    None => r == Err::<(VisualFrame, BindingFrame), MissionTransferError>(
                        MissionTransferError::SessionNotFound,
                    ),
                    Some(i) => {
                        let sess = old(self)@[i];
                        &&& (spec_station_key_expired(sess, now_ms) <==> r == Err::<
                            (VisualFrame, BindingFrame),
                            MissionTransferError,
                        >(MissionTransferError::Expired))
                        &&& (spec_station_key_expired(sess, now_ms) ==> final(self)@[i].state
                            == StationSessionState::Aborted && final(self)@[i].key
                            == zeroized_key())
                        &&& (!spec_station_key_expired(sess, now_ms) ==> r is Ok
                            && final(self)@[i].state == StationSessionState::AwaitingAck
                            && final(self)@[i].payload_hash == Some(
                            sha256_of(payload@.ciphertext),
                        ) && final(self)@[i].key == sess.key && ({
                            let (vf, bf) = (r.unwrap().0@, r.unwrap().1@);
                            &&& r.unwrap().0.wf()
                            &&& r.unwrap().1.wf()
                            &&& vf.session_id == payload@.session_nonce
                            &&& vf.public_key == sess.station_public
                            &&& vf.nonce == payload@.session_nonce
                            &&& vf.signature == payload@.signature
                            &&& bf.session_id == payload@.session_nonce
                            &&& bf.mission_id == payload@.mission_id
                            &&& bf.payload_hash == sha256_of(payload@.ciphertext)
                            &&& bf.sequence_id == 1
                            &&& bf.emitted_at == now_ms
                            &&& bf.mac == hmac_sha256_of(
                                sess.key,
                                spec_binding_mac_bytes(
                                    payload@.mission_id,
                                    sha256_of(payload@.ciphertext),
                                    payload@.session_nonce,
                                ),
                            )
                        }))
                    },
                }
            }),
    {
        let idx_opt = self.find_session(&payload.session_nonce);
        let i = match idx_opt {
            None => {
                return Err(MissionTransferError::SessionNotFound);
            },
            Some(i) => i,
        };
        let payload_hash = generate_device_fingerprint(payload.ciphertext.as_slice());
        let mut sess = self.sessions.remove(i);
        let key = match sess.key.key(now_ms) {
            Ok(k) => k,
            Err(_) => {
                sess.key.invalidate();
                sess.state = StationSessionState::Aborted;
                self.sessions.insert(i, sess);
                proof {
                    assert(final(self).wf()) by {
                        assert(self@ =~= old(self)@.update(i as int, self@[i as int]));
                    }
                }
                return Err(MissionTransferError::Expired);
            },
        };
        let mut mac_bytes: Vec<u8> = Vec::new();
        push_bytes(&mut mac_bytes, payload.mission_id.as_slice());
        push_bytes(&mut mac_bytes, payload_hash.as_slice());
        push_bytes(&mut mac_bytes, payload.session_nonce.as_slice());
        proof {
            assert(mac_bytes@ =~= spec_binding_mac_bytes(
                payload@.mission_id,
                payload_hash@,
                payload@.session_nonce,
            ));
        }
        let mac_vec = compute_hmac(key.as_slice(), mac_bytes.as_slice());
        let mac = read_bytes32(mac_vec.as_slice(), 0);
        proof {
            assert(mac@ =~= mac_vec@);
        }
        let visual = VisualFrame {
            session_id: payload.session_nonce,
            public_key: sess.station_public,
            nonce: payload.session_nonce,
            signature: clone_vec(&payload.signature),
        };
        let binding = BindingFrame {
            session_id: payload.session_nonce,
            mission_id: payload.mission_id,
            payload_hash,
            sequence_id: 1,
            emitted_at: now_ms,
            mac,
        };
        sess.payload_hash = Some(payload_hash);
        sess.state = StationSessionState::AwaitingAck;
        self.sessions.insert(i, sess);
        proof {
            assert(self@ =~= old(self)@.update(i as int, self@[i as int]));
        }
        Ok((visual, binding))
    }

    /// Consumes a drone acknowledgment.  The first valid sequence-2 frame for
    /// a waiting session moves it to acknowledged and zeroizes the session
    /// key; a repeated acknowledgment is ignored and changes nothing.
    pub fn receive_acknowledgment(&mut self, frame: &BindingFrame, now_ms: u64) -> (r: Result<
        bool,
        MissionTransferError,
    >)
        requires
            old(self).wf(),
        ensures
            final(self).wf(),
            ({
                let found = spec_find_station_session(old(self)@, frame@.session_id);
                match found {
                    None => r == Err::<bool, MissionTransferError>(
                        MissionTransferError::SessionNotFound,
                    ) && final(self)@ == old(self)@,
                    Some(i) => {
                        let sess = old(self)@[i];
                        &&& (sess.state == StationSessionState::Acknowledged ==> r == Ok::<
                            bool,
                            MissionTransferError,
                        >(false) && final(self)@ == old(self)@)
                        &&& (sess.state == StationSessionState::AwaitingAck && frame@.sequence_id
                            == 2 && frame@.payload_hash == spec_ack_digest(sess.mission_id) ==> r
                            == Ok::<bool, MissionTransferError>(true) && final(self)@[i].state
                            == StationSessionState::Acknowledged && final(self)@[i].key
                            == zeroized_key())
                        &&& (sess.state == StationSessionState::AwaitingAck && frame@.sequence_id
                            != 2 ==> r == Err::<bool, MissionTransferError>(
                            MissionTransferError::SequenceError,
                        ) && final(self)@ == old(self)@)
                        &&& (sess.state == StationSessionState::AwaitingAck && frame@.sequence_id
                            == 2 && frame@.payload_hash != spec_ack_digest(sess.mission_id) ==> r
                            == Err::<bool, MissionTransferError>(
                            MissionTransferError::HashMismatch,
                        ) && final(self)@ == old(self)@)
                    },
                }
            }),
    {
        let idx_opt = self.find_session(&frame.session_id);
        let i = match idx_opt {
            None => {
                return Err(MissionTransferError::SessionNotFound);
            },
            Some(i) => i,
        };
        let state = self.sessions[i].state;
        match state {
            StationSessionState::Acknowledged => {
                return Ok(false);
            },
            StationSessionState::AwaitingAck => {},
            _ => {
                return Err(MissionTransferError::SessionNotFound);
            },
        }
        if frame.sequence_id != 2 {
            return Err(MissionTransferError::SequenceError);
        }
        let expected = ack_digest(&self.sessions[i].mission_id);
        if !constant_time_eq(frame.payload_hash.as_slice(), expected.as_slice()) {
            return Err(MissionTransferError::HashMismatch);
        }
        let mut sess = self.sessions.remove(i);
        sess.key.invalidate();
        sess.state = StationSessionState::Acknowledged;
        self.sessions.insert(i, sess);
        proof {
            assert(self@ =~= old(self)@.update(i as int, self@[i as int]));
        }
        Ok(true)
    }
}

/// The digest a drone acknowledges with: the fingerprint of `ACK` followed by
/// the mission identifier.
pub fn ack_digest(mission_id: &[u8; 16]) -> (r: [u8; 32])
    ensures
        r@ == spec_ack_digest(mission_id@),
{
    let mut data: Vec<u8> = vec![65u8, 67u8, 75u8];
    push_bytes(&mut data, mission_id.as_slice());
    proof {
        assert(data@ =~= seq![65u8, 67u8, 75u8] + mission_id@);
    }
    generate_device_fingerprint(data.as_slice())
}

/// Copies a byte vector.
fn clone_vec(src: &Vec<u8>) -> (r: Vec<u8>)
    ensures
        r@ == src@,
{
    let mut r: Vec<u8> = Vec::new();
    push_bytes(&mut r, src.as_slice());
    r
}

/// Where a drone-side transfer stands.  The intermediate steps between
/// receiving the witnesses and decrypting (binding received, coupled,
/// authorized) are evaluated in one piece inside `complete_transfer`, so a
/// session at rest is in one of these four states.
#[derive(Debug, Clone, Copy, PartialEq, Eq, Structural)]
pub enum DroneTransferState {
    /// The visual handshake witness and the encrypted mission arrived.
    VisualRxed,
    /// Both witnesses coupled, authorization passed, payload decrypted.
    Decrypted,
    /// The sequence-2 acknowledgment was emitted; the session is over.
    Acknowledged,
    /// A gate refused; the session is over and its key material zeroized.
    Rejected,
}

/// One mission a drone has partially received.
pub struct DronePending {
    session_id: [u8; 16],
    mission_id: [u8; 16],
    station_public: [u8; 32],
    ciphertext: Vec<u8>,
    signature: Vec<u8>,
    validity_deadline: u64,
    context_hash: [u8; 32],
    payload_hash: [u8; 32],
    received_at_ms: u64,
    key: Option<[u8; 32]>,
    state: DroneTransferState,
}

/// Mathematical content of a `DronePending`.
pub ghost struct DronePendingView {
    pub session_id: Seq<u8>,
    pub mission_id: Seq<u8>,
    pub station_public: Seq<u8>,
    pub ciphertext: Seq<u8>,
    pub signature: Seq<u8>,
    pub validity_deadline: u64,
    pub context_hash: Seq<u8>,
    pub payload_hash: Seq<u8>,
    pub received_at_ms: u64,
    pub key: Option<Seq<u8>>,
    pub state: DroneTransferState,
}

impl View for DronePending {
    type V = DronePendingView;

    closed spec fn view(&self) -> DronePendingView {
        DronePendingView {
            session_id: self.session_id@,
            mission_id: self.mission_id@,
            station_public: self.station_public@,
            ciphertext: self.ciphertext@,
            signature: self.signature@,
            validity_deadline: self.validity_deadline,
            context_hash: self.context_hash@,
            payload_hash: self.payload_hash@,
            received_at_ms: self.received_at_ms,
            key: match self.key {
                Some(k) => Some(k@),
                None => None,
            },
            state: self.state,
        }
    }
}

/// Exact parse of the wide-channel bytes: a visual handshake frame
/// immediately followed by an encrypted mission, with nothing left over.
pub open spec fn spec_decode_wide(s: Seq<u8>) -> Option<(VisualFrameView, EncryptedMissionView)> {
    if s.len() < 66 {
        None
    } else {
        let sig_len = spec_u16_from_be_bytes(s.subrange(64, 66)) as int;
        if sig_len > 64 || s.len() < 66 + sig_len {
            None
        } else {
            match (spec_decode_visual(s.subrange(0, 66 + sig_len)), spec_decode_encrypted_mission(
                s.skip(66 + sig_len),
            )) {
                (Some(vf), Some(em)) => Some((vf, em)),
                _ => None,
            }
        }
    }
}

/// Index of the pending mission with the given session id, if any.
pub open spec fn spec_find_pending(pending: Seq<DronePendingView>, sid: Seq<u8>) -> Option<int> {
    if exists|i: int| 0 <= i < pending.len() && pending[i].session_id == sid {
        Some(choose|i: int| 0 <= i < pending.len() && pending[i].session_id == sid)
    } else {
        None
    }
}

/// The session key a drone derives for a pending mission.
pub open spec fn spec_drone_session_key(drone_secret: Seq<u8>, station_public: Seq<u8>, session_nonce: Seq<u8>) -> Seq<u8> {
    spec_session_key(x25519_of(drone_secret, station_public), session_nonce)
}

/// Drone half of the transfer protocol.
pub struct MissionDrone {
    crypto: CryptoEngine,
    /// The operator registry and scope grants gating decryption.
    pub security: SecurityManager,
    validator: ChannelValidator,
    station_verifying_key: [u8; 32],
    pending: Vec<DronePending>,
    mfa: MFAAuthentication,
}

impl MissionDrone {
    /// The device key material, for contracts only.
    pub closed spec fn crypto_spec(self) -> CryptoEngine {
        self.crypto
    }

    /// The pending missions, for contracts only.
    pub closed spec fn pending_spec(self) -> Seq<DronePendingView> {
        Seq::new(self.pending@.len(), |i: int| self.pending@[i]@)
    }

    /// The channel validator's state, for contracts only.
    pub closed spec fn validator_spec(self) -> Seq<crate::validator::SessionBufferView> {
        self.validator@
    }

    /// The operator registry state, for contracts only.
    pub closed spec fn security_spec(self) -> SecurityManager {
        self.security
    }

    /// The multi-factor state, for contracts only.
    pub closed spec fn mfa_spec(self) -> MFAAuthentication {
        self.mfa
    }

    /// The station verifying key this drone trusts.
    pub closed spec fn station_vk_spec(self) -> Seq<u8> {
        self.station_verifying_key@
    }

    /// Key material, validator and registry are well formed, session ids are
    /// pairwise distinct, and a pending mission implies the visual channel
    /// was witnessed.
    pub closed spec fn wf(self) -> bool {
        &&& self.crypto_spec().wf()
        &&& self.security.wf()
        &&& self.validator.wf()
        &&& forall|i: int, j: int|
            0 <= i < j < self.pending_spec().len() ==> (
            #[trigger] self.pending_spec()[i]).session_id != (
            #[trigger] self.pending_spec()[j]).session_id
        &&& (self.pending_spec().len() > 0 ==> self.mfa_spec().laser_channel_verified)
    }

    pub fn new(station_verifying_key: [u8; 32]) -> (r: Self)
        ensures
            r.wf(),
            r.pending_spec().len() == 0,
            r.station_vk_spec() == station_verifying_key@,
            r.validator_spec().len() == 0,
            r.mfa_spec() == (MFAAuthentication {
                pin_verified: false,
                biometric_verified: false,
                laser_channel_verified: false,
                ultrasound_channel_verified: false,
                cross_channel_binding_verified: false,
                last_verification: 0,
            }),
    {
        MissionDrone {
            crypto: CryptoEngine::new(),
            security: SecurityManager::new(),
            validator: ChannelValidator::new(MIN_SESSION_BUFFER),
            station_verifying_key,
            pending: Vec::new(),
            mfa: MFAAuthentication {
                pin_verified: false,
                biometric_verified: false,
                laser_channel_verified: false,
                ultrasound_channel_verified: false,
                cross_channel_binding_verified: false,
                last_verification: 0,
            },
        }
    }

    /// The drone's X25519 public key a station prepares against (rotates
    /// after every completed agreement).
    pub fn public_key(&self) -> (r: &[u8; 32])
        requires
            self.wf(),
        ensures
            r@ == x25519_of(self.crypto_spec().ecdh_secret_spec(), crate::crypto::x25519_base_point()),
    {
        self.crypto.ecdh_public_key()
    }

    /// Index of the pending mission with the given session id.
    fn find_pending(&self, sid: &[u8; 16]) -> (r: Option<usize>)
        requires
            self.wf(),
        ensures
            match r {
                Some(i) => i < self.pending_spec().len() && self.pending_spec()[i as int].session_id
                    == sid@ && spec_find_pending(self.pending_spec(), sid@) == Some(i as int),
                None => spec_find_pending(self.pending_spec(), sid@) is None,
            },
    {
        let n = self.pending.len();
        let mut i: usize = 0;
        while i < n
            invariant
                self.wf(),
                n == self.pending_spec().len(),
                0 <= i <= n,
                forall|j: int| 0 <= j < i ==> self.pending_spec()[j].session_id != sid@,
            decreases n - i,
        {
            if constant_time_eq(self.pending[i].session_id.as_slice(), sid.as_slice()) {
                proof {
                    let k = i as int;
                    let j = choose|j: int|
                        0 <= j < self.pending_spec().len() && self.pending_spec()[j].session_id
                            == sid@;
                    if j != k {
                        if j < k {
                            assert(self.pending_spec()[j].session_id != self.pending_spec()[k].session_id);
                        } else {
                            assert(self.pending_spec()[k].session_id != self.pending_spec()[j].session_id);
                        }
                    }
                }
                return Some(i);
            }
            i = i + 1;
        }
        None
    }

    /// Ingests the wide-channel bytes: a visual handshake frame immediately
    /// followed by the encrypted mission.  Registers the session with the
    /// validator; a second visual witness for a live session is a collision
    /// and rejects both.
    pub fn ingest_visual(&mut self, bytes: &[u8], now_ms: u64) -> (r: Result<
        [u8; 16],
        MissionTransferError,
    >)
        requires
            old(self).wf(),
        ensures
            final(self).wf(),
            r is Ok ==> ({
                let found = spec_find_pending(final(self).pending_spec(), r.unwrap()@);
                &&& found is Some
                &&& ({
                    let p = final(self).pending_spec()[found.unwrap()];
                    &&& p.state == DroneTransferState::VisualRxed
                    &&& p.received_at_ms == now_ms
                    &&& p.payload_hash == sha256_of(p.ciphertext)
                    &&& p.key is None
                })
                &&& final(self).mfa_spec().laser_channel_verified
            }),
            ({
                match spec_decode_wide(bytes@) {
                    None => (exists|e: DecodeError|
                        r == Err::<[u8; 16], MissionTransferError>(
                            MissionTransferError::FrameError(e),
                        )) && *final(self) == *old(self),
                    Some((vf, em)) => {
                        let prior_visual = match spec_find_session(
                            old(self).validator_spec(),
                            vf.session_id,
                        ) {
                            Some(vi) => old(self).validator_spec()[vi].visual_at is Some,
                            None => false,
                        };
                        if vf.session_id != em.session_nonce {
                            r == Err::<[u8; 16], MissionTransferError>(
                                MissionTransferError::SessionMismatch,
                            ) && *final(self) == *old(self)
                        } else {
                            match spec_find_pending(old(self).pending_spec(), vf.session_id) {
                                Some(i) => {
                                    &&& r == Err::<[u8; 16], MissionTransferError>(
                                        MissionTransferError::Collision,
                                    )
                                    &&& final(self).pending_spec()[i].state
                                        == DroneTransferState::Rejected
                                    &&& final(self).pending_spec()[i].key is None
                                    &&& final(self).pending_spec().len() == old(
                                        self,
                                    ).pending_spec().len()
                                    &&& forall|j: int|
                                        0 <= j < old(self).pending_spec().len() && j != i
                                            ==> final(self).pending_spec()[j] == old(
                                            self,
                                        ).pending_spec()[j]
                                },
                                None => {
                                    if prior_visual {
                                        r == Err::<[u8; 16], MissionTransferError>(
                                            MissionTransferError::Collision,
                                        ) && final(self).pending_spec() == old(
                                            self,
                                        ).pending_spec()
                                    } else {
                                        &&& r is Ok
                                        &&& r.unwrap()@ == vf.session_id
                                        &&& final(self).pending_spec() == old(
                                            self,
                                        ).pending_spec().push(
                                            (DronePendingView {
                                                session_id: vf.session_id,
                                                mission_id: em.mission_id,
                                                station_public: vf.public_key,
                                                ciphertext: em.ciphertext,
                                                signature: em.signature,
                                                validity_deadline: em.validity_deadline,
                                                context_hash: em.context_hash,
                                                payload_hash: sha256_of(em.ciphertext),
                                                received_at_ms: now_ms,
                                                key: None,
                                                state: DroneTransferState::VisualRxed,
                                            }),
                                        )
                                        &&& ({
                                            let fv = final(self).validator_spec();
                                            let vfound = spec_find_session(fv, vf.session_id);
                                            vfound is Some && fv[vfound.unwrap()].visual_at
                                                == Some(now_ms)
                                        })
                                    }
                                },
                            }
                        }
                    },
                }
            }),
    {
        if bytes.len() < 66 {
            return Err(MissionTransferError::FrameError(DecodeError::Truncated));
        }
        let sig_len = read_u16_be(bytes, 64) as usize;
        if sig_len > 64 {
            return Err(MissionTransferError::FrameError(DecodeError::FieldTooLong));
        }
        if bytes.len() < 66 + sig_len {
            return Err(MissionTransferError::FrameError(DecodeError::Truncated));
        }
        let frame_bytes = copy_range(bytes, 0, 66 + sig_len);
        let frame = match VisualFrame::decode(frame_bytes.as_slice()) {
            Err(e) => {
                return Err(MissionTransferError::FrameError(e));
            },
            Ok(f) => f,
        };
        let rest = copy_range(bytes, 66 + sig_len, bytes.len() - 66 - sig_len);
        proof {
            assert(rest@ =~= bytes@.skip(66 + sig_len as int));
        }
        let payload = match EncryptedMissionPayload::decode(rest.as_slice()) {
            Err(e) => {
                return Err(MissionTransferError::FrameError(e));
            },
            Ok(p) => p,
        };
        proof {
            assert(spec_decode_wide(bytes@) == Some((frame@, payload@)));
        }
        if !constant_time_eq(frame.session_id.as_slice(), payload.session_nonce.as_slice()) {
            return Err(MissionTransferError::SessionMismatch);
        }
        let existing = self.find_pending(&frame.session_id);
        match existing {
            Some(i) => {
                // A second visual witness for a live session: collision, and
                // the session can never couple again.
                let _ = self.validator.observe_visual(&frame.session_id, now_ms);
                let mut p = self.pending.remove(i);
                p.state = DroneTransferState::Rejected;
                p.key = None;
                self.pending.insert(i, p);
                proof {
                    assert(self.pending_spec() =~= old(self).pending_spec().update(
                        i as int,
                        self.pending_spec()[i as int],
                    ));
                }
                return Err(MissionTransferError::Collision);
            },
            None => {},
        }
        match self.validator.observe_visual(&frame.session_id, now_ms) {
            Err(_) => {
                return Err(MissionTransferError::Collision);
            },
            Ok(()) => {},
        }
        let payload_hash = generate_device_fingerprint(payload.ciphertext.as_slice());
        let entry = DronePending {
            session_id: frame.session_id,
            mission_id: payload.mission_id,
            station_public: frame.public_key,
            ciphertext: payload.ciphertext,
            signature: payload.signature,
            validity_deadline: payload.validity_deadline,
            context_hash: payload.context_hash,
            payload_hash,
            received_at_ms: now_ms,
            key: None,
            state: DroneTransferState::VisualRxed,
        };
        let ghost old_pending = self.pending_spec();
        self.pending.push(entry);
        self.mfa.laser_channel_verified = true;
        proof {
            assert(self.pending_spec() =~= old_pending.push(entry@));
            let k = old_pending.len() as int;
            assert(self.pending_spec()[k].session_id == frame.session_id@);
            let j = choose|j: int|
                0 <= j < self.pending_spec().len() && (#[trigger] self.pending_spec()[j]).session_id
                    == frame.session_id@;
            if j < k {
                assert(old_pending[j].session_id == frame.session_id@);
                assert(spec_find_pending(old_pending, frame.session_id@) is Some);
                assert(false);
            }
        }
        Ok(frame.session_id)
    }

    /// Ingests narrow-channel bytes: decodes a binding frame and hands it to
    /// the validator, which accepts it only in strict sequence order within
    /// the bounded buffer.
    pub fn ingest_acoustic(&mut self, bytes: &[u8], now_ms: u64) -> (r: Result<
        IngestOutcome,
        MissionTransferError,
    >)
        requires
            old(self).wf(),
        ensures
            final(self).wf(),
            r is Ok <==> spec_decode_binding(bytes@) is Some,
            r is Err ==> (exists|e: DecodeError|
                r == Err::<IngestOutcome, MissionTransferError>(
                    MissionTransferError::FrameError(e),
                )) && *final(self) == *old(self),
            final(self).pending_spec() == old(self).pending_spec(),
            r is Ok ==> ({
                let frame = spec_decode_binding(bytes@).unwrap();
                let found = spec_find_session(old(self).validator_spec(), frame.session_id);
                &&& (match found {
                    Some(i) => {
                        let b = old(self).validator_spec()[i];
                        &&& (r.unwrap() == IngestOutcome::Accepted <==> frame.sequence_id
                            == b.accepted_seqs.len() + 1 && b.accepted_seqs.len()
                            < old(self).validator_capacity_spec())
                        &&& (r.unwrap() != IngestOutcome::Accepted ==> final(self).validator_spec() == old(self).validator_spec())
                        &&& (r.unwrap() == IngestOutcome::Accepted ==> final(self).validator_spec() == old(self).validator_spec().update(
                            i,
                            (crate::validator::SessionBufferView {
                                first_acoustic_at: if b.accepted_seqs.len() == 0 {
                                    Some(now_ms)
                                } else {
                                    b.first_acoustic_at
                                },
                                acoustic_hash: if b.accepted_seqs.len() == 0 {
                                    Some(frame.payload_hash)
                                } else {
                                    b.acoustic_hash
                                },
                                acoustic_mac: if b.accepted_seqs.len() == 0 {
                                    Some(frame.mac)
                                } else {
                                    b.acoustic_mac
                                },
                                accepted_seqs: b.accepted_seqs.push(frame.sequence_id),
                                ..b
                            }),
                        ))
                    },
                    None => {
                        &&& (r.unwrap() == IngestOutcome::Accepted <==> frame.sequence_id == 1)
                        &&& (frame.sequence_id == 1 ==> final(self).validator_spec() == old(
                            self,
                        ).validator_spec().push(
                            (crate::validator::SessionBufferView {
                                session_id: frame.session_id,
                                visual_at: None,
                                collision: false,
                                first_acoustic_at: Some(now_ms),
                                acoustic_hash: Some(frame.payload_hash),
                                acoustic_mac: Some(frame.mac),
                                accepted_seqs: seq![frame.sequence_id],
                            }),
                        ))
                        &&& (frame.sequence_id != 1 ==> r.unwrap()
                            == IngestOutcome::OutOfOrderDropped && final(self).validator_spec()
                            == old(self).validator_spec())
                    },
                })
                &&& (r.unwrap() == IngestOutcome::Accepted
                    ==> final(self).mfa_spec().ultrasound_channel_verified)
                &&& (r.unwrap() != IngestOutcome::Accepted ==> final(self).mfa_spec() == old(
                    self,
                ).mfa_spec())
            }),
    {
        let frame = match BindingFrame::decode(bytes) {
            Err(e) => {
                return Err(MissionTransferError::FrameError(e));
            },
            Ok(f) => f,
        };
        let outcome = self.validator.observe_acoustic(
            &frame.session_id,
            frame.sequence_id,
            now_ms,
            &frame.payload_hash,
            &frame.mac,
        );
        match outcome {
            IngestOutcome::Accepted => {
                self.mfa.ultrasound_channel_verified = true;
            },
            _ => {},
        }
        Ok(outcome)
    }

    /// The validator's per-session buffer bound, for contracts only.
    pub closed spec fn validator_capacity_spec(self) -> usize {
        self.validator.capacity_spec()
    }
}

/// Whether the validator holds a coupled witness for `sid` matching
/// `expected_hash`: both channels observed, no collision, within the window.
pub open spec fn spec_coupled_ok(v: Seq<crate::validator::SessionBufferView>, sid: Seq<u8>, expected_hash: Seq<u8>) -> bool {
    match spec_find_session(v, sid) {
        Some(i) => {
            let b = v[i];
            &&& !b.collision
            &&& b.visual_at is Some
            &&& b.first_acoustic_at is Some
            &&& b.acoustic_hash == Some(expected_hash)
            &&& within_coupling_window(b.visual_at.unwrap(), b.first_acoustic_at.unwrap())
        },
        None => false,
    }
}

/// Whether the operator clears the PIN and scope checks.
pub open spec fn spec_operator_cleared(sec: SecurityManager, operator_id: Seq<u8>, pin: Seq<u8>, scopes: Seq<AuthorizationScope>, now_ms: u64) -> bool {
    match crate::authz::spec_find_operator(sec.operators_spec(), operator_id) {
        Some(i) => {
            let rec = sec.operators_spec()[i];
            &&& crate::authz::spec_attempt_allowed(rec, now_ms)
            &&& crate::authz::spec_pin_matches(rec, pin)
            &&& forall|k: int|
                0 <= k < scopes.len() ==> crate::authz::spec_has_grant(
                    sec.grants_spec(),
                    operator_id,
                    #[trigger] scopes[k],
                    now_ms,
                )
        },
        None => false,
    }
}

impl MissionDrone {
    /// Attempts the final gates and the decryption of a pending mission, in
    /// order: the session must exist and be unconsumed; the two witnesses
    /// must have coupled on the ciphertext's fingerprint; the operator must
    /// clear PIN, scopes and witness freshness; neither the validity deadline
    /// nor the session time to live may have lapsed; the binding MAC and the
    /// detached signature must verify; and the payload must open and decode
    /// to a mission carrying the expected identifier.  The first failing gate
    /// names the error, and any failure past coupling rejects the session for
    /// good.
    #[verifier::loop_isolation(false)]
    #[verifier::rlimit(100)]
    pub fn complete_transfer(&mut self, session_id: &[u8; 16], operator_id: &[u8], pin: &[u8], scopes: &Vec<AuthorizationScope>, now_ms: u64) -> (r: Result<
        MissionPayload,
        MissionTransferError,
    >)
        requires
            old(self).wf(),
        ensures
            final(self).wf(),
            ({
                let found = spec_find_pending(old(self).pending_spec(), session_id@);
                match found {
                    None => r == Err::<MissionPayload, MissionTransferError>(
                        MissionTransferError::SessionNotFound,
                    ),
                    Some(pi) => {
                        let p = old(self).pending_spec()[pi];
                        let coupled = spec_coupled_ok(
                            old(self).validator_spec(),
                            session_id@,
                            p.payload_hash,
                        );
                        let cleared = spec_operator_cleared(
                            old(self).security_spec(),
                            operator_id@,
                            pin@,
                            scopes@,
                            now_ms,
                        );
                        let unexpired = now_ms < p.validity_deadline && now_ms
                            <= p.received_at_ms + MAX_SESSION_TTL_MS;
                        let key = spec_drone_session_key(
                            old(self).crypto_spec().ecdh_secret_spec(),
                            p.station_public,
                            p.session_id,
                        );
                        let opened = aead_open_of(
                            key,
                            p.ciphertext.subrange(0, 12),
                            p.ciphertext.skip(12),
                            spec_mission_aad(p.mission_id, p.session_id, p.context_hash),
                        );
                        &&& (p.state != DroneTransferState::VisualRxed ==> r == Err::<
                            MissionPayload,
                            MissionTransferError,
                        >(MissionTransferError::SessionNotFound))
                        &&& (p.state == DroneTransferState::VisualRxed && ({
                            match spec_find_session(old(self).validator_spec(), session_id@) {
                                Some(vi) => {
                                    let b = old(self).validator_spec()[vi];
                                    b.collision || (b.visual_at is Some && b.first_acoustic_at
                                        is Some && (!within_coupling_window(
                                        b.visual_at.unwrap(),
                                        b.first_acoustic_at.unwrap(),
                                    ) || b.acoustic_hash != Some(p.payload_hash)))
                                },
                                None => false,
                            }
                        }) ==> ({
                            let fin = spec_find_pending(final(self).pending_spec(), session_id@);
                            &&& r is Err
                            &&& fin is Some
                            &&& final(self).pending_spec()[fin.unwrap()].state
                                == DroneTransferState::Rejected
                            &&& final(self).pending_spec()[fin.unwrap()].key is None
                        }))
                        &&& (r is Ok ==> ({
                            &&& p.state == DroneTransferState::VisualRxed
                            &&& coupled
                            &&& cleared
                            &&& unexpired
                            &&& p.ciphertext.len() >= 28
                            &&& ed25519_verifies(
                                old(self).station_vk_spec(),
                                spec_mission_signing_bytes(
                                    p.mission_id,
                                    p.ciphertext,
                                    p.session_id,
                                    p.context_hash,
                                ),
                                p.signature,
                            )
                            &&& opened is Some
                            &&& spec_decode_mission(opened.unwrap()) == Some(r.unwrap()@)
                            &&& r.unwrap()@.mission_id == p.mission_id
                            &&& ({
                                let fin = spec_find_pending(final(self).pending_spec(), session_id@);
                                &&& fin is Some
                                &&& final(self).pending_spec()[fin.unwrap()].state
                                    == DroneTransferState::Decrypted
                                &&& final(self).pending_spec()[fin.unwrap()].key == Some(key)
                            })
                        }))
                        &&& (p.state == DroneTransferState::VisualRxed && coupled && cleared
                            && !unexpired ==> r == Err::<MissionPayload, MissionTransferError>(
                            MissionTransferError::Expired,
                        ))
                        &&& (r == Err::<MissionPayload, MissionTransferError>(
                            MissionTransferError::Expired,
                        ) ==> !unexpired)
                        &&& (p.state == DroneTransferState::VisualRxed && coupled && cleared
                            && unexpired && spec_coupled_mac_ok(
                            old(self).validator_spec(),
                            session_id@,
                            key,
                            p.mission_id,
                            p.payload_hash,
                        ) && ed25519_verifies(
                            old(self).station_vk_spec(),
                            spec_mission_signing_bytes(
                                p.mission_id,
                                p.ciphertext,
                                p.session_id,
                                p.context_hash,
                            ),
                            p.signature,
                        ) && p.signature.len() == 64 && p.ciphertext.len() >= 28
                            && opened is Some
                            && spec_decode_mission(opened.unwrap()) is Some
                            && spec_decode_mission(opened.unwrap()).unwrap().mission_id
                            == p.mission_id ==> r is Ok)
                    },
                }
            }),
    {
        let pi = match self.find_pending(session_id) {
            None => {
                return Err(MissionTransferError::SessionNotFound);
            },
            Some(i) => i,
        };
        let state = self.pending[pi].state;
        match state {
            DroneTransferState::VisualRxed => {},
            _ => {
                return Err(MissionTransferError::SessionNotFound);
            },
        }
        let expected_hash = self.pending[pi].payload_hash;
        let witness = match self.validator.await_coupled_witness(session_id, &expected_hash) {
            Err(e) => {
                let mapped = match e {
                    ValidationError::UnknownSession => MissionTransferError::CouplingTimeout,
                    ValidationError::Timeout => MissionTransferError::CouplingTimeout,
                    ValidationError::TemporalMismatch => MissionTransferError::CouplingTimeout,
                    ValidationError::HashMismatch => MissionTransferError::HashMismatch,
                    ValidationError::Collision => MissionTransferError::Collision,
                };
                // A definite coupling failure (collision, temporal mismatch or
                // binding-hash mismatch) is terminal: the session is rejected
                // and its partial state dropped.  A witness that has merely
                // not arrived yet is not.
                let terminal = match e {
                    ValidationError::Collision => true,
                    ValidationError::TemporalMismatch => true,
                    ValidationError::HashMismatch => true,
                    _ => false,
                };
                if terminal {
                    self.reject_at(pi);
                    proof {
                        let fin = spec_find_pending(self.pending_spec(), session_id@);
                        assert(self.pending_spec()[pi as int].session_id == session_id@);
                        assert(fin is Some);
                        let j = fin.unwrap();
                        if j != pi as int {
                            if j < pi as int {
                                assert(self.pending_spec()[j].session_id
                                    != self.pending_spec()[pi as int].session_id);
                            } else {
                                assert(self.pending_spec()[pi as int].session_id
                                    != self.pending_spec()[j].session_id);
                            }
                        }
                    }
                }
                proof {
                    assert(!spec_coupled_ok(
                        old(self).validator_spec(),
                        session_id@,
                        expected_hash@,
                    ));
                    assert(mapped != MissionTransferError::Expired);
                }
                return Err(mapped);
            },
            Ok(w) => w,
        };
        self.mfa.ultrasound_channel_verified = true;
        self.mfa.cross_channel_binding_verified = true;
        self.mfa.last_verification = now_ms;
        let auth = self.security.authorize(operator_id, pin, scopes, &self.mfa, now_ms);
        match auth {
            Ok(()) => {
                self.mfa.pin_verified = true;
            },
            Err(e) => {
                let mapped = match e {
                    SecurityError::UnknownOperator => MissionTransferError::PinRejected,
                    SecurityError::RateLimited => MissionTransferError::RateLimited,
                    SecurityError::PinRejected => MissionTransferError::PinRejected,
                    SecurityError::ScopeRejected => MissionTransferError::ScopeRejected,
                    SecurityError::MFANotVerified => MissionTransferError::MFANotVerified,
                };
                proof {
                    assert(crate::authz::spec_witnesses_fresh(self.mfa_spec(), now_ms));
                    assert(!spec_operator_cleared(
                        old(self).security,
                        operator_id@,
                        pin@,
                        scopes@,
                        now_ms,
                    ));
                    assert(mapped != MissionTransferError::Expired);
                }
                return Err(mapped);
            },
        }
        let p_deadline = self.pending[pi].validity_deadline;
        let p_received = self.pending[pi].received_at_ms;
        if now_ms >= p_deadline || (now_ms > p_received && now_ms - p_received
            > MAX_SESSION_TTL_MS) {
            self.reject_at(pi);
            return Err(MissionTransferError::Expired);
        }
        let station_public = self.pending[pi].station_public;
        let shared = self.crypto.derive_shared_secret(&station_public);
        let info = session_info_bytes();
        let key = derive_session_key(&shared, session_id.as_slice(), info.as_slice());
        let mut mac_bytes: Vec<u8> = Vec::new();
        push_bytes(&mut mac_bytes, self.pending[pi].mission_id.as_slice());
        push_bytes(&mut mac_bytes, self.pending[pi].payload_hash.as_slice());
        push_bytes(&mut mac_bytes, session_id.as_slice());
        proof {
            assert(mac_bytes@ =~= spec_binding_mac_bytes(
                old(self).pending_spec()[pi as int].mission_id,
                old(self).pending_spec()[pi as int].payload_hash,
                session_id@,
            ));
        }
        if crate::crypto::verify_hmac(key.as_slice(), mac_bytes.as_slice(), witness.mac.as_slice()).is_err() {
            self.reject_at(pi);
            return Err(MissionTransferError::HashMismatch);
        }
        let mut signing: Vec<u8> = Vec::new();
        push_bytes(&mut signing, self.pending[pi].mission_id.as_slice());
        push_bytes(&mut signing, self.pending[pi].ciphertext.as_slice());
        push_bytes(&mut signing, session_id.as_slice());
        push_bytes(&mut signing, self.pending[pi].context_hash.as_slice());
        proof {
            assert(signing@ =~= spec_mission_signing_bytes(
                old(self).pending_spec()[pi as int].mission_id,
                old(self).pending_spec()[pi as int].ciphertext,
                session_id@,
                old(self).pending_spec()[pi as int].context_hash,
            ));
        }
        if CryptoEngine::verify_log_signature(
            &self.station_verifying_key,
            signing.as_slice(),
            self.pending[pi].signature.as_slice(),
        ).is_err() {
            self.reject_at(pi);
            return Err(MissionTransferError::SignatureFailure);
        }
        if self.pending[pi].ciphertext.len() < 28 {
            self.reject_at(pi);
            return Err(MissionTransferError::AeadFailure);
        }
        let ct_len = self.pending[pi].ciphertext.len();
        let nonce12 = copy_range(self.pending[pi].ciphertext.as_slice(), 0, 12);
        let body = copy_range(self.pending[pi].ciphertext.as_slice(), 12, ct_len - 12);
        let mut aad: Vec<u8> = Vec::new();
        push_bytes(&mut aad, self.pending[pi].mission_id.as_slice());
        push_bytes(&mut aad, session_id.as_slice());
        push_bytes(&mut aad, self.pending[pi].context_hash.as_slice());
        proof {
            assert(aad@ =~= spec_mission_aad(
                old(self).pending_spec()[pi as int].mission_id,
                session_id@,
                old(self).pending_spec()[pi as int].context_hash,
            ));
            assert(body@ =~= old(self).pending_spec()[pi as int].ciphertext.skip(12));
        }
        let plain = match aead_open_with_nonce(&key, nonce12.as_slice(), body.as_slice(), aad.as_slice()) {
            Err(_) => {
                self.reject_at(pi);
                return Err(MissionTransferError::AeadFailure);
            },
            Ok(p) => p,
        };
        let mission = match MissionPayload::decode(plain.as_slice()) {
            Err(e) => {
                self.reject_at(pi);
                return Err(MissionTransferError::FrameError(e));
            },
            Ok(m) => m,
        };
        if !constant_time_eq(mission.mission_id.as_slice(), self.pending[pi].mission_id.as_slice()) {
            self.reject_at(pi);
            return Err(MissionTransferError::MissionIdMismatch);
        }
        let mut p = self.pending.remove(pi);
        p.state = DroneTransferState::Decrypted;
        p.key = Some(key);
        self.pending.insert(pi, p);
        proof {
            assert(self.pending_spec() =~= old(self).pending_spec().update(
                pi as int,
                self.pending_spec()[pi as int],
            ));
        }
        Ok(mission)
    }

    /// Marks a pending mission rejected and drops its key material.
    fn reject_at(&mut self, i: usize)
        requires
            old(self).wf(),
            i < old(self).pending_spec().len(),
        ensures
            final(self).wf(),
            final(self).pending_spec().len() == old(self).pending_spec().len(),
            final(self).pending_spec()[i as int].state == DroneTransferState::Rejected,
            final(self).pending_spec()[i as int].key is None,
            final(self).pending_spec()[i as int].session_id == old(self).pending_spec()[i as int].session_id,
            forall|j: int|
                0 <= j < old(self).pending_spec().len() && j != i ==> final(self).pending_spec()[j]
                    == old(self).pending_spec()[j],
            final(self).crypto_spec() == old(self).crypto_spec(),
            final(self).security_spec() == old(self).security_spec(),
            final(self).validator_spec() == old(self).validator_spec(),
            final(self).mfa_spec() == old(self).mfa_spec(),
            final(self).station_vk_spec() == old(self).station_vk_spec(),
    {
        let mut p = self.pending.remove(i);
        p.state = DroneTransferState::Rejected;
        p.key = None;
        self.pending.insert(i, p);
        proof {
            assert(self.pending_spec() =~= old(self).pending_spec().update(
                i as int,
                self.pending_spec()[i as int],
            ));
        }
    }

    /// Emits the acknowledgment for a decrypted mission: a sequence-2
    /// acoustic frame carrying the acknowledged-mission digest under the
    /// session key's MAC, after which the key is zeroized.  A second call is
    /// a no-op and emits nothing.
    pub fn send_mission_acknowledgment(&mut self, session_id: &[u8; 16], now_ms: u64) -> (r: Result<
        Option<BindingFrame>,
        MissionTransferError,
    >)
        requires
            old(self).wf(),
        ensures
            final(self).wf(),
            ({
                let found = spec_find_pending(old(self).pending_spec(), session_id@);
                match found {
                    None => r == Err::<Option<BindingFrame>, MissionTransferError>(
                        MissionTransferError::SessionNotFound,
                    ) && *final(self) == *old(self),
                    Some(i) => {
                        let p = old(self).pending_spec()[i];
                        &&& (p.state == DroneTransferState::Acknowledged ==> r == Ok::<
                            Option<BindingFrame>,
                            MissionTransferError,
                        >(None) && *final(self) == *old(self))
                        &&& (p.state == DroneTransferState::Decrypted && p.key is Some ==> ({
                            &&& r is Ok
                            &&& r.unwrap() is Some
                            &&& ({
                                let f = r.unwrap().unwrap()@;
                                &&& f.session_id == p.session_id
                                &&& f.mission_id == p.mission_id
                                &&& f.sequence_id == 2
                                &&& f.emitted_at == now_ms
                                &&& f.payload_hash == spec_ack_digest(p.mission_id)
                                &&& f.mac == hmac_sha256_of(
                                    p.key.unwrap(),
                                    spec_binding_mac_bytes(
                                        p.mission_id,
                                        spec_ack_digest(p.mission_id),
                                        p.session_id,
                                    ),
                                )
                            })
                            &&& final(self).pending_spec()[i].state
                                == DroneTransferState::Acknowledged
                            &&& final(self).pending_spec()[i].key is None
                        }))
                        &&& (p.state == DroneTransferState::VisualRxed || p.state
                            == DroneTransferState::Rejected || (p.state
                            == DroneTransferState::Decrypted && p.key is None) ==> r == Err::<
                            Option<BindingFrame>,
                            MissionTransferError,
                        >(MissionTransferError::SequenceError) && *final(self) == *old(self))
                    },
                }
            }),
    {
        let i = match self.find_pending(session_id) {
            None => {
                return Err(MissionTransferError::SessionNotFound);
            },
            Some(i) => i,
        };
        let state = self.pending[i].state;
        match state {
            DroneTransferState::Acknowledged => {
                return Ok(None);
            },
            DroneTransferState::Decrypted => {},
            _ => {
                return Err(MissionTransferError::SequenceError);
            },
        }
        let key = match &self.pending[i].key {
            None => {
                return Err(MissionTransferError::SequenceError);
            },
            Some(k) => *k,
        };
        let digest = ack_digest(&self.pending[i].mission_id);
        let mut mac_bytes: Vec<u8> = Vec::new();
        push_bytes(&mut mac_bytes, self.pending[i].mission_id.as_slice());
        push_bytes(&mut mac_bytes, digest.as_slice());
        push_bytes(&mut mac_bytes, session_id.as_slice());
        proof {
            assert(old(self).pending_spec()[i as int].session_id == session_id@);
            assert(mac_bytes@ =~= spec_binding_mac_bytes(
                old(self).pending_spec()[i as int].mission_id,
                spec_ack_digest(old(self).pending_spec()[i as int].mission_id),
                old(self).pending_spec()[i as int].session_id,
            ));
        }
        let mac_vec = compute_hmac(key.as_slice(), mac_bytes.as_slice());
        let mac = read_bytes32(mac_vec.as_slice(), 0);
        proof {
            assert(mac@ =~= mac_vec@);
        }
        let frame = BindingFrame {
            session_id: *session_id,
            mission_id: self.pending[i].mission_id,
            payload_hash: digest,
            sequence_id: 2,
            emitted_at: now_ms,
            mac,
        };
        let mut p = self.pending.remove(i);
        p.state = DroneTransferState::Acknowledged;
        p.key = None;
        self.pending.insert(i, p);
        proof {
            assert(self.pending_spec() =~= old(self).pending_spec().update(
                i as int,
                self.pending_spec()[i as int],
            ));
        }
        Ok(Some(frame))
    }

    /// Aborts a session on failure, timeout or cancellation: the pending
    /// entry is rejected, its key material dropped, and the validator's
    /// buffer for the session cleared.
    pub fn abort_session(&mut self, session_id: &[u8; 16])
        requires
            old(self).wf(),
        ensures
            final(self).wf(),
            ({
                let found = spec_find_pending(old(self).pending_spec(), session_id@);
                match found {
                    None => final(self).pending_spec() == old(self).pending_spec(),
                    Some(i) => final(self).pending_spec()[i].state
                        == DroneTransferState::Rejected && final(self).pending_spec()[i].key
                        is None,
                }
            }),
    {
        let found = self.find_pending(session_id);
        match found {
            None => {},
            Some(i) => {
                self.reject_at(i);
            },
        }
        self.validator.clear_session(session_id);
    }
}

/// Whether the MAC the validator recorded for a session is the session key's
/// MAC over the binding bytes.
pub open spec fn spec_coupled_mac_ok(v: Seq<crate::validator::SessionBufferView>, sid: Seq<u8>, key: Seq<u8>, mission_id: Seq<u8>, payload_hash: Seq<u8>) -> bool {
    match spec_find_session(v, sid) {
        Some(i) => v[i].acoustic_mac == Some(
            hmac_sha256_of(key, spec_binding_mac_bytes(mission_id, payload_hash, sid)),
        ),
        None => false,
    }
}

} // verus!
