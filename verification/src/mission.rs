//! Mission model and canonical codec.
//!
//! The mission payload is application-opaque to this core: all the protocol
//! needs is that it serializes canonically to bytes, that the embedded
//! mission identifier is recoverable after deserialization, and that its
//! serialized size is bounded.  Signatures and payload-hash bindings are
//! reproducible byte for byte because encoding is deterministic.

use vstd::prelude::*;
use crate::wire::{
    spec_u32_to_be_bytes, spec_u32_from_be_bytes, lemma_u32_be_bytes_round_trip, push_bytes,
    push_u32_be, read_u32_be, read_bytes16, copy_range,
};
use crate::frames::DecodeError;
use crate::crypto::{generate_device_fingerprint, sha256_of};

verus! {

/// 16-byte opaque mission identifier, stable across retries.
pub type MissionId = [u8; 16];

/// Mission priority levels.
#[derive(Debug, Clone, Copy, PartialEq, Eq, Structural)]
pub enum MissionPriority {
    Low,
    Normal,
    High,
    Critical,
    Emergency,
}

/// A named authorization capability an operator can hold.
#[derive(Debug, Clone, Copy, PartialEq, Eq, Structural)]
pub enum AuthorizationScope {
    ExecuteMission,
    Diagnostics,
    Networking,
    Coupling,
    EmergencyOverride,
    FleetManagement,
    Maintenance,
}

/// Time-based limits for authorization.
#[derive(Debug, Clone, Copy, PartialEq, Eq, Structural)]
pub struct TimeLimits {
    pub session_max_duration_hours: u32,
    pub mission_max_duration_hours: u32,
    pub authorization_refresh_hours: u32,
    pub emergency_override_minutes: u32,
}

/// Cryptographic elements attached to a mission in transit.
#[derive(Debug)]
pub struct MissionCrypto {
    pub payload_signature: Vec<u8>,
    pub channel_mac_binding: Vec<u8>,
    pub nonce: [u8; 16],
    /// Milliseconds since the epoch at signing.
    pub timestamp: u64,
    pub session_key: Option<[u8; 32]>,
}

/// Identification and validity of a mission.
#[derive(Debug)]
pub struct MissionHeader {
    pub id: MissionId,
    pub name: Vec<u8>,
    pub description: Option<Vec<u8>>,
    /// Milliseconds since the epoch.
    pub validity_start: u64,
    /// Milliseconds since the epoch.
    pub validity_end: u64,
    pub max_execution_duration_ms: u64,
    pub issuing_station_fingerprint: [u8; 32],
    pub drone_fingerprint: Option<[u8; 32]>,
    pub priority: MissionPriority,
    pub tags: Vec<Vec<u8>>,
}

/// Largest mission body the codec accepts, in bytes.
pub const MAX_MISSION_BODY_BYTES: usize = 1048576;

/// A mission as this core sees it: the embedded identifier plus the
/// application's opaque bytes.
#[derive(Debug)]
pub struct MissionPayload {
    /// Identifier embedded in the payload, recoverable after decoding.
    pub mission_id: MissionId,
    /// Application content, opaque to the protocol core.
    pub body: Vec<u8>,
}

/// Mathematical content of a `MissionPayload`.
pub ghost struct MissionPayloadView {
    pub mission_id: Seq<u8>,
    pub body: Seq<u8>,
}

impl View for MissionPayload {
    type V = MissionPayloadView;

    open spec fn view(&self) -> MissionPayloadView {
        MissionPayloadView { mission_id: self.mission_id@, body: self.body@ }
    }
}

/// Size bounds a mission must meet before the codec accepts it.
pub open spec fn mission_payload_wf(v: MissionPayloadView) -> bool {
    &&& v.mission_id.len() == 16
    &&& v.body.len() <= MAX_MISSION_BODY_BYTES
}

/// Canonical layout: `mission_id(16) | body_len(u32 BE) | body`.
pub open spec fn spec_encode_mission(v: MissionPayloadView) -> Seq<u8> {
    v.mission_id + spec_u32_to_be_bytes(v.body.len() as u32) + v.body
}

/// Exact inverse of `spec_encode_mission`; unknown trailing bytes are
/// rejected.
pub open spec fn spec_decode_mission(s: Seq<u8>) -> Option<MissionPayloadView> {
    if s.len() < 20 {
        None
    } else {
        let body_len = spec_u32_from_be_bytes(s.subrange(16, 20)) as int;
        if body_len > MAX_MISSION_BODY_BYTES || s.len() != 20 + body_len {
            None
        } else {
            Some(MissionPayloadView {
                mission_id: s.subrange(0, 16),
                body: s.subrange(20, 20 + body_len),
            })
        }
    }
}

/// Decoding inverts encoding for every well-formed mission: equal logical
/// payloads give equal byte sequences and back.
pub proof fn lemma_mission_round_trip(v: MissionPayloadView)
    requires
        mission_payload_wf(v),
    ensures
        spec_decode_mission(spec_encode_mission(v)) == Some(v),
{
    lemma_u32_be_bytes_round_trip();
    let s = spec_encode_mission(v);
    let n = v.body.len() as int;
    assert(s.len() == 20 + n);
    assert(s.subrange(16, 20) =~= spec_u32_to_be_bytes(v.body.len() as u32));
    assert(spec_u32_from_be_bytes(s.subrange(16, 20)) == v.body.len() as u32);
    assert(s.subrange(0, 16) =~= v.mission_id);
    assert(s.subrange(20, 20 + n) =~= v.body);
}

impl Default for MissionPayload {
    fn default() -> (r: Self)
        ensures
            r@.mission_id == Seq::new(16, |i: int| 0u8),
            r@.body == Seq::<u8>::empty(),
            r.wf(),
    {
        let r = MissionPayload { mission_id: [0u8; 16], body: Vec::new() };
        proof {
            assert(r@.mission_id =~= Seq::new(16, |i: int| 0u8));
            assert(r@.body =~= Seq::<u8>::empty());
        }
        r
    }
}

impl MissionPayload {
    /// Whether the payload is within the codec's size bound.
    pub open spec fn wf(self) -> bool {
        mission_payload_wf(self@)
    }

    /// Canonical, deterministic serialization.
    pub fn encode(&self) -> (r: Vec<u8>)
        requires
            self.wf(),
        ensures
            r@ == spec_encode_mission(self@),
            r@.len() == 20 + self@.body.len(),
    {
        let mut out: Vec<u8> = Vec::new();
        push_bytes(&mut out, self.mission_id.as_slice());
        push_u32_be(&mut out, self.body.len() as u32);
        push_bytes(&mut out, self.body.as_slice());
        assert(out@ =~= spec_encode_mission(self@));
        out
    }

    /// Parses a mission from bytes alone, rejecting malformed or trailing
    /// input with an error, never a panic.
    pub fn decode(bytes: &[u8]) -> (r: Result<MissionPayload, DecodeError>)
        ensures
            r is Ok <==> spec_decode_mission(bytes@) is Some,
            r is Ok ==> Some(r.unwrap()@) == spec_decode_mission(bytes@),
            r is Ok ==> r.unwrap().wf(),
    {
        if bytes.len() < 20 {
            return Err(DecodeError::Truncated);
        }
        let body_len = read_u32_be(bytes, 16) as usize;
        if body_len > MAX_MISSION_BODY_BYTES {
            return Err(DecodeError::FieldTooLong);
        }
        if bytes.len() < 20 + body_len {
            return Err(DecodeError::Truncated);
        }
        if bytes.len() > 20 + body_len {
            return Err(DecodeError::TrailingBytes);
        }
        let payload = MissionPayload {
            mission_id: read_bytes16(bytes, 0),
            body: copy_range(bytes, 20, body_len),
        };
        Ok(payload)
    }

    /// Deterministic mission hash: the fingerprint of the canonical encoding.
    pub fn hash(&self) -> (r: [u8; 32])
        requires
            self.wf(),
        ensures
            r@ == sha256_of(spec_encode_mission(self@)),
    {
        let encoded = self.encode();
        generate_device_fingerprint(encoded.as_slice())
    }
}

} // verus!
