//! Handshake and binding frames for the two side-channels.
//!
//! A `VisualFrame` is the handshake witness carried on the wide visual
//! channel; a `BindingFrame` is the sequenced witness carried on the narrow
//! acoustic channel.  Both serialize to fixed self-describing layouts, and
//! decoding is the exact inverse of encoding: it depends only on the bytes,
//! never on prior state, and rejects anything malformed.

use vstd::prelude::*;
use crate::wire::{
    spec_u16_to_be_bytes, spec_u16_from_be_bytes, spec_u32_to_be_bytes, spec_u32_from_be_bytes,
    spec_u64_to_be_bytes, spec_u64_from_be_bytes, lemma_u16_be_bytes_round_trip,
    lemma_u32_be_bytes_round_trip, lemma_u64_be_bytes_round_trip, push_bytes, push_u16_be,
    push_u32_be, push_u64_be, read_u16_be, read_u32_be, read_u64_be, read_bytes16, read_bytes32,
    copy_range,
};

verus! {

/// Framing or serialization failure; recoverable by retrying the source frame.
#[derive(Debug, Clone, PartialEq, Eq, Structural)]
pub enum DecodeError {
    /// Fewer bytes than the fixed fields require.
    Truncated,
    /// Bytes left over after the described fields.
    TrailingBytes,
    /// A variable-length field claims more than its bound.
    FieldTooLong,
}

/// Handshake witness on the wide visual channel.  Self-contained and
/// idempotent to re-read.
#[derive(Debug)]
pub struct VisualFrame {
    /// Session this witness vouches for.
    pub session_id: [u8; 16],
    /// The station's ephemeral X25519 public key.
    pub public_key: [u8; 32],
    /// The session nonce committed by the station.
    pub nonce: [u8; 16],
    /// Detached signature, at most 64 bytes.
    pub signature: Vec<u8>,
}

/// Mathematical content of a `VisualFrame`.
pub ghost struct VisualFrameView {
    pub session_id: Seq<u8>,
    pub public_key: Seq<u8>,
    pub nonce: Seq<u8>,
    pub signature: Seq<u8>,
}

impl View for VisualFrame {
    type V = VisualFrameView;

    open spec fn view(&self) -> VisualFrameView {
        VisualFrameView {
            session_id: self.session_id@,
            public_key: self.public_key@,
            nonce: self.nonce@,
            signature: self.signature@,
        }
    }
}

/// Field sizes a well-formed visual frame must have.
pub open spec fn visual_frame_wf(v: VisualFrameView) -> bool {
    &&& v.session_id.len() == 16
    &&& v.public_key.len() == 32
    &&& v.nonce.len() == 16
    &&& v.signature.len() <= 64
}

/// Fixed layout: `session_id(16) | public_key(32) | nonce(16) |
/// sig_len(u16 BE) | signature(sig_len)`.
pub open spec fn spec_encode_visual(v: VisualFrameView) -> Seq<u8> {
    v.session_id + v.public_key + v.nonce + spec_u16_to_be_bytes(v.signature.len() as u16)
        + v.signature
}

/// Exact inverse of `spec_encode_visual` on well-formed frames; `None` on
/// anything truncated, oversized or carrying trailing bytes.
pub open spec fn spec_decode_visual(s: Seq<u8>) -> Option<VisualFrameView> {
    if s.len() < 66 {
        None
    } else {
        let sig_len = spec_u16_from_be_bytes(s.subrange(64, 66)) as int;
        if sig_len > 64 || s.len() != 66 + sig_len {
            None
        } else {
            Some(VisualFrameView {
                session_id: s.subrange(0, 16),
                public_key: s.subrange(16, 48),
                nonce: s.subrange(48, 64),
                signature: s.subrange(66, 66 + sig_len),
            })
        }
    }
}

/// Decoding inverts encoding for every well-formed visual frame.
pub proof fn lemma_visual_frame_round_trip(v: VisualFrameView)
    requires
        visual_frame_wf(v),
    ensures
        spec_decode_visual(spec_encode_visual(v)) == Some(v),
{
    lemma_u16_be_bytes_round_trip();
    let s = spec_encode_visual(v);
    let n = v.signature.len() as int;
    assert(s.len() == 66 + n);
    assert(s.subrange(64, 66) =~= spec_u16_to_be_bytes(v.signature.len() as u16));
    assert(spec_u16_from_be_bytes(s.subrange(64, 66)) == v.signature.len() as u16);
    assert(s.subrange(0, 16) =~= v.session_id);
    assert(s.subrange(16, 48) =~= v.public_key);
    assert(s.subrange(48, 64) =~= v.nonce);
    assert(s.subrange(66, 66 + n) =~= v.signature);
}

impl VisualFrame {
    /// Whether the frame's variable-length field is within bounds.
    pub open spec fn wf(self) -> bool {
        visual_frame_wf(self@)
    }

    /// Serializes the frame to its fixed self-describing layout.
    pub fn encode(&self) -> (r: Vec<u8>)
        requires
            self.wf(),
        ensures
            r@ == spec_encode_visual(self@),
            r@.len() == 66 + self@.signature.len(),
    {
        let mut out: Vec<u8> = Vec::new();
        push_bytes(&mut out, self.session_id.as_slice());
        push_bytes(&mut out, self.public_key.as_slice());
        push_bytes(&mut out, self.nonce.as_slice());
        push_u16_be(&mut out, self.signature.len() as u16);
        push_bytes(&mut out, self.signature.as_slice());
        assert(out@ =~= spec_encode_visual(self@));
        out
    }

    /// Parses a frame from bytes alone; any malformed input is rejected with
    /// an error, never a panic.
    pub fn decode(bytes: &[u8]) -> (r: Result<VisualFrame, DecodeError>)
        ensures
            r is Ok <==> spec_decode_visual(bytes@) is Some,
            r is Ok ==> Some(r.unwrap()@) == spec_decode_visual(bytes@),
            r is Ok ==> r.unwrap().wf(),
    {
        if bytes.len() < 66 {
            return Err(DecodeError::Truncated);
        }
        let sig_len = read_u16_be(bytes, 64) as usize;
        if sig_len > 64 {
            return Err(DecodeError::FieldTooLong);
        }
        if bytes.len() < 66 + sig_len {
            return Err(DecodeError::Truncated);
        }
        if bytes.len() > 66 + sig_len {
            return Err(DecodeError::TrailingBytes);
        }
        let frame = VisualFrame {
            session_id: read_bytes16(bytes, 0),
            public_key: read_bytes32(bytes, 16),
            nonce: read_bytes16(bytes, 48),
            signature: copy_range(bytes, 66, sig_len),
        };
        Ok(frame)
    }
}

/// Sequenced witness on the narrow acoustic channel: it binds the session to
/// the mission and to the hash of the encrypted payload, under the session
/// key's MAC.
#[derive(Debug)]
pub struct BindingFrame {
    /// Session this witness vouches for.
    pub session_id: [u8; 16],
    /// Mission the encrypted payload carries.
    pub mission_id: [u8; 16],
    /// Fingerprint of the encrypted mission bytes.
    pub payload_hash: [u8; 32],
    /// Starts at 1 and increases by one per frame of a session.
    pub sequence_id: u32,
    /// Milliseconds since the epoch at emission.
    pub emitted_at: u64,
    /// HMAC over mission id, payload hash and session id.
    pub mac: [u8; 32],
}

/// Mathematical content of a `BindingFrame`.
pub ghost struct BindingFrameView {
    pub session_id: Seq<u8>,
    pub mission_id: Seq<u8>,
    pub payload_hash: Seq<u8>,
    pub sequence_id: u32,
    pub emitted_at: u64,
    pub mac: Seq<u8>,
}

impl View for BindingFrame {
    type V = BindingFrameView;

    open spec fn view(&self) -> BindingFrameView {
        BindingFrameView {
            session_id: self.session_id@,
            mission_id: self.mission_id@,
            payload_hash: self.payload_hash@,
            sequence_id: self.sequence_id,
            emitted_at: self.emitted_at,
            mac: self.mac@,
        }
    }
}

/// Field sizes a well-formed binding frame must have.
pub open spec fn binding_frame_wf(v: BindingFrameView) -> bool {
    &&& v.session_id.len() == 16
    &&& v.mission_id.len() == 16
    &&& v.payload_hash.len() == 32
    &&& v.mac.len() == 32
}

/// Fixed 108-byte layout: `session_id(16) | mission_id(16) | payload_hash(32)
/// | sequence_id(u32 BE) | emitted_at(u64 BE) | mac(32)`.
pub open spec fn spec_encode_binding(v: BindingFrameView) -> Seq<u8> {
    v.session_id + v.mission_id + v.payload_hash + spec_u32_to_be_bytes(v.sequence_id)
        + spec_u64_to_be_bytes(v.emitted_at) + v.mac
}

/// Exact inverse of `spec_encode_binding`: exactly 108 bytes or nothing.
pub open spec fn spec_decode_binding(s: Seq<u8>) -> Option<BindingFrameView> {
    if s.len() != 108 {
        None
    } else {
        Some(BindingFrameView {
            session_id: s.subrange(0, 16),
            mission_id: s.subrange(16, 32),
            payload_hash: s.subrange(32, 64),
            sequence_id: spec_u32_from_be_bytes(s.subrange(64, 68)),
            emitted_at: spec_u64_from_be_bytes(s.subrange(68, 76)),
            mac: s.subrange(76, 108),
        })
    }
}

/// Decoding inverts encoding for every well-formed binding frame.
pub proof fn lemma_binding_frame_round_trip(v: BindingFrameView)
    requires
        binding_frame_wf(v),
    ensures
        spec_decode_binding(spec_encode_binding(v)) == Some(v),
{
    lemma_u32_be_bytes_round_trip();
    lemma_u64_be_bytes_round_trip();
    let s = spec_encode_binding(v);
    assert(s.len() == 108);
    assert(s.subrange(0, 16) =~= v.session_id);
    assert(s.subrange(16, 32) =~= v.mission_id);
    assert(s.subrange(32, 64) =~= v.payload_hash);
    assert(s.subrange(64, 68) =~= spec_u32_to_be_bytes(v.sequence_id));
    assert(s.subrange(68, 76) =~= spec_u64_to_be_bytes(v.emitted_at));
    assert(s.subrange(76, 108) =~= v.mac);
}

impl BindingFrame {
    /// Whether the frame's fields are within bounds.
    pub open spec fn wf(self) -> bool {
        binding_frame_wf(self@)
    }

    /// Serializes the frame to its fixed 108-byte layout.
    pub fn encode(&self) -> (r: Vec<u8>)
        ensures
            r@ == spec_encode_binding(self@),
            r@.len() == 108,
    {
        let mut out: Vec<u8> = Vec::new();
        push_bytes(&mut out, self.session_id.as_slice());
        push_bytes(&mut out, self.mission_id.as_slice());
        push_bytes(&mut out, self.payload_hash.as_slice());
        push_u32_be(&mut out, self.sequence_id);
        push_u64_be(&mut out, self.emitted_at);
        push_bytes(&mut out, self.mac.as_slice());
        assert(out@ =~= spec_encode_binding(self@));
        out
    }

    /// Parses a frame from exactly 108 bytes; anything else is rejected with
    /// an error, never a panic.
    pub fn decode(bytes: &[u8]) -> (r: Result<BindingFrame, DecodeError>)
        ensures
            r is Ok <==> spec_decode_binding(bytes@) is Some,
            r is Ok ==> Some(r.unwrap()@) == spec_decode_binding(bytes@),
            r is Ok ==> r.unwrap().wf(),
    {
        if bytes.len() < 108 {
            return Err(DecodeError::Truncated);
        }
        if bytes.len() > 108 {
            return Err(DecodeError::TrailingBytes);
        }
        let frame = BindingFrame {
            session_id: read_bytes16(bytes, 0),
            mission_id: read_bytes16(bytes, 16),
            payload_hash: read_bytes32(bytes, 32),
            sequence_id: read_u32_be(bytes, 64),
            emitted_at: read_u64_be(bytes, 68),
            mac: read_bytes32(bytes, 76),
        };
        Ok(frame)
    }
}

} // verus!
