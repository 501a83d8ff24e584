//! Signed append-only event log.
//!
//! Every entry carries a strictly increasing, gap-free sequence number and an
//! Ed25519 signature over its canonical serialization with the signature
//! field cleared.  Verification walks the log in order and fails on the first
//! sequence gap or the first signature that does not verify; import verifies
//! the whole sequence before it overwrites local state.

use vstd::prelude::*;
use crate::crypto::{ed25519_verifies, CryptoEngine};
use crate::wire::{
    spec_u32_to_be_bytes, spec_u32_from_be_bytes, spec_u64_to_be_bytes, spec_u64_from_be_bytes,
    push_bytes, push_u32_be, push_u64_be, read_u32_be, read_u64_be, read_bytes16, read_bytes32,
    copy_range,
};

verus! {

/// Protocol events worth a signed audit record.
#[derive(Debug)]
pub enum LogEvent {
    SessionStarted { peer_fingerprint: [u8; 32], timestamp: u64 },
    KeyExchanged { key_id: [u8; 16], ephemeral: bool },
    MessageSent { sequence_id: u64, size_bytes: u64 },
    MessageReceived { sequence_id: u64, size_bytes: u64 },
    ValidationPassed { channel_type: Vec<u8> },
    ValidationFailed { channel_type: Vec<u8>, reason: Vec<u8> },
    SessionExpired { key_id: [u8; 16] },
    AuthenticationGranted { permissions: Vec<Vec<u8>> },
    AuthenticationDenied { reason: Vec<u8> },
    ChannelConnected { channel_type: Vec<u8> },
    ChannelDisconnected { channel_type: Vec<u8>, reason: Vec<u8> },
    ErrorOccurred { error_type: Vec<u8>, details: Vec<u8> },
}

/// Mathematical content of a `LogEvent`.
pub ghost enum LogEventView {
    SessionStarted { peer_fingerprint: Seq<u8>, timestamp: u64 },
    KeyExchanged { key_id: Seq<u8>, ephemeral: bool },
    MessageSent { sequence_id: u64, size_bytes: u64 },
    MessageReceived { sequence_id: u64, size_bytes: u64 },
    ValidationPassed { channel_type: Seq<u8> },
    ValidationFailed { channel_type: Seq<u8>, reason: Seq<u8> },
    SessionExpired { key_id: Seq<u8> },
    AuthenticationGranted { permissions: Seq<Seq<u8>> },
    AuthenticationDenied { reason: Seq<u8> },
    ChannelConnected { channel_type: Seq<u8> },
    ChannelDisconnected { channel_type: Seq<u8>, reason: Seq<u8> },
    ErrorOccurred { error_type: Seq<u8>, details: Seq<u8> },
}

impl View for LogEvent {
    type V = LogEventView;

    open spec fn view(&self) -> LogEventView {
        match self {
            LogEvent::SessionStarted { peer_fingerprint, timestamp } => LogEventView::SessionStarted {
                peer_fingerprint: peer_fingerprint@,
                timestamp: *timestamp,
            },
            LogEvent::KeyExchanged { key_id, ephemeral } => LogEventView::KeyExchanged {
                key_id: key_id@,
                ephemeral: *ephemeral,
            },
            LogEvent::MessageSent { sequence_id, size_bytes } => LogEventView::MessageSent {
                sequence_id: *sequence_id,
                size_bytes: *size_bytes,
            },
            LogEvent::MessageReceived { sequence_id, size_bytes } => LogEventView::MessageReceived {
                sequence_id: *sequence_id,
                size_bytes: *size_bytes,
            },
            LogEvent::ValidationPassed { channel_type } => LogEventView::ValidationPassed {
                channel_type: channel_type@,
            },
            LogEvent::ValidationFailed { channel_type, reason } => LogEventView::ValidationFailed {
                channel_type: channel_type@,
                reason: reason@,
            },
            LogEvent::SessionExpired { key_id } => LogEventView::SessionExpired { key_id: key_id@ },
            LogEvent::AuthenticationGranted { permissions } => LogEventView::AuthenticationGranted {
                permissions: Seq::new(permissions@.len(), |i: int| permissions@[i]@),
            },
            LogEvent::AuthenticationDenied { reason } => LogEventView::AuthenticationDenied {
                reason: reason@,
            },
            LogEvent::ChannelConnected { channel_type } => LogEventView::ChannelConnected {
                channel_type: channel_type@,
            },
            LogEvent::ChannelDisconnected { channel_type, reason } => LogEventView::ChannelDisconnected {
                channel_type: channel_type@,
                reason: reason@,
            },
            LogEvent::ErrorOccurred { error_type, details } => LogEventView::ErrorOccurred {
                error_type: error_type@,
                details: details@,
            },
        }
    }
}

/// A length-prefixed byte field: `len(u32 BE) | bytes`.
pub open spec fn spec_chunk(b: Seq<u8>) -> Seq<u8> {
    spec_u32_to_be_bytes(b.len() as u32) + b
}

/// A list of length-prefixed byte fields: `count(u32 BE) | chunk*`.
pub open spec fn spec_chunk_list(bs: Seq<Seq<u8>>) -> Seq<u8> {
    spec_u32_to_be_bytes(bs.len() as u32) + spec_chunk_items(bs)
}

/// The concatenated chunks of a list.
pub open spec fn spec_chunk_items(bs: Seq<Seq<u8>>) -> Seq<u8>
    decreases bs.len(),
{
    if bs.len() == 0 {
        Seq::empty()
    } else {
        spec_chunk_items(bs.drop_last()) + spec_chunk(bs.last())
    }
}

/// Canonical bytes of a `LogEvent`: a tag byte followed by the fields.
pub open spec fn spec_encode_event(e: LogEventView) -> Seq<u8> {
    match e {
        LogEventView::SessionStarted { peer_fingerprint, timestamp } => seq![0u8]
            + peer_fingerprint + spec_u64_to_be_bytes(timestamp),
        LogEventView::KeyExchanged { key_id, ephemeral } => seq![1u8] + key_id + seq![
            if ephemeral {
                1u8
            } else {
                0u8
            },
        ],
        LogEventView::MessageSent { sequence_id, size_bytes } => seq![2u8] + spec_u64_to_be_bytes(
            sequence_id,
        ) + spec_u64_to_be_bytes(size_bytes),
        LogEventView::MessageReceived { sequence_id, size_bytes } => seq![3u8]
            + spec_u64_to_be_bytes(sequence_id) + spec_u64_to_be_bytes(size_bytes),
        LogEventView::ValidationPassed { channel_type } => seq![4u8] + spec_chunk(channel_type),
        LogEventView::ValidationFailed { channel_type, reason } => seq![5u8] + spec_chunk(
            channel_type,
        ) + spec_chunk(reason),
        LogEventView::SessionExpired { key_id } => seq![6u8] + key_id,
        LogEventView::AuthenticationGranted { permissions } => seq![7u8] + spec_chunk_list(
            permissions,
        ),
        LogEventView::AuthenticationDenied { reason } => seq![8u8] + spec_chunk(reason),
        LogEventView::ChannelConnected { channel_type } => seq![9u8] + spec_chunk(channel_type),
        LogEventView::ChannelDisconnected { channel_type, reason } => seq![10u8] + spec_chunk(
            channel_type,
        ) + spec_chunk(reason),
        LogEventView::ErrorOccurred { error_type, details } => seq![11u8] + spec_chunk(error_type)
            + spec_chunk(details),
    }
}

/// One signed, sequenced log record.
#[derive(Debug)]
pub struct LogEntry {
    /// Milliseconds since the epoch.
    pub timestamp: u64,
    pub sequence_number: u64,
    pub event: LogEvent,
    pub device_fingerprint: [u8; 32],
    /// Ed25519 signature over the entry serialized with this field cleared.
    pub signature: Vec<u8>,
}

/// Mathematical content of a `LogEntry`.
pub ghost struct LogEntryView {
    pub timestamp: u64,
    pub sequence_number: u64,
    pub event: LogEventView,
    pub device_fingerprint: Seq<u8>,
    pub signature: Seq<u8>,
}

impl View for LogEntry {
    type V = LogEntryView;

    open spec fn view(&self) -> LogEntryView {
        LogEntryView {
            timestamp: self.timestamp,
            sequence_number: self.sequence_number,
            event: self.event@,
            device_fingerprint: self.device_fingerprint@,
            signature: self.signature@,
        }
    }
}

/// The bytes a log signature covers: the entry with its signature cleared.
pub open spec fn spec_entry_signing_bytes(e: LogEntryView) -> Seq<u8> {
    spec_u64_to_be_bytes(e.timestamp) + spec_u64_to_be_bytes(e.sequence_number)
        + e.device_fingerprint + spec_encode_event(e.event)
}

/// Canonical bytes of a full entry: the signed bytes plus the signature.
pub open spec fn spec_encode_entry(e: LogEntryView) -> Seq<u8> {
    spec_entry_signing_bytes(e) + spec_chunk(e.signature)
}

/// The audit chain property over a sequence of entries: sequence numbers are
/// gap-free from the first entry on, and every signature verifies under `vk`.
pub open spec fn spec_chain_ok(entries: Seq<LogEntryView>, first_seq: u64, vk: Seq<u8>) -> bool {
    &&& forall|i: int|
        0 <= i < entries.len() ==> (#[trigger] entries[i]).sequence_number == first_seq + i
    &&& forall|i: int|
        0 <= i < entries.len() ==> (#[trigger] entries[i]).signature.len() == 64
            && ed25519_verifies(vk, spec_entry_signing_bytes(entries[i]), entries[i].signature)
}

/// Log failure.
#[derive(Debug, Clone, PartialEq, Eq, Structural)]
pub enum LogError {
    /// A signature did not verify; carries the sequence number of the first
    /// failing entry.
    SignatureVerificationFailed(u64),
    /// Bytes that do not parse as a log.
    InvalidFormat,
    /// A gap or jump in the sequence numbers; carries the sequence number
    /// the first offending entry claims.
    SequenceViolation(u64),
    /// The log's content does not match its signatures; carries the sequence
    /// number of the first tampered entry.
    TamperingDetected(u64),
}

/// Field sizes an event must have so that its encoding's length prefixes fit.
pub open spec fn spec_event_wf(e: LogEventView) -> bool {
    match e {
        LogEventView::SessionStarted { peer_fingerprint, .. } => peer_fingerprint.len() == 32,
        LogEventView::KeyExchanged { key_id, .. } => key_id.len() == 16,
        LogEventView::MessageSent { .. } => true,
        LogEventView::MessageReceived { .. } => true,
        LogEventView::ValidationPassed { channel_type } => channel_type.len() <= u32::MAX,
        LogEventView::ValidationFailed { channel_type, reason } => channel_type.len() <= u32::MAX
            && reason.len() <= u32::MAX,
        LogEventView::SessionExpired { key_id } => key_id.len() == 16,
        LogEventView::AuthenticationGranted { permissions } => permissions.len() <= u32::MAX
            && forall|i: int| 0 <= i < permissions.len() ==> (#[trigger] permissions[i]).len()
                <= u32::MAX,
        LogEventView::AuthenticationDenied { reason } => reason.len() <= u32::MAX,
        LogEventView::ChannelConnected { channel_type } => channel_type.len() <= u32::MAX,
        LogEventView::ChannelDisconnected { channel_type, reason } => channel_type.len()
            <= u32::MAX && reason.len() <= u32::MAX,
        LogEventView::ErrorOccurred { error_type, details } => error_type.len() <= u32::MAX
            && details.len() <= u32::MAX,
    }
}

/// Appends `len(u32 BE) | bytes` to `out`.
pub(crate) fn push_chunk(out: &mut Vec<u8>, b: &[u8])
    requires
        b@.len() <= u32::MAX,
    ensures
        final(out)@ == old(out)@ + spec_chunk(b@),
{
    push_u32_be(out, b.len() as u32);
    push_bytes(out, b);
    assert(final(out)@ =~= old(out)@ + spec_chunk(b@));
}

/// Appends a counted list of chunks to `out`.
#[verifier::loop_isolation(false)]
fn push_chunk_list(out: &mut Vec<u8>, items: &Vec<Vec<u8>>)
    requires
        items@.len() <= u32::MAX,
        forall|i: int| 0 <= i < items@.len() ==> (#[trigger] items@[i])@.len() <= u32::MAX,
    ensures
        final(out)@ == old(out)@ + spec_chunk_list(Seq::new(items@.len(), |i: int| items@[i]@)),
{
    let ghost view = Seq::new(items@.len(), |i: int| items@[i]@);
    let n = items.len();
    push_u32_be(out, n as u32);
    let mut i: usize = 0;
    proof {
        assert(spec_chunk_items(view.subrange(0, 0)) =~= Seq::<u8>::empty());
        assert(out@ =~= old(out)@ + spec_u32_to_be_bytes(n as u32) + spec_chunk_items(
            view.subrange(0, 0),
        ));
    }
    while i < n
        invariant
            0 <= i <= n,
            out@ == old(out)@ + spec_u32_to_be_bytes(n as u32) + spec_chunk_items(
                view.subrange(0, i as int),
            ),
        decreases n - i,
    {
        push_chunk(out, items[i].as_slice());
        proof {
            assert(view.subrange(0, i + 1).drop_last() =~= view.subrange(0, i as int));
            assert(view.subrange(0, i + 1).last() == view[i as int]);
            assert(out@ =~= old(out)@ + spec_u32_to_be_bytes(n as u32) + spec_chunk_items(
                view.subrange(0, i + 1),
            ));
        }
        i = i + 1;
    }
    proof {
        assert(view.subrange(0, n as int) =~= view);
        assert(final(out)@ =~= old(out)@ + spec_chunk_list(view));
    }
}

/// Serializes an event to its canonical bytes.
pub fn encode_event(e: &LogEvent) -> (r: Vec<u8>)
    requires
        spec_event_wf(e@),
    ensures
        r@ == spec_encode_event(e@),
{
    let mut out: Vec<u8> = Vec::new();
    match e {
        LogEvent::SessionStarted { peer_fingerprint, timestamp } => {
            out.push(0u8);
            push_bytes(&mut out, peer_fingerprint.as_slice());
            push_u64_be(&mut out, *timestamp);
            assert(out@ =~= spec_encode_event(e@));
        },
        LogEvent::KeyExchanged { key_id, ephemeral } => {
            out.push(1u8);
            push_bytes(&mut out, key_id.as_slice());
            out.push(if *ephemeral { 1u8 } else { 0u8 });
            assert(out@ =~= spec_encode_event(e@));
        },
        LogEvent::MessageSent { sequence_id, size_bytes } => {
            out.push(2u8);
            push_u64_be(&mut out, *sequence_id);
            push_u64_be(&mut out, *size_bytes);
            assert(out@ =~= spec_encode_event(e@));
        },
        LogEvent::MessageReceived { sequence_id, size_bytes } => {
            out.push(3u8);
            push_u64_be(&mut out, *sequence_id);
            push_u64_be(&mut out, *size_bytes);
            assert(out@ =~= spec_encode_event(e@));
        },
        LogEvent::ValidationPassed { channel_type } => {
            out.push(4u8);
            push_chunk(&mut out, channel_type.as_slice());
            assert(out@ =~= spec_encode_event(e@));
        },
        LogEvent::ValidationFailed { channel_type, reason } => {
            out.push(5u8);
            push_chunk(&mut out, channel_type.as_slice());
            push_chunk(&mut out, reason.as_slice());
            assert(out@ =~= spec_encode_event(e@));
        },
        LogEvent::SessionExpired { key_id } => {
            out.push(6u8);
            push_bytes(&mut out, key_id.as_slice());
            assert(out@ =~= spec_encode_event(e@));
        },
        LogEvent::AuthenticationGranted { permissions } => {
            out.push(7u8);
            proof {
                let ghost pv = Seq::new(permissions@.len(), |i: int| permissions@[i]@);
                assert forall|i: int| 0 <= i < permissions@.len() implies (
                #[trigger] permissions@[i])@.len() <= u32::MAX by {
                    assert(pv[i] == permissions@[i]@);
                }
            }
            push_chunk_list(&mut out, permissions);
            assert(out@ =~= spec_encode_event(e@));
        },
        LogEvent::AuthenticationDenied { reason } => {
            out.push(8u8);
            push_chunk(&mut out, reason.as_slice());
            assert(out@ =~= spec_encode_event(e@));
        },
        LogEvent::ChannelConnected { channel_type } => {
            out.push(9u8);
            push_chunk(&mut out, channel_type.as_slice());
            assert(out@ =~= spec_encode_event(e@));
        },
        LogEvent::ChannelDisconnected { channel_type, reason } => {
            out.push(10u8);
            push_chunk(&mut out, channel_type.as_slice());
            push_chunk(&mut out, reason.as_slice());
            assert(out@ =~= spec_encode_event(e@));
        },
        LogEvent::ErrorOccurred { error_type, details } => {
            out.push(11u8);
            push_chunk(&mut out, error_type.as_slice());
            push_chunk(&mut out, details.as_slice());
            assert(out@ =~= spec_encode_event(e@));
        },
    }
    out
}

/// Reads one length-prefixed chunk at `pos`; `None` on truncation.
fn read_chunk(s: &[u8], pos: usize) -> (r: Option<(Vec<u8>, usize)>)
    requires
        pos <= s@.len(),
    ensures
        match r {
            Some(t) => {
                &&& pos + 4 <= t.1 <= s@.len()
                &&& t.0@.len() == t.1 - pos - 4
                &&& t.0@.len() <= u32::MAX
                &&& s@.subrange(pos as int, t.1 as int) == spec_chunk(t.0@)
            },
            None => s@.len() - pos < 4 || spec_u32_from_be_bytes(
                s@.subrange(pos as int, pos + 4),
            ) > s@.len() - pos - 4,
        },
{
    proof {
        crate::wire::lemma_u32_be_bytes_round_trip();
    }
    let n = s.len();
    if n - pos < 4 {
        return None;
    }
    let len32 = read_u32_be(s, pos);
    let len = len32 as usize;
    if len > n - pos - 4 {
        return None;
    }
    let chunk = copy_range(s, pos + 4, len);
    let newpos = pos + 4 + len;
    proof {
        assert(s@.subrange(pos as int, newpos as int) =~= s@.subrange(pos as int, pos + 4)
            + s@.subrange(pos + 4, newpos as int));
        assert(spec_u32_to_be_bytes(len32) == s@.subrange(pos as int, pos + 4));
        assert(s@.subrange(pos as int, newpos as int) =~= spec_chunk(chunk@));
    }
    Some((chunk, newpos))
}

/// Two chunks at the head of equal byte streams carry the same bytes: the
/// four-byte length prefix pins both lengths.
proof fn lemma_chunk_prefix(x: Seq<u8>, xs: Seq<u8>, y: Seq<u8>, ys: Seq<u8>)
    requires
        x.len() <= u32::MAX,
        y.len() <= u32::MAX,
        spec_chunk(x) + xs == spec_chunk(y) + ys,
    ensures
        x == y,
        xs == ys,
{
    crate::wire::lemma_u32_be_bytes_round_trip();
    let a = spec_chunk(x) + xs;
    let b = spec_chunk(y) + ys;
    assert(a.subrange(0, 4) =~= spec_u32_to_be_bytes(x.len() as u32));
    assert(b.subrange(0, 4) =~= spec_u32_to_be_bytes(y.len() as u32));
    assert(a.subrange(0, 4) == b.subrange(0, 4));
    assert(spec_u32_from_be_bytes(spec_u32_to_be_bytes(x.len() as u32)) == x.len() as u32);
    assert(spec_u32_from_be_bytes(spec_u32_to_be_bytes(y.len() as u32)) == y.len() as u32);
    assert(x.len() == y.len());
    assert(x =~= a.subrange(4, 4 + x.len() as int));
    assert(y =~= b.subrange(4, 4 + y.len() as int));
    assert(xs =~= a.subrange(4 + x.len() as int, a.len() as int));
    assert(ys =~= b.subrange(4 + y.len() as int, b.len() as int));
}

/// The chunks of a concatenation are the concatenated chunks.
proof fn lemma_chunk_items_add(a: Seq<Seq<u8>>, b: Seq<Seq<u8>>)
    ensures
        spec_chunk_items(a + b) == spec_chunk_items(a) + spec_chunk_items(b),
    decreases b.len(),
{
    if b.len() == 0 {
        assert(a + b =~= a);
        assert(spec_chunk_items(b) =~= Seq::<u8>::empty());
        assert(spec_chunk_items(a) + spec_chunk_items(b) =~= spec_chunk_items(a));
    } else {
        lemma_chunk_items_add(a, b.drop_last());
        assert((a + b).drop_last() =~= a + b.drop_last());
        assert((a + b).last() == b.last());
        assert(spec_chunk_items(a + b) == spec_chunk_items(a + b.drop_last()) + spec_chunk(
            b.last(),
        ));
        assert(spec_chunk_items(a) + spec_chunk_items(b) =~= spec_chunk_items(a) + (
        spec_chunk_items(b.drop_last()) + spec_chunk(b.last())));
        assert(spec_chunk_items(a) + spec_chunk_items(b.drop_last()) + spec_chunk(b.last())
            =~= spec_chunk_items(a) + (spec_chunk_items(b.drop_last()) + spec_chunk(b.last())));
    }
}

/// A nonempty chunk list decomposes at its first element.
proof fn lemma_chunk_items_first(p: Seq<Seq<u8>>)
    requires
        p.len() > 0,
    ensures
        spec_chunk_items(p) == spec_chunk(p[0]) + spec_chunk_items(p.skip(1)),
{
    assert(p =~= seq![p[0]] + p.skip(1));
    lemma_chunk_items_add(seq![p[0]], p.skip(1));
    let single = seq![p[0]];
    assert(single.drop_last() =~= Seq::<Seq<u8>>::empty());
    assert(single.last() == p[0]);
    assert(spec_chunk_items(single) == spec_chunk_items(single.drop_last()) + spec_chunk(
        single.last(),
    ));
    assert(spec_chunk_items(single.drop_last()) + spec_chunk(p[0]) =~= spec_chunk(p[0]));
}

/// Equal chunk streams over equally many bounded items carry equal items.
proof fn lemma_chunk_items_injective(a: Seq<Seq<u8>>, b: Seq<Seq<u8>>)
    requires
        a.len() == b.len(),
        forall|i: int| 0 <= i < a.len() ==> (#[trigger] a[i]).len() <= u32::MAX,
        forall|i: int| 0 <= i < b.len() ==> (#[trigger] b[i]).len() <= u32::MAX,
        spec_chunk_items(a) == spec_chunk_items(b),
    ensures
        a =~~= b,
    decreases a.len(),
{
    if a.len() > 0 {
        lemma_chunk_items_first(a);
        lemma_chunk_items_first(b);
        lemma_chunk_prefix(a[0], spec_chunk_items(a.skip(1)), b[0], spec_chunk_items(b.skip(1)));
        lemma_chunk_items_injective(a.skip(1), b.skip(1));
        assert(a =~~= seq![a[0]] + a.skip(1));
        assert(b =~~= seq![b[0]] + b.skip(1));
    }
}

/// Whether `s` is the canonical encoding of some well-formed event: the
/// completeness side of `decode_event`.
pub open spec fn spec_event_encoded(s: Seq<u8>, ev: LogEventView) -> bool {
    spec_event_wf(ev) && s == spec_encode_event(ev)
}

/// The one chunked field of the single-chunk event kinds.
spec fn spec_single_chunk_field(ev: LogEventView) -> Seq<u8> {
    match ev {
        LogEventView::ValidationPassed { channel_type } => channel_type,
        LogEventView::AuthenticationDenied { reason } => reason,
        LogEventView::ChannelConnected { channel_type } => channel_type,
        _ => Seq::empty(),
    }
}

/// The two chunked fields of the double-chunk event kinds.
spec fn spec_pair_chunk_fields(ev: LogEventView) -> (Seq<u8>, Seq<u8>) {
    match ev {
        LogEventView::ValidationFailed { channel_type, reason } => (channel_type, reason),
        LogEventView::ChannelDisconnected { channel_type, reason } => (channel_type, reason),
        LogEventView::ErrorOccurred { error_type, details } => (error_type, details),
        _ => (Seq::empty(), Seq::empty()),
    }
}

/// The fixed-length event kinds: handshake, key, message and expiry records.
fn decode_event_fixed(s: &[u8]) -> (r: Result<LogEvent, LogError>)
    requires
        s@.len() >= 1,
        s@[0] == 0 || s@[0] == 1 || s@[0] == 2 || s@[0] == 3 || s@[0] == 6,
    ensures
        r is Ok ==> spec_event_wf(r.unwrap()@) && spec_encode_event(r.unwrap()@) == s@,
        forall|ev: LogEventView| spec_event_encoded(s@, ev) ==> r is Ok && r.unwrap()@ == ev,
{
    proof {
        crate::wire::lemma_u64_be_bytes_round_trip();
        crate::wire::lemma_u32_be_bytes_round_trip();
    }
    let n = s.len();
    let tag = s[0];
    if tag == 0 {
    if n != 41 {
        proof {
            assert forall|ev: LogEventView| spec_event_encoded(s@, ev) implies false by {
                assert(s@[0] == 0);
                assert(ev matches LogEventView::SessionStarted { .. });
                assert(spec_encode_event(ev).len() == 41);
            }
        }
        return Err(LogError::InvalidFormat);
    }
    let e = LogEvent::SessionStarted {
        peer_fingerprint: read_bytes32(s, 1),
        timestamp: read_u64_be(s, 33),
    };
    assert(spec_encode_event(e@) =~= s@);
    proof {
        assert forall|ev: LogEventView| spec_event_encoded(s@, ev) implies e@ == ev by {
            assert(s@[0] == 0);
            assert(ev matches LogEventView::SessionStarted { .. });
            let pf = ev->SessionStarted_peer_fingerprint;
            let ts = ev->SessionStarted_timestamp;
            assert(s@ == seq![0u8] + pf + spec_u64_to_be_bytes(ts));
            assert(pf =~= s@.subrange(1, 33));
            assert(spec_u64_to_be_bytes(ts) =~= s@.subrange(33, 41));
            assert(spec_u64_from_be_bytes(s@.subrange(33, 41)) == ts);
        }
    }
    Ok(e)
    } else if tag == 1 {
    if n != 18 {
        proof {
            assert forall|ev: LogEventView| spec_event_encoded(s@, ev) implies false by {
                assert(s@[0] == 1);
                assert(ev matches LogEventView::KeyExchanged { .. });
                assert(spec_encode_event(ev).len() == 18);
            }
        }
        return Err(LogError::InvalidFormat);
    }
    let flag = s[17];
    if flag > 1 {
        proof {
            assert forall|ev: LogEventView| spec_event_encoded(s@, ev) implies false by {
                assert(s@[0] == 1);
                assert(ev matches LogEventView::KeyExchanged { .. });
                let eph = ev->KeyExchanged_ephemeral;
                assert(s@[17] == (if eph {
                    1u8
                } else {
                    0u8
                }));
            }
        }
        return Err(LogError::InvalidFormat);
    }
    let e = LogEvent::KeyExchanged { key_id: read_bytes16(s, 1), ephemeral: flag == 1 };
    assert(spec_encode_event(e@) =~= s@);
    proof {
        assert forall|ev: LogEventView| spec_event_encoded(s@, ev) implies e@ == ev by {
            assert(s@[0] == 1);
            assert(ev matches LogEventView::KeyExchanged { .. });
            let kid = ev->KeyExchanged_key_id;
            let eph = ev->KeyExchanged_ephemeral;
            assert(s@ == seq![1u8] + kid + seq![
                if eph {
                    1u8
                } else {
                    0u8
                },
            ]);
            assert(kid =~= s@.subrange(1, 17));
            assert(s@[17] == (if eph {
                1u8
            } else {
                0u8
            }));
        }
    }
    Ok(e)
    } else if tag == 2 {
    if n != 17 {
        proof {
            assert forall|ev: LogEventView| spec_event_encoded(s@, ev) implies false by {
                assert(s@[0] == 2);
                assert(ev matches LogEventView::MessageSent { .. });
                assert(spec_encode_event(ev).len() == 17);
            }
        }
        return Err(LogError::InvalidFormat);
    }
    let e = LogEvent::MessageSent { sequence_id: read_u64_be(s, 1), size_bytes: read_u64_be(s, 9) };
    assert(spec_encode_event(e@) =~= s@);
    proof {
        assert forall|ev: LogEventView| spec_event_encoded(s@, ev) implies e@ == ev by {
            assert(s@[0] == 2);
            assert(ev matches LogEventView::MessageSent { .. });
            let sq = ev->MessageSent_sequence_id;
            let sz = ev->MessageSent_size_bytes;
            assert(s@ == seq![2u8] + spec_u64_to_be_bytes(sq) + spec_u64_to_be_bytes(sz));
            assert(spec_u64_to_be_bytes(sq) =~= s@.subrange(1, 9));
            assert(spec_u64_to_be_bytes(sz) =~= s@.subrange(9, 17));
            assert(spec_u64_from_be_bytes(s@.subrange(1, 9)) == sq);
            assert(spec_u64_from_be_bytes(s@.subrange(9, 17)) == sz);
        }
    }
    Ok(e)
    } else if tag == 3 {
    if n != 17 {
        proof {
            assert forall|ev: LogEventView| spec_event_encoded(s@, ev) implies false by {
                assert(s@[0] == 3);
                assert(ev matches LogEventView::MessageReceived { .. });
                assert(spec_encode_event(ev).len() == 17);
            }
        }
        return Err(LogError::InvalidFormat);
    }
    let e = LogEvent::MessageReceived {
        sequence_id: read_u64_be(s, 1),
        size_bytes: read_u64_be(s, 9),
    };
    assert(spec_encode_event(e@) =~= s@);
    proof {
        assert forall|ev: LogEventView| spec_event_encoded(s@, ev) implies e@ == ev by {
            assert(s@[0] == 3);
            assert(ev matches LogEventView::MessageReceived { .. });
            let sq = ev->MessageReceived_sequence_id;
            let sz = ev->MessageReceived_size_bytes;
            assert(s@ == seq![3u8] + spec_u64_to_be_bytes(sq) + spec_u64_to_be_bytes(sz));
            assert(spec_u64_to_be_bytes(sq) =~= s@.subrange(1, 9));
            assert(spec_u64_to_be_bytes(sz) =~= s@.subrange(9, 17));
            assert(spec_u64_from_be_bytes(s@.subrange(1, 9)) == sq);
            assert(spec_u64_from_be_bytes(s@.subrange(9, 17)) == sz);
        }
    }
    Ok(e)
    } else {
    if n != 17 {
        proof {
            assert forall|ev: LogEventView| spec_event_encoded(s@, ev) implies false by {
                assert(s@[0] == 6);
                assert(ev matches LogEventView::SessionExpired { .. });
                assert(spec_encode_event(ev).len() == 17);
            }
        }
        return Err(LogError::InvalidFormat);
    }
    let e = LogEvent::SessionExpired { key_id: read_bytes16(s, 1) };
    assert(spec_encode_event(e@) =~= s@);
    proof {
        assert forall|ev: LogEventView| spec_event_encoded(s@, ev) implies e@ == ev by {
            assert(s@[0] == 6);
            assert(ev matches LogEventView::SessionExpired { .. });
            let kid = ev->SessionExpired_key_id;
            assert(s@ == seq![6u8] + kid);
            assert(kid =~= s@.subrange(1, 17));
        }
    }
    Ok(e)
    }
}

/// The single-chunk event kinds.
#[verifier::rlimit(100)]
fn decode_event_one_chunk(s: &[u8]) -> (r: Result<LogEvent, LogError>)
    requires
        s@.len() >= 1,
        s@[0] == 4 || s@[0] == 8 || s@[0] == 9,
    ensures
        r is Ok ==> spec_event_wf(r.unwrap()@) && spec_encode_event(r.unwrap()@) == s@,
        forall|ev: LogEventView| spec_event_encoded(s@, ev) ==> r is Ok && r.unwrap()@ == ev,
{
    proof {
        crate::wire::lemma_u32_be_bytes_round_trip();
    }
    let n = s.len();
    let tag = s[0];
    proof {
        assert forall|ev: LogEventView| spec_event_encoded(s@, ev) implies ({
            let ct = spec_single_chunk_field(ev);
            &&& (if tag == 4 {
                ev matches LogEventView::ValidationPassed { .. }
            } else if tag == 8 {
                ev matches LogEventView::AuthenticationDenied { .. }
            } else {
                ev matches LogEventView::ChannelConnected { .. }
            })
            &&& ct.len() <= u32::MAX
            &&& s@ == seq![tag] + spec_chunk(ct)
            &&& s@.len() == 5 + ct.len()
            &&& s@.subrange(1, 5) == spec_u32_to_be_bytes(ct.len() as u32)
        }) by {
            assert(s@[0] == tag);
            let ct = spec_single_chunk_field(ev);
            assert(s@ == seq![tag] + spec_chunk(ct));
            assert(s@.subrange(1, 5) =~= spec_u32_to_be_bytes(ct.len() as u32));
        }
    }
    let (chunk, end) = match read_chunk(s, 1) {
        None => {
            proof {
                assert forall|ev: LogEventView| spec_event_encoded(s@, ev) implies false by {
                    let ct = spec_single_chunk_field(ev);
                    assert(spec_u32_from_be_bytes(s@.subrange(1, 5)) == ct.len() as u32);
                    assert(s@.len() - 1 >= 4 && ct.len() <= s@.len() - 1 - 4);
                }
            }
            return Err(LogError::InvalidFormat);
        },
        Some(t) => t,
    };
    proof {
        assert forall|ev: LogEventView| spec_event_encoded(s@, ev) implies chunk@
            == spec_single_chunk_field(ev) && end == n by {
            let ct = spec_single_chunk_field(ev);
            assert(s@.skip(1) =~= s@.subrange(1, end as int) + s@.skip(end as int));
            assert(s@.skip(1) =~= spec_chunk(ct) + Seq::<u8>::empty());
            lemma_chunk_prefix(chunk@, s@.skip(end as int), ct, Seq::<u8>::empty());
            assert(s@.skip(end as int).len() == 0);
        }
    }
    if end != n {
        proof {
            assert forall|ev: LogEventView| spec_event_encoded(s@, ev) implies false by {}
        }
        return Err(LogError::InvalidFormat);
    }
    let e = if tag == 4 {
        LogEvent::ValidationPassed { channel_type: chunk }
    } else if tag == 8 {
        LogEvent::AuthenticationDenied { reason: chunk }
    } else {
        LogEvent::ChannelConnected { channel_type: chunk }
    };
    assert(spec_encode_event(e@) =~= s@) by {
        assert(s@ =~= seq![s@[0]] + s@.subrange(1, n as int));
    }
    proof {
        assert forall|ev: LogEventView| spec_event_encoded(s@, ev) implies e@ == ev by {
            assert(e@ == ev);
        }
    }
    Ok(e)
}

/// The double-chunk event kinds.
#[verifier::rlimit(100)]
fn decode_event_two_chunks(s: &[u8]) -> (r: Result<LogEvent, LogError>)
    requires
        s@.len() >= 1,
        s@[0] == 5 || s@[0] == 10 || s@[0] == 11,
    ensures
        r is Ok ==> spec_event_wf(r.unwrap()@) && spec_encode_event(r.unwrap()@) == s@,
        forall|ev: LogEventView| spec_event_encoded(s@, ev) ==> r is Ok && r.unwrap()@ == ev,
{
    proof {
        crate::wire::lemma_u32_be_bytes_round_trip();
    }
    let n = s.len();
    let tag = s[0];
    proof {
        assert forall|ev: LogEventView| spec_event_encoded(s@, ev) implies ({
            let (c1, c2) = spec_pair_chunk_fields(ev);
            &&& (if tag == 5 {
                ev matches LogEventView::ValidationFailed { .. }
            } else if tag == 10 {
                ev matches LogEventView::ChannelDisconnected { .. }
            } else {
                ev matches LogEventView::ErrorOccurred { .. }
            })
            &&& c1.len() <= u32::MAX
            &&& c2.len() <= u32::MAX
            &&& s@ == seq![tag] + spec_chunk(c1) + spec_chunk(c2)
            &&& s@.len() == 9 + c1.len() + c2.len()
            &&& s@.subrange(1, 5) == spec_u32_to_be_bytes(c1.len() as u32)
            &&& s@.skip(1) == spec_chunk(c1) + spec_chunk(c2)
        }) by {
            assert(s@[0] == tag);
            let (c1, c2) = spec_pair_chunk_fields(ev);
            assert(s@ == seq![tag] + spec_chunk(c1) + spec_chunk(c2));
            assert(s@.subrange(1, 5) =~= spec_u32_to_be_bytes(c1.len() as u32));
            assert(s@.skip(1) =~= spec_chunk(c1) + spec_chunk(c2));
        }
    }
    let (first, mid) = match read_chunk(s, 1) {
        None => {
            proof {
                assert forall|ev: LogEventView| spec_event_encoded(s@, ev) implies false by {
                    let (c1, c2) = spec_pair_chunk_fields(ev);
                    assert(spec_u32_from_be_bytes(s@.subrange(1, 5)) == c1.len() as u32);
                    assert(s@.len() - 1 >= 4 && c1.len() <= s@.len() - 1 - 4);
                }
            }
            return Err(LogError::InvalidFormat);
        },
        Some(t) => t,
    };
    proof {
        assert forall|ev: LogEventView| spec_event_encoded(s@, ev) implies ({
            let (c1, c2) = spec_pair_chunk_fields(ev);
            &&& first@ == c1
            &&& mid == 5 + c1.len()
            &&& s@.skip(mid as int) == spec_chunk(c2)
            &&& s@.subrange(mid as int, mid + 4) == spec_u32_to_be_bytes(c2.len() as u32)
        }) by {
            let (c1, c2) = spec_pair_chunk_fields(ev);
            assert(s@.skip(1) =~= s@.subrange(1, mid as int) + s@.skip(mid as int));
            lemma_chunk_prefix(first@, s@.skip(mid as int), c1, spec_chunk(c2));
            assert(s@.subrange(mid as int, mid + 4) =~= spec_u32_to_be_bytes(
                c2.len() as u32,
            ));
        }
    }
    let (second, end) = match read_chunk(s, mid) {
        None => {
            proof {
                assert forall|ev: LogEventView| spec_event_encoded(s@, ev) implies false by {
                    let (c1, c2) = spec_pair_chunk_fields(ev);
                    assert(spec_u32_from_be_bytes(s@.subrange(mid as int, mid + 4))
                        == c2.len() as u32);
                    assert(s@.len() - mid >= 4 && c2.len() <= s@.len() - mid - 4);
                }
            }
            return Err(LogError::InvalidFormat);
        },
        Some(t) => t,
    };
    proof {
        assert forall|ev: LogEventView| spec_event_encoded(s@, ev) implies ({
            let (c1, c2) = spec_pair_chunk_fields(ev);
            second@ == c2 && end == n
        }) by {
            let (c1, c2) = spec_pair_chunk_fields(ev);
            assert(s@.skip(mid as int) =~= s@.subrange(mid as int, end as int) + s@.skip(
                end as int,
            ));
            assert(s@.skip(mid as int) =~= spec_chunk(c2) + Seq::<u8>::empty());
            lemma_chunk_prefix(second@, s@.skip(end as int), c2, Seq::<u8>::empty());
            assert(s@.skip(end as int).len() == 0);
        }
    }
    if end != n {
        proof {
            assert forall|ev: LogEventView| spec_event_encoded(s@, ev) implies false by {
                assert(end == n);
            }
        }
        return Err(LogError::InvalidFormat);
    }
    let e = if tag == 5 {
        LogEvent::ValidationFailed { channel_type: first, reason: second }
    } else if tag == 10 {
        LogEvent::ChannelDisconnected { channel_type: first, reason: second }
    } else {
        LogEvent::ErrorOccurred { error_type: first, details: second }
    };
    assert(spec_encode_event(e@) =~= s@) by {
        assert(s@ =~= seq![s@[0]] + s@.subrange(1, mid as int) + s@.subrange(
            mid as int,
            n as int,
        ));
    }
    proof {
        assert forall|ev: LogEventView| spec_event_encoded(s@, ev) implies e@ == ev by {
            assert(e@ == ev);
        }
    }
    Ok(e)
}

/// The permission-list event kind.
#[verifier::loop_isolation(false)]
#[verifier::rlimit(100)]
fn decode_event_granted(s: &[u8]) -> (r: Result<LogEvent, LogError>)
    requires
        s@.len() >= 1,
        s@[0] == 7,
    ensures
        r is Ok ==> spec_event_wf(r.unwrap()@) && spec_encode_event(r.unwrap()@) == s@,
        forall|ev: LogEventView| spec_event_encoded(s@, ev) ==> r is Ok && r.unwrap()@ == ev,
{
    proof {
        crate::wire::lemma_u32_be_bytes_round_trip();
    }
    let n = s.len();
    let tag = s[0];
    proof {
        assert forall|ev: LogEventView| spec_event_encoded(s@, ev) implies ({
            let perms = ev->AuthenticationGranted_permissions;
            &&& ev matches LogEventView::AuthenticationGranted { .. }
            &&& perms.len() <= u32::MAX
            &&& s@ == seq![7u8] + spec_u32_to_be_bytes(perms.len() as u32)
                + spec_chunk_items(perms)
            &&& s@.len() >= 5
            &&& s@.subrange(1, 5) == spec_u32_to_be_bytes(perms.len() as u32)
            &&& s@.skip(5) == spec_chunk_items(perms)
        }) by {
            assert(s@[0] == 7);
            assert(ev matches LogEventView::AuthenticationGranted { .. });
            let perms = ev->AuthenticationGranted_permissions;
            assert(s@ == seq![7u8] + spec_chunk_list(perms));
            assert(s@ =~= seq![7u8] + spec_u32_to_be_bytes(perms.len() as u32)
                + spec_chunk_items(perms));
            assert(s@.subrange(1, 5) =~= spec_u32_to_be_bytes(perms.len() as u32));
            assert(s@.skip(5) =~= spec_chunk_items(perms));
        }
    }
    let ghost has_ev = exists|ev: LogEventView| spec_event_encoded(s@, ev);
    let ghost gev: LogEventView = if has_ev {
        choose|ev: LogEventView| spec_event_encoded(s@, ev)
    } else {
        arbitrary()
    };
    let ghost gperms: Seq<Seq<u8>> = if has_ev {
        gev->AuthenticationGranted_permissions
    } else {
        Seq::empty()
    };
    if n < 5 {
        return Err(LogError::InvalidFormat);
    }
    let count = read_u32_be(s, 1);
    proof {
        if has_ev {
            assert(spec_event_encoded(s@, gev));
            assert(count == gperms.len());
        }
    }
    let mut items: Vec<Vec<u8>> = Vec::new();
    let mut pos: usize = 5;
    let mut k: u32 = 0;
    proof {
        assert(spec_chunk_items(Seq::<Seq<u8>>::empty()) =~= Seq::<u8>::empty());
        assert(s@.subrange(5, 5) =~= Seq::<u8>::empty());
        if has_ev {
            assert(gperms.subrange(0, 0) =~= Seq::<Seq<u8>>::empty());
        }
    }
    while k < count
        invariant
            0 <= k <= count,
            5 <= pos <= n,
            items@.len() == k,
            s@.subrange(5, pos as int) == spec_chunk_items(
                Seq::new(items@.len(), |i: int| items@[i]@),
            ),
            forall|i: int| 0 <= i < items@.len() ==> (#[trigger] items@[i])@.len() <= u32::MAX,
            has_ev ==> Seq::new(items@.len(), |i: int| items@[i]@) =~~= gperms.subrange(
                0,
                k as int,
            ),
        decreases count - k,
    {
        let ghost prev = Seq::new(items@.len(), |i: int| items@[i]@);
        proof {
            if has_ev {
                assert(gperms =~= gperms.subrange(0, k as int) + gperms.skip(k as int));
                lemma_chunk_items_add(gperms.subrange(0, k as int), gperms.skip(k as int));
                assert(s@.skip(5) =~= s@.subrange(5, pos as int) + s@.skip(pos as int));
                assert(spec_chunk_items(prev) == spec_chunk_items(
                    gperms.subrange(0, k as int),
                ));
                assert(s@.skip(pos as int) =~= spec_chunk_items(gperms.skip(k as int)));
                assert(gperms.skip(k as int).len() == gperms.len() - k);
                lemma_chunk_items_first(gperms.skip(k as int));
                assert(gperms.skip(k as int)[0] == gperms[k as int]);
                assert(s@.skip(pos as int) == spec_chunk(gperms[k as int]) + spec_chunk_items(
                    gperms.skip(k as int).skip(1),
                ));
                assert(s@.subrange(pos as int, pos + 4) =~= spec_u32_to_be_bytes(
                    gperms[k as int].len() as u32,
                ));
                assert(spec_u32_from_be_bytes(s@.subrange(pos as int, pos + 4))
                    == gperms[k as int].len() as u32);
                assert(s@.len() - pos >= 4 + gperms[k as int].len());
            }
        }
        let (chunk, newpos) = match read_chunk(s, pos) {
            None => {
                proof {
                    assert forall|ev: LogEventView| spec_event_encoded(s@, ev) implies false by {
                        assert(has_ev);
                    }
                }
                return Err(LogError::InvalidFormat);
            },
            Some(t) => t,
        };
        items.push(chunk);
        proof {
            let cur = Seq::new(items@.len(), |i: int| items@[i]@);
            assert(cur.drop_last() =~= prev);
            assert(s@.subrange(5, newpos as int) =~= s@.subrange(5, pos as int)
                + s@.subrange(pos as int, newpos as int));
            assert(s@.subrange(5, newpos as int) == spec_chunk_items(cur));
            if has_ev {
                assert(s@.skip(pos as int) =~= s@.subrange(pos as int, newpos as int)
                    + s@.skip(newpos as int));
                lemma_chunk_prefix(
                    chunk@,
                    s@.skip(newpos as int),
                    gperms[k as int],
                    spec_chunk_items(gperms.skip(k as int).skip(1)),
                );
                assert(chunk@ == gperms[k as int]);
                assert(cur =~~= gperms.subrange(0, k + 1));
            }
        }
        pos = newpos;
        k = k + 1;
    }
    proof {
        if has_ev {
            assert(count == gperms.len());
            assert(gperms.subrange(0, count as int) =~= gperms);
            assert(spec_chunk_items(Seq::new(items@.len(), |i: int| items@[i]@))
                == spec_chunk_items(gperms));
            assert(s@.subrange(5, pos as int) == s@.skip(5));
            assert(s@.skip(5).len() == s@.len() - 5);
            assert(pos == n);
        }
    }
    if pos != n {
        proof {
            assert forall|ev: LogEventView| spec_event_encoded(s@, ev) implies false by {
                assert(has_ev);
            }
        }
        return Err(LogError::InvalidFormat);
    }
    let e = LogEvent::AuthenticationGranted { permissions: items };
    assert(spec_encode_event(e@) =~= s@) by {
        assert(spec_u32_to_be_bytes(count) == s@.subrange(1, 5));
        assert(s@ =~= seq![s@[0]] + s@.subrange(1, 5) + s@.subrange(5, n as int));
    }
    proof {
        assert forall|ev: LogEventView| spec_event_encoded(s@, ev) implies e@ == ev by {
            assert(has_ev);
            assert(e@->AuthenticationGranted_permissions =~~= gperms);
            let perms = ev->AuthenticationGranted_permissions;
            assert(perms.len() == gperms.len());
            assert(spec_chunk_items(perms) == s@.skip(5));
            lemma_chunk_items_injective(perms, gperms);
            assert(e@ == ev);
        }
    }
    Ok(e)
}

/// Parses an event from exactly the given bytes; anything that is not the
/// canonical encoding of an event is rejected, and the canonical encoding of
/// every well-formed event is accepted and recovered exactly.
pub fn decode_event(s: &[u8]) -> (r: Result<LogEvent, LogError>)
    ensures
        r is Ok ==> spec_event_wf(r.unwrap()@) && spec_encode_event(r.unwrap()@) == s@,
        forall|ev: LogEventView| spec_event_encoded(s@, ev) ==> r is Ok && r.unwrap()@ == ev,
{
    let n = s.len();
    if n < 1 {
        proof {
            assert forall|ev: LogEventView| spec_event_encoded(s@, ev) implies false by {
                assert(spec_encode_event(ev).len() >= 1);
            }
        }
        return Err(LogError::InvalidFormat);
    }
    let tag = s[0];
    if tag == 0 || tag == 1 || tag == 2 || tag == 3 || tag == 6 {
        decode_event_fixed(s)
    } else if tag == 4 || tag == 8 || tag == 9 {
        decode_event_one_chunk(s)
    } else if tag == 5 || tag == 10 || tag == 11 {
        decode_event_two_chunks(s)
    } else if tag == 7 {
        decode_event_granted(s)
    } else {
        proof {
            assert forall|ev: LogEventView| spec_event_encoded(s@, ev) implies false by {
                assert(s@[0] == spec_encode_event(ev)[0]);
                assert(spec_encode_event(ev)[0] <= 11);
            }
        }
        Err(LogError::InvalidFormat)
    }
}


/// Field bounds an entry must meet so its encoding's prefixes fit.
pub open spec fn spec_entry_wf(e: LogEntryView) -> bool {
    &&& e.device_fingerprint.len() == 32
    &&& spec_event_wf(e.event)
    &&& e.signature.len() <= u32::MAX
}

/// Serializes an entry with the signature field cleared: what the log
/// signature covers.
pub fn encode_entry_signing_bytes(e: &LogEntry) -> (r: Vec<u8>)
    requires
        spec_entry_wf(e@),
    ensures
        r@ == spec_entry_signing_bytes(e@),
{
    let mut out: Vec<u8> = Vec::new();
    push_u64_be(&mut out, e.timestamp);
    push_u64_be(&mut out, e.sequence_number);
    push_bytes(&mut out, e.device_fingerprint.as_slice());
    let event_bytes = encode_event(&e.event);
    push_bytes(&mut out, event_bytes.as_slice());
    assert(out@ =~= spec_entry_signing_bytes(e@));
    out
}

/// Canonical bytes of a full entry record:
/// `timestamp(u64 BE) | sequence(u64 BE) | fingerprint(32) |
/// event_chunk | signature_chunk`.
pub open spec fn spec_encode_entry_record(e: LogEntryView) -> Seq<u8> {
    spec_u64_to_be_bytes(e.timestamp) + spec_u64_to_be_bytes(e.sequence_number)
        + e.device_fingerprint + spec_chunk(spec_encode_event(e.event)) + spec_chunk(e.signature)
}

/// Serializes a full entry, signature included.
pub fn encode_entry_record(e: &LogEntry) -> (r: Vec<u8>)
    requires
        spec_entry_wf(e@),
        spec_encode_event(e@.event).len() <= u32::MAX,
    ensures
        r@ == spec_encode_entry_record(e@),
{
    let mut out: Vec<u8> = Vec::new();
    push_u64_be(&mut out, e.timestamp);
    push_u64_be(&mut out, e.sequence_number);
    push_bytes(&mut out, e.device_fingerprint.as_slice());
    let event_bytes = encode_event(&e.event);
    push_chunk(&mut out, event_bytes.as_slice());
    push_chunk(&mut out, e.signature.as_slice());
    assert(out@ =~= spec_encode_entry_record(e@));
    out
}

/// Whether `s` is the canonical record of a well-formed entry whose event
/// encoding fits a length prefix: the completeness side of
/// `decode_entry_record`.
pub open spec fn spec_entry_encoded(s: Seq<u8>, e: LogEntryView) -> bool {
    &&& spec_entry_wf(e)
    &&& spec_encode_event(e.event).len() <= u32::MAX
    &&& s == spec_encode_entry_record(e)
}

/// Parses one full entry from exactly the given bytes; the canonical record
/// of every well-formed entry is accepted and recovered exactly.
#[verifier::rlimit(100)]
pub fn decode_entry_record(s: &[u8]) -> (r: Result<LogEntry, LogError>)
    ensures
        r is Ok ==> spec_entry_wf(r.unwrap()@) && spec_encode_entry_record(r.unwrap()@) == s@,
        forall|e: LogEntryView| spec_entry_encoded(s@, e) ==> r is Ok && r.unwrap()@ == e,
{
    proof {
        crate::wire::lemma_u64_be_bytes_round_trip();
        crate::wire::lemma_u32_be_bytes_round_trip();
    }
    let n = s.len();
    proof {
        assert forall|e: LogEntryView| spec_entry_encoded(s@, e) implies ({
            let ebytes = spec_encode_event(e.event);
            &&& s@.len() == 56 + ebytes.len() + e.signature.len()
            &&& spec_u64_to_be_bytes(e.timestamp) == s@.subrange(0, 8)
            &&& spec_u64_to_be_bytes(e.sequence_number) == s@.subrange(8, 16)
            &&& e.device_fingerprint == s@.subrange(16, 48)
            &&& s@.subrange(48, 52) == spec_u32_to_be_bytes(ebytes.len() as u32)
            &&& s@.skip(48) == spec_chunk(ebytes) + spec_chunk(e.signature)
        }) by {
            let ebytes = spec_encode_event(e.event);
            assert(spec_u64_to_be_bytes(e.timestamp) =~= s@.subrange(0, 8));
            assert(spec_u64_to_be_bytes(e.sequence_number) =~= s@.subrange(8, 16));
            assert(e.device_fingerprint =~= s@.subrange(16, 48));
            assert(s@.subrange(48, 52) =~= spec_u32_to_be_bytes(ebytes.len() as u32));
            assert(s@.skip(48) =~= spec_chunk(ebytes) + spec_chunk(e.signature));
        }
    }
    if n < 48 {
        proof {
            assert forall|e: LogEntryView| spec_entry_encoded(s@, e) implies false by {}
        }
        return Err(LogError::InvalidFormat);
    }
    let timestamp = read_u64_be(s, 0);
    let sequence_number = read_u64_be(s, 8);
    let device_fingerprint = read_bytes32(s, 16);
    let (event_bytes, mid) = match read_chunk(s, 48) {
        None => {
            proof {
                assert forall|e: LogEntryView| spec_entry_encoded(s@, e) implies false by {
                    let ebytes = spec_encode_event(e.event);
                    assert(spec_u32_from_be_bytes(s@.subrange(48, 52)) == ebytes.len() as u32);
                    assert(s@.len() - 48 >= 4 && ebytes.len() <= s@.len() - 48 - 4);
                }
            }
            return Err(LogError::InvalidFormat);
        },
        Some(t) => t,
    };
    proof {
        assert forall|e: LogEntryView| spec_entry_encoded(s@, e) implies event_bytes@
            == spec_encode_event(e.event) && s@.skip(mid as int) == spec_chunk(e.signature) by {
            let ebytes = spec_encode_event(e.event);
            assert(s@.skip(48) =~= s@.subrange(48, mid as int) + s@.skip(mid as int));
            lemma_chunk_prefix(event_bytes@, s@.skip(mid as int), ebytes, spec_chunk(e.signature));
        }
    }
    let event = match decode_event(event_bytes.as_slice()) {
        Err(e) => {
            proof {
                assert forall|en: LogEntryView| spec_entry_encoded(s@, en) implies false by {
                    assert(spec_event_encoded(event_bytes@, en.event));
                }
            }
            return Err(e);
        },
        Ok(ev) => ev,
    };
    let (signature, end) = match read_chunk(s, mid) {
        None => {
            proof {
                assert forall|e: LogEntryView| spec_entry_encoded(s@, e) implies false by {
                    assert(s@.subrange(mid as int, mid + 4) =~= spec_u32_to_be_bytes(
                        e.signature.len() as u32,
                    ));
                    assert(spec_u32_from_be_bytes(s@.subrange(mid as int, mid + 4))
                        == e.signature.len() as u32);
                    assert(s@.len() - mid >= 4 && e.signature.len() <= s@.len() - mid - 4);
                }
            }
            return Err(LogError::InvalidFormat);
        },
        Some(t) => t,
    };
    proof {
        assert forall|e: LogEntryView| spec_entry_encoded(s@, e) implies signature@ == e.signature
            && end == n by {
            assert(s@.skip(mid as int) =~= s@.subrange(mid as int, end as int) + s@.skip(
                end as int,
            ));
            assert(s@.skip(mid as int) =~= spec_chunk(e.signature) + Seq::<u8>::empty());
            lemma_chunk_prefix(signature@, s@.skip(end as int), e.signature, Seq::<u8>::empty());
            assert(s@.skip(end as int).len() == 0);
        }
    }
    if end != n {
        proof {
            assert forall|e: LogEntryView| spec_entry_encoded(s@, e) implies false by {
                assert(end == n);
            }
        }
        return Err(LogError::InvalidFormat);
    }
    let entry = LogEntry { timestamp, sequence_number, event, device_fingerprint, signature };
    assert(spec_encode_entry_record(entry@) =~= s@) by {
        assert(s@ =~= s@.subrange(0, 8) + s@.subrange(8, 16) + s@.subrange(16, 48) + s@.subrange(
            48,
            mid as int,
        ) + s@.subrange(mid as int, n as int));
    }
    proof {
        assert forall|e: LogEntryView| spec_entry_encoded(s@, e) implies entry@ == e by {
            assert(spec_event_encoded(event_bytes@, e.event));
            assert(entry@.event == e.event);
            assert(spec_u64_from_be_bytes(s@.subrange(0, 8)) == e.timestamp);
            assert(spec_u64_from_be_bytes(s@.subrange(8, 16)) == e.sequence_number);
        }
    }
    Ok(entry)
}

impl Clone for LogEvent {
    fn clone(&self) -> (r: Self)
        ensures
            r@ == self@,
    {
        match self {
            LogEvent::SessionStarted { peer_fingerprint, timestamp } => LogEvent::SessionStarted {
                peer_fingerprint: *peer_fingerprint,
                timestamp: *timestamp,
            },
            LogEvent::KeyExchanged { key_id, ephemeral } => LogEvent::KeyExchanged {
                key_id: *key_id,
                ephemeral: *ephemeral,
            },
            LogEvent::MessageSent { sequence_id, size_bytes } => LogEvent::MessageSent {
                sequence_id: *sequence_id,
                size_bytes: *size_bytes,
            },
            LogEvent::MessageReceived { sequence_id, size_bytes } => LogEvent::MessageReceived {
                sequence_id: *sequence_id,
                size_bytes: *size_bytes,
            },
            LogEvent::ValidationPassed { channel_type } => LogEvent::ValidationPassed {
                channel_type: clone_bytes(channel_type),
            },
            LogEvent::ValidationFailed { channel_type, reason } => LogEvent::ValidationFailed {
                channel_type: clone_bytes(channel_type),
                reason: clone_bytes(reason),
            },
            LogEvent::SessionExpired { key_id } => LogEvent::SessionExpired { key_id: *key_id },
            LogEvent::AuthenticationGranted { permissions } => {
                let mut copies: Vec<Vec<u8>> = Vec::new();
                let n = permissions.len();
                let mut i: usize = 0;
                while i < n
                    invariant
                        n == permissions@.len(),
                        0 <= i <= n,
                        copies@.len() == i,
                        forall|j: int| 0 <= j < i ==> (#[trigger] copies@[j])@ == permissions@[j]@,
                    decreases n - i,
                {
                    copies.push(clone_bytes(&permissions[i]));
                    i = i + 1;
                }
                let r = LogEvent::AuthenticationGranted { permissions: copies };
                proof {
                    assert(Seq::new(copies@.len(), |j: int| copies@[j]@) =~= Seq::new(
                        permissions@.len(),
                        |j: int| permissions@[j]@,
                    ));
                }
                r
            },
            LogEvent::AuthenticationDenied { reason } => LogEvent::AuthenticationDenied {
                reason: clone_bytes(reason),
            },
            LogEvent::ChannelConnected { channel_type } => LogEvent::ChannelConnected {
                channel_type: clone_bytes(channel_type),
            },
            LogEvent::ChannelDisconnected { channel_type, reason } => LogEvent::ChannelDisconnected {
                channel_type: clone_bytes(channel_type),
                reason: clone_bytes(reason),
            },
            LogEvent::ErrorOccurred { error_type, details } => LogEvent::ErrorOccurred {
                error_type: clone_bytes(error_type),
                details: clone_bytes(details),
            },
        }
    }
}

impl Clone for LogEntry {
    fn clone(&self) -> (r: Self)
        ensures
            r@ == self@,
    {
        LogEntry {
            timestamp: self.timestamp,
            sequence_number: self.sequence_number,
            event: self.event.clone(),
            device_fingerprint: self.device_fingerprint,
            signature: clone_bytes(&self.signature),
        }
    }
}

/// Copies a byte vector.
fn clone_bytes(src: &Vec<u8>) -> (r: Vec<u8>)
    ensures
        r@ == src@,
{
    let mut r: Vec<u8> = Vec::new();
    push_bytes(&mut r, src.as_slice());
    r
}

/// Walks `entries` in order and reports the first sequence gap or the first
/// signature that does not verify under `vk`, by the sequence number the
/// offending entry claims.
pub fn verify_entries(vk: &[u8; 32], entries: &Vec<LogEntry>, first_seq: u64) -> (r: Result<
    (),
    LogError,
>)
    requires
        forall|i: int| 0 <= i < entries@.len() ==> spec_entry_wf((#[trigger] entries@[i])@),
    ensures
        r is Ok <==> spec_chain_ok(
            Seq::new(entries@.len(), |i: int| entries@[i]@),
            first_seq,
            vk@,
        ),
        ({
            let views = Seq::new(entries@.len(), |i: int| entries@[i]@);
            match r {
                Ok(()) => true,
                Err(LogError::SequenceViolation(s)) => exists|i: int|
                    0 <= i < views.len() && (#[trigger] views[i]).sequence_number == s
                        && views[i].sequence_number != first_seq + i,
                Err(LogError::TamperingDetected(s)) => exists|i: int|
                    0 <= i < views.len() && (#[trigger] views[i]).sequence_number == s && !(
                    views[i].signature.len() == 64 && ed25519_verifies(
                        vk@,
                        spec_entry_signing_bytes(views[i]),
                        views[i].signature,
                    )),
                _ => false,
            }
        }),
{
    let ghost views = Seq::new(entries@.len(), |i: int| entries@[i]@);
    let n = entries.len();
    let mut i: usize = 0;
    while i < n
        invariant
            n == entries@.len(),
            views == Seq::new(entries@.len(), |k: int| entries@[k]@),
            forall|k: int| 0 <= k < entries@.len() ==> spec_entry_wf((#[trigger] entries@[k])@),
            0 <= i <= n,
            forall|k: int|
                0 <= k < i ==> (#[trigger] views[k]).sequence_number == first_seq + k,
            forall|k: int|
                0 <= k < i ==> (#[trigger] views[k]).signature.len() == 64 && ed25519_verifies(
                    vk@,
                    spec_entry_signing_bytes(views[k]),
                    views[k].signature,
                ),
        decreases n - i,
    {
        let entry = &entries[i];
        let expected = if first_seq > u64::MAX - (i as u64) {
            return Err(LogError::SequenceViolation(entry.sequence_number));
        } else {
            first_seq + (i as u64)
        };
        if entry.sequence_number != expected {
            proof {
                assert(views[i as int].sequence_number != first_seq + i);
            }
            return Err(LogError::SequenceViolation(entry.sequence_number));
        }
        let signing = encode_entry_signing_bytes(entry);
        if crate::crypto::CryptoEngine::verify_log_signature(
            vk,
            signing.as_slice(),
            entry.signature.as_slice(),
        ).is_err() {
            proof {
                assert(!(views[i as int].signature.len() == 64 && ed25519_verifies(
                    vk@,
                    spec_entry_signing_bytes(views[i as int]),
                    views[i as int].signature,
                )));
            }
            return Err(LogError::TamperingDetected(entry.sequence_number));
        }
        i = i + 1;
    }
    Ok(())
}

/// The file magic that opens an exported log.
pub open spec fn spec_log_magic() -> Seq<u8> {
    seq![0x41u8, 0x55u8, 0x44u8, 0x49u8, 0x54u8, 0u8, 0u8, 1u8]
}

/// The concatenated length-prefixed records of a log.
pub open spec fn spec_encode_records(entries: Seq<LogEntryView>) -> Seq<u8>
    decreases entries.len(),
{
    if entries.len() == 0 {
        Seq::empty()
    } else {
        spec_encode_records(entries.drop_last()) + spec_chunk(
            spec_encode_entry_record(entries.last()),
        )
    }
}

/// An exported log file: `magic(8) | verifying_key(32) | record_chunk*`.
pub open spec fn spec_export_bytes(entries: Seq<LogEntryView>, vk: Seq<u8>) -> Seq<u8> {
    spec_log_magic() + vk + spec_encode_records(entries)
}

/// The sequence number an imported log starts at: that of the first record,
/// or one for an empty log.
pub open spec fn spec_import_first_seq(entries: Seq<LogEntryView>) -> u64 {
    if entries.len() == 0 {
        1u64
    } else {
        entries[0].sequence_number
    }
}

/// Whether `data` is a valid export of `entries` under the verifying key
/// `vk`: the magic header, the key itself, and well-formed records that
/// chain gap-free from the first entry under verifying signatures, with the
/// next sequence number still representable.
pub open spec fn spec_import_acceptable(data: Seq<u8>, entries: Seq<LogEntryView>, vk: Seq<u8>) -> bool {
    &&& data == spec_export_bytes(entries, vk)
    &&& forall|i: int| 0 <= i < entries.len() ==> spec_entry_wf(#[trigger] entries[i])
    &&& forall|i: int|
        0 <= i < entries.len() ==> spec_encode_event((#[trigger] entries[i]).event).len()
            <= u32::MAX - 120
    &&& spec_chain_ok(entries, spec_import_first_seq(entries), vk)
    &&& spec_import_first_seq(entries) + entries.len() <= u64::MAX
}

/// The records of a concatenation are the concatenated records.
proof fn lemma_encode_records_add(a: Seq<LogEntryView>, b: Seq<LogEntryView>)
    ensures
        spec_encode_records(a + b) == spec_encode_records(a) + spec_encode_records(b),
    decreases b.len(),
{
    if b.len() == 0 {
        assert(a + b =~= a);
        assert(spec_encode_records(b) =~= Seq::<u8>::empty());
        assert(spec_encode_records(a) + spec_encode_records(b) =~= spec_encode_records(a));
    } else {
        lemma_encode_records_add(a, b.drop_last());
        assert((a + b).drop_last() =~= a + b.drop_last());
        assert((a + b).last() == b.last());
        assert(spec_encode_records(a + b) == spec_encode_records(a + b.drop_last()) + spec_chunk(
            spec_encode_entry_record(b.last()),
        ));
        assert(spec_encode_records(a) + spec_encode_records(b) =~= spec_encode_records(a) + (
        spec_encode_records(b.drop_last()) + spec_chunk(spec_encode_entry_record(b.last()))));
        assert(spec_encode_records(a) + spec_encode_records(b.drop_last()) + spec_chunk(
            spec_encode_entry_record(b.last()),
        ) =~= spec_encode_records(a) + (spec_encode_records(b.drop_last()) + spec_chunk(
            spec_encode_entry_record(b.last()),
        )));
    }
}

/// A nonempty record stream decomposes at its first record.
proof fn lemma_encode_records_first(p: Seq<LogEntryView>)
    requires
        p.len() > 0,
    ensures
        spec_encode_records(p) == spec_chunk(spec_encode_entry_record(p[0]))
            + spec_encode_records(p.skip(1)),
{
    assert(p =~= seq![p[0]] + p.skip(1));
    lemma_encode_records_add(seq![p[0]], p.skip(1));
    let single = seq![p[0]];
    assert(single.drop_last() =~= Seq::<LogEntryView>::empty());
    assert(single.last() == p[0]);
    assert(spec_encode_records(single) == spec_encode_records(single.drop_last()) + spec_chunk(
        spec_encode_entry_record(single.last()),
    ));
    assert(spec_encode_records(single.drop_last()) + spec_chunk(spec_encode_entry_record(p[0]))
        =~= spec_chunk(spec_encode_entry_record(p[0])));
}

/// Append-only signed event log with a bounded store.
pub struct SignedLogger {
    crypto_engine: CryptoEngine,
    device_fingerprint: [u8; 32],
    log_entries: Vec<LogEntry>,
    first_sequence: u64,
    next_sequence: u64,
    max_entries: usize,
}

impl SignedLogger {
    /// The stored entries, for contracts only.
    pub closed spec fn entries_spec(self) -> Seq<LogEntryView> {
        Seq::new(self.log_entries@.len(), |i: int| self.log_entries@[i]@)
    }

    /// The sequence number of the first stored entry.
    pub closed spec fn first_sequence_spec(self) -> u64 {
        self.first_sequence
    }

    /// The sequence number the next entry will get.
    pub closed spec fn next_sequence_spec(self) -> u64 {
        self.next_sequence
    }

    /// The bound on the number of stored entries.
    pub closed spec fn max_entries_spec(self) -> usize {
        self.max_entries
    }

    /// The verifying key of the log's signing key.
    pub closed spec fn verifying_key_spec(self) -> Seq<u8> {
        crate::crypto::ed25519_public_of(self.crypto_engine.signing_secret_spec())
    }

    /// The device fingerprint stamped on every entry.
    pub closed spec fn device_fingerprint_spec(self) -> Seq<u8> {
        self.device_fingerprint@
    }

    /// Entries are well formed, chained gap-free from `first_sequence`, all
    /// signed by the log key, and the counter is past the last entry.
    pub closed spec fn wf(self) -> bool {
        &&& self.crypto_engine.wf()
        &&& self.next_sequence == self.first_sequence + self.entries_spec().len()
        &&& spec_chain_ok(self.entries_spec(), self.first_sequence, self.verifying_key_spec())
        &&& forall|i: int|
            0 <= i < self.entries_spec().len() ==> spec_entry_wf(#[trigger] self.entries_spec()[i])
        &&& forall|i: int|
            0 <= i < self.entries_spec().len() ==> spec_encode_event(
                (#[trigger] self.entries_spec()[i]).event,
            ).len() <= u32::MAX - 120
    }

    pub fn new(crypto_engine: CryptoEngine, device_id: &[u8], max_entries: usize) -> (r: Self)
        requires
            crypto_engine.wf(),
        ensures
            r.wf(),
            r.entries_spec().len() == 0,
            r.first_sequence_spec() == 1,
            r.next_sequence_spec() == 1,
            r.max_entries_spec() == max_entries,
            r.device_fingerprint_spec() == crate::crypto::sha256_of(device_id@),
    {
        let device_fingerprint = crate::crypto::generate_device_fingerprint(device_id);
        SignedLogger {
            crypto_engine,
            device_fingerprint,
            log_entries: Vec::new(),
            first_sequence: 1,
            next_sequence: 1,
            max_entries,
        }
    }

    /// Read access to the stored entries.
    pub fn entries(&self) -> (r: &Vec<LogEntry>)
        ensures
            Seq::new(r@.len(), |i: int| r@[i]@) == self.entries_spec(),
    {
        proof {
            assert(Seq::new(self.log_entries@.len(), |i: int| self.log_entries@[i]@)
                =~= self.entries_spec());
        }
        &self.log_entries
    }

    /// Signs and appends one event with the next sequence number, dropping
    /// the oldest entries once the bound is exceeded.
    #[verifier::loop_isolation(false)]
    #[verifier::rlimit(60)]
    pub fn log_event(&mut self, event: LogEvent, now_ms: u64) -> (r: Result<(), LogError>)
        requires
            old(self).wf(),
            spec_event_wf(event@),
            old(self).next_sequence_spec() < u64::MAX,
        ensures
            final(self).wf(),
            r is Ok <==> spec_encode_event(event@).len() <= u32::MAX - 120,
            r is Err ==> *final(self) == *old(self),
            r is Ok ==> ({
                let all = old(self).entries_spec().push(
                    LogEntryView {
                        timestamp: now_ms,
                        sequence_number: old(self).next_sequence_spec(),
                        event: event@,
                        device_fingerprint: old(self).device_fingerprint_spec(),
                        signature: crate::crypto::ed25519_sign_of(
                            old(self).signing_secret(),
                            spec_entry_signing_bytes(
                                LogEntryView {
                                    timestamp: now_ms,
                                    sequence_number: old(self).next_sequence_spec(),
                                    event: event@,
                                    device_fingerprint: old(self).device_fingerprint_spec(),
                                    signature: Seq::empty(),
                                },
                            ),
                        ),
                    },
                );
                let drop = if all.len() > old(self).max_entries_spec() {
                    all.len() - old(self).max_entries_spec()
                } else {
                    0
                };
                &&& final(self).next_sequence_spec() == old(self).next_sequence_spec() + 1
                &&& final(self).entries_spec() == all.skip(drop as int)
                &&& final(self).max_entries_spec() == old(self).max_entries_spec()
            }),
    {
        let mut entry = LogEntry {
            timestamp: now_ms,
            sequence_number: self.next_sequence,
            event,
            device_fingerprint: self.device_fingerprint,
            signature: Vec::new(),
        };
        let entry_data = encode_entry_signing_bytes(&entry);
        let signature = self.crypto_engine.sign_log_entry(entry_data.as_slice());
        entry.signature = signature;
        let event_bytes = encode_event(&entry.event);
        if event_bytes.len() > (u32::MAX - 120) as usize {
            return Err(LogError::InvalidFormat);
        }
        let ghost old_entries = self.entries_spec();
        let ghost new_view = entry@;
        self.log_entries.push(entry);
        self.next_sequence = self.next_sequence + 1;
        proof {
            assert(self.entries_spec() =~= old_entries.push(new_view));
        }
        while self.log_entries.len() > self.max_entries
            invariant
                self.crypto_engine == old(self).crypto_engine,
                self.device_fingerprint == old(self).device_fingerprint,
                self.max_entries == old(self).max_entries_spec(),
                self.next_sequence == old(self).next_sequence_spec() + 1,
                self.entries_spec().len() >= (if old_entries.push(new_view).len()
                    > self.max_entries {
                    self.max_entries as int
                } else {
                    old_entries.push(new_view).len() as int
                }),
                self.first_sequence + self.entries_spec().len() == self.next_sequence,
                spec_chain_ok(
                    self.entries_spec(),
                    self.first_sequence,
                    self.verifying_key_spec(),
                ),
                forall|i: int|
                    0 <= i < self.entries_spec().len() ==> spec_entry_wf(
                        #[trigger] self.entries_spec()[i],
                    ),
                forall|i: int|
                    0 <= i < self.entries_spec().len() ==> spec_encode_event(
                        (#[trigger] self.entries_spec()[i]).event,
                    ).len() <= u32::MAX - 120,
                self.entries_spec() == old_entries.push(new_view).skip(
                    old_entries.push(new_view).len() - self.entries_spec().len(),
                ),
                self.entries_spec().len() <= old_entries.push(new_view).len(),
                self.first_sequence <= u64::MAX,
            decreases self.log_entries.len(),
        {
            let ghost before = self.entries_spec();
            self.log_entries.remove(0);
            self.first_sequence = self.first_sequence + 1;
            proof {
                assert(self.entries_spec() =~= before.skip(1));
                let all = old_entries.push(new_view);
                assert(self.entries_spec() =~= all.skip(all.len() - self.entries_spec().len()));
            }
        }
        proof {
            let all = old_entries.push(new_view);
            let drop = if all.len() > self.max_entries as int {
                all.len() - self.max_entries as int
            } else {
                0
            };
            assert(self.entries_spec().len() == all.len() - drop);
        }
        Ok(())
    }

    /// The signing secret, for contracts only.
    pub closed spec fn signing_secret(self) -> Seq<u8> {
        self.crypto_engine.signing_secret_spec()
    }

    /// Walks the stored log and reports the first gap or bad signature.
    pub fn verify_log_integrity(&self) -> (r: Result<(), LogError>)
        requires
            self.wf(),
        ensures
            r is Ok,
    {
        proof {
            assert forall|i: int| 0 <= i < self.log_entries@.len() implies spec_entry_wf(
                (#[trigger] self.log_entries@[i])@,
            ) by {
                assert(self.entries_spec()[i] == self.log_entries@[i]@);
            }
        }
        let vk = *self.crypto_engine.ed25519_public_key();
        let r = verify_entries(&vk, &self.log_entries, self.first_sequence);
        proof {
            assert(Seq::new(self.log_entries@.len(), |i: int| self.log_entries@[i]@)
                =~= self.entries_spec());
        }
        r
    }

    /// Entries at or after `timestamp`, oldest first.
    #[verifier::loop_isolation(false)]
    pub fn get_entries_since(&self, timestamp: u64) -> (r: Vec<LogEntry>)
        ensures
            Seq::new(r@.len(), |i: int| r@[i]@) == self.entries_spec().filter(
                |e: LogEntryView| e.timestamp >= timestamp,
            ),
    {
        let ghost pred = |e: LogEntryView| e.timestamp >= timestamp;
        let ghost views = self.entries_spec();
        let n = self.log_entries.len();
        let mut out: Vec<LogEntry> = Vec::new();
        let mut i: usize = 0;
        proof {
            assert(views.subrange(0, 0).filter(pred) =~= Seq::<LogEntryView>::empty());
            assert(Seq::new(out@.len(), |k: int| out@[k]@) =~= Seq::<LogEntryView>::empty());
        }
        while i < n
            invariant
                0 <= i <= n,
                n == self.log_entries@.len(),
                Seq::new(out@.len(), |k: int| out@[k]@) == views.subrange(0, i as int).filter(
                    pred,
                ),
            decreases n - i,
        {
            let ghost prefix = views.subrange(0, i as int);
            let ghost single = seq![views[i as int]];
            let ghost out_view = Seq::new(out@.len(), |k: int| out@[k]@);
            let keep = self.log_entries[i].timestamp >= timestamp;
            if keep {
                out.push(self.log_entries[i].clone());
                proof {
                    reveal_with_fuel(Seq::filter, 3);
                    assert(views.subrange(0, i + 1) =~= prefix + single);
                    Seq::filter_distributes_over_add(prefix, single, pred);
                    assert(single.drop_last() =~= Seq::<LogEntryView>::empty());
                    assert(pred(single.last()));
                    assert(single.filter(pred) =~= Seq::<LogEntryView>::empty().push(
                        views[i as int],
                    ));
                    assert(Seq::new(out@.len(), |k: int| out@[k]@) =~= out_view.push(
                        views[i as int],
                    ));
                    assert(views.subrange(0, i + 1).filter(pred) =~= out_view.push(
                        views[i as int],
                    ));
                }
            } else {
                proof {
                    reveal_with_fuel(Seq::filter, 3);
                    assert(views.subrange(0, i + 1) =~= prefix + single);
                    Seq::filter_distributes_over_add(prefix, single, pred);
                    assert(single.drop_last() =~= Seq::<LogEntryView>::empty());
                    assert(!pred(single.last()));
                    assert(single.filter(pred) =~= Seq::<LogEntryView>::empty());
                    assert(views.subrange(0, i + 1).filter(pred) =~= out_view);
                }
            }
            i = i + 1;
        }
        proof {
            assert(views.subrange(0, n as int) =~= views);
        }
        out
    }

    /// Serializes the whole log: magic, verifying key, then every record.
    #[verifier::loop_isolation(false)]
    #[verifier::rlimit(60)]
    pub fn export_log(&self) -> (r: Vec<u8>)
        requires
            self.wf(),
        ensures
            r@ == spec_export_bytes(self.entries_spec(), self.verifying_key_spec()),
    {
        let ghost views = self.entries_spec();
        let mut out: Vec<u8> = Vec::new();
        out.push(0x41u8);
        out.push(0x55u8);
        out.push(0x44u8);
        out.push(0x49u8);
        out.push(0x54u8);
        out.push(0u8);
        out.push(0u8);
        out.push(1u8);
        let vk = *self.crypto_engine.ed25519_public_key();
        push_bytes(&mut out, vk.as_slice());
        proof {
            assert(spec_encode_records(views.subrange(0, 0)) =~= Seq::<u8>::empty());
            assert(out@ =~= spec_log_magic() + self.verifying_key_spec() + spec_encode_records(
                views.subrange(0, 0),
            ));
        }
        let n = self.log_entries.len();
        let mut i: usize = 0;
        while i < n
            invariant
                0 <= i <= n,
                n == self.log_entries@.len(),
                out@ == spec_log_magic() + self.verifying_key_spec() + spec_encode_records(
                    views.subrange(0, i as int),
                ),
            decreases n - i,
        {
            let record = encode_entry_record(&self.log_entries[i]);
            proof {
                assert(self.entries_spec()[i as int] == views[i as int]);
                assert(views[i as int].signature.len() == 64);
                assert(spec_encode_event(views[i as int].event).len() <= u32::MAX - 120);
                assert(record@.len() == 56 + spec_encode_event(views[i as int].event).len()
                    + views[i as int].signature.len());
            }
            push_chunk(&mut out, record.as_slice());
            proof {
                assert(views.subrange(0, i + 1).drop_last() =~= views.subrange(0, i as int));
                assert(out@ =~= spec_log_magic() + self.verifying_key_spec()
                    + spec_encode_records(views.subrange(0, i + 1)));
            }
            i = i + 1;
        }
        proof {
            assert(views.subrange(0, n as int) =~= views);
        }
        out
    }

    /// Parses and verifies a whole exported log before adopting it; on any
    /// failure the local state is untouched.  Every valid export under the
    /// log's own key is accepted, and whatever is accepted re-serializes to
    /// exactly the input bytes.  On success the next sequence number
    /// continues after the imported entries.
    #[verifier::loop_isolation(false)]
    #[verifier::rlimit(100)]
    pub fn import_log(&mut self, data: &[u8]) -> (r: Result<(), LogError>)
        requires
            old(self).wf(),
        ensures
            final(self).wf(),
            r is Err ==> *final(self) == *old(self),
            r is Ok ==> spec_chain_ok(
                final(self).entries_spec(),
                final(self).first_sequence_spec(),
                final(self).verifying_key_spec(),
            ),
            r is Ok ==> final(self).next_sequence_spec() == final(self).first_sequence_spec()
                + final(self).entries_spec().len(),
            r is Ok ==> data@ == spec_export_bytes(
                final(self).entries_spec(),
                old(self).verifying_key_spec(),
            ),
            r is Ok ==> final(self).first_sequence_spec() == spec_import_first_seq(
                final(self).entries_spec(),
            ),
            final(self).verifying_key_spec() == old(self).verifying_key_spec(),
            final(self).max_entries_spec() == old(self).max_entries_spec(),
            final(self).device_fingerprint_spec() == old(self).device_fingerprint_spec(),
            forall|es: Seq<LogEntryView>|
                spec_import_acceptable(data@, es, old(self).verifying_key_spec()) ==> r is Ok,
    {
        proof {
            crate::wire::lemma_u32_be_bytes_round_trip();
        }
        let n = data.len();
        let own_vk = *self.crypto_engine.ed25519_public_key();
        let ghost own_vk_spec = old(self).verifying_key_spec();
        let ghost acceptable = exists|es: Seq<LogEntryView>|
            spec_import_acceptable(data@, es, own_vk_spec);
        let ghost ges: Seq<LogEntryView> = if acceptable {
            choose|es: Seq<LogEntryView>| spec_import_acceptable(data@, es, own_vk_spec)
        } else {
            Seq::empty()
        };
        proof {
            if acceptable {
                assert(spec_import_acceptable(data@, ges, own_vk_spec));
                assert(own_vk@ == own_vk_spec);
                assert(own_vk_spec.len() == 32);
                assert(data@.len() == 40 + spec_encode_records(ges).len());
                assert(data@[0] == 0x41 && data@[1] == 0x55 && data@[2] == 0x44 && data@[3]
                    == 0x49 && data@[4] == 0x54 && data@[5] == 0 && data@[6] == 0 && data@[7]
                    == 1);
                assert(data@.subrange(8, 40) =~= own_vk_spec);
                assert(data@.skip(40) =~= spec_encode_records(ges));
            }
        }
        if n < 40 {
            proof {
                assert forall|es: Seq<LogEntryView>|
                    spec_import_acceptable(data@, es, own_vk_spec) implies false by {
                    assert(acceptable);
                }
            }
            return Err(LogError::InvalidFormat);
        }
        let magic_ok = data[0] == 0x41 && data[1] == 0x55 && data[2] == 0x44 && data[3] == 0x49
            && data[4] == 0x54 && data[5] == 0 && data[6] == 0 && data[7] == 1;
        if !magic_ok {
            proof {
                assert forall|es: Seq<LogEntryView>|
                    spec_import_acceptable(data@, es, own_vk_spec) implies false by {
                    assert(acceptable);
                }
            }
            return Err(LogError::InvalidFormat);
        }
        let vk = read_bytes32(data, 8);
        if !crate::crypto::constant_time_eq(vk.as_slice(), own_vk.as_slice()) {
            proof {
                assert forall|es: Seq<LogEntryView>|
                    spec_import_acceptable(data@, es, own_vk_spec) implies false by {
                    assert(acceptable);
                    assert(vk@ == own_vk_spec);
                }
            }
            return Err(LogError::InvalidFormat);
        }
        let mut entries: Vec<LogEntry> = Vec::new();
        let mut pos: usize = 40;
        proof {
            assert(spec_encode_records(Seq::<LogEntryView>::empty()) =~= Seq::<u8>::empty());
            assert(data@.subrange(40, 40) =~= Seq::<u8>::empty());
            if acceptable {
                assert(ges.subrange(0, 0) =~= Seq::<LogEntryView>::empty());
            }
        }
        while pos < n
            invariant
                40 <= pos <= n,
                n == data@.len(),
                forall|i: int| 0 <= i < entries@.len() ==> spec_entry_wf((#[trigger] entries@[i])@),
                forall|i: int|
                    0 <= i < entries@.len() ==> spec_encode_event(
                        ((#[trigger] entries@[i])@).event,
                    ).len() + ((#[trigger] entries@[i])@).signature.len() <= u32::MAX - 56,
                data@.subrange(40, pos as int) == spec_encode_records(
                    Seq::new(entries@.len(), |i: int| entries@[i]@),
                ),
                acceptable ==> entries@.len() <= ges.len() && Seq::new(
                    entries@.len(),
                    |i: int| entries@[i]@,
                ) =~~= ges.subrange(0, entries@.len() as int),
            decreases n - pos,
        {
            let ghost prev = Seq::new(entries@.len(), |i: int| entries@[i]@);
            let ghost k = entries@.len() as int;
            proof {
                if acceptable {
                    assert(ges =~= ges.subrange(0, k) + ges.skip(k));
                    lemma_encode_records_add(ges.subrange(0, k), ges.skip(k));
                    assert(data@.skip(40) =~= data@.subrange(40, pos as int) + data@.skip(
                        pos as int,
                    ));
                    assert(spec_encode_records(prev) == spec_encode_records(ges.subrange(0, k)));
                    assert(data@.skip(pos as int) =~= spec_encode_records(ges.skip(k)));
                    if ges.skip(k).len() == 0 {
                        assert(spec_encode_records(ges.skip(k)) =~= Seq::<u8>::empty());
                        assert(false);
                    }
                    lemma_encode_records_first(ges.skip(k));
                    assert(ges.skip(k)[0] == ges[k]);
                    let rec0 = spec_encode_entry_record(ges[k]);
                    assert(ges[k].signature.len() == 64);
                    assert(spec_encode_event(ges[k].event).len() <= u32::MAX - 120);
                    assert(rec0.len() == 56 + spec_encode_event(ges[k].event).len()
                        + ges[k].signature.len());
                    assert(rec0.len() <= u32::MAX);
                    assert(data@.skip(pos as int) == spec_chunk(rec0) + spec_encode_records(
                        ges.skip(k).skip(1),
                    ));
                    assert(data@.subrange(pos as int, pos + 4) =~= spec_u32_to_be_bytes(
                        rec0.len() as u32,
                    ));
                    assert(spec_u32_from_be_bytes(data@.subrange(pos as int, pos + 4))
                        == rec0.len() as u32);
                    assert(data@.len() - pos >= 4 + rec0.len());
                }
            }
            let (record, newpos) = match read_chunk(data, pos) {
                None => {
                    proof {
                        assert forall|es: Seq<LogEntryView>|
                            spec_import_acceptable(data@, es, own_vk_spec) implies false by {
                            assert(acceptable);
                        }
                    }
                    return Err(LogError::InvalidFormat);
                },
                Some(t) => t,
            };
            proof {
                if acceptable {
                    assert(data@.skip(pos as int) =~= data@.subrange(pos as int, newpos as int)
                        + data@.skip(newpos as int));
                    lemma_chunk_prefix(
                        record@,
                        data@.skip(newpos as int),
                        spec_encode_entry_record(ges[k]),
                        spec_encode_records(ges.skip(k).skip(1)),
                    );
                    assert(record@ == spec_encode_entry_record(ges[k]));
                    assert(spec_entry_encoded(record@, ges[k]));
                }
            }
            let entry = match decode_entry_record(record.as_slice()) {
                Err(e) => {
                    proof {
                        assert forall|es: Seq<LogEntryView>|
                            spec_import_acceptable(data@, es, own_vk_spec) implies false by {
                            assert(acceptable);
                        }
                    }
                    return Err(e);
                },
                Ok(en) => en,
            };
            proof {
                assert(spec_encode_entry_record(entry@) == record@);
                assert(record@.len() == 56 + spec_encode_event(entry@.event).len()
                    + entry@.signature.len());
                assert(record@.len() <= u32::MAX);
            }
            entries.push(entry);
            proof {
                let cur = Seq::new(entries@.len(), |i: int| entries@[i]@);
                assert(cur.drop_last() =~= prev);
                assert(cur.last() == entry@);
                assert(spec_encode_records(cur) == spec_encode_records(prev) + spec_chunk(
                    spec_encode_entry_record(entry@),
                ));
                assert(data@.subrange(40, newpos as int) =~= data@.subrange(40, pos as int)
                    + data@.subrange(pos as int, newpos as int));
                assert(data@.subrange(40, newpos as int) == spec_encode_records(cur));
                if acceptable {
                    assert(entry@ == ges[k]);
                    assert(cur =~~= ges.subrange(0, k + 1));
                }
            }
            pos = newpos;
        }
        proof {
            if acceptable {
                let views = Seq::new(entries@.len(), |i: int| entries@[i]@);
                let k = entries@.len() as int;
                assert(ges =~= ges.subrange(0, k) + ges.skip(k));
                lemma_encode_records_add(ges.subrange(0, k), ges.skip(k));
                assert(data@.skip(40) =~= data@.subrange(40, pos as int) + data@.skip(pos as int));
                assert(spec_encode_records(views) == spec_encode_records(ges.subrange(0, k)));
                assert(data@.skip(pos as int) =~= spec_encode_records(ges.skip(k)));
                assert(data@.skip(pos as int).len() == 0);
                if ges.skip(k).len() > 0 {
                    lemma_encode_records_first(ges.skip(k));
                    assert(false);
                }
                assert(ges.subrange(0, k) =~= ges);
                assert(views =~~= ges);
            }
        }
        let first_seq = if entries.len() == 0 {
            1
        } else {
            entries[0].sequence_number
        };
        proof {
            if acceptable {
                let views = Seq::new(entries@.len(), |i: int| entries@[i]@);
                if entries@.len() > 0 {
                    assert(views[0] == ges[0]);
                }
                assert(first_seq == spec_import_first_seq(ges));
                assert(own_vk@ == own_vk_spec);
                assert(spec_chain_ok(views, first_seq, own_vk@));
            }
        }
        match verify_entries(&own_vk, &entries, first_seq) {
            Err(e) => {
                proof {
                    assert forall|es: Seq<LogEntryView>|
                        spec_import_acceptable(data@, es, own_vk_spec) implies false by {
                        assert(acceptable);
                    }
                }
                return Err(e);
            },
            Ok(()) => {},
        }
        let count = entries.len();
        if first_seq > u64::MAX - (count as u64) {
            proof {
                assert forall|es: Seq<LogEntryView>|
                    spec_import_acceptable(data@, es, own_vk_spec) implies false by {
                    assert(acceptable);
                    assert(spec_import_first_seq(ges) + ges.len() <= u64::MAX);
                }
            }
            return Err(LogError::SequenceViolation(first_seq));
        }
        let ghost parsed = Seq::new(entries@.len(), |i: int| entries@[i]@);
        self.log_entries = entries;
        self.first_sequence = first_seq;
        self.next_sequence = first_seq + (count as u64);
        proof {
            assert(self.entries_spec() =~= parsed);
            assert forall|i: int| 0 <= i < self.entries_spec().len() implies spec_encode_event(
                (#[trigger] self.entries_spec()[i]).event,
            ).len() <= u32::MAX - 120 by {
                assert(self.entries_spec()[i] == self.log_entries@[i]@);
                assert(self.entries_spec()[i].signature.len() == 64);
            }
            assert(data@.subrange(0, 8) =~= spec_log_magic());
            assert(data@.subrange(8, 40) =~= own_vk_spec) by {
                assert(vk@ == data@.subrange(8, 40));
                assert(vk@ == own_vk@);
            }
            assert(data@ =~= data@.subrange(0, 8) + data@.subrange(8, 40) + data@.subrange(
                40,
                n as int,
            ));
            assert(data@ == spec_export_bytes(parsed, own_vk_spec));
            assert(self.first_sequence_spec() == spec_import_first_seq(parsed));
        }
        Ok(())
    }
}

/// The audit chain law: in a log that satisfies the chain property, every
/// two adjacent entries have consecutive sequence numbers and every entry's
/// signature verifies under the log key.
pub proof fn lemma_audit_chain(entries: Seq<LogEntryView>, first_seq: u64, vk: Seq<u8>)
    requires
        spec_chain_ok(entries, first_seq, vk),
    ensures
        forall|i: int|
            0 <= i && i + 1 < entries.len() ==> (#[trigger] entries[i + 1]).sequence_number
                == entries[i].sequence_number + 1,
        forall|i: int|
            0 <= i < entries.len() ==> ed25519_verifies(
                vk,
                spec_entry_signing_bytes(#[trigger] entries[i]),
                entries[i].signature,
            ),
{
    assert forall|i: int| 0 <= i && i + 1 < entries.len() implies (
    #[trigger] entries[i + 1]).sequence_number == entries[i].sequence_number + 1 by {
        assert(entries[i].sequence_number == first_seq + i);
        assert(entries[i + 1].sequence_number == first_seq + i + 1);
    }
}

} // verus!
