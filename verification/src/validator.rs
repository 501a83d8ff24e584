//! Temporal coupling of the two channel witnesses.
//!
//! The validator tracks, per session, when the visual witness and the
//! acoustic binding witness were observed.  A coupled witness exists only
//! when both were seen for the same session, their local timestamps differ by
//! at most the coupling window, and the binding frame committed to the
//! expected payload hash.  Acoustic frames are accepted in strictly
//! increasing sequence order starting at 1; duplicates and out-of-order
//! frames are dropped, and each session's buffer is bounded.

use vstd::prelude::*;
use crate::crypto::constant_time_eq;

verus! {

/// The non-negotiable coupling window in milliseconds: witnesses further
/// apart than this never couple, which is what defeats replayed frames.
pub const COUPLING_WINDOW_MS: u64 = 100;

/// Smallest per-session observation buffer the validator may be built with.
pub const MIN_SESSION_BUFFER: usize = 8;

/// Which side-channel an observation arrived on.
#[derive(Debug, Clone, Copy, PartialEq, Eq, Structural)]
pub enum ChannelKind {
    Visual,
    Acoustic,
}

/// Why the validator could not (or cannot yet) produce a coupled witness.
#[derive(Debug, Clone, PartialEq, Eq, Structural)]
pub enum ValidationError {
    /// One or both witnesses have not been observed yet within the timeout.
    Timeout,
    /// The witnesses lie further apart than the coupling window.
    TemporalMismatch,
    /// The binding frame committed to a different payload hash.
    HashMismatch,
    /// Two visual witnesses claimed the same session.
    Collision,
    /// The session was never registered.
    UnknownSession,
}

/// What became of one acoustic observation.
#[derive(Debug, Clone, Copy, PartialEq, Eq, Structural)]
pub enum IngestOutcome {
    Accepted,
    /// The pair (session, sequence) was already accepted.
    DuplicateDropped,
    /// The sequence number is not the next expected one.
    OutOfOrderDropped,
    /// The session's bounded buffer is full.
    BufferFull,
}

/// Both witnesses observed for one session, within the coupling window.
#[derive(Debug, Clone, Copy)]
pub struct CoupledWitness {
    pub visual_at_ms: u64,
    pub acoustic_at_ms: u64,
    pub payload_hash: [u8; 32],
    /// The MAC the first accepted binding frame carried.
    pub mac: [u8; 32],
}

/// Whether two witness timestamps lie within the coupling window of one
/// another (the bound is inclusive: exactly 100 ms apart still couples).
pub open spec fn within_coupling_window(tv: u64, ta: u64) -> bool {
    if tv >= ta {
        tv - ta <= COUPLING_WINDOW_MS
    } else {
        ta - tv <= COUPLING_WINDOW_MS
    }
}

/// Per-session observation state.
pub struct SessionBuffer {
    session_id: [u8; 16],
    visual_at: Option<u64>,
    collision: bool,
    first_acoustic_at: Option<u64>,
    acoustic_hash: Option<[u8; 32]>,
    acoustic_mac: Option<[u8; 32]>,
    accepted_seqs: Vec<u32>,
}

/// Mathematical content of a `SessionBuffer`.
pub ghost struct SessionBufferView {
    pub session_id: Seq<u8>,
    pub visual_at: Option<u64>,
    pub collision: bool,
    pub first_acoustic_at: Option<u64>,
    pub acoustic_hash: Option<Seq<u8>>,
    pub acoustic_mac: Option<Seq<u8>>,
    pub accepted_seqs: Seq<u32>,
}

impl View for SessionBuffer {
    type V = SessionBufferView;

    closed spec fn view(&self) -> SessionBufferView {
        SessionBufferView {
            session_id: self.session_id@,
            visual_at: self.visual_at,
            collision: self.collision,
            first_acoustic_at: self.first_acoustic_at,
            acoustic_hash: match self.acoustic_hash {
                Some(h) => Some(h@),
                None => None,
            },
            acoustic_mac: match self.acoustic_mac {
                Some(m) => Some(m@),
                None => None,
            },
            accepted_seqs: self.accepted_seqs@,
        }
    }
}

/// The accepted acoustic sequence numbers of a session are exactly
/// 1, 2, ..., k in order, and the first-frame data is present exactly when
/// something was accepted.
pub open spec fn session_buffer_wf(b: SessionBufferView) -> bool {
    &&& b.session_id.len() == 16
    &&& forall|i: int| 0 <= i < b.accepted_seqs.len() ==> #[trigger] b.accepted_seqs[i] == i + 1
    &&& (b.first_acoustic_at is Some <==> b.accepted_seqs.len() > 0)
    &&& (b.acoustic_hash is Some <==> b.accepted_seqs.len() > 0)
    &&& (b.acoustic_mac is Some <==> b.accepted_seqs.len() > 0)
}

/// Observation tracker for any number of sessions, each with its own bounded
/// buffer.
pub struct ChannelValidator {
    capacity: usize,
    sessions: Vec<SessionBuffer>,
}

impl View for ChannelValidator {
    type V = Seq<SessionBufferView>;

    closed spec fn view(&self) -> Seq<SessionBufferView> {
        Seq::new(self.sessions@.len(), |i: int| self.sessions@[i]@)
    }
}

/// Index of the buffer tracking `sid`, if any.
pub open spec fn spec_find_session(sessions: Seq<SessionBufferView>, sid: Seq<u8>) -> Option<int> {
    if exists|i: int| 0 <= i < sessions.len() && sessions[i].session_id == sid {
        Some(choose|i: int| 0 <= i < sessions.len() && sessions[i].session_id == sid)
    } else {
        None
    }
}

/// With pairwise-distinct session ids, the found index is the only match.
proof fn lemma_find_session_unique(sessions: Seq<SessionBufferView>, sid: Seq<u8>, i: int)
    requires
        forall|p: int, q: int|
            0 <= p < q < sessions.len() ==> (#[trigger] sessions[p]).session_id != (
            #[trigger] sessions[q]).session_id,
        0 <= i < sessions.len(),
        sessions[i].session_id == sid,
    ensures
        spec_find_session(sessions, sid) == Some(i),
{
    assert(exists|k: int| 0 <= k < sessions.len() && sessions[k].session_id == sid);
    let j = choose|k: int| 0 <= k < sessions.len() && sessions[k].session_id == sid;
    if i < j {
        assert(sessions[i].session_id != sessions[j].session_id);
    } else if j < i {
        assert(sessions[j].session_id != sessions[i].session_id);
    }
}

impl ChannelValidator {
    /// Bound of each per-session buffer.
    pub closed spec fn capacity_spec(self) -> usize {
        self.capacity
    }

    /// Every buffer is well formed, within the bound, and tracks a distinct
    /// session.
    pub open spec fn wf(self) -> bool {
        &&& self.capacity_spec() >= MIN_SESSION_BUFFER
        &&& forall|i: int|
            0 <= i < self@.len() ==> session_buffer_wf(#[trigger] self@[i])
                && self@[i].accepted_seqs.len() <= self.capacity_spec()
        &&& forall|i: int, j: int|
            0 <= i < j < self@.len() ==> (#[trigger] self@[i]).session_id != (
            #[trigger] self@[j]).session_id
    }

    pub fn new(capacity: usize) -> (r: Self)
        requires
            capacity >= MIN_SESSION_BUFFER,
        ensures
            r.wf(),
            r@.len() == 0,
    {
        ChannelValidator { capacity, sessions: Vec::new() }
    }

    /// Index of the buffer for `sid`, scanning in order.
    fn find_index(&self, sid: &[u8; 16]) -> (r: Option<usize>)
        requires
            self.wf(),
        ensures
            match r {
                Some(i) => i < self@.len() && self@[i as int].session_id == sid@,
                None => forall|i: int| 0 <= i < self@.len() ==> self@[i].session_id != sid@,
            },
    {
        let n = self.sessions.len();
        let mut i: usize = 0;
        while i < n
            invariant
                self.wf(),
                n == self@.len(),
                0 <= i <= n,
                forall|j: int| 0 <= j < i ==> self@[j].session_id != sid@,
            decreases n - i,
        {
            if constant_time_eq(self.sessions[i].session_id.as_slice(), sid.as_slice()) {
                return Some(i);
            }
            i = i + 1;
        }
        None
    }

    /// Records a visual witness at `t_ms`.  The first witness for a session
    /// registers it; a second visual witness for the same session marks a
    /// collision, after which the session can never couple.
    pub fn observe_visual(&mut self, sid: &[u8; 16], t_ms: u64) -> (r: Result<(), ValidationError>)
        requires
            old(self).wf(),
        ensures
            final(self).wf(),
            r is Ok ==> spec_find_session(final(self)@, sid@) is Some
                && final(self)@[spec_find_session(final(self)@, sid@).unwrap()].visual_at == Some(
                t_ms,
            ),
            r is Err ==> r.unwrap_err() == ValidationError::Collision,
            ({
                match spec_find_session(old(self)@, sid@) {
                    None => r is Ok && final(self)@ == old(self)@.push(
                        (SessionBufferView {
                            session_id: sid@,
                            visual_at: Some(t_ms),
                            collision: false,
                            first_acoustic_at: None,
                            acoustic_hash: None,
                            acoustic_mac: None,
                            accepted_seqs: Seq::<u32>::empty(),
                        }),
                    ),
                    Some(i) => {
                        let b = old(self)@[i];
                        &&& (r is Err <==> b.visual_at is Some)
                        &&& (r is Err ==> final(self)@ == old(self)@.update(
                            i,
                            (SessionBufferView { collision: true, ..b }),
                        ))
                        &&& (r is Ok ==> final(self)@ == old(self)@.update(
                            i,
                            (SessionBufferView { visual_at: Some(t_ms), ..b }),
                        ))
                    },
                }
            }),
    {
        let ghost old_view = self@;
        let idx_opt = self.find_index(sid);
        match idx_opt {
            None => {
                let buf = SessionBuffer {
                    session_id: *sid,
                    visual_at: Some(t_ms),
                    collision: false,
                    first_acoustic_at: None,
                    acoustic_hash: None,
                    acoustic_mac: None,
                    accepted_seqs: Vec::new(),
                };
                self.sessions.push(buf);
                proof {
                    assert(self@ =~= old_view.push(buf@));
                    assert(session_buffer_wf(buf@));
                    let k = old_view.len() as int;
                    assert forall|p: int| 0 <= p < self@.len() implies session_buffer_wf(
                        #[trigger] self@[p],
                    ) && self@[p].accepted_seqs.len() <= self.capacity_spec() by {
                        if p < k {
                            assert(self@[p] == old_view[p]);
                        }
                    }
                    lemma_find_session_unique(self@, sid@, k);
                    assert(spec_find_session(old_view, sid@) is None);
                    assert(buf@.accepted_seqs =~= Seq::<u32>::empty());
                    assert(buf@ == (SessionBufferView {
                        session_id: sid@,
                        visual_at: Some(t_ms),
                        collision: false,
                        first_acoustic_at: None,
                        acoustic_hash: None,
                        acoustic_mac: None,
                        accepted_seqs: Seq::<u32>::empty(),
                    }));
                }
                Ok(())
            },
            Some(i) => {
                proof {
                    lemma_find_session_unique(old_view, sid@, i as int);
                }
                if self.sessions[i].visual_at.is_some() {
                    let mut buf = self.sessions.remove(i);
                    buf.collision = true;
                    self.sessions.insert(i, buf);
                    proof {
                        assert(self@ =~= old_view.update(i as int, buf@));
                        assert(session_buffer_wf(buf@));
                        assert(buf@ == (SessionBufferView { collision: true, ..old_view[i as int] }));
                    }
                    Err(ValidationError::Collision)
                } else {
                    let mut buf = self.sessions.remove(i);
                    buf.visual_at = Some(t_ms);
                    self.sessions.insert(i, buf);
                    proof {
                        assert(self@ =~= old_view.update(i as int, buf@));
                        assert(session_buffer_wf(buf@));
                        lemma_find_session_unique(self@, sid@, i as int);
                        assert(buf@ == (SessionBufferView {
                            visual_at: Some(t_ms),
                            ..old_view[i as int]
                        }));
                    }
                    Ok(())
                }
            },
        }
    }

    /// Records an acoustic binding witness.  A frame is accepted only when
    /// its sequence number is exactly the next expected one (starting at 1)
    /// and the bounded buffer has room; duplicates and out-of-order frames
    /// are dropped with the reason returned.
    pub fn observe_acoustic(&mut self, sid: &[u8; 16], seq: u32, t_ms: u64, payload_hash: &[u8; 32], mac: &[u8; 32]) -> (r: IngestOutcome)
        requires
            old(self).wf(),
        ensures
            final(self).wf(),
            ({
                let found = spec_find_session(old(self)@, sid@);
                match found {
                    None => {
                        &&& (r == IngestOutcome::Accepted <==> seq == 1)
                        &&& (seq == 1 ==> final(self)@ == old(self)@.push(
                            (SessionBufferView {
                                session_id: sid@,
                                visual_at: None,
                                collision: false,
                                first_acoustic_at: Some(t_ms),
                                acoustic_hash: Some(payload_hash@),
                                acoustic_mac: Some(mac@),
                                accepted_seqs: seq![seq],
                            }),
                        ))
                        &&& (seq != 1 ==> r == IngestOutcome::OutOfOrderDropped && final(self)@
                            == old(self)@)
                    },
                    Some(i) => {
                        let b = old(self)@[i];
                        &&& (r == IngestOutcome::Accepted <==> seq == b.accepted_seqs.len() + 1
                            && b.accepted_seqs.len() < old(self).capacity_spec())
                        &&& (r == IngestOutcome::Accepted ==> spec_find_session(final(self)@, sid@)
                            == Some(i) && final(self)@[i].accepted_seqs == b.accepted_seqs.push(
                            seq,
                        ))
                        &&& (r != IngestOutcome::Accepted ==> final(self)@ == old(self)@)
                        &&& (r == IngestOutcome::Accepted ==> final(self)@ == old(self)@.update(
                            i,
                            (SessionBufferView {
                                first_acoustic_at: if b.accepted_seqs.len() == 0 {
                                    Some(t_ms)
                                } else {
                                    b.first_acoustic_at
                                },
                                acoustic_hash: if b.accepted_seqs.len() == 0 {
                                    Some(payload_hash@)
                                } else {
                                    b.acoustic_hash
                                },
                                acoustic_mac: if b.accepted_seqs.len() == 0 {
                                    Some(mac@)
                                } else {
                                    b.acoustic_mac
                                },
                                accepted_seqs: b.accepted_seqs.push(seq),
                                ..b
                            }),
                        ))
                    },
                }
            }),
    {
        let ghost old_view = self@;
        let idx_opt = self.find_index(sid);
        match idx_opt {
            None => {
                proof {
                    assert(spec_find_session(old_view, sid@) is None);
                }
                if seq != 1 {
                    return IngestOutcome::OutOfOrderDropped;
                }
                let mut seqs: Vec<u32> = Vec::new();
                seqs.push(1);
                let buf = SessionBuffer {
                    session_id: *sid,
                    visual_at: None,
                    collision: false,
                    first_acoustic_at: Some(t_ms),
                    acoustic_hash: Some(*payload_hash),
                    acoustic_mac: Some(*mac),
                    accepted_seqs: seqs,
                };
                self.sessions.push(buf);
                proof {
                    assert(self@ =~= old_view.push(buf@));
                    assert(session_buffer_wf(buf@));
                    let k = old_view.len() as int;
                    assert forall|p: int| 0 <= p < self@.len() implies session_buffer_wf(
                        #[trigger] self@[p],
                    ) && self@[p].accepted_seqs.len() <= self.capacity_spec() by {
                        if p < k {
                            assert(self@[p] == old_view[p]);
                        }
                    }
                    assert(buf@.accepted_seqs =~= seq![seq]);
                    assert(buf@ == (SessionBufferView {
                        session_id: sid@,
                        visual_at: None,
                        collision: false,
                        first_acoustic_at: Some(t_ms),
                        acoustic_hash: Some(payload_hash@),
                        acoustic_mac: Some(mac@),
                        accepted_seqs: seq![seq],
                    }));
                }
                IngestOutcome::Accepted
            },
            Some(i) => {
                proof {
                    lemma_find_session_unique(old_view, sid@, i as int);
                }
                let next = self.sessions[i].accepted_seqs.len();
                if next >= self.capacity {
                    return IngestOutcome::BufferFull;
                }
                if (seq as usize) <= next {
                    return IngestOutcome::DuplicateDropped;
                }
                if (seq as usize) != next + 1 {
                    return IngestOutcome::OutOfOrderDropped;
                }
                let ghost b = old_view[i as int];
                let mut buf = self.sessions.remove(i);
                buf.accepted_seqs.push(seq);
                if buf.first_acoustic_at.is_none() {
                    buf.first_acoustic_at = Some(t_ms);
                    buf.acoustic_hash = Some(*payload_hash);
                    buf.acoustic_mac = Some(*mac);
                }
                proof {
                    assert(buf@.accepted_seqs =~= old_view[i as int].accepted_seqs.push(seq));
                    assert(session_buffer_wf(buf@));
                    assert(b.first_acoustic_at is Some <==> b.accepted_seqs.len() > 0);
                    assert(buf@ == (SessionBufferView {
                        first_acoustic_at: if b.accepted_seqs.len() == 0 {
                            Some(t_ms)
                        } else {
                            b.first_acoustic_at
                        },
                        acoustic_hash: if b.accepted_seqs.len() == 0 {
                            Some(payload_hash@)
                        } else {
                            b.acoustic_hash
                        },
                        acoustic_mac: if b.accepted_seqs.len() == 0 {
                            Some(mac@)
                        } else {
                            b.acoustic_mac
                        },
                        accepted_seqs: b.accepted_seqs.push(seq),
                        ..b
                    }));
                }
                self.sessions.insert(i, buf);
                proof {
                    assert(self@ =~= old_view.update(i as int, buf@));
                    lemma_find_session_unique(self@, sid@, i as int);
                }
                IngestOutcome::Accepted
            },
        }
    }

    /// Produces the coupled witness for a session: both witnesses observed,
    /// no collision, timestamps within the coupling window, and the binding
    /// hash equal to `expected_hash`.  `Timeout` reports that one witness is
    /// still missing (the caller stops waiting once its deadline passes).
    pub fn await_coupled_witness(&self, sid: &[u8; 16], expected_hash: &[u8; 32]) -> (r: Result<
        CoupledWitness,
        ValidationError,
    >)
        requires
            self.wf(),
        ensures
            ({
                let found = spec_find_session(self@, sid@);
                match r {
                    Ok(w) => {
                        &&& found is Some
                        &&& ({
                            let b = self@[found.unwrap()];
                            &&& !b.collision
                            &&& b.visual_at == Some(w.visual_at_ms)
                            &&& b.first_acoustic_at == Some(w.acoustic_at_ms)
                            &&& b.acoustic_hash == Some(w.payload_hash@)
                            &&& b.acoustic_mac == Some(w.mac@)
                            &&& w.payload_hash@ == expected_hash@
                            &&& within_coupling_window(w.visual_at_ms, w.acoustic_at_ms)
                        })
                    },
                    Err(e) => {
                        ||| (e == ValidationError::UnknownSession && found is None)
                        ||| (found is Some && {
                            let b = self@[found.unwrap()];
                            ||| (e == ValidationError::Collision && b.collision)
                            ||| (e == ValidationError::Timeout && !b.collision && (b.visual_at
                                is None || b.first_acoustic_at is None))
                            ||| (e == ValidationError::TemporalMismatch && !b.collision
                                && b.visual_at is Some && b.first_acoustic_at is Some
                                && !within_coupling_window(
                                b.visual_at.unwrap(),
                                b.first_acoustic_at.unwrap(),
                            ))
                            ||| (e == ValidationError::HashMismatch && !b.collision && b.visual_at
                                is Some && b.first_acoustic_at is Some && within_coupling_window(
                                b.visual_at.unwrap(),
                                b.first_acoustic_at.unwrap(),
                            ) && b.acoustic_hash != Some(expected_hash@))
                        })
                    },
                }
            }),
    {
        let idx_opt = self.find_index(sid);
        let i = match idx_opt {
            None => {
                return Err(ValidationError::UnknownSession);
            },
            Some(i) => i,
        };
        proof {
            let found = spec_find_session(self@, sid@);
            let j = found.unwrap();
            assert(self@[j].session_id == sid@);
            if i as int != j {
                assert(false);
            }
        }
        if self.sessions[i].collision {
            return Err(ValidationError::Collision);
        }
        let tv = match self.sessions[i].visual_at {
            None => {
                return Err(ValidationError::Timeout);
            },
            Some(t) => t,
        };
        let ta = match self.sessions[i].first_acoustic_at {
            None => {
                return Err(ValidationError::Timeout);
            },
            Some(t) => t,
        };
        let in_window = if tv >= ta {
            tv - ta <= COUPLING_WINDOW_MS
        } else {
            ta - tv <= COUPLING_WINDOW_MS
        };
        if !in_window {
            return Err(ValidationError::TemporalMismatch);
        }
        let hash = match &self.sessions[i].acoustic_hash {
            None => {
                proof {
                    assert(false);
                }
                return Err(ValidationError::HashMismatch);
            },
            Some(h) => *h,
        };
        let mac = match &self.sessions[i].acoustic_mac {
            None => {
                proof {
                    assert(false);
                }
                return Err(ValidationError::HashMismatch);
            },
            Some(m) => *m,
        };
        if !constant_time_eq(hash.as_slice(), expected_hash.as_slice()) {
            return Err(ValidationError::HashMismatch);
        }
        Ok(CoupledWitness { visual_at_ms: tv, acoustic_at_ms: ta, payload_hash: hash, mac })
    }

    /// Drops a session's buffer (on success, timeout or cancellation).
    pub fn clear_session(&mut self, sid: &[u8; 16])
        requires
            old(self).wf(),
        ensures
            final(self).wf(),
            spec_find_session(final(self)@, sid@) is None,
            ({
                match spec_find_session(old(self)@, sid@) {
                    None => final(self)@ == old(self)@,
                    Some(i) => final(self)@ == old(self)@.remove(i),
                }
            }),
    {
        let ghost old_view = self@;
        let idx_opt = self.find_index(sid);
        match idx_opt {
            None => {
                proof {
                    assert(spec_find_session(old_view, sid@) is None);
                    assert(spec_find_session(self@, sid@) is None);
                }
            },
            Some(i) => {
                self.sessions.remove(i);
                proof {
                    lemma_find_session_unique(old_view, sid@, i as int);
                    assert(self@ =~= old_view.remove(i as int));
                    assert forall|p: int| 0 <= p < self@.len() implies (
                    #[trigger] self@[p]).session_id != sid@ by {
                        if p < i as int {
                            assert(self@[p] == old_view[p]);
                            if old_view[p].session_id == sid@ {
                                assert(old_view[p].session_id != old_view[i as int].session_id);
                            }
                        } else {
                            assert(self@[p] == old_view[p + 1]);
                            if old_view[p + 1].session_id == sid@ {
                                assert(old_view[i as int].session_id != old_view[p
                                    + 1].session_id);
                            }
                        }
                    }
                    assert(spec_find_session(self@, sid@) is None);
                    assert forall|p: int| 0 <= p < self@.len() implies session_buffer_wf(
                        #[trigger] self@[p],
                    ) && self@[p].accepted_seqs.len() <= self.capacity_spec() by {
                        if p < i as int {
                            assert(self@[p] == old_view[p]);
                        } else {
                            assert(self@[p] == old_view[p + 1]);
                        }
                    }
                    assert forall|p: int, q: int| 0 <= p < q < self@.len() implies (
                    #[trigger] self@[p]).session_id != (#[trigger] self@[q]).session_id by {
                        let p0 = if p < i as int { p } else { p + 1 };
                        let q0 = if q < i as int { q } else { q + 1 };
                        assert(self@[p] == old_view[p0]);
                        assert(self@[q] == old_view[q0]);
                    }
                }
            },
        }
    }
}

/// A coupled witness never exists outside the coupling window: whatever the
/// validator observed, a produced witness satisfies
/// `|t_visual - t_acoustic| <= 100 ms`.
pub proof fn lemma_coupling_bound(w: CoupledWitness)
    requires
        within_coupling_window(w.visual_at_ms, w.acoustic_at_ms),
    ensures
        w.visual_at_ms >= w.acoustic_at_ms ==> w.visual_at_ms - w.acoustic_at_ms
            <= COUPLING_WINDOW_MS,
        w.acoustic_at_ms >= w.visual_at_ms ==> w.acoustic_at_ms - w.visual_at_ms
            <= COUPLING_WINDOW_MS,
{
}

/// Sequence monotonicity: the acoustic frames a well-formed session buffer
/// has accepted satisfy `seq[i + 1] == seq[i] + 1` and start at 1.
pub proof fn lemma_sequence_monotonicity(b: SessionBufferView)
    requires
        session_buffer_wf(b),
    ensures
        b.accepted_seqs.len() > 0 ==> b.accepted_seqs[0] == 1,
        forall|i: int|
            0 <= i && i + 1 < b.accepted_seqs.len() ==> #[trigger] b.accepted_seqs[i + 1]
                == b.accepted_seqs[i] + 1,
{
    assert forall|i: int| 0 <= i && i + 1 < b.accepted_seqs.len() implies #[trigger] b.accepted_seqs[i
        + 1] == b.accepted_seqs[i] + 1 by {
        assert(b.accepted_seqs[i] == i + 1);
        assert(b.accepted_seqs[i + 1] == i + 2);
    }
}

} // verus!
