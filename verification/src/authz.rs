//! Operator authorization: PIN verification with rate limiting and backoff,
//! scope grants with a time to live, and the multi-factor gate that must hold
//! before a mission is decrypted.
//!
//! PINs are stored salted and hashed and compared in constant time.  An
//! operator gets at most five PIN attempts per sixty-second window; a refused
//! attempt is never evaluated, and each consecutive failure doubles an
//! exponential backoff.

use vstd::prelude::*;
use crate::crypto::{constant_time_eq, generate_device_fingerprint, generate_nonce, sha256_of};
use crate::mission::AuthorizationScope;

verus! {

/// PIN attempts allowed per rate-limit window.
pub const PIN_ATTEMPTS_PER_WINDOW: u32 = 5;

/// Length of the PIN rate-limit window in milliseconds.
pub const PIN_WINDOW_MS: u64 = 60000;

/// Backoff after the first consecutive failure, in milliseconds.
pub const BASE_BACKOFF_MS: u64 = 1000;

/// How long a PIN verification stays fresh, in milliseconds.
pub const PIN_FRESHNESS_MS: u64 = 120000;

/// How long coupled channel witnesses stay fresh, in milliseconds.
pub const WITNESS_FRESHNESS_MS: u64 = 300000;

/// Authorization failure.
#[derive(Debug, Clone, PartialEq, Eq, Structural)]
pub enum SecurityError {
    /// No such operator is registered.
    UnknownOperator,
    /// Too many attempts in the window, or inside a backoff period; the PIN
    /// itself was not evaluated.
    RateLimited,
    /// The PIN did not match.
    PinRejected,
    /// A requested scope has no active grant.
    ScopeRejected,
    /// The channel-witness clauses of the authorization predicate do not hold.
    MFANotVerified,
}

/// Multi-factor state carried per transfer session.
#[derive(Debug, Clone, Copy, PartialEq, Eq, Structural)]
pub struct MFAAuthentication {
    pub pin_verified: bool,
    pub biometric_verified: bool,
    pub laser_channel_verified: bool,
    pub ultrasound_channel_verified: bool,
    pub cross_channel_binding_verified: bool,
    /// Milliseconds since the epoch of the last witness verification.
    pub last_verification: u64,
}

/// An active scope grant for one operator.
#[derive(Debug)]
pub struct PermissionGrant {
    pub operator_id: Vec<u8>,
    pub scope: AuthorizationScope,
    /// Milliseconds since the epoch after which the grant is void.
    pub expires_at_ms: u64,
}

/// Mathematical content of a `PermissionGrant`.
pub ghost struct PermissionGrantView {
    pub operator_id: Seq<u8>,
    pub scope: AuthorizationScope,
    pub expires_at_ms: u64,
}

impl View for PermissionGrant {
    type V = PermissionGrantView;

    open spec fn view(&self) -> PermissionGrantView {
        PermissionGrantView {
            operator_id: self.operator_id@,
            scope: self.scope,
            expires_at_ms: self.expires_at_ms,
        }
    }
}

/// Per-operator PIN state.
pub struct OperatorRecord {
    operator_id: Vec<u8>,
    pin_salt: [u8; 16],
    pin_hash: [u8; 32],
    window_start_ms: u64,
    window_count: u32,
    consecutive_failures: u32,
    backoff_until_ms: u64,
    last_verified_ms: Option<u64>,
}

/// Mathematical content of an `OperatorRecord`.
pub ghost struct OperatorRecordView {
    pub operator_id: Seq<u8>,
    pub pin_salt: Seq<u8>,
    pub pin_hash: Seq<u8>,
    pub window_start_ms: u64,
    pub window_count: u32,
    pub consecutive_failures: u32,
    pub backoff_until_ms: u64,
    pub last_verified_ms: Option<u64>,
}

impl View for OperatorRecord {
    type V = OperatorRecordView;

    closed spec fn view(&self) -> OperatorRecordView {
        OperatorRecordView {
            operator_id: self.operator_id@,
            pin_salt: self.pin_salt@,
            pin_hash: self.pin_hash@,
            window_start_ms: self.window_start_ms,
            window_count: self.window_count,
            consecutive_failures: self.consecutive_failures,
            backoff_until_ms: self.backoff_until_ms,
            last_verified_ms: self.last_verified_ms,
        }
    }
}

/// `a + b`, saturating at the top of `u64`.
pub open spec fn spec_sat_add64(a: u64, b: u64) -> u64 {
    if a + b > u64::MAX {
        u64::MAX
    } else {
        (a + b) as u64
    }
}

/// Backoff after `n` consecutive failures: doubling from the base, with the
/// exponent capped so the shift stays meaningful.
pub open spec fn spec_backoff_ms(n: u32) -> u64 {
    if n == 0 {
        0
    } else if n > 20 {
        BASE_BACKOFF_MS << 20
    } else {
        BASE_BACKOFF_MS << ((n - 1) as u64)
    }
}

/// Whether an attempt at `now_ms` falls outside the record's current window.
pub open spec fn spec_window_rolled(rec: OperatorRecordView, now_ms: u64) -> bool {
    now_ms >= spec_sat_add64(rec.window_start_ms, PIN_WINDOW_MS)
}

/// Whether an attempt at `now_ms` may be evaluated at all: not inside a
/// backoff period, and not past the per-window attempt budget.
pub open spec fn spec_attempt_allowed(rec: OperatorRecordView, now_ms: u64) -> bool {
    &&& now_ms >= rec.backoff_until_ms
    &&& (spec_window_rolled(rec, now_ms) || rec.window_count < PIN_ATTEMPTS_PER_WINDOW)
}

/// Whether `pin` is the operator's PIN: its salted hash matches the stored
/// one.
pub open spec fn spec_pin_matches(rec: OperatorRecordView, pin: Seq<u8>) -> bool {
    sha256_of(rec.pin_salt + pin) == rec.pin_hash
}

/// Whether a PIN verification at `t` is still fresh at `now_ms`.
pub open spec fn spec_pin_fresh(rec: OperatorRecordView, now_ms: u64) -> bool {
    match rec.last_verified_ms {
        Some(t) => t <= now_ms && now_ms - t <= PIN_FRESHNESS_MS,
        None => false,
    }
}

/// Whether the channel-witness clauses hold at `now_ms`: both
/// witnesses verified, their coupling verified, and the verification not
/// older than the witness shelf life.
pub open spec fn spec_witnesses_fresh(mfa: MFAAuthentication, now_ms: u64) -> bool {
    &&& mfa.laser_channel_verified
    &&& mfa.ultrasound_channel_verified
    &&& mfa.cross_channel_binding_verified
    &&& mfa.last_verification <= now_ms
    &&& now_ms - mfa.last_verification <= WITNESS_FRESHNESS_MS
}

/// With pairwise-distinct operator ids, a matching index is the only one.
proof fn lemma_find_operator_unique(ops: Seq<OperatorRecordView>, oid: Seq<u8>, i: int)
    requires
        forall|p: int, q: int|
            0 <= p < q < ops.len() ==> (#[trigger] ops[p]).operator_id != (
            #[trigger] ops[q]).operator_id,
        0 <= i < ops.len(),
        ops[i].operator_id == oid,
    ensures
        spec_find_operator(ops, oid) == Some(i),
{
    assert(exists|k: int| 0 <= k < ops.len() && ops[k].operator_id == oid);
    let j = choose|k: int| 0 <= k < ops.len() && ops[k].operator_id == oid;
    if i < j {
        assert(ops[i].operator_id != ops[j].operator_id);
    } else if j < i {
        assert(ops[j].operator_id != ops[i].operator_id);
    }
}

/// Index of the record for `oid`, if any.
pub open spec fn spec_find_operator(ops: Seq<OperatorRecordView>, oid: Seq<u8>) -> Option<int> {
    if exists|i: int| 0 <= i < ops.len() && ops[i].operator_id == oid {
        Some(choose|i: int| 0 <= i < ops.len() && ops[i].operator_id == oid)
    } else {
        None
    }
}

/// Operator registry, PIN gate and scope grants.
pub struct SecurityManager {
    operators: Vec<OperatorRecord>,
    grants: Vec<PermissionGrant>,
}

impl View for SecurityManager {
    type V = (Seq<OperatorRecordView>, Seq<PermissionGrantView>);

    closed spec fn view(&self) -> (Seq<OperatorRecordView>, Seq<PermissionGrantView>) {
        (
            Seq::new(self.operators@.len(), |i: int| self.operators@[i]@),
            Seq::new(self.grants@.len(), |i: int| self.grants@[i]@),
        )
    }
}

/// Whether `ops` holds a grant of `scope` to `oid` that is not expired.
pub open spec fn spec_has_grant(grants: Seq<PermissionGrantView>, oid: Seq<u8>, scope: AuthorizationScope, now_ms: u64) -> bool {
    exists|i: int|
        0 <= i < grants.len() && (#[trigger] grants[i]).operator_id == oid && grants[i].scope
            == scope && grants[i].expires_at_ms > now_ms
}

impl SecurityManager {
    /// Registered operators, for contracts only.
    pub open spec fn operators_spec(self) -> Seq<OperatorRecordView> {
        self@.0
    }

    /// Active and expired grants, for contracts only.
    pub open spec fn grants_spec(self) -> Seq<PermissionGrantView> {
        self@.1
    }

    /// Operator ids are pairwise distinct.
    pub open spec fn wf(self) -> bool {
        forall|p: int, q: int|
            0 <= p < q < self.operators_spec().len() ==> (
            #[trigger] self.operators_spec()[p]).operator_id != (
            #[trigger] self.operators_spec()[q]).operator_id
    }

    pub fn new() -> (r: Self)
        ensures
            r.wf(),
            r.operators_spec().len() == 0,
            r.grants_spec().len() == 0,
    {
        SecurityManager { operators: Vec::new(), grants: Vec::new() }
    }

    /// Index of the record for `oid`, scanning in order.
    fn find_operator(&self, oid: &[u8]) -> (r: Option<usize>)
        requires
            self.wf(),
        ensures
            match r {
                Some(i) => i < self.operators_spec().len()
                    && self.operators_spec()[i as int].operator_id == oid@,
                None => forall|i: int|
                    0 <= i < self.operators_spec().len()
                        ==> self.operators_spec()[i].operator_id != oid@,
            },
    {
        let n = self.operators.len();
        let mut i: usize = 0;
        while i < n
            invariant
                self.wf(),
                n == self.operators_spec().len(),
                0 <= i <= n,
                forall|j: int| 0 <= j < i ==> self.operators_spec()[j].operator_id != oid@,
            decreases n - i,
        {
            if constant_time_eq(self.operators[i].operator_id.as_slice(), oid) {
                return Some(i);
            }
            i = i + 1;
        }
        None
    }

    /// Registers (or re-registers) an operator with a fresh random salt; the
    /// PIN itself is never stored, only its salted hash.
    pub fn register_operator(&mut self, operator_id: &[u8], pin: &[u8])
        requires
            old(self).wf(),
        ensures
            final(self).wf(),
            final(self).grants_spec() == old(self).grants_spec(),
            ({
                let found = spec_find_operator(final(self).operators_spec(), operator_id@);
                &&& found is Some
                &&& ({
                    let rec = final(self).operators_spec()[found.unwrap()];
                    &&& rec.pin_hash == sha256_of(rec.pin_salt + pin@)
                    &&& rec.window_count == 0
                    &&& rec.consecutive_failures == 0
                    &&& rec.backoff_until_ms == 0
                    &&& rec.last_verified_ms is None
                })
            }),
    {
        let salt = generate_nonce();
        let mut salted: Vec<u8> = Vec::new();
        crate::wire::push_bytes(&mut salted, salt.as_slice());
        crate::wire::push_bytes(&mut salted, pin);
        let hash = generate_device_fingerprint(salted.as_slice());
        let mut oid: Vec<u8> = Vec::new();
        crate::wire::push_bytes(&mut oid, operator_id);
        let rec = OperatorRecord {
            operator_id: oid,
            pin_salt: salt,
            pin_hash: hash,
            window_start_ms: 0,
            window_count: 0,
            consecutive_failures: 0,
            backoff_until_ms: 0,
            last_verified_ms: None,
        };
        let ghost old_ops = self.operators_spec();
        let idx_opt = self.find_operator(operator_id);
        match idx_opt {
            None => {
                self.operators.push(rec);
                proof {
                    assert(self.operators_spec() =~= old_ops.push(rec@));
                    lemma_find_operator_unique(
                        self.operators_spec(),
                        operator_id@,
                        old_ops.len() as int,
                    );
                }
            },
            Some(i) => {
                self.operators.remove(i);
                self.operators.insert(i, rec);
                proof {
                    assert(self.operators_spec() =~= old_ops.update(i as int, rec@));
                    lemma_find_operator_unique(self.operators_spec(), operator_id@, i as int);
                }
            },
        }
    }

    /// Evaluates one PIN attempt.  A rate-limited attempt is refused before
    /// the PIN is looked at; an evaluated failure counts toward the window
    /// and doubles the backoff; an evaluated success records the time.
    pub fn validate_pin(&mut self, operator_id: &[u8], pin: &[u8], now_ms: u64) -> (r: Result<
        (),
        SecurityError,
    >)
        requires
            old(self).wf(),
        ensures
            final(self).wf(),
            final(self).grants_spec() == old(self).grants_spec(),
            ({
                let found = spec_find_operator(old(self).operators_spec(), operator_id@);
                match found {
                    None => r == Err::<(), SecurityError>(SecurityError::UnknownOperator)
                        && final(self).operators_spec() == old(self).operators_spec(),
                    Some(i) => {
                        let rec = old(self).operators_spec()[i];
                        let allowed = spec_attempt_allowed(rec, now_ms);
                        let matches = spec_pin_matches(rec, pin@);
                        let fin = spec_find_operator(final(self).operators_spec(), operator_id@);
                        &&& fin == Some(i)
                        &&& (!allowed ==> r == Err::<(), SecurityError>(SecurityError::RateLimited)
                            && final(self).operators_spec() == old(self).operators_spec())
                        &&& (allowed && matches ==> r == Ok::<(), SecurityError>(())
                            && final(self).operators_spec()[i].last_verified_ms == Some(now_ms)
                            && final(self).operators_spec()[i].consecutive_failures == 0)
                        &&& (allowed && !matches ==> r == Err::<(), SecurityError>(
                            SecurityError::PinRejected,
                        ) && ({
                            let fr = final(self).operators_spec()[i];
                            &&& fr.consecutive_failures == spec_sat_add32(
                                rec.consecutive_failures,
                                1,
                            )
                            &&& fr.backoff_until_ms == spec_sat_add64(
                                now_ms,
                                spec_backoff_ms(fr.consecutive_failures),
                            )
                            &&& fr.last_verified_ms == rec.last_verified_ms
                        }))
                    },
                }
            }),
    {
        let ghost old_ops = self.operators_spec();
        let idx_opt = self.find_operator(operator_id);
        let i = match idx_opt {
            None => {
                return Err(SecurityError::UnknownOperator);
            },
            Some(i) => i,
        };
        proof {
            lemma_find_operator_unique(old_ops, operator_id@, i as int);
        }
        let rec = &self.operators[i];
        if now_ms < rec.backoff_until_ms {
            return Err(SecurityError::RateLimited);
        }
        let rolled = {
            let bound = if rec.window_start_ms > u64::MAX - PIN_WINDOW_MS {
                u64::MAX
            } else {
                rec.window_start_ms + PIN_WINDOW_MS
            };
            now_ms >= bound
        };
        if !rolled && rec.window_count >= PIN_ATTEMPTS_PER_WINDOW {
            return Err(SecurityError::RateLimited);
        }
        let mut upd = self.operators.remove(i);
        if rolled {
            upd.window_start_ms = now_ms;
            upd.window_count = 1;
        } else {
            upd.window_count = upd.window_count + 1;
        }
        let mut salted: Vec<u8> = Vec::new();
        crate::wire::push_bytes(&mut salted, upd.pin_salt.as_slice());
        crate::wire::push_bytes(&mut salted, pin);
        let hash = generate_device_fingerprint(salted.as_slice());
        let ok = constant_time_eq(hash.as_slice(), upd.pin_hash.as_slice());
        if ok {
            upd.last_verified_ms = Some(now_ms);
            upd.consecutive_failures = 0;
            self.operators.insert(i, upd);
            proof {
                assert(self.operators_spec() =~= old_ops.update(i as int, upd@));
                lemma_find_operator_unique(self.operators_spec(), operator_id@, i as int);
            }
            Ok(())
        } else {
            upd.consecutive_failures = if upd.consecutive_failures == u32::MAX {
                u32::MAX
            } else {
                upd.consecutive_failures + 1
            };
            let backoff = backoff_ms_exec(upd.consecutive_failures);
            upd.backoff_until_ms = if now_ms > u64::MAX - backoff {
                u64::MAX
            } else {
                now_ms + backoff
            };
            self.operators.insert(i, upd);
            proof {
                assert(self.operators_spec() =~= old_ops.update(i as int, upd@));
                lemma_find_operator_unique(self.operators_spec(), operator_id@, i as int);
            }
            Err(SecurityError::PinRejected)
        }
    }

    /// Whether the operator's last PIN verification is still fresh.
    pub fn check_pin_fresh(&self, operator_id: &[u8], now_ms: u64) -> (r: bool)
        requires
            self.wf(),
        ensures
            r == ({
                let found = spec_find_operator(self.operators_spec(), operator_id@);
                match found {
                    None => false,
                    Some(i) => spec_pin_fresh(self.operators_spec()[i], now_ms),
                }
            }),
    {
        let ghost ops = self.operators_spec();
        let idx_opt = self.find_operator(operator_id);
        match idx_opt {
            None => false,
            Some(i) => {
                proof {
                    lemma_find_operator_unique(ops, operator_id@, i as int);
                }
                match self.operators[i].last_verified_ms {
                    None => false,
                    Some(t) => t <= now_ms && now_ms - t <= PIN_FRESHNESS_MS,
                }
            },
        }
    }

    /// Grants `scope` to the operator until `expires_at_ms`.
    pub fn grant_permission(&mut self, operator_id: &[u8], scope: AuthorizationScope, expires_at_ms: u64)
        requires
            old(self).wf(),
        ensures
            final(self).wf(),
            final(self).operators_spec() == old(self).operators_spec(),
            final(self).grants_spec().len() == old(self).grants_spec().len() + 1,
            final(self).grants_spec().last() == (PermissionGrantView {
                operator_id: operator_id@,
                scope,
                expires_at_ms,
            }),
            forall|i: int|
                0 <= i < old(self).grants_spec().len() ==> final(self).grants_spec()[i] == old(
                    self,
                ).grants_spec()[i],
    {
        let mut oid: Vec<u8> = Vec::new();
        crate::wire::push_bytes(&mut oid, operator_id);
        let g = PermissionGrant { operator_id: oid, scope, expires_at_ms };
        let ghost old_grants = self.grants_spec();
        self.grants.push(g);
        proof {
            assert(self.grants_spec() =~= old_grants.push(g@));
        }
    }

    /// Whether the operator holds an unexpired grant of `scope`.
    pub fn check_permission(&self, operator_id: &[u8], scope: AuthorizationScope, now_ms: u64) -> (r: bool)
        requires
            self.wf(),
        ensures
            r == spec_has_grant(self.grants_spec(), operator_id@, scope, now_ms),
    {
        let n = self.grants.len();
        let mut i: usize = 0;
        while i < n
            invariant
                self.wf(),
                n == self.grants_spec().len(),
                0 <= i <= n,
                forall|j: int|
                    0 <= j < i ==> !((#[trigger] self.grants_spec()[j]).operator_id
                        == operator_id@ && self.grants_spec()[j].scope == scope
                        && self.grants_spec()[j].expires_at_ms > now_ms),
            decreases n - i,
        {
            let g = &self.grants[i];
            if g.expires_at_ms > now_ms && g.scope == scope && constant_time_eq(
                g.operator_id.as_slice(),
                operator_id,
            ) {
                proof {
                    let k = i as int;
                    assert(0 <= k < self.grants_spec().len() && self.grants_spec()[k].operator_id
                        == operator_id@ && self.grants_spec()[k].scope == scope
                        && self.grants_spec()[k].expires_at_ms > now_ms);
                }
                return true;
            }
            i = i + 1;
        }
        false
    }

    /// Drops every grant that has expired by `now_ms`.
    #[verifier::loop_isolation(false)]
    pub fn prune_expired_grants(&mut self, now_ms: u64)
        requires
            old(self).wf(),
        ensures
            final(self).wf(),
            final(self).operators_spec() == old(self).operators_spec(),
            final(self).grants_spec() == old(self).grants_spec().filter(
                |g: PermissionGrantView| g.expires_at_ms > now_ms,
            ),
    {
        let ghost old_grants = self.grants_spec();
        let ghost pred = |g: PermissionGrantView| g.expires_at_ms > now_ms;
        let n = self.grants.len();
        let mut kept: Vec<PermissionGrant> = Vec::new();
        let mut i: usize = 0;
        proof {
            assert(old_grants.subrange(0, 0).filter(pred) =~= Seq::<
                PermissionGrantView,
            >::empty());
            assert(Seq::new(kept@.len(), |k: int| kept@[k]@) =~= Seq::<
                PermissionGrantView,
            >::empty());
        }
        while i < n
            invariant
                self.operators_spec() == old(self).operators_spec(),
                self.grants_spec() == old_grants,
                n == self.grants@.len(),
                n == old_grants.len(),
                forall|k: int| 0 <= k < n ==> old_grants[k] == (#[trigger] self.grants@[k])@,
                0 <= i <= n,
                Seq::new(kept@.len(), |k: int| kept@[k]@) == old_grants.subrange(
                    0,
                    i as int,
                ).filter(pred),
            decreases n - i,
        {
            let ghost prefix = old_grants.subrange(0, i as int);
            let ghost kept_view = Seq::new(kept@.len(), |k: int| kept@[k]@);
            let ghost single = seq![old_grants[i as int]];
            let g = &self.grants[i];
            let keep = g.expires_at_ms > now_ms;
            if keep {
                let copied = PermissionGrant {
                    operator_id: copy_id(&g.operator_id),
                    scope: g.scope,
                    expires_at_ms: g.expires_at_ms,
                };
                kept.push(copied);
                proof {
                    reveal_with_fuel(Seq::filter, 3);
                    assert(old_grants.subrange(0, i + 1) =~= prefix + single);
                    Seq::filter_distributes_over_add(prefix, single, pred);
                    assert(single.drop_last() =~= Seq::<PermissionGrantView>::empty());
                    assert(pred(single.last()));
                    assert(single.filter(pred) =~= Seq::<PermissionGrantView>::empty().push(
                        old_grants[i as int],
                    ));
                    assert(Seq::new(kept@.len(), |k: int| kept@[k]@) =~= kept_view.push(
                        old_grants[i as int],
                    ));
                    assert(old_grants.subrange(0, i + 1).filter(pred) =~= kept_view.push(
                        old_grants[i as int],
                    ));
                }
            } else {
                proof {
                    reveal_with_fuel(Seq::filter, 3);
                    assert(old_grants.subrange(0, i + 1) =~= prefix + single);
                    Seq::filter_distributes_over_add(prefix, single, pred);
                    assert(single.drop_last() =~= Seq::<PermissionGrantView>::empty());
                    assert(!pred(single.last()));
                    assert(single.filter(pred) =~= Seq::<PermissionGrantView>::empty());
                    assert(old_grants.subrange(0, i + 1).filter(pred) =~= kept_view);
                }
            }
            i = i + 1;
        }
        proof {
            assert(old_grants.subrange(0, n as int) =~= old_grants);
        }
        self.grants = kept;
        proof {
            assert(final(self).grants_spec() =~= old_grants.filter(pred));
        }
    }

    /// The full gate: the PIN attempt is evaluated under the rate limit, the
    /// requested scopes must all have active grants, and both channel
    /// witnesses must be fresh and coupled.  The first failing clause names
    /// the error, in that order.
    #[verifier::loop_isolation(false)]
    pub fn authorize(&mut self, operator_id: &[u8], pin: &[u8], scopes: &Vec<AuthorizationScope>, mfa: &MFAAuthentication, now_ms: u64) -> (r: Result<(), SecurityError>)
        requires
            old(self).wf(),
        ensures
            final(self).wf(),
            ({
                let found = spec_find_operator(old(self).operators_spec(), operator_id@);
                match found {
                    None => r == Err::<(), SecurityError>(SecurityError::UnknownOperator),
                    Some(i) => {
                        let rec = old(self).operators_spec()[i];
                        let allowed = spec_attempt_allowed(rec, now_ms);
                        let matches = spec_pin_matches(rec, pin@);
                        &&& (!allowed ==> r == Err::<(), SecurityError>(SecurityError::RateLimited))
                        &&& (allowed && !matches ==> r == Err::<(), SecurityError>(
                            SecurityError::PinRejected,
                        ))
                        &&& (allowed && matches ==> ({
                            let all_granted = forall|k: int|
                                0 <= k < scopes@.len() ==> spec_has_grant(
                                    old(self).grants_spec(),
                                    operator_id@,
                                    #[trigger] scopes@[k],
                                    now_ms,
                                );
                            &&& (!all_granted ==> r == Err::<(), SecurityError>(
                                SecurityError::ScopeRejected,
                            ))
                            &&& (all_granted && !spec_witnesses_fresh(*mfa, now_ms) ==> r == Err::<
                                (),
                                SecurityError,
                            >(SecurityError::MFANotVerified))
                            &&& (all_granted && spec_witnesses_fresh(*mfa, now_ms) ==> r == Ok::<
                                (),
                                SecurityError,
                            >(()))
                        }))
                    },
                }
            }),
    {
        let pin_result = self.validate_pin(operator_id, pin, now_ms);
        match pin_result {
            Err(e) => {
                return Err(e);
            },
            Ok(()) => {},
        }
        let n = scopes.len();
        let mut k: usize = 0;
        while k < n
            invariant
                self.wf(),
                n == scopes@.len(),
                0 <= k <= n,
                self.grants_spec() == old(self).grants_spec(),
                forall|j: int|
                    0 <= j < k ==> spec_has_grant(
                        self.grants_spec(),
                        operator_id@,
                        #[trigger] scopes@[j],
                        now_ms,
                    ),
            decreases n - k,
        {
            if !self.check_permission(operator_id, scopes[k], now_ms) {
                proof {
                    assert(!spec_has_grant(
                        old(self).grants_spec(),
                        operator_id@,
                        scopes@[k as int],
                        now_ms,
                    ));
                }
                return Err(SecurityError::ScopeRejected);
            }
            k = k + 1;
        }
        let fresh = mfa.laser_channel_verified && mfa.ultrasound_channel_verified
            && mfa.cross_channel_binding_verified && mfa.last_verification <= now_ms && now_ms
            - mfa.last_verification <= WITNESS_FRESHNESS_MS;
        if !fresh {
            return Err(SecurityError::MFANotVerified);
        }
        Ok(())
    }
}

/// `a + b`, saturating at the top of `u32`.
pub open spec fn spec_sat_add32(a: u32, b: u32) -> u32 {
    if a + b > u32::MAX {
        u32::MAX
    } else {
        (a + b) as u32
    }
}

/// Executable form of `spec_backoff_ms`.
fn backoff_ms_exec(n: u32) -> (r: u64)
    ensures
        r == spec_backoff_ms(n),
{
    if n == 0 {
        0
    } else if n > 20 {
        BASE_BACKOFF_MS << 20u64
    } else {
        BASE_BACKOFF_MS << ((n - 1) as u64)
    }
}

/// Copies an identifier.
fn copy_id(src: &Vec<u8>) -> (r: Vec<u8>)
    ensures
        r@ == src@,
{
    let mut r: Vec<u8> = Vec::new();
    crate::wire::push_bytes(&mut r, src.as_slice());
    r
}

} // verus!
