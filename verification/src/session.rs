//! Ephemeral symmetric session key with a bounded time to live.
//!
//! A session holds a 32-byte key for a single transfer.  It moves from fresh
//! to used on its first cryptographic participation and to expired when its
//! time to live lapses or it is invalidated; an expired session hands out no
//! key material, and invalidation zeroizes the key bytes in place.

use vstd::prelude::*;
use crate::crypto::CryptoError;

verus! {

/// Longest time to live an ephemeral session key may have, in milliseconds.
pub const MAX_SESSION_TTL_MS: u64 = 5000;

/// All-zero key material, the state after zeroization.
pub open spec fn zeroized_key() -> Seq<u8> {
    Seq::new(32, |i: int| 0u8)
}

/// Where a session stands in its lifecycle at a given time.
#[derive(Debug, Clone, Copy, PartialEq, Eq, Structural)]
pub enum SessionState {
    /// Created, not yet part of any encrypt or decrypt.
    Fresh,
    /// Took part in at least one cryptographic operation.
    Used,
    /// Time to live lapsed or the session was invalidated.
    Expired,
}

/// A short-lived 32-byte symmetric key with creation time and time to live.
pub struct EphemeralKeySession {
    key: [u8; 32],
    created_at_ms: u64,
    ttl_ms: u64,
    used: bool,
    invalidated: bool,
}

impl EphemeralKeySession {
    /// The key bytes, for contracts only.
    pub closed spec fn key_spec(self) -> Seq<u8> {
        self.key@
    }

    /// Creation time in milliseconds since the epoch.
    pub closed spec fn created_at_spec(self) -> u64 {
        self.created_at_ms
    }

    /// Time to live in milliseconds.
    pub closed spec fn ttl_spec(self) -> u64 {
        self.ttl_ms
    }

    /// Whether `invalidate` was called.
    pub closed spec fn invalidated_spec(self) -> bool {
        self.invalidated
    }

    /// A session expires once more than its time to live has passed since
    /// creation, or once it was invalidated.
    pub open spec fn is_expired_spec(self, now_ms: u64) -> bool {
        self.invalidated_spec() || now_ms > self.created_at_spec() + self.ttl_spec()
    }

    /// Lifecycle state at `now_ms`.
    pub open spec fn state_spec(self, now_ms: u64) -> SessionState {
        if self.is_expired_spec(now_ms) {
            SessionState::Expired
        } else if self.used_spec() {
            SessionState::Used
        } else {
            SessionState::Fresh
        }
    }

    /// Whether the key took part in a cryptographic operation.
    pub closed spec fn used_spec(self) -> bool {
        self.used
    }

    pub fn new(key: [u8; 32], ttl_ms: u64, now_ms: u64) -> (r: Self)
        requires
            ttl_ms <= MAX_SESSION_TTL_MS,
        ensures
            r.key_spec() == key@,
            r.created_at_spec() == now_ms,
            r.ttl_spec() == ttl_ms,
            !r.used_spec(),
            !r.invalidated_spec(),
    {
        EphemeralKeySession { key, created_at_ms: now_ms, ttl_ms, used: false, invalidated: false }
    }

    /// Whether the session may no longer be used at `now_ms`.
    pub fn is_expired(&self, now_ms: u64) -> (r: bool)
        ensures
            r == self.is_expired_spec(now_ms),
    {
        if self.invalidated {
            return true;
        }
        if now_ms < self.created_at_ms {
            return false;
        }
        now_ms - self.created_at_ms > self.ttl_ms
    }

    /// Hands out the key while the session lives and marks it used; an
    /// expired session yields only `KeyExpired`.
    pub fn key(&mut self, now_ms: u64) -> (r: Result<[u8; 32], CryptoError>)
        ensures
            r is Ok <==> !old(self).is_expired_spec(now_ms),
            r is Ok ==> r.unwrap()@ == old(self).key_spec(),
            r is Ok ==> final(self).used_spec(),
            final(self).key_spec() == old(self).key_spec(),
            final(self).created_at_spec() == old(self).created_at_spec(),
            final(self).ttl_spec() == old(self).ttl_spec(),
            final(self).invalidated_spec() == old(self).invalidated_spec(),
    {
        if self.is_expired(now_ms) {
            return Err(CryptoError::KeyExpired);
        }
        self.used = true;
        Ok(self.key)
    }

    /// Zeroizes the key material in place and forces expiry: every later call
    /// finds an expired session and all-zero key bytes.
    pub fn invalidate(&mut self)
        ensures
            final(self).key_spec() == zeroized_key(),
            final(self).ttl_spec() == 0,
            final(self).invalidated_spec(),
            forall|now: u64| final(self).is_expired_spec(now),
    {
        self.key = [0u8; 32];
        self.ttl_ms = 0;
        self.invalidated = true;
        assert(self.key@ =~= zeroized_key());
    }
}

} // verus!
