//! Operator-facing schemas for mission validation: clearance levels, mission
//! previews and the record of transfer decisions.

use vstd::prelude::*;
use crate::mission::{AuthorizationScope, MissionId, MissionPriority};

verus! {

/// Security clearance levels, lowest first.
#[derive(Debug, Clone, Copy, PartialEq, Eq, Structural)]
pub enum SecurityClearance {
    Basic,
    Standard,
    Advanced,
    Critical,
    Emergency,
}

/// Numeric rank of a clearance, for ordering.
pub open spec fn spec_clearance_rank(c: SecurityClearance) -> u8 {
    match c {
        SecurityClearance::Basic => 0,
        SecurityClearance::Standard => 1,
        SecurityClearance::Advanced => 2,
        SecurityClearance::Critical => 3,
        SecurityClearance::Emergency => 4,
    }
}

/// The clearance a mission of the given priority demands.
pub open spec fn spec_required_clearance(p: MissionPriority) -> SecurityClearance {
    match p {
        MissionPriority::Low => SecurityClearance::Basic,
        MissionPriority::Normal => SecurityClearance::Basic,
        MissionPriority::High => SecurityClearance::Standard,
        MissionPriority::Critical => SecurityClearance::Advanced,
        MissionPriority::Emergency => SecurityClearance::Emergency,
    }
}

/// What a mission looks like to the operator asked to approve it.
#[derive(Debug)]
pub struct MissionPreview {
    pub id: MissionId,
    pub name: Vec<u8>,
    pub description: Option<Vec<u8>>,
    pub priority: MissionPriority,
    pub estimated_duration_ms: u64,
    pub required_scopes: Vec<AuthorizationScope>,
    pub risk_assessment: Vec<u8>,
}

/// What happened during one transfer, for the operator's records.
#[derive(Debug, Clone, Copy, PartialEq, Eq, Structural)]
pub enum TransferAction {
    Received,
    PINValidated,
    ScopesApproved,
    MissionAccepted,
    MissionRejected,
    TransferFailed,
}

/// One line of the operator's transfer log.
pub struct MissionTransferLog {
    /// Milliseconds since the epoch.
    pub timestamp: u64,
    pub mission_id: MissionId,
    pub station_fingerprint: [u8; 32],
    pub operator_id: Vec<u8>,
    pub action: TransferAction,
    pub channel_binding_verified: bool,
    pub scopes_approved: Vec<AuthorizationScope>,
}

/// One validation decision an operator made.
#[derive(Debug)]
pub struct OperatorValidationRecord {
    pub mission_id: MissionId,
    /// Milliseconds since the epoch.
    pub timestamp: u64,
    pub approved_scopes: Vec<AuthorizationScope>,
    pub validation_reason: Vec<u8>,
    pub operator_id: Vec<u8>,
}

/// Bound on the validation records an operator interface keeps.
pub const MAX_VALIDATION_RECORDS: usize = 1000;

/// A human operator's clearance, scopes and decision history.
#[derive(Debug)]
pub struct HumanOperatorInterface {
    pub operator_id: Vec<u8>,
    pub clearance_level: SecurityClearance,
    pub authorized_scopes: Vec<AuthorizationScope>,
    pub validation_history: Vec<OperatorValidationRecord>,
}

impl HumanOperatorInterface {
    /// The recorded decisions, for contracts only.
    pub open spec fn history_spec(self) -> Seq<OperatorValidationRecord> {
        self.validation_history@
    }

    pub fn new(operator_id: Vec<u8>, clearance_level: SecurityClearance) -> (r: Self)
        ensures
            r.operator_id == operator_id,
            r.clearance_level == clearance_level,
            r.authorized_scopes@.len() == 0,
            r.history_spec().len() == 0,
    {
        HumanOperatorInterface {
            operator_id,
            clearance_level,
            authorized_scopes: Vec::new(),
            validation_history: Vec::new(),
        }
    }

    /// Whether the operator outranks the mission's priority and holds every
    /// required scope.
    pub fn has_clearance_for_mission(&self, priority: &MissionPriority, required_scopes: &Vec<AuthorizationScope>) -> (r: bool)
        ensures
            r == (spec_clearance_rank(self.clearance_level) >= spec_clearance_rank(
                spec_required_clearance(*priority),
            ) && forall|i: int|
                0 <= i < required_scopes@.len() ==> self.authorized_scopes@.contains(
                    #[trigger] required_scopes@[i],
                )),
    {
        let own_rank = clearance_rank(&self.clearance_level);
        let needed = match priority {
            MissionPriority::Low => SecurityClearance::Basic,
            MissionPriority::Normal => SecurityClearance::Basic,
            MissionPriority::High => SecurityClearance::Standard,
            MissionPriority::Critical => SecurityClearance::Advanced,
            MissionPriority::Emergency => SecurityClearance::Emergency,
        };
        if own_rank < clearance_rank(&needed) {
            return false;
        }
        let n = required_scopes.len();
        let mut i: usize = 0;
        while i < n
            invariant
                0 <= i <= n,
                n == required_scopes@.len(),
                forall|j: int|
                    0 <= j < i ==> self.authorized_scopes@.contains(#[trigger] required_scopes@[j]),
            decreases n - i,
        {
            if !contains_scope(&self.authorized_scopes, &required_scopes[i]) {
                return false;
            }
            i = i + 1;
        }
        true
    }

    /// Appends a validation record, dropping the oldest past the bound.
    pub fn record_validation(&mut self, record: OperatorValidationRecord)
        ensures
            final(self).history_spec().len() <= MAX_VALIDATION_RECORDS,
            final(self).history_spec().len() > 0,
            final(self).history_spec().last() == record,
            ({
                let all = old(self).history_spec().push(record);
                let dropped = if all.len() > MAX_VALIDATION_RECORDS {
                    all.len() - MAX_VALIDATION_RECORDS
                } else {
                    0
                };
                final(self).history_spec() == all.skip(dropped as int)
            }),
            final(self).operator_id == old(self).operator_id,
            final(self).clearance_level == old(self).clearance_level,
            final(self).authorized_scopes == old(self).authorized_scopes,
    {
        let ghost all = old(self).history_spec().push(record);
        self.validation_history.push(record);
        while self.validation_history.len() > MAX_VALIDATION_RECORDS
            invariant
                self.validation_history@.len() > 0,
                self.validation_history@.last() == record,
                self.validation_history@.len() <= all.len(),
                self.validation_history@ == all.skip(all.len() - self.validation_history@.len()),
                self.validation_history@.len() >= (if all.len() > MAX_VALIDATION_RECORDS {
                    MAX_VALIDATION_RECORDS as int
                } else {
                    all.len() as int
                }),
                self.operator_id == old(self).operator_id,
                self.clearance_level == old(self).clearance_level,
                self.authorized_scopes == old(self).authorized_scopes,
            decreases self.validation_history@.len(),
        {
            let ghost before = self.validation_history@;
            let ghost d = all.len() - before.len();
            self.validation_history.remove(0);
            proof {
                assert(self.validation_history@ =~= before.skip(1));
                assert(before == all.skip(d));
                vstd::seq_lib::lemma_seq_skip_of_skip(all, d, 1);
                assert(before.skip(1) =~= all.skip(d + 1));
                assert(all.len() - self.validation_history@.len() == d + 1);
            }
        }
        proof {
            assert(all.skip(0) =~= all);
        }
    }
}

/// Executable form of `spec_clearance_rank`.
pub fn clearance_rank(c: &SecurityClearance) -> (r: u8)
    ensures
        r == spec_clearance_rank(*c),
{
    match c {
        SecurityClearance::Basic => 0,
        SecurityClearance::Standard => 1,
        SecurityClearance::Advanced => 2,
        SecurityClearance::Critical => 3,
        SecurityClearance::Emergency => 4,
    }
}

/// Whether `scopes` holds `scope`.
fn contains_scope(scopes: &Vec<AuthorizationScope>, scope: &AuthorizationScope) -> (r: bool)
    ensures
        r == scopes@.contains(*scope),
{
    let n = scopes.len();
    let mut i: usize = 0;
    while i < n
        invariant
            0 <= i <= n,
            n == scopes@.len(),
            forall|j: int| 0 <= j < i ==> scopes@[j] != *scope,
        decreases n - i,
    {
        if scopes[i] == *scope {
            assert(scopes@.contains(*scope));
            return true;
        }
        i = i + 1;
    }
    false
}

} // verus!
