//! Compliance rules and the alerts they raise.
//!
//! Rules are declarative: trigger event kinds, conditions, actions and a
//! priority.  Evaluation happens synchronously when an event is recorded; a
//! matching rule fires its actions, and a review action produces an active
//! security alert.  Alert status then moves only along the lifecycle
//! transitions.

use vstd::prelude::*;
use crate::audit::{AuditEntry, AuditEventType, AuditSeverity, ViolationSeverity};

verus! {

/// Kinds of security alerts.
#[derive(Debug, Clone, Copy, PartialEq, Eq, Structural)]
pub enum AlertType {
    PolicyViolation,
    UnauthorizedAccess,
    SuspiciousActivity,
    SystemCompromise,
    ConfigurationError,
    PerformanceAnomaly,
    ComplianceDeviation,
    EmergencyCondition,
}

/// Lifecycle state of an alert.
#[derive(Debug, Clone, Copy, PartialEq, Eq, Structural)]
pub enum AlertStatus {
    Active,
    Investigating,
    Mitigated,
    Resolved,
    FalsePositive,
    Escalated,
}

/// The alert lifecycle: an active alert moves to investigating, and an
/// investigated alert closes as mitigated, resolved, a false positive or
/// escalated.
pub open spec fn spec_alert_transition_ok(from: AlertStatus, to: AlertStatus) -> bool {
    match (from, to) {
        (AlertStatus::Active, AlertStatus::Investigating) => true,
        (AlertStatus::Investigating, AlertStatus::Mitigated) => true,
        (AlertStatus::Investigating, AlertStatus::Resolved) => true,
        (AlertStatus::Investigating, AlertStatus::FalsePositive) => true,
        (AlertStatus::Investigating, AlertStatus::Escalated) => true,
        _ => false,
    }
}

/// A security alert raised from audit analysis, linked to the entry that
/// triggered it.
#[derive(Debug)]
pub struct SecurityAlert {
    pub alert_id: u64,
    /// Milliseconds since the epoch.
    pub timestamp: u64,
    pub severity: AuditSeverity,
    pub alert_type: AlertType,
    pub title: Vec<u8>,
    pub description: Vec<u8>,
    /// The `entry_id` of the audit entry that triggered this alert.
    pub triggering_entry_id: u64,
    pub status: AlertStatus,
}

impl Clone for SecurityAlert {
    fn clone(&self) -> (r: Self)
        ensures
            r.alert_id == self.alert_id,
            r.timestamp == self.timestamp,
            r.severity == self.severity,
            r.alert_type == self.alert_type,
            r.title@ == self.title@,
            r.description@ == self.description@,
            r.triggering_entry_id == self.triggering_entry_id,
            r.status == self.status,
    {
        SecurityAlert {
            alert_id: self.alert_id,
            timestamp: self.timestamp,
            severity: self.severity,
            alert_type: self.alert_type,
            title: copy_bytes(&self.title),
            description: copy_bytes(&self.description),
            triggering_entry_id: self.triggering_entry_id,
            status: self.status,
        }
    }
}

/// Field-wise equality of two alerts, over the views of their byte fields.
pub open spec fn spec_alert_eq(a: SecurityAlert, b: SecurityAlert) -> bool {
    &&& a.alert_id == b.alert_id
    &&& a.timestamp == b.timestamp
    &&& a.severity == b.severity
    &&& a.alert_type == b.alert_type
    &&& a.title@ == b.title@
    &&& a.description@ == b.description@
    &&& a.triggering_entry_id == b.triggering_entry_id
    &&& a.status == b.status
}

/// Categories a regulatory requirement can fall under.
#[derive(Debug, Clone, Copy, PartialEq, Eq, Structural)]
pub enum RequirementCategory {
    Security,
    Privacy,
    Operational,
    Financial,
    Environmental,
    Safety,
}

/// One requirement of a regulatory framework.
#[derive(Debug)]
pub struct RegulatoryRequirement {
    pub requirement_id: Vec<u8>,
    pub description: Vec<u8>,
    pub category: RequirementCategory,
    pub mandatory: bool,
}

/// A regulatory compliance framework.
#[derive(Debug)]
pub struct RegulatoryFramework {
    pub framework_id: Vec<u8>,
    pub name: Vec<u8>,
    pub jurisdiction: Vec<u8>,
    pub applicable_domains: Vec<Vec<u8>>,
    pub requirements: Vec<RegulatoryRequirement>,
    pub audit_frequency: Vec<u8>,
    /// Milliseconds since the epoch of the last audit, if any.
    pub last_audit_date: Option<u64>,
}

/// One control of an internal policy.
#[derive(Debug)]
pub struct PolicyControl {
    pub control_id: Vec<u8>,
    pub description: Vec<u8>,
    pub responsible_party: Vec<u8>,
}

/// An internal organizational policy.
pub struct InternalPolicy {
    pub policy_id: Vec<u8>,
    pub title: Vec<u8>,
    pub department: Option<Vec<u8>>,
    /// Milliseconds since the epoch.
    pub effective_date: u64,
    /// Milliseconds since the epoch, if a review is scheduled.
    pub review_date: Option<u64>,
    pub controls: Vec<PolicyControl>,
}

/// A condition a rule evaluates against an entry.
#[derive(Debug, Clone, Copy, PartialEq, Eq, Structural)]
pub enum RuleCondition {
    /// Holds when the entry's severity is exactly the given one.
    SeverityEquals(AuditSeverity),
}

/// What a matching rule does.
pub enum ComplianceAction {
    /// Raises an active alert addressed to a security team member.
    FlagForReview { reviewer: Vec<u8> },
    /// Side effects on external collaborators, specified by their out-calls.
    GenerateReport { report_type: Vec<u8> },
    SendNotification { recipients: Vec<Vec<u8>>, message: Vec<u8> },
    TriggerWorkflow { workflow_name: Vec<u8> },
    Escalate { escalation_level: Vec<u8>, reason: Vec<u8> },
}

/// Rule priority levels.
#[derive(Debug, Clone, Copy, PartialEq, Eq, Structural)]
pub enum CompliancePriority {
    Low,
    Medium,
    High,
    Critical,
}

/// One declarative compliance rule.
pub struct ComplianceRule {
    pub rule_id: Vec<u8>,
    pub name: Vec<u8>,
    pub description: Vec<u8>,
    pub trigger_events: Vec<AuditEventType>,
    pub conditions: Vec<RuleCondition>,
    pub actions: Vec<ComplianceAction>,
    pub priority: CompliancePriority,
}

/// Outcome of validating an event against the rules.
#[derive(Debug)]
pub enum ComplianceFlag {
    Compliant,
    Warning { message: Vec<u8> },
    Violation { severity: ViolationSeverity, code: Vec<u8>, message: Vec<u8> },
    Exemption { justification: Vec<u8>, approver: Vec<u8> },
}

/// Audit subsystem failure.
#[derive(Debug, Clone, PartialEq, Eq, Structural)]
pub enum AuditError {
    InvalidEntry,
    StorageLimitExceeded,
    ReportGenerationError,
    AlertNotFound,
    QueryError,
    ComplianceError,
    /// The requested alert status change is not a lifecycle transition.
    InvalidStatusTransition,
}

/// Whether one condition holds of an entry's severity.
pub open spec fn spec_condition_holds(c: RuleCondition, severity: AuditSeverity) -> bool {
    match c {
        RuleCondition::SeverityEquals(s) => severity == s,
    }
}

/// Whether a rule fires for an event of the given kind and severity: the
/// kind is among its triggers and every condition holds.
pub open spec fn spec_rule_triggers(r: ComplianceRule, et: AuditEventType, severity: AuditSeverity) -> bool {
    &&& r.trigger_events@.contains(et)
    &&& forall|i: int|
        0 <= i < r.conditions@.len() ==> spec_condition_holds(#[trigger] r.conditions@[i], severity)
}

/// Number of review actions among a rule's actions.
pub open spec fn spec_flag_actions(actions: Seq<ComplianceAction>) -> nat
    decreases actions.len(),
{
    if actions.len() == 0 {
        0
    } else {
        spec_flag_actions(actions.drop_last()) + (match actions.last() {
            ComplianceAction::FlagForReview { .. } => 1nat,
            _ => 0nat,
        })
    }
}

/// Number of alerts that evaluating all rules raises for an event.
pub open spec fn spec_fired_alert_count(rules: Seq<ComplianceRule>, et: AuditEventType, severity: AuditSeverity) -> nat
    decreases rules.len(),
{
    if rules.len() == 0 {
        0
    } else {
        spec_fired_alert_count(rules.drop_last(), et, severity) + (if spec_rule_triggers(
            rules.last(),
            et,
            severity,
        ) {
            spec_flag_actions(rules.last().actions@)
        } else {
            0
        })
    }
}

/// The identifier of the built-in critical-operation rule, as bytes.
pub open spec fn spec_default_rule_id() -> Seq<u8> {
    seq![
        99u8, 114u8, 105u8, 116u8, 105u8, 99u8, 97u8, 108u8, 95u8, 111u8, 112u8, 101u8, 114u8,
        97u8, 116u8, 105u8, 111u8, 110u8, 95u8, 97u8, 117u8, 100u8, 105u8, 116u8,
    ]
}

/// The display name of the built-in critical-operation rule, as bytes.
pub open spec fn spec_default_rule_name() -> Seq<u8> {
    seq![
        67u8, 114u8, 105u8, 116u8, 105u8, 99u8, 97u8, 108u8, 32u8, 79u8, 112u8, 101u8, 114u8,
        97u8, 116u8, 105u8, 111u8, 110u8, 32u8, 65u8, 117u8, 100u8, 105u8, 116u8,
    ]
}

/// Rule store and evaluator.
pub struct ComplianceEngine {
    regulatory_frameworks: Vec<RegulatoryFramework>,
    internal_policies: Vec<InternalPolicy>,
    compliance_rules: Vec<ComplianceRule>,
}

impl ComplianceEngine {
    /// The registered frameworks, for contracts only.
    pub closed spec fn frameworks_spec(self) -> Seq<RegulatoryFramework> {
        self.regulatory_frameworks@
    }

    /// The registered policies, for contracts only.
    pub closed spec fn policies_spec(self) -> Seq<InternalPolicy> {
        self.internal_policies@
    }

    /// The registered rules, for contracts only.
    pub closed spec fn rules_spec(self) -> Seq<ComplianceRule> {
        self.compliance_rules@
    }

    /// Starts with the one built-in rule: critical mission transfers and
    /// emergency actions are flagged for review and reported.
    pub fn new() -> (r: Self)
        ensures
            r.frameworks_spec().len() == 0,
            r.policies_spec().len() == 0,
            r.rules_spec().len() == 1,
            spec_rule_triggers(
                r.rules_spec()[0],
                AuditEventType::EmergencyAction,
                AuditSeverity::Critical,
            ),
            spec_rule_triggers(
                r.rules_spec()[0],
                AuditEventType::MissionTransfer,
                AuditSeverity::Critical,
            ),
            spec_flag_actions(r.rules_spec()[0].actions@) == 1,
            forall|et: AuditEventType, sev: AuditSeverity|
                sev != AuditSeverity::Critical ==> !spec_rule_triggers(r.rules_spec()[0], et, sev),
            forall|et: AuditEventType|
                et != AuditEventType::EmergencyAction && et != AuditEventType::MissionTransfer
                    ==> !spec_rule_triggers(r.rules_spec()[0], et, AuditSeverity::Critical),
            forall|et: AuditEventType, sev: AuditSeverity|
                spec_fired_alert_count(r.rules_spec(), et, sev) <= 1,
            r.rules_spec()[0].rule_id@ == spec_default_rule_id(),
            r.rules_spec()[0].name@ == spec_default_rule_name(),
            r.rules_spec()[0].priority == CompliancePriority::High,
            r.rules_spec()[0].trigger_events@ == seq![
                AuditEventType::EmergencyAction,
                AuditEventType::MissionTransfer,
            ],
            r.rules_spec()[0].conditions@ == seq![
                RuleCondition::SeverityEquals(AuditSeverity::Critical),
            ],
            r.rules_spec()[0].actions@.len() == 2,
            r.rules_spec()[0].actions@[0] matches ComplianceAction::FlagForReview { .. },
            r.rules_spec()[0].actions@[1] matches ComplianceAction::GenerateReport { .. },
    {
        let mut trigger_events: Vec<AuditEventType> = Vec::new();
        trigger_events.push(AuditEventType::EmergencyAction);
        trigger_events.push(AuditEventType::MissionTransfer);
        let mut conditions: Vec<RuleCondition> = Vec::new();
        conditions.push(RuleCondition::SeverityEquals(AuditSeverity::Critical));
        let mut actions: Vec<ComplianceAction> = Vec::new();
        actions.push(ComplianceAction::FlagForReview { reviewer: vec![115u8, 101u8, 99u8, 117u8, 114u8, 105u8, 116u8, 121u8, 95u8, 116u8, 101u8, 97u8, 109u8] });
        actions.push(
            ComplianceAction::GenerateReport { report_type: vec![99u8, 114u8, 105u8, 116u8, 105u8, 99u8, 97u8, 108u8, 95u8, 111u8, 112u8, 101u8, 114u8, 97u8, 116u8, 105u8, 111u8, 110u8, 95u8, 97u8, 117u8, 100u8, 105u8, 116u8] },
        );
        let rule = ComplianceRule {
            rule_id: vec![99u8, 114u8, 105u8, 116u8, 105u8, 99u8, 97u8, 108u8, 95u8, 111u8, 112u8, 101u8, 114u8, 97u8, 116u8, 105u8, 111u8, 110u8, 95u8, 97u8, 117u8, 100u8, 105u8, 116u8],
            name: vec![67u8, 114u8, 105u8, 116u8, 105u8, 99u8, 97u8, 108u8, 32u8, 79u8, 112u8, 101u8, 114u8, 97u8, 116u8, 105u8, 111u8, 110u8, 32u8, 65u8, 117u8, 100u8, 105u8, 116u8],
            description: vec![65u8, 108u8, 108u8, 32u8, 99u8, 114u8, 105u8, 116u8, 105u8, 99u8, 97u8, 108u8, 32u8, 111u8, 112u8, 101u8, 114u8, 97u8, 116u8, 105u8, 111u8, 110u8, 115u8, 32u8, 109u8, 117u8, 115u8, 116u8, 32u8, 98u8, 101u8, 32u8, 97u8, 117u8, 100u8, 105u8, 116u8, 101u8, 100u8],
            trigger_events,
            conditions,
            actions,
            priority: CompliancePriority::High,
        };
        let engine = ComplianceEngine {
            regulatory_frameworks: Vec::new(),
            internal_policies: Vec::new(),
            compliance_rules: vec![rule],
        };
        proof {
            let r0 = engine.rules_spec()[0];
            assert(r0.trigger_events@[0] == AuditEventType::EmergencyAction);
            assert(r0.trigger_events@[1] == AuditEventType::MissionTransfer);
            assert(r0.trigger_events@.contains(AuditEventType::EmergencyAction));
            assert(r0.trigger_events@.contains(AuditEventType::MissionTransfer));
            assert(r0.conditions@[0] == RuleCondition::SeverityEquals(AuditSeverity::Critical));
            reveal_with_fuel(spec_flag_actions, 4);
            let a = r0.actions@;
            assert(a.len() == 2);
            assert(a.last() == a[1]);
            assert(a.drop_last().len() == 1);
            assert(a.drop_last().last() == a[0]);
            assert(a.drop_last().drop_last().len() == 0);
            assert(spec_flag_actions(a.drop_last().drop_last()) == 0);
            assert(a[0] matches ComplianceAction::FlagForReview { .. });
            assert(a[1] matches ComplianceAction::GenerateReport { .. });
            assert(spec_flag_actions(a.drop_last()) == 1);
            assert(spec_flag_actions(a) == 1);
            assert(r0.rule_id@ =~= spec_default_rule_id());
            assert(r0.name@ =~= spec_default_rule_name());
            assert(r0.trigger_events@ =~= seq![
                AuditEventType::EmergencyAction,
                AuditEventType::MissionTransfer,
            ]);
            assert(r0.conditions@ =~= seq![
                RuleCondition::SeverityEquals(AuditSeverity::Critical),
            ]);
            assert forall|et: AuditEventType, sev: AuditSeverity|
                sev != AuditSeverity::Critical implies !spec_rule_triggers(r0, et, sev) by {
                assert(r0.conditions@[0] == RuleCondition::SeverityEquals(AuditSeverity::Critical));
            }
            assert forall|et: AuditEventType|
                et != AuditEventType::EmergencyAction && et != AuditEventType::MissionTransfer
                    implies !spec_rule_triggers(r0, et, AuditSeverity::Critical) by {
                if r0.trigger_events@.contains(et) {
                    let i = choose|i: int|
                        0 <= i < r0.trigger_events@.len() && r0.trigger_events@[i] == et;
                    assert(i == 0 || i == 1);
                }
            }
            assert forall|et: AuditEventType, sev: AuditSeverity|
                spec_fired_alert_count(engine.rules_spec(), et, sev) <= 1 by {
                reveal_with_fuel(spec_fired_alert_count, 2);
                assert(engine.rules_spec().drop_last().len() == 0);
                assert(spec_fired_alert_count(engine.rules_spec().drop_last(), et, sev) == 0);
                assert(engine.rules_spec().last() == r0);
            }
        }
        engine
    }

    pub fn add_regulatory_framework(&mut self, framework: RegulatoryFramework)
        ensures
            final(self).frameworks_spec() == old(self).frameworks_spec().push(framework),
            final(self).policies_spec() == old(self).policies_spec(),
            final(self).rules_spec() == old(self).rules_spec(),
    {
        self.regulatory_frameworks.push(framework);
    }

    pub fn add_internal_policy(&mut self, policy: InternalPolicy)
        ensures
            final(self).policies_spec() == old(self).policies_spec().push(policy),
            final(self).frameworks_spec() == old(self).frameworks_spec(),
            final(self).rules_spec() == old(self).rules_spec(),
    {
        self.internal_policies.push(policy);
    }

    pub fn add_compliance_rule(&mut self, rule: ComplianceRule)
        ensures
            final(self).rules_spec() == old(self).rules_spec().push(rule),
            final(self).frameworks_spec() == old(self).frameworks_spec(),
            final(self).policies_spec() == old(self).policies_spec(),
    {
        self.compliance_rules.push(rule);
    }

    pub fn get_regulatory_frameworks(&self) -> (r: &Vec<RegulatoryFramework>)
        ensures
            r@ == self.frameworks_spec(),
    {
        &self.regulatory_frameworks
    }

    pub fn get_internal_policies(&self) -> (r: &Vec<InternalPolicy>)
        ensures
            r@ == self.policies_spec(),
    {
        &self.internal_policies
    }

    pub fn get_compliance_rules(&self) -> (r: &Vec<ComplianceRule>)
        ensures
            r@ == self.rules_spec(),
    {
        &self.compliance_rules
    }

    /// Evaluates every rule against the entry; each review action of each
    /// matching rule raises one active, medium-severity alert linked to the
    /// entry, with ids counted up from `next_alert_id`.
    #[verifier::loop_isolation(false)]
    #[verifier::rlimit(100)]
    pub fn check_compliance(&self, entry: &AuditEntry, alerts: &mut Vec<SecurityAlert>, next_alert_id: u64, now_ms: u64) -> (r: Result<(), AuditError>)
        requires
            next_alert_id + spec_fired_alert_count(
                self.rules_spec(),
                entry.event_type,
                entry.severity,
            ) <= u64::MAX,
        ensures
            r is Ok,
            final(alerts)@.len() == old(alerts)@.len() + spec_fired_alert_count(
                self.rules_spec(),
                entry.event_type,
                entry.severity,
            ),
            forall|i: int| 0 <= i < old(alerts)@.len() ==> final(alerts)@[i] == old(alerts)@[i],
            forall|i: int|
                old(alerts)@.len() <= i < final(alerts)@.len() ==> {
                    let a = #[trigger] final(alerts)@[i];
                    &&& a.status == AlertStatus::Active
                    &&& a.severity == AuditSeverity::Medium
                    &&& a.alert_type == AlertType::ComplianceDeviation
                    &&& a.triggering_entry_id == entry.entry_id
                    &&& a.timestamp == now_ms
                    &&& a.alert_id == next_alert_id + (i - old(alerts)@.len())
                },
    {
        let ghost rules = self.rules_spec();
        let ghost et = entry.event_type;
        let ghost sev = entry.severity;
        let mut next_id: u64 = next_alert_id;
        let n = self.compliance_rules.len();
        let mut k: usize = 0;
        proof {
            assert(spec_fired_alert_count(rules.subrange(0, 0), et, sev) == 0) by {
                assert(rules.subrange(0, 0).len() == 0);
            }
        }
        while k < n
            invariant
                0 <= k <= n,
                alerts@.len() == old(alerts)@.len() + spec_fired_alert_count(
                    rules.subrange(0, k as int),
                    et,
                    sev,
                ),
                next_id == next_alert_id + spec_fired_alert_count(
                    rules.subrange(0, k as int),
                    et,
                    sev,
                ),
                forall|i: int| 0 <= i < old(alerts)@.len() ==> alerts@[i] == old(alerts)@[i],
                forall|i: int|
                    old(alerts)@.len() <= i < alerts@.len() ==> {
                        let a = #[trigger] alerts@[i];
                        &&& a.status == AlertStatus::Active
                        &&& a.severity == AuditSeverity::Medium
                        &&& a.alert_type == AlertType::ComplianceDeviation
                        &&& a.triggering_entry_id == entry.entry_id
                        &&& a.timestamp == now_ms
                        &&& a.alert_id == next_alert_id + (i - old(alerts)@.len())
                    },
            decreases n - k,
        {
            let rule = &self.compliance_rules[k];
            let triggered = rule_triggers_exec(rule, &entry.event_type, &entry.severity);
            proof {
                assert(rules.subrange(0, k + 1).drop_last() =~= rules.subrange(0, k as int));
                assert(rules.subrange(0, k + 1).last() == rules[k as int]);
                lemma_fired_prefix_le(rules, et, sev, k + 1);
            }
            if triggered {
                let ghost actions = rules[k as int].actions@;
                let m = rule.actions.len();
                let mut j: usize = 0;
                proof {
                    assert(spec_flag_actions(actions.subrange(0, 0)) == 0) by {
                        assert(actions.subrange(0, 0).len() == 0);
                    }
                }
                while j < m
                    invariant
                        0 <= j <= m,
                        triggered,
                        m == rule.actions@.len(),
                        alerts@.len() == old(alerts)@.len() + spec_fired_alert_count(
                            rules.subrange(0, k as int),
                            et,
                            sev,
                        ) + spec_flag_actions(actions.subrange(0, j as int)),
                        next_id == next_alert_id + spec_fired_alert_count(
                            rules.subrange(0, k as int),
                            et,
                            sev,
                        ) + spec_flag_actions(actions.subrange(0, j as int)),
                        forall|i: int|
                            0 <= i < old(alerts)@.len() ==> alerts@[i] == old(alerts)@[i],
                        forall|i: int|
                            old(alerts)@.len() <= i < alerts@.len() ==> {
                                let a = #[trigger] alerts@[i];
                                &&& a.status == AlertStatus::Active
                                &&& a.severity == AuditSeverity::Medium
                                &&& a.alert_type == AlertType::ComplianceDeviation
                                &&& a.triggering_entry_id == entry.entry_id
                                &&& a.timestamp == now_ms
                                &&& a.alert_id == next_alert_id + (i - old(alerts)@.len())
                            },
                    decreases m - j,
                {
                    proof {
                        assert(actions.subrange(0, j + 1).drop_last() =~= actions.subrange(
                            0,
                            j as int,
                        ));
                        assert(actions.subrange(0, j + 1).last() == actions[j as int]);
                        lemma_flag_prefix_le(actions, j + 1);
                        lemma_fired_prefix_le(rules, et, sev, k + 1);
                        assert(spec_fired_alert_count(rules.subrange(0, k + 1), et, sev)
                            == spec_fired_alert_count(rules.subrange(0, k as int), et, sev)
                            + spec_flag_actions(actions));
                    }
                    match &rule.actions[j] {
                        ComplianceAction::FlagForReview { reviewer } => {
                            let alert = SecurityAlert {
                                alert_id: next_id,
                                timestamp: now_ms,
                                severity: AuditSeverity::Medium,
                                alert_type: AlertType::ComplianceDeviation,
                                title: vec![67u8, 111u8, 109u8, 112u8, 108u8, 105u8, 97u8, 110u8, 99u8, 101u8, 32u8, 82u8, 101u8, 118u8, 105u8, 101u8, 119u8, 32u8, 82u8, 101u8, 113u8, 117u8, 105u8, 114u8, 101u8, 100u8],
                                description: copy_bytes(reviewer),
                                triggering_entry_id: entry.entry_id,
                                status: AlertStatus::Active,
                            };
                            alerts.push(alert);
                            next_id = next_id + 1;
                        },
                        _ => {},
                    }
                    j = j + 1;
                }
                proof {
                    assert(actions.subrange(0, m as int) =~= actions);
                }
            }
            k = k + 1;
        }
        proof {
            assert(rules.subrange(0, n as int) =~= rules);
        }
        Ok(())
    }

    /// Validates an event kind and severity against the rules: a rule of
    /// critical priority that triggers on the kind demands critical severity;
    /// an event that violates nothing is compliant.
    #[verifier::loop_isolation(false)]
    pub fn validate_event_compliance(&self, event_type: &AuditEventType, severity: &AuditSeverity) -> (r: Vec<ComplianceFlag>)
        ensures
            r@.len() >= 1,
            (exists|i: int|
                0 <= i < self.rules_spec().len() && (#[trigger] self.rules_spec()[i]).trigger_events@.contains(
                    *event_type,
                ) && self.rules_spec()[i].priority == CompliancePriority::Critical && *severity
                    != AuditSeverity::Critical) <==> !(r@[0] is Compliant),
            r@[0] is Compliant ==> r@.len() == 1,
    {
        let mut flags: Vec<ComplianceFlag> = Vec::new();
        let n = self.compliance_rules.len();
        let mut k: usize = 0;
        while k < n
            invariant
                0 <= k <= n,
                flags@.len() == 0 <==> !(exists|i: int|
                    0 <= i < k && (#[trigger] self.rules_spec()[i]).trigger_events@.contains(
                        *event_type,
                    ) && self.rules_spec()[i].priority == CompliancePriority::Critical && *severity
                        != AuditSeverity::Critical),
                forall|i: int| 0 <= i < flags@.len() ==> !((#[trigger] flags@[i]) is Compliant),
            decreases n - k,
        {
            let rule = &self.compliance_rules[k];
            let triggers = contains_event(&rule.trigger_events, event_type);
            if triggers {
                let is_critical_priority = match rule.priority {
                    CompliancePriority::Critical => true,
                    _ => false,
                };
                let sev_is_critical = match severity {
                    AuditSeverity::Critical => true,
                    _ => false,
                };
                if is_critical_priority && !sev_is_critical {
                    flags.push(
                        ComplianceFlag::Violation {
                            severity: ViolationSeverity::High,
                            code: vec![67u8, 82u8, 73u8, 84u8, 73u8, 67u8, 65u8, 76u8, 95u8, 83u8, 69u8, 86u8, 69u8, 82u8, 73u8, 84u8, 89u8, 95u8, 82u8, 69u8, 81u8, 85u8, 73u8, 82u8, 69u8, 68u8],
                            message: vec![67u8, 114u8, 105u8, 116u8, 105u8, 99u8, 97u8, 108u8, 32u8, 111u8, 112u8, 101u8, 114u8, 97u8, 116u8, 105u8, 111u8, 110u8, 115u8, 32u8, 114u8, 101u8, 113u8, 117u8, 105u8, 114u8, 101u8, 32u8, 99u8, 114u8, 105u8, 116u8, 105u8, 99u8, 97u8, 108u8, 32u8, 115u8, 101u8, 118u8, 101u8, 114u8, 105u8, 116u8, 121u8],
                        },
                    );
                }
            }
            k = k + 1;
        }
        if flags.len() == 0 {
            flags.push(ComplianceFlag::Compliant);
            return flags;
        }
        flags
    }
}

/// Whether `events` holds `et`.
pub(crate) fn contains_event(events: &Vec<AuditEventType>, et: &AuditEventType) -> (r: bool)
    ensures
        r == events@.contains(*et),
{
    let n = events.len();
    let mut i: usize = 0;
    while i < n
        invariant
            0 <= i <= n,
            n == events@.len(),
            forall|j: int| 0 <= j < i ==> events@[j] != *et,
        decreases n - i,
    {
        if events[i] == *et {
            assert(events@.contains(*et));
            return true;
        }
        i = i + 1;
    }
    false
}

/// Whether a rule fires for the given kind and severity.
fn rule_triggers_exec(rule: &ComplianceRule, et: &AuditEventType, severity: &AuditSeverity) -> (r: bool)
    ensures
        r == spec_rule_triggers(*rule, *et, *severity),
{
    if !contains_event(&rule.trigger_events, et) {
        return false;
    }
    let n = rule.conditions.len();
    let mut i: usize = 0;
    while i < n
        invariant
            0 <= i <= n,
            n == rule.conditions@.len(),
            forall|j: int|
                0 <= j < i ==> spec_condition_holds(#[trigger] rule.conditions@[j], *severity),
        decreases n - i,
    {
        let holds = match &rule.conditions[i] {
            RuleCondition::SeverityEquals(s) => *severity == *s,
        };
        if !holds {
            return false;
        }
        i = i + 1;
    }
    true
}

/// A prefix of the rules never fires more alerts than the whole list.
proof fn lemma_fired_prefix_le(rules: Seq<ComplianceRule>, et: AuditEventType, sev: AuditSeverity, k: int)
    requires
        0 <= k <= rules.len(),
    ensures
        spec_fired_alert_count(rules.subrange(0, k), et, sev) <= spec_fired_alert_count(
            rules,
            et,
            sev,
        ),
    decreases rules.len() - k,
{
    if k == rules.len() {
        assert(rules.subrange(0, k) =~= rules);
    } else {
        assert(rules.subrange(0, k + 1).drop_last() =~= rules.subrange(0, k));
        assert(rules.subrange(0, k + 1).last() == rules[k]);
        lemma_fired_prefix_le(rules, et, sev, k + 1);
    }
}

/// A prefix of the actions never holds more review actions than all of them.
proof fn lemma_flag_prefix_le(actions: Seq<ComplianceAction>, j: int)
    requires
        0 <= j <= actions.len(),
    ensures
        spec_flag_actions(actions.subrange(0, j)) <= spec_flag_actions(actions),
    decreases actions.len() - j,
{
    if j == actions.len() {
        assert(actions.subrange(0, j) =~= actions);
    } else {
        assert(actions.subrange(0, j + 1).drop_last() =~= actions.subrange(0, j));
        assert(actions.subrange(0, j + 1).last() == actions[j]);
        lemma_flag_prefix_le(actions, j + 1);
    }
}

/// Copies a byte vector.
fn copy_bytes(src: &Vec<u8>) -> (r: Vec<u8>)
    ensures
        r@ == src@,
{
    let mut r: Vec<u8> = Vec::new();
    crate::wire::push_bytes(&mut r, src.as_slice());
    r
}

} // verus!
