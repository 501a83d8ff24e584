//! The compliance engine: frameworks, policies, rules and their evaluation.

use mission_link::audit::{AuditEventType, AuditSeverity};
use mission_link::compliance::{
    ComplianceAction, ComplianceEngine, ComplianceFlag, CompliancePriority, ComplianceRule,
    InternalPolicy, RegulatoryFramework,
};

#[test]
fn test_compliance_engine_creation() {
    let compliance_engine = ComplianceEngine::new();
    // The engine starts with its built-in critical-operation rule.
    assert!(!compliance_engine.get_compliance_rules().is_empty());
    assert!(compliance_engine.get_regulatory_frameworks().is_empty());
}

#[test]
fn test_regulatory_framework_management() {
    let mut compliance_engine = ComplianceEngine::new();

    let framework = RegulatoryFramework {
        framework_id: b"test_framework".to_vec(),
        name: b"Test Framework".to_vec(),
        jurisdiction: b"EU".to_vec(),
        applicable_domains: vec![b"security".to_vec()],
        requirements: vec![],
        audit_frequency: b"annual".to_vec(),
        last_audit_date: None,
    };

    compliance_engine.add_regulatory_framework(framework);
    assert_eq!(compliance_engine.get_regulatory_frameworks().len(), 1);
}

#[test]
fn test_internal_policy_management() {
    let mut compliance_engine = ComplianceEngine::new();

    let policy = InternalPolicy {
        policy_id: b"test_policy".to_vec(),
        title: b"Test Policy".to_vec(),
        department: Some(b"security".to_vec()),
        effective_date: 0,
        review_date: Some(365 * 24 * 3600 * 1000),
        controls: vec![],
    };

    compliance_engine.add_internal_policy(policy);
    assert_eq!(compliance_engine.get_internal_policies().len(), 1);
}

#[test]
fn test_compliance_rule_evaluation() {
    let compliance_engine = ComplianceEngine::new();

    // Test with critical severity
    let flags = compliance_engine.validate_event_compliance(
        &AuditEventType::EmergencyAction,
        &AuditSeverity::Critical,
    );
    assert!(!flags.is_empty());
    assert!(matches!(flags[0], ComplianceFlag::Compliant));

    // Test with non-critical severity
    let flags = compliance_engine.validate_event_compliance(
        &AuditEventType::EmergencyAction,
        &AuditSeverity::Medium,
    );
    assert!(!flags.is_empty());
}

#[test]
fn test_critical_priority_rule_demands_critical_severity() {
    let mut engine = ComplianceEngine::new();
    engine.add_compliance_rule(ComplianceRule {
        rule_id: b"hard_stop".to_vec(),
        name: b"Hard Stop".to_vec(),
        description: b"Emergency actions must be logged as critical".to_vec(),
        trigger_events: vec![AuditEventType::EmergencyAction],
        conditions: vec![],
        actions: vec![ComplianceAction::GenerateReport { report_type: b"stop".to_vec() }],
        priority: CompliancePriority::Critical,
    });
    let flags = engine.validate_event_compliance(
        &AuditEventType::EmergencyAction,
        &AuditSeverity::Medium,
    );
    assert!(matches!(flags[0], ComplianceFlag::Violation { .. }));
    let ok = engine.validate_event_compliance(
        &AuditEventType::EmergencyAction,
        &AuditSeverity::Critical,
    );
    assert!(matches!(ok[0], ComplianceFlag::Compliant));
}
