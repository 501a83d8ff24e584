//! The audit system: recording, querying, alerts and retention.

use mission_link::audit::{
    create_audit_entry, AuditActor, AuditContext, AuditEventType, AuditOperation, AuditQuery,
    AuditSeverity, AuditSystem, BusinessContext, OperationResult, TemporalContext,
};
use mission_link::compliance::{AlertStatus, AuditError};

fn plain_context() -> AuditContext {
    AuditContext {
        correlation_id: b"corr-1".to_vec(),
        parent_operation_id: None,
        workflow_step: None,
        temporal_context: TemporalContext {
            business_hours: true,
            critical_period: false,
            mission_time_pressure: false,
        },
        business_context: BusinessContext {
            operation_priority: b"routine".to_vec(),
            regulatory_requirement: false,
            commercial_impact: None,
        },
    }
}

fn entry(event_type: AuditEventType, severity: AuditSeverity, actor: AuditActor, op_type: &[u8], op_name: &[u8]) -> mission_link::audit::AuditEntry {
    create_audit_entry(
        event_type,
        severity,
        actor,
        AuditOperation { operation_type: op_type.to_vec(), operation_name: op_name.to_vec() },
        OperationResult { success: true, error_code: None, error_message: None, duration_ms: 1500 },
        plain_context(),
    )
}

fn system_actor() -> AuditActor {
    AuditActor::System {
        component: b"test_component".to_vec(),
        version: b"1.0".to_vec(),
        subsystem: b"test".to_vec(),
    }
}

#[test]
fn test_audit_system_creation() {
    let audit_system = AuditSystem::new(1000);
    assert_eq!(audit_system.entries().len(), 0);
    assert_eq!(audit_system.max_entries(), 1000);
}

#[test]
fn test_audit_entry_recording() {
    let mut audit_system = AuditSystem::new(1000);
    let e = entry(
        AuditEventType::MissionTransfer,
        AuditSeverity::High,
        system_actor(),
        b"transfer",
        b"mission_transfer",
    );
    let result = audit_system.record_event(e, 1000);
    assert!(result.is_ok());
    assert_eq!(audit_system.entries().len(), 1);
    assert_eq!(audit_system.entries()[0].sequence_number, 1);
    assert_eq!(audit_system.entries()[0].signature.len(), 64);
}

#[test]
fn test_audit_query() {
    let mut audit_system = AuditSystem::new(1000);
    let e = entry(
        AuditEventType::SecurityAuthentication,
        AuditSeverity::Medium,
        AuditActor::HumanOperator {
            operator_id: b"test_operator".to_vec(),
            clearance_level: b"standard".to_vec(),
            department: Some(b"operations".to_vec()),
        },
        b"auth",
        b"pin_auth",
    );
    audit_system.record_event(e, 1000).unwrap();

    let query = AuditQuery {
        start_time: None,
        end_time: None,
        event_types: vec![AuditEventType::SecurityAuthentication],
        min_severity: None,
        actor_filter: None,
        limit: None,
    };
    let results = audit_system.query_audit(&query);
    assert_eq!(results.len(), 1);
    assert_eq!(results[0].event_type, AuditEventType::SecurityAuthentication);

    let none = AuditQuery {
        start_time: None,
        end_time: None,
        event_types: vec![AuditEventType::DroneCommand],
        min_severity: None,
        actor_filter: None,
        limit: None,
    };
    assert_eq!(audit_system.query_audit(&none).len(), 0);
}

#[test]
fn test_audit_alerts() {
    let mut audit_system = AuditSystem::new(1000);
    assert_eq!(audit_system.get_active_alerts().len(), 0);

    let e = entry(
        AuditEventType::EmergencyAction,
        AuditSeverity::Critical,
        AuditActor::System {
            component: b"emergency_system".to_vec(),
            version: b"1.0".to_vec(),
            subsystem: b"safety".to_vec(),
        },
        b"emergency",
        b"emergency_shutdown",
    );
    audit_system.record_event(e, 2000).unwrap();

    let active_alerts = audit_system.get_active_alerts();
    assert!(!active_alerts.is_empty());
    assert_eq!(active_alerts[0].status, AlertStatus::Active);
    assert_eq!(active_alerts[0].triggering_entry_id, 1);
}

#[test]
fn test_alert_status_lifecycle() {
    let mut audit_system = AuditSystem::new(1000);
    let e = entry(
        AuditEventType::EmergencyAction,
        AuditSeverity::Critical,
        system_actor(),
        b"emergency",
        b"shutdown",
    );
    audit_system.record_event(e, 1000).unwrap();
    let alert_id = audit_system.get_active_alerts()[0].alert_id;

    // Skipping the investigation step is not a lifecycle transition.
    assert!(matches!(
        audit_system.update_alert_status(alert_id, AlertStatus::Resolved),
        Err(AuditError::InvalidStatusTransition)
    ));
    assert!(audit_system.update_alert_status(alert_id, AlertStatus::Investigating).is_ok());
    assert!(audit_system.update_alert_status(alert_id, AlertStatus::Resolved).is_ok());
    // A resolved alert is no longer active.
    assert_eq!(audit_system.get_active_alerts().len(), 0);
    assert!(matches!(
        audit_system.update_alert_status(9999, AlertStatus::Investigating),
        Err(AuditError::AlertNotFound)
    ));
}

#[test]
fn test_retention_preserves_prioritized_critical_entry() {
    let mut audit_system = AuditSystem::new(2);
    audit_system.retention_policy.max_age_ms = 1000;

    // An old critical mission-transfer entry (prioritized kind).
    let critical = entry(
        AuditEventType::MissionTransfer,
        AuditSeverity::Critical,
        system_actor(),
        b"transfer",
        b"critical_transfer",
    );
    audit_system.record_event(critical, 0).unwrap();

    // Two younger, non-prioritized informational entries push the store
    // over its bound.
    let young1 = entry(
        AuditEventType::SystemHealthEvent,
        AuditSeverity::Informational,
        system_actor(),
        b"health",
        b"heartbeat",
    );
    audit_system.record_event(young1, 5000).unwrap();
    let young2 = entry(
        AuditEventType::SystemHealthEvent,
        AuditSeverity::Informational,
        system_actor(),
        b"health",
        b"heartbeat",
    );
    audit_system.record_event(young2, 5500).unwrap();

    // The critical prioritized entry is older than max_age yet survives;
    // the oldest non-prioritized entry was dropped instead.
    let entries = audit_system.entries();
    assert_eq!(entries.len(), 2);
    assert_eq!(entries[0].entry_id, 1);
    assert_eq!(entries[0].severity, AuditSeverity::Critical);
    assert_eq!(entries[1].entry_id, 3);
}

#[test]
fn test_recorded_sequence_numbers_are_contiguous() {
    let mut audit_system = AuditSystem::new(100);
    for step in 0..7u64 {
        let e = entry(
            AuditEventType::MissionTransfer,
            AuditSeverity::Medium,
            system_actor(),
            b"transfer",
            b"step",
        );
        audit_system.record_event(e, 1000 + step).unwrap();
    }
    let entries = audit_system.entries();
    assert_eq!(entries.len(), 7);
    for (i, e) in entries.iter().enumerate() {
        assert_eq!(e.sequence_number, i as u64 + 1);
    }
}
