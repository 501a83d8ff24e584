//! Operator clearance and validation records.

use mission_link::mission::{AuthorizationScope, MissionPriority};
use mission_link::operator::{
    HumanOperatorInterface, OperatorValidationRecord, SecurityClearance,
};

#[test]
fn test_clearance_gates_by_priority() {
    let mut op = HumanOperatorInterface::new(b"op-1".to_vec(), SecurityClearance::Standard);
    op.authorized_scopes.push(AuthorizationScope::ExecuteMission);
    let needed = vec![AuthorizationScope::ExecuteMission];
    assert!(op.has_clearance_for_mission(&MissionPriority::Normal, &needed));
    assert!(op.has_clearance_for_mission(&MissionPriority::High, &needed));
    assert!(!op.has_clearance_for_mission(&MissionPriority::Critical, &needed));
    assert!(!op.has_clearance_for_mission(&MissionPriority::Emergency, &needed));
}

#[test]
fn test_clearance_requires_every_scope() {
    let mut op = HumanOperatorInterface::new(b"op-2".to_vec(), SecurityClearance::Emergency);
    op.authorized_scopes.push(AuthorizationScope::ExecuteMission);
    let wide = vec![AuthorizationScope::ExecuteMission, AuthorizationScope::Diagnostics];
    assert!(!op.has_clearance_for_mission(&MissionPriority::Low, &wide));
    op.authorized_scopes.push(AuthorizationScope::Diagnostics);
    assert!(op.has_clearance_for_mission(&MissionPriority::Emergency, &wide));
}

#[test]
fn test_validation_history_is_bounded() {
    let mut op = HumanOperatorInterface::new(b"op-3".to_vec(), SecurityClearance::Basic);
    for i in 0..1005u64 {
        op.record_validation(OperatorValidationRecord {
            mission_id: [0u8; 16],
            timestamp: i,
            approved_scopes: vec![],
            validation_reason: b"routine".to_vec(),
            operator_id: b"op-3".to_vec(),
        });
    }
    assert_eq!(op.validation_history.len(), 1000);
    assert_eq!(op.validation_history.last().unwrap().timestamp, 1004);
}
