//! Audit entries: the typed, signed records the audit system stores.
//!
//! An entry carries a monotonic sequence number and an Ed25519 signature over
//! its canonical serialization with the signature field cleared; entries are
//! never mutated after append.

use vstd::prelude::*;
use crate::wire::{spec_u32_to_be_bytes, spec_u64_to_be_bytes, push_bytes, push_u32_be, push_u64_be};
use crate::logging::{spec_chunk, push_chunk};
use crate::mission::{MissionId, MissionPriority};

verus! {

/// Kinds of auditable events.
#[derive(Debug, Clone, Copy, PartialEq, Eq, Structural)]
pub enum AuditEventType {
    MissionTransfer,
    SecurityAuthentication,
    AuthorizationCheck,
    WeatherValidation,
    DroneCommand,
    StationOperation,
    PolicyViolation,
    EmergencyAction,
    SystemHealthEvent,
    ComplianceAudit,
}

/// Audit severity levels, lowest first.
#[derive(Debug, Clone, Copy, PartialEq, Eq, Structural)]
pub enum AuditSeverity {
    Informational,
    Low,
    Medium,
    High,
    Critical,
}

/// Numeric rank of a severity, for ordering.
pub open spec fn spec_severity_rank(s: AuditSeverity) -> u8 {
    match s {
        AuditSeverity::Informational => 0,
        AuditSeverity::Low => 1,
        AuditSeverity::Medium => 2,
        AuditSeverity::High => 3,
        AuditSeverity::Critical => 4,
    }
}

/// Executable form of `spec_severity_rank`.
pub fn severity_rank(s: &AuditSeverity) -> (r: u8)
    ensures
        r == spec_severity_rank(*s),
{
    match s {
        AuditSeverity::Informational => 0,
        AuditSeverity::Low => 1,
        AuditSeverity::Medium => 2,
        AuditSeverity::High => 3,
        AuditSeverity::Critical => 4,
    }
}

/// How severe a constraint violation is.
#[derive(Debug, Clone, Copy, PartialEq, Eq, Structural)]
pub enum ViolationSeverity {
    Warning,
    High,
    Critical,
    Abort,
}

/// Who performed the audited action.
#[derive(Debug)]
pub enum AuditActor {
    HumanOperator { operator_id: Vec<u8>, clearance_level: Vec<u8>, department: Option<Vec<u8>> },
    Drone { drone_id: Vec<u8>, model: Vec<u8>, firmware_version: Vec<u8> },
    Station { station_id: Vec<u8>, location: Vec<u8>, software_version: Vec<u8> },
    System { component: Vec<u8>, version: Vec<u8>, subsystem: Vec<u8> },
    External { source_ip: Option<Vec<u8>>, user_agent: Option<Vec<u8>>, api_key_prefix: Option<Vec<u8>> },
}

/// Mathematical content of an `AuditActor`.
pub ghost enum AuditActorView {
    HumanOperator { operator_id: Seq<u8>, clearance_level: Seq<u8>, department: Option<Seq<u8>> },
    Drone { drone_id: Seq<u8>, model: Seq<u8>, firmware_version: Seq<u8> },
    Station { station_id: Seq<u8>, location: Seq<u8>, software_version: Seq<u8> },
    System { component: Seq<u8>, version: Seq<u8>, subsystem: Seq<u8> },
    External { source_ip: Option<Seq<u8>>, user_agent: Option<Seq<u8>>, api_key_prefix: Option<Seq<u8>> },
}

/// The view of an optional byte field.
pub open spec fn spec_opt_bytes_view(o: Option<Vec<u8>>) -> Option<Seq<u8>> {
    match o {
        Some(v) => Some(v@),
        None => None,
    }
}

impl View for AuditActor {
    type V = AuditActorView;

    open spec fn view(&self) -> AuditActorView {
        match self {
            AuditActor::HumanOperator { operator_id, clearance_level, department } => AuditActorView::HumanOperator {
                operator_id: operator_id@,
                clearance_level: clearance_level@,
                department: spec_opt_bytes_view(*department),
            },
            AuditActor::Drone { drone_id, model, firmware_version } => AuditActorView::Drone {
                drone_id: drone_id@,
                model: model@,
                firmware_version: firmware_version@,
            },
            AuditActor::Station { station_id, location, software_version } => AuditActorView::Station {
                station_id: station_id@,
                location: location@,
                software_version: software_version@,
            },
            AuditActor::System { component, version, subsystem } => AuditActorView::System {
                component: component@,
                version: version@,
                subsystem: subsystem@,
            },
            AuditActor::External { source_ip, user_agent, api_key_prefix } => AuditActorView::External {
                source_ip: spec_opt_bytes_view(*source_ip),
                user_agent: spec_opt_bytes_view(*user_agent),
                api_key_prefix: spec_opt_bytes_view(*api_key_prefix),
            },
        }
    }
}

/// What the audited action was asked to do.
#[derive(Debug)]
pub struct AuditOperation {
    pub operation_type: Vec<u8>,
    pub operation_name: Vec<u8>,
}

/// Mathematical content of an `AuditOperation`.
pub ghost struct AuditOperationView {
    pub operation_type: Seq<u8>,
    pub operation_name: Seq<u8>,
}

impl View for AuditOperation {
    type V = AuditOperationView;

    open spec fn view(&self) -> AuditOperationView {
        AuditOperationView {
            operation_type: self.operation_type@,
            operation_name: self.operation_name@,
        }
    }
}

/// How the audited action ended.
#[derive(Debug)]
pub struct OperationResult {
    pub success: bool,
    pub error_code: Option<Vec<u8>>,
    pub error_message: Option<Vec<u8>>,
    pub duration_ms: u64,
}

/// Mathematical content of an `OperationResult`.
pub ghost struct OperationResultView {
    pub success: bool,
    pub error_code: Option<Seq<u8>>,
    pub error_message: Option<Seq<u8>>,
    pub duration_ms: u64,
}

impl View for OperationResult {
    type V = OperationResultView;

    open spec fn view(&self) -> OperationResultView {
        OperationResultView {
            success: self.success,
            error_code: spec_opt_bytes_view(self.error_code),
            error_message: spec_opt_bytes_view(self.error_message),
            duration_ms: self.duration_ms,
        }
    }
}

/// Temporal circumstances of the audited action.
#[derive(Debug, Clone, Copy, PartialEq, Eq, Structural)]
pub struct TemporalContext {
    pub business_hours: bool,
    pub critical_period: bool,
    pub mission_time_pressure: bool,
}

/// Business circumstances of the audited action.
#[derive(Debug)]
pub struct BusinessContext {
    pub operation_priority: Vec<u8>,
    pub regulatory_requirement: bool,
    pub commercial_impact: Option<Vec<u8>>,
}

/// Mathematical content of a `BusinessContext`.
pub ghost struct BusinessContextView {
    pub operation_priority: Seq<u8>,
    pub regulatory_requirement: bool,
    pub commercial_impact: Option<Seq<u8>>,
}

impl View for BusinessContext {
    type V = BusinessContextView;

    open spec fn view(&self) -> BusinessContextView {
        BusinessContextView {
            operation_priority: self.operation_priority@,
            regulatory_requirement: self.regulatory_requirement,
            commercial_impact: spec_opt_bytes_view(self.commercial_impact),
        }
    }
}

/// Correlation and circumstances of the audited action.
#[derive(Debug)]
pub struct AuditContext {
    pub correlation_id: Vec<u8>,
    pub parent_operation_id: Option<Vec<u8>>,
    pub workflow_step: Option<u32>,
    pub temporal_context: TemporalContext,
    pub business_context: BusinessContext,
}

/// Mathematical content of an `AuditContext`.
pub ghost struct AuditContextView {
    pub correlation_id: Seq<u8>,
    pub parent_operation_id: Option<Seq<u8>>,
    pub workflow_step: Option<u32>,
    pub temporal_context: TemporalContext,
    pub business_context: BusinessContextView,
}

impl View for AuditContext {
    type V = AuditContextView;

    open spec fn view(&self) -> AuditContextView {
        AuditContextView {
            correlation_id: self.correlation_id@,
            parent_operation_id: spec_opt_bytes_view(self.parent_operation_id),
            workflow_step: self.workflow_step,
            temporal_context: self.temporal_context,
            business_context: self.business_context@,
        }
    }
}

/// What the audited action was aimed at.
#[derive(Debug)]
pub enum AuditTarget {
    Mission { mission_id: MissionId, priority: MissionPriority },
    Drone { drone_id: Vec<u8>, current_state: Vec<u8> },
    Station { station_id: Vec<u8>, current_load: u32 },
    Session { session_id: Vec<u8> },
    Policy { policy_id: Vec<u8>, domain: Vec<u8> },
    SystemComponent { component_name: Vec<u8>, state: Vec<u8> },
}

/// Security posture metadata attached to forensic records.
#[derive(Debug)]
pub struct SecurityMetadata {
    pub authentication_method: Vec<u8>,
    pub authorization_checks: Vec<Vec<u8>>,
    pub cryptographic_operations: Vec<Vec<u8>>,
    pub suspicious_indicators: Vec<Vec<u8>>,
}

/// One signed audit record.
#[derive(Debug)]
pub struct AuditEntry {
    pub entry_id: u64,
    /// Milliseconds since the epoch.
    pub timestamp: u64,
    /// Strictly increasing across the log.
    pub sequence_number: u64,
    pub event_type: AuditEventType,
    pub severity: AuditSeverity,
    pub actor: AuditActor,
    pub operation: AuditOperation,
    pub result: OperationResult,
    pub context: AuditContext,
    /// Ed25519 signature over the entry serialized with this field cleared.
    pub signature: Vec<u8>,
}

/// Mathematical content of an `AuditEntry`.
pub ghost struct AuditEntryView {
    pub entry_id: u64,
    pub timestamp: u64,
    pub sequence_number: u64,
    pub event_type: AuditEventType,
    pub severity: AuditSeverity,
    pub actor: AuditActorView,
    pub operation: AuditOperationView,
    pub result: OperationResultView,
    pub context: AuditContextView,
    pub signature: Seq<u8>,
}

impl View for AuditEntry {
    type V = AuditEntryView;

    open spec fn view(&self) -> AuditEntryView {
        AuditEntryView {
            entry_id: self.entry_id,
            timestamp: self.timestamp,
            sequence_number: self.sequence_number,
            event_type: self.event_type,
            severity: self.severity,
            actor: self.actor@,
            operation: self.operation@,
            result: self.result@,
            context: self.context@,
            signature: self.signature@,
        }
    }
}

/// An optional byte field: present flag, then the chunk when present.
pub open spec fn spec_opt_chunk(o: Option<Seq<u8>>) -> Seq<u8> {
    match o {
        Some(b) => seq![1u8] + spec_chunk(b),
        None => seq![0u8],
    }
}

/// Tag of an event type.
pub open spec fn spec_event_type_tag(t: AuditEventType) -> u8 {
    match t {
        AuditEventType::MissionTransfer => 0,
        AuditEventType::SecurityAuthentication => 1,
        AuditEventType::AuthorizationCheck => 2,
        AuditEventType::WeatherValidation => 3,
        AuditEventType::DroneCommand => 4,
        AuditEventType::StationOperation => 5,
        AuditEventType::PolicyViolation => 6,
        AuditEventType::EmergencyAction => 7,
        AuditEventType::SystemHealthEvent => 8,
        AuditEventType::ComplianceAudit => 9,
    }
}

/// Canonical bytes of an actor: a tag and its fields.
pub open spec fn spec_encode_actor(a: AuditActorView) -> Seq<u8> {
    match a {
        AuditActorView::HumanOperator { operator_id, clearance_level, department } => seq![0u8]
            + spec_chunk(operator_id) + spec_chunk(clearance_level) + spec_opt_chunk(department),
        AuditActorView::Drone { drone_id, model, firmware_version } => seq![1u8] + spec_chunk(
            drone_id,
        ) + spec_chunk(model) + spec_chunk(firmware_version),
        AuditActorView::Station { station_id, location, software_version } => seq![2u8]
            + spec_chunk(station_id) + spec_chunk(location) + spec_chunk(software_version),
        AuditActorView::System { component, version, subsystem } => seq![3u8] + spec_chunk(
            component,
        ) + spec_chunk(version) + spec_chunk(subsystem),
        AuditActorView::External { source_ip, user_agent, api_key_prefix } => seq![4u8]
            + spec_opt_chunk(source_ip) + spec_opt_chunk(user_agent) + spec_opt_chunk(
            api_key_prefix,
        ),
    }
}

/// Canonical bytes of a context.
pub open spec fn spec_encode_context(c: AuditContextView) -> Seq<u8> {
    spec_chunk(c.correlation_id) + spec_opt_chunk(c.parent_operation_id) + (match c.workflow_step {
        Some(w) => seq![1u8] + spec_u32_to_be_bytes(w),
        None => seq![0u8],
    }) + seq![
        if c.temporal_context.business_hours {
            1u8
        } else {
            0u8
        },
        if c.temporal_context.critical_period {
            1u8
        } else {
            0u8
        },
        if c.temporal_context.mission_time_pressure {
            1u8
        } else {
            0u8
        },
    ] + spec_chunk(c.business_context.operation_priority) + seq![
        if c.business_context.regulatory_requirement {
            1u8
        } else {
            0u8
        },
    ] + spec_opt_chunk(c.business_context.commercial_impact)
}

/// The bytes an audit signature covers: every field with the signature
/// cleared.
pub open spec fn spec_audit_signing_bytes(e: AuditEntryView) -> Seq<u8> {
    spec_u64_to_be_bytes(e.entry_id) + spec_u64_to_be_bytes(e.timestamp) + spec_u64_to_be_bytes(
        e.sequence_number,
    ) + seq![spec_event_type_tag(e.event_type), spec_severity_rank(e.severity)]
        + spec_encode_actor(e.actor) + spec_chunk(e.operation.operation_type) + spec_chunk(
        e.operation.operation_name,
    ) + seq![
        if e.result.success {
            1u8
        } else {
            0u8
        },
    ] + spec_opt_chunk(e.result.error_code) + spec_opt_chunk(e.result.error_message)
        + spec_u64_to_be_bytes(e.result.duration_ms) + spec_encode_context(e.context)
}

/// Byte-field bounds an actor must meet so its encoding's prefixes fit.
pub open spec fn spec_actor_wf(a: AuditActorView) -> bool {
    match a {
        AuditActorView::HumanOperator { operator_id, clearance_level, department } => operator_id.len()
            <= u32::MAX && clearance_level.len() <= u32::MAX && spec_opt_len_ok(department),
        AuditActorView::Drone { drone_id, model, firmware_version } => drone_id.len() <= u32::MAX
            && model.len() <= u32::MAX && firmware_version.len() <= u32::MAX,
        AuditActorView::Station { station_id, location, software_version } => station_id.len()
            <= u32::MAX && location.len() <= u32::MAX && software_version.len() <= u32::MAX,
        AuditActorView::System { component, version, subsystem } => component.len() <= u32::MAX
            && version.len() <= u32::MAX && subsystem.len() <= u32::MAX,
        AuditActorView::External { source_ip, user_agent, api_key_prefix } => spec_opt_len_ok(
            source_ip,
        ) && spec_opt_len_ok(user_agent) && spec_opt_len_ok(api_key_prefix),
    }
}

/// Byte-field bounds a context must meet so its encoding's prefixes fit.
pub open spec fn spec_context_wf(c: AuditContextView) -> bool {
    &&& c.correlation_id.len() <= u32::MAX
    &&& spec_opt_len_ok(c.parent_operation_id)
    &&& c.business_context.operation_priority.len() <= u32::MAX
    &&& spec_opt_len_ok(c.business_context.commercial_impact)
}

/// Byte-field bounds an entry must meet so its encoding's prefixes fit.
pub open spec fn spec_audit_entry_wf(e: AuditEntryView) -> bool {
    &&& spec_actor_wf(e.actor)
    &&& e.operation.operation_type.len() <= u32::MAX
    &&& e.operation.operation_name.len() <= u32::MAX
    &&& spec_opt_len_ok(e.result.error_code)
    &&& spec_opt_len_ok(e.result.error_message)
    &&& spec_context_wf(e.context)
}

/// Whether an optional byte field fits its length prefix.
pub open spec fn spec_opt_len_ok(o: Option<Seq<u8>>) -> bool {
    match o {
        Some(b) => b.len() <= u32::MAX,
        None => true,
    }
}

/// Appends an optional chunk: a present flag, then the bytes when present.
fn push_opt_chunk(out: &mut Vec<u8>, o: &Option<Vec<u8>>)
    requires
        spec_opt_len_ok(spec_opt_bytes_view(*o)),
    ensures
        final(out)@ == old(out)@ + spec_opt_chunk(spec_opt_bytes_view(*o)),
{
    match o {
        None => {
            out.push(0u8);
            assert(final(out)@ =~= old(out)@ + spec_opt_chunk(spec_opt_bytes_view(*o)));
        },
        Some(b) => {
            out.push(1u8);
            push_chunk(out, b.as_slice());
            assert(final(out)@ =~= old(out)@ + spec_opt_chunk(spec_opt_bytes_view(*o)));
        },
    }
}

/// Serializes an actor.
#[verifier::rlimit(100)]
fn encode_actor_bytes(a: &AuditActor) -> (r: Vec<u8>)
    requires
        spec_actor_wf(a@),
    ensures
        r@ == spec_encode_actor(a@),
{
    let mut out: Vec<u8> = Vec::new();
    match a {
        AuditActor::HumanOperator { operator_id, clearance_level, department } => {
            out.push(0u8);
            push_chunk(&mut out, operator_id.as_slice());
            push_chunk(&mut out, clearance_level.as_slice());
            push_opt_chunk(&mut out, department);
            assert(out@ =~= spec_encode_actor(a@));
        },
        AuditActor::Drone { drone_id, model, firmware_version } => {
            out.push(1u8);
            push_chunk(&mut out, drone_id.as_slice());
            push_chunk(&mut out, model.as_slice());
            push_chunk(&mut out, firmware_version.as_slice());
            assert(out@ =~= spec_encode_actor(a@));
        },
        AuditActor::Station { station_id, location, software_version } => {
            out.push(2u8);
            push_chunk(&mut out, station_id.as_slice());
            push_chunk(&mut out, location.as_slice());
            push_chunk(&mut out, software_version.as_slice());
            assert(out@ =~= spec_encode_actor(a@));
        },
        AuditActor::System { component, version, subsystem } => {
            out.push(3u8);
            push_chunk(&mut out, component.as_slice());
            push_chunk(&mut out, version.as_slice());
            push_chunk(&mut out, subsystem.as_slice());
            assert(out@ =~= spec_encode_actor(a@));
        },
        AuditActor::External { source_ip, user_agent, api_key_prefix } => {
            out.push(4u8);
            push_opt_chunk(&mut out, source_ip);
            push_opt_chunk(&mut out, user_agent);
            push_opt_chunk(&mut out, api_key_prefix);
            assert(out@ =~= spec_encode_actor(a@));
        },
    }
    out
}

/// Serializes a context.
#[verifier::rlimit(100)]
fn encode_context_bytes(c: &AuditContext) -> (r: Vec<u8>)
    requires
        spec_context_wf(c@),
    ensures
        r@ == spec_encode_context(c@),
{
    let mut out: Vec<u8> = Vec::new();
    push_chunk(&mut out, c.correlation_id.as_slice());
    push_opt_chunk(&mut out, &c.parent_operation_id);
    match c.workflow_step {
        Some(w) => {
            out.push(1u8);
            push_u32_be(&mut out, w);
        },
        None => {
            out.push(0u8);
        },
    }
    out.push(if c.temporal_context.business_hours { 1u8 } else { 0u8 });
    out.push(if c.temporal_context.critical_period { 1u8 } else { 0u8 });
    out.push(if c.temporal_context.mission_time_pressure { 1u8 } else { 0u8 });
    push_chunk(&mut out, c.business_context.operation_priority.as_slice());
    out.push(if c.business_context.regulatory_requirement { 1u8 } else { 0u8 });
    push_opt_chunk(&mut out, &c.business_context.commercial_impact);
    assert(out@ =~= spec_encode_context(c@));
    out
}

/// Serializes an entry with the signature field cleared: what the audit
/// signature covers.
#[verifier::rlimit(100)]
pub fn encode_audit_signing_bytes(e: &AuditEntry) -> (r: Vec<u8>)
    requires
        spec_audit_entry_wf(e@),
    ensures
        r@ == spec_audit_signing_bytes(e@),
{
    let mut out: Vec<u8> = Vec::new();
    push_u64_be(&mut out, e.entry_id);
    push_u64_be(&mut out, e.timestamp);
    push_u64_be(&mut out, e.sequence_number);
    let tag = match e.event_type {
        AuditEventType::MissionTransfer => 0u8,
        AuditEventType::SecurityAuthentication => 1u8,
        AuditEventType::AuthorizationCheck => 2u8,
        AuditEventType::WeatherValidation => 3u8,
        AuditEventType::DroneCommand => 4u8,
        AuditEventType::StationOperation => 5u8,
        AuditEventType::PolicyViolation => 6u8,
        AuditEventType::EmergencyAction => 7u8,
        AuditEventType::SystemHealthEvent => 8u8,
        AuditEventType::ComplianceAudit => 9u8,
    };
    out.push(tag);
    out.push(severity_rank(&e.severity));
    let actor_bytes = encode_actor_bytes(&e.actor);
    push_bytes(&mut out, actor_bytes.as_slice());
    push_chunk(&mut out, e.operation.operation_type.as_slice());
    push_chunk(&mut out, e.operation.operation_name.as_slice());
    out.push(if e.result.success { 1u8 } else { 0u8 });
    push_opt_chunk(&mut out, &e.result.error_code);
    push_opt_chunk(&mut out, &e.result.error_message);
    push_u64_be(&mut out, e.result.duration_ms);
    let context_bytes = encode_context_bytes(&e.context);
    push_bytes(&mut out, context_bytes.as_slice());
    assert(out@ =~= spec_audit_signing_bytes(e@));
    out
}

/// Retention settings: what must be kept and how much may be stored.
#[derive(Debug)]
pub struct RetentionPolicy {
    /// Entries younger than this many milliseconds are preserved.
    pub max_age_ms: u64,
    /// Bound on the number of stored entries.
    pub max_entries: usize,
    pub compression_enabled: bool,
    pub archival_strategy: ArchivalStrategy,
    /// Event kinds whose high-severity entries outlive `max_age_ms`.
    pub prioritized_events: Vec<AuditEventType>,
}

/// What happens to entries that leave the active store.
#[derive(Debug, Clone, Copy, PartialEq, Eq, Structural)]
pub enum ArchivalStrategy {
    KeepInPlace,
    /// Compress after this many days.
    CompressAfter(u32),
    /// Move to cold storage after this many days.
    MoveToColdStorage(u32),
    /// Delete after this many days.
    DeleteAfter(u32),
}

/// Whether an entry is of high severity and of a prioritized kind: such
/// entries are preserved beyond the age cutoff.
pub open spec fn spec_prioritized(e: AuditEntryView, prio: Seq<AuditEventType>) -> bool {
    spec_severity_rank(e.severity) >= 3 && prio.contains(e.event_type)
}

/// Whether eviction must preserve an entry: it is recent, or it is
/// high-severity and prioritized.
pub open spec fn spec_preserved(e: AuditEntryView, now_ms: u64, max_age_ms: u64, prio: Seq<AuditEventType>) -> bool {
    now_ms <= e.timestamp + max_age_ms || spec_prioritized(e, prio)
}

/// Index of the oldest entry that is not prioritized, if any.
pub open spec fn spec_first_droppable(s: Seq<AuditEntryView>, prio: Seq<AuditEventType>) -> Option<int>
    decreases s.len(),
{
    if s.len() == 0 {
        None
    } else if !spec_prioritized(s[0], prio) {
        Some(0)
    } else {
        match spec_first_droppable(s.drop_first(), prio) {
            Some(j) => Some(j + 1),
            None => None,
        }
    }
}

/// The bounded store that eviction leaves: while over the bound, the oldest
/// non-prioritized entry is dropped, and once only prioritized entries are
/// left, the oldest of them.  Order is never changed.
pub open spec fn spec_evict(s: Seq<AuditEntryView>, prio: Seq<AuditEventType>, max: int) -> Seq<AuditEntryView>
    decreases s.len(),
{
    if s.len() <= max || s.len() == 0 {
        s
    } else {
        match spec_first_droppable(s, prio) {
            Some(i) => if 0 <= i < s.len() {
                spec_evict(s.remove(i), prio, max)
            } else {
                s
            },
            None => spec_evict(s.remove(0), prio, max),
        }
    }
}

/// A found droppable index is in range and not prioritized, and everything
/// before it is prioritized; when none is found, everything is prioritized.
pub proof fn lemma_first_droppable(s: Seq<AuditEntryView>, prio: Seq<AuditEventType>)
    ensures
        match spec_first_droppable(s, prio) {
            Some(i) => 0 <= i < s.len() && !spec_prioritized(s[i], prio) && forall|j: int|
                0 <= j < i ==> spec_prioritized(#[trigger] s[j], prio),
            None => forall|j: int| 0 <= j < s.len() ==> spec_prioritized(#[trigger] s[j], prio),
        },
    decreases s.len(),
{
    if s.len() > 0 {
        lemma_first_droppable(s.drop_first(), prio);
        if spec_prioritized(s[0], prio) {
            assert(forall|j: int|
                0 < j < s.len() ==> #[trigger] s[j] == s.drop_first()[j - 1]);
        }
    }
}

/// Removing an element a predicate rejects does not change the filtered
/// sequence.
proof fn lemma_filter_remove_rejected(s: Seq<AuditEntryView>, pred: spec_fn(AuditEntryView) -> bool, i: int)
    requires
        0 <= i < s.len(),
        !pred(s[i]),
    ensures
        s.remove(i).filter(pred) == s.filter(pred),
{
    let left = s.subrange(0, i);
    let single = seq![s[i]];
    let right = s.subrange(i + 1, s.len() as int);
    assert(s =~= left + single + right);
    assert(s.remove(i) =~= left + right);
    Seq::filter_distributes_over_add(left + single, right, pred);
    Seq::filter_distributes_over_add(left, single, pred);
    Seq::filter_distributes_over_add(left, right, pred);
    reveal_with_fuel(Seq::filter, 3);
    assert(single.drop_last() =~= Seq::<AuditEntryView>::empty());
    assert(single.filter(pred) =~= Seq::<AuditEntryView>::empty());
    assert((left + single).filter(pred) =~= left.filter(pred));
    assert(s.filter(pred) == ((left + single) + right).filter(pred));
    assert(s.filter(pred) =~= s.remove(i).filter(pred));
}

/// When a sequence's prioritized entries fit the bound, eviction keeps every
/// one of them: only non-prioritized entries are dropped.
pub proof fn lemma_eviction_preserves_prioritized(s: Seq<AuditEntryView>, prio: Seq<AuditEventType>, max: int)
    requires
        s.filter(|e: AuditEntryView| spec_prioritized(e, prio)).len() <= max,
    ensures
        spec_evict(s, prio, max).filter(|e: AuditEntryView| spec_prioritized(e, prio)) == s.filter(
            |e: AuditEntryView| spec_prioritized(e, prio),
        ),
    decreases s.len(),
{
    let pred = |e: AuditEntryView| spec_prioritized(e, prio);
    if s.len() <= max {
    } else {
        lemma_first_droppable(s, prio);
        match spec_first_droppable(s, prio) {
            Some(i) => {
                lemma_filter_remove_rejected(s, pred, i);
                lemma_eviction_preserves_prioritized(s.remove(i), prio, max);
            },
            None => {
                lemma_all_prioritized_filter_id(s, prio);
                assert(s.filter(pred).len() == s.len());
                assert(false);
            },
        }
    }
}

/// A sequence of prioritized entries filters to itself.
proof fn lemma_all_prioritized_filter_id(s: Seq<AuditEntryView>, prio: Seq<AuditEventType>)
    requires
        forall|j: int| 0 <= j < s.len() ==> spec_prioritized(#[trigger] s[j], prio),
    ensures
        s.filter(|e: AuditEntryView| spec_prioritized(e, prio)) == s,
    decreases s.len(),
{
    reveal_with_fuel(Seq::filter, 2);
    if s.len() > 0 {
        lemma_all_prioritized_filter_id(s.drop_last(), prio);
        assert(s.filter(|e: AuditEntryView| spec_prioritized(e, prio)) =~= s);
    } else {
        assert(s.filter(|e: AuditEntryView| spec_prioritized(e, prio)) =~= s);
    }
}

/// Eviction never leaves more than the bound.
pub proof fn lemma_evict_len(s: Seq<AuditEntryView>, prio: Seq<AuditEventType>, max: int)
    requires
        max >= 0,
    ensures
        spec_evict(s, prio, max).len() <= max,
    decreases s.len(),
{
    if s.len() <= max {
    } else {
        lemma_first_droppable(s, prio);
        match spec_first_droppable(s, prio) {
            Some(i) => {
                lemma_evict_len(s.remove(i), prio, max);
            },
            None => {
                lemma_evict_len(s.remove(0), prio, max);
            },
        }
    }
}

impl Clone for AuditActor {
    fn clone(&self) -> (r: Self)
        ensures
            r@ == self@,
    {
        match self {
            AuditActor::HumanOperator { operator_id, clearance_level, department } => AuditActor::HumanOperator {
                operator_id: copy_bytes(operator_id),
                clearance_level: copy_bytes(clearance_level),
                department: copy_opt_bytes(department),
            },
            AuditActor::Drone { drone_id, model, firmware_version } => AuditActor::Drone {
                drone_id: copy_bytes(drone_id),
                model: copy_bytes(model),
                firmware_version: copy_bytes(firmware_version),
            },
            AuditActor::Station { station_id, location, software_version } => AuditActor::Station {
                station_id: copy_bytes(station_id),
                location: copy_bytes(location),
                software_version: copy_bytes(software_version),
            },
            AuditActor::System { component, version, subsystem } => AuditActor::System {
                component: copy_bytes(component),
                version: copy_bytes(version),
                subsystem: copy_bytes(subsystem),
            },
            AuditActor::External { source_ip, user_agent, api_key_prefix } => AuditActor::External {
                source_ip: copy_opt_bytes(source_ip),
                user_agent: copy_opt_bytes(user_agent),
                api_key_prefix: copy_opt_bytes(api_key_prefix),
            },
        }
    }
}

impl Clone for AuditEntry {
    fn clone(&self) -> (r: Self)
        ensures
            r@ == self@,
    {
        AuditEntry {
            entry_id: self.entry_id,
            timestamp: self.timestamp,
            sequence_number: self.sequence_number,
            event_type: self.event_type,
            severity: self.severity,
            actor: self.actor.clone(),
            operation: AuditOperation {
                operation_type: copy_bytes(&self.operation.operation_type),
                operation_name: copy_bytes(&self.operation.operation_name),
            },
            result: OperationResult {
                success: self.result.success,
                error_code: copy_opt_bytes(&self.result.error_code),
                error_message: copy_opt_bytes(&self.result.error_message),
                duration_ms: self.result.duration_ms,
            },
            context: AuditContext {
                correlation_id: copy_bytes(&self.context.correlation_id),
                parent_operation_id: copy_opt_bytes(&self.context.parent_operation_id),
                workflow_step: self.context.workflow_step,
                temporal_context: self.context.temporal_context,
                business_context: BusinessContext {
                    operation_priority: copy_bytes(&self.context.business_context.operation_priority),
                    regulatory_requirement: self.context.business_context.regulatory_requirement,
                    commercial_impact: copy_opt_bytes(&self.context.business_context.commercial_impact),
                },
            },
            signature: copy_bytes(&self.signature),
        }
    }
}

/// Copies a byte vector.
fn copy_bytes(src: &Vec<u8>) -> (r: Vec<u8>)
    ensures
        r@ == src@,
{
    let mut r: Vec<u8> = Vec::new();
    push_bytes(&mut r, src.as_slice());
    r
}

/// Copies an optional byte vector.
fn copy_opt_bytes(src: &Option<Vec<u8>>) -> (r: Option<Vec<u8>>)
    ensures
        spec_opt_bytes_view(r) == spec_opt_bytes_view(*src),
{
    match src {
        None => None,
        Some(v) => Some(copy_bytes(v)),
    }
}

/// Builds an entry from its parts; the audit system assigns the identifier,
/// the sequence number and the signature on record.
pub fn create_audit_entry(event_type: AuditEventType, severity: AuditSeverity, actor: AuditActor, operation: AuditOperation, result: OperationResult, context: AuditContext) -> (r: AuditEntry)
    ensures
        r@.entry_id == 0,
        r@.sequence_number == 0,
        r@.timestamp == 0,
        r@.event_type == event_type,
        r@.severity == severity,
        r@.actor == actor@,
        r@.operation == operation@,
        r@.result == result@,
        r@.context == context@,
        r@.signature == Seq::<u8>::empty(),
{
    let r = AuditEntry {
        entry_id: 0,
        timestamp: 0,
        sequence_number: 0,
        event_type,
        severity,
        actor,
        operation,
        result,
        context,
        signature: Vec::new(),
    };
    proof {
        assert(r@.signature =~= Seq::<u8>::empty());
    }
    r
}

/// Filters for querying the audit trail.
#[derive(Debug)]
pub struct AuditQuery {
    /// Entries at or after this time, milliseconds since the epoch.
    pub start_time: Option<u64>,
    /// Entries at or before this time, milliseconds since the epoch.
    pub end_time: Option<u64>,
    /// When non-empty, only these event kinds match.
    pub event_types: Vec<AuditEventType>,
    /// When set, only entries at least this severe match.
    pub min_severity: Option<AuditSeverity>,
    /// When set, only entries by a matching actor.
    pub actor_filter: Option<ActorFilter>,
    /// When set, at most this many entries are returned.
    pub limit: Option<usize>,
}

/// Which actor a query asks for.
#[derive(Debug)]
pub enum ActorFilter {
    OperatorId(Vec<u8>),
    DroneId(Vec<u8>),
    StationId(Vec<u8>),
    SystemComponent(Vec<u8>),
}

/// Whether an entry's actor matches a filter.
pub open spec fn spec_actor_matches(a: AuditActorView, f: &ActorFilter) -> bool {
    match (a, f) {
        (AuditActorView::HumanOperator { operator_id, .. }, ActorFilter::OperatorId(id)) => operator_id
            == id@,
        (AuditActorView::Drone { drone_id, .. }, ActorFilter::DroneId(id)) => drone_id == id@,
        (AuditActorView::Station { station_id, .. }, ActorFilter::StationId(id)) => station_id
            == id@,
        (AuditActorView::System { component, .. }, ActorFilter::SystemComponent(name)) => component
            == name@,
        _ => false,
    }
}

/// Whether an entry satisfies every clause of a query (the limit aside).
pub open spec fn spec_matches_query(e: AuditEntryView, q: &AuditQuery) -> bool {
    &&& match q.start_time {
        Some(t) => e.timestamp >= t,
        None => true,
    }
    &&& match q.end_time {
        Some(t) => e.timestamp <= t,
        None => true,
    }
    &&& (q.event_types@.len() == 0 || q.event_types@.contains(e.event_type))
    &&& match q.min_severity {
        Some(m) => spec_severity_rank(e.severity) >= spec_severity_rank(m),
        None => true,
    }
    &&& match q.actor_filter {
        Some(ref f) => spec_actor_matches(e.actor, f),
        None => true,
    }
}

/// Whether an entry satisfies every clause of a query.
pub fn matches_query(e: &AuditEntry, q: &AuditQuery) -> (r: bool)
    ensures
        r == spec_matches_query(e@, q),
{
    let start_ok = match q.start_time {
        Some(t) => e.timestamp >= t,
        None => true,
    };
    let end_ok = match q.end_time {
        Some(t) => e.timestamp <= t,
        None => true,
    };
    let type_ok = q.event_types.len() == 0 || crate::compliance::contains_event(
        &q.event_types,
        &e.event_type,
    );
    let sev_ok = match &q.min_severity {
        Some(m) => severity_rank(&e.severity) >= severity_rank(m),
        None => true,
    };
    let actor_ok = match &q.actor_filter {
        Some(f) => {
            match (&e.actor, f) {
                (AuditActor::HumanOperator { operator_id, .. }, ActorFilter::OperatorId(id)) => crate::crypto::constant_time_eq(
                    operator_id.as_slice(),
                    id.as_slice(),
                ),
                (AuditActor::Drone { drone_id, .. }, ActorFilter::DroneId(id)) => crate::crypto::constant_time_eq(
                    drone_id.as_slice(),
                    id.as_slice(),
                ),
                (AuditActor::Station { station_id, .. }, ActorFilter::StationId(id)) => crate::crypto::constant_time_eq(
                    station_id.as_slice(),
                    id.as_slice(),
                ),
                (AuditActor::System { component, .. }, ActorFilter::SystemComponent(name)) => crate::crypto::constant_time_eq(
                    component.as_slice(),
                    name.as_slice(),
                ),
                _ => false,
            }
        },
        None => true,
    };
    start_ok && end_ok && type_ok && sev_ok && actor_ok
}

/// The view of a vector of entries.
pub open spec fn spec_entries_view(v: Seq<AuditEntry>) -> Seq<AuditEntryView> {
    Seq::new(v.len(), |i: int| v[i]@)
}

/// The audit trail: a bounded store of signed entries, the compliance engine
/// that evaluates them, and the alerts it raised.
pub struct AuditSystem {
    audit_store: Vec<AuditEntry>,
    max_entries: usize,
    /// Retention settings; the bound actually enforced is `max_entries`.
    pub retention_policy: RetentionPolicy,
    /// The rules evaluated on every recorded event.
    pub compliance_engine: crate::compliance::ComplianceEngine,
    alerts: Vec<crate::compliance::SecurityAlert>,
    crypto: crate::crypto::CryptoEngine,
    next_entry_id: u64,
    next_sequence: u64,
    next_alert_id: u64,
}

/// Index of the first alert carrying `id`, if any.
pub open spec fn spec_find_alert(alerts: Seq<crate::compliance::SecurityAlert>, id: u64) -> Option<
    int,
>
    decreases alerts.len(),
{
    if alerts.len() == 0 {
        None
    } else if alerts[0].alert_id == id {
        Some(0)
    } else {
        match spec_find_alert(alerts.skip(1), id) {
            None => None,
            Some(i) => Some(i + 1),
        }
    }
}

/// `spec_find_alert` returns exactly the first matching index.
proof fn lemma_find_alert_at(alerts: Seq<crate::compliance::SecurityAlert>, id: u64, i: int)
    requires
        0 <= i < alerts.len(),
        alerts[i].alert_id == id,
        forall|j: int| 0 <= j < i ==> (#[trigger] alerts[j]).alert_id != id,
    ensures
        spec_find_alert(alerts, id) == Some(i),
    decreases alerts.len(),
{
    if i == 0 {
    } else {
        assert(alerts[0].alert_id != id);
        lemma_find_alert_at(alerts.skip(1), id, i - 1);
    }
}

/// With no matching alert, `spec_find_alert` finds nothing.
proof fn lemma_find_alert_none(alerts: Seq<crate::compliance::SecurityAlert>, id: u64)
    requires
        forall|j: int| 0 <= j < alerts.len() ==> (#[trigger] alerts[j]).alert_id != id,
    ensures
        spec_find_alert(alerts, id) is None,
    decreases alerts.len(),
{
    if alerts.len() > 0 {
        lemma_find_alert_none(alerts.skip(1), id);
    }
}

impl AuditSystem {
    /// The stored entries, for contracts only.
    pub closed spec fn entries_spec(self) -> Seq<AuditEntryView> {
        spec_entries_view(self.audit_store@)
    }

    /// The raised alerts, for contracts only.
    pub closed spec fn alerts_spec(self) -> Seq<crate::compliance::SecurityAlert> {
        self.alerts@
    }

    /// The store bound.
    pub closed spec fn max_entries_spec(self) -> usize {
        self.max_entries
    }

    pub closed spec fn next_entry_id_spec(self) -> u64 {
        self.next_entry_id
    }

    pub closed spec fn next_sequence_spec(self) -> u64 {
        self.next_sequence
    }

    pub closed spec fn next_alert_id_spec(self) -> u64 {
        self.next_alert_id
    }

    /// The signing secret, for contracts only.
    pub closed spec fn signing_secret(self) -> Seq<u8> {
        self.crypto.signing_secret_spec()
    }

    /// The compliance rules in force, for contracts only.
    pub closed spec fn compliance_rules_spec(self) -> Seq<crate::compliance::ComplianceRule> {
        self.compliance_engine.rules_spec()
    }

    /// The retention age cutoff, for contracts only.
    pub closed spec fn retention_max_age_spec(self) -> u64 {
        self.retention_policy.max_age_ms
    }

    /// The prioritized event kinds, for contracts only.
    pub closed spec fn prioritized_events_spec(self) -> Seq<AuditEventType> {
        self.retention_policy.prioritized_events@
    }

    /// The verifying key of the log signing key.
    pub closed spec fn verifying_key_spec(self) -> Seq<u8> {
        crate::crypto::ed25519_public_of(self.crypto.signing_secret_spec())
    }

    /// Every stored entry is within bounds and carries a valid signature of
    /// the log signing key over its serialization with the signature cleared.
    pub closed spec fn wf(self) -> bool {
        &&& self.crypto.wf()
        &&& forall|i: int|
            0 <= i < self.entries_spec().len() ==> spec_audit_entry_wf(
                #[trigger] self.entries_spec()[i],
            )
        &&& forall|i: int|
            0 <= i < self.entries_spec().len() ==> (#[trigger] self.entries_spec()[i]).signature.len()
                == 64 && crate::crypto::ed25519_verifies(
                self.verifying_key_spec(),
                spec_audit_signing_bytes(
                    AuditEntryView { signature: Seq::empty(), ..self.entries_spec()[i] },
                ),
                self.entries_spec()[i].signature,
            )
    }

    /// A fresh audit system with its own log signing key, a year-long age
    /// cutoff and the transfer-critical event kinds prioritized.
    pub fn new(max_entries: usize) -> (r: Self)
        ensures
            r.wf(),
            r.entries_spec().len() == 0,
            r.alerts_spec().len() == 0,
            r.max_entries_spec() == max_entries,
            r.next_entry_id_spec() == 1,
            r.next_sequence_spec() == 1,
            r.next_alert_id_spec() == 1,
            r.retention_max_age_spec() == 31536000000,
            r.prioritized_events_spec() == seq![
                AuditEventType::MissionTransfer,
                AuditEventType::SecurityAuthentication,
                AuditEventType::EmergencyAction,
                AuditEventType::PolicyViolation,
            ],
            r.compliance_rules_spec().len() == 1,
            crate::compliance::spec_rule_triggers(
                r.compliance_rules_spec()[0],
                AuditEventType::MissionTransfer,
                AuditSeverity::Critical,
            ),
            crate::compliance::spec_rule_triggers(
                r.compliance_rules_spec()[0],
                AuditEventType::EmergencyAction,
                AuditSeverity::Critical,
            ),
            forall|et: AuditEventType, sev: AuditSeverity|
                sev != AuditSeverity::Critical ==> !crate::compliance::spec_rule_triggers(
                    r.compliance_rules_spec()[0],
                    et,
                    sev,
                ),
            forall|et: AuditEventType, sev: AuditSeverity|
                crate::compliance::spec_fired_alert_count(r.compliance_rules_spec(), et, sev)
                    <= 1,
    {
        let mut prioritized_events: Vec<AuditEventType> = Vec::new();
        prioritized_events.push(AuditEventType::MissionTransfer);
        prioritized_events.push(AuditEventType::SecurityAuthentication);
        prioritized_events.push(AuditEventType::EmergencyAction);
        prioritized_events.push(AuditEventType::PolicyViolation);
        proof {
            assert(prioritized_events@ =~= seq![
                AuditEventType::MissionTransfer,
                AuditEventType::SecurityAuthentication,
                AuditEventType::EmergencyAction,
                AuditEventType::PolicyViolation,
            ]);
        }
        AuditSystem {
            audit_store: Vec::new(),
            max_entries,
            retention_policy: RetentionPolicy {
                max_age_ms: 31536000000,
                max_entries,
                compression_enabled: true,
                archival_strategy: ArchivalStrategy::CompressAfter(90),
                prioritized_events,
            },
            compliance_engine: crate::compliance::ComplianceEngine::new(),
            alerts: Vec::new(),
            crypto: crate::crypto::CryptoEngine::new(),
            next_entry_id: 1,
            next_sequence: 1,
            next_alert_id: 1,
        }
    }

    /// Read access to the stored entries.
    pub fn entries(&self) -> (r: &Vec<AuditEntry>)
        ensures
            spec_entries_view(r@) == self.entries_spec(),
    {
        &self.audit_store
    }

    /// The bound on the number of stored entries.
    pub fn max_entries(&self) -> (r: usize)
        ensures
            r == self.max_entries_spec(),
    {
        self.max_entries
    }

    /// Read access to every alert, whatever its status.
    pub fn alerts(&self) -> (r: &Vec<crate::compliance::SecurityAlert>)
        ensures
            r@ == self.alerts_spec(),
    {
        &self.alerts
    }

    /// Stamps the entry with the next identifier and sequence number and the
    /// given time, signs it, stores it, evaluates compliance (raising alerts)
    /// and enforces retention if the bound was exceeded.
    #[verifier::loop_isolation(false)]
    #[verifier::rlimit(100)]
    pub fn record_event(&mut self, entry: AuditEntry, now_ms: u64) -> (r: Result<
        u64,
        crate::compliance::AuditError,
    >)
        requires
            old(self).wf(),
            spec_audit_entry_wf(entry@),
            old(self).next_entry_id_spec() < u64::MAX,
            old(self).next_sequence_spec() < u64::MAX,
            old(self).next_alert_id_spec() + crate::compliance::spec_fired_alert_count(
                old(self).compliance_rules_spec(),
                entry@.event_type,
                entry@.severity,
            ) <= u64::MAX,
        ensures
            final(self).wf(),
            r == Ok::<u64, crate::compliance::AuditError>(old(self).next_entry_id_spec()),
            final(self).next_entry_id_spec() == old(self).next_entry_id_spec() + 1,
            final(self).next_sequence_spec() == old(self).next_sequence_spec() + 1,
            final(self).max_entries_spec() == old(self).max_entries_spec(),
            ({
                let stamped = AuditEntryView {
                    entry_id: old(self).next_entry_id_spec(),
                    sequence_number: old(self).next_sequence_spec(),
                    timestamp: now_ms,
                    signature: crate::crypto::ed25519_sign_of(
                        old(self).signing_secret(),
                        spec_audit_signing_bytes(
                            AuditEntryView {
                                entry_id: old(self).next_entry_id_spec(),
                                sequence_number: old(self).next_sequence_spec(),
                                timestamp: now_ms,
                                signature: Seq::empty(),
                                ..entry@
                            },
                        ),
                    ),
                    ..entry@
                };
                let all = old(self).entries_spec().push(stamped);
                if all.len() <= old(self).max_entries_spec() {
                    final(self).entries_spec() == all
                } else {
                    final(self).entries_spec() == spec_evict(
                        all.filter(
                            |e: AuditEntryView| spec_preserved(
                                e,
                                now_ms,
                                final(self).retention_max_age_spec(),
                                final(self).prioritized_events_spec(),
                            ),
                        ),
                        final(self).prioritized_events_spec(),
                        old(self).max_entries_spec() as int,
                    )
                }
            }),
            final(self).alerts_spec().len() == old(self).alerts_spec().len()
                + crate::compliance::spec_fired_alert_count(
                old(self).compliance_rules_spec(),
                entry@.event_type,
                entry@.severity,
            ),
            forall|i: int|
                0 <= i < old(self).alerts_spec().len() ==> final(self).alerts_spec()[i] == old(
                    self,
                ).alerts_spec()[i],
            forall|i: int|
                old(self).alerts_spec().len() <= i < final(self).alerts_spec().len() ==> {
                    let a = #[trigger] final(self).alerts_spec()[i];
                    &&& a.status == crate::compliance::AlertStatus::Active
                    &&& a.triggering_entry_id == old(self).next_entry_id_spec()
                },
    {
        let ghost orig = entry@;
        let mut entry = entry;
        entry.entry_id = self.next_entry_id;
        entry.sequence_number = self.next_sequence;
        entry.timestamp = now_ms;
        entry.signature = Vec::new();
        proof {
            assert(entry@.signature =~= Seq::<u8>::empty());
            assert(entry@ == AuditEntryView {
                entry_id: old(self).next_entry_id_spec(),
                sequence_number: old(self).next_sequence_spec(),
                timestamp: now_ms,
                signature: Seq::empty(),
                ..orig
            });
        }
        let signing = encode_audit_signing_bytes(&entry);
        let signature = self.crypto.sign_log_entry(signing.as_slice());
        let ghost cleared = entry@;
        entry.signature = signature;
        let ghost stamped = entry@;
        proof {
            assert(cleared == AuditEntryView { signature: Seq::empty(), ..stamped });
        }
        let entry_id = self.next_entry_id;
        self.next_entry_id = self.next_entry_id + 1;
        self.next_sequence = self.next_sequence + 1;
        let alerts_before = self.alerts.len();
        match self.compliance_engine.check_compliance(
            &entry,
            &mut self.alerts,
            self.next_alert_id,
            now_ms,
        ) {
            Ok(()) => {},
            Err(e) => {
                proof {
                    assert(false);
                }
                return Err(e);
            },
        }
        let fired = self.alerts.len() - alerts_before;
        self.next_alert_id = self.next_alert_id + (fired as u64);
        let ghost old_entries = self.entries_spec();
        self.audit_store.push(entry);
        proof {
            assert(self.entries_spec() =~= old_entries.push(stamped));
        }
        if self.audit_store.len() > self.max_entries {
            self.enforce_retention_policy(now_ms);
        }
        Ok(entry_id)
    }

    /// Applies retention: entries that are neither recent nor prioritized are
    /// dropped; if the store is still over its bound, the oldest
    /// non-prioritized entries go first, then the oldest outright.  The
    /// surviving entries keep their order.
    #[verifier::loop_isolation(false)]
    #[verifier::rlimit(100)]
    pub fn enforce_retention_policy(&mut self, now_ms: u64)
        requires
            old(self).wf(),
        ensures
            final(self).wf(),
            final(self).entries_spec() == spec_evict(
                old(self).entries_spec().filter(
                    |e: AuditEntryView| spec_preserved(
                        e,
                        now_ms,
                        final(self).retention_max_age_spec(),
                        final(self).prioritized_events_spec(),
                    ),
                ),
                final(self).prioritized_events_spec(),
                old(self).max_entries_spec() as int,
            ),
            final(self).alerts_spec() == old(self).alerts_spec(),
            final(self).max_entries_spec() == old(self).max_entries_spec(),
            final(self).next_entry_id_spec() == old(self).next_entry_id_spec(),
            final(self).next_sequence_spec() == old(self).next_sequence_spec(),
            final(self).next_alert_id_spec() == old(self).next_alert_id_spec(),
            final(self).retention_max_age_spec() == old(self).retention_max_age_spec(),
            final(self).prioritized_events_spec() == old(self).prioritized_events_spec(),
            final(self).verifying_key_spec() == old(self).verifying_key_spec(),
    {
        let ghost old_views = self.entries_spec();
        let ghost prio = self.retention_policy.prioritized_events@;
        let ghost pred = |e: AuditEntryView| spec_preserved(
            e,
            now_ms,
            self.retention_policy.max_age_ms,
            self.retention_policy.prioritized_events@,
        );
        let max_age = self.retention_policy.max_age_ms;
        let n = self.audit_store.len();
        let mut kept: Vec<AuditEntry> = Vec::new();
        let mut i: usize = 0;
        proof {
            assert(old_views.subrange(0, 0).filter(pred) =~= Seq::<AuditEntryView>::empty());
            assert(spec_entries_view(kept@) =~= Seq::<AuditEntryView>::empty());
        }
        while i < n
            invariant
                0 <= i <= n,
                n == self.audit_store@.len(),
                self.audit_store@ == old(self).audit_store@,
                spec_entries_view(kept@) == old_views.subrange(0, i as int).filter(pred),
                forall|k: int|
                    0 <= k < kept@.len() ==> spec_audit_entry_wf((#[trigger] kept@[k])@)
                        && kept@[k]@.signature.len() == 64 && crate::crypto::ed25519_verifies(
                        self.verifying_key_spec(),
                        spec_audit_signing_bytes(
                            AuditEntryView { signature: Seq::empty(), ..kept@[k]@ },
                        ),
                        kept@[k]@.signature,
                    ),
            decreases n - i,
        {
            let ghost prefix = old_views.subrange(0, i as int);
            let ghost single = seq![old_views[i as int]];
            let ghost kept_view = spec_entries_view(kept@);
            let e = &self.audit_store[i];
            let recent = now_ms <= saturating_add_u64(e.timestamp, max_age);
            let keep = recent || (severity_rank(&e.severity) >= 3
                && crate::compliance::contains_event(
                &self.retention_policy.prioritized_events,
                &e.event_type,
            ));
            proof {
                assert(self.audit_store@[i as int]@ == old_views[i as int]);
                assert(keep == pred(old_views[i as int]));
            }
            if keep {
                kept.push(self.audit_store[i].clone());
                proof {
                    reveal_with_fuel(Seq::filter, 3);
                    assert(old_views.subrange(0, i + 1) =~= prefix + single);
                    Seq::filter_distributes_over_add(prefix, single, pred);
                    assert(single.drop_last() =~= Seq::<AuditEntryView>::empty());
                    assert(single.filter(pred) =~= Seq::<AuditEntryView>::empty().push(
                        old_views[i as int],
                    ));
                    assert(spec_entries_view(kept@) =~= kept_view.push(old_views[i as int]));
                    assert(old_views.subrange(0, i + 1).filter(pred) =~= kept_view.push(
                        old_views[i as int],
                    ));
                }
            } else {
                proof {
                    reveal_with_fuel(Seq::filter, 3);
                    assert(old_views.subrange(0, i + 1) =~= prefix + single);
                    Seq::filter_distributes_over_add(prefix, single, pred);
                    assert(single.drop_last() =~= Seq::<AuditEntryView>::empty());
                    assert(single.filter(pred) =~= Seq::<AuditEntryView>::empty());
                    assert(old_views.subrange(0, i + 1).filter(pred) =~= kept_view);
                }
            }
            i = i + 1;
        }
        proof {
            assert(old_views.subrange(0, n as int) =~= old_views);
        }
        self.audit_store = kept;
        let ghost pass1 = old_views.filter(pred);
        while self.audit_store.len() > self.max_entries
            invariant
                spec_evict(self.entries_spec(), prio, self.max_entries as int) == spec_evict(
                    pass1,
                    prio,
                    self.max_entries as int,
                ),
                forall|k: int|
                    0 <= k < self.audit_store@.len() ==> spec_audit_entry_wf(
                        (#[trigger] self.audit_store@[k])@,
                    ) && self.audit_store@[k]@.signature.len() == 64
                        && crate::crypto::ed25519_verifies(
                        self.verifying_key_spec(),
                        spec_audit_signing_bytes(
                            AuditEntryView { signature: Seq::empty(), ..self.audit_store@[k]@ },
                        ),
                        self.audit_store@[k]@.signature,
                    ),
                self.max_entries == old(self).max_entries_spec(),
                self.crypto == old(self).crypto,
                self.alerts@ == old(self).alerts_spec(),
                self.retention_policy == old(self).retention_policy,
                self.next_entry_id == old(self).next_entry_id_spec(),
                self.next_sequence == old(self).next_sequence_spec(),
                self.next_alert_id == old(self).next_alert_id_spec(),
            decreases self.audit_store@.len(),
        {
            let ghost cur = self.entries_spec();
            let drop_idx = match self.find_droppable() {
                Some(j) => j,
                None => 0,
            };
            proof {
                lemma_first_droppable(cur, prio);
            }
            self.audit_store.remove(drop_idx);
            proof {
                assert(self.entries_spec() =~= cur.remove(drop_idx as int));
                assert(spec_evict(cur, prio, self.max_entries as int) == spec_evict(
                    self.entries_spec(),
                    prio,
                    self.max_entries as int,
                ));
                assert forall|k: int|
                    0 <= k < self.audit_store@.len() implies spec_audit_entry_wf(
                    (#[trigger] self.audit_store@[k])@,
                ) && self.audit_store@[k]@.signature.len() == 64
                    && crate::crypto::ed25519_verifies(
                    self.verifying_key_spec(),
                    spec_audit_signing_bytes(
                        AuditEntryView { signature: Seq::empty(), ..self.audit_store@[k]@ },
                    ),
                    self.audit_store@[k]@.signature,
                ) by {
                    if k < drop_idx as int {
                        assert(self.audit_store@[k]@ == cur[k]);
                    } else {
                        assert(self.audit_store@[k]@ == cur[k + 1]);
                    }
                }
            }
        }
        proof {
            assert(spec_evict(self.entries_spec(), prio, self.max_entries as int)
                == self.entries_spec());
        }
    }

    /// Index of the oldest stored entry that is not high-severity and
    /// prioritized.
    fn find_droppable(&self) -> (r: Option<usize>)
        ensures
            match r {
                Some(j) => spec_first_droppable(
                    self.entries_spec(),
                    self.prioritized_events_spec(),
                ) == Some(j as int),
                None => spec_first_droppable(
                    self.entries_spec(),
                    self.prioritized_events_spec(),
                ) is None,
            },
    {
        let ghost views = self.entries_spec();
        let ghost prio = self.retention_policy.prioritized_events@;
        proof {
            lemma_first_droppable(views, prio);
        }
        let n = self.audit_store.len();
        let mut i: usize = 0;
        while i < n
            invariant
                0 <= i <= n,
                n == self.audit_store@.len(),
                views == self.entries_spec(),
                prio == self.retention_policy.prioritized_events@,
                forall|j: int| 0 <= j < i ==> spec_prioritized(#[trigger] views[j], prio),
            decreases n - i,
        {
            let e = &self.audit_store[i];
            let prioritized = severity_rank(&e.severity) >= 3 && crate::compliance::contains_event(
                &self.retention_policy.prioritized_events,
                &e.event_type,
            );
            proof {
                assert(self.audit_store@[i as int]@ == views[i as int]);
            }
            if !prioritized {
                proof {
                    lemma_first_droppable(views, prio);
                    match spec_first_droppable(views, prio) {
                        Some(k) => {
                            if k < i as int {
                                assert(spec_prioritized(views[k], prio));
                                assert(false);
                            } else if k > i as int {
                                assert(spec_prioritized(views[i as int], prio));
                                assert(false);
                            }
                        },
                        None => {
                            assert(spec_prioritized(views[i as int], prio));
                            assert(false);
                        },
                    }
                }
                return Some(i);
            }
            i = i + 1;
        }
        proof {
            lemma_first_droppable(views, prio);
            match spec_first_droppable(views, prio) {
                Some(k) => {
                    assert(spec_prioritized(views[k], prio));
                    assert(!spec_prioritized(views[k], prio));
                },
                None => {},
            }
        }
        None
    }

    /// Entries matching the query, oldest first, cut to the query's limit.
    #[verifier::loop_isolation(false)]
    pub fn query_audit(&self, query: &AuditQuery) -> (r: Vec<AuditEntry>)
        ensures
            ({
                let all = self.entries_spec().filter(|e: AuditEntryView| spec_matches_query(e, query));
                match query.limit {
                    Some(l) => spec_entries_view(r@) == all.take(
                        if all.len() <= l {
                            all.len() as int
                        } else {
                            l as int
                        },
                    ),
                    None => spec_entries_view(r@) == all,
                }
            }),
    {
        let ghost pred = |e: AuditEntryView| spec_matches_query(e, query);
        let ghost views = self.entries_spec();
        let n = self.audit_store.len();
        let mut out: Vec<AuditEntry> = Vec::new();
        let mut i: usize = 0;
        proof {
            assert(views.subrange(0, 0).filter(pred) =~= Seq::<AuditEntryView>::empty());
            assert(spec_entries_view(out@) =~= Seq::<AuditEntryView>::empty());
        }
        while i < n
            invariant
                0 <= i <= n,
                n == self.audit_store@.len(),
                spec_entries_view(out@) == views.subrange(0, i as int).filter(pred),
            decreases n - i,
        {
            let ghost prefix = views.subrange(0, i as int);
            let ghost single = seq![views[i as int]];
            let ghost out_view = spec_entries_view(out@);
            let m = matches_query(&self.audit_store[i], query);
            proof {
                assert(self.audit_store@[i as int]@ == views[i as int]);
                reveal_with_fuel(Seq::filter, 3);
                assert(views.subrange(0, i + 1) =~= prefix + single);
                Seq::filter_distributes_over_add(prefix, single, pred);
                assert(single.drop_last() =~= Seq::<AuditEntryView>::empty());
            }
            if m {
                out.push(self.audit_store[i].clone());
                proof {
                    assert(single.filter(pred) =~= Seq::<AuditEntryView>::empty().push(
                        views[i as int],
                    ));
                    assert(spec_entries_view(out@) =~= out_view.push(views[i as int]));
                    assert(views.subrange(0, i + 1).filter(pred) =~= out_view.push(
                        views[i as int],
                    ));
                }
            } else {
                proof {
                    assert(single.filter(pred) =~= Seq::<AuditEntryView>::empty());
                    assert(views.subrange(0, i + 1).filter(pred) =~= out_view);
                }
            }
            i = i + 1;
        }
        proof {
            assert(views.subrange(0, n as int) =~= views);
        }
        match query.limit {
            None => out,
            Some(l) => {
                let ghost full = spec_entries_view(out@);
                while out.len() > l
                    invariant
                        out@.len() <= full.len(),
                        out@.len() >= (if full.len() <= l as int {
                            full.len() as int
                        } else {
                            l as int
                        }),
                        spec_entries_view(out@) == full.take(out@.len() as int),
                    decreases out@.len(),
                {
                    let ghost before = spec_entries_view(out@);
                    out.pop();
                    proof {
                        assert(spec_entries_view(out@) =~= before.take(out@.len() as int));
                        assert(before.take(out@.len() as int) =~= full.take(out@.len() as int));
                    }
                }
                proof {
                    let all = views.filter(pred);
                    if all.len() <= l {
                        assert(all.take(all.len() as int) =~= all);
                    }
                }
                out
            },
        }
    }

    /// The alerts still open: active or under investigation.
    #[verifier::loop_isolation(false)]
    pub fn get_active_alerts(&self) -> (r: Vec<crate::compliance::SecurityAlert>)
        ensures
            r@.len() == self.alerts_spec().filter(
                |a: crate::compliance::SecurityAlert| a.status
                    == crate::compliance::AlertStatus::Active || a.status
                    == crate::compliance::AlertStatus::Investigating,
            ).len(),
            forall|i: int|
                0 <= i < r@.len() ==> crate::compliance::spec_alert_eq(
                    #[trigger] r@[i],
                    self.alerts_spec().filter(
                        |a: crate::compliance::SecurityAlert| a.status
                            == crate::compliance::AlertStatus::Active || a.status
                            == crate::compliance::AlertStatus::Investigating,
                    )[i],
                ),
            forall|i: int|
                0 <= i < r@.len() ==> (#[trigger] r@[i]).status
                    == crate::compliance::AlertStatus::Active || r@[i].status
                    == crate::compliance::AlertStatus::Investigating,
    {
        let ghost pred = |a: crate::compliance::SecurityAlert| a.status
            == crate::compliance::AlertStatus::Active || a.status
            == crate::compliance::AlertStatus::Investigating;
        let n = self.alerts.len();
        let mut out: Vec<crate::compliance::SecurityAlert> = Vec::new();
        let mut i: usize = 0;
        proof {
            assert(self.alerts@.subrange(0, 0).filter(pred) =~= Seq::<
                crate::compliance::SecurityAlert,
            >::empty());
        }
        while i < n
            invariant
                0 <= i <= n,
                n == self.alerts@.len(),
                out@.len() == self.alerts@.subrange(0, i as int).filter(pred).len(),
                forall|k: int|
                    0 <= k < out@.len() ==> crate::compliance::spec_alert_eq(
                        #[trigger] out@[k],
                        self.alerts@.subrange(0, i as int).filter(pred)[k],
                    ),
                forall|k: int|
                    0 <= k < out@.len() ==> (#[trigger] out@[k]).status
                        == crate::compliance::AlertStatus::Active || out@[k].status
                        == crate::compliance::AlertStatus::Investigating,
            decreases n - i,
        {
            let ghost prefix = self.alerts@.subrange(0, i as int);
            let ghost single = seq![self.alerts@[i as int]];
            let ghost out_prev = out@;
            let a = &self.alerts[i];
            let is_open = match a.status {
                crate::compliance::AlertStatus::Active => true,
                crate::compliance::AlertStatus::Investigating => true,
                _ => false,
            };
            proof {
                reveal_with_fuel(Seq::filter, 3);
                assert(self.alerts@.subrange(0, i + 1) =~= prefix + single);
                Seq::filter_distributes_over_add(prefix, single, pred);
                assert(single.drop_last() =~= Seq::<crate::compliance::SecurityAlert>::empty());
                if pred(self.alerts@[i as int]) {
                    assert(single.filter(pred) =~= Seq::<
                        crate::compliance::SecurityAlert,
                    >::empty().push(self.alerts@[i as int]));
                } else {
                    assert(single.filter(pred) =~= Seq::<
                        crate::compliance::SecurityAlert,
                    >::empty());
                }
            }
            if is_open {
                out.push(a.clone());
                proof {
                    let cur = self.alerts@.subrange(0, i + 1).filter(pred);
                    assert(cur =~= prefix.filter(pred).push(self.alerts@[i as int]));
                    assert forall|k: int| 0 <= k < out@.len() implies
                        crate::compliance::spec_alert_eq(#[trigger] out@[k], cur[k]) by {
                        if k < out_prev.len() {
                            assert(out@[k] == out_prev[k]);
                            assert(cur[k] == prefix.filter(pred)[k]);
                        } else {
                            assert(out@[k] == out@.last());
                            assert(cur[k] == self.alerts@[i as int]);
                        }
                    }
                }
            }
            i = i + 1;
        }
        proof {
            assert(self.alerts@.subrange(0, n as int) =~= self.alerts@);
        }
        out
    }

    /// Moves an alert along its lifecycle; a step outside the lifecycle is
    /// refused and changes nothing.
    pub fn update_alert_status(&mut self, alert_id: u64, new_status: crate::compliance::AlertStatus) -> (r: Result<(), crate::compliance::AuditError>)
        requires
            old(self).wf(),
        ensures
            final(self).wf(),
            final(self).entries_spec() == old(self).entries_spec(),
            final(self).alerts_spec().len() == old(self).alerts_spec().len(),
            ({
                match spec_find_alert(old(self).alerts_spec(), alert_id) {
                    None => r == Err::<(), crate::compliance::AuditError>(
                        crate::compliance::AuditError::AlertNotFound,
                    ) && final(self).alerts_spec() == old(self).alerts_spec(),
                    Some(i) => {
                        let from = old(self).alerts_spec()[i].status;
                        &&& (crate::compliance::spec_alert_transition_ok(from, new_status) ==> r
                            is Ok && final(self).alerts_spec() == old(self).alerts_spec().update(
                            i,
                            (crate::compliance::SecurityAlert {
                                status: new_status,
                                ..old(self).alerts_spec()[i]
                            }),
                        ))
                        &&& (!crate::compliance::spec_alert_transition_ok(from, new_status) ==> r
                            == Err::<(), crate::compliance::AuditError>(
                            crate::compliance::AuditError::InvalidStatusTransition,
                        ) && final(self).alerts_spec() == old(self).alerts_spec())
                    },
                }
            }),
    {
        let n = self.alerts.len();
        let mut i: usize = 0;
        while i < n
            invariant
                old(self).wf(),
                *self == *old(self),
                n == self.alerts@.len(),
                0 <= i <= n,
                forall|j: int| 0 <= j < i ==> (#[trigger] self.alerts@[j]).alert_id != alert_id,
            decreases n - i,
        {
            if self.alerts[i].alert_id == alert_id {
                let allowed = {
                    let from = self.alerts[i].status;
                    match (from, new_status) {
                        (
                            crate::compliance::AlertStatus::Active,
                            crate::compliance::AlertStatus::Investigating,
                        ) => true,
                        (
                            crate::compliance::AlertStatus::Investigating,
                            crate::compliance::AlertStatus::Mitigated,
                        ) => true,
                        (
                            crate::compliance::AlertStatus::Investigating,
                            crate::compliance::AlertStatus::Resolved,
                        ) => true,
                        (
                            crate::compliance::AlertStatus::Investigating,
                            crate::compliance::AlertStatus::FalsePositive,
                        ) => true,
                        (
                            crate::compliance::AlertStatus::Investigating,
                            crate::compliance::AlertStatus::Escalated,
                        ) => true,
                        _ => false,
                    }
                };
                proof {
                    assert(0 <= i < old(self).alerts_spec().len() && (#[trigger] old(
                        self,
                    ).alerts_spec()[i as int]).alert_id == alert_id);
                    lemma_find_alert_at(old(self).alerts_spec(), alert_id, i as int);
                    assert(allowed == crate::compliance::spec_alert_transition_ok(
                        old(self).alerts_spec()[i as int].status,
                        new_status,
                    ));
                }
                if !allowed {
                    return Err(crate::compliance::AuditError::InvalidStatusTransition);
                }
                let ghost old_alerts = self.alerts@;
                let mut a = self.alerts.remove(i);
                a.status = new_status;
                self.alerts.insert(i, a);
                proof {
                    assert(self.alerts@ =~= old_alerts.update(i as int, a));
                    assert(self.alerts@[i as int].status == new_status);
                    assert(a == (crate::compliance::SecurityAlert {
                        status: new_status,
                        ..old_alerts[i as int]
                    }));
                }
                return Ok(());
            }
            i = i + 1;
        }
        proof {
            lemma_find_alert_none(old(self).alerts_spec(), alert_id);
        }
        Err(crate::compliance::AuditError::AlertNotFound)
    }
}

/// `a + b`, saturating at the top of `u64`.
fn saturating_add_u64(a: u64, b: u64) -> (r: u64)
    ensures
        r == a + b || (a + b > u64::MAX && r == u64::MAX),
{
    if a > u64::MAX - b {
        u64::MAX
    } else {
        a + b
    }
}

} // verus!
