//! The contracts at the runtime's edges: the event record (the unit of history and replay)
//! and the reasoning boundary's request/response shapes.
use vstd::prelude::*;
use crate::domain::{
    Assumption, Board, BomLineItem, ClockDomain, Component, Constraint, Decision, DesignIntent,
    Discharge, EntityId, Evidence, FunctionalBlock, ModelFidelity, Net, Objective, Part, Pin,
    Placement, PowerDomain, Ppm, Priority, ProvenanceLink, Quantity, Requirement,
    RequirementCategory, Risk, Track, Tradeoff, Violation, Waiver,
};

verus! {

/// Monotonic event sequence number — the address of a fact in history.
pub type EventSeq = u64;

/// Wall-clock instant (unix epoch milliseconds). Recorded in every event and never re-read
/// on replay.
#[derive(Debug, Clone, Copy, PartialEq, Eq, Structural, PartialOrd, Ord, Hash)]
pub struct Timestamp(pub i64);

/// An event with its assigned position and recorded time.
#[derive(Debug)]
pub struct EventRecord {
    pub seq: EventSeq,
    pub timestamp: Timestamp,
    pub event: Event,
}

/// Every design-significant change. Entity-bearing variants are state deltas (folded into
/// the engineering state); the rest are audit and provenance markers.
#[derive(Debug)]
pub enum Event {
    PhaseEntered { phase: String, state: String },
    PhaseStateChanged { phase: String, from: String, to: String },
    PhaseCompleted { phase: String, outcome: String },
    PhaseFailed { phase: String, reason: String },
    ReasoningCall { request: ReasoningRequest, response: ReasoningResponse },
    IntentCaptured { intent: DesignIntent },
    EvidenceReferenced { evidence: Evidence },
    DecisionCreated { decision: Decision },
    RequirementCommitted { requirement: Requirement },
    ProvenanceLinked { link: ProvenanceLink },
    ConstraintCommitted { constraint: Constraint },
    ViolationRaised { violation: Violation },
    WaiverGranted { waiver: Waiver },
    ConstraintsExtracted { count: usize },
    VerificationCompleted { rule_count: usize, open_violations: usize },
    FunctionalBlockCommitted { block: FunctionalBlock },
    ComponentCommitted { component: Component },
    PinCommitted { pin: Pin },
    NetCommitted { net: Net },
    PartCommitted { part: Part },
    BomLineItemCommitted { item: BomLineItem },
    RequirementIrProduced { schema_version: u32, requirement_count: usize },
    EngineeringIrProduced { schema_version: u32, block_count: usize },
    SchematicIrProduced { schema_version: u32, net_count: usize },
    BomIrProduced { schema_version: u32, line_item_count: usize },
    BoardCommitted { board: Board },
    PlacementCommitted { placement: Placement },
    TrackCommitted { track: Track },
    PcbIrProduced { schema_version: u32, placement_count: usize },
    PcbIrEnriched { schema_version: u32, track_count: usize },
    ManufacturingGenerated {
        schema_version: u32,
        place_count: usize,
        copper_count: usize,
        line_item_count: usize,
    },
    /// Advisory explanation of one raised violation; folds into its own store and never
    /// touches the violation.
    ViolationExplained {
        violation: EntityId,
        explanation: String,
        suggested_fix: String,
        reasoning_call_seq: EventSeq,
    },
    AssumptionRaised { assumption: Assumption },
    AssumptionDischarged { assumption: EntityId, discharge: Discharge },
    /// Advisory trust-tag on a derived fact; folds into its own store.
    FidelityTagged {
        target: EntityId,
        fidelity: ModelFidelity,
        reasoning_call_seq: Option<EventSeq>,
    },
    RiskRaised { risk: Risk },
    RiskAccepted { risk: EntityId, accepted_by: String },
    ObjectiveRecorded { objective: Objective },
    TradeoffRecorded { tradeoff: Tradeoff },
    PowerDomainCommitted { domain: PowerDomain },
    ClockDomainCommitted { domain: ClockDomain },
}

#[derive(Debug, Clone, PartialEq, Eq)]
pub enum StoreError {
    Io(String),
    Serialization(String),
}

/// A structured request for judgement; `temperature` is a ratio in parts per million.
#[derive(Debug)]
pub struct ReasoningRequest {
    pub model_id: String,
    pub system: String,
    pub prompt: String,
    pub schema_name: String,
    pub temperature: Ppm,
    pub seed: u64,
}

/// One candidate requirement proposed by the reasoning engine — judgement only.
#[derive(Debug)]
pub struct CandidateRequirement {
    pub statement: String,
    pub category: RequirementCategory,
    pub priority: Priority,
    pub acceptance_criterion: String,
    pub source_hint: String,
    pub confidence: Ppm,
    pub rationale: String,
    pub targets: Vec<Quantity>,
}

/// One advisory explanation of a raised violation — stored verbatim as metadata, never
/// validated at a seam and never gating a phase.
#[derive(Debug, PartialEq, Eq)]
pub struct CandidateExplanation {
    pub explanation: String,
    pub suggested_fix: String,
}

/// One candidate part selection — an untrusted claim re-validated against the catalog.
#[derive(Debug)]
pub struct CandidatePart {
    pub component_class: String,
    pub mpn: String,
    pub rationale: String,
    pub confidence: Ppm,
}

#[derive(Debug)]
pub struct ReasoningResponse {
    pub candidates: Vec<CandidateRequirement>,
    pub explanations: Vec<CandidateExplanation>,
    pub part_candidates: Vec<CandidatePart>,
    pub clarifying_questions: Vec<String>,
    pub raw: String,
}

#[derive(Debug, Clone, PartialEq, Eq)]
pub enum ReasoningError {
    Provider(String),
    Schema(String),
    Unavailable,
}

} // verus!
