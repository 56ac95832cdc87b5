//! The agent runtime protocol: what an agent is told when activated, what it reports, and
//! the capability requests through which alone it may propose mutations.
use vstd::prelude::*;
use vstd::string::StringExecFns;
use crate::domain::{
    Assumption, Board, BomLineItem, ClockDomain, Component, Constraint, Decision, Discharge,
    EntityId, Evidence, FunctionalBlock, Net, Objective, Part, Pin, Placement, PowerDomain,
    ProvenanceLink, Requirement, Risk, Track, Tradeoff, Violation, Waiver,
};
use crate::ports::EventSeq;

verus! {

/// Autonomy level. `Supervised` is modelled, but its human-approval path is deferred, so
/// approval-requiring requests are refused under it.
#[derive(Debug, Clone, Copy, PartialEq, Eq, Structural)]
pub enum Autonomy {
    Autonomous,
    Supervised,
}

#[derive(Debug, Clone, Copy)]
pub struct Budget {
    pub max_reasoning_calls: u32,
}

/// What the execution engine tells an agent when it activates it.
#[derive(Debug)]
pub struct AgentActivation {
    pub phase: String,
    pub goal: String,
    pub budget: Budget,
}

#[derive(Debug, PartialEq)]
pub enum AgentOutcome {
    Success { committed: usize },
    NeedsHuman(String),
    Failed(String),
}

/// What one step of a phase's state machine leads to.
#[derive(Debug, PartialEq)]
pub enum StepResult {
    /// Go on in the named state.
    Continue(String),
    /// The phase is done.
    Done,
    /// The phase failed, with the reason.
    Failed(String),
}

/// A fault of the machine itself, as opposed to a failed phase.
#[derive(Debug, PartialEq)]
pub enum MachineError {
    Internal(String),
}

/// A proposed mutation — the only way an agent acts on the design. The runtime re-validates,
/// records and applies it.
#[derive(Debug)]
pub enum CapabilityRequest {
    CreateRequirement {
        requirement: Requirement,
        decision: Decision,
        evidence: Vec<Evidence>,
        links: Vec<ProvenanceLink>,
    },
    CreateConstraint { constraint: Constraint, links: Vec<ProvenanceLink> },
    RaiseViolation { violation: Violation, links: Vec<ProvenanceLink> },
    GrantWaiver { waiver: Waiver },
    CreateFunctionalBlock { block: FunctionalBlock, links: Vec<ProvenanceLink> },
    RealizeComponent { component: Component, pins: Vec<Pin>, links: Vec<ProvenanceLink> },
    CreateNet { net: Net, links: Vec<ProvenanceLink> },
    CreatePart { part: Part, links: Vec<ProvenanceLink> },
    CreateBomLineItem { item: BomLineItem, links: Vec<ProvenanceLink> },
    CreateBoard { board: Board, links: Vec<ProvenanceLink> },
    PlaceComponent { placement: Placement, links: Vec<ProvenanceLink> },
    RouteNet { track: Track, links: Vec<ProvenanceLink> },
    RaiseAssumption { assumption: Assumption, links: Vec<ProvenanceLink> },
    DischargeAssumption { assumption: EntityId, discharge: Discharge },
    RaiseRisk { risk: Risk, links: Vec<ProvenanceLink> },
    AcceptRisk { risk: EntityId, accepted_by: String },
    RecordObjective { objective: Objective, links: Vec<ProvenanceLink> },
    RecordTradeoff { tradeoff: Tradeoff, links: Vec<ProvenanceLink> },
    CreatePowerDomain { domain: PowerDomain, links: Vec<ProvenanceLink> },
    CreateClockDomain { domain: ClockDomain, links: Vec<ProvenanceLink> },
}

#[derive(Debug, Clone, PartialEq, Eq)]
pub enum CapabilityError {
    Rejected(String),
}

impl CapabilityError {
    /// The human-readable description: `capability rejected: ` and the seam's reason.
    pub fn message(&self) -> (r: String)
        ensures
            r@ == match self {
                CapabilityError::Rejected(m) => "capability rejected: "@ + m@,
            },
    {
        match self {
            CapabilityError::Rejected(m) => {
                let mut s = "capability rejected: ".to_owned();
                s.append(m.as_str());
                s
            },
        }
    }
}

/// The sequence numbers of the events a capability committed.
#[derive(Debug, Clone, PartialEq)]
pub struct CapabilityAck {
    pub committed: Vec<EventSeq>,
}

} // verus!
