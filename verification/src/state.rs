//! Engineering State — the runtime's model, built by folding the event log. The same fold
//! runs live and during [`replay`], so a run and its replay reconstruct the same state.
use vstd::prelude::*;
use crate::domain::{
    Assumption, AssumptionStatus, Board, BomLineItem, ClockDomain, Component, Constraint,
    Decision, DesignIntent, EntityId, Evidence, FunctionalBlock, ModelFidelity, Net, Objective,
    Part, Pin, Placement, PowerDomain, ProvenanceLink, Requirement, Risk, RiskSeverity,
    RiskStatus, Track, Tradeoff, Violation, ViolationStatus, Waiver,
};
use crate::ports::{Event, EventRecord, EventSeq};
use crate::views::{
    BoardView, BomLineItemView, ClockDomainView, DecisionView, FunctionalBlockView, NetView,
    PowerDomainView, RequirementView, TradeoffView, ViolationView,
};

verus! {

/// Advisory, model-authored review metadata attached to a raised violation. It carries no id
/// of its own and never affects the violation it describes.
#[derive(Debug)]
pub struct ViolationExplanation {
    pub violation: EntityId,
    pub explanation: String,
    pub suggested_fix: String,
    pub reasoning_call_seq: EventSeq,
}

/// An advisory fidelity trust-tag attached to a derived fact; it never mutates its target.
#[derive(Debug)]
pub struct FidelityTag {
    pub target: EntityId,
    pub fidelity: ModelFidelity,
    pub reasoning_call_seq: Option<EventSeq>,
}

/// Everything the runtime knows about a design, in insertion (event) order.
#[derive(Debug)]
pub struct EngineeringState {
    pub intent: Option<DesignIntent>,
    pub requirements: Vec<Requirement>,
    pub decisions: Vec<Decision>,
    pub evidence: Vec<Evidence>,
    pub links: Vec<ProvenanceLink>,
    pub constraints: Vec<Constraint>,
    pub violations: Vec<Violation>,
    pub waivers: Vec<Waiver>,
    pub functional_blocks: Vec<FunctionalBlock>,
    pub components: Vec<Component>,
    pub pins: Vec<Pin>,
    pub nets: Vec<Net>,
    pub parts: Vec<Part>,
    pub bom_line_items: Vec<BomLineItem>,
    pub board: Option<Board>,
    pub placements: Vec<Placement>,
    pub tracks: Vec<Track>,
    pub violation_explanations: Vec<ViolationExplanation>,
    pub assumptions: Vec<Assumption>,
    pub fidelity_tags: Vec<FidelityTag>,
    pub risks: Vec<Risk>,
    pub objectives: Vec<Objective>,
    pub tradeoffs: Vec<Tradeoff>,
    pub power_domains: Vec<PowerDomain>,
    pub clock_domains: Vec<ClockDomain>,
}

/// The mathematical value of an [`EngineeringState`].
pub struct StateView {
    pub intent: Option<DesignIntent>,
    pub requirements: Seq<RequirementView>,
    pub decisions: Seq<DecisionView>,
    pub evidence: Seq<Evidence>,
    pub links: Seq<ProvenanceLink>,
    pub constraints: Seq<Constraint>,
    pub violations: Seq<ViolationView>,
    pub waivers: Seq<Waiver>,
    pub functional_blocks: Seq<FunctionalBlockView>,
    pub components: Seq<Component>,
    pub pins: Seq<Pin>,
    pub nets: Seq<NetView>,
    pub parts: Seq<Part>,
    pub bom_line_items: Seq<BomLineItemView>,
    pub board: Option<BoardView>,
    pub placements: Seq<Placement>,
    pub tracks: Seq<Track>,
    pub violation_explanations: Seq<ViolationExplanation>,
    pub assumptions: Seq<Assumption>,
    pub fidelity_tags: Seq<FidelityTag>,
    pub risks: Seq<Risk>,
    pub objectives: Seq<Objective>,
    pub tradeoffs: Seq<TradeoffView>,
    pub power_domains: Seq<PowerDomainView>,
    pub clock_domains: Seq<ClockDomainView>,
}

pub open spec fn opt_board_view(b: Option<Board>) -> Option<BoardView> {
    match b {
        Some(x) => Some(x@),
        None => None,
    }
}

impl View for EngineeringState {
    type V = StateView;

    open spec fn view(&self) -> StateView {
        StateView {
            intent: self.intent,
            requirements: self.requirements@.map_values(|x: Requirement| x@),
            decisions: self.decisions@.map_values(|x: Decision| x@),
            evidence: self.evidence@,
            links: self.links@,
            constraints: self.constraints@,
            violations: self.violations@.map_values(|x: Violation| x@),
            waivers: self.waivers@,
            functional_blocks: self.functional_blocks@.map_values(|x: FunctionalBlock| x@),
            components: self.components@,
            pins: self.pins@,
            nets: self.nets@.map_values(|x: Net| x@),
            parts: self.parts@,
            bom_line_items: self.bom_line_items@.map_values(|x: BomLineItem| x@),
            board: opt_board_view(self.board),
            placements: self.placements@,
            tracks: self.tracks@,
            violation_explanations: self.violation_explanations@,
            assumptions: self.assumptions@,
            fidelity_tags: self.fidelity_tags@,
            risks: self.risks@,
            objectives: self.objectives@,
            tradeoffs: self.tradeoffs@.map_values(|x: Tradeoff| x@),
            power_domains: self.power_domains@.map_values(|x: PowerDomain| x@),
            clock_domains: self.clock_domains@.map_values(|x: ClockDomain| x@),
        }
    }
}

/// A sequence of references that points, in order, at exactly the given values.
pub open spec fn refers_to<T>(r: Seq<&T>, s: Seq<T>) -> bool {
    r.len() == s.len() && forall|k: int| 0 <= k < r.len() ==> *r[k] == s[k]
}

/// Filtering one more element of a prefix.
pub proof fn lemma_take_filter<T>(v: Seq<T>, i: int, pred: spec_fn(T) -> bool)
    requires
        0 <= i < v.len(),
    ensures
        v.take(i + 1).filter(pred) == if pred(v[i]) {
            v.take(i).filter(pred).push(v[i])
        } else {
            v.take(i).filter(pred)
        },
{
    assert(v.take(i + 1) =~= v.take(i).push(v[i]));
    v.take(i).lemma_filter_push(v[i], pred);
}

/// The state before any event.
pub open spec fn empty_state() -> StateView {
    StateView {
        intent: None,
        requirements: Seq::empty(),
        decisions: Seq::empty(),
        evidence: Seq::empty(),
        links: Seq::empty(),
        constraints: Seq::empty(),
        violations: Seq::empty(),
        waivers: Seq::empty(),
        functional_blocks: Seq::empty(),
        components: Seq::empty(),
        pins: Seq::empty(),
        nets: Seq::empty(),
        parts: Seq::empty(),
        bom_line_items: Seq::empty(),
        board: None,
        placements: Seq::empty(),
        tracks: Seq::empty(),
        violation_explanations: Seq::empty(),
        assumptions: Seq::empty(),
        fidelity_tags: Seq::empty(),
        risks: Seq::empty(),
        objectives: Seq::empty(),
        tradeoffs: Seq::empty(),
        power_domains: Seq::empty(),
        clock_domains: Seq::empty(),
    }
}

/// The first position at or after `i` whose id is `id`.
pub open spec fn first_from(ids: Seq<EntityId>, id: EntityId, i: nat) -> Option<nat>
    decreases ids.len() - i,
{
    if i >= ids.len() {
        None
    } else if ids[i as int] == id {
        Some(i)
    } else {
        first_from(ids, id, i + 1)
    }
}

/// The position of the first entry whose id is `id`.
pub open spec fn first_index(ids: Seq<EntityId>, id: EntityId) -> Option<nat> {
    first_from(ids, id, 0)
}

pub proof fn lemma_first_from(ids: Seq<EntityId>, id: EntityId, i: nat)
    ensures
        first_from(ids, id, i) matches Some(k) ==> i <= k < ids.len() && ids[k as int] == id
            && forall|j: int| i <= j < k ==> ids[j] != id,
        first_from(ids, id, i) is None ==> forall|j: int| i <= j < ids.len() ==> ids[j] != id,
    decreases ids.len() - i,
{
    if i < ids.len() && ids[i as int] != id {
        lemma_first_from(ids, id, i + 1);
    }
}

/// Whether some entry carries the id.
pub open spec fn has_id(ids: Seq<EntityId>, id: EntityId) -> bool {
    exists|j: int| 0 <= j < ids.len() && ids[j] == id
}

pub proof fn lemma_first_index(ids: Seq<EntityId>, id: EntityId)
    ensures
        first_index(ids, id) is Some <==> has_id(ids, id),
        first_index(ids, id) matches Some(k) ==> k < ids.len() && ids[k as int] == id,
{
    lemma_first_from(ids, id, 0);
}

pub open spec fn violation_ids(s: Seq<ViolationView>) -> Seq<EntityId> {
    s.map_values(|v: ViolationView| v.id)
}

pub open spec fn assumption_ids(s: Seq<Assumption>) -> Seq<EntityId> {
    s.map_values(|a: Assumption| a.id)
}

pub open spec fn risk_ids(s: Seq<Risk>) -> Seq<EntityId> {
    s.map_values(|r: Risk| r.id)
}

/// The violations after a waiver of `id`: the first one carrying the id becomes `Waived`.
pub open spec fn waive(vs: Seq<ViolationView>, id: EntityId) -> Seq<ViolationView> {
    match first_index(violation_ids(vs), id) {
        Some(i) => vs.update(i as int, ViolationView { status: ViolationStatus::Waived, ..vs[i as int] }),
        None => vs,
    }
}

/// The assumptions after discharging `id`: the first one carrying the id becomes
/// `Discharged` and records the discharge.
pub open spec fn discharge_in(
    a: Seq<Assumption>,
    id: EntityId,
    d: crate::domain::Discharge,
) -> Seq<Assumption> {
    match first_index(assumption_ids(a), id) {
        Some(i) => a.update(
            i as int,
            Assumption { status: AssumptionStatus::Discharged, discharge: Some(d), ..a[i as int] },
        ),
        None => a,
    }
}

/// The risks after accepting `id`: the first one carrying the id becomes `Accepted`.
pub open spec fn accept_in(rs: Seq<Risk>, id: EntityId) -> Seq<Risk> {
    match first_index(risk_ids(rs), id) {
        Some(i) => rs.update(i as int, Risk { status: RiskStatus::Accepted, ..rs[i as int] }),
        None => rs,
    }
}

/// Folding one event into the state. State-delta events change their store; audit events
/// leave the state as it is.
pub open spec fn apply_spec(s: StateView, e: Event) -> StateView {
    match e {
        Event::IntentCaptured { intent } => StateView { intent: Some(intent), ..s },
        Event::RequirementCommitted { requirement } => StateView {
            requirements: s.requirements.push(requirement@),
            ..s
        },
        Event::DecisionCreated { decision } => StateView {
            decisions: s.decisions.push(decision@),
            ..s
        },
        Event::EvidenceReferenced { evidence } => StateView {
            evidence: s.evidence.push(evidence),
            ..s
        },
        Event::ProvenanceLinked { link } => StateView { links: s.links.push(link), ..s },
        Event::ConstraintCommitted { constraint } => StateView {
            constraints: s.constraints.push(constraint),
            ..s
        },
        Event::ViolationRaised { violation } => StateView {
            violations: s.violations.push(violation@),
            ..s
        },
        Event::WaiverGranted { waiver } => StateView {
            violations: waive(s.violations, waiver.violation),
            waivers: s.waivers.push(waiver),
            ..s
        },
        Event::FunctionalBlockCommitted { block } => StateView {
            functional_blocks: s.functional_blocks.push(block@),
            ..s
        },
        Event::ComponentCommitted { component } => StateView {
            components: s.components.push(component),
            ..s
        },
        Event::PinCommitted { pin } => StateView { pins: s.pins.push(pin), ..s },
        Event::NetCommitted { net } => StateView { nets: s.nets.push(net@), ..s },
        Event::PartCommitted { part } => StateView { parts: s.parts.push(part), ..s },
        Event::BomLineItemCommitted { item } => StateView {
            bom_line_items: s.bom_line_items.push(item@),
            ..s
        },
        Event::BoardCommitted { board } => StateView { board: Some(board@), ..s },
        Event::PlacementCommitted { placement } => StateView {
            placements: s.placements.push(placement),
            ..s
        },
        Event::TrackCommitted { track } => StateView { tracks: s.tracks.push(track), ..s },
        Event::ViolationExplained { violation, explanation, suggested_fix, reasoning_call_seq } =>
        StateView {
            violation_explanations: s.violation_explanations.push(
                ViolationExplanation { violation, explanation, suggested_fix, reasoning_call_seq },
            ),
            ..s
        },
        Event::AssumptionRaised { assumption } => StateView {
            assumptions: s.assumptions.push(assumption),
            ..s
        },
        Event::AssumptionDischarged { assumption, discharge } => StateView {
            assumptions: discharge_in(s.assumptions, assumption, discharge),
            ..s
        },
        Event::FidelityTagged { target, fidelity, reasoning_call_seq } => StateView {
            fidelity_tags: s.fidelity_tags.push(
                FidelityTag { target, fidelity, reasoning_call_seq },
            ),
            ..s
        },
        Event::RiskRaised { risk } => StateView { risks: s.risks.push(risk), ..s },
        Event::RiskAccepted { risk, .. } => StateView { risks: accept_in(s.risks, risk), ..s },
        Event::ObjectiveRecorded { objective } => StateView {
            objectives: s.objectives.push(objective),
            ..s
        },
        Event::TradeoffRecorded { tradeoff } => StateView {
            tradeoffs: s.tradeoffs.push(tradeoff@),
            ..s
        },
        Event::PowerDomainCommitted { domain } => StateView {
            power_domains: s.power_domains.push(domain@),
            ..s
        },
        Event::ClockDomainCommitted { domain } => StateView {
            clock_domains: s.clock_domains.push(domain@),
            ..s
        },
        _ => s,
    }
}

/// Folding a sequence of events, in order.
pub open spec fn fold_events(s: StateView, es: Seq<Event>) -> StateView
    decreases es.len(),
{
    if es.len() == 0 {
        s
    } else {
        apply_spec(fold_events(s, es.drop_last()), es.last())
    }
}

/// The events of a log, in order.
pub open spec fn log_events(log: Seq<EventRecord>) -> Seq<Event> {
    log.map_values(|r: EventRecord| r.event)
}

/// The state a log reconstructs.
pub open spec fn replay_spec(log: Seq<EventRecord>) -> StateView {
    fold_events(empty_state(), log_events(log))
}

/// Replaying a longer history is replaying the shorter one, then the extra events.
pub proof fn lemma_fold_append(s: StateView, a: Seq<Event>, b: Seq<Event>)
    ensures
        fold_events(s, a + b) == fold_events(fold_events(s, a), b),
    decreases b.len(),
{
    if b.len() == 0 {
        assert(a + b =~= a);
    } else {
        lemma_fold_append(s, a, b.drop_last());
        assert((a + b).drop_last() =~= a + b.drop_last());
        assert((a + b).last() == b.last());
    }
}

/// Entities that carry an id.
pub trait Identified {
    spec fn key(&self) -> EntityId;

    fn key_exec(&self) -> (r: EntityId)
        ensures
            r == self.key(),
    ;
}

pub open spec fn keys<T: Identified>(s: Seq<T>) -> Seq<EntityId> {
    s.map_values(|x: T| x.key())
}

/// Position of the first entry carrying `id`.
pub fn find_index<T: Identified>(v: &Vec<T>, id: EntityId) -> (r: Option<usize>)
    ensures
        r matches Some(i) ==> first_index(keys(v@), id) == Some(i as nat) && i < v@.len()
            && v@[i as int].key() == id,
        r is None ==> first_index(keys(v@), id) is None,
{
    let mut i: usize = 0;
    while i < v.len()
        invariant
            i <= v.len(),
            first_index(keys(v@), id) == first_from(keys(v@), id, i as nat),
        decreases v.len() - i,
    {
        if v[i].key_exec() == id {
            return Some(i);
        }
        i += 1;
    }
    None
}

impl Identified for Requirement {
    open spec fn key(&self) -> EntityId {
        self.id
    }

    fn key_exec(&self) -> EntityId {
        self.id
    }
}

impl Identified for Decision {
    open spec fn key(&self) -> EntityId {
        self.id
    }

    fn key_exec(&self) -> EntityId {
        self.id
    }
}

impl Identified for Evidence {
    open spec fn key(&self) -> EntityId {
        self.id
    }

    fn key_exec(&self) -> EntityId {
        self.id
    }
}

impl Identified for Constraint {
    open spec fn key(&self) -> EntityId {
        self.id
    }

    fn key_exec(&self) -> EntityId {
        self.id
    }
}

impl Identified for Violation {
    open spec fn key(&self) -> EntityId {
        self.id
    }

    fn key_exec(&self) -> EntityId {
        self.id
    }
}

impl Identified for FunctionalBlock {
    open spec fn key(&self) -> EntityId {
        self.id
    }

    fn key_exec(&self) -> EntityId {
        self.id
    }
}

impl Identified for Component {
    open spec fn key(&self) -> EntityId {
        self.id
    }

    fn key_exec(&self) -> EntityId {
        self.id
    }
}

impl Identified for Pin {
    open spec fn key(&self) -> EntityId {
        self.id
    }

    fn key_exec(&self) -> EntityId {
        self.id
    }
}

impl Identified for Net {
    open spec fn key(&self) -> EntityId {
        self.id
    }

    fn key_exec(&self) -> EntityId {
        self.id
    }
}

impl Identified for Part {
    open spec fn key(&self) -> EntityId {
        self.id
    }

    fn key_exec(&self) -> EntityId {
        self.id
    }
}

impl Identified for BomLineItem {
    open spec fn key(&self) -> EntityId {
        self.id
    }

    fn key_exec(&self) -> EntityId {
        self.id
    }
}

impl Identified for Placement {
    open spec fn key(&self) -> EntityId {
        self.id
    }

    fn key_exec(&self) -> EntityId {
        self.id
    }
}

impl Identified for Track {
    open spec fn key(&self) -> EntityId {
        self.id
    }

    fn key_exec(&self) -> EntityId {
        self.id
    }
}

impl Identified for Assumption {
    open spec fn key(&self) -> EntityId {
        self.id
    }

    fn key_exec(&self) -> EntityId {
        self.id
    }
}

impl Identified for Risk {
    open spec fn key(&self) -> EntityId {
        self.id
    }

    fn key_exec(&self) -> EntityId {
        self.id
    }
}

impl Identified for Objective {
    open spec fn key(&self) -> EntityId {
        self.id
    }

    fn key_exec(&self) -> EntityId {
        self.id
    }
}

impl Identified for Tradeoff {
    open spec fn key(&self) -> EntityId {
        self.id
    }

    fn key_exec(&self) -> EntityId {
        self.id
    }
}

impl Identified for PowerDomain {
    open spec fn key(&self) -> EntityId {
        self.id
    }

    fn key_exec(&self) -> EntityId {
        self.id
    }
}

impl Identified for ClockDomain {
    open spec fn key(&self) -> EntityId {
        self.id
    }

    fn key_exec(&self) -> EntityId {
        self.id
    }
}

/// The entry of a vector that a lookup by id answers with.
pub open spec fn lookup<T: Identified>(v: Seq<T>, id: EntityId) -> Option<T> {
    match first_index(keys(v), id) {
        Some(i) => Some(v[i as int]),
        None => None,
    }
}

pub fn get_by_id<T: Identified>(v: &Vec<T>, id: EntityId) -> (r: Option<&T>)
    ensures
        match r {
            Some(x) => lookup(v@, id) == Some(*x),
            None => lookup(v@, id) is None,
        },
{
    match find_index(v, id) {
        Some(i) => Some(&v[i]),
        None => None,
    }
}

impl EngineeringState {
    pub fn new() -> (r: EngineeringState)
        ensures
            r@ == empty_state(),
    {
        let r = EngineeringState {
            intent: None,
            requirements: Vec::new(),
            decisions: Vec::new(),
            evidence: Vec::new(),
            links: Vec::new(),
            constraints: Vec::new(),
            violations: Vec::new(),
            waivers: Vec::new(),
            functional_blocks: Vec::new(),
            components: Vec::new(),
            pins: Vec::new(),
            nets: Vec::new(),
            parts: Vec::new(),
            bom_line_items: Vec::new(),
            board: None,
            placements: Vec::new(),
            tracks: Vec::new(),
            violation_explanations: Vec::new(),
            assumptions: Vec::new(),
            fidelity_tags: Vec::new(),
            risks: Vec::new(),
            objectives: Vec::new(),
            tradeoffs: Vec::new(),
            power_domains: Vec::new(),
            clock_domains: Vec::new(),
        };
        assert(r@ =~= empty_state()) by {
            assert(r@.requirements =~= Seq::empty());
            assert(r@.decisions =~= Seq::empty());
            assert(r@.violations =~= Seq::empty());
            assert(r@.functional_blocks =~= Seq::empty());
            assert(r@.nets =~= Seq::empty());
            assert(r@.bom_line_items =~= Seq::empty());
            assert(r@.tradeoffs =~= Seq::empty());
            assert(r@.power_domains =~= Seq::empty());
            assert(r@.clock_domains =~= Seq::empty());
        }
        r
    }

    /// Fold one event. State-delta events change their store; audit events are ignored here
    /// (they still live in the log for provenance).
    pub fn apply(&mut self, event: &Event)
        ensures
            final(self)@ == apply_spec(old(self)@, *event),
    {
        let ghost s0 = old(self)@;
        match event {
            Event::IntentCaptured { intent } => {
                self.intent = Some(intent.clone());
            },
            Event::RequirementCommitted { requirement } => {
                self.requirements.push(requirement.clone());
                assert(self@.requirements =~= s0.requirements.push(requirement@));
            },
            Event::DecisionCreated { decision } => {
                self.decisions.push(decision.clone());
                assert(self@.decisions =~= s0.decisions.push(decision@));
            },
            Event::EvidenceReferenced { evidence } => {
                self.evidence.push(evidence.clone());
            },
            Event::ProvenanceLinked { link } => {
                self.links.push(*link);
            },
            Event::ConstraintCommitted { constraint } => {
                self.constraints.push(constraint.clone());
            },
            Event::ViolationRaised { violation } => {
                self.violations.push(violation.clone());
                assert(self@.violations =~= s0.violations.push(violation@));
            },
            Event::WaiverGranted { waiver } => {
                assert(violation_ids(s0.violations) =~= keys(self.violations@));
                match find_index(&self.violations, waiver.violation) {
                    Some(i) => {
                        let mut v = self.violations.remove(i);
                        v.status = ViolationStatus::Waived;
                        self.violations.insert(i, v);
                    },
                    None => {},
                }
                self.waivers.push(waiver.clone());
                assert(self@.violations =~= waive(s0.violations, waiver.violation));
            },
            Event::FunctionalBlockCommitted { block } => {
                self.functional_blocks.push(block.clone());
                assert(self@.functional_blocks =~= s0.functional_blocks.push(block@));
            },
            Event::ComponentCommitted { component } => {
                self.components.push(component.clone());
            },
            Event::PinCommitted { pin } => {
                self.pins.push(pin.clone());
            },
            Event::NetCommitted { net } => {
                self.nets.push(net.clone());
                assert(self@.nets =~= s0.nets.push(net@));
            },
            Event::PartCommitted { part } => {
                self.parts.push(part.clone());
            },
            Event::BomLineItemCommitted { item } => {
                self.bom_line_items.push(item.clone());
                assert(self@.bom_line_items =~= s0.bom_line_items.push(item@));
            },
            Event::BoardCommitted { board } => {
                self.board = Some(board.clone());
            },
            Event::PlacementCommitted { placement } => {
                self.placements.push(*placement);
            },
            Event::TrackCommitted { track } => {
                self.tracks.push(*track);
            },
            Event::ViolationExplained {
                violation,
                explanation,
                suggested_fix,
                reasoning_call_seq,
            } => {
                self.violation_explanations.push(
                    ViolationExplanation {
                        violation: *violation,
                        explanation: explanation.clone(),
                        suggested_fix: suggested_fix.clone(),
                        reasoning_call_seq: *reasoning_call_seq,
                    },
                );
            },
            Event::AssumptionRaised { assumption } => {
                self.assumptions.push(assumption.clone());
            },
            Event::AssumptionDischarged { assumption, discharge } => {
                assert(assumption_ids(s0.assumptions) =~= keys(self.assumptions@));
                match find_index(&self.assumptions, *assumption) {
                    Some(i) => {
                        let mut a = self.assumptions.remove(i);
                        a.status = AssumptionStatus::Discharged;
                        a.discharge = Some(discharge.clone());
                        self.assumptions.insert(i, a);
                    },
                    None => {},
                }
                assert(self@.assumptions =~= discharge_in(s0.assumptions, *assumption, *discharge));
            },
            Event::FidelityTagged { target, fidelity, reasoning_call_seq } => {
                self.fidelity_tags.push(
                    FidelityTag {
                        target: *target,
                        fidelity: fidelity.clone(),
                        reasoning_call_seq: *reasoning_call_seq,
                    },
                );
            },
            Event::RiskRaised { risk } => {
                self.risks.push(risk.clone());
            },
            Event::RiskAccepted { risk, .. } => {
                assert(risk_ids(s0.risks) =~= keys(self.risks@));
                match find_index(&self.risks, *risk) {
                    Some(i) => {
                        let mut r = self.risks.remove(i);
                        r.status = RiskStatus::Accepted;
                        self.risks.insert(i, r);
                    },
                    None => {},
                }
                assert(self@.risks =~= accept_in(s0.risks, *risk));
            },
            Event::ObjectiveRecorded { objective } => {
                self.objectives.push(objective.clone());
            },
            Event::TradeoffRecorded { tradeoff } => {
                self.tradeoffs.push(tradeoff.clone());
                assert(self@.tradeoffs =~= s0.tradeoffs.push(tradeoff@));
            },
            Event::PowerDomainCommitted { domain } => {
                self.power_domains.push(domain.clone());
                assert(self@.power_domains =~= s0.power_domains.push(domain@));
            },
            Event::ClockDomainCommitted { domain } => {
                self.clock_domains.push(domain.clone());
                assert(self@.clock_domains =~= s0.clock_domains.push(domain@));
            },
            _ => {},
        }
    }
}

impl EngineeringState {
    /// The first committed requirement carrying `id`, if any.
    pub fn requirement(&self, id: EntityId) -> (r: Option<&Requirement>)
        ensures
            match r {
                Some(x) => lookup(self.requirements@, id) == Some(*x),
                None => lookup(self.requirements@, id) is None,
            },
    {
        get_by_id(&self.requirements, id)
    }

    /// The first committed decision carrying `id`, if any.
    pub fn decision(&self, id: EntityId) -> (r: Option<&Decision>)
        ensures
            match r {
                Some(x) => lookup(self.decisions@, id) == Some(*x),
                None => lookup(self.decisions@, id) is None,
            },
    {
        get_by_id(&self.decisions, id)
    }

    /// The first committed evidence carrying `id`, if any.
    pub fn evidence_item(&self, id: EntityId) -> (r: Option<&Evidence>)
        ensures
            match r {
                Some(x) => lookup(self.evidence@, id) == Some(*x),
                None => lookup(self.evidence@, id) is None,
            },
    {
        get_by_id(&self.evidence, id)
    }

    /// The first committed constraint carrying `id`, if any.
    pub fn constraint(&self, id: EntityId) -> (r: Option<&Constraint>)
        ensures
            match r {
                Some(x) => lookup(self.constraints@, id) == Some(*x),
                None => lookup(self.constraints@, id) is None,
            },
    {
        get_by_id(&self.constraints, id)
    }

    /// The first committed violation carrying `id`, if any.
    pub fn violation(&self, id: EntityId) -> (r: Option<&Violation>)
        ensures
            match r {
                Some(x) => lookup(self.violations@, id) == Some(*x),
                None => lookup(self.violations@, id) is None,
            },
    {
        get_by_id(&self.violations, id)
    }

    /// The first committed functionalblock carrying `id`, if any.
    pub fn functional_block(&self, id: EntityId) -> (r: Option<&FunctionalBlock>)
        ensures
            match r {
                Some(x) => lookup(self.functional_blocks@, id) == Some(*x),
                None => lookup(self.functional_blocks@, id) is None,
            },
    {
        get_by_id(&self.functional_blocks, id)
    }

    /// The first committed component carrying `id`, if any.
    pub fn component(&self, id: EntityId) -> (r: Option<&Component>)
        ensures
            match r {
                Some(x) => lookup(self.components@, id) == Some(*x),
                None => lookup(self.components@, id) is None,
            },
    {
        get_by_id(&self.components, id)
    }

    /// The first committed pin carrying `id`, if any.
    pub fn pin(&self, id: EntityId) -> (r: Option<&Pin>)
        ensures
            match r {
                Some(x) => lookup(self.pins@, id) == Some(*x),
                None => lookup(self.pins@, id) is None,
            },
    {
        get_by_id(&self.pins, id)
    }

    /// The first committed net carrying `id`, if any.
    pub fn net(&self, id: EntityId) -> (r: Option<&Net>)
        ensures
            match r {
                Some(x) => lookup(self.nets@, id) == Some(*x),
                None => lookup(self.nets@, id) is None,
            },
    {
        get_by_id(&self.nets, id)
    }

    /// The first committed part carrying `id`, if any.
    pub fn part(&self, id: EntityId) -> (r: Option<&Part>)
        ensures
            match r {
                Some(x) => lookup(self.parts@, id) == Some(*x),
                None => lookup(self.parts@, id) is None,
            },
    {
        get_by_id(&self.parts, id)
    }

    /// The first committed bomlineitem carrying `id`, if any.
    pub fn bom_line_item(&self, id: EntityId) -> (r: Option<&BomLineItem>)
        ensures
            match r {
                Some(x) => lookup(self.bom_line_items@, id) == Some(*x),
                None => lookup(self.bom_line_items@, id) is None,
            },
    {
        get_by_id(&self.bom_line_items, id)
    }

    /// The first committed placement carrying `id`, if any.
    pub fn placement(&self, id: EntityId) -> (r: Option<&Placement>)
        ensures
            match r {
                Some(x) => lookup(self.placements@, id) == Some(*x),
                None => lookup(self.placements@, id) is None,
            },
    {
        get_by_id(&self.placements, id)
    }

    /// The first committed track carrying `id`, if any.
    pub fn track(&self, id: EntityId) -> (r: Option<&Track>)
        ensures
            match r {
                Some(x) => lookup(self.tracks@, id) == Some(*x),
                None => lookup(self.tracks@, id) is None,
            },
    {
        get_by_id(&self.tracks, id)
    }

    /// The first committed assumption carrying `id`, if any.
    pub fn assumption(&self, id: EntityId) -> (r: Option<&Assumption>)
        ensures
            match r {
                Some(x) => lookup(self.assumptions@, id) == Some(*x),
                None => lookup(self.assumptions@, id) is None,
            },
    {
        get_by_id(&self.assumptions, id)
    }

    /// The first committed risk carrying `id`, if any.
    pub fn risk(&self, id: EntityId) -> (r: Option<&Risk>)
        ensures
            match r {
                Some(x) => lookup(self.risks@, id) == Some(*x),
                None => lookup(self.risks@, id) is None,
            },
    {
        get_by_id(&self.risks, id)
    }

    /// The first recorded objective carrying `id`, if any.
    pub fn objective(&self, id: EntityId) -> (r: Option<&Objective>)
        ensures
            match r {
                Some(x) => lookup(self.objectives@, id) == Some(*x),
                None => lookup(self.objectives@, id) is None,
            },
    {
        get_by_id(&self.objectives, id)
    }

    /// The first recorded tradeoff carrying `id`, if any.
    pub fn tradeoff(&self, id: EntityId) -> (r: Option<&Tradeoff>)
        ensures
            match r {
                Some(x) => lookup(self.tradeoffs@, id) == Some(*x),
                None => lookup(self.tradeoffs@, id) is None,
            },
    {
        get_by_id(&self.tradeoffs, id)
    }

    /// The first recorded power domain carrying `id`, if any.
    pub fn power_domain(&self, id: EntityId) -> (r: Option<&PowerDomain>)
        ensures
            match r {
                Some(x) => lookup(self.power_domains@, id) == Some(*x),
                None => lookup(self.power_domains@, id) is None,
            },
    {
        get_by_id(&self.power_domains, id)
    }

    /// The first recorded clock domain carrying `id`, if any.
    pub fn clock_domain(&self, id: EntityId) -> (r: Option<&ClockDomain>)
        ensures
            match r {
                Some(x) => lookup(self.clock_domains@, id) == Some(*x),
                None => lookup(self.clock_domains@, id) is None,
            },
    {
        get_by_id(&self.clock_domains, id)
    }

    pub fn board(&self) -> (r: Option<&Board>)
        ensures
            match r {
                Some(b) => self.board == Some(*b),
                None => self.board is None,
            },
    {
        self.board.as_ref()
    }

    /// Advisory explanations recorded for a violation, in insertion order.
    #[verifier::loop_isolation(false)]
    pub fn explanations_for(&self, violation: EntityId) -> (r: Vec<&ViolationExplanation>)
        ensures
            refers_to(
                r@,
                self.violation_explanations@.filter(
                    |e: ViolationExplanation| e.violation == violation,
                ),
            ),
    {
        let ghost pred = |e: ViolationExplanation| e.violation == violation;
        let v = &self.violation_explanations;
        let mut r: Vec<&ViolationExplanation> = Vec::new();
        let mut i: usize = 0;
        while i < v.len()
            invariant
                i <= v.len(),
                refers_to(r@, v@.take(i as int).filter(pred)),
            decreases v.len() - i,
        {
            proof {
                lemma_take_filter(v@, i as int, pred);
            }
            if v[i].violation == violation {
                r.push(&v[i]);
            }
            i += 1;
        }
        assert(v@.take(v.len() as int) =~= v@);
        r
    }

    /// Open, blocking (error-severity) violations — the workflow gate.
    #[verifier::loop_isolation(false)]
    pub fn open_blocking_violations(&self) -> (r: Vec<&Violation>)
        ensures
            refers_to(r@, self.violations@.filter(|x: Violation| x.spec_is_blocking())),
    {
        let ghost pred = |x: Violation| x.spec_is_blocking();
        let v = &self.violations;
        let mut r: Vec<&Violation> = Vec::new();
        let mut i: usize = 0;
        while i < v.len()
            invariant
                i <= v.len(),
                refers_to(r@, v@.take(i as int).filter(pred)),
            decreases v.len() - i,
        {
            proof {
                lemma_take_filter(v@, i as int, pred);
            }
            if v[i].is_blocking() {
                r.push(&v[i]);
            }
            i += 1;
        }
        assert(v@.take(v.len() as int) =~= v@);
        r
    }

    /// Fidelity tags recorded for a target, in insertion order.
    #[verifier::loop_isolation(false)]
    pub fn fidelity_for(&self, target: EntityId) -> (r: Vec<&ModelFidelity>)
        ensures
            r@.len() == self.fidelity_tags@.filter(|t: FidelityTag| t.target == target).len(),
            forall|k: int|
                0 <= k < r@.len() ==> *r@[k] == self.fidelity_tags@.filter(
                    |t: FidelityTag| t.target == target,
                )[k].fidelity,
    {
        let ghost pred = |t: FidelityTag| t.target == target;
        let v = &self.fidelity_tags;
        let mut r: Vec<&ModelFidelity> = Vec::new();
        let mut i: usize = 0;
        while i < v.len()
            invariant
                i <= v.len(),
                r@.len() == v@.take(i as int).filter(pred).len(),
                forall|k: int|
                    0 <= k < r@.len() ==> *r@[k] == v@.take(i as int).filter(pred)[k].fidelity,
            decreases v.len() - i,
        {
            proof {
                lemma_take_filter(v@, i as int, pred);
            }
            if v[i].target == target {
                r.push(&v[i].fidelity);
            }
            i += 1;
        }
        assert(v@.take(v.len() as int) =~= v@);
        r
    }

    /// Undischarged critical assumptions — the honesty gate.
    #[verifier::loop_isolation(false)]
    pub fn undischarged_critical_assumptions(&self) -> (r: Vec<&Assumption>)
        ensures
            refers_to(r@, self.assumptions@.filter(|a: Assumption| a.spec_is_blocking())),
    {
        let ghost pred = |a: Assumption| a.spec_is_blocking();
        let v = &self.assumptions;
        let mut r: Vec<&Assumption> = Vec::new();
        let mut i: usize = 0;
        while i < v.len()
            invariant
                i <= v.len(),
                refers_to(r@, v@.take(i as int).filter(pred)),
            decreases v.len() - i,
        {
            proof {
                lemma_take_filter(v@, i as int, pred);
            }
            if v[i].is_blocking() {
                r.push(&v[i]);
            }
            i += 1;
        }
        assert(v@.take(v.len() as int) =~= v@);
        r
    }

    /// Risks whose residual severity is critical and that no human has accepted yet. A read,
    /// never a gate.
    #[verifier::loop_isolation(false)]
    pub fn unaccepted_critical_risks(&self) -> (r: Vec<&Risk>)
        ensures
            refers_to(
                r@,
                self.risks@.filter(
                    |x: Risk| x.residual == RiskSeverity::Critical && x.status
                        != RiskStatus::Accepted,
                ),
            ),
    {
        let ghost pred = |x: Risk|
            x.residual == RiskSeverity::Critical && x.status != RiskStatus::Accepted;
        let v = &self.risks;
        let mut r: Vec<&Risk> = Vec::new();
        let mut i: usize = 0;
        while i < v.len()
            invariant
                i <= v.len(),
                refers_to(r@, v@.take(i as int).filter(pred)),
            decreases v.len() - i,
        {
            proof {
                lemma_take_filter(v@, i as int, pred);
            }
            if v[i].residual == RiskSeverity::Critical && v[i].status != RiskStatus::Accepted {
                r.push(&v[i]);
            }
            i += 1;
        }
        assert(v@.take(v.len() as int) =~= v@);
        r
    }
}

/// Rebuild the engineering state by folding a recorded log, in order.
pub fn replay(log: &Vec<EventRecord>) -> (r: EngineeringState)
    ensures
        r@ == replay_spec(log@),
{
    let mut st = EngineeringState::new();
    let mut i: usize = 0;
    while i < log.len()
        invariant
            i <= log.len(),
            st@ == fold_events(empty_state(), log_events(log@).take(i as int)),
        decreases log.len() - i,
    {
        st.apply(&log[i].event);
        assert(log_events(log@).take(i + 1).drop_last() =~= log_events(log@).take(i as int));
        i += 1;
    }
    assert(log_events(log@).take(log.len() as int) =~= log_events(log@));
    st
}

} // verus!
