//! Mathematical views of the domain entities and their cloning. An entity without a vector
//! field is its own view; an entity with one is viewed with the vector as a sequence, so two
//! copies are the same entity exactly when their views agree.
use vstd::prelude::*;
use crate::domain::{
    Alternative, Assumption, Board, BomLineItem, ClockDomain, Component, Constraint, Decision,
    DesignIntent, Discharge, EntityId, Evidence, FunctionalBlock, Layer, LayerStack, ModelFidelity,
    Net, NetClass, NetOrigin, Objective, Part, Pin, Placement, PowerDomain, Ppm, Priority, Quantity,
    Requirement, RequirementCategory, RequirementStatus, Risk, Track, Tradeoff, Violation,
    ViolationSeverity, ViolationStatus, Waiver,
};

verus! {

/// Copy a vector of plain values.
pub fn copy_vec<T: Copy>(v: &Vec<T>) -> (r: Vec<T>)
    ensures
        r@ == v@,
{
    let mut r: Vec<T> = Vec::new();
    let mut i: usize = 0;
    while i < v.len()
        invariant
            i <= v.len(),
            r@ == v@.take(i as int),
        decreases v.len() - i,
    {
        r.push(v[i]);
        assert(r@ =~= v@.take(i + 1));
        i += 1;
    }
    assert(v@.take(v.len() as int) =~= v@);
    r
}

/// Copy a vector of strings.
pub fn copy_strings(v: &Vec<String>) -> (r: Vec<String>)
    ensures
        r@ == v@,
{
    let mut r: Vec<String> = Vec::new();
    let mut i: usize = 0;
    while i < v.len()
        invariant
            i <= v.len(),
            r@ == v@.take(i as int),
        decreases v.len() - i,
    {
        r.push(v[i].clone());
        assert(r@ =~= v@.take(i + 1));
        i += 1;
    }
    assert(v@.take(v.len() as int) =~= v@);
    r
}

pub fn copy_opt_seq(o: &Option<u64>) -> (r: Option<u64>)
    ensures
        r == *o,
{
    *o
}

// ---------------------------------------------------------------- entities that are their own view

impl View for DesignIntent {
    type V = DesignIntent;

    open spec fn view(&self) -> DesignIntent {
        *self
    }
}

impl Clone for DesignIntent {
    fn clone(&self) -> (r: Self)
        ensures
            r == *self,
    {
        DesignIntent {
            id: self.id,
            statement: self.statement.clone(),
            structured_summary: self.structured_summary.clone(),
            source: self.source.clone(),
        }
    }
}

impl View for Evidence {
    type V = Evidence;

    open spec fn view(&self) -> Evidence {
        *self
    }
}

impl Clone for Evidence {
    fn clone(&self) -> (r: Self)
        ensures
            r == *self,
    {
        Evidence {
            id: self.id,
            kind: self.kind,
            content_reference: self.content_reference.clone(),
            source: self.source.clone(),
            reliability: self.reliability,
        }
    }
}

impl View for Constraint {
    type V = Constraint;

    open spec fn view(&self) -> Constraint {
        *self
    }
}

impl Clone for Constraint {
    fn clone(&self) -> (r: Self)
        ensures
            r == *self,
    {
        Constraint {
            id: self.id,
            statement: self.statement.clone(),
            subject_requirement: self.subject_requirement,
            kind: self.kind,
            bound: self.bound,
            source: self.source,
            status: self.status,
        }
    }
}

impl View for Waiver {
    type V = Waiver;

    open spec fn view(&self) -> Waiver {
        *self
    }
}

impl Clone for Waiver {
    fn clone(&self) -> (r: Self)
        ensures
            r == *self,
    {
        Waiver {
            id: self.id,
            violation: self.violation,
            justification: self.justification.clone(),
            decided_by: self.decided_by.clone(),
        }
    }
}

impl View for Component {
    type V = Component;

    open spec fn view(&self) -> Component {
        *self
    }
}

impl Clone for Component {
    fn clone(&self) -> (r: Self)
        ensures
            r == *self,
    {
        Component {
            id: self.id,
            refdes: self.refdes.clone(),
            class: self.class,
            value: self.value,
            from_block: self.from_block,
            origin: self.origin,
        }
    }
}

impl View for Pin {
    type V = Pin;

    open spec fn view(&self) -> Pin {
        *self
    }
}

impl Clone for Pin {
    fn clone(&self) -> (r: Self)
        ensures
            r == *self,
    {
        Pin {
            id: self.id,
            component: self.component,
            designation: self.designation.clone(),
            electrical_type: self.electrical_type,
        }
    }
}

impl View for Part {
    type V = Part;

    open spec fn view(&self) -> Part {
        *self
    }
}

impl Clone for Part {
    fn clone(&self) -> (r: Self)
        ensures
            r == *self,
    {
        Part {
            id: self.id,
            mpn: self.mpn.clone(),
            manufacturer: self.manufacturer.clone(),
            lifecycle: self.lifecycle,
            datasheet: self.datasheet.clone(),
        }
    }
}

impl View for Placement {
    type V = Placement;

    open spec fn view(&self) -> Placement {
        *self
    }
}

impl View for Track {
    type V = Track;

    open spec fn view(&self) -> Track {
        *self
    }
}

impl View for Discharge {
    type V = Discharge;

    open spec fn view(&self) -> Discharge {
        *self
    }
}

impl Clone for Discharge {
    fn clone(&self) -> (r: Self)
        ensures
            r == *self,
    {
        Discharge {
            resolution: self.resolution,
            target: self.target,
            decided_by: self.decided_by.clone(),
        }
    }
}

impl View for Assumption {
    type V = Assumption;

    open spec fn view(&self) -> Assumption {
        *self
    }
}

impl Clone for Assumption {
    fn clone(&self) -> (r: Self)
        ensures
            r == *self,
    {
        let discharge = match &self.discharge {
            Some(d) => Some(d.clone()),
            None => None,
        };
        Assumption {
            id: self.id,
            statement: self.statement.clone(),
            rests_on: self.rests_on,
            criticality: self.criticality,
            status: self.status,
            discharge,
        }
    }
}

impl View for ModelFidelity {
    type V = ModelFidelity;

    open spec fn view(&self) -> ModelFidelity {
        *self
    }
}

impl Clone for ModelFidelity {
    fn clone(&self) -> (r: Self)
        ensures
            r == *self,
    {
        ModelFidelity {
            concern: self.concern.clone(),
            method: self.method,
            confidence: self.confidence,
            scope: self.scope.clone(),
        }
    }
}

impl View for Risk {
    type V = Risk;

    open spec fn view(&self) -> Risk {
        *self
    }
}

impl Clone for Risk {
    fn clone(&self) -> (r: Self)
        ensures
            r == *self,
    {
        Risk {
            id: self.id,
            statement: self.statement.clone(),
            likelihood: self.likelihood,
            severity: self.severity,
            mitigation: self.mitigation.clone(),
            residual: self.residual,
            owner: self.owner.clone(),
            status: self.status,
        }
    }
}

impl View for Objective {
    type V = Objective;

    open spec fn view(&self) -> Objective {
        *self
    }
}

impl Clone for Objective {
    fn clone(&self) -> (r: Self)
        ensures
            r == *self,
    {
        Objective {
            id: self.id,
            statement: self.statement.clone(),
            weight: self.weight,
            source: self.source,
        }
    }
}

// ---------------------------------------------------------------- entities with vector fields

pub struct RequirementView {
    pub id: EntityId,
    pub statement: String,
    pub category: RequirementCategory,
    pub priority: Priority,
    pub acceptance_criterion: String,
    pub status: RequirementStatus,
    pub source: EntityId,
    pub targets: Seq<Quantity>,
}

impl View for Requirement {
    type V = RequirementView;

    open spec fn view(&self) -> RequirementView {
        RequirementView {
            id: self.id,
            statement: self.statement,
            category: self.category,
            priority: self.priority,
            acceptance_criterion: self.acceptance_criterion,
            status: self.status,
            source: self.source,
            targets: self.targets@,
        }
    }
}

impl Clone for Requirement {
    fn clone(&self) -> (r: Self)
        ensures
            r@ == self@,
    {
        Requirement {
            id: self.id,
            statement: self.statement.clone(),
            category: self.category,
            priority: self.priority,
            acceptance_criterion: self.acceptance_criterion.clone(),
            status: self.status,
            source: self.source,
            targets: copy_vec(&self.targets),
        }
    }
}

pub struct DecisionView {
    pub id: EntityId,
    pub subject: EntityId,
    pub rationale: String,
    pub decider: String,
    pub reasoning_call_seq: Option<u64>,
    pub evidence: Seq<EntityId>,
    pub confidence: Ppm,
}

impl View for Decision {
    type V = DecisionView;

    open spec fn view(&self) -> DecisionView {
        DecisionView {
            id: self.id,
            subject: self.subject,
            rationale: self.rationale,
            decider: self.decider,
            reasoning_call_seq: self.reasoning_call_seq,
            evidence: self.evidence@,
            confidence: self.confidence,
        }
    }
}

impl Clone for Decision {
    fn clone(&self) -> (r: Self)
        ensures
            r@ == self@,
    {
        Decision {
            id: self.id,
            subject: self.subject,
            rationale: self.rationale.clone(),
            decider: self.decider.clone(),
            reasoning_call_seq: copy_opt_seq(&self.reasoning_call_seq),
            evidence: copy_vec(&self.evidence),
            confidence: self.confidence,
        }
    }
}

pub struct ViolationView {
    pub id: EntityId,
    pub rule: String,
    pub severity: ViolationSeverity,
    pub subjects: Seq<EntityId>,
    pub message: String,
    pub status: ViolationStatus,
}

impl ViolationView {
    pub open spec fn blocking(self) -> bool {
        self.severity == ViolationSeverity::Error && self.status == ViolationStatus::Open
    }
}

impl View for Violation {
    type V = ViolationView;

    open spec fn view(&self) -> ViolationView {
        ViolationView {
            id: self.id,
            rule: self.rule,
            severity: self.severity,
            subjects: self.subjects@,
            message: self.message,
            status: self.status,
        }
    }
}

impl Clone for Violation {
    fn clone(&self) -> (r: Self)
        ensures
            r@ == self@,
    {
        Violation {
            id: self.id,
            rule: self.rule.clone(),
            severity: self.severity,
            subjects: copy_vec(&self.subjects),
            message: self.message.clone(),
            status: self.status,
        }
    }
}

pub struct FunctionalBlockView {
    pub id: EntityId,
    pub name: String,
    pub function: String,
    pub requirements: Seq<EntityId>,
}

impl View for FunctionalBlock {
    type V = FunctionalBlockView;

    open spec fn view(&self) -> FunctionalBlockView {
        FunctionalBlockView {
            id: self.id,
            name: self.name,
            function: self.function,
            requirements: self.requirements@,
        }
    }
}

impl Clone for FunctionalBlock {
    fn clone(&self) -> (r: Self)
        ensures
            r@ == self@,
    {
        FunctionalBlock {
            id: self.id,
            name: self.name.clone(),
            function: self.function.clone(),
            requirements: copy_vec(&self.requirements),
        }
    }
}

pub struct NetView {
    pub id: EntityId,
    pub name: String,
    pub class: NetClass,
    pub members: Seq<EntityId>,
    pub current: Option<Quantity>,
    pub impedance_target: Option<Quantity>,
    pub origin: NetOrigin,
}

impl View for Net {
    type V = NetView;

    open spec fn view(&self) -> NetView {
        NetView {
            id: self.id,
            name: self.name,
            class: self.class,
            members: self.members@,
            current: self.current,
            impedance_target: self.impedance_target,
            origin: self.origin,
        }
    }
}

impl Clone for Net {
    fn clone(&self) -> (r: Self)
        ensures
            r@ == self@,
    {
        Net {
            id: self.id,
            name: self.name.clone(),
            class: self.class,
            members: copy_vec(&self.members),
            current: self.current,
            impedance_target: self.impedance_target,
            origin: self.origin,
        }
    }
}

pub struct BomLineItemView {
    pub id: EntityId,
    pub part: EntityId,
    pub components: Seq<EntityId>,
    pub quantity: u32,
}

impl View for BomLineItem {
    type V = BomLineItemView;

    open spec fn view(&self) -> BomLineItemView {
        BomLineItemView {
            id: self.id,
            part: self.part,
            components: self.components@,
            quantity: self.quantity,
        }
    }
}

impl Clone for BomLineItem {
    fn clone(&self) -> (r: Self)
        ensures
            r@ == self@,
    {
        BomLineItem {
            id: self.id,
            part: self.part,
            components: copy_vec(&self.components),
            quantity: self.quantity,
        }
    }
}

pub struct BoardView {
    pub id: EntityId,
    pub width: Quantity,
    pub height: Quantity,
    pub layers: Seq<Layer>,
}

impl View for Board {
    type V = BoardView;

    open spec fn view(&self) -> BoardView {
        BoardView {
            id: self.id,
            width: self.width,
            height: self.height,
            layers: self.stack.layers@,
        }
    }
}

impl Clone for LayerStack {
    fn clone(&self) -> (r: Self)
        ensures
            r.layers@ == self.layers@,
    {
        LayerStack { layers: copy_vec(&self.layers) }
    }
}

impl Clone for Board {
    fn clone(&self) -> (r: Self)
        ensures
            r@ == self@,
    {
        Board {
            id: self.id,
            width: self.width,
            height: self.height,
            stack: LayerStack { layers: copy_vec(&self.stack.layers) },
        }
    }
}

pub struct AlternativeView {
    pub label: String,
    pub description: String,
    pub scores: Seq<Ppm>,
    pub rejected: bool,
}

impl View for Alternative {
    type V = AlternativeView;

    open spec fn view(&self) -> AlternativeView {
        AlternativeView {
            label: self.label,
            description: self.description,
            scores: self.scores@,
            rejected: self.rejected,
        }
    }
}

impl Clone for Alternative {
    fn clone(&self) -> (r: Self)
        ensures
            r@ == self@,
    {
        Alternative {
            label: self.label.clone(),
            description: self.description.clone(),
            scores: copy_vec(&self.scores),
            rejected: self.rejected,
        }
    }
}

pub struct TradeoffView {
    pub id: EntityId,
    pub question: String,
    pub alternatives: Seq<AlternativeView>,
    pub criteria: Seq<String>,
    pub chosen: usize,
    pub rationale: String,
    pub decided_by: String,
}

impl View for Tradeoff {
    type V = TradeoffView;

    open spec fn view(&self) -> TradeoffView {
        TradeoffView {
            id: self.id,
            question: self.question,
            alternatives: self.alternatives@.map_values(|a: Alternative| a@),
            criteria: self.criteria@,
            chosen: self.chosen,
            rationale: self.rationale,
            decided_by: self.decided_by,
        }
    }
}

impl Clone for Tradeoff {
    fn clone(&self) -> (r: Self)
        ensures
            r@ == self@,
    {
        let mut alts: Vec<Alternative> = Vec::new();
        let mut i: usize = 0;
        while i < self.alternatives.len()
            invariant
                i <= self.alternatives@.len(),
                alts@.len() == i,
                forall|j: int| 0 <= j < i ==> (#[trigger] alts@[j])@ == self.alternatives@[j]@,
            decreases self.alternatives@.len() - i,
        {
            let a = self.alternatives[i].clone();
            alts.push(a);
            i += 1;
        }
        assert(alts@.map_values(|a: Alternative| a@) =~= self.alternatives@.map_values(
            |a: Alternative| a@,
        ));
        Tradeoff {
            id: self.id,
            question: self.question.clone(),
            alternatives: alts,
            criteria: copy_strings(&self.criteria),
            chosen: self.chosen,
            rationale: self.rationale.clone(),
            decided_by: self.decided_by.clone(),
        }
    }
}

pub struct PowerDomainView {
    pub id: EntityId,
    pub name: String,
    pub voltage: Quantity,
    pub source_component: EntityId,
    pub max_current: Quantity,
    pub nets: Seq<EntityId>,
}

impl View for PowerDomain {
    type V = PowerDomainView;

    open spec fn view(&self) -> PowerDomainView {
        PowerDomainView {
            id: self.id,
            name: self.name,
            voltage: self.voltage,
            source_component: self.source_component,
            max_current: self.max_current,
            nets: self.nets@,
        }
    }
}

impl Clone for PowerDomain {
    fn clone(&self) -> (r: Self)
        ensures
            r@ == self@,
    {
        PowerDomain {
            id: self.id,
            name: self.name.clone(),
            voltage: self.voltage,
            source_component: self.source_component,
            max_current: self.max_current,
            nets: copy_vec(&self.nets),
        }
    }
}

pub struct ClockDomainView {
    pub id: EntityId,
    pub name: String,
    pub frequency: Quantity,
    pub source_component: EntityId,
    pub members: Seq<EntityId>,
}

impl View for ClockDomain {
    type V = ClockDomainView;

    open spec fn view(&self) -> ClockDomainView {
        ClockDomainView {
            id: self.id,
            name: self.name,
            frequency: self.frequency,
            source_component: self.source_component,
            members: self.members@,
        }
    }
}

impl Clone for ClockDomain {
    fn clone(&self) -> (r: Self)
        ensures
            r@ == self@,
    {
        ClockDomain {
            id: self.id,
            name: self.name.clone(),
            frequency: self.frequency,
            source_component: self.source_component,
            members: copy_vec(&self.members),
        }
    }
}

} // verus!
