//! The capability seam's decisions, stated over the engineering state's value: for each
//! proposed mutation, either the exact events it commits or the exact reason it is refused.
use vstd::prelude::*;
use crate::domain::{
    domain_message, Assumption, AssumptionStatus, Board, BomLineItem, ClockDomain, Component,
    ComponentOrigin, Constraint, Decision, EntityId, Evidence, FunctionalBlock, Net, NetOrigin,
    Objective, Part, Pin, Placement, PowerDomain, ProvenanceLink, Requirement, Risk, Track,
    Tradeoff, Violation, Waiver, Discharge,
};
use crate::kernel::{link_events, short_spec};
use crate::ports::Event;
use crate::protocol::{Autonomy, CapabilityRequest};
use crate::state::{
    assumption_ids, find_index, first_from, first_index, has_id, keys, lemma_first_index,
    risk_ids, EngineeringState, Identified, StateView,
};
use crate::views::{
    BomLineItemView, DecisionView, FunctionalBlockView, NetView, RequirementView, ViolationView,
};

verus! {

pub open spec fn req_ids(s: StateView) -> Seq<EntityId> {
    s.requirements.map_values(|x: RequirementView| x.id)
}

pub open spec fn dec_ids(s: StateView) -> Seq<EntityId> {
    s.decisions.map_values(|x: DecisionView| x.id)
}

pub open spec fn block_ids(s: StateView) -> Seq<EntityId> {
    s.functional_blocks.map_values(|x: FunctionalBlockView| x.id)
}

pub open spec fn constraint_ids(s: StateView) -> Seq<EntityId> {
    s.constraints.map_values(|x: Constraint| x.id)
}

pub open spec fn viol_ids(s: StateView) -> Seq<EntityId> {
    s.violations.map_values(|x: ViolationView| x.id)
}

pub open spec fn comp_ids(s: StateView) -> Seq<EntityId> {
    s.components.map_values(|x: Component| x.id)
}

pub open spec fn pin_ids(s: StateView) -> Seq<EntityId> {
    s.pins.map_values(|x: Pin| x.id)
}

pub open spec fn net_ids(s: StateView) -> Seq<EntityId> {
    s.nets.map_values(|x: NetView| x.id)
}

pub open spec fn part_ids(s: StateView) -> Seq<EntityId> {
    s.parts.map_values(|x: Part| x.id)
}

/// An entity an assumption may rest on: a requirement, decision or functional block.
pub open spec fn is_anchor(s: StateView, id: EntityId) -> bool {
    has_id(req_ids(s), id) || has_id(dec_ids(s), id) || has_id(block_ids(s), id)
}

/// Any committed entity a discharge or an objective may point at: a requirement, decision,
/// functional block or constraint.
pub open spec fn resolves(s: StateView, id: EntityId) -> bool {
    is_anchor(s, id) || has_id(constraint_ids(s), id)
}

/// The first id of `ids`, from position `i` on, that `pool` does not hold.
pub open spec fn first_missing_from(ids: Seq<EntityId>, pool: Seq<EntityId>, i: nat) -> Option<
    EntityId,
>
    decreases ids.len() - i,
{
    if i >= ids.len() {
        None
    } else if !has_id(pool, ids[i as int]) {
        Some(ids[i as int])
    } else {
        first_missing_from(ids, pool, i + 1)
    }
}

pub open spec fn first_missing(ids: Seq<EntityId>, pool: Seq<EntityId>) -> Option<EntityId> {
    first_missing_from(ids, pool, 0)
}

/// Whether some existing BOM line already covers the component.
pub open spec fn covered(lines: Seq<BomLineItemView>, c: EntityId) -> bool {
    exists|k: int| 0 <= k < lines.len() && (#[trigger] lines[k]).components.contains(c)
}

/// The first covered component of a proposed line that is unknown (`true`) or already on
/// another line (`false`), checked in the line's order.
pub open spec fn bom_problem_from(s: StateView, cids: Seq<EntityId>, i: nat) -> Option<
    (EntityId, bool),
>
    decreases cids.len() - i,
{
    if i >= cids.len() {
        None
    } else if !has_id(comp_ids(s), cids[i as int]) {
        Some((cids[i as int], true))
    } else if covered(s.bom_line_items, cids[i as int]) {
        Some((cids[i as int], false))
    } else {
        bom_problem_from(s, cids, i + 1)
    }
}

pub open spec fn supervised_text() -> Seq<char> {
    "supervised autonomy requires human approval (HITL deferred to a later phase)"@
}

pub open spec fn evidence_events(ev: Seq<Evidence>) -> Seq<Event> {
    ev.map_values(|e: Evidence| Event::EvidenceReferenced { evidence: e })
}

pub open spec fn pin_events(pins: Seq<Pin>) -> Seq<Event> {
    pins.map_values(|p: Pin| Event::PinCommitted { pin: p })
}

/// What the seam decides for one proposed mutation: the events it commits, or the text of
/// the refusal.
pub open spec fn decide(s: StateView, autonomy: Autonomy, req: CapabilityRequest) -> Result<
    Seq<Event>,
    Seq<char>,
> {
    match req {
        CapabilityRequest::CreateRequirement { requirement, decision, evidence, links } => {
            match requirement.validity() {
                Err(e) => Err(domain_message(e)),
                Ok(_) => if autonomy == Autonomy::Supervised {
                    Err(supervised_text())
                } else {
                    Ok(
                        evidence_events(evidence@) + seq![
                            Event::DecisionCreated { decision },
                            Event::RequirementCommitted { requirement },
                        ] + link_events(links@),
                    )
                },
            }
        },
        CapabilityRequest::CreateConstraint { constraint, links } => {
            match constraint.validity() {
                Err(e) => Err(domain_message(e)),
                Ok(_) => if constraint.subject_requirement.0 == 0 {
                    Err("constraint has no subject requirement"@)
                } else if !has_id(req_ids(s), constraint.subject_requirement) {
                    Err(
                        "constraint subject requirement "@ + short_spec(
                            constraint.subject_requirement,
                        ) + " does not exist"@,
                    )
                } else {
                    Ok(seq![Event::ConstraintCommitted { constraint }] + link_events(links@))
                },
            }
        },
        CapabilityRequest::RaiseViolation { violation, links } => {
            if violation.subjects@.len() == 0 {
                Err("violation names no subjects (would be untraceable)"@)
            } else {
                Ok(seq![Event::ViolationRaised { violation }] + link_events(links@))
            }
        },
        CapabilityRequest::GrantWaiver { waiver } => {
            if autonomy == Autonomy::Supervised {
                Err(supervised_text())
            } else if !has_id(viol_ids(s), waiver.violation) {
                Err("waiver targets unknown violation "@ + short_spec(waiver.violation))
            } else {
                Ok(seq![Event::WaiverGranted { waiver }])
            }
        },
        CapabilityRequest::CreateFunctionalBlock { block, links } => {
            match block.validity() {
                Err(e) => Err(domain_message(e)),
                Ok(_) => if block.requirements@.len() == 0 {
                    Err("functional block realizes no requirement (would be untraceable)"@)
                } else {
                    match first_missing(block.requirements@, req_ids(s)) {
                        Some(rid) => Err(
                            "functional block references unknown requirement "@ + short_spec(rid),
                        ),
                        None => Ok(
                            seq![Event::FunctionalBlockCommitted { block }] + link_events(links@),
                        ),
                    }
                },
            }
        },
        CapabilityRequest::RealizeComponent { component, pins, links } => {
            match component.validity() {
                Err(e) => Err(domain_message(e)),
                Ok(_) => if component.origin == ComponentOrigin::Synthesized
                    && component.from_block.0 == 0 {
                    Err("component has no originating functional block"@)
                } else if component.origin == ComponentOrigin::Synthesized && !has_id(
                    block_ids(s),
                    component.from_block,
                ) {
                    Err(
                        "component originates from unknown functional block "@ + short_spec(
                            component.from_block,
                        ),
                    )
                } else if component.origin == ComponentOrigin::Imported && component.from_block.0
                    != 0 && !has_id(block_ids(s), component.from_block) {
                    Err(
                        "imported component references unknown functional block "@ + short_spec(
                            component.from_block,
                        ),
                    )
                } else if pins@.len() == 0 {
                    Err("component has no pins"@)
                } else {
                    Ok(
                        seq![Event::ComponentCommitted { component }] + pin_events(pins@)
                            + link_events(links@),
                    )
                },
            }
        },
        CapabilityRequest::CreateNet { net, links } => {
            match net.validity() {
                Err(e) => Err(domain_message(e)),
                Ok(_) => if net.origin == NetOrigin::Logical && net.members@.len() == 0 {
                    Err("net joins no pins (carries no connectivity)"@)
                } else {
                    match first_missing(net.members@, pin_ids(s)) {
                        Some(p) => Err("net references unknown pin "@ + short_spec(p)),
                        None => Ok(seq![Event::NetCommitted { net }] + link_events(links@)),
                    }
                },
            }
        },
        CapabilityRequest::CreatePart { part, links } => {
            match part.validity() {
                Err(e) => Err(domain_message(e)),
                Ok(_) => Ok(seq![Event::PartCommitted { part }] + link_events(links@)),
            }
        },
        CapabilityRequest::CreateBomLineItem { item, links } => {
            match item.validity() {
                Err(e) => Err(domain_message(e)),
                Ok(_) => if item.part.0 == 0 {
                    Err("BOM line item has no part"@)
                } else if !has_id(part_ids(s), item.part) {
                    Err("BOM line item references unknown part "@ + short_spec(item.part))
                } else {
                    match bom_problem_from(s, item.components@, 0) {
                        Some((c, true)) => Err(
                            "BOM line item references unknown component "@ + short_spec(c),
                        ),
                        Some((c, false)) => Err(
                            "BOM line item double-covers component "@ + short_spec(c)
                                + " (already on another line)"@,
                        ),
                        None => Ok(
                            seq![Event::BomLineItemCommitted { item }] + link_events(links@),
                        ),
                    }
                },
            }
        },
        CapabilityRequest::CreateBoard { board, links } => {
            match board.validity() {
                Err(e) => Err(domain_message(e)),
                Ok(_) => if s.board is Some {
                    Err("design already has a board outline"@)
                } else {
                    Ok(seq![Event::BoardCommitted { board }] + link_events(links@))
                },
            }
        },
        CapabilityRequest::PlaceComponent { placement, links } => {
            match placement.validity() {
                Err(e) => Err(domain_message(e)),
                Ok(_) => if placement.component.0 == 0 {
                    Err("placement has no component"@)
                } else if !has_id(comp_ids(s), placement.component) {
                    Err(
                        "placement references unknown component "@ + short_spec(
                            placement.component,
                        ),
                    )
                } else if s.board is None {
                    Err("cannot place a component before the board outline exists"@)
                } else if exists|k: int|
                    0 <= k < s.placements.len() && (#[trigger] s.placements[k]).component
                        == placement.component {
                    Err("component is already placed"@)
                } else {
                    Ok(seq![Event::PlacementCommitted { placement }] + link_events(links@))
                },
            }
        },
        CapabilityRequest::RouteNet { track, links } => {
            match track.validity() {
                Err(e) => Err(domain_message(e)),
                Ok(_) => if track.net.0 == 0 {
                    Err("track realizes no net"@)
                } else if !has_id(net_ids(s), track.net) {
                    Err("track realizes unknown net "@ + short_spec(track.net))
                } else if s.board is None {
                    Err("cannot route a net before the board outline exists"@)
                } else {
                    Ok(seq![Event::TrackCommitted { track }] + link_events(links@))
                },
            }
        },
        CapabilityRequest::RaiseAssumption { assumption, links } => {
            match assumption.validity() {
                Err(e) => Err(domain_message(e)),
                Ok(_) => if assumption.rests_on.0 == 0 {
                    Err("assumption rests on no entity (would be untraceable)"@)
                } else if !is_anchor(s, assumption.rests_on) {
                    Err("assumption rests on unknown entity "@ + short_spec(assumption.rests_on))
                } else if assumption.status != AssumptionStatus::Open {
                    Err("a raised assumption must be Open"@)
                } else {
                    Ok(seq![Event::AssumptionRaised { assumption }] + link_events(links@))
                },
            }
        },
        CapabilityRequest::DischargeAssumption { assumption, discharge } => {
            match first_index(assumption_ids(s.assumptions), assumption) {
                None => Err("discharge targets unknown assumption "@ + short_spec(assumption)),
                Some(i) => if s.assumptions[i as int].status != AssumptionStatus::Open {
                    Err("assumption is not open"@)
                } else if discharge.target.0 == 0 || !resolves(s, discharge.target) {
                    Err("discharge target "@ + short_spec(discharge.target) + " does not exist"@)
                } else {
                    Ok(seq![Event::AssumptionDischarged { assumption, discharge }])
                },
            }
        },
        CapabilityRequest::RaiseRisk { risk, links } => {
            match risk.validity() {
                Err(e) => Err(domain_message(e)),
                Ok(_) => Ok(seq![Event::RiskRaised { risk }] + link_events(links@)),
            }
        },
        CapabilityRequest::AcceptRisk { risk, accepted_by } => {
            if !has_id(risk_ids(s.risks), risk) {
                Err("accept targets unknown risk "@ + short_spec(risk))
            } else {
                Ok(seq![Event::RiskAccepted { risk, accepted_by }])
            }
        },
        CapabilityRequest::RecordObjective { objective, links } => {
            match objective.validity() {
                Err(e) => Err(domain_message(e)),
                Ok(_) => if objective.source.0 == 0 || !resolves(s, objective.source) {
                    Err("objective is rooted in unknown source "@ + short_spec(objective.source))
                } else {
                    Ok(seq![Event::ObjectiveRecorded { objective }] + link_events(links@))
                },
            }
        },
        CapabilityRequest::RecordTradeoff { tradeoff, links } => {
            match tradeoff.validity() {
                Err(e) => Err(domain_message(e)),
                Ok(_) => Ok(seq![Event::TradeoffRecorded { tradeoff }] + link_events(links@)),
            }
        },
        CapabilityRequest::CreatePowerDomain { domain, links } => {
            match domain.validity() {
                Err(e) => Err(domain_message(e)),
                Ok(_) => if domain.source_component.0 == 0 {
                    Err("power domain has no source component"@)
                } else if !has_id(comp_ids(s), domain.source_component) {
                    Err(
                        "power domain source component "@ + short_spec(domain.source_component)
                            + " does not exist"@,
                    )
                } else {
                    match first_missing(domain.nets@, net_ids(s)) {
                        Some(n) => Err("power domain references unknown net "@ + short_spec(n)),
                        None => Ok(
                            seq![Event::PowerDomainCommitted { domain }] + link_events(links@),
                        ),
                    }
                },
            }
        },
        CapabilityRequest::CreateClockDomain { domain, links } => {
            match domain.validity() {
                Err(e) => Err(domain_message(e)),
                Ok(_) => if domain.source_component.0 == 0 {
                    Err("clock domain has no source component"@)
                } else if !has_id(comp_ids(s), domain.source_component) {
                    Err(
                        "clock domain source component "@ + short_spec(domain.source_component)
                            + " does not exist"@,
                    )
                } else {
                    match first_missing(domain.members@, net_ids(s)) {
                        Some(n) => Err("clock domain references unknown net "@ + short_spec(n)),
                        None => Ok(
                            seq![Event::ClockDomainCommitted { domain }] + link_events(links@),
                        ),
                    }
                },
            }
        },
    }
}

/// An upper bound on how many events a request can commit.
pub open spec fn request_size(req: CapabilityRequest) -> nat {
    match req {
        CapabilityRequest::CreateRequirement { evidence, links, .. } => evidence@.len() + 2
            + links@.len(),
        CapabilityRequest::CreateConstraint { links, .. } => 1 + links@.len(),
        CapabilityRequest::RaiseViolation { links, .. } => 1 + links@.len(),
        CapabilityRequest::GrantWaiver { .. } => 1,
        CapabilityRequest::CreateFunctionalBlock { links, .. } => 1 + links@.len(),
        CapabilityRequest::RealizeComponent { pins, links, .. } => 1 + pins@.len() + links@.len(),
        CapabilityRequest::CreateNet { links, .. } => 1 + links@.len(),
        CapabilityRequest::CreatePart { links, .. } => 1 + links@.len(),
        CapabilityRequest::CreateBomLineItem { links, .. } => 1 + links@.len(),
        CapabilityRequest::CreateBoard { links, .. } => 1 + links@.len(),
        CapabilityRequest::PlaceComponent { links, .. } => 1 + links@.len(),
        CapabilityRequest::RouteNet { links, .. } => 1 + links@.len(),
        CapabilityRequest::RaiseAssumption { links, .. } => 1 + links@.len(),
        CapabilityRequest::DischargeAssumption { .. } => 1,
        CapabilityRequest::RaiseRisk { links, .. } => 1 + links@.len(),
        CapabilityRequest::AcceptRisk { .. } => 1,
        CapabilityRequest::RecordObjective { links, .. } => 1 + links@.len(),
        CapabilityRequest::RecordTradeoff { links, .. } => 1 + links@.len(),
        CapabilityRequest::CreatePowerDomain { links, .. } => 1 + links@.len(),
        CapabilityRequest::CreateClockDomain { links, .. } => 1 + links@.len(),
    }
}

/// The ids the state's stores carry are the ids their values carry.
pub proof fn lemma_state_keys(st: &EngineeringState)
    ensures
        keys(st.requirements@) == req_ids(st@),
        keys(st.decisions@) == dec_ids(st@),
        keys(st.functional_blocks@) == block_ids(st@),
        keys(st.constraints@) == constraint_ids(st@),
        keys(st.violations@) == viol_ids(st@),
        keys(st.components@) == comp_ids(st@),
        keys(st.pins@) == pin_ids(st@),
        keys(st.nets@) == net_ids(st@),
        keys(st.parts@) == part_ids(st@),
        keys(st.assumptions@) == assumption_ids(st@.assumptions),
        keys(st.risks@) == risk_ids(st@.risks),
{
    assert(keys(st.requirements@) =~= req_ids(st@));
    assert(keys(st.decisions@) =~= dec_ids(st@));
    assert(keys(st.functional_blocks@) =~= block_ids(st@));
    assert(keys(st.constraints@) =~= constraint_ids(st@));
    assert(keys(st.violations@) =~= viol_ids(st@));
    assert(keys(st.components@) =~= comp_ids(st@));
    assert(keys(st.pins@) =~= pin_ids(st@));
    assert(keys(st.nets@) =~= net_ids(st@));
    assert(keys(st.parts@) =~= part_ids(st@));
    assert(keys(st.assumptions@) =~= assumption_ids(st@.assumptions));
    assert(keys(st.risks@) =~= risk_ids(st@.risks));
}

/// Whether some entry of `v` carries `id`.
pub fn contains_id<T: Identified>(v: &Vec<T>, id: EntityId) -> (r: bool)
    ensures
        r == has_id(keys(v@), id),
{
    let found = find_index(v, id);
    proof {
        lemma_first_index(keys(v@), id);
    }
    found.is_some()
}

/// The first id of `ids` that no entry of `pool` carries.
pub fn first_unknown<T: Identified>(ids: &Vec<EntityId>, pool: &Vec<T>) -> (r: Option<EntityId>)
    ensures
        r == first_missing(ids@, keys(pool@)),
{
    let mut i: usize = 0;
    while i < ids.len()
        invariant
            i <= ids.len(),
            first_missing(ids@, keys(pool@)) == first_missing_from(ids@, keys(pool@), i as nat),
        decreases ids.len() - i,
    {
        if !contains_id(pool, ids[i]) {
            return Some(ids[i]);
        }
        i += 1;
    }
    None
}

/// Whether some line of `lines` already covers component `c`.
pub fn is_covered(lines: &Vec<BomLineItem>, c: EntityId) -> (r: bool)
    ensures
        r == covered(lines@.map_values(|x: BomLineItem| x@), c),
{
    let ghost views = lines@.map_values(|x: BomLineItem| x@);
    let mut k: usize = 0;
    while k < lines.len()
        invariant
            k <= lines.len(),
            views == lines@.map_values(|x: BomLineItem| x@),
            forall|j: int| 0 <= j < k ==> !(#[trigger] views[j]).components.contains(c),
        decreases lines.len() - k,
    {
        let comps = &lines[k].components;
        let mut m: usize = 0;
        while m < comps.len()
            invariant
                m <= comps.len(),
                comps@ == views[k as int].components,
                k < lines.len(),
                views == lines@.map_values(|x: BomLineItem| x@),
                forall|j: int| 0 <= j < m ==> comps@[j] != c,
            decreases comps.len() - m,
        {
            if comps[m] == c {
                assert(views[k as int].components[m as int] == c);
                return true;
            }
            m += 1;
        }
        k += 1;
    }
    false
}

/// The first problem a proposed BOM line's components have against the state: an unknown
/// component (`true`) or one already on another line (`false`).
pub fn bom_problem(st: &EngineeringState, cids: &Vec<EntityId>) -> (r: Option<(EntityId, bool)>)
    ensures
        r == bom_problem_from(st@, cids@, 0),
{
    proof {
        lemma_state_keys(st);
    }
    let mut i: usize = 0;
    while i < cids.len()
        invariant
            i <= cids.len(),
            keys(st.components@) == comp_ids(st@),
            bom_problem_from(st@, cids@, 0) == bom_problem_from(st@, cids@, i as nat),
        decreases cids.len() - i,
    {
        let c = cids[i];
        if !contains_id(&st.components, c) {
            return Some((c, true));
        }
        if is_covered(&st.bom_line_items, c) {
            return Some((c, false));
        }
        i += 1;
    }
    None
}

/// Whether some placement already places component `c`.
pub fn is_placed(placements: &Vec<Placement>, c: EntityId) -> (r: bool)
    ensures
        r == exists|k: int| 0 <= k < placements@.len() && (#[trigger] placements@[k]).component == c,
{
    let mut k: usize = 0;
    while k < placements.len()
        invariant
            k <= placements.len(),
            forall|j: int| 0 <= j < k ==> (#[trigger] placements@[j]).component != c,
        decreases placements.len() - k,
    {
        if placements[k].component == c {
            return true;
        }
        k += 1;
    }
    false
}

/// How many events a request can commit at most (see [`request_size`]).
pub fn request_len(req: &CapabilityRequest) -> (n: u128)
    ensures
        n == request_size(*req),
        n <= 0x4_0000_0000_0000_0000,
{
    match req {
        CapabilityRequest::CreateRequirement { evidence, links, .. } => evidence.len() as u128 + 2
            + links.len() as u128,
        CapabilityRequest::CreateConstraint { links, .. } => 1 + links.len() as u128,
        CapabilityRequest::RaiseViolation { links, .. } => 1 + links.len() as u128,
        CapabilityRequest::GrantWaiver { .. } => 1,
        CapabilityRequest::CreateFunctionalBlock { links, .. } => 1 + links.len() as u128,
        CapabilityRequest::RealizeComponent { pins, links, .. } => 1 + pins.len() as u128
            + links.len() as u128,
        CapabilityRequest::CreateNet { links, .. } => 1 + links.len() as u128,
        CapabilityRequest::CreatePart { links, .. } => 1 + links.len() as u128,
        CapabilityRequest::CreateBomLineItem { links, .. } => 1 + links.len() as u128,
        CapabilityRequest::CreateBoard { links, .. } => 1 + links.len() as u128,
        CapabilityRequest::PlaceComponent { links, .. } => 1 + links.len() as u128,
        CapabilityRequest::RouteNet { links, .. } => 1 + links.len() as u128,
        CapabilityRequest::RaiseAssumption { links, .. } => 1 + links.len() as u128,
        CapabilityRequest::DischargeAssumption { .. } => 1,
        CapabilityRequest::RaiseRisk { links, .. } => 1 + links.len() as u128,
        CapabilityRequest::AcceptRisk { .. } => 1,
        CapabilityRequest::RecordObjective { links, .. } => 1 + links.len() as u128,
        CapabilityRequest::RecordTradeoff { links, .. } => 1 + links.len() as u128,
        CapabilityRequest::CreatePowerDomain { links, .. } => 1 + links.len() as u128,
        CapabilityRequest::CreateClockDomain { links, .. } => 1 + links.len() as u128,
    }
}

} // verus!
