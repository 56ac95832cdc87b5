//! What the seam guarantees of every state it lets the design reach: referential integrity
//! (nothing committed through a capability can dangle), and the effect of each lifecycle
//! decision (waive, discharge, accept) on the entity it names.
use vstd::prelude::*;
use crate::domain::{
    AssumptionStatus, Component, ComponentOrigin, EntityId, Evidence, Pin, ProvenanceLink,
    RiskStatus, ViolationStatus,
};
use crate::kernel::{link_events, settled, RuntimeCore};
use crate::protocol::{CapabilityAck, CapabilityError};
use crate::ports::Event;
use crate::protocol::{Autonomy, CapabilityRequest};
use crate::seam::{
    block_ids, bom_problem_from, comp_ids, constraint_ids, covered, dec_ids, decide,
    evidence_events, first_missing, first_missing_from, is_anchor, net_ids, part_ids, pin_events,
    pin_ids, req_ids, resolves, viol_ids,
};
use crate::state::{
    accept_in, apply_spec, assumption_ids, discharge_in, first_index, fold_events, has_id,
    empty_state, lemma_first_index, lemma_fold_append, risk_ids, violation_ids, waive, StateView,
};

verus! {

// ------------------------------------------------------------------ how events change a state

/// Folding provenance events only extends the provenance links.
pub proof fn lemma_fold_links(s: StateView, l: Seq<ProvenanceLink>)
    ensures
        fold_events(s, link_events(l)) == (StateView { links: s.links + l, ..s }),
    decreases l.len(),
{
    if l.len() == 0 {
        assert(link_events(l) =~= Seq::<Event>::empty());
        assert(s.links + l =~= s.links);
    } else {
        lemma_fold_links(s, l.drop_last());
        assert(link_events(l).drop_last() =~= link_events(l.drop_last()));
        assert(s.links + l =~= (s.links + l.drop_last()).push(l.last()));
    }
}

/// Folding evidence events only extends the evidence store.
pub proof fn lemma_fold_evidence(s: StateView, ev: Seq<Evidence>)
    ensures
        fold_events(s, evidence_events(ev)) == (StateView { evidence: s.evidence + ev, ..s }),
    decreases ev.len(),
{
    if ev.len() == 0 {
        assert(evidence_events(ev) =~= Seq::<Event>::empty());
        assert(s.evidence + ev =~= s.evidence);
    } else {
        lemma_fold_evidence(s, ev.drop_last());
        assert(evidence_events(ev).drop_last() =~= evidence_events(ev.drop_last()));
        assert(s.evidence + ev =~= (s.evidence + ev.drop_last()).push(ev.last()));
    }
}

/// Folding pin events only extends the pin store.
pub proof fn lemma_fold_pins(s: StateView, pins: Seq<Pin>)
    ensures
        fold_events(s, pin_events(pins)) == (StateView { pins: s.pins + pins, ..s }),
    decreases pins.len(),
{
    if pins.len() == 0 {
        assert(pin_events(pins) =~= Seq::<Event>::empty());
        assert(s.pins + pins =~= s.pins);
    } else {
        lemma_fold_pins(s, pins.drop_last());
        assert(pin_events(pins).drop_last() =~= pin_events(pins.drop_last()));
        assert(s.pins + pins =~= (s.pins + pins.drop_last()).push(pins.last()));
    }
}

/// Folding one event, then more.
pub proof fn lemma_fold_first(s: StateView, e: Event, rest: Seq<Event>)
    ensures
        fold_events(s, seq![e] + rest) == fold_events(apply_spec(s, e), rest),
{
    lemma_fold_append(s, seq![e], rest);
    reveal_with_fuel(fold_events, 2);
    assert(seq![e].drop_last() =~= Seq::<Event>::empty());
}

/// Folding one event with no provenance is applying it.
pub proof fn lemma_fold_one(s: StateView, e: Event)
    ensures
        fold_events(s, seq![e] + link_events(Seq::<ProvenanceLink>::empty())) == apply_spec(s, e),
{
    assert(seq![e] + link_events(Seq::<ProvenanceLink>::empty()) =~= seq![e]);
    reveal_with_fuel(fold_events, 2);
    assert(seq![e].drop_last() =~= Seq::<Event>::empty());
}

/// Folding a realized component with its pins and no provenance pushes the component and
/// appends the pins.
pub proof fn lemma_fold_component(s: StateView, c: Component, pins: Seq<Pin>)
    ensures
        fold_events(
            s,
            seq![Event::ComponentCommitted { component: c }] + pin_events(pins) + link_events(
                Seq::<ProvenanceLink>::empty(),
            ),
        ) == (StateView { components: s.components.push(c), pins: s.pins + pins, ..s }),
{
    let e = Event::ComponentCommitted { component: c };
    assert(seq![e] + pin_events(pins) + link_events(Seq::<ProvenanceLink>::empty()) =~= seq![e]
        + pin_events(pins));
    lemma_fold_first(s, e, pin_events(pins));
    lemma_fold_pins(apply_spec(s, e), pins);
}

// ------------------------------------------------------------------ referential integrity

/// Every id `a` carries, `b` carries too.
pub open spec fn keeps_ids(a: Seq<EntityId>, b: Seq<EntityId>) -> bool {
    forall|id: EntityId| #[trigger] has_id(a, id) ==> has_id(b, id)
}

/// `t` still holds every entity `s` holds that something can refer to, and keeps its board.
pub open spec fn grows(s: StateView, t: StateView) -> bool {
    &&& keeps_ids(req_ids(s), req_ids(t))
    &&& keeps_ids(dec_ids(s), dec_ids(t))
    &&& keeps_ids(block_ids(s), block_ids(t))
    &&& keeps_ids(constraint_ids(s), constraint_ids(t))
    &&& keeps_ids(viol_ids(s), viol_ids(t))
    &&& keeps_ids(comp_ids(s), comp_ids(t))
    &&& keeps_ids(pin_ids(s), pin_ids(t))
    &&& keeps_ids(net_ids(s), net_ids(t))
    &&& keeps_ids(part_ids(s), part_ids(t))
    &&& (s.board is Some ==> t.board is Some)
}

/// Every element of `ids` is carried by `pool`.
pub open spec fn all_in(ids: Seq<EntityId>, pool: Seq<EntityId>) -> bool {
    forall|k: int| 0 <= k < ids.len() ==> has_id(pool, #[trigger] ids[k])
}

/// No component is covered by two BOM lines.
pub open spec fn bom_disjoint(s: StateView) -> bool {
    forall|i: int, j: int, c: EntityId|
        #![trigger s.bom_line_items[i].components.contains(c), s.bom_line_items[j]]
        0 <= i < j < s.bom_line_items.len() && s.bom_line_items[i].components.contains(c)
            ==> !s.bom_line_items[j].components.contains(c)
}

/// No component is placed twice.
pub open spec fn placements_unique(s: StateView) -> bool {
    forall|i: int, j: int|
        0 <= i < j < s.placements.len() ==> (#[trigger] s.placements[i]).component
            != (#[trigger] s.placements[j]).component
}

/// Every reference the entities of `x` make resolves among the entities of `p`.
pub open spec fn refs_ok(x: StateView, p: StateView) -> bool {
    &&& forall|i: int|
        0 <= i < x.constraints.len() ==> has_id(
            req_ids(p),
            (#[trigger] x.constraints[i]).subject_requirement,
        )
    &&& forall|i: int| 0 <= i < x.violations.len() ==> (#[trigger] x.violations[i]).subjects.len() > 0
    &&& forall|i: int|
        0 <= i < x.waivers.len() ==> has_id(viol_ids(p), (#[trigger] x.waivers[i]).violation)
    &&& forall|i: int|
        0 <= i < x.functional_blocks.len() ==> (#[trigger] x.functional_blocks[i]).requirements.len()
            > 0 && all_in(x.functional_blocks[i].requirements, req_ids(p))
    &&& forall|i: int|
        0 <= i < x.components.len() ==> ((#[trigger] x.components[i]).origin
            == ComponentOrigin::Synthesized || x.components[i].from_block.0 != 0) ==> has_id(
            block_ids(p),
            x.components[i].from_block,
        )
    &&& forall|i: int|
        0 <= i < x.nets.len() ==> all_in((#[trigger] x.nets[i]).members, pin_ids(p))
    &&& forall|i: int|
        0 <= i < x.bom_line_items.len() ==> has_id(part_ids(p), (#[trigger] x.bom_line_items[i]).part)
            && all_in(x.bom_line_items[i].components, comp_ids(p))
    &&& forall|i: int|
        0 <= i < x.placements.len() ==> has_id(comp_ids(p), (#[trigger] x.placements[i]).component)
    &&& forall|i: int| 0 <= i < x.tracks.len() ==> has_id(net_ids(p), (#[trigger] x.tracks[i]).net)
    &&& forall|i: int|
        0 <= i < x.assumptions.len() ==> is_anchor(p, (#[trigger] x.assumptions[i]).rests_on)
    &&& forall|i: int|
        0 <= i < x.objectives.len() ==> resolves(p, (#[trigger] x.objectives[i]).source)
    &&& forall|i: int|
        0 <= i < x.power_domains.len() ==> has_id(
            comp_ids(p),
            (#[trigger] x.power_domains[i]).source_component,
        ) && all_in(x.power_domains[i].nets, net_ids(p))
    &&& forall|i: int|
        0 <= i < x.clock_domains.len() ==> has_id(
            comp_ids(p),
            (#[trigger] x.clock_domains[i]).source_component,
        ) && all_in(x.clock_domains[i].members, net_ids(p))
}

/// Referential integrity of a design: every reference a committed entity makes resolves to a
/// committed entity of the right kind, no component sits on two BOM lines or is placed twice,
/// and nothing is placed or routed without a board.
pub open spec fn integrity(s: StateView) -> bool {
    &&& refs_ok(s, s)
    &&& bom_disjoint(s)
    &&& placements_unique(s)
    &&& (s.placements.len() > 0 || s.tracks.len() > 0) ==> s.board is Some
}

pub proof fn lemma_keeps_push(a: Seq<EntityId>, x: EntityId)
    ensures
        keeps_ids(a, a.push(x)),
{
    assert forall|id: EntityId| has_id(a, id) implies has_id(a.push(x), id) by {
        let j = choose|j: int| 0 <= j < a.len() && a[j] == id;
        assert(a.push(x)[j] == id);
    }
}

pub proof fn lemma_keeps_trans(a: Seq<EntityId>, b: Seq<EntityId>, c: Seq<EntityId>)
    requires
        keeps_ids(a, b),
        keeps_ids(b, c),
    ensures
        keeps_ids(a, c),
{
    assert forall|id: EntityId| has_id(a, id) implies has_id(c, id) by {
        assert(has_id(b, id));
    }
}

pub proof fn lemma_grows_trans(s: StateView, t: StateView, u: StateView)
    requires
        grows(s, t),
        grows(t, u),
    ensures
        grows(s, u),
{
    lemma_keeps_trans(req_ids(s), req_ids(t), req_ids(u));
    lemma_keeps_trans(dec_ids(s), dec_ids(t), dec_ids(u));
    lemma_keeps_trans(block_ids(s), block_ids(t), block_ids(u));
    lemma_keeps_trans(constraint_ids(s), constraint_ids(t), constraint_ids(u));
    lemma_keeps_trans(viol_ids(s), viol_ids(t), viol_ids(u));
    lemma_keeps_trans(comp_ids(s), comp_ids(t), comp_ids(u));
    lemma_keeps_trans(pin_ids(s), pin_ids(t), pin_ids(u));
    lemma_keeps_trans(net_ids(s), net_ids(t), net_ids(u));
    lemma_keeps_trans(part_ids(s), part_ids(t), part_ids(u));
}

/// A waiver only changes the waived violation's status.
pub proof fn lemma_waive_keeps(s: StateView, id: EntityId)
    ensures
        waive(s.violations, id).len() == s.violations.len(),
        forall|k: int|
            0 <= k < s.violations.len() ==> (#[trigger] waive(s.violations, id)[k]).id
                == s.violations[k].id && waive(s.violations, id)[k].subjects
                == s.violations[k].subjects,
{
    lemma_first_index(violation_ids(s.violations), id);
}

/// No event removes an entity something can refer to, or the board.
pub proof fn lemma_apply_grows(s: StateView, e: Event)
    ensures
        grows(s, apply_spec(s, e)),
{
    let t = apply_spec(s, e);
    match e {
        Event::RequirementCommitted { requirement } => {
            assert(req_ids(t) =~= req_ids(s).push(requirement.id));
            lemma_keeps_push(req_ids(s), requirement.id);
        },
        Event::DecisionCreated { decision } => {
            assert(dec_ids(t) =~= dec_ids(s).push(decision.id));
            lemma_keeps_push(dec_ids(s), decision.id);
        },
        Event::ConstraintCommitted { constraint } => {
            assert(constraint_ids(t) =~= constraint_ids(s).push(constraint.id));
            lemma_keeps_push(constraint_ids(s), constraint.id);
        },
        Event::ViolationRaised { violation } => {
            assert(viol_ids(t) =~= viol_ids(s).push(violation.id));
            lemma_keeps_push(viol_ids(s), violation.id);
        },
        Event::WaiverGranted { waiver } => {
            lemma_waive_keeps(s, waiver.violation);
            assert(viol_ids(t) =~= viol_ids(s));
        },
        Event::FunctionalBlockCommitted { block } => {
            assert(block_ids(t) =~= block_ids(s).push(block.id));
            lemma_keeps_push(block_ids(s), block.id);
        },
        Event::ComponentCommitted { component } => {
            assert(comp_ids(t) =~= comp_ids(s).push(component.id));
            lemma_keeps_push(comp_ids(s), component.id);
        },
        Event::PinCommitted { pin } => {
            assert(pin_ids(t) =~= pin_ids(s).push(pin.id));
            lemma_keeps_push(pin_ids(s), pin.id);
        },
        Event::NetCommitted { net } => {
            assert(net_ids(t) =~= net_ids(s).push(net.id));
            lemma_keeps_push(net_ids(s), net.id);
        },
        Event::PartCommitted { part } => {
            assert(part_ids(t) =~= part_ids(s).push(part.id));
            lemma_keeps_push(part_ids(s), part.id);
        },
        _ => {},
    }
}

/// Folding any events keeps every referable entity and the board.
pub proof fn lemma_fold_grows(s: StateView, es: Seq<Event>)
    ensures
        grows(s, fold_events(s, es)),
    decreases es.len(),
{
    if es.len() > 0 {
        lemma_fold_grows(s, es.drop_last());
        lemma_apply_grows(fold_events(s, es.drop_last()), es.last());
        lemma_grows_trans(s, fold_events(s, es.drop_last()), fold_events(s, es));
    }
}

pub proof fn lemma_all_in_keeps(ids: Seq<EntityId>, a: Seq<EntityId>, b: Seq<EntityId>)
    requires
        all_in(ids, a),
        keeps_ids(a, b),
    ensures
        all_in(ids, b),
{
    assert forall|k: int| 0 <= k < ids.len() implies has_id(b, #[trigger] ids[k]) by {
        assert(has_id(a, ids[k]));
    }
}

/// References that resolve among `p`'s entities still resolve once `p` has grown into `q`.
pub proof fn lemma_refs_grow(x: StateView, p: StateView, q: StateView)
    requires
        refs_ok(x, p),
        grows(p, q),
    ensures
        refs_ok(x, q),
{
    assert forall|i: int| 0 <= i < x.functional_blocks.len() implies all_in(
        (#[trigger] x.functional_blocks[i]).requirements,
        req_ids(q),
    ) by {
        lemma_all_in_keeps(x.functional_blocks[i].requirements, req_ids(p), req_ids(q));
    }
    assert forall|i: int| 0 <= i < x.nets.len() implies all_in(
        (#[trigger] x.nets[i]).members,
        pin_ids(q),
    ) by {
        lemma_all_in_keeps(x.nets[i].members, pin_ids(p), pin_ids(q));
    }
    assert forall|i: int| 0 <= i < x.bom_line_items.len() implies all_in(
        (#[trigger] x.bom_line_items[i]).components,
        comp_ids(q),
    ) by {
        lemma_all_in_keeps(x.bom_line_items[i].components, comp_ids(p), comp_ids(q));
    }
    assert forall|i: int| 0 <= i < x.power_domains.len() implies all_in(
        (#[trigger] x.power_domains[i]).nets,
        net_ids(q),
    ) by {
        lemma_all_in_keeps(x.power_domains[i].nets, net_ids(p), net_ids(q));
    }
    assert forall|i: int| 0 <= i < x.clock_domains.len() implies all_in(
        (#[trigger] x.clock_domains[i]).members,
        net_ids(q),
    ) by {
        lemma_all_in_keeps(x.clock_domains[i].members, net_ids(p), net_ids(q));
    }
}

/// A discharge only changes the discharged assumption's status and discharge.
pub proof fn lemma_discharge_keeps(s: StateView, id: EntityId, d: crate::domain::Discharge)
    ensures
        discharge_in(s.assumptions, id, d).len() == s.assumptions.len(),
        forall|k: int|
            0 <= k < s.assumptions.len() ==> (#[trigger] discharge_in(s.assumptions, id, d)[k]).id
                == s.assumptions[k].id && discharge_in(s.assumptions, id, d)[k].rests_on
                == s.assumptions[k].rests_on,
{
    lemma_first_index(assumption_ids(s.assumptions), id);
}

/// An id list with no id missing from the pool lies wholly in the pool.
pub proof fn lemma_first_missing_none(ids: Seq<EntityId>, pool: Seq<EntityId>, i: nat)
    requires
        first_missing_from(ids, pool, i) is None,
    ensures
        forall|k: int| i <= k < ids.len() ==> has_id(pool, #[trigger] ids[k]),
    decreases ids.len() - i,
{
    if i < ids.len() {
        lemma_first_missing_none(ids, pool, i + 1);
    }
}

/// A proposed BOM line with no problem covers only known, not yet covered components.
pub proof fn lemma_bom_problem_none(s: StateView, cids: Seq<EntityId>, i: nat)
    requires
        bom_problem_from(s, cids, i) is None,
    ensures
        forall|k: int|
            i <= k < cids.len() ==> has_id(comp_ids(s), #[trigger] cids[k]) && !covered(
                s.bom_line_items,
                cids[k],
            ),
    decreases cids.len() - i,
{
    if i < cids.len() {
        lemma_bom_problem_none(s, cids, i + 1);
    }
}

/// Whether an event may be folded into `s` without breaking its integrity: what it adds
/// refers only to entities `s` already holds.
pub open spec fn admissible(s: StateView, e: Event) -> bool {
    match e {
        Event::ConstraintCommitted { constraint } => has_id(
            req_ids(s),
            constraint.subject_requirement,
        ),
        Event::ViolationRaised { violation } => violation.subjects@.len() > 0,
        Event::WaiverGranted { waiver } => has_id(viol_ids(s), waiver.violation),
        Event::FunctionalBlockCommitted { block } => block.requirements@.len() > 0 && all_in(
            block.requirements@,
            req_ids(s),
        ),
        Event::ComponentCommitted { component } => (component.origin
            == ComponentOrigin::Synthesized || component.from_block.0 != 0) ==> has_id(
            block_ids(s),
            component.from_block,
        ),
        Event::NetCommitted { net } => all_in(net.members@, pin_ids(s)),
        Event::BomLineItemCommitted { item } => {
            &&& has_id(part_ids(s), item.part)
            &&& all_in(item.components@, comp_ids(s))
            &&& forall|k: int|
                0 <= k < item.components@.len() ==> !covered(
                    s.bom_line_items,
                    #[trigger] item.components@[k],
                )
        },
        Event::PlacementCommitted { placement } => {
            &&& has_id(comp_ids(s), placement.component)
            &&& s.board is Some
            &&& forall|k: int|
                0 <= k < s.placements.len() ==> (#[trigger] s.placements[k]).component
                    != placement.component
        },
        Event::TrackCommitted { track } => has_id(net_ids(s), track.net) && s.board is Some,
        Event::AssumptionRaised { assumption } => is_anchor(s, assumption.rests_on),
        Event::ObjectiveRecorded { objective } => resolves(s, objective.source),
        Event::PowerDomainCommitted { domain } => has_id(comp_ids(s), domain.source_component)
            && all_in(domain.nets@, net_ids(s)),
        Event::ClockDomainCommitted { domain } => has_id(comp_ids(s), domain.source_component)
            && all_in(domain.members@, net_ids(s)),
        _ => true,
    }
}

/// Folding an admissible event into a design with integrity keeps its integrity.
pub proof fn lemma_admissible_step(s: StateView, e: Event)
    requires
        integrity(s),
        admissible(s, e),
    ensures
        integrity(apply_spec(s, e)),
{
    let t = apply_spec(s, e);
    lemma_apply_grows(s, e);
    lemma_refs_grow(s, s, t);
    match e {
        Event::WaiverGranted { waiver } => {
            lemma_waive_keeps(s, waiver.violation);
            assert(viol_ids(t) =~= viol_ids(s));
        },
        Event::AssumptionDischarged { assumption, discharge } => {
            lemma_discharge_keeps(s, assumption, discharge);
        },
        Event::BomLineItemCommitted { item } => {
            let n = s.bom_line_items.len() as int;
            assert forall|i: int, j: int, c: EntityId|
                #![trigger t.bom_line_items[i].components.contains(c), t.bom_line_items[j]]
                0 <= i < j < t.bom_line_items.len() && t.bom_line_items[i].components.contains(
                    c,
                ) implies !t.bom_line_items[j].components.contains(c) by {
                if j == n && t.bom_line_items[j].components.contains(c) {
                    let k = choose|k: int|
                        0 <= k < item.components@.len() && item.components@[k] == c;
                    assert(s.bom_line_items[i] == t.bom_line_items[i]);
                    assert(!covered(s.bom_line_items, item.components@[k]));
                }
            }
        },
        _ => {},
    }
}

/// Recording provenance never affects integrity.
pub proof fn lemma_links_keep_integrity(t: StateView, links: Seq<ProvenanceLink>)
    requires
        integrity(t),
    ensures
        integrity(fold_events(t, link_events(links))),
{
    lemma_fold_links(t, links);
}

/// Recording evidence never affects integrity.
pub proof fn lemma_evidence_keeps_integrity(t: StateView, ev: Seq<Evidence>)
    requires
        integrity(t),
    ensures
        integrity(fold_events(t, evidence_events(ev))),
{
    lemma_fold_evidence(t, ev);
}

/// Committing pins never affects integrity.
pub proof fn lemma_pins_keep_integrity(t: StateView, pins: Seq<Pin>)
    requires
        integrity(t),
    ensures
        integrity(fold_events(t, pin_events(pins))),
{
    lemma_fold_pins(t, pins);
    lemma_fold_grows(t, pin_events(pins));
    lemma_refs_grow(t, t, fold_events(t, pin_events(pins)));
}

/// An admissible event followed by its provenance keeps integrity.
pub proof fn lemma_step_then_links(s: StateView, e: Event, links: Seq<ProvenanceLink>)
    requires
        integrity(s),
        admissible(s, e),
    ensures
        integrity(fold_events(s, seq![e] + link_events(links))),
{
    lemma_fold_first(s, e, link_events(links));
    lemma_admissible_step(s, e);
    lemma_links_keep_integrity(apply_spec(s, e), links);
}

/// Referential integrity is an invariant of the seam: whatever a capability request commits
/// to a design whose references all resolve leaves a design whose references all resolve,
/// with no component on two BOM lines, none placed twice, and nothing placed or routed
/// without a board.
pub proof fn lemma_seam_keeps_integrity(s: StateView, autonomy: Autonomy, req: CapabilityRequest)
    requires
        integrity(s),
        decide(s, autonomy, req) is Ok,
    ensures
        integrity(fold_events(s, decide(s, autonomy, req)->Ok_0)),
{
    match req {
        CapabilityRequest::CreateRequirement { requirement, decision, evidence, links } => {
            let a = evidence_events(evidence@);
            let d = Event::DecisionCreated { decision };
            let r = Event::RequirementCommitted { requirement };
            let c = link_events(links@);
            assert(a + seq![d, r] + c =~= a + (seq![d] + (seq![r] + c)));
            lemma_fold_append(s, a, seq![d] + (seq![r] + c));
            lemma_evidence_keeps_integrity(s, evidence@);
            let s1 = fold_events(s, a);
            lemma_fold_first(s1, d, seq![r] + c);
            lemma_admissible_step(s1, d);
            lemma_step_then_links(apply_spec(s1, d), r, links@);
        },
        CapabilityRequest::CreateConstraint { constraint, links } => {
            lemma_step_then_links(s, Event::ConstraintCommitted { constraint }, links@);
        },
        CapabilityRequest::RaiseViolation { violation, links } => {
            lemma_step_then_links(s, Event::ViolationRaised { violation }, links@);
        },
        CapabilityRequest::GrantWaiver { waiver } => {
            lemma_step_then_links(s, Event::WaiverGranted { waiver }, Seq::empty());
            assert(seq![Event::WaiverGranted { waiver }] + link_events(Seq::empty()) =~= seq![
                Event::WaiverGranted { waiver },
            ]);
        },
        CapabilityRequest::CreateFunctionalBlock { block, links } => {
            lemma_first_missing_none(block.requirements@, req_ids(s), 0);
            lemma_step_then_links(s, Event::FunctionalBlockCommitted { block }, links@);
        },
        CapabilityRequest::RealizeComponent { component, pins, links } => {
            let e = Event::ComponentCommitted { component };
            let p = pin_events(pins@);
            let c = link_events(links@);
            assert(seq![e] + p + c =~= seq![e] + (p + c));
            lemma_fold_first(s, e, p + c);
            lemma_admissible_step(s, e);
            let t = apply_spec(s, e);
            lemma_fold_append(t, p, c);
            lemma_pins_keep_integrity(t, pins@);
            lemma_links_keep_integrity(fold_events(t, p), links@);
        },
        CapabilityRequest::CreateNet { net, links } => {
            lemma_first_missing_none(net.members@, pin_ids(s), 0);
            lemma_step_then_links(s, Event::NetCommitted { net }, links@);
        },
        CapabilityRequest::CreatePart { part, links } => {
            lemma_step_then_links(s, Event::PartCommitted { part }, links@);
        },
        CapabilityRequest::CreateBomLineItem { item, links } => {
            lemma_bom_problem_none(s, item.components@, 0);
            lemma_step_then_links(s, Event::BomLineItemCommitted { item }, links@);
        },
        CapabilityRequest::CreateBoard { board, links } => {
            lemma_step_then_links(s, Event::BoardCommitted { board }, links@);
        },
        CapabilityRequest::PlaceComponent { placement, links } => {
            lemma_step_then_links(s, Event::PlacementCommitted { placement }, links@);
        },
        CapabilityRequest::RouteNet { track, links } => {
            lemma_step_then_links(s, Event::TrackCommitted { track }, links@);
        },
        CapabilityRequest::RaiseAssumption { assumption, links } => {
            lemma_step_then_links(s, Event::AssumptionRaised { assumption }, links@);
        },
        CapabilityRequest::DischargeAssumption { assumption, discharge } => {
            let e = Event::AssumptionDischarged { assumption, discharge };
            lemma_step_then_links(s, e, Seq::empty());
            assert(seq![e] + link_events(Seq::empty()) =~= seq![e]);
        },
        CapabilityRequest::RaiseRisk { risk, links } => {
            lemma_step_then_links(s, Event::RiskRaised { risk }, links@);
        },
        CapabilityRequest::AcceptRisk { risk, accepted_by } => {
            let e = Event::RiskAccepted { risk, accepted_by };
            lemma_step_then_links(s, e, Seq::empty());
            assert(seq![e] + link_events(Seq::empty()) =~= seq![e]);
        },
        CapabilityRequest::RecordObjective { objective, links } => {
            lemma_step_then_links(s, Event::ObjectiveRecorded { objective }, links@);
        },
        CapabilityRequest::RecordTradeoff { tradeoff, links } => {
            lemma_step_then_links(s, Event::TradeoffRecorded { tradeoff }, links@);
        },
        CapabilityRequest::CreatePowerDomain { domain, links } => {
            lemma_first_missing_none(domain.nets@, net_ids(s), 0);
            lemma_step_then_links(s, Event::PowerDomainCommitted { domain }, links@);
        },
        CapabilityRequest::CreateClockDomain { domain, links } => {
            lemma_first_missing_none(domain.members@, net_ids(s), 0);
            lemma_step_then_links(s, Event::ClockDomainCommitted { domain }, links@);
        },
    }
}

/// A granted waiver waives exactly the violation it names (the first one carrying its id),
/// which is no longer blocking, leaves every other violation as it was, and is recorded.
pub proof fn lemma_waiver_waives(s: StateView, autonomy: Autonomy, waiver: crate::domain::Waiver)
    requires
        decide(s, autonomy, CapabilityRequest::GrantWaiver { waiver }) is Ok,
    ensures
        ({
            let t = fold_events(
                s,
                decide(s, autonomy, CapabilityRequest::GrantWaiver { waiver })->Ok_0,
            );
            let k = first_index(viol_ids(s), waiver.violation)->0 as int;
            &&& first_index(viol_ids(s), waiver.violation) is Some
            &&& t.violations.len() == s.violations.len()
            &&& t.violations[k].id == waiver.violation
            &&& t.violations[k].status == ViolationStatus::Waived
            &&& !t.violations[k].blocking()
            &&& forall|j: int| 0 <= j < s.violations.len() && j != k ==> t.violations[j] == s.violations[j]
            &&& t.waivers == s.waivers.push(waiver)
        }),
{
    reveal_with_fuel(fold_events, 2);
    assert(seq![Event::WaiverGranted { waiver }].drop_last() =~= Seq::<Event>::empty());
    assert(violation_ids(s.violations) =~= viol_ids(s));
    lemma_first_index(viol_ids(s), waiver.violation);
}

/// An accepted discharge marks exactly the named assumption discharged, records the
/// discharge on it, and leaves every other assumption as it was.
pub proof fn lemma_discharge_discharges(
    s: StateView,
    autonomy: Autonomy,
    assumption: EntityId,
    discharge: crate::domain::Discharge,
)
    requires
        decide(s, autonomy, CapabilityRequest::DischargeAssumption { assumption, discharge }) is Ok,
    ensures
        ({
            let t = fold_events(
                s,
                decide(
                    s,
                    autonomy,
                    CapabilityRequest::DischargeAssumption { assumption, discharge },
                )->Ok_0,
            );
            let k = first_index(assumption_ids(s.assumptions), assumption)->0 as int;
            &&& s.assumptions[k].status == AssumptionStatus::Open
            &&& t.assumptions.len() == s.assumptions.len()
            &&& t.assumptions[k].id == assumption
            &&& t.assumptions[k].status == AssumptionStatus::Discharged
            &&& t.assumptions[k].discharge == Some(discharge)
            &&& !t.assumptions[k].spec_is_blocking()
            &&& forall|j: int|
                0 <= j < s.assumptions.len() && j != k ==> t.assumptions[j] == s.assumptions[j]
        }),
{
    reveal_with_fuel(fold_events, 2);
    assert(seq![Event::AssumptionDischarged { assumption, discharge }].drop_last()
        =~= Seq::<Event>::empty());
    lemma_first_index(assumption_ids(s.assumptions), assumption);
}

/// Accepting a risk marks exactly the named risk (the first one carrying its id) accepted
/// and leaves every other risk as it was.
pub proof fn lemma_accept_accepts(
    s: StateView,
    autonomy: Autonomy,
    risk: EntityId,
    accepted_by: String,
)
    requires
        decide(s, autonomy, CapabilityRequest::AcceptRisk { risk, accepted_by }) is Ok,
    ensures
        ({
            let t = fold_events(
                s,
                decide(s, autonomy, CapabilityRequest::AcceptRisk { risk, accepted_by })->Ok_0,
            );
            let k = first_index(risk_ids(s.risks), risk)->0 as int;
            &&& first_index(risk_ids(s.risks), risk) is Some
            &&& t.risks.len() == s.risks.len()
            &&& t.risks[k].id == risk
            &&& t.risks[k].status == RiskStatus::Accepted
            &&& forall|j: int| 0 <= j < s.risks.len() && j != k ==> t.risks[j] == s.risks[j]
        }),
{
    reveal_with_fuel(fold_events, 2);
    assert(seq![Event::RiskAccepted { risk, accepted_by }].drop_last() =~= Seq::<Event>::empty());
    lemma_first_index(risk_ids(s.risks), risk);
}

/// Review metadata is advisory: explaining a violation or tagging a fact's fidelity adds the
/// note and changes nothing else, in particular not the violation or fact it describes.
pub proof fn lemma_review_notes_are_advisory(s: StateView, e: Event)
    requires
        e is ViolationExplained || e is FidelityTagged,
    ensures
        apply_spec(s, e) == (StateView {
            violation_explanations: apply_spec(s, e).violation_explanations,
            fidelity_tags: apply_spec(s, e).fidelity_tags,
            ..s
        }),
        apply_spec(s, e).violation_explanations.len() + apply_spec(s, e).fidelity_tags.len()
            == s.violation_explanations.len() + s.fidelity_tags.len() + 1,
{
}

/// Risk is tracked, not gating: raising or accepting a risk leaves every violation, and so
/// every release gate, as it was.
pub proof fn lemma_risks_never_block(s: StateView, e: Event)
    requires
        e is RiskRaised || e is RiskAccepted,
    ensures
        apply_spec(s, e).violations == s.violations,
        apply_spec(s, e).assumptions == s.assumptions,
{
}

/// An empty design has integrity.
pub proof fn lemma_empty_has_integrity()
    ensures
        integrity(empty_state()),
{
}

/// Whatever a capability call does to a kernel whose design has integrity, the design keeps
/// it: a refusal changes nothing, and an acceptance commits exactly what the seam decided.
pub proof fn lemma_invoke_keeps_integrity(
    before: RuntimeCore,
    after: RuntimeCore,
    request: CapabilityRequest,
    r: Result<CapabilityAck, CapabilityError>,
)
    requires
        integrity(before.spec_state()),
        settled(
            before,
            after,
            decide(before.spec_state(), before.spec_autonomy(), request),
            r,
        ),
    ensures
        integrity(after.spec_state()),
{
    if decide(before.spec_state(), before.spec_autonomy(), request) is Ok {
        lemma_seam_keeps_integrity(before.spec_state(), before.spec_autonomy(), request);
    }
}


// ------------------------------------------------------------------ what the seam accepts

/// The seam accepts a BOM line exactly when it is well-formed, orders a committed part, and
/// covers only committed components that no other line covers yet.
pub proof fn lemma_bom_line_acceptance(
    s: StateView,
    autonomy: Autonomy,
    item: crate::domain::BomLineItem,
    links: Vec<ProvenanceLink>,
)
    ensures
        decide(s, autonomy, CapabilityRequest::CreateBomLineItem { item, links }) is Ok <==> {
            &&& item.validity() is Ok
            &&& item.part.0 != 0
            &&& has_id(part_ids(s), item.part)
            &&& forall|k: int|
                0 <= k < item.components@.len() ==> has_id(comp_ids(s), #[trigger] item.components@[k])
                    && !covered(s.bom_line_items, item.components@[k])
        },
{
    if bom_problem_from(s, item.components@, 0) is None {
        lemma_bom_problem_none(s, item.components@, 0);
    }
    if item.validity() is Ok && item.part.0 != 0 && has_id(part_ids(s), item.part) && forall|k: int|
        0 <= k < item.components@.len() ==> has_id(comp_ids(s), #[trigger] item.components@[k])
            && !covered(s.bom_line_items, item.components@[k]) {
        lemma_bom_problem_clear(s, item.components@, 0);
    }
}

/// Components that are committed and on no line yet raise no BOM problem.
proof fn lemma_bom_problem_clear(s: StateView, cids: Seq<EntityId>, i: nat)
    requires
        forall|m: int|
            0 <= m < cids.len() ==> has_id(comp_ids(s), #[trigger] cids[m]) && !covered(
                s.bom_line_items,
                cids[m],
            ),
    ensures
        bom_problem_from(s, cids, i) is None,
    decreases cids.len() - i,
{
    if i < cids.len() {
        assert(has_id(comp_ids(s), cids[i as int]));
        lemma_bom_problem_clear(s, cids, i + 1);
    }
}

/// The seam accepts a placement exactly when its courtyard is positive, it places a committed
/// component that is not placed yet, and the board outline exists.
pub proof fn lemma_placement_acceptance(
    s: StateView,
    autonomy: Autonomy,
    placement: crate::domain::Placement,
    links: Vec<ProvenanceLink>,
)
    ensures
        decide(s, autonomy, CapabilityRequest::PlaceComponent { placement, links }) is Ok <==> {
            &&& placement.width.nano > 0 && placement.height.nano > 0
            &&& placement.component.0 != 0
            &&& has_id(comp_ids(s), placement.component)
            &&& s.board is Some
            &&& forall|k: int|
                0 <= k < s.placements.len() ==> (#[trigger] s.placements[k]).component
                    != placement.component
        },
{
}

/// The seam accepts a discharge exactly when it names a committed, still open assumption and
/// a committed entity as its target.
pub proof fn lemma_discharge_acceptance(
    s: StateView,
    autonomy: Autonomy,
    assumption: EntityId,
    discharge: crate::domain::Discharge,
)
    ensures
        decide(s, autonomy, CapabilityRequest::DischargeAssumption { assumption, discharge }) is Ok
            <==> {
            &&& has_id(assumption_ids(s.assumptions), assumption)
            &&& s.assumptions[first_index(assumption_ids(s.assumptions), assumption)->Some_0 as int].status
                == AssumptionStatus::Open
            &&& discharge.target.0 != 0
            &&& resolves(s, discharge.target)
        },
{
    lemma_first_index(assumption_ids(s.assumptions), assumption);
}


/// The seam accepts a clock domain only when it is well-formed and rooted: a non-blank name,
/// a positive frequency, at least one member net, a committed source component and committed
/// member nets. A named domain with no positive frequency is refused with that reason.
pub proof fn lemma_clock_domain_acceptance(
    s: StateView,
    autonomy: Autonomy,
    domain: crate::domain::ClockDomain,
    links: Vec<ProvenanceLink>,
)
    ensures
        decide(s, autonomy, CapabilityRequest::CreateClockDomain { domain, links }) is Ok ==> {
            &&& !crate::text::spec_is_blank(domain.name@)
            &&& domain.frequency.nano > 0
            &&& domain.members@.len() > 0
            &&& domain.source_component.0 != 0
            &&& has_id(comp_ids(s), domain.source_component)
            &&& forall|k: int|
                0 <= k < domain.members@.len() ==> has_id(net_ids(s), #[trigger] domain.members@[k])
        },
        !crate::text::spec_is_blank(domain.name@) && domain.frequency.nano <= 0 ==> decide(
            s,
            autonomy,
            CapabilityRequest::CreateClockDomain { domain, links },
        ) == Err::<Seq<Event>, Seq<char>>("clock domain frequency must be positive and finite"@),
{
    if decide(s, autonomy, CapabilityRequest::CreateClockDomain { domain, links }) is Ok {
        lemma_first_missing_none(domain.members@, net_ids(s), 0);
    }
}

/// The clock domains a run of events commits, in order.
pub open spec fn clock_domains_in(es: Seq<Event>) -> Seq<crate::views::ClockDomainView>
    decreases es.len(),
{
    if es.len() == 0 {
        Seq::empty()
    } else {
        clock_domains_in(es.drop_last()) + match es.last() {
            Event::ClockDomainCommitted { domain } => seq![domain@],
            _ => Seq::empty(),
        }
    }
}

/// Folding events keeps every clock domain the state had and adds, in order, exactly the
/// domains the events commit; so a replayed log holds every clock domain it committed.
pub proof fn lemma_fold_clock_domains(s: StateView, es: Seq<Event>)
    ensures
        fold_events(s, es).clock_domains == s.clock_domains + clock_domains_in(es),
    decreases es.len(),
{
    if es.len() == 0 {
        assert(s.clock_domains + clock_domains_in(es) =~= s.clock_domains);
    } else {
        lemma_fold_clock_domains(s, es.drop_last());
        let prev = fold_events(s, es.drop_last());
        match es.last() {
            Event::ClockDomainCommitted { domain } => {
                assert(apply_spec(prev, es.last()).clock_domains == prev.clock_domains.push(domain@));
                assert(s.clock_domains + clock_domains_in(es) =~= (s.clock_domains
                    + clock_domains_in(es.drop_last())).push(domain@));
            },
            _ => {
                assert(apply_spec(prev, es.last()).clock_domains == prev.clock_domains);
                assert(s.clock_domains + clock_domains_in(es) =~= s.clock_domains + clock_domains_in(
                    es.drop_last(),
                ));
            },
        }
    }
}


/// The seam accepts a power domain only when it is well-formed and rooted: a non-blank name,
/// a positive voltage and maximum current, at least one net, a committed source component and
/// committed nets.
pub proof fn lemma_power_domain_acceptance(
    s: StateView,
    autonomy: Autonomy,
    domain: crate::domain::PowerDomain,
    links: Vec<ProvenanceLink>,
)
    ensures
        decide(s, autonomy, CapabilityRequest::CreatePowerDomain { domain, links }) is Ok ==> {
            &&& !crate::text::spec_is_blank(domain.name@)
            &&& domain.voltage.nano > 0
            &&& domain.max_current.nano > 0
            &&& domain.nets@.len() > 0
            &&& domain.source_component.0 != 0
            &&& has_id(comp_ids(s), domain.source_component)
            &&& forall|k: int| 0 <= k < domain.nets@.len() ==> has_id(net_ids(s), #[trigger] domain.nets@[k])
        },
        !crate::text::spec_is_blank(domain.name@) && domain.voltage.nano <= 0 ==> decide(
            s,
            autonomy,
            CapabilityRequest::CreatePowerDomain { domain, links },
        ) == Err::<Seq<Event>, Seq<char>>("power domain voltage must be positive and finite"@),
{
    if decide(s, autonomy, CapabilityRequest::CreatePowerDomain { domain, links }) is Ok {
        lemma_first_missing_none(domain.nets@, net_ids(s), 0);
    }
}

/// The power domains, objectives and tradeoffs a run of events records, in order.
pub open spec fn power_domains_in(es: Seq<Event>) -> Seq<crate::views::PowerDomainView>
    decreases es.len(),
{
    if es.len() == 0 {
        Seq::empty()
    } else {
        power_domains_in(es.drop_last()) + match es.last() {
            Event::PowerDomainCommitted { domain } => seq![domain@],
            _ => Seq::empty(),
        }
    }
}

pub open spec fn objectives_in(es: Seq<Event>) -> Seq<crate::domain::Objective>
    decreases es.len(),
{
    if es.len() == 0 {
        Seq::empty()
    } else {
        objectives_in(es.drop_last()) + match es.last() {
            Event::ObjectiveRecorded { objective } => seq![objective],
            _ => Seq::empty(),
        }
    }
}

pub open spec fn tradeoffs_in(es: Seq<Event>) -> Seq<crate::views::TradeoffView>
    decreases es.len(),
{
    if es.len() == 0 {
        Seq::empty()
    } else {
        tradeoffs_in(es.drop_last()) + match es.last() {
            Event::TradeoffRecorded { tradeoff } => seq![tradeoff@],
            _ => Seq::empty(),
        }
    }
}

/// Folding events keeps every power domain, objective and tradeoff the state had and adds, in
/// order, exactly the ones the events record.
pub proof fn lemma_fold_records(s: StateView, es: Seq<Event>)
    ensures
        fold_events(s, es).power_domains == s.power_domains + power_domains_in(es),
        fold_events(s, es).objectives == s.objectives + objectives_in(es),
        fold_events(s, es).tradeoffs == s.tradeoffs + tradeoffs_in(es),
    decreases es.len(),
{
    if es.len() == 0 {
        assert(s.power_domains + power_domains_in(es) =~= s.power_domains);
        assert(s.objectives + objectives_in(es) =~= s.objectives);
        assert(s.tradeoffs + tradeoffs_in(es) =~= s.tradeoffs);
    } else {
        lemma_fold_records(s, es.drop_last());
        let prev = fold_events(s, es.drop_last());
        let e = es.last();
        let p0 = power_domains_in(es.drop_last());
        let o0 = objectives_in(es.drop_last());
        let t0 = tradeoffs_in(es.drop_last());
        match e {
            Event::PowerDomainCommitted { domain } => {
                assert(s.power_domains + power_domains_in(es) =~= (s.power_domains + p0).push(domain@));
                assert(s.objectives + objectives_in(es) =~= s.objectives + o0);
                assert(s.tradeoffs + tradeoffs_in(es) =~= s.tradeoffs + t0);
            },
            Event::ObjectiveRecorded { objective } => {
                assert(s.power_domains + power_domains_in(es) =~= s.power_domains + p0);
                assert(s.objectives + objectives_in(es) =~= (s.objectives + o0).push(objective));
                assert(s.tradeoffs + tradeoffs_in(es) =~= s.tradeoffs + t0);
            },
            Event::TradeoffRecorded { tradeoff } => {
                assert(s.power_domains + power_domains_in(es) =~= s.power_domains + p0);
                assert(s.objectives + objectives_in(es) =~= s.objectives + o0);
                assert(s.tradeoffs + tradeoffs_in(es) =~= (s.tradeoffs + t0).push(tradeoff@));
            },
            _ => {
                assert(s.power_domains + power_domains_in(es) =~= s.power_domains + p0);
                assert(s.objectives + objectives_in(es) =~= s.objectives + o0);
                assert(s.tradeoffs + tradeoffs_in(es) =~= s.tradeoffs + t0);
            },
        }
    }
}


/// The seam never commits a malformed entity: whatever it accepts passes its entity's own
/// well-formedness rules.
pub proof fn lemma_seam_accepts_only_valid(s: StateView, autonomy: Autonomy, req: CapabilityRequest)
    ensures
        decide(s, autonomy, req) is Ok ==> match req {
            CapabilityRequest::CreateRequirement { requirement, .. } => requirement.validity() is Ok,
            CapabilityRequest::CreateConstraint { constraint, .. } => constraint.validity() is Ok,
            CapabilityRequest::CreateFunctionalBlock { block, .. } => block.validity() is Ok,
            CapabilityRequest::RealizeComponent { component, pins, .. } => component.validity() is Ok
                && pins@.len() > 0,
            CapabilityRequest::CreateNet { net, .. } => net.validity() is Ok,
            CapabilityRequest::CreatePart { part, .. } => part.validity() is Ok,
            CapabilityRequest::CreateBomLineItem { item, .. } => item.validity() is Ok,
            CapabilityRequest::CreateBoard { board, .. } => board.validity() is Ok,
            CapabilityRequest::PlaceComponent { placement, .. } => placement.validity() is Ok,
            CapabilityRequest::RouteNet { track, .. } => track.validity() is Ok,
            CapabilityRequest::RaiseAssumption { assumption, .. } => assumption.validity() is Ok,
            CapabilityRequest::RaiseRisk { risk, .. } => risk.validity() is Ok,
            CapabilityRequest::RecordObjective { objective, .. } => objective.validity() is Ok,
            CapabilityRequest::RecordTradeoff { tradeoff, .. } => tradeoff.validity() is Ok,
            CapabilityRequest::CreatePowerDomain { domain, .. } => domain.validity() is Ok,
            CapabilityRequest::CreateClockDomain { domain, .. } => domain.validity() is Ok,
            _ => true,
        },
{
}

} // verus!
