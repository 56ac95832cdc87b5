//! The runtime kernel — the sole mutator of engineering state. Every event funnels through
//! one commit path (stamp, append, fold), and every capability request is re-validated at
//! the seam before anything is committed.
use vstd::prelude::*;
use vstd::string::StringExecFns;
use crate::domain::{
    domain_message, hex_digits, Assumption, AssumptionStatus, Board, BomLineItem, ClockDomain,
    Component, ComponentOrigin, Constraint, Decision, DesignIntent, Discharge, DomainError,
    EntityId, Evidence, FunctionalBlock, Net, NetOrigin, Objective, Part, Pin, Placement,
    PowerDomain, ProvenanceLink, Requirement, Risk, Track, Tradeoff, Violation, Waiver,
};
use crate::ports::{
    Event, EventRecord, EventSeq, ReasoningRequest, ReasoningResponse, Timestamp,
};
use crate::protocol::{Autonomy, CapabilityAck, CapabilityError, CapabilityRequest};
use crate::seam::{
    bom_problem, contains_id, decide, evidence_events, first_unknown, is_anchor, is_placed,
    lemma_state_keys, pin_events, request_len, request_size, resolves,
};
use crate::state::{
    apply_spec, empty_state, find_index, fold_events, lemma_fold_append, log_events, replay_spec,
    EngineeringState, StateView,
};

verus! {

/// The short form of an id as it appears in messages.
pub open spec fn short_spec(id: EntityId) -> Seq<char> {
    hex_digits((id.0 % 0x1_0000_0000) as nat, 8)
}

/// A rejection whose text is `prefix`, the id's short form, then `suffix`.
pub fn reject_id(prefix: &str, id: EntityId, suffix: &str) -> (e: CapabilityError)
    ensures
        e matches CapabilityError::Rejected(m) && m@ == prefix@ + short_spec(id) + suffix@,
{
    let mut m = prefix.to_owned();
    let s = id.short();
    m.append(s.as_str());
    m.append(suffix);
    CapabilityError::Rejected(m)
}

/// A rejection whose text is `prefix` followed by the id's short form.
pub fn reject_at(prefix: &str, id: EntityId) -> (e: CapabilityError)
    ensures
        e matches CapabilityError::Rejected(m) && m@ == prefix@ + short_spec(id),
{
    let mut m = prefix.to_owned();
    let s = id.short();
    m.append(s.as_str());
    CapabilityError::Rejected(m)
}

/// A rejection with a fixed text.
pub fn reject(text: &str) -> (e: CapabilityError)
    ensures
        e matches CapabilityError::Rejected(m) && m@ == text@,
{
    CapabilityError::Rejected(text.to_owned())
}

/// A rejection carrying a domain error's text.
pub fn reject_domain(d: DomainError) -> (e: CapabilityError)
    ensures
        e matches CapabilityError::Rejected(m) && m@ == domain_message(d),
{
    CapabilityError::Rejected(d.message())
}

/// The provenance events recording `links`, in order.
pub open spec fn link_events(links: Seq<ProvenanceLink>) -> Seq<Event> {
    links.map_values(|l: ProvenanceLink| Event::ProvenanceLinked { link: l })
}

/// Positions `from .. from + n`, as event sequence numbers.
pub open spec fn seq_range(from: nat, n: nat) -> Seq<EventSeq> {
    Seq::new(n, |i: int| (from + i) as EventSeq)
}

/// Append the provenance events for `links`.
pub fn push_links(events: &mut Vec<Event>, links: &Vec<ProvenanceLink>)
    ensures
        final(events)@ == old(events)@ + link_events(links@),
{
    let ghost start = events@;
    let mut i: usize = 0;
    while i < links.len()
        invariant
            i <= links.len(),
            events@ == start + link_events(links@.take(i as int)),
        decreases links.len() - i,
    {
        events.push(Event::ProvenanceLinked { link: links[i] });
        assert(link_events(links@.take(i + 1)) =~= link_events(links@.take(i as int)).push(
            Event::ProvenanceLinked { link: links@[i as int] },
        ));
        i += 1;
    }
    assert(links@.take(links.len() as int) =~= links@);
}

/// Append the evidence events for `evidence`.
pub fn push_evidence(events: &mut Vec<Event>, evidence: &Vec<Evidence>)
    ensures
        final(events)@ == old(events)@ + evidence_events(evidence@),
{
    let ghost start = events@;
    let mut i: usize = 0;
    while i < evidence.len()
        invariant
            i <= evidence.len(),
            events@ == start + evidence_events(evidence@.take(i as int)),
        decreases evidence.len() - i,
    {
        events.push(Event::EvidenceReferenced { evidence: evidence[i].clone() });
        assert(evidence_events(evidence@.take(i + 1)) =~= evidence_events(
            evidence@.take(i as int),
        ).push(Event::EvidenceReferenced { evidence: evidence@[i as int] }));
        i += 1;
    }
    assert(evidence@.take(evidence.len() as int) =~= evidence@);
}

/// Append the pin events for `pins`.
pub fn push_pins(events: &mut Vec<Event>, pins: &Vec<Pin>)
    ensures
        final(events)@ == old(events)@ + pin_events(pins@),
{
    let ghost start = events@;
    let mut i: usize = 0;
    while i < pins.len()
        invariant
            i <= pins.len(),
            events@ == start + pin_events(pins@.take(i as int)),
        decreases pins.len() - i,
    {
        events.push(Event::PinCommitted { pin: pins[i].clone() });
        assert(pin_events(pins@.take(i + 1)) =~= pin_events(pins@.take(i as int)).push(
            Event::PinCommitted { pin: pins@[i as int] },
        ));
        i += 1;
    }
    assert(pins@.take(pins.len() as int) =~= pins@);
}

/// How a capability request leaves the kernel: when the seam accepts, exactly the decided
/// events are appended to the log and folded into state, and the ack names their sequence
/// numbers; when it refuses, the refusal carries the decided text and nothing is committed.
pub open spec fn settled(
    before: RuntimeCore,
    after: RuntimeCore,
    decision: Result<Seq<Event>, Seq<char>>,
    r: Result<CapabilityAck, CapabilityError>,
) -> bool {
    &&& after.inv()
    &&& after.spec_autonomy() == before.spec_autonomy()
    &&& after.spec_next_id() == before.spec_next_id()
    &&& before.spec_log().len() <= after.spec_log().len()
    &&& forall|i: int|
        0 <= i < before.spec_log().len() ==> #[trigger] after.spec_log()[i] == before.spec_log()[i]
    &&& match decision {
        Ok(events) => {
            &&& r matches Ok(ack) && ack.committed@ == seq_range(
                before.spec_log().len(),
                events.len(),
            )
            &&& log_events(after.spec_log()) == log_events(before.spec_log()) + events
            &&& after.spec_state() == fold_events(before.spec_state(), events)
        },
        Err(text) => {
            &&& r matches Err(CapabilityError::Rejected(m)) && m@ == text
            &&& after.spec_log() == before.spec_log()
            &&& after.spec_state() == before.spec_state()
        },
    }
}

pub struct RuntimeCore {
    pub state: EngineeringState,
    log: Vec<EventRecord>,
    autonomy: Autonomy,
    next_id: u128,
    clock: i64,
}

impl RuntimeCore {
    /// The kernel's invariant: the state is exactly the fold of the recorded log, each
    /// record sits at its own sequence number, and the id and clock counters can advance.
    pub closed spec fn inv(&self) -> bool {
        &&& self.state@ == replay_spec(self.log@)
        &&& forall|i: int| 0 <= i < self.log@.len() ==> (#[trigger] self.log@[i]).seq == i
        &&& self.log@.len() < u64::MAX
        &&& self.next_id > 0
    }

    /// Replaying the recorded log rebuilds exactly the live state: the live fold and the
    /// replay fold are the same fold over the same events.
    pub proof fn lemma_replay_rebuilds_state(&self)
        requires
            self.inv(),
        ensures
            replay_spec(self.spec_log()) == self.spec_state(),
    {
    }

    pub closed spec fn spec_state(&self) -> StateView {
        self.state@
    }

    pub closed spec fn state_intent(&self) -> Option<DesignIntent> {
        self.state.intent
    }

    pub closed spec fn spec_log(&self) -> Seq<EventRecord> {
        self.log@
    }

    pub closed spec fn spec_autonomy(&self) -> Autonomy {
        self.autonomy
    }

    pub closed spec fn spec_next_id(&self) -> u128 {
        self.next_id
    }

    /// A kernel with an empty history. Ids are minted from `seed` upward (never the null
    /// id); timestamps come from a logical clock that ticks once per committed event.
    pub fn new(autonomy: Autonomy, seed: u128) -> (r: RuntimeCore)
        ensures
            r.inv(),
            r.spec_state() == empty_state(),
            r.spec_log().len() == 0,
            r.spec_autonomy() == autonomy,
            r.spec_next_id() == if seed == 0 { 1 } else { seed },
    {
        let st = EngineeringState::new();
        let log: Vec<EventRecord> = Vec::new();
        let r = RuntimeCore {
            state: st,
            log,
            autonomy,
            next_id: if seed == 0 { 1 } else { seed },
            clock: 0,
        };
        assert(log_events(r.log@) =~= Seq::<Event>::empty());
        r
    }

    /// Read-only access to the recorded log (for replay and inspection).
    pub fn log(&self) -> (r: &Vec<EventRecord>)
        ensures
            r@ == self.spec_log(),
    {
        &self.log
    }

    /// How many more ids can be minted.
    pub fn ids_left(&self) -> (r: u128)
        ensures
            r == u128::MAX - self.spec_next_id(),
    {
        u128::MAX - self.next_id
    }

    /// How many more events the log can take.
    pub fn log_room(&self) -> (r: u64)
        requires
            self.inv(),
        ensures
            r == u64::MAX - self.spec_log().len(),
    {
        u64::MAX - self.log.len() as u64
    }

    /// Read-only access to the engineering state.
    pub fn current_state(&self) -> (r: &EngineeringState)
        ensures
            r@ == self.spec_state(),
    {
        &self.state
    }

    pub fn autonomy(&self) -> (r: Autonomy)
        ensures
            r == self.spec_autonomy(),
    {
        self.autonomy
    }

    /// Mint a fresh, never-null id, larger than every id minted before.
    pub fn fresh_id(&mut self) -> (r: EntityId)
        requires
            old(self).inv(),
            old(self).spec_next_id() < u128::MAX,
        ensures
            final(self).inv(),
            r.0 == old(self).spec_next_id(),
            r.0 != 0,
            final(self).spec_next_id() == old(self).spec_next_id() + 1,
            final(self).spec_state() == old(self).spec_state(),
            final(self).spec_log() == old(self).spec_log(),
            final(self).spec_autonomy() == old(self).spec_autonomy(),
    {
        let id = EntityId(self.next_id);
        self.next_id = self.next_id + 1;
        id
    }

    /// The single commit path: stamp each event, append it, fold it into state.
    fn commit(&mut self, events: Vec<Event>) -> (r: Vec<EventSeq>)
        requires
            old(self).inv(),
            old(self).log@.len() + events@.len() < u64::MAX,
        ensures
            final(self).inv(),
            log_events(final(self).log@) == log_events(old(self).log@) + events@,
            final(self).spec_state() == fold_events(old(self).spec_state(), events@),
            r@ == seq_range(old(self).log@.len(), events@.len()),
            final(self).log@.take(old(self).log@.len() as int) == old(self).log@,
            final(self).autonomy == old(self).autonomy,
            final(self).next_id == old(self).next_id,
    {
        let ghost old_log = self.log@;
        let ghost old_state = self.state@;
        let mut pending = events;
        let ghost all = pending@;
        // Reverse the batch so it can be consumed front to back by popping.
        let mut rev: Vec<Event> = Vec::new();
        while pending.len() > 0
            invariant
                all == pending@ + rev@.reverse(),
            decreases pending.len(),
        {
            let e = pending.pop().unwrap();
            proof {
                assert(rev@.push(e).reverse() =~= seq![e] + rev@.reverse());
            }
            rev.push(e);
        }
        assert(pending@ =~= Seq::<Event>::empty());
        assert(all =~= rev@.reverse());
        let mut seqs: Vec<EventSeq> = Vec::new();
        let ghost n = all.len();
        assert(old_log.take(old_log.len() as int) =~= old_log);
        while rev.len() > 0
            invariant
                self.inv(),
                self.autonomy == old(self).autonomy,
                self.next_id == old(self).next_id,
                n == all.len(),
                old_log.len() + n < u64::MAX,
                all == all.take(seqs@.len() as int) + rev@.reverse(),
                seqs@.len() <= n,
                log_events(self.log@) == log_events(old_log) + all.take(seqs@.len() as int),
                self.state@ == fold_events(old_state, all.take(seqs@.len() as int)),
                seqs@ == seq_range(old_log.len(), seqs@.len()),
                self.log@.len() == old_log.len() + seqs@.len(),
                self.log@.take(old_log.len() as int) == old_log,
            decreases rev.len(),
        {
            let ghost k = seqs@.len();
            let e = rev.pop().unwrap();
            proof {
                assert(rev@.push(e).reverse() =~= seq![e] + rev@.reverse());
                assert(all.take(k as int + 1) =~= all.take(k as int).push(e));
            }
            let ghost before = self.state@;
            self.state.apply(&e);
            let seq = self.log.len() as u64;
            if self.clock < i64::MAX {
                self.clock = self.clock + 1;
            }
            let ghost prev_log = self.log@;
            self.log.push(EventRecord { seq, timestamp: Timestamp(self.clock), event: e });
            seqs.push(seq);
            proof {
                assert(log_events(self.log@) =~= log_events(prev_log).push(e));
                assert(log_events(self.log@) =~= log_events(old_log) + all.take(k as int + 1));
                assert(all.take(k as int + 1).drop_last() =~= all.take(k as int));
                lemma_fold_append(empty_state(), log_events(old_log), all.take(k as int + 1));
                lemma_fold_append(empty_state(), log_events(old_log), all.take(k as int));
                assert(seqs@ =~= seq_range(old_log.len(), (k + 1) as nat));
                assert(self.log@.take(old_log.len() as int) =~= prev_log.take(old_log.len() as int));
            }
        }
        assert(all.take(n as int) =~= all);
        seqs
    }

    /// Commit the events a capability's checks have accepted, and acknowledge them.
    fn accept(&mut self, events: Vec<Event>) -> (r: Result<CapabilityAck, CapabilityError>)
        requires
            old(self).inv(),
            old(self).log@.len() + events@.len() < u64::MAX,
        ensures
            settled(*old(self), *final(self), Ok(events@), r),
    {
        let ghost old_log = self.log@;
        let seqs = self.commit(events);
        assert forall|i: int| 0 <= i < old_log.len() implies #[trigger] self.log@[i] == old_log[i] by {
            assert(self.log@.take(old_log.len() as int)[i] == self.log@[i]);
        }
        Ok(CapabilityAck { committed: seqs })
    }

    /// Seed the design with the engineer's intent (trusted input, not model output).
    pub fn capture_intent(&mut self, statement: &str, source: &str) -> (r: EntityId)
        requires
            old(self).inv(),
            old(self).spec_next_id() < u128::MAX,
            old(self).spec_log().len() + 1 < u64::MAX,
        ensures
            final(self).inv(),
            r.0 == old(self).spec_next_id(),
            final(self).spec_state() == apply_spec(
                old(self).spec_state(),
                Event::IntentCaptured {
                    intent: DesignIntent {
                        id: r,
                        statement: final(self).state_intent()->0.statement,
                        structured_summary: final(self).state_intent()->0.structured_summary,
                        source: final(self).state_intent()->0.source,
                    },
                },
            ),
            final(self).state_intent() matches Some(i) && i.id == r && i.statement@ == statement@
                && i.structured_summary@ == statement@ && i.source@ == source@,
            final(self).spec_log().len() == old(self).spec_log().len() + 1,
            final(self).spec_autonomy() == old(self).spec_autonomy(),
    {
        let id = self.fresh_id();
        let intent = DesignIntent {
            id,
            statement: statement.to_owned(),
            structured_summary: statement.to_owned(),
            source: source.to_owned(),
        };
        let mut evs: Vec<Event> = Vec::new();
        evs.push(Event::IntentCaptured { intent });
        let ghost e0 = evs@[0];
        let _ = self.commit(evs);
        proof {
            reveal_with_fuel(fold_events, 2);
            assert(seq![e0].drop_last() =~= Seq::<Event>::empty());
        }
        id
    }

    /// Record a judgement the reasoning engine returned for `request`, so a run replays
    /// without the model. Returns the sequence number of the recorded call.
    pub fn record_reasoning(
        &mut self,
        request: ReasoningRequest,
        response: ReasoningResponse,
    ) -> (r: EventSeq)
        requires
            old(self).inv(),
            old(self).spec_log().len() + 1 < u64::MAX,
        ensures
            final(self).inv(),
            r == old(self).spec_log().len(),
            final(self).spec_log().len() == old(self).spec_log().len() + 1,
            final(self).spec_log()[r as int].event == (Event::ReasoningCall { request, response }),
            final(self).spec_state() == old(self).spec_state(),
            final(self).spec_next_id() == old(self).spec_next_id(),
            final(self).spec_autonomy() == old(self).spec_autonomy(),
    {
        let mut evs: Vec<Event> = Vec::new();
        evs.push(Event::ReasoningCall { request, response });
        let ghost e0 = evs@[0];
        let ghost old_len = self.log@.len();
        let seqs = self.commit(evs);
        proof {
            reveal_with_fuel(fold_events, 2);
            assert(seq![e0].drop_last() =~= Seq::<Event>::empty());
            assert(log_events(self.log@)[old_len as int] == e0);
        }
        seqs[0]
    }

    /// Emit trusted audit or input events (phase lifecycle, captured intent, IR markers,
    /// advisory metadata) through the single commit path.
    pub fn emit(&mut self, events: Vec<Event>) -> (r: Vec<EventSeq>)
        requires
            old(self).inv(),
            old(self).spec_log().len() + events@.len() < u64::MAX,
        ensures
            final(self).inv(),
            log_events(final(self).spec_log()) == log_events(old(self).spec_log()) + events@,
            final(self).spec_state() == fold_events(old(self).spec_state(), events@),
            r@ == seq_range(old(self).spec_log().len(), events@.len()),
            final(self).spec_next_id() == old(self).spec_next_id(),
            final(self).spec_autonomy() == old(self).spec_autonomy(),
    {
        self.commit(events)
    }
}

impl RuntimeCore {
    fn handle_create_requirement(
        &mut self,
        requirement: Requirement,
        decision: Decision,
        evidence: Vec<Evidence>,
        links: Vec<ProvenanceLink>,
    ) -> (r: Result<CapabilityAck, CapabilityError>)
        requires
            old(self).inv(),
            old(self).spec_log().len() + request_size(
                CapabilityRequest::CreateRequirement { requirement, decision, evidence, links },
            ) < u64::MAX,
        ensures
            settled(
                *old(self),
                *final(self),
                decide(
                    old(self).spec_state(),
                    old(self).spec_autonomy(),
                    CapabilityRequest::CreateRequirement { requirement, decision, evidence, links },
                ),
                r,
            ),
    {
        if let Err(e) = requirement.validate() {
            return Err(reject_domain(e));
        }
        if self.autonomy == Autonomy::Supervised {
            return Err(
                reject(
                    "supervised autonomy requires human approval (HITL deferred to a later phase)",
                ),
            );
        }
        let ghost made = seq![
            Event::DecisionCreated { decision },
            Event::RequirementCommitted { requirement },
        ];
        let mut events: Vec<Event> = Vec::new();
        push_evidence(&mut events, &evidence);
        events.push(Event::DecisionCreated { decision });
        events.push(Event::RequirementCommitted { requirement });
        push_links(&mut events, &links);
        assert(events@ =~= evidence_events(evidence@) + made + link_events(links@));
        self.accept(events)
    }

    fn handle_create_constraint(&mut self, constraint: Constraint, links: Vec<ProvenanceLink>) -> (r:
        Result<CapabilityAck, CapabilityError>)
        requires
            old(self).inv(),
            old(self).spec_log().len() + request_size(
                CapabilityRequest::CreateConstraint { constraint, links },
            ) < u64::MAX,
        ensures
            settled(
                *old(self),
                *final(self),
                decide(
                    old(self).spec_state(),
                    old(self).spec_autonomy(),
                    CapabilityRequest::CreateConstraint { constraint, links },
                ),
                r,
            ),
    {
        if let Err(e) = constraint.validate() {
            return Err(reject_domain(e));
        }
        if constraint.subject_requirement.is_null() {
            return Err(reject("constraint has no subject requirement"));
        }
        proof {
            lemma_state_keys(&self.state);
        }
        if !contains_id(&self.state.requirements, constraint.subject_requirement) {
            return Err(
                reject_id(
                    "constraint subject requirement ",
                    constraint.subject_requirement,
                    " does not exist",
                ),
            );
        }
        let mut events: Vec<Event> = Vec::new();
        events.push(Event::ConstraintCommitted { constraint });
        push_links(&mut events, &links);
        self.accept(events)
    }

    fn handle_raise_violation(&mut self, violation: Violation, links: Vec<ProvenanceLink>) -> (r:
        Result<CapabilityAck, CapabilityError>)
        requires
            old(self).inv(),
            old(self).spec_log().len() + request_size(
                CapabilityRequest::RaiseViolation { violation, links },
            ) < u64::MAX,
        ensures
            settled(
                *old(self),
                *final(self),
                decide(
                    old(self).spec_state(),
                    old(self).spec_autonomy(),
                    CapabilityRequest::RaiseViolation { violation, links },
                ),
                r,
            ),
    {
        if violation.subjects.len() == 0 {
            return Err(reject("violation names no subjects (would be untraceable)"));
        }
        let mut events: Vec<Event> = Vec::new();
        events.push(Event::ViolationRaised { violation });
        push_links(&mut events, &links);
        self.accept(events)
    }

    fn handle_grant_waiver(&mut self, waiver: Waiver) -> (r: Result<CapabilityAck, CapabilityError>)
        requires
            old(self).inv(),
            old(self).spec_log().len() + request_size(CapabilityRequest::GrantWaiver { waiver })
                < u64::MAX,
        ensures
            settled(
                *old(self),
                *final(self),
                decide(
                    old(self).spec_state(),
                    old(self).spec_autonomy(),
                    CapabilityRequest::GrantWaiver { waiver },
                ),
                r,
            ),
    {
        if self.autonomy == Autonomy::Supervised {
            return Err(
                reject(
                    "supervised autonomy requires human approval (HITL deferred to a later phase)",
                ),
            );
        }
        proof {
            lemma_state_keys(&self.state);
        }
        if !contains_id(&self.state.violations, waiver.violation) {
            return Err(reject_at("waiver targets unknown violation ", waiver.violation));
        }
        let mut events: Vec<Event> = Vec::new();
        events.push(Event::WaiverGranted { waiver });
        self.accept(events)
    }

    fn handle_create_functional_block(
        &mut self,
        block: FunctionalBlock,
        links: Vec<ProvenanceLink>,
    ) -> (r: Result<CapabilityAck, CapabilityError>)
        requires
            old(self).inv(),
            old(self).spec_log().len() + request_size(
                CapabilityRequest::CreateFunctionalBlock { block, links },
            ) < u64::MAX,
        ensures
            settled(
                *old(self),
                *final(self),
                decide(
                    old(self).spec_state(),
                    old(self).spec_autonomy(),
                    CapabilityRequest::CreateFunctionalBlock { block, links },
                ),
                r,
            ),
    {
        if let Err(e) = block.validate() {
            return Err(reject_domain(e));
        }
        if block.requirements.len() == 0 {
            return Err(
                reject("functional block realizes no requirement (would be untraceable)"),
            );
        }
        proof {
            lemma_state_keys(&self.state);
        }
        if let Some(rid) = first_unknown(&block.requirements, &self.state.requirements) {
            return Err(reject_at("functional block references unknown requirement ", rid));
        }
        let mut events: Vec<Event> = Vec::new();
        events.push(Event::FunctionalBlockCommitted { block });
        push_links(&mut events, &links);
        self.accept(events)
    }

    fn handle_realize_component(
        &mut self,
        component: Component,
        pins: Vec<Pin>,
        links: Vec<ProvenanceLink>,
    ) -> (r: Result<CapabilityAck, CapabilityError>)
        requires
            old(self).inv(),
            old(self).spec_log().len() + request_size(
                CapabilityRequest::RealizeComponent { component, pins, links },
            ) < u64::MAX,
        ensures
            settled(
                *old(self),
                *final(self),
                decide(
                    old(self).spec_state(),
                    old(self).spec_autonomy(),
                    CapabilityRequest::RealizeComponent { component, pins, links },
                ),
                r,
            ),
    {
        if let Err(e) = component.validate() {
            return Err(reject_domain(e));
        }
        proof {
            lemma_state_keys(&self.state);
        }
        if component.origin == ComponentOrigin::Synthesized {
            if component.from_block.is_null() {
                return Err(reject("component has no originating functional block"));
            }
            if !contains_id(&self.state.functional_blocks, component.from_block) {
                return Err(
                    reject_at(
                        "component originates from unknown functional block ",
                        component.from_block,
                    ),
                );
            }
        } else if !component.from_block.is_null() && !contains_id(
            &self.state.functional_blocks,
            component.from_block,
        ) {
            return Err(
                reject_at(
                    "imported component references unknown functional block ",
                    component.from_block,
                ),
            );
        }
        if pins.len() == 0 {
            return Err(reject("component has no pins"));
        }
        let mut events: Vec<Event> = Vec::new();
        events.push(Event::ComponentCommitted { component });
        push_pins(&mut events, &pins);
        push_links(&mut events, &links);
        self.accept(events)
    }

    fn handle_create_net(&mut self, net: Net, links: Vec<ProvenanceLink>) -> (r: Result<
        CapabilityAck,
        CapabilityError,
    >)
        requires
            old(self).inv(),
            old(self).spec_log().len() + request_size(CapabilityRequest::CreateNet { net, links })
                < u64::MAX,
        ensures
            settled(
                *old(self),
                *final(self),
                decide(
                    old(self).spec_state(),
                    old(self).spec_autonomy(),
                    CapabilityRequest::CreateNet { net, links },
                ),
                r,
            ),
    {
        if let Err(e) = net.validate() {
            return Err(reject_domain(e));
        }
        if net.origin == NetOrigin::Logical && net.members.len() == 0 {
            return Err(reject("net joins no pins (carries no connectivity)"));
        }
        proof {
            lemma_state_keys(&self.state);
        }
        if let Some(p) = first_unknown(&net.members, &self.state.pins) {
            return Err(reject_at("net references unknown pin ", p));
        }
        let mut events: Vec<Event> = Vec::new();
        events.push(Event::NetCommitted { net });
        push_links(&mut events, &links);
        self.accept(events)
    }

    fn handle_create_part(&mut self, part: Part, links: Vec<ProvenanceLink>) -> (r: Result<
        CapabilityAck,
        CapabilityError,
    >)
        requires
            old(self).inv(),
            old(self).spec_log().len() + request_size(CapabilityRequest::CreatePart { part, links })
                < u64::MAX,
        ensures
            settled(
                *old(self),
                *final(self),
                decide(
                    old(self).spec_state(),
                    old(self).spec_autonomy(),
                    CapabilityRequest::CreatePart { part, links },
                ),
                r,
            ),
    {
        if let Err(e) = part.validate() {
            return Err(reject_domain(e));
        }
        let mut events: Vec<Event> = Vec::new();
        events.push(Event::PartCommitted { part });
        push_links(&mut events, &links);
        self.accept(events)
    }

    fn handle_create_bom_line_item(&mut self, item: BomLineItem, links: Vec<ProvenanceLink>) -> (r:
        Result<CapabilityAck, CapabilityError>)
        requires
            old(self).inv(),
            old(self).spec_log().len() + request_size(
                CapabilityRequest::CreateBomLineItem { item, links },
            ) < u64::MAX,
        ensures
            settled(
                *old(self),
                *final(self),
                decide(
                    old(self).spec_state(),
                    old(self).spec_autonomy(),
                    CapabilityRequest::CreateBomLineItem { item, links },
                ),
                r,
            ),
    {
        if let Err(e) = item.validate() {
            return Err(reject_domain(e));
        }
        if item.part.is_null() {
            return Err(reject("BOM line item has no part"));
        }
        proof {
            lemma_state_keys(&self.state);
        }
        if !contains_id(&self.state.parts, item.part) {
            return Err(reject_at("BOM line item references unknown part ", item.part));
        }
        match bom_problem(&self.state, &item.components) {
            Some((c, true)) => {
                return Err(reject_at("BOM line item references unknown component ", c));
            },
            Some((c, false)) => {
                return Err(
                    reject_id(
                        "BOM line item double-covers component ",
                        c,
                        " (already on another line)",
                    ),
                );
            },
            None => {},
        }
        let mut events: Vec<Event> = Vec::new();
        events.push(Event::BomLineItemCommitted { item });
        push_links(&mut events, &links);
        self.accept(events)
    }

    fn handle_create_board(&mut self, board: Board, links: Vec<ProvenanceLink>) -> (r: Result<
        CapabilityAck,
        CapabilityError,
    >)
        requires
            old(self).inv(),
            old(self).spec_log().len() + request_size(CapabilityRequest::CreateBoard { board, links })
                < u64::MAX,
        ensures
            settled(
                *old(self),
                *final(self),
                decide(
                    old(self).spec_state(),
                    old(self).spec_autonomy(),
                    CapabilityRequest::CreateBoard { board, links },
                ),
                r,
            ),
    {
        if let Err(e) = board.validate() {
            return Err(reject_domain(e));
        }
        if self.state.board.is_some() {
            return Err(reject("design already has a board outline"));
        }
        let mut events: Vec<Event> = Vec::new();
        events.push(Event::BoardCommitted { board });
        push_links(&mut events, &links);
        self.accept(events)
    }

    fn handle_place_component(&mut self, placement: Placement, links: Vec<ProvenanceLink>) -> (r:
        Result<CapabilityAck, CapabilityError>)
        requires
            old(self).inv(),
            old(self).spec_log().len() + request_size(
                CapabilityRequest::PlaceComponent { placement, links },
            ) < u64::MAX,
        ensures
            settled(
                *old(self),
                *final(self),
                decide(
                    old(self).spec_state(),
                    old(self).spec_autonomy(),
                    CapabilityRequest::PlaceComponent { placement, links },
                ),
                r,
            ),
    {
        if let Err(e) = placement.validate() {
            return Err(reject_domain(e));
        }
        if placement.component.is_null() {
            return Err(reject("placement has no component"));
        }
        proof {
            lemma_state_keys(&self.state);
        }
        if !contains_id(&self.state.components, placement.component) {
            return Err(
                reject_at("placement references unknown component ", placement.component),
            );
        }
        if self.state.board.is_none() {
            return Err(reject("cannot place a component before the board outline exists"));
        }
        if is_placed(&self.state.placements, placement.component) {
            return Err(reject("component is already placed"));
        }
        let mut events: Vec<Event> = Vec::new();
        events.push(Event::PlacementCommitted { placement });
        push_links(&mut events, &links);
        self.accept(events)
    }

    fn handle_route_net(&mut self, track: Track, links: Vec<ProvenanceLink>) -> (r: Result<
        CapabilityAck,
        CapabilityError,
    >)
        requires
            old(self).inv(),
            old(self).spec_log().len() + request_size(CapabilityRequest::RouteNet { track, links })
                < u64::MAX,
        ensures
            settled(
                *old(self),
                *final(self),
                decide(
                    old(self).spec_state(),
                    old(self).spec_autonomy(),
                    CapabilityRequest::RouteNet { track, links },
                ),
                r,
            ),
    {
        if let Err(e) = track.validate() {
            return Err(reject_domain(e));
        }
        if track.net.is_null() {
            return Err(reject("track realizes no net"));
        }
        proof {
            lemma_state_keys(&self.state);
        }
        if !contains_id(&self.state.nets, track.net) {
            return Err(reject_at("track realizes unknown net ", track.net));
        }
        if self.state.board.is_none() {
            return Err(reject("cannot route a net before the board outline exists"));
        }
        let mut events: Vec<Event> = Vec::new();
        events.push(Event::TrackCommitted { track });
        push_links(&mut events, &links);
        self.accept(events)
    }
}

impl RuntimeCore {
    /// Whether `id` names a committed requirement, decision or functional block.
    fn is_anchor_exec(&self, id: EntityId) -> (r: bool)
        ensures
            r == is_anchor(self.spec_state(), id),
    {
        proof {
            lemma_state_keys(&self.state);
        }
        contains_id(&self.state.requirements, id) || contains_id(&self.state.decisions, id)
            || contains_id(&self.state.functional_blocks, id)
    }

    /// Whether `id` names a committed requirement, decision, functional block or constraint.
    fn resolves_exec(&self, id: EntityId) -> (r: bool)
        ensures
            r == resolves(self.spec_state(), id),
    {
        proof {
            lemma_state_keys(&self.state);
        }
        self.is_anchor_exec(id) || contains_id(&self.state.constraints, id)
    }

    fn handle_raise_assumption(&mut self, assumption: Assumption, links: Vec<ProvenanceLink>) -> (r: Result<CapabilityAck, CapabilityError>)
        requires
            old(self).inv(),
            old(self).spec_log().len() + request_size(CapabilityRequest::RaiseAssumption { assumption, links }) < u64::MAX,
        ensures
            settled(
                *old(self),
                *final(self),
                decide(old(self).spec_state(), old(self).spec_autonomy(), CapabilityRequest::RaiseAssumption { assumption, links }),
                r,
            ),
    {
        if let Err(e) = assumption.validate() {
            return Err(reject_domain(e));
        }
        if assumption.rests_on.is_null() {
            return Err(reject("assumption rests on no entity (would be untraceable)"));
        }
        if !self.is_anchor_exec(assumption.rests_on) {
            return Err(reject_at("assumption rests on unknown entity ", assumption.rests_on));
        }
        if assumption.status != AssumptionStatus::Open {
            return Err(reject("a raised assumption must be Open"));
        }
        let mut events: Vec<Event> = Vec::new();
        events.push(Event::AssumptionRaised { assumption });
        push_links(&mut events, &links);
        self.accept(events)
    }

    fn handle_discharge_assumption(&mut self, assumption: EntityId, discharge: Discharge) -> (r: Result<CapabilityAck, CapabilityError>)
        requires
            old(self).inv(),
            old(self).spec_log().len() + request_size(CapabilityRequest::DischargeAssumption { assumption, discharge }) < u64::MAX,
        ensures
            settled(
                *old(self),
                *final(self),
                decide(old(self).spec_state(), old(self).spec_autonomy(), CapabilityRequest::DischargeAssumption { assumption, discharge }),
                r,
            ),
    {
        proof {
            lemma_state_keys(&self.state);
        }
        match find_index(&self.state.assumptions, assumption) {
            None => {
                return Err(reject_at("discharge targets unknown assumption ", assumption));
            },
            Some(i) => {
                if self.state.assumptions[i].status != AssumptionStatus::Open {
                    return Err(reject("assumption is not open"));
                }
            },
        }
        if discharge.target.is_null() || !self.resolves_exec(discharge.target) {
            return Err(reject_id("discharge target ", discharge.target, " does not exist"));
        }
        let mut events: Vec<Event> = Vec::new();
        events.push(Event::AssumptionDischarged { assumption, discharge });
        self.accept(events)
    }

    fn handle_raise_risk(&mut self, risk: Risk, links: Vec<ProvenanceLink>) -> (r: Result<CapabilityAck, CapabilityError>)
        requires
            old(self).inv(),
            old(self).spec_log().len() + request_size(CapabilityRequest::RaiseRisk { risk, links }) < u64::MAX,
        ensures
            settled(
                *old(self),
                *final(self),
                decide(old(self).spec_state(), old(self).spec_autonomy(), CapabilityRequest::RaiseRisk { risk, links }),
                r,
            ),
    {
        if let Err(e) = risk.validate() {
            return Err(reject_domain(e));
        }
        let mut events: Vec<Event> = Vec::new();
        events.push(Event::RiskRaised { risk });
        push_links(&mut events, &links);
        self.accept(events)
    }

    fn handle_accept_risk(&mut self, risk: EntityId, accepted_by: String) -> (r: Result<CapabilityAck, CapabilityError>)
        requires
            old(self).inv(),
            old(self).spec_log().len() + request_size(CapabilityRequest::AcceptRisk { risk, accepted_by }) < u64::MAX,
        ensures
            settled(
                *old(self),
                *final(self),
                decide(old(self).spec_state(), old(self).spec_autonomy(), CapabilityRequest::AcceptRisk { risk, accepted_by }),
                r,
            ),
    {
        proof {
            lemma_state_keys(&self.state);
        }
        if !contains_id(&self.state.risks, risk) {
            return Err(reject_at("accept targets unknown risk ", risk));
        }
        let mut events: Vec<Event> = Vec::new();
        events.push(Event::RiskAccepted { risk, accepted_by });
        self.accept(events)
    }

    fn handle_record_objective(&mut self, objective: Objective, links: Vec<ProvenanceLink>) -> (r: Result<CapabilityAck, CapabilityError>)
        requires
            old(self).inv(),
            old(self).spec_log().len() + request_size(CapabilityRequest::RecordObjective { objective, links }) < u64::MAX,
        ensures
            settled(
                *old(self),
                *final(self),
                decide(old(self).spec_state(), old(self).spec_autonomy(), CapabilityRequest::RecordObjective { objective, links }),
                r,
            ),
    {
        if let Err(e) = objective.validate() {
            return Err(reject_domain(e));
        }
        if objective.source.is_null() || !self.resolves_exec(objective.source) {
            return Err(reject_at("objective is rooted in unknown source ", objective.source));
        }
        let mut events: Vec<Event> = Vec::new();
        events.push(Event::ObjectiveRecorded { objective });
        push_links(&mut events, &links);
        self.accept(events)
    }

    fn handle_record_tradeoff(&mut self, tradeoff: Tradeoff, links: Vec<ProvenanceLink>) -> (r: Result<CapabilityAck, CapabilityError>)
        requires
            old(self).inv(),
            old(self).spec_log().len() + request_size(CapabilityRequest::RecordTradeoff { tradeoff, links }) < u64::MAX,
        ensures
            settled(
                *old(self),
                *final(self),
                decide(old(self).spec_state(), old(self).spec_autonomy(), CapabilityRequest::RecordTradeoff { tradeoff, links }),
                r,
            ),
    {
        if let Err(e) = tradeoff.validate() {
            return Err(reject_domain(e));
        }
        let mut events: Vec<Event> = Vec::new();
        events.push(Event::TradeoffRecorded { tradeoff });
        push_links(&mut events, &links);
        self.accept(events)
    }

    fn handle_create_power_domain(&mut self, domain: PowerDomain, links: Vec<ProvenanceLink>) -> (r: Result<CapabilityAck, CapabilityError>)
        requires
            old(self).inv(),
            old(self).spec_log().len() + request_size(CapabilityRequest::CreatePowerDomain { domain, links }) < u64::MAX,
        ensures
            settled(
                *old(self),
                *final(self),
                decide(old(self).spec_state(), old(self).spec_autonomy(), CapabilityRequest::CreatePowerDomain { domain, links }),
                r,
            ),
    {
        if let Err(e) = domain.validate() {
            return Err(reject_domain(e));
        }
        if domain.source_component.is_null() {
            return Err(reject("power domain has no source component"));
        }
        proof {
            lemma_state_keys(&self.state);
        }
        if !contains_id(&self.state.components, domain.source_component) {
            return Err(
                reject_id(
                    "power domain source component ",
                    domain.source_component,
                    " does not exist",
                ),
            );
        }
        if let Some(n) = first_unknown(&domain.nets, &self.state.nets) {
            return Err(reject_at("power domain references unknown net ", n));
        }
        let mut events: Vec<Event> = Vec::new();
        events.push(Event::PowerDomainCommitted { domain });
        push_links(&mut events, &links);
        self.accept(events)
    }

    fn handle_create_clock_domain(&mut self, domain: ClockDomain, links: Vec<ProvenanceLink>) -> (r: Result<CapabilityAck, CapabilityError>)
        requires
            old(self).inv(),
            old(self).spec_log().len() + request_size(CapabilityRequest::CreateClockDomain { domain, links }) < u64::MAX,
        ensures
            settled(
                *old(self),
                *final(self),
                decide(old(self).spec_state(), old(self).spec_autonomy(), CapabilityRequest::CreateClockDomain { domain, links }),
                r,
            ),
    {
        if let Err(e) = domain.validate() {
            return Err(reject_domain(e));
        }
        if domain.source_component.is_null() {
            return Err(reject("clock domain has no source component"));
        }
        proof {
            lemma_state_keys(&self.state);
        }
        if !contains_id(&self.state.components, domain.source_component) {
            return Err(
                reject_id(
                    "clock domain source component ",
                    domain.source_component,
                    " does not exist",
                ),
            );
        }
        if let Some(n) = first_unknown(&domain.members, &self.state.nets) {
            return Err(reject_at("clock domain references unknown net ", n));
        }
        let mut events: Vec<Event> = Vec::new();
        events.push(Event::ClockDomainCommitted { domain });
        push_links(&mut events, &links);
        self.accept(events)
    }
}

impl RuntimeCore {
    /// The capability seam, for callers that cannot bound the log themselves: a request that
    /// could carry the log past its last sequence number is refused with `the event log is
    /// full`, committing nothing; any other request goes to [`RuntimeCore::invoke`].
    pub fn submit(&mut self, request: CapabilityRequest) -> (r: Result<CapabilityAck, CapabilityError>)
        requires
            old(self).inv(),
        ensures
            old(self).spec_log().len() + request_size(request) < u64::MAX ==> settled(
                *old(self),
                *final(self),
                decide(old(self).spec_state(), old(self).spec_autonomy(), request),
                r,
            ),
            old(self).spec_log().len() + request_size(request) >= u64::MAX ==> settled(
                *old(self),
                *final(self),
                Err("the event log is full"@),
                r,
            ),
    {
        let n = request_len(&request);
        if self.log.len() as u128 + n >= u64::MAX as u128 {
            return Err(reject("the event log is full"));
        }
        self.invoke(request)
    }

    /// The capability seam: re-validate a proposed mutation against the current state and
    /// either commit exactly the events it stands for or refuse it with the reason, leaving
    /// the log and the state untouched.
    pub fn invoke(&mut self, request: CapabilityRequest) -> (r: Result<CapabilityAck, CapabilityError>)
        requires
            old(self).inv(),
            old(self).spec_log().len() + request_size(request) < u64::MAX,
        ensures
            settled(
                *old(self),
                *final(self),
                decide(old(self).spec_state(), old(self).spec_autonomy(), request),
                r,
            ),
    {
        match request {
            CapabilityRequest::CreateRequirement { requirement, decision, evidence, links } => {
                self.handle_create_requirement(requirement, decision, evidence, links)
            },
            CapabilityRequest::CreateConstraint { constraint, links } => {
                self.handle_create_constraint(constraint, links)
            },
            CapabilityRequest::RaiseViolation { violation, links } => {
                self.handle_raise_violation(violation, links)
            },
            CapabilityRequest::GrantWaiver { waiver } => self.handle_grant_waiver(waiver),
            CapabilityRequest::CreateFunctionalBlock { block, links } => {
                self.handle_create_functional_block(block, links)
            },
            CapabilityRequest::RealizeComponent { component, pins, links } => {
                self.handle_realize_component(component, pins, links)
            },
            CapabilityRequest::CreateNet { net, links } => self.handle_create_net(net, links),
            CapabilityRequest::CreatePart { part, links } => self.handle_create_part(part, links),
            CapabilityRequest::CreateBomLineItem { item, links } => {
                self.handle_create_bom_line_item(item, links)
            },
            CapabilityRequest::CreateBoard { board, links } => self.handle_create_board(board, links),
            CapabilityRequest::PlaceComponent { placement, links } => {
                self.handle_place_component(placement, links)
            },
            CapabilityRequest::RouteNet { track, links } => self.handle_route_net(track, links),
            CapabilityRequest::RaiseAssumption { assumption, links } => {
                self.handle_raise_assumption(assumption, links)
            },
            CapabilityRequest::DischargeAssumption { assumption, discharge } => {
                self.handle_discharge_assumption(assumption, discharge)
            },
            CapabilityRequest::RaiseRisk { risk, links } => self.handle_raise_risk(risk, links),
            CapabilityRequest::AcceptRisk { risk, accepted_by } => {
                self.handle_accept_risk(risk, accepted_by)
            },
            CapabilityRequest::RecordObjective { objective, links } => {
                self.handle_record_objective(objective, links)
            },
            CapabilityRequest::RecordTradeoff { tradeoff, links } => {
                self.handle_record_tradeoff(tradeoff, links)
            },
            CapabilityRequest::CreatePowerDomain { domain, links } => {
                self.handle_create_power_domain(domain, links)
            },
            CapabilityRequest::CreateClockDomain { domain, links } => {
                self.handle_create_clock_domain(domain, links)
            },
        }
    }
}

} // verus!
