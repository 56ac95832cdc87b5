use eak::domain::{
    Alternative, Assumption, AssumptionCriticality, AssumptionStatus, Component, ComponentClass,
    ComponentOrigin, Decision, Dimension, Discharge, DischargeResolution, EntityId,
    FidelityMethod, FunctionalBlock, ModelFidelity, Net, NetClass, NetOrigin, Objective, Pin,
    PinElectricalType, PowerDomain, Priority, ProvenanceLink, Quantity, RelationType, Requirement,
    RequirementCategory, RequirementStatus, Risk, RiskLikelihood, RiskSeverity, RiskStatus,
    Tradeoff,
};
use eak::kernel::RuntimeCore;
use eak::ports::Event;
use eak::protocol::{Autonomy, CapabilityError, CapabilityRequest};
use eak::state::replay;

fn new_core() -> RuntimeCore {
    RuntimeCore::new(Autonomy::Autonomous, 7)
}

fn same_state(core: &RuntimeCore) {
    let replayed = replay(core.log());
    assert_eq!(format!("{:?}", core.state), format!("{:?}", replayed));
}

fn q(nano: i128, dimension: Dimension) -> Quantity {
    Quantity { nano, dimension }
}

fn seed_requirement(core: &mut RuntimeCore) -> EntityId {
    core.capture_intent("USB-C powered IoT sensor node, 3.3 V rail", "engineer");
    let src = core.state.intent.as_ref().unwrap().id;
    let rid = core.fresh_id();
    let did = core.fresh_id();
    core.invoke(CapabilityRequest::CreateRequirement {
        requirement: Requirement {
            id: rid,
            statement: "Device shall regulate to 3.3 V".into(),
            category: RequirementCategory::Electrical,
            priority: Priority::High,
            acceptance_criterion: "rail measures 3.3 V".into(),
            status: RequirementStatus::Accepted,
            source: src,
            targets: vec![],
        },
        decision: Decision {
            id: did,
            subject: rid,
            rationale: "from intent".into(),
            decider: "test".into(),
            reasoning_call_seq: None,
            evidence: vec![],
            confidence: 1_000_000,
        },
        evidence: vec![],
        links: vec![],
    })
    .unwrap();
    rid
}

fn open_assumption(id: EntityId, statement: &str, rests_on: EntityId, criticality: AssumptionCriticality) -> Assumption {
    Assumption {
        id,
        statement: statement.into(),
        rests_on,
        criticality,
        status: AssumptionStatus::Open,
        discharge: None,
    }
}

#[test]
fn raise_assumption_seam_accepts_valid_then_folds_and_replays_byte_identically() {
    let mut core = new_core();
    let rid = seed_requirement(&mut core);
    let aid = core.fresh_id();
    core.invoke(CapabilityRequest::RaiseAssumption {
        assumption: open_assumption(aid, "the USB-C source can deliver 5 V @ 3 A", rid, AssumptionCriticality::Critical),
        links: vec![],
    })
    .expect("a well-formed assumption resting on a committed requirement is accepted");

    assert_eq!(core.state.assumptions.len(), 1);
    let a = core.state.assumption(aid).expect("assumption folded by id");
    assert!(a.is_open());
    assert!(a.is_blocking());
    assert_eq!(core.state.undischarged_critical_assumptions().len(), 1);
    same_state(&core);
}

#[test]
fn raise_assumption_seam_rejects_malformed_and_dangling_proposals() {
    let mut core = new_core();
    let rid = seed_requirement(&mut core);
    let (a_empty, a_null, a_phantom, a_born_discharged) =
        (core.fresh_id(), core.fresh_id(), core.fresh_id(), core.fresh_id());
    let log_before = core.log().len();

    let err = core
        .invoke(CapabilityRequest::RaiseAssumption {
            assumption: open_assumption(a_empty, "   ", rid, AssumptionCriticality::Normal),
            links: vec![],
        })
        .unwrap_err();
    assert!(matches!(err, CapabilityError::Rejected(_)));

    let err = core
        .invoke(CapabilityRequest::RaiseAssumption {
            assumption: open_assumption(a_null, "rests on nothing", EntityId::null(), AssumptionCriticality::Critical),
            links: vec![],
        })
        .unwrap_err();
    assert!(matches!(err, CapabilityError::Rejected(_)));

    let err = core
        .invoke(CapabilityRequest::RaiseAssumption {
            assumption: open_assumption(a_phantom, "rests on a phantom", EntityId(0xDEAD_BEEF), AssumptionCriticality::Critical),
            links: vec![],
        })
        .unwrap_err();
    assert!(matches!(err, CapabilityError::Rejected(_)));

    let err = core
        .invoke(CapabilityRequest::RaiseAssumption {
            assumption: Assumption {
                id: a_born_discharged,
                statement: "already discharged at birth".into(),
                rests_on: rid,
                criticality: AssumptionCriticality::Critical,
                status: AssumptionStatus::Discharged,
                discharge: Some(Discharge {
                    resolution: DischargeResolution::GroundedFact,
                    target: rid,
                    decided_by: "test".into(),
                }),
            },
            links: vec![],
        })
        .unwrap_err();
    assert!(matches!(err, CapabilityError::Rejected(_)));

    assert!(core.state.assumptions.is_empty());
    assert_eq!(core.log().len(), log_before);
}

#[test]
fn discharge_assumption_seam_flips_status_records_resolution_and_replays() {
    let mut core = new_core();
    let rid = seed_requirement(&mut core);
    let aid = core.fresh_id();
    core.invoke(CapabilityRequest::RaiseAssumption {
        assumption: open_assumption(aid, "the ambient stays below 60 C", rid, AssumptionCriticality::Critical),
        links: vec![],
    })
    .unwrap();
    assert_eq!(core.state.undischarged_critical_assumptions().len(), 1);

    core.invoke(CapabilityRequest::DischargeAssumption {
        assumption: aid,
        discharge: Discharge {
            resolution: DischargeResolution::EnforcedConstraint,
            target: rid,
            decided_by: "engineer".into(),
        },
    })
    .expect("discharging an open assumption against a committed entity is accepted");

    let a = core.state.assumption(aid).expect("still present after discharge");
    assert_eq!(a.status, AssumptionStatus::Discharged);
    assert!(!a.is_open());
    assert!(!a.is_blocking());
    let d = a.discharge.as_ref().expect("discharge recorded on the assumption");
    assert_eq!(d.resolution, DischargeResolution::EnforcedConstraint);
    assert_eq!(d.target, rid);
    assert!(core.state.undischarged_critical_assumptions().is_empty());
    same_state(&core);
}

#[test]
fn discharge_assumption_seam_rejects_unknown_target_non_open_and_dangling_discharge() {
    let mut core = new_core();
    let rid = seed_requirement(&mut core);

    let err = core
        .invoke(CapabilityRequest::DischargeAssumption {
            assumption: EntityId(0xDEAD_BEEF),
            discharge: Discharge {
                resolution: DischargeResolution::GroundedFact,
                target: rid,
                decided_by: "engineer".into(),
            },
        })
        .unwrap_err();
    assert!(matches!(err, CapabilityError::Rejected(_)));

    let aid = core.fresh_id();
    core.invoke(CapabilityRequest::RaiseAssumption {
        assumption: open_assumption(aid, "the connector is genuine USB-C", rid, AssumptionCriticality::Critical),
        links: vec![],
    })
    .unwrap();

    let err = core
        .invoke(CapabilityRequest::DischargeAssumption {
            assumption: aid,
            discharge: Discharge {
                resolution: DischargeResolution::GroundedFact,
                target: EntityId(0xFEED_FACE),
                decided_by: "engineer".into(),
            },
        })
        .unwrap_err();
    assert!(matches!(err, CapabilityError::Rejected(_)));
    assert!(core.state.assumption(aid).unwrap().is_open());

    core.invoke(CapabilityRequest::DischargeAssumption {
        assumption: aid,
        discharge: Discharge {
            resolution: DischargeResolution::GroundedFact,
            target: rid,
            decided_by: "engineer".into(),
        },
    })
    .unwrap();

    let err = core
        .invoke(CapabilityRequest::DischargeAssumption {
            assumption: aid,
            discharge: Discharge {
                resolution: DischargeResolution::AcceptedRisk,
                target: rid,
                decided_by: "engineer".into(),
            },
        })
        .unwrap_err();
    assert!(matches!(err, CapabilityError::Rejected(_)));

    assert_eq!(core.state.assumptions.len(), 1);
    assert_eq!(core.state.assumption(aid).unwrap().status, AssumptionStatus::Discharged);
    same_state(&core);
}

fn fidelity(concern: &str, method: FidelityMethod, confidence: i64, scope: &str) -> ModelFidelity {
    ModelFidelity { concern: concern.into(), method, confidence, scope: scope.into() }
}

#[test]
fn fidelity_tag_emitted_folds_into_its_own_store_and_replays_byte_identically() {
    let mut core = new_core();
    let target = seed_requirement(&mut core);
    let requirements_before = format!("{:?}", core.state.requirements);

    let seqs = core.emit(vec![Event::FidelityTagged {
        target,
        fidelity: fidelity("worst-case rail droop", FidelityMethod::FirstOrderFloor, 600_000, "the 3.3 V rail"),
        reasoning_call_seq: None,
    }]);
    assert_eq!(seqs.len(), 1);

    assert_eq!(core.state.fidelity_tags.len(), 1);
    let tags = core.state.fidelity_for(target);
    assert_eq!(tags.len(), 1, "fidelity_for reads the tag back by target");
    assert_eq!(tags[0].method, FidelityMethod::FirstOrderFloor);
    assert_eq!(tags[0].confidence, 600_000);
    assert_eq!(tags[0].concern, "worst-case rail droop");

    assert_eq!(
        format!("{:?}", core.state.requirements),
        requirements_before,
        "a fidelity tag never mutates the entity it describes"
    );
    same_state(&core);
}

#[test]
fn fidelity_for_returns_all_tags_for_a_target_in_insertion_order() {
    let mut core = new_core();
    let target = seed_requirement(&mut core);
    let other = core.fresh_id();

    core.emit(vec![
        Event::FidelityTagged {
            target,
            fidelity: fidelity("thermal", FidelityMethod::Assumed, 200_000, "junction"),
            reasoning_call_seq: None,
        },
        Event::FidelityTagged {
            target: other,
            fidelity: fidelity("unrelated", FidelityMethod::Measured, 1_000_000, "elsewhere"),
            reasoning_call_seq: None,
        },
        Event::FidelityTagged {
            target,
            fidelity: fidelity("electrical", FidelityMethod::Calculated, 900_000, "rail"),
            reasoning_call_seq: None,
        },
    ]);

    let tags = core.state.fidelity_for(target);
    assert_eq!(tags.len(), 2, "only this target's tags, not the other's");
    assert_eq!(tags[0].concern, "thermal");
    assert_eq!(tags[1].concern, "electrical");
    same_state(&core);
}

fn open_risk(id: EntityId, statement: &str, owner: &str, residual: RiskSeverity) -> Risk {
    Risk {
        id,
        statement: statement.into(),
        likelihood: RiskLikelihood::Medium,
        severity: RiskSeverity::High,
        mitigation: "add a TVS diode on the USB-C VBUS".into(),
        residual,
        owner: owner.into(),
        status: RiskStatus::Open,
    }
}

#[test]
fn raise_risk_seam_accepts_valid_then_folds_and_replays_byte_identically() {
    let mut core = new_core();
    let rid = seed_requirement(&mut core);
    let risk_id = core.fresh_id();
    let link_id = core.fresh_id();

    core.invoke(CapabilityRequest::RaiseRisk {
        risk: open_risk(risk_id, "an ESD strike on the USB-C connector could latch up the MCU", "hardware lead", RiskSeverity::Low),
        links: vec![ProvenanceLink { id: link_id, from: risk_id, to: rid, relation: RelationType::TracesTo }],
    })
    .expect("a well-formed risk with a valid owner is accepted at the seam");

    assert_eq!(core.state.risks.len(), 1);
    let r = core.state.risk(risk_id).expect("risk folded by id");
    assert_eq!(r.status, RiskStatus::Open);
    assert_eq!(r.owner, "hardware lead");
    same_state(&core);
}

#[test]
fn raise_risk_seam_rejects_malformed_proposals_and_commits_nothing() {
    let mut core = new_core();
    seed_requirement(&mut core);
    let (r_empty_stmt, r_empty_owner) = (core.fresh_id(), core.fresh_id());

    let err = core
        .invoke(CapabilityRequest::RaiseRisk {
            risk: open_risk(r_empty_stmt, "   ", "hardware lead", RiskSeverity::Low),
            links: vec![],
        })
        .unwrap_err();
    assert!(matches!(err, CapabilityError::Rejected(_)));

    let err = core
        .invoke(CapabilityRequest::RaiseRisk {
            risk: open_risk(r_empty_owner, "ESD on the connector", "  ", RiskSeverity::High),
            links: vec![],
        })
        .unwrap_err();
    assert!(matches!(err, CapabilityError::Rejected(_)));

    assert!(core.state.risks.is_empty());
}

#[test]
fn accept_risk_seam_flips_status_to_accepted_and_replays() {
    let mut core = new_core();
    seed_requirement(&mut core);
    let risk_id = core.fresh_id();

    core.invoke(CapabilityRequest::RaiseRisk {
        risk: open_risk(risk_id, "thermal runaway under sustained full load", "thermal owner", RiskSeverity::Critical),
        links: vec![],
    })
    .unwrap();
    assert_eq!(core.state.unaccepted_critical_risks().len(), 1);

    core.invoke(CapabilityRequest::AcceptRisk { risk: risk_id, accepted_by: "founder".into() })
        .expect("accepting an existing risk is accepted at the seam");

    let r = core.state.risk(risk_id).expect("still present after accept");
    assert_eq!(r.status, RiskStatus::Accepted);
    assert!(core.state.unaccepted_critical_risks().is_empty());
    same_state(&core);
}

#[test]
fn accept_risk_seam_rejects_unknown_target_and_commits_nothing() {
    let mut core = new_core();
    seed_requirement(&mut core);
    let err = core
        .invoke(CapabilityRequest::AcceptRisk { risk: EntityId(0xDEAD_BEEF), accepted_by: "founder".into() })
        .unwrap_err();
    assert!(matches!(err, CapabilityError::Rejected(_)));
    assert!(core.state.risks.is_empty());
}

#[test]
fn risk_does_not_block_release_but_the_read_query_surfaces_the_posture() {
    let mut core = new_core();
    seed_requirement(&mut core);
    let (crit_id, low_id) = (core.fresh_id(), core.fresh_id());

    core.invoke(CapabilityRequest::RaiseRisk {
        risk: open_risk(crit_id, "unmitigated brownout", "power owner", RiskSeverity::Critical),
        links: vec![],
    })
    .unwrap();
    core.invoke(CapabilityRequest::RaiseRisk {
        risk: open_risk(low_id, "minor cosmetic silkscreen error", "layout owner", RiskSeverity::Low),
        links: vec![],
    })
    .unwrap();

    assert_eq!(core.state.risks.len(), 2);
    let surfaced = core.state.unaccepted_critical_risks();
    assert_eq!(surfaced.len(), 1, "only the Critical-residual, non-Accepted risk is surfaced");
    assert_eq!(surfaced[0].id, crit_id);
    // Tracked truth only: no blocking violation exists because of the open risk.
    assert!(core.state.open_blocking_violations().is_empty());
    same_state(&core);
}

fn alternative(label: &str, description: &str, scores: Vec<i64>, rejected: bool) -> Alternative {
    Alternative { label: label.into(), description: description.into(), scores, rejected }
}

fn well_formed_tradeoff(id: EntityId) -> Tradeoff {
    Tradeoff {
        id,
        question: "Which regulator topology for the 3.3 V rail?".into(),
        alternatives: vec![
            alternative("buck", "switching buck converter", vec![900_000, 600_000], false),
            alternative("ldo", "linear low-dropout regulator", vec![400_000, 900_000], true),
            alternative("charge-pump", "switched-capacitor charge pump", vec![300_000, 500_000], true),
        ],
        criteria: vec!["efficiency".into(), "simplicity".into()],
        chosen: 0,
        rationale: "efficiency dominates at this load; the LDO's droop is unacceptable".into(),
        decided_by: "hardware lead".into(),
    }
}

#[test]
fn record_objective_seam_accepts_valid_then_folds_and_replays_byte_identically() {
    let mut core = new_core();
    let rid = seed_requirement(&mut core);
    let obj_id = core.fresh_id();
    let link_id = core.fresh_id();

    core.invoke(CapabilityRequest::RecordObjective {
        objective: Objective { id: obj_id, statement: "minimize board area".into(), weight: 700_000, source: rid },
        links: vec![ProvenanceLink { id: link_id, from: obj_id, to: rid, relation: RelationType::TracesTo }],
    })
    .expect("a well-formed objective rooted in a committed source is accepted at the seam");

    assert_eq!(core.state.objectives.len(), 1);
    let o = core.state.objective(obj_id).expect("objective folded by id");
    assert_eq!(o.statement, "minimize board area");
    assert_eq!(o.weight, 700_000);
    same_state(&core);
}

#[test]
fn record_objective_seam_rejects_empty_statement_and_commits_nothing() {
    let mut core = new_core();
    let rid = seed_requirement(&mut core);
    let obj_id = core.fresh_id();
    let err = core
        .invoke(CapabilityRequest::RecordObjective {
            objective: Objective { id: obj_id, statement: "   ".into(), weight: 700_000, source: rid },
            links: vec![],
        })
        .unwrap_err();
    assert!(matches!(err, CapabilityError::Rejected(_)));
    assert!(core.state.objectives.is_empty());
}

#[test]
fn record_tradeoff_seam_accepts_valid_then_folds_and_replays_byte_identically() {
    let mut core = new_core();
    let _rid = seed_requirement(&mut core);
    let td_id = core.fresh_id();

    core.invoke(CapabilityRequest::RecordTradeoff { tradeoff: well_formed_tradeoff(td_id), links: vec![] })
        .expect("a well-formed tradeoff preserving the rejected space is accepted at the seam");

    assert_eq!(core.state.tradeoffs.len(), 1);
    let t = core.state.tradeoff(td_id).expect("tradeoff folded by id");
    assert_eq!(t.chosen, 0);
    assert!(!t.alternatives[t.chosen].rejected, "chosen is not rejected");
    let rejected_preserved = t.alternatives.iter().filter(|a| a.rejected).count();
    assert_eq!(rejected_preserved, 2, "the rejected space is preserved");
    same_state(&core);
}

#[test]
fn record_tradeoff_seam_rejects_malformed_proposals_and_commits_nothing() {
    let mut core = new_core();
    seed_requirement(&mut core);
    let (t_one_alt, t_chosen_oob, t_chosen_rejected, t_no_rejected) =
        (core.fresh_id(), core.fresh_id(), core.fresh_id(), core.fresh_id());

    let mut single = well_formed_tradeoff(t_one_alt);
    single.alternatives = vec![alternative("buck", "the only option", vec![900_000], false)];
    single.chosen = 0;
    let err = core.invoke(CapabilityRequest::RecordTradeoff { tradeoff: single, links: vec![] }).unwrap_err();
    assert!(matches!(err, CapabilityError::Rejected(_)));

    let mut oob = well_formed_tradeoff(t_chosen_oob);
    oob.chosen = 3;
    let err = core.invoke(CapabilityRequest::RecordTradeoff { tradeoff: oob, links: vec![] }).unwrap_err();
    assert!(matches!(err, CapabilityError::Rejected(_)));

    let mut chosen_rejected = well_formed_tradeoff(t_chosen_rejected);
    chosen_rejected.chosen = 1;
    let err = core
        .invoke(CapabilityRequest::RecordTradeoff { tradeoff: chosen_rejected, links: vec![] })
        .unwrap_err();
    assert!(matches!(err, CapabilityError::Rejected(_)));

    let mut no_rejected = well_formed_tradeoff(t_no_rejected);
    for alt in &mut no_rejected.alternatives {
        alt.rejected = false;
    }
    no_rejected.chosen = 0;
    let err = core.invoke(CapabilityRequest::RecordTradeoff { tradeoff: no_rejected, links: vec![] }).unwrap_err();
    assert!(matches!(err, CapabilityError::Rejected(_)));

    assert!(core.state.tradeoffs.is_empty());
}

#[test]
fn a_decision_may_cite_the_tradeoff_it_resolved_via_a_provenance_link() {
    let mut core = new_core();
    let rid = seed_requirement(&mut core);
    let td_id = core.fresh_id();
    core.invoke(CapabilityRequest::RecordTradeoff { tradeoff: well_formed_tradeoff(td_id), links: vec![] })
        .unwrap();

    let req_id = core.fresh_id();
    let did = core.fresh_id();
    let link_id = core.fresh_id();
    core.invoke(CapabilityRequest::CreateRequirement {
        requirement: Requirement {
            id: req_id,
            statement: "The 3.3 V rail shall use a buck converter".into(),
            category: RequirementCategory::Electrical,
            priority: Priority::High,
            acceptance_criterion: "topology is a buck".into(),
            status: RequirementStatus::Accepted,
            source: rid,
            targets: vec![],
        },
        decision: Decision {
            id: did,
            subject: rid,
            rationale: "buck chosen per the topology tradeoff".into(),
            decider: "hardware lead".into(),
            reasoning_call_seq: None,
            evidence: vec![],
            confidence: 1_000_000,
        },
        evidence: vec![],
        links: vec![ProvenanceLink { id: link_id, from: did, to: td_id, relation: RelationType::JustifiedBy }],
    })
    .unwrap();

    let link = core
        .state
        .links
        .iter()
        .find(|l| l.id == link_id)
        .expect("the decision->tradeoff link was committed");
    assert_eq!(link.from, did);
    assert_eq!(link.to, td_id);
    assert!(core.state.decision(did).is_some(), "the citing decision is committed");
    assert!(core.state.tradeoff(td_id).is_some(), "the cited tradeoff is committed");
    same_state(&core);
}

fn seed_component_and_net(core: &mut RuntimeCore) -> (EntityId, EntityId) {
    let rid = seed_requirement(core);
    let block_id = core.fresh_id();
    core.invoke(CapabilityRequest::CreateFunctionalBlock {
        block: FunctionalBlock {
            id: block_id,
            name: "3V3 regulation".into(),
            function: "step VBUS down to 3.3 V".into(),
            requirements: vec![rid],
        },
        links: vec![],
    })
    .unwrap();
    let comp_id = core.fresh_id();
    let pin_id = core.fresh_id();
    core.invoke(CapabilityRequest::RealizeComponent {
        component: Component {
            id: comp_id,
            refdes: "U1".into(),
            class: ComponentClass::Regulator,
            value: None,
            from_block: block_id,
            origin: ComponentOrigin::Synthesized,
        },
        pins: vec![Pin {
            id: pin_id,
            component: comp_id,
            designation: "VOUT".into(),
            electrical_type: PinElectricalType::PowerOut,
        }],
        links: vec![],
    })
    .unwrap();
    let net_id = core.fresh_id();
    core.invoke(CapabilityRequest::CreateNet {
        net: Net {
            id: net_id,
            name: "+3V3".into(),
            class: NetClass::Power,
            members: vec![pin_id],
            current: Some(q(500_000_000, Dimension::Current)),
            impedance_target: None,
            origin: NetOrigin::Logical,
        },
        links: vec![],
    })
    .unwrap();
    (comp_id, net_id)
}

fn power_domain(id: EntityId, name: &str, source: EntityId, nets: Vec<EntityId>) -> PowerDomain {
    PowerDomain {
        id,
        name: name.into(),
        voltage: q(3_300_000_000, Dimension::Voltage),
        source_component: source,
        max_current: q(2_000_000_000, Dimension::Current),
        nets,
    }
}

#[test]
fn create_power_domain_seam_accepts_valid_then_folds_and_replays_byte_identically() {
    let mut core = new_core();
    let (source, net_id) = seed_component_and_net(&mut core);
    let dom_id = core.fresh_id();

    core.invoke(CapabilityRequest::CreatePowerDomain {
        domain: power_domain(dom_id, "VDD_CORE", source, vec![net_id]),
        links: vec![],
    })
    .expect("a well-formed power domain on committed component + net is accepted at the seam");

    assert_eq!(core.state.power_domains.len(), 1);
    let d = core.state.power_domain(dom_id).expect("power domain folded by id");
    assert_eq!(d.name, "VDD_CORE");
    assert_eq!(d.source_component, source);
    same_state(&core);
}

#[test]
fn create_power_domain_seam_rejects_malformed_and_dangling_proposals() {
    let mut core = new_core();
    let (source, net_id) = seed_component_and_net(&mut core);
    let (d_blank, d_null_src, d_phantom_src, d_phantom_net) =
        (core.fresh_id(), core.fresh_id(), core.fresh_id(), core.fresh_id());

    for domain in [
        power_domain(d_blank, "   ", source, vec![net_id]),
        power_domain(d_null_src, "VDD_GHOST", EntityId::null(), vec![net_id]),
        power_domain(d_phantom_src, "VDD_PHANTOM", EntityId(0xDEAD_BEEF), vec![net_id]),
        power_domain(d_phantom_net, "VDD_OK", source, vec![EntityId(0xDEAD_BEEF)]),
    ] {
        let err = core.invoke(CapabilityRequest::CreatePowerDomain { domain, links: vec![] }).unwrap_err();
        assert!(matches!(err, CapabilityError::Rejected(_)));
    }
    assert!(core.state.power_domains.is_empty());
}
