use eak::domain::{
    Component, ComponentClass, ComponentOrigin, Decision, EntityId, FunctionalBlock,
    PartLifecycle, Pin, PinElectricalType, Priority, RelationType, Requirement, RequirementCategory,
    RequirementStatus,
};
use eak::kernel::RuntimeCore;
use eak::phases::{
    build_prompt, class_matches, class_name, group_by_class, part_request, stable_seed,
    validate_selection, BomPlanningMachine, CatalogPart, ClassParts, PartCatalog, PartSelectionAgent,
    Selection,
};
use eak::ports::{CandidatePart, Event, ReasoningResponse};
use eak::protocol::{AgentOutcome, Autonomy, CapabilityRequest, MachineError, StepResult};
use eak::state::replay;

const MCU: &str = "STM32L010F4P6";
const USB_C: &str = "USB4110-GF-A";
const HALLUCINATED_MPN: &str = "HALLUCINATED-IC-9000";
const TEMP_SENSOR: &str = "TMP102AIDRLR";

fn cat(mpn: &str, manufacturer: &str) -> CatalogPart {
    CatalogPart {
        mpn: mpn.into(),
        manufacturer: manufacturer.into(),
        lifecycle: PartLifecycle::Active,
        datasheet: format!("https://example.com/{mpn}"),
    }
}

fn only(part: CatalogPart) -> ClassParts {
    ClassParts { default: part, others: vec![] }
}

fn catalog() -> PartCatalog {
    PartCatalog {
        connector: only(cat(USB_C, "GCT")),
        regulator: only(cat("AP2112K-3.3TRG1", "Diodes Inc")),
        ic: ClassParts { default: cat(MCU, "STMicroelectronics"), others: vec![cat(TEMP_SENSOR, "Texas Instruments")] },
        resistor: only(cat("RC0402FR-0710KL", "Yageo")),
        capacitor: only(cat("GRM155R71C104KA88D", "Murata")),
    }
}

fn reply(parts: Vec<(&str, &str)>) -> ReasoningResponse {
    ReasoningResponse {
        candidates: vec![],
        explanations: vec![],
        part_candidates: parts
            .into_iter()
            .map(|(class, mpn)| CandidatePart {
                component_class: class.into(),
                mpn: mpn.into(),
                rationale: "r".into(),
                confidence: 900_000,
            })
            .collect(),
        clarifying_questions: vec![],
        raw: "{}".into(),
    }
}

/// A design with one USB-C connector and one IC, realized through the seam.
fn core_with_components() -> RuntimeCore {
    let mut core = RuntimeCore::new(Autonomy::Autonomous, 7);
    let src = core.capture_intent("USB-C powered IoT sensor node", "engineer");
    let rid = core.fresh_id();
    let did = core.fresh_id();
    core.invoke(CapabilityRequest::CreateRequirement {
        requirement: Requirement {
            id: rid,
            statement: "Device shall be powered over USB-C".into(),
            category: RequirementCategory::Functional,
            priority: Priority::High,
            acceptance_criterion: "powers from USB-C".into(),
            status: RequirementStatus::Accepted,
            source: src,
            targets: vec![],
        },
        decision: Decision {
            id: did,
            subject: rid,
            rationale: "from intent".into(),
            decider: "test".into(),
            reasoning_call_seq: None,
            evidence: vec![],
            confidence: 1_000_000,
        },
        evidence: vec![],
        links: vec![],
    })
    .unwrap();
    let bid = core.fresh_id();
    core.invoke(CapabilityRequest::CreateFunctionalBlock {
        block: FunctionalBlock { id: bid, name: "power".into(), function: "f".into(), requirements: vec![rid] },
        links: vec![],
    })
    .unwrap();
    for (refdes, class) in [("J1", ComponentClass::Connector), ("U1", ComponentClass::Ic)] {
        let cid = core.fresh_id();
        let pid = core.fresh_id();
        core.invoke(CapabilityRequest::RealizeComponent {
            component: Component {
                id: cid,
                refdes: refdes.into(),
                class,
                value: None,
                from_block: bid,
                origin: ComponentOrigin::Synthesized,
            },
            pins: vec![Pin { id: pid, component: cid, designation: "1".into(), electrical_type: PinElectricalType::Passive }],
            links: vec![],
        })
        .unwrap();
    }
    core
}

fn count(core: &RuntimeCore, pred: fn(&Event) -> bool) -> usize {
    core.log().iter().filter(|r| pred(&r.event)).count()
}

#[test]
fn valid_part_proposal_is_accepted_and_lands_via_the_seam() {
    let mut core = core_with_components();
    let mut agent = PartSelectionAgent::new();
    let before = core.log().len();
    // Case and surrounding space in the proposal do not matter.
    let out = agent.activate(&mut core, &catalog(), "fixture", Some(reply(vec![(" ic ", " stm32l010f4p6 ")])));
    assert_eq!(out, AgentOutcome::Success { committed: 2 });
    assert_eq!(core.state.parts.len(), 2);
    assert_eq!(core.state.bom_line_items.len(), 2);
    assert!(core.state.parts.iter().any(|p| p.mpn == MCU));
    assert!(core.state.parts.iter().any(|p| p.mpn == USB_C));
    // The judgement is recorded first, then the parts land through the seam.
    assert!(matches!(core.log()[before].event, Event::ReasoningCall { .. }));
    assert_eq!(count(&core, |e| matches!(e, Event::PartCommitted { .. })), 2);
    let replayed = replay(core.log());
    assert_eq!(format!("{:?}", core.state), format!("{:?}", replayed));
}

#[test]
fn hallucinated_part_proposal_is_rejected_and_never_enters_state() {
    let mut core = core_with_components();
    let mut agent = PartSelectionAgent::new();
    let out = agent.activate(&mut core, &catalog(), "fixture", Some(reply(vec![("Ic", HALLUCINATED_MPN)])));
    match out {
        AgentOutcome::Failed(m) => {
            assert!(m.contains(HALLUCINATED_MPN));
            assert!(m.starts_with("rejected 1 non-catalog part proposal(s)"));
        }
        other => panic!("expected a failure, got {other:?}"),
    }
    assert!(core.state.parts.iter().all(|p| p.mpn != HALLUCINATED_MPN));
    // The connector, which the model was silent about, is still sourced from the catalog.
    assert_eq!(core.state.parts.len(), 1);
    assert_eq!(core.state.parts[0].mpn, USB_C);
    assert_eq!(core.state.bom_line_items.len(), 1);
}

#[test]
fn a_failed_judgement_falls_back_to_the_catalog_without_a_recorded_call() {
    let mut core = core_with_components();
    let mut agent = PartSelectionAgent::new();
    let out = agent.activate(&mut core, &catalog(), "fixture", None);
    assert_eq!(out, AgentOutcome::Success { committed: 2 });
    assert_eq!(count(&core, |e| matches!(e, Event::ReasoningCall { .. })), 0);
    assert_eq!(core.state.bom_line_items.len(), 2);
}

#[test]
fn an_empty_design_sources_nothing_and_asks_nothing() {
    let mut core = RuntimeCore::new(Autonomy::Autonomous, 1);
    let mut agent = PartSelectionAgent::new();
    assert!(agent.request_for(&core.state.components, "fixture").is_none());
    let out = agent.activate(&mut core, &catalog(), "fixture", Some(reply(vec![])));
    assert_eq!(out, AgentOutcome::Success { committed: 0 });
    assert!(core.log().is_empty());
    assert_eq!(agent.name(), "PartSelectionAgent");
}

#[test]
fn the_part_request_names_each_class_once_in_order() {
    let core = core_with_components();
    let agent = PartSelectionAgent::new();
    let r = agent.request_for(&core.state.components, "anthropic:m").unwrap();
    assert_eq!(r.schema_name, "part_candidates_v1");
    assert_eq!(r.model_id, "anthropic:m");
    assert_eq!(r.temperature, 0);
    assert!(r.prompt.ends_with("COMPONENT CLASSES:\n- Connector\n- Ic\n"));
    let classes = vec![ComponentClass::Connector, ComponentClass::Ic];
    assert_eq!(r.prompt, build_prompt(&classes));
    assert_eq!(r.seed, part_request(&classes, "x").seed);
    // FNV-1a 64 over the class names.
    let mut h: u64 = 0xcbf2_9ce4_8422_2325;
    for b in "ConnectorIc".bytes() {
        h ^= b as u64;
        h = h.wrapping_mul(0x0000_0100_0000_01b3);
    }
    assert_eq!(stable_seed(&classes), h);
}

#[test]
fn components_group_by_class_in_first_seen_order() {
    let core = core_with_components();
    let groups = group_by_class(&core.state.components);
    assert_eq!(groups.len(), 2);
    assert_eq!(groups[0].class, ComponentClass::Connector);
    assert_eq!(groups[1].class, ComponentClass::Ic);
    assert_eq!(groups[0].components, vec![core.state.components[0].id]);
}

#[test]
fn class_labels_match_case_insensitively() {
    assert!(class_matches(" regulator ", ComponentClass::Regulator));
    assert!(class_matches("IC", ComponentClass::Ic));
    assert!(!class_matches("Resistors", ComponentClass::Resistor));
    assert_eq!(class_name(ComponentClass::Capacitor), "Capacitor");
}

#[test]
fn validate_selection_uses_the_catalog_when_silent_and_rejects_strangers() {
    let c = catalog();
    assert!(matches!(validate_selection(&c, ComponentClass::Ic, &reply(vec![])), Selection::Use(0)));
    assert!(matches!(
        validate_selection(&c, ComponentClass::Ic, &reply(vec![("Connector", "X"), ("ic", MCU)])),
        Selection::Use(0)
    ));
    assert!(matches!(
        validate_selection(&c, ComponentClass::Ic, &reply(vec![("Ic", " tmp102aidrlr ")])),
        Selection::Use(1)
    ));
    match validate_selection(&c, ComponentClass::Ic, &reply(vec![("Ic", "NOPE"), ("Ic", MCU)])) {
        Selection::Reject(m) => assert_eq!(m, "NOPE"),
        Selection::Use(_) => panic!("the first proposal for the class decides"),
    }
}

#[test]
fn bom_planning_sources_once_and_is_idempotent_on_loop_back() {
    let mut core = core_with_components();
    let mut machine = BomPlanningMachine::new();
    assert_eq!(machine.name(), "BomPlanning");
    assert_eq!(machine.initial(), "Idle");
    let a = machine.activation();
    assert_eq!(a.phase, "BomPlanning");
    assert_eq!(a.budget.max_reasoning_calls, 1);

    assert_eq!(
        machine.plan(&mut core, &catalog(), "fixture", Some(reply(vec![("Ic", MCU)]))),
        Ok(StepResult::Done)
    );
    assert_eq!(core.state.bom_line_items.len(), 2);
    assert!(matches!(
        core.log().last().unwrap().event,
        Event::BomIrProduced { schema_version: 1, line_item_count: 2 }
    ));
    let log_len = core.log().len();
    let parts = core.state.parts.len();
    // A loop back into the phase asks nothing and commits nothing: it only re-records the
    // milestone.
    assert_eq!(
        machine.plan(&mut core, &catalog(), "fixture", Some(reply(vec![("Ic", HALLUCINATED_MPN)]))),
        Ok(StepResult::Done)
    );
    assert_eq!(core.log().len(), log_len + 1);
    assert!(matches!(
        core.log().last().unwrap().event,
        Event::BomIrProduced { schema_version: 1, line_item_count: 2 }
    ));
    assert_eq!(core.state.parts.len(), parts);
    assert_eq!(core.state.bom_line_items.len(), 2);
}

#[test]
fn bom_planning_steps_from_idle_to_planning_and_refuses_unknown_states() {
    let mut core = core_with_components();
    let mut machine = BomPlanningMachine::new();
    let before = core.log().len();
    assert_eq!(
        machine.step("Idle", &mut core, &catalog(), "fixture", None),
        Ok(StepResult::Continue("Planning".into()))
    );
    assert_eq!(core.log().len(), before);
    assert_eq!(
        machine.step("Bogus", &mut core, &catalog(), "fixture", None),
        Err(MachineError::Internal("unknown state Bogus".into()))
    );
    assert_eq!(core.log().len(), before);
    assert_eq!(machine.step("Planning", &mut core, &catalog(), "fixture", None), Ok(StepResult::Done));
    assert_eq!(core.state.bom_line_items.len(), 2);
}

#[test]
fn projecting_without_an_intent_is_a_machine_fault() {
    let mut core = RuntimeCore::new(Autonomy::Autonomous, 1);
    let mut machine = BomPlanningMachine::new();
    assert_eq!(
        machine.plan(&mut core, &catalog(), "fixture", None),
        Err(MachineError::Internal("no intent for lowering".into()))
    );
}

#[test]
fn bom_planning_fails_on_a_refused_proposal() {
    let mut core = core_with_components();
    let mut machine = BomPlanningMachine::new();
    let before = core.log().len();
    let r = machine.plan(&mut core, &catalog(), "fixture", Some(reply(vec![("Ic", HALLUCINATED_MPN)])));
    match r {
        Ok(StepResult::Failed(m)) => assert!(m.contains(HALLUCINATED_MPN)),
        other => panic!("expected a failed phase, got {other:?}"),
    }
    // No milestone is recorded for a failed phase.
    assert!(!core.log()[before..].iter().any(|r| matches!(r.event, Event::BomIrProduced { .. })));
}

#[test]
fn entity_ids_of_sourced_lines_point_at_real_components() {
    let mut core = core_with_components();
    let mut agent = PartSelectionAgent::new();
    agent.activate(&mut core, &catalog(), "fixture", None);
    let ids: Vec<EntityId> = core.state.components.iter().map(|c| c.id).collect();
    for line in &core.state.bom_line_items {
        assert_eq!(line.quantity as usize, line.components.len());
        assert!(line.components.iter().all(|c| ids.contains(c)));
        assert!(core.state.part(line.part).is_some());
    }
}

#[test]
fn every_refused_proposal_is_named_in_class_order() {
    let mut core = core_with_components();
    let mut agent = PartSelectionAgent::new();
    let out = agent.activate(
        &mut core,
        &catalog(),
        "fixture",
        Some(reply(vec![("Ic", HALLUCINATED_MPN), ("Connector", "FAKE-USB")])),
    );
    assert_eq!(
        out,
        AgentOutcome::Failed(
            "rejected 2 non-catalog part proposal(s) (not in the approved catalog): Connector <- \"FAKE-USB\", Ic <- \"HALLUCINATED-IC-9000\"".into()
        )
    );
    assert!(core.state.parts.is_empty());
    assert!(core.state.bom_line_items.is_empty());
}

#[test]
fn clean_sourcing_puts_each_class_on_one_line_with_its_catalog_part() {
    let mut core = core_with_components();
    let mut agent = PartSelectionAgent::new();
    let out = agent.activate(&mut core, &catalog(), "fixture", None);
    assert_eq!(out, AgentOutcome::Success { committed: 2 });
    let lines = &core.state.bom_line_items;
    let comps = &core.state.components;
    assert_eq!(lines.len(), 2);
    assert_eq!(lines[0].components, vec![comps[0].id]);
    assert_eq!(lines[1].components, vec![comps[1].id]);
    assert_eq!(lines[0].quantity, 1);
    let part_of = |id: EntityId| core.state.parts.iter().find(|p| p.id == id).unwrap().mpn.clone();
    assert_eq!(part_of(lines[0].part), USB_C);
    assert_eq!(part_of(lines[1].part), MCU);
    let traces = |from: EntityId, to: EntityId| {
        core.state
            .links
            .iter()
            .any(|l| l.from == from && l.to == to && l.relation == RelationType::TracesTo)
    };
    for line in lines {
        assert!(traces(line.id, line.part));
        for c in &line.components {
            assert!(traces(line.id, *c));
        }
    }
}

#[test]
fn non_default_but_in_catalog_part_is_accepted_via_set_inclusion() {
    let mut core = core_with_components();
    let mut agent = PartSelectionAgent::new();
    let out = agent.activate(&mut core, &catalog(), "fixture", Some(reply(vec![("Ic", TEMP_SENSOR)])));
    assert_eq!(out, AgentOutcome::Success { committed: 2 });
    assert!(core
        .log()
        .iter()
        .any(|r| matches!(&r.event, Event::PartCommitted { part } if part.mpn == TEMP_SENSOR)));
    let sensor = core.state.parts.iter().find(|p| p.mpn == TEMP_SENSOR).expect("the sensor is in state");
    assert_eq!(sensor.manufacturer, "Texas Instruments");
    assert!(!core.state.parts.iter().any(|p| p.mpn == MCU));
    assert!(core.state.parts.iter().any(|p| p.mpn == USB_C));
}

#[test]
fn a_part_already_in_state_is_reused_not_ordered_again() {
    let mut core = core_with_components();
    let mut agent = PartSelectionAgent::new();
    assert_eq!(agent.activate(&mut core, &catalog(), "fixture", None), AgentOutcome::Success { committed: 2 });
    let parts_before = core.state.parts.len();
    // A second sourcing pass finds both catalog parts already ordered.
    let _ = agent.activate(&mut core, &catalog(), "fixture", None);
    assert_eq!(core.state.parts.len(), parts_before);
    assert_eq!(count(&core, |e| matches!(e, Event::PartCommitted { .. })), 2);
}

#[test]
fn a_refused_class_leaves_the_others_sourced() {
    let mut core = core_with_components();
    let mut agent = PartSelectionAgent::new();
    let before = core.log().len();
    let out = agent.activate(&mut core, &catalog(), "fixture", Some(reply(vec![("Ic", HALLUCINATED_MPN)])));
    assert!(matches!(out, AgentOutcome::Failed(_)));
    assert!(matches!(core.log()[before].event, Event::ReasoningCall { .. }));
    let ic = core.state.components.iter().find(|c| c.class == ComponentClass::Ic).unwrap().id;
    let j1 = core.state.components.iter().find(|c| c.class == ComponentClass::Connector).unwrap().id;
    assert!(core.state.bom_line_items.iter().all(|l| !l.components.contains(&ic)));
    assert!(core.state.bom_line_items.iter().any(|l| l.components == vec![j1]));
}

#[test]
fn with_lines_already_there_the_uncovered_classes_are_still_sourced() {
    let mut core = core_with_components();
    let mut agent = PartSelectionAgent::new();
    // A first pass refuses the Ic proposal: only the connector gets a line.
    let first = agent.activate(&mut core, &catalog(), "fixture", Some(reply(vec![("Ic", HALLUCINATED_MPN)])));
    assert!(matches!(first, AgentOutcome::Failed(_)));
    assert_eq!(core.state.bom_line_items.len(), 1);
    let kept = core.state.bom_line_items[0].id;
    // A second pass sources the Ic, which no line covers yet, and leaves the connector's line.
    let second = agent.activate(&mut core, &catalog(), "fixture", None);
    assert_eq!(second, AgentOutcome::Success { committed: 1 });
    assert_eq!(core.state.bom_line_items.len(), 2);
    assert_eq!(core.state.bom_line_items[0].id, kept);
    let ic = core.state.components.iter().find(|c| c.class == ComponentClass::Ic).unwrap().id;
    assert_eq!(core.state.bom_line_items[1].components, vec![ic]);
    assert_eq!(count(&core, |e| matches!(e, Event::PartCommitted { .. })), 2);
}
