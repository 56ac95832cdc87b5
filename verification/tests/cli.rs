use eak::domain::{
    Decision, EntityId, Evidence, EvidenceKind, Priority, ProvenanceLink, RelationType,
    Requirement, RequirementCategory, RequirementStatus,
};
use eak::driver::{
    default_fabrication_floor, default_workflow, import_design, seed_default_fabrication_floor,
    start_run, verify_only_workflow, CliError, ReasoningChoice, RunConfig,
};
use eak::kernel::RuntimeCore;
use eak::protocol::{Autonomy, CapabilityError, CapabilityRequest};
use eak::reasoning::{
    explanation_response, is_explanation_request, map_category, map_priority,
    requirement_response, AnthropicEngine, RawCandidate,
};
use eak::trace::{ppm_string, trace_text};

fn traced_core() -> (RuntimeCore, EntityId, EntityId, EntityId, EntityId) {
    let mut core = RuntimeCore::new(Autonomy::Autonomous, 0x10);
    let src = core.capture_intent("USB-C powered IoT sensor node", "engineer");
    let rid = core.fresh_id();
    let did = core.fresh_id();
    let eid = core.fresh_id();
    let lid = core.fresh_id();
    core.invoke(CapabilityRequest::CreateRequirement {
        requirement: Requirement {
            id: rid,
            statement: "Operating power shall not exceed 5 W".into(),
            category: RequirementCategory::Electrical,
            priority: Priority::High,
            acceptance_criterion: "measured power < 5 W".into(),
            status: RequirementStatus::Accepted,
            source: src,
            targets: vec![],
        },
        decision: Decision {
            id: did,
            subject: rid,
            rationale: "derived from intent".into(),
            decider: "RequirementPlanning".into(),
            reasoning_call_seq: Some(3),
            evidence: vec![eid],
            confidence: 905_000,
        },
        evidence: vec![Evidence {
            id: eid,
            kind: EvidenceKind::DatasheetParameter,
            content_reference: "model output".into(),
            source: "anthropic:m".into(),
            reliability: 800_000,
        }],
        links: vec![ProvenanceLink { id: lid, from: rid, to: did, relation: RelationType::JustifiedBy }],
    })
    .unwrap();
    (core, src, rid, did, eid)
}

#[test]
fn trace_renders_requirement_decision_evidence_and_intent() {
    let (core, src, rid, did, eid) = traced_core();
    let out = trace_text(&core.state, &rid.short()).unwrap();
    let expected = format!(
        "Requirement {} [Electrical / Accepted]\n  \"Operating power shall not exceed 5 W\"\n  acceptance: measured power < 5 W\n  +- Decision {} by RequirementPlanning (confidence 0.91, reasoning call #3)\n     rationale: derived from intent\n     +- Evidence {} (DatasheetParameter) from anthropic:m\n  +- derives from Design Intent {}: \"USB-C powered IoT sensor node\"\n",
        rid.short(),
        did.short(),
        eid.short(),
        src.short()
    );
    assert_eq!(out, expected);
    // The full hexadecimal id names the requirement too.
    assert_eq!(trace_text(&core.state, &rid.to_hex()).unwrap(), expected);
}

#[test]
fn trace_of_an_unknown_requirement_is_an_error() {
    let (core, ..) = traced_core();
    match trace_text(&core.state, "deadbeef") {
        Err(e) => assert_eq!(e.message(), "requirement deadbeef not found"),
        Ok(_) => panic!("an unknown id must not trace"),
    }
}

#[test]
fn confidences_render_with_two_decimals() {
    assert_eq!(ppm_string(1_000_000), "1.00");
    assert_eq!(ppm_string(900_000), "0.90");
    assert_eq!(ppm_string(5_000), "0.01");
    assert_eq!(ppm_string(0), "0.00");
    assert_eq!(ppm_string(-250_000), "-0.25");
}

#[test]
fn default_workflow_runs_the_fifteen_phases_with_six_loops() {
    let plan = default_workflow();
    assert_eq!(plan.phases.len(), 15);
    assert_eq!(plan.phases[0], "RequirementPlanning");
    assert_eq!(plan.phases[14], "ManufacturingGeneration");
    assert_eq!(plan.loopbacks.len(), 6);
    assert_eq!(plan.loopbacks[2].from, "BomVerification");
    assert_eq!(plan.loopbacks[2].to, "BomPlanning");
    assert!(plan.loopbacks.iter().all(|l| l.max_retries == 2));
}

#[test]
fn verify_only_workflow_runs_the_checks_without_loops() {
    let plan = verify_only_workflow();
    assert_eq!(
        plan.phases,
        vec![
            "ConstraintVerification",
            "ErcVerification",
            "BomVerification",
            "DrcVerification",
            "DfmVerification",
            "EmcAnalysis"
        ]
    );
    assert!(plan.loopbacks.is_empty());
}

#[test]
fn the_default_floor_is_ipc2221_class_2() {
    let floor = default_fabrication_floor();
    let nm: Vec<i128> = floor.iter().map(|q| q.nano).collect();
    assert_eq!(nm, vec![150_000, 500_000, 150_000]);
}

#[test]
fn seeding_the_floor_on_an_imported_board_commits_a_fabrication_requirement() {
    let mut core = import_design("(kicad_pcb (net 0 \"\"))").unwrap();
    let board = core.state.board.as_ref().unwrap().id;
    seed_default_fabrication_floor(&mut core).unwrap();
    assert_eq!(core.state.requirements.len(), 1);
    let r = &core.state.requirements[0];
    assert_eq!(r.category, RequirementCategory::Fabrication);
    assert_eq!(r.source, board);
    assert_eq!(r.targets.len(), 3);
    assert_eq!(core.state.decisions.len(), 1);
    assert_eq!(core.state.evidence.len(), 1);
    assert_eq!(core.state.evidence[0].source, "IPC-2221");
    assert_eq!(core.state.links.len(), 3);
}

#[test]
fn seeding_the_floor_without_a_board_seeds_nothing() {
    let mut core = RuntimeCore::new(Autonomy::Autonomous, 1);
    seed_default_fabrication_floor(&mut core).unwrap();
    assert!(core.state.requirements.is_empty());
    assert!(core.log().is_empty());
}

#[test]
fn a_run_starts_from_the_intent_and_the_seed() {
    let cfg = RunConfig {
        intent: "USB-C powered IoT sensor node, < 5 W".into(),
        reasoning: ReasoningChoice::Fixture,
        cassette: None,
        log: "eak-events.jsonl".into(),
        model: "fixture".into(),
        seed: 42,
        deterministic_clock: true,
    };
    let core = start_run(&cfg);
    let intent = core.state.intent.as_ref().unwrap();
    assert_eq!(intent.id, EntityId(42));
    assert_eq!(intent.statement, cfg.intent);
    assert_eq!(intent.source, "engineer");
    assert_eq!(core.log().len(), 1);
    assert_eq!(core.autonomy(), Autonomy::Autonomous);
}

#[test]
fn errors_read_as_the_command_reports_them() {
    assert_eq!(CliError::Msg("boom".into()).message(), "boom");
    assert_eq!(CliError::Import("bad".into()).message(), "import failed: bad");
    assert_eq!(CapabilityError::Rejected("no".into()).message(), "capability rejected: no");
}

#[test]
fn model_labels_map_to_domain_enums() {
    assert_eq!(map_category("Electrical"), RequirementCategory::Electrical);
    assert_eq!(map_category("FABRICATION"), RequirementCategory::Fabrication);
    assert_eq!(map_category("something else"), RequirementCategory::Functional);
    assert_eq!(map_priority("HIGH"), Priority::High);
    assert_eq!(map_priority("low"), Priority::Low);
    assert_eq!(map_priority("urgent"), Priority::Medium);
    assert!(is_explanation_request("violation_explanation_v1"));
    assert!(!is_explanation_request("requirement_candidates_v1"));
}

#[test]
fn the_live_engine_names_its_model() {
    let e = AnthropicEngine::new("SECRET-REDACTED".into(), "sonnet-test".into());
    assert_eq!(e.model_id(), "anthropic:sonnet-test");
    assert_eq!(e.model(), "sonnet-test");
}

#[test]
fn provider_answers_become_typed_responses() {
    let r = requirement_response(
        vec![RawCandidate {
            statement: "Device shall be powered over USB-C".into(),
            category: "Electrical".into(),
            priority: "HIGH".into(),
            acceptance_criterion: "powers".into(),
            source_hint: "intent".into(),
            confidence: 900_000,
            rationale: "r".into(),
        }],
        vec!["Which connector?".into()],
        "{}".into(),
    );
    assert_eq!(r.candidates.len(), 1);
    assert_eq!(r.candidates[0].category, RequirementCategory::Electrical);
    assert_eq!(r.candidates[0].priority, Priority::High);
    assert!(r.candidates[0].targets.is_empty());
    assert_eq!(r.clarifying_questions, vec!["Which connector?".to_string()]);
    let e = explanation_response("why".into(), "fix".into(), "{}".into());
    assert_eq!(e.explanations.len(), 1);
    assert_eq!(e.explanations[0].explanation, "why");
    assert!(e.candidates.is_empty());
}
