use eak::domain::{
    Decision, EntityId, Priority, ProvenanceLink, RelationType, Requirement, RequirementCategory,
    RequirementStatus, Violation, ViolationSeverity, ViolationStatus,
};
use eak::kernel::RuntimeCore;
use eak::ports::{CandidateExplanation, Event, ReasoningResponse};
use eak::protocol::{Autonomy, CapabilityRequest};
use eak::review::{explanation_request, ReviewExplanationMachine};
use eak::state::replay;

const RULE: &str = "drc-copper-clearance";
const MESSAGE: &str = "copper clearance 0.10 mm is below the 0.20 mm process minimum";
const RID: EntityId = EntityId(0x00A1);
const VID: EntityId = EntityId(0x00B2);
const EXPLANATION: &str = "Two copper features sit closer than the fab's minimum spacing, so the board may short or fail electrical test after etching.";
const FIX: &str = "Increase the trace-to-trace clearance to at least 0.20 mm, or move one of the nets to a different layer.";

fn known_violation() -> Violation {
    Violation {
        id: VID,
        rule: RULE.into(),
        severity: ViolationSeverity::Error,
        subjects: vec![RID],
        message: MESSAGE.into(),
        status: ViolationStatus::Open,
    }
}

/// The recorded answer the engine gives for the known violation.
fn seeded_reply() -> ReasoningResponse {
    ReasoningResponse {
        candidates: vec![],
        explanations: vec![CandidateExplanation {
            explanation: EXPLANATION.into(),
            suggested_fix: FIX.into(),
        }],
        part_candidates: vec![],
        clarifying_questions: vec![],
        raw: String::new(),
    }
}

fn core_with_committed_violation() -> RuntimeCore {
    let mut core = RuntimeCore::new(Autonomy::Autonomous, 7);
    let intent_id = core.capture_intent("USB-C IoT sensor node, 2-layer PCB", "engineer");
    let did = core.fresh_id();
    core.invoke(CapabilityRequest::CreateRequirement {
        requirement: Requirement {
            id: RID,
            statement: "Copper clearance shall meet the process minimum".into(),
            category: RequirementCategory::Fabrication,
            priority: Priority::High,
            acceptance_criterion: "all clearances >= 0.20 mm".into(),
            status: RequirementStatus::Accepted,
            source: intent_id,
            targets: vec![],
        },
        decision: Decision {
            id: did,
            subject: RID,
            rationale: "fab constraint".into(),
            decider: "test".into(),
            reasoning_call_seq: None,
            evidence: vec![],
            confidence: 1_000_000,
        },
        evidence: vec![],
        links: vec![],
    })
    .unwrap();
    let link_id = core.fresh_id();
    core.invoke(CapabilityRequest::RaiseViolation {
        violation: known_violation(),
        links: vec![ProvenanceLink { id: link_id, from: VID, to: RID, relation: RelationType::TracesTo }],
    })
    .unwrap();
    assert_eq!(core.state.violations.len(), 1);
    core
}

/// One pass of the explainer phase: every not-yet-explained violation is grounded, answered
/// with the recorded reply, and the answer committed as advisory metadata.
fn run_explainer(core: &mut RuntimeCore) -> usize {
    let machine = ReviewExplanationMachine::new();
    let mut explained = 0;
    for id in machine.unexplained(core) {
        let request = {
            let v = core.state.violation(id).unwrap();
            explanation_request(v)
        };
        if machine.explain(core, id, request, seeded_reply()).is_some() {
            explained += 1;
        }
    }
    explained
}

fn count_explained(core: &RuntimeCore) -> usize {
    core.log().iter().filter(|r| matches!(r.event, Event::ViolationExplained { .. })).count()
}

#[test]
fn explainer_commits_linked_advisory_explanation_and_replays_deterministically() {
    let mut core = core_with_committed_violation();
    assert_eq!(run_explainer(&mut core), 1);

    assert_eq!(core.state.violation_explanations.len(), 1);
    let exp = &core.state.violation_explanations[0];
    assert_eq!(exp.violation, VID);
    assert_eq!(exp.explanation, EXPLANATION);
    assert_eq!(exp.suggested_fix, FIX);
    assert_eq!(core.state.explanations_for(VID).len(), 1);

    let call_seq = exp.reasoning_call_seq;
    assert!(matches!(core.log()[call_seq as usize].event, Event::ReasoningCall { .. }));

    let replayed = replay(core.log());
    assert_eq!(format!("{:?}", core.state), format!("{:?}", replayed));
}

#[test]
fn explanation_is_advisory_only_and_idempotent() {
    let mut core = core_with_committed_violation();

    let before = format!("{:?}", core.state.violation(VID).unwrap());
    assert!(core.state.violation(VID).unwrap().is_blocking());
    assert_eq!(core.state.open_blocking_violations().len(), 1);

    run_explainer(&mut core);

    let after = core.state.violation(VID).unwrap();
    assert_eq!(before, format!("{:?}", after));
    assert!(after.is_blocking());
    assert_eq!(after.severity, ViolationSeverity::Error);
    assert_eq!(after.status, ViolationStatus::Open);
    assert_eq!(core.state.open_blocking_violations().len(), 1);

    assert_eq!(core.state.violation_explanations.len(), 1);
    assert_eq!(count_explained(&core), 1);
    let log_len = core.log().len();
    assert_eq!(run_explainer(&mut core), 0);
    assert_eq!(core.log().len(), log_len, "a re-run calls nothing for an explained violation");
    assert_eq!(core.state.violation_explanations.len(), 1);
    assert_eq!(count_explained(&core), 1);
    assert_eq!(core.state.violation_explanations[0].explanation, EXPLANATION);
}

#[test]
fn a_blank_answer_records_the_call_but_no_note() {
    let mut core = core_with_committed_violation();
    let machine = ReviewExplanationMachine::new();
    let request = explanation_request(&known_violation());
    let blank = ReasoningResponse {
        candidates: vec![],
        explanations: vec![CandidateExplanation { explanation: "  ".into(), suggested_fix: "".into() }],
        part_candidates: vec![],
        clarifying_questions: vec![],
        raw: String::new(),
    };
    let log_len = core.log().len();
    assert_eq!(machine.explain(&mut core, VID, request, blank), None);
    assert_eq!(core.log().len(), log_len + 1);
    assert!(core.state.violation_explanations.is_empty());
}

#[test]
fn the_explanation_request_is_grounded_in_the_violation() {
    let r = explanation_request(&known_violation());
    assert_eq!(r.schema_name, "violation_explanation_v1");
    assert_eq!(r.temperature, 0);
    assert!(r.model_id.is_empty());
    assert!(r.prompt.contains("RULE: drc-copper-clearance\n"));
    assert!(r.prompt.contains("SEVERITY: Error\n"));
    assert!(r.prompt.contains(&format!("MESSAGE: {MESSAGE}\n")));
    assert!(r.prompt.contains(&format!("IMPLICATED ENTITIES: {}\n", RID.short())));
    // The seed is FNV-1a 64 over the prompt bytes.
    let mut h: u64 = 0xcbf2_9ce4_8422_2325;
    for b in r.prompt.as_bytes() {
        h ^= *b as u64;
        h = h.wrapping_mul(0x0000_0100_0000_01b3);
    }
    assert_eq!(r.seed, h);
    // Deterministic: the same violation keys to the same request.
    assert_eq!(explanation_request(&known_violation()).seed, r.seed);
}
