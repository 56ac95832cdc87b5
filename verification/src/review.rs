//! The review explainer: after a verification phase has raised violations, each is grounded
//! in a request for a plain-English explanation and fix, and the answer is recorded as
//! advisory metadata linked to the violation and to the reasoning call — never as a change to
//! the violation or a gate on any phase.
use vstd::prelude::*;
use vstd::string::StringExecFns;
use crate::domain::{EntityId, Violation, ViolationSeverity};
use crate::kernel::{short_spec, RuntimeCore};
use crate::ports::{CandidateExplanation, Event, EventSeq, ReasoningRequest, ReasoningResponse};
use crate::state::fold_events;
use crate::text::{contains_text, is_blank, occurs_at, spec_is_blank};

verus! {

/// The schema of the advisory explainer request.
pub const VIOLATION_EXPLANATION_SCHEMA: &'static str = "violation_explanation_v1";

/// One FNV-1a 64 step over a byte.
pub open spec fn fnv_byte(h: u64, b: u8) -> u64 {
    (h ^ (b as u64)).wrapping_mul(0x0000_0100_0000_01b3)
}

pub open spec fn fnv_bytes(h: u64, b: Seq<u8>) -> u64
    decreases b.len(),
{
    if b.len() == 0 {
        h
    } else {
        fnv_byte(fnv_bytes(h, b.drop_last()), b.last())
    }
}

/// The reasoning seed of a grounding text: FNV-1a 64 over its UTF-8 bytes.
pub open spec fn text_seed(t: Seq<char>) -> u64 {
    fnv_bytes(0xcbf2_9ce4_8422_2325, vstd::utf8::encode_utf8(t))
}

/// A deterministic seed from the grounding text, so a run is reproducible.
pub fn stable_seed(text: &str) -> (r: u64)
    ensures
        r == text_seed(text@),
{
    let bytes = text.as_bytes();
    let mut h: u64 = 0xcbf2_9ce4_8422_2325;
    let mut i: usize = 0;
    while i < bytes.len()
        invariant
            i <= bytes@.len(),
            bytes@ == vstd::utf8::encode_utf8(text@),
            h == fnv_bytes(0xcbf2_9ce4_8422_2325, bytes@.take(i as int)),
        decreases bytes@.len() - i,
    {
        proof {
            assert(bytes@.take(i + 1).drop_last() =~= bytes@.take(i as int));
        }
        h = (h ^ bytes[i] as u64).wrapping_mul(0x0000_0100_0000_01b3);
        i += 1;
    }
    assert(bytes@.take(bytes@.len() as int) =~= bytes@);
    h
}

pub open spec fn severity_name(s: ViolationSeverity) -> Seq<char> {
    match s {
        ViolationSeverity::Error => "Error"@,
        ViolationSeverity::Warning => "Warning"@,
        ViolationSeverity::Info => "Info"@,
    }
}

pub fn severity_text(s: ViolationSeverity) -> (r: &'static str)
    ensures
        r@ == severity_name(s),
{
    match s {
        ViolationSeverity::Error => "Error",
        ViolationSeverity::Warning => "Warning",
        ViolationSeverity::Info => "Info",
    }
}

/// The short forms of the implicated entities, separated by `, `.
pub open spec fn subject_list(ids: Seq<EntityId>) -> Seq<char>
    decreases ids.len(),
{
    if ids.len() == 0 {
        Seq::empty()
    } else if ids.len() == 1 {
        short_spec(ids[0])
    } else {
        subject_list(ids.drop_last()) + ", "@ + short_spec(ids.last())
    }
}

/// The grounding prompt for one violation: its kernel-owned facts and nothing model-authored.
pub open spec fn explanation_prompt(rule: Seq<char>, severity: ViolationSeverity, message: Seq<char>, subjects: Seq<EntityId>) -> Seq<char> {
    "A design-rule check RAISED the following violation. Explain, in plain English, what it means and why it was flagged, then suggest one concrete fix. This is advisory commentary for a human engineer \u{2014} it does not and must not change the design.\n\nRULE: "@
        + rule + "\nSEVERITY: "@ + severity_name(severity) + "\nMESSAGE: "@ + message
        + "\nIMPLICATED ENTITIES: "@ + subject_list(subjects) + "\n"@
}

/// The grounding prompt carries the violation's rule and its message, word for word.
pub proof fn lemma_prompt_names_rule_and_message(
    rule: Seq<char>,
    severity: ViolationSeverity,
    message: Seq<char>,
    subjects: Seq<EntityId>,
)
    ensures
        contains_text(explanation_prompt(rule, severity, message, subjects), rule),
        contains_text(explanation_prompt(rule, severity, message, subjects), message),
{
    let head = "A design-rule check RAISED the following violation. Explain, in plain English, what it means and why it was flagged, then suggest one concrete fix. This is advisory commentary for a human engineer \u{2014} it does not and must not change the design.\n\nRULE: "@;
    let p = explanation_prompt(rule, severity, message, subjects);
    let a = head + rule;
    let b = a + "\nSEVERITY: "@ + severity_name(severity) + "\nMESSAGE: "@;
    let rest = "\nIMPLICATED ENTITIES: "@ + subject_list(subjects) + "\n"@;
    assert(p =~= b + message + rest);
    assert(p.subrange(head.len() as int, (head.len() + rule.len()) as int) =~= rule);
    assert(occurs_at(p, rule, head.len() as int));
    assert(p.subrange(b.len() as int, (b.len() + message.len()) as int) =~= message);
    assert(occurs_at(p, message, b.len() as int));
}

pub fn build_prompt(v: &Violation) -> (r: String)
    ensures
        r@ == explanation_prompt(v.rule@, v.severity, v.message@, v.subjects@),
{
    let mut subjects = String::new();
    let mut i: usize = 0;
    assert(subjects@ =~= subject_list(v.subjects@.take(0)));
    while i < v.subjects.len()
        invariant
            i <= v.subjects.len(),
            subjects@ == subject_list(v.subjects@.take(i as int)),
        decreases v.subjects.len() - i,
    {
        let ghost before = subjects@;
        if i > 0 {
            subjects.append(", ");
        }
        let s = v.subjects[i].short();
        subjects.append(s.as_str());
        proof {
            let t = v.subjects@.take(i + 1);
            assert(t.drop_last() =~= v.subjects@.take(i as int));
            if i == 0 {
                assert(subjects@ =~= short_spec(t[0]));
            } else {
                assert(subjects@ =~= before + ", "@ + short_spec(t.last()));
            }
        }
        i += 1;
    }
    assert(v.subjects@.take(v.subjects.len() as int) =~= v.subjects@);
    let mut p = "A design-rule check RAISED the following violation. Explain, in plain English, what it means and why it was flagged, then suggest one concrete fix. This is advisory commentary for a human engineer \u{2014} it does not and must not change the design.\n\nRULE: ".to_owned();
    p.append(v.rule.as_str());
    p.append("\nSEVERITY: ");
    p.append(severity_text(v.severity));
    p.append("\nMESSAGE: ");
    p.append(v.message.as_str());
    p.append("\nIMPLICATED ENTITIES: ");
    p.append(subjects.as_str());
    p.append("\n");
    p
}

/// The request that grounds one violation: its prompt, the explainer's system text, the
/// explainer schema, temperature zero and the prompt's seed. The model id is the engine's.
pub open spec fn explanation_request_ok(r: ReasoningRequest, v: Violation) -> bool {
    let prompt = explanation_prompt(v.rule@, v.severity, v.message@, v.subjects@);
    &&& r.model_id@ == Seq::<char>::empty()
    &&& r.system@
        == "You are a senior hardware design engineer. Explain each design-rule violation in plain English and suggest one concrete, safe fix. Your commentary is ADVISORY for a human engineer only \u{2014} you never modify the design."@
    &&& r.prompt@ == prompt
    &&& r.schema_name@ == "violation_explanation_v1"@
    &&& r.temperature == 0
    &&& r.seed == text_seed(prompt)
}

/// Build the deterministic reasoning request that grounds one violation.
pub fn explanation_request(violation: &Violation) -> (r: ReasoningRequest)
    ensures
        explanation_request_ok(r, *violation),
{
    let prompt = build_prompt(violation);
    let seed = stable_seed(prompt.as_str());
    ReasoningRequest {
        model_id: String::new(),
        system: "You are a senior hardware design engineer. Explain each design-rule violation in plain English and suggest one concrete, safe fix. Your commentary is ADVISORY for a human engineer only \u{2014} you never modify the design.".to_owned(),
        prompt,
        schema_name: VIOLATION_EXPLANATION_SCHEMA.to_owned(),
        temperature: 0,
        seed,
    }
}

/// The advisory note an answer yields: its first explanation, unless both its texts are blank.
pub open spec fn note_of(resp: ReasoningResponse) -> Option<CandidateExplanation> {
    if resp.explanations@.len() == 0 {
        None
    } else if spec_is_blank(resp.explanations@[0].explanation@) && spec_is_blank(
        resp.explanations@[0].suggested_fix@,
    ) {
        None
    } else {
        Some(resp.explanations@[0])
    }
}

/// An answer's first explanation is kept as the note whenever either of its texts says
/// something: a note is dropped only for an empty answer or one whose explanation and fix are
/// both blank.
pub proof fn lemma_note_kept(resp: ReasoningResponse)
    ensures
        resp.explanations@.len() > 0 && (!spec_is_blank(resp.explanations@[0].explanation@)
            || !spec_is_blank(resp.explanations@[0].suggested_fix@)) ==> note_of(resp) == Some(
            resp.explanations@[0],
        ),
        note_of(resp) is None ==> resp.explanations@.len() == 0 || (spec_is_blank(
            resp.explanations@[0].explanation@,
        ) && spec_is_blank(resp.explanations@[0].suggested_fix@)),
        note_of(resp) matches Some(n) ==> n == resp.explanations@[0],
{
}

/// Whether some recorded explanation names the violation.
pub open spec fn is_explained(s: crate::state::StateView, id: EntityId) -> bool {
    exists|x: int| 0 <= x < s.violation_explanations.len() && (#[trigger] s.violation_explanations[x]).violation == id
}

/// The ids of the first `n` violations that no recorded explanation names, in order.
pub open spec fn unexplained_ids(s: crate::state::StateView, n: nat) -> Seq<EntityId>
    decreases n,
{
    if n == 0 {
        Seq::empty()
    } else {
        let prev = unexplained_ids(s, (n - 1) as nat);
        let id = s.violations[n - 1].id;
        if is_explained(s, id) {
            prev
        } else {
            prev.push(id)
        }
    }
}

/// The review explainer's phase: `Idle`, then `Explaining` each unexplained violation.
pub struct ReviewExplanationMachine {}

impl ReviewExplanationMachine {
    pub fn new() -> (r: ReviewExplanationMachine) {
        ReviewExplanationMachine {  }
    }

    pub fn name(&self) -> (r: &'static str)
        ensures
            r@ == "ReviewExplanation"@,
    {
        "ReviewExplanation"
    }

    pub fn initial(&self) -> (r: String)
        ensures
            r@ == "Idle"@,
    {
        "Idle".to_owned()
    }

    /// The violations still to explain, in order: those no recorded explanation names yet (a
    /// re-run explains nothing twice).
    pub fn unexplained(&self, core: &RuntimeCore) -> (r: Vec<EntityId>)
        ensures
            r@ == unexplained_ids(core.spec_state(), core.spec_state().violations.len()),
    {
        let st = core.current_state();
        let mut out: Vec<EntityId> = Vec::new();
        let mut i: usize = 0;
        while i < st.violations.len()
            invariant
                i <= st.violations.len(),
                st@ == core.spec_state(),
                out@ == unexplained_ids(st@, i as nat),
            decreases st.violations.len() - i,
        {
            let id = st.violations[i].id;
            let mut seen = false;
            let mut e: usize = 0;
            while e < st.violation_explanations.len()
                invariant
                    e <= st.violation_explanations.len(),
                    seen == exists|x: int|
                        0 <= x < e && (#[trigger] st@.violation_explanations[x]).violation == id,
                decreases st.violation_explanations.len() - e,
            {
                if st.violation_explanations[e].violation == id {
                    seen = true;
                }
                proof {
                    if st@.violation_explanations[e as int].violation == id {
                        assert(0 <= e < e + 1 && st@.violation_explanations[e as int].violation == id);
                    }
                }
                e += 1;
            }
            if !seen {
                out.push(id);
            }
            i += 1;
        }
        out
    }

    /// Record the engine's answer for one violation: the reasoning call goes to the log, and a
    /// non-blank first explanation is committed as an advisory note linked to the violation and
    /// to that call. Nothing else changes: the violation, its status and every gate stay as
    /// they were.
    pub fn explain(
        &self,
        core: &mut RuntimeCore,
        violation: EntityId,
        request: ReasoningRequest,
        reply: ReasoningResponse,
    ) -> (r: Option<EventSeq>)
        requires
            old(core).inv(),
            old(core).spec_log().len() + 3 < u64::MAX,
        ensures
            final(core).inv(),
            final(core).spec_autonomy() == old(core).spec_autonomy(),
            final(core).spec_next_id() == old(core).spec_next_id(),
            final(core).spec_state().violations == old(core).spec_state().violations,
            final(core).spec_log()[old(core).spec_log().len() as int].event == (Event::ReasoningCall {
                request,
                response: reply,
            }),
            match note_of(reply) {
                None => r is None && final(core).spec_state() == old(core).spec_state()
                    && final(core).spec_log().len() == old(core).spec_log().len() + 1,
                Some(n) => {
                    let call = old(core).spec_log().len() as EventSeq;
                    let note = Event::ViolationExplained {
                        violation,
                        explanation: n.explanation,
                        suggested_fix: n.suggested_fix,
                        reasoning_call_seq: call,
                    };
                    &&& r == Some(call)
                    &&& final(core).spec_log().len() == old(core).spec_log().len() + 2
                    &&& final(core).spec_state() == fold_events(old(core).spec_state(), seq![note])
                },
            },
    {
        let ghost start = old(core).spec_log().len();
        let first: Option<CandidateExplanation> = if reply.explanations.len() > 0 {
            Some(
                CandidateExplanation {
                    explanation: reply.explanations[0].explanation.clone(),
                    suggested_fix: reply.explanations[0].suggested_fix.clone(),
                },
            )
        } else {
            None
        };
        let ghost rep = reply;
        let ghost req = request;
        proof {
            if reply.explanations@.len() > 0 {
                assert(first == Some(reply.explanations@[0]));
            }
        }
        let call = core.record_reasoning(request, reply);
        let ghost mid = *core;
        assert(mid.spec_log()[start as int].event == (Event::ReasoningCall { request: req, response: rep }));
        match first {
            Some(exp) => {
                if is_blank(exp.explanation.as_str()) && is_blank(exp.suggested_fix.as_str()) {
                    None
                } else {
                    let mut events: Vec<Event> = Vec::new();
                    events.push(
                        Event::ViolationExplained {
                            violation,
                            explanation: exp.explanation,
                            suggested_fix: exp.suggested_fix,
                            reasoning_call_seq: call,
                        },
                    );
                    let ghost evs = events@;
                    core.emit(events);
                    proof {
                        assert(crate::state::log_events(core.spec_log()).len() == core.spec_log().len());
                        assert(crate::state::log_events(mid.spec_log()).len() == mid.spec_log().len());
                        assert(core.spec_log().len() == mid.spec_log().len() + 1);
                        assert(crate::state::log_events(core.spec_log())[start as int]
                            == crate::state::log_events(mid.spec_log())[start as int]);
                        assert(core.spec_log()[start as int].event == mid.spec_log()[start as int].event);
                        reveal_with_fuel(fold_events, 2);
                        assert(evs =~= seq![evs[0]]);
                    }
                    Some(call)
                }
            },
            None => None,
        }
    }
}

} // verus!
