//! The live reasoning adapter's own logic: which path a request takes, and how the
//! provider's structured tool output becomes untrusted candidates. The HTTP exchange itself
//! is the application's.
use vstd::prelude::*;
use vstd::string::StringExecFns;
use crate::domain::{Ppm, Priority, RequirementCategory};
use crate::ports::{CandidateExplanation, CandidateRequirement, ReasoningResponse};
use crate::text::same_text;

verus! {

/// The schema of the advisory explainer, which takes the explanation path.
pub const EXPLANATION_SCHEMA: &'static str = "violation_explanation_v1";

/// The Anthropic Messages adapter's configuration.
#[derive(Debug)]
pub struct AnthropicEngine {
    api_key: String,
    model: String,
}

impl AnthropicEngine {
    pub closed spec fn spec_model(&self) -> Seq<char> {
        self.model@
    }

    pub closed spec fn spec_api_key(&self) -> Seq<char> {
        self.api_key@
    }

    pub fn new(api_key: String, model: String) -> (r: AnthropicEngine)
        ensures
            r.spec_api_key() == api_key@,
            r.spec_model() == model@,
    {
        AnthropicEngine { api_key, model }
    }

    /// The recorded model id: `anthropic:` and the model name.
    pub fn model_id(&self) -> (r: String)
        ensures
            r@ == "anthropic:"@ + self.spec_model(),
    {
        let mut s = "anthropic:".to_owned();
        s.append(self.model.as_str());
        s
    }

    pub fn model(&self) -> (r: &str)
        ensures
            r@ == self.spec_model(),
    {
        self.model.as_str()
    }

    pub fn api_key(&self) -> (r: &str)
        ensures
            r@ == self.spec_api_key(),
    {
        self.api_key.as_str()
    }
}

/// The lower-case form of a text under Unicode case mapping (`str::to_lowercase`).
pub uninterp spec fn lowercased(s: Seq<char>) -> Seq<char>;

/// Lower-cases a text with std's `str::to_lowercase` (full Unicode case mapping). The result is
/// named, not described: it depends on the text alone.
#[verifier::external_body]
fn to_lower(s: &str) -> (r: String)
    ensures
        r@ == lowercased(s@),
{
    s.to_lowercase()
}

/// The requirement category a lower-cased label names; anything else is functional.
pub open spec fn category_of(l: Seq<char>) -> RequirementCategory {
    if l == "electrical"@ {
        RequirementCategory::Electrical
    } else if l == "mechanical"@ {
        RequirementCategory::Mechanical
    } else if l == "thermal"@ {
        RequirementCategory::Thermal
    } else if l == "regulatory"@ {
        RequirementCategory::Regulatory
    } else if l == "fabrication"@ {
        RequirementCategory::Fabrication
    } else if l == "cost"@ {
        RequirementCategory::Cost
    } else if l == "schedule"@ {
        RequirementCategory::Schedule
    } else {
        RequirementCategory::Functional
    }
}

pub fn category_for(l: &str) -> (r: RequirementCategory)
    ensures
        r == category_of(l@),
{
    if same_text(l, "electrical") {
        RequirementCategory::Electrical
    } else if same_text(l, "mechanical") {
        RequirementCategory::Mechanical
    } else if same_text(l, "thermal") {
        RequirementCategory::Thermal
    } else if same_text(l, "regulatory") {
        RequirementCategory::Regulatory
    } else if same_text(l, "fabrication") {
        RequirementCategory::Fabrication
    } else if same_text(l, "cost") {
        RequirementCategory::Cost
    } else if same_text(l, "schedule") {
        RequirementCategory::Schedule
    } else {
        RequirementCategory::Functional
    }
}

/// Map a provider category label, case-insensitively, to a requirement category.
pub fn map_category(s: &str) -> (r: RequirementCategory)
    ensures
        r == category_of(lowercased(s@)),
{
    let l = to_lower(s);
    category_for(l.as_str())
}

/// The priority a lower-cased label names; anything else is medium.
pub open spec fn priority_of(l: Seq<char>) -> Priority {
    if l == "high"@ {
        Priority::High
    } else if l == "low"@ {
        Priority::Low
    } else {
        Priority::Medium
    }
}

pub fn priority_for(l: &str) -> (r: Priority)
    ensures
        r == priority_of(l@),
{
    if same_text(l, "high") {
        Priority::High
    } else if same_text(l, "low") {
        Priority::Low
    } else {
        Priority::Medium
    }
}

/// Map a provider priority label, case-insensitively, to a priority.
pub fn map_priority(s: &str) -> (r: Priority)
    ensures
        r == priority_of(lowercased(s@)),
{
    let l = to_lower(s);
    priority_for(l.as_str())
}

/// Whether a request takes the advisory explanation path (else the requirement path).
pub fn is_explanation_request(schema_name: &str) -> (r: bool)
    ensures
        r == (schema_name@ == EXPLANATION_SCHEMA@),
{
    same_text(schema_name, EXPLANATION_SCHEMA)
}

/// One requirement candidate as the provider's tool output states it (absent text fields
/// read as empty, an absent confidence as one half).
#[derive(Debug)]
pub struct RawCandidate {
    pub statement: String,
    pub category: String,
    pub priority: String,
    pub acceptance_criterion: String,
    pub source_hint: String,
    pub confidence: Ppm,
    pub rationale: String,
}

/// The candidate a raw one becomes: its labels mapped, its texts kept, no typed targets.
pub open spec fn candidate_is(c: CandidateRequirement, r: RawCandidate) -> bool {
    &&& c.statement == r.statement
    &&& c.category == category_of(lowercased(r.category@))
    &&& c.priority == priority_of(lowercased(r.priority@))
    &&& c.acceptance_criterion == r.acceptance_criterion
    &&& c.source_hint == r.source_hint
    &&& c.confidence == r.confidence
    &&& c.rationale == r.rationale
    &&& c.targets@.len() == 0
}

/// The requirement path's answer: every raw candidate mapped, in order, with the clarifying
/// questions and the provider's raw body.
pub fn requirement_response(
    raw: Vec<RawCandidate>,
    clarifying_questions: Vec<String>,
    raw_body: String,
) -> (r: ReasoningResponse)
    ensures
        r.candidates@.len() == raw@.len(),
        forall|k: int| 0 <= k < raw@.len() ==> candidate_is(#[trigger] r.candidates@[k], raw@[k]),
        r.explanations@.len() == 0,
        r.part_candidates@.len() == 0,
        r.clarifying_questions@ == clarifying_questions@,
        r.raw == raw_body,
{
    let ghost all = raw@;
    let mut rest = raw;
    let mut rev: Vec<RawCandidate> = Vec::new();
    while rest.len() > 0
        invariant
            all == rest@ + rev@.reverse(),
        decreases rest.len(),
    {
        let c = rest.pop().unwrap();
        proof {
            assert(rev@.push(c).reverse() =~= seq![c] + rev@.reverse());
        }
        rev.push(c);
    }
    assert(all =~= rev@.reverse());
    let mut candidates: Vec<CandidateRequirement> = Vec::new();
    while rev.len() > 0
        invariant
            all == all.take(candidates@.len() as int) + rev@.reverse(),
            candidates@.len() <= all.len(),
            forall|k: int|
                0 <= k < candidates@.len() ==> candidate_is(#[trigger] candidates@[k], all[k]),
        decreases rev.len(),
    {
        let n = candidates.len();
        let c = rev.pop().unwrap();
        proof {
            assert(rev@.push(c).reverse() =~= seq![c] + rev@.reverse());
            assert(all[n as int] == c);
            assert(all.take(n + 1) =~= all.take(n as int).push(c));
        }
        let category = map_category(c.category.as_str());
        let priority = map_priority(c.priority.as_str());
        candidates.push(
            CandidateRequirement {
                statement: c.statement,
                category,
                priority,
                acceptance_criterion: c.acceptance_criterion,
                source_hint: c.source_hint,
                confidence: c.confidence,
                rationale: c.rationale,
                targets: Vec::new(),
            },
        );
    }
    ReasoningResponse {
        candidates,
        explanations: Vec::new(),
        part_candidates: Vec::new(),
        clarifying_questions,
        raw: raw_body,
    }
}

/// The explanation path's answer: the one advisory explanation, with the raw body.
pub fn explanation_response(explanation: String, suggested_fix: String, raw_body: String) -> (r:
    ReasoningResponse)
    ensures
        r.candidates@.len() == 0,
        r.explanations@.len() == 1,
        r.explanations@[0] == (CandidateExplanation { explanation, suggested_fix }),
        r.part_candidates@.len() == 0,
        r.clarifying_questions@.len() == 0,
        r.raw == raw_body,
{
    let mut explanations: Vec<CandidateExplanation> = Vec::new();
    explanations.push(CandidateExplanation { explanation, suggested_fix });
    ReasoningResponse {
        candidates: Vec::new(),
        explanations,
        part_candidates: Vec::new(),
        clarifying_questions: Vec::new(),
        raw: raw_body,
    }
}

} // verus!
