//! The provenance trace of a requirement: the requirement, the decision that justifies it
//! with that decision's evidence, and the design intent it derives from.
use vstd::prelude::*;
use vstd::string::StringExecFns;
use crate::decimal::{decimal_digits, decimal_text};
use crate::domain::{
    Decision, EntityId, Evidence, EvidenceKind, ProvenanceLink, RelationType, Requirement,
    RequirementCategory, RequirementStatus, hex_digits,
};
use crate::driver::CliError;
use crate::kernel::short_spec;
use crate::state::{keys, lookup, EngineeringState, Identified};
use crate::text::same_text;

verus! {

pub open spec fn category_name(c: RequirementCategory) -> Seq<char> {
    match c {
        RequirementCategory::Functional => "Functional"@,
        RequirementCategory::Electrical => "Electrical"@,
        RequirementCategory::Mechanical => "Mechanical"@,
        RequirementCategory::Thermal => "Thermal"@,
        RequirementCategory::Regulatory => "Regulatory"@,
        RequirementCategory::Fabrication => "Fabrication"@,
        RequirementCategory::Cost => "Cost"@,
        RequirementCategory::Schedule => "Schedule"@,
    }
}

pub fn category_text(c: RequirementCategory) -> (r: &'static str)
    ensures
        r@ == category_name(c),
{
    match c {
        RequirementCategory::Functional => "Functional",
        RequirementCategory::Electrical => "Electrical",
        RequirementCategory::Mechanical => "Mechanical",
        RequirementCategory::Thermal => "Thermal",
        RequirementCategory::Regulatory => "Regulatory",
        RequirementCategory::Fabrication => "Fabrication",
        RequirementCategory::Cost => "Cost",
        RequirementCategory::Schedule => "Schedule",
    }
}

pub open spec fn status_name(s: RequirementStatus) -> Seq<char> {
    match s {
        RequirementStatus::Proposed => "Proposed"@,
        RequirementStatus::Accepted => "Accepted"@,
        RequirementStatus::Satisfied => "Satisfied"@,
        RequirementStatus::Violated => "Violated"@,
        RequirementStatus::Waived => "Waived"@,
    }
}

pub fn status_text(s: RequirementStatus) -> (r: &'static str)
    ensures
        r@ == status_name(s),
{
    match s {
        RequirementStatus::Proposed => "Proposed",
        RequirementStatus::Accepted => "Accepted",
        RequirementStatus::Satisfied => "Satisfied",
        RequirementStatus::Violated => "Violated",
        RequirementStatus::Waived => "Waived",
    }
}

pub open spec fn kind_name(k: EvidenceKind) -> Seq<char> {
    match k {
        EvidenceKind::DesignIntentSource => "DesignIntentSource"@,
        EvidenceKind::StandardClause => "StandardClause"@,
        EvidenceKind::PriorDesign => "PriorDesign"@,
        EvidenceKind::DatasheetParameter => "DatasheetParameter"@,
        EvidenceKind::ReviewNote => "ReviewNote"@,
    }
}

pub fn kind_text(k: EvidenceKind) -> (r: &'static str)
    ensures
        r@ == kind_name(k),
{
    match k {
        EvidenceKind::DesignIntentSource => "DesignIntentSource",
        EvidenceKind::StandardClause => "StandardClause",
        EvidenceKind::PriorDesign => "PriorDesign",
        EvidenceKind::DatasheetParameter => "DatasheetParameter",
        EvidenceKind::ReviewNote => "ReviewNote",
    }
}

/// A ratio in parts per million written with two decimals, rounded half away from zero.
pub open spec fn ppm_text(p: int) -> Seq<char> {
    let a = if p < 0 {
        -p
    } else {
        p
    };
    let q = (a + 5000) / 10000;
    let frac = q % 100;
    (if p < 0 && q > 0 {
        "-"@
    } else {
        Seq::empty()
    }) + decimal_digits((q / 100) as nat) + "."@ + (if frac < 10 {
        "0"@
    } else {
        Seq::empty()
    }) + decimal_digits(frac as nat)
}

pub fn ppm_string(p: i64) -> (r: String)
    ensures
        r@ == ppm_text(p as int),
{
    let a: u128 = if p < 0 {
        (-(p as i128)) as u128
    } else {
        p as u128
    };
    let q = (a + 5000) / 10000;
    let frac = q % 100;
    let mut s = String::new();
    if p < 0 && q > 0 {
        s.append("-");
    }
    let whole = decimal_text(q / 100);
    s.append(whole.as_str());
    s.append(".");
    if frac < 10 {
        s.append("0");
    }
    let f = decimal_text(frac);
    s.append(f.as_str());
    s
}

/// The first requirement whose full or short id reads as `name`, from position `i` on.
pub open spec fn named_from(reqs: Seq<Requirement>, name: Seq<char>, i: nat) -> Option<Requirement>
    decreases reqs.len() - i,
{
    if i >= reqs.len() {
        None
    } else if hex_digits(reqs[i as int].id.0 as nat, 32) == name || short_spec(reqs[i as int].id)
        == name {
        Some(reqs[i as int])
    } else {
        named_from(reqs, name, i + 1)
    }
}

/// The first link, from position `i` on, that justifies `from`.
pub open spec fn justification_from(links: Seq<ProvenanceLink>, from: EntityId, i: nat) -> Option<
    ProvenanceLink,
>
    decreases links.len() - i,
{
    if i >= links.len() {
        None
    } else if links[i as int].from == from && links[i as int].relation == RelationType::JustifiedBy {
        Some(links[i as int])
    } else {
        justification_from(links, from, i + 1)
    }
}

pub open spec fn header_text(r: Requirement) -> Seq<char> {
    "Requirement "@ + short_spec(r.id) + " ["@ + category_name(r.category) + " / "@ + status_name(
        r.status,
    ) + "]\n  \""@ + r.statement@ + "\"\n  acceptance: "@ + r.acceptance_criterion@ + "\n"@
}

/// One evidence line per recorded evidence id of the decision, among the first `n`.
pub open spec fn evidence_lines(st: EngineeringState, ids: Seq<EntityId>, n: nat) -> Seq<char>
    decreases n,
{
    if n == 0 || n > ids.len() {
        Seq::empty()
    } else {
        let prev = evidence_lines(st, ids, (n - 1) as nat);
        match lookup(st.evidence@, ids[n - 1]) {
            Some(ev) => prev + "     +- Evidence "@ + short_spec(ev.id) + " ("@ + kind_name(ev.kind)
                + ") from "@ + ev.source@ + "\n"@,
            None => prev,
        }
    }
}

pub open spec fn call_text(c: Option<u64>) -> Seq<char> {
    match c {
        Some(s) => decimal_digits(s as nat),
        None => "none"@,
    }
}

pub open spec fn decision_text(st: EngineeringState, d: Decision) -> Seq<char> {
    "  +- Decision "@ + short_spec(d.id) + " by "@ + d.decider@ + " (confidence "@ + ppm_text(
        d.confidence as int,
    ) + ", reasoning call #"@ + call_text(d.reasoning_call_seq) + ")\n     rationale: "@
        + d.rationale@ + "\n"@ + evidence_lines(st, d.evidence@, d.evidence@.len())
}

pub open spec fn justification_text(st: EngineeringState, r: Requirement) -> Seq<char> {
    match justification_from(st.links@, r.id, 0) {
        Some(l) => match lookup(st.decisions@, l.to) {
            Some(d) => decision_text(st, d),
            None => Seq::empty(),
        },
        None => Seq::empty(),
    }
}

pub open spec fn intent_text(st: EngineeringState, r: Requirement) -> Seq<char> {
    match st.intent {
        Some(i) => if r.source == i.id {
            "  +- derives from Design Intent "@ + short_spec(i.id) + ": \""@ + i.statement@
                + "\"\n"@
        } else {
            Seq::empty()
        },
        None => Seq::empty(),
    }
}

/// The provenance trace of the requirement named by its full or short id.
pub open spec fn trace_spec(st: EngineeringState, name: Seq<char>) -> Option<Seq<char>> {
    match named_from(st.requirements@, name, 0) {
        Some(r) => Some(header_text(r) + justification_text(st, r) + intent_text(st, r)),
        None => None,
    }
}

fn evidence_block(st: &EngineeringState, d: &Decision) -> (r: String)
    ensures
        r@ == evidence_lines(*st, d.evidence@, d.evidence@.len()),
{
    let mut out = String::new();
    let mut i: usize = 0;
    assert(out@ =~= evidence_lines(*st, d.evidence@, 0));
    while i < d.evidence.len()
        invariant
            i <= d.evidence.len(),
            out@ == evidence_lines(*st, d.evidence@, i as nat),
        decreases d.evidence.len() - i,
    {
        match st.evidence_item(d.evidence[i]) {
            Some(ev) => {
                out.append("     +- Evidence ");
                let s = ev.id.short();
                out.append(s.as_str());
                out.append(" (");
                out.append(kind_text(ev.kind));
                out.append(") from ");
                out.append(ev.source.as_str());
                out.append("\n");
            },
            None => {},
        }
        i += 1;
    }
    out
}

fn find_named(reqs: &Vec<Requirement>, name: &str) -> (r: Option<usize>)
    ensures
        match r {
            Some(i) => i < reqs@.len() && named_from(reqs@, name@, 0) == Some(reqs@[i as int]),
            None => named_from(reqs@, name@, 0) is None,
        },
{
    let mut i: usize = 0;
    while i < reqs.len()
        invariant
            i <= reqs.len(),
            named_from(reqs@, name@, 0) == named_from(reqs@, name@, i as nat),
        decreases reqs.len() - i,
    {
        let hex = reqs[i].id.to_hex();
        let short = reqs[i].id.short();
        if same_text(hex.as_str(), name) || same_text(short.as_str(), name) {
            return Some(i);
        }
        i += 1;
    }
    None
}

fn find_justification(links: &Vec<ProvenanceLink>, from: EntityId) -> (r: Option<usize>)
    ensures
        match r {
            Some(i) => i < links@.len() && justification_from(links@, from, 0) == Some(
                links@[i as int],
            ),
            None => justification_from(links@, from, 0) is None,
        },
{
    let mut i: usize = 0;
    while i < links.len()
        invariant
            i <= links.len(),
            justification_from(links@, from, 0) == justification_from(links@, from, i as nat),
        decreases links.len() - i,
    {
        if links[i].from == from && links[i].relation == RelationType::JustifiedBy {
            return Some(i);
        }
        i += 1;
    }
    None
}

fn decision_block(st: &EngineeringState, d: &Decision) -> (r: String)
    ensures
        r@ == decision_text(*st, *d),
{
    let mut out = "  +- Decision ".to_owned();
    let ds = d.id.short();
    out.append(ds.as_str());
    out.append(" by ");
    out.append(d.decider.as_str());
    out.append(" (confidence ");
    let c = ppm_string(d.confidence);
    out.append(c.as_str());
    out.append(", reasoning call #");
    let call = match d.reasoning_call_seq {
        Some(seq) => decimal_text(seq as u128),
        None => "none".to_owned(),
    };
    out.append(call.as_str());
    out.append(")\n     rationale: ");
    out.append(d.rationale.as_str());
    out.append("\n");
    let ev = evidence_block(st, d);
    out.append(ev.as_str());
    assert(out@ =~= decision_text(*st, *d));
    out
}

/// Render the provenance chain of a requirement, found by its full or short hex id.
pub fn trace_text(st: &EngineeringState, requirement: &str) -> (r: Result<String, CliError>)
    ensures
        match trace_spec(*st, requirement@) {
            Some(t) => r matches Ok(s) && s@ == t,
            None => r matches Err(CliError::Msg(m)) && m@ == "requirement "@ + requirement@
                + " not found"@,
        },
{
    let req = match find_named(&st.requirements, requirement) {
        Some(i) => &st.requirements[i],
        None => {
            let mut m = "requirement ".to_owned();
            m.append(requirement);
            m.append(" not found");
            return Err(CliError::Msg(m));
        },
    };
    let mut out = "Requirement ".to_owned();
    let s = req.id.short();
    out.append(s.as_str());
    out.append(" [");
    out.append(category_text(req.category));
    out.append(" / ");
    out.append(status_text(req.status));
    out.append("]\n  \"");
    out.append(req.statement.as_str());
    out.append("\"\n  acceptance: ");
    out.append(req.acceptance_criterion.as_str());
    out.append("\n");
    assert(out@ =~= header_text(*req));
    let ghost h = out@;
    let just = match find_justification(&st.links, req.id) {
        Some(l) => match st.decision(st.links[l].to) {
            Some(d) => decision_block(st, d),
            None => String::new(),
        },
        None => String::new(),
    };
    assert(just@ =~= justification_text(*st, *req));
    out.append(just.as_str());
    let intent_line = match &st.intent {
        Some(intent) => {
            if req.source == intent.id {
                let mut t = "  +- derives from Design Intent ".to_owned();
                let is = intent.id.short();
                t.append(is.as_str());
                t.append(": \"");
                t.append(intent.statement.as_str());
                t.append("\"\n");
                t
            } else {
                String::new()
            }
        },
        None => String::new(),
    };
    assert(intent_line@ =~= intent_text(*st, *req));
    out.append(intent_line.as_str());
    Ok(out)
}

} // verus!
