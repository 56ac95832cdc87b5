//! The engineering domain model: addressed entities, their lifecycles and the invariants
//! each one checks about itself. Referential integrity between entities lives at the
//! runtime's capability seam ([`crate::kernel`]).
use vstd::prelude::*;
use crate::text::{is_blank, spec_is_blank};
use vstd::string::StringExecFns;

verus! {

// ============================== identity ==============================

/// Opaque, immutable identity. Carries no meaning; referenced by value. `EntityId(0)` is
/// reserved as the null sentinel and is never minted.
#[derive(Debug, Clone, Copy, PartialEq, Eq, Structural, PartialOrd, Ord, Hash)]
pub struct EntityId(pub u128);

/// The lower-case hexadecimal digit of a value below 16.
pub open spec fn hex_digit(d: nat) -> char {
    if d < 10 {
        (('0' as nat) + d) as char
    } else {
        (('a' as nat) + d - 10) as char
    }
}

/// The `n` lowest hexadecimal digits of `v`, most significant first, zero-padded.
pub open spec fn hex_digits(v: nat, n: nat) -> Seq<char>
    decreases n,
{
    if n == 0 {
        Seq::empty()
    } else {
        hex_digits(v / 16, (n - 1) as nat).push(hex_digit(v % 16))
    }
}

/// The value of a lower-case hexadecimal digit.
pub open spec fn hex_value_of(c: char) -> nat {
    if '0' <= c && c <= '9' {
        (c as nat - '0' as nat) as nat
    } else if 'a' <= c && c <= 'f' {
        (c as nat - 'a' as nat + 10) as nat
    } else {
        0
    }
}

/// The value of a hexadecimal numeral, most significant digit first.
pub open spec fn hex_value(s: Seq<char>) -> nat
    decreases s.len(),
{
    if s.len() == 0 {
        0
    } else {
        hex_value(s.drop_last()) * 16 + hex_value_of(s.last())
    }
}

pub open spec fn pow16(n: nat) -> nat
    decreases n,
{
    if n == 0 {
        1
    } else {
        16 * pow16((n - 1) as nat)
    }
}

proof fn lemma_pow16_positive(n: nat)
    ensures
        pow16(n) > 0,
    decreases n,
{
    if n > 0 {
        lemma_pow16_positive((n - 1) as nat);
    }
}

/// `n` digits, each of which reads back as itself.
pub proof fn lemma_hex_digits_read(v: nat, n: nat)
    ensures
        hex_digits(v, n).len() == n,
        hex_value(hex_digits(v, n)) == v % pow16(n),
    decreases n,
{
    if n > 0 {
        let m = (n - 1) as nat;
        lemma_hex_digits_read(v / 16, m);
        lemma_pow16_positive(m);
        let d = v % 16;
        assert(hex_value_of(hex_digit(d)) == d);
        assert(hex_digits(v, n).drop_last() =~= hex_digits(v / 16, m));
        vstd::arithmetic::div_mod::lemma_breakdown(v as int, 16, pow16(m) as int);
    } else {
        assert(v % 1 == 0);
    }
}

/// The last `n` of `m` digits are the `n` lowest digits.
pub proof fn lemma_hex_digits_suffix(v: nat, m: nat, n: nat)
    requires
        n <= m,
    ensures
        hex_digits(v, m).subrange(m - n, m as int) == hex_digits(v, n),
    decreases n,
{
    lemma_hex_digits_read(v, m);
    lemma_hex_digits_read(v, n);
    if n > 0 {
        lemma_hex_digits_suffix(v / 16, (m - 1) as nat, (n - 1) as nat);
        lemma_hex_digits_read(v / 16, (m - 1) as nat);
        assert(hex_digits(v, m).subrange(m - n, m as int) =~= hex_digits(v / 16, (m - 1) as nat).subrange(
            m - n,
            m - 1,
        ).push(hex_digit(v % 16)));
    } else {
        assert(hex_digits(v, m).subrange(m - n, m as int) =~= Seq::<char>::empty());
    }
}

/// Reducing a value below `16^n` leaves its `n` lowest digits as they were.
pub proof fn lemma_hex_digits_mod(v: nat, n: nat)
    ensures
        hex_digits(v % pow16(n), n) == hex_digits(v, n),
    decreases n,
{
    lemma_pow16_positive(n);
    if n > 0 {
        let m = (n - 1) as nat;
        lemma_pow16_positive(m);
        let p = pow16(m);
        vstd::arithmetic::div_mod::lemma_breakdown(v as int, 16, p as int);
        let w = v % pow16(n);
        let q = (v / 16) % p;
        assert(w == 16 * q + v % 16);
        vstd::arithmetic::div_mod::lemma_fundamental_div_mod_converse(w as int, 16, q as int, (v % 16) as int);
        lemma_hex_digits_mod(v / 16, m);
    }
}

fn hex_digit_exec(d: u128) -> (c: char)
    requires
        d < 16,
    ensures
        c == hex_digit(d as nat),
{
    let cs: [char; 16] = [
        '0',
        '1',
        '2',
        '3',
        '4',
        '5',
        '6',
        '7',
        '8',
        '9',
        'a',
        'b',
        'c',
        'd',
        'e',
        'f',
    ];
    let c = cs[d as usize];
    assert(c == hex_digit(d as nat)) by {
        assert(cs@[0] == '0' && cs@[1] == '1' && cs@[2] == '2' && cs@[3] == '3');
        assert(cs@[4] == '4' && cs@[5] == '5' && cs@[6] == '6' && cs@[7] == '7');
        assert(cs@[8] == '8' && cs@[9] == '9' && cs@[10] == 'a' && cs@[11] == 'b');
        assert(cs@[12] == 'c' && cs@[13] == 'd' && cs@[14] == 'e' && cs@[15] == 'f');
    }
    c
}

fn hex_digits_exec(v: u128, n: usize) -> (r: Vec<char>)
    ensures
        r@ == hex_digits(v as nat, n as nat),
    decreases n,
{
    if n == 0 {
        Vec::new()
    } else {
        let mut r = hex_digits_exec(v / 16, n - 1);
        r.push(hex_digit_exec(v % 16));
        r
    }
}

impl EntityId {
    /// The reserved null sentinel, `EntityId(0)`.
    pub fn null() -> (r: EntityId)
        ensures
            r.0 == 0,
    {
        EntityId(0)
    }

    pub open spec fn spec_is_null(self) -> bool {
        self.0 == 0
    }

    #[verifier::when_used_as_spec(spec_is_null)]
    pub fn is_null(self) -> (r: bool)
        ensures
            r == (self.0 == 0),
    {
        self.0 == 0
    }

    /// The full 32-digit lower-case hexadecimal form.
    pub fn to_hex(self) -> (r: String)
        ensures
            r@ == hex_digits(self.0 as nat, 32),
    {
        crate::text::string_from_chars(&hex_digits_exec(self.0, 32))
    }

    /// Short 8-hex-digit form for human-facing traces: the id's low 32 bits.
    /// An id's hexadecimal form reads back as the id, and its short form is the last eight
    /// digits of it.
    pub proof fn lemma_hex_forms(self)
        ensures
            hex_digits(self.0 as nat, 32).len() == 32,
            hex_value(hex_digits(self.0 as nat, 32)) == self.0,
            hex_digits((self.0 % 0x1_0000_0000) as nat, 8) == hex_digits(self.0 as nat, 32).subrange(
                24,
                32,
            ),
    {
        lemma_hex_digits_read(self.0 as nat, 32);
        reveal_with_fuel(pow16, 33);
        assert(pow16(8) == 0x1_0000_0000);
        assert(pow16(32) == 0x1_0000_0000_0000_0000_0000_0000_0000_0000);
        lemma_hex_digits_mod(self.0 as nat, 8);
        lemma_hex_digits_suffix(self.0 as nat, 32, 8);
    }

    pub fn short(self) -> (r: String)
        ensures
            r@ == hex_digits((self.0 % 0x1_0000_0000) as nat, 8),
    {
        crate::text::string_from_chars(&hex_digits_exec(self.0 % 0x1_0000_0000, 8))
    }
}

// ============================== physical quantities ==============================

/// The physical dimension of a [`Quantity`].
#[derive(Debug, Clone, Copy, PartialEq, Eq, Structural, Hash)]
pub enum Dimension {
    Length,
    Current,
    Voltage,
    Resistance,
    Power,
    Frequency,
}

/// A typed physical quantity, held exactly as a whole number of nano-SI units (nanometres,
/// nanoamperes, nanovolts, nano-ohms, nanowatts, nanohertz). Integer magnitudes are always
/// finite; KiCad geometry lives on the same 1 nm grid.
#[derive(Debug, Clone, Copy, PartialEq, Eq, Structural, Hash)]
pub struct Quantity {
    pub nano: i128,
    pub dimension: Dimension,
}

impl Quantity {
    /// A length given in nanometres.
    pub fn length_nm(nm: i128) -> (q: Quantity)
        ensures
            q == (Quantity { nano: nm, dimension: Dimension::Length }),
    {
        Quantity { nano: nm, dimension: Dimension::Length }
    }

    pub open spec fn spec_is_positive(self) -> bool {
        self.nano > 0
    }

    /// Whether the magnitude is strictly positive.
    #[verifier::when_used_as_spec(spec_is_positive)]
    pub fn is_positive(self) -> (r: bool)
        ensures
            r == (self.nano > 0),
    {
        self.nano > 0
    }
}

/// A dimensionless ratio held in parts per million (1.0 is `1_000_000`).
pub type Ppm = i64;

/// One whole unit in parts per million.
pub const PPM_ONE: i64 = 1_000_000;

// ============================== errors ==============================

/// A violated domain invariant.
#[derive(Debug, Clone, PartialEq, Eq)]
pub enum DomainError {
    EmptyStatement,
    /// A named, required text field was blank (carries the field's human label).
    EmptyField(&'static str),
    /// An entity's fields are internally inconsistent (carries a human explanation).
    Inconsistent(&'static str),
    AcceptedRequirementNeedsCriterion,
    AcceptedRequirementNeedsSource,
}

/// The human-readable text of a domain error.
pub open spec fn domain_message(e: DomainError) -> Seq<char> {
    match e {
        DomainError::EmptyStatement => "requirement statement is empty"@,
        DomainError::EmptyField(f) => f@ + " must not be empty"@,
        DomainError::Inconsistent(m) => m@,
        DomainError::AcceptedRequirementNeedsCriterion =>
            "accepted requirement lacks an acceptance criterion"@,
        DomainError::AcceptedRequirementNeedsSource => "accepted requirement lacks a source"@,
    }
}

impl DomainError {
    /// The human-readable text of this error.
    pub fn message(&self) -> (r: String)
        ensures
            r@ == domain_message(*self),
    {
        match self {
            DomainError::EmptyStatement => "requirement statement is empty".to_owned(),
            DomainError::EmptyField(f) => {
                let mut s = (*f).to_owned();
                s.append(" must not be empty");
                s
            },
            DomainError::Inconsistent(m) => (*m).to_owned(),
            DomainError::AcceptedRequirementNeedsCriterion =>
                "accepted requirement lacks an acceptance criterion".to_owned(),
            DomainError::AcceptedRequirementNeedsSource =>
                "accepted requirement lacks a source".to_owned(),
        }
    }
}

// ============================== Phase 1: intent layer ==============================

#[derive(Debug, Clone, Copy, PartialEq, Eq, Structural, Hash)]
pub enum RequirementCategory {
    Functional,
    Electrical,
    Mechanical,
    Thermal,
    Regulatory,
    /// Fabrication/assembly process limits (trace width, drill sizes, layer count).
    Fabrication,
    Cost,
    Schedule,
}

#[derive(Debug, Clone, Copy, PartialEq, Eq, Structural, Hash)]
pub enum RequirementStatus {
    Proposed,
    Accepted,
    Satisfied,
    Violated,
    Waived,
}

#[derive(Debug, Clone, Copy, PartialEq, Eq, Structural, Hash)]
pub enum Priority {
    High,
    Medium,
    Low,
}

#[derive(Debug, Clone, Copy, PartialEq, Eq, Structural, Hash)]
pub enum RelationType {
    DerivedFrom,
    JustifiedBy,
    BasedOnReasoning,
    Supports,
    TracesTo,
    Supersedes,
}

#[derive(Debug, Clone, Copy, PartialEq, Eq, Structural, Hash)]
pub enum EvidenceKind {
    DesignIntentSource,
    StandardClause,
    PriorDesign,
    DatasheetParameter,
    ReviewNote,
}

/// The originating goal, preserved verbatim and as a structured summary.
#[derive(Debug)]
pub struct DesignIntent {
    pub id: EntityId,
    pub statement: String,
    pub structured_summary: String,
    pub source: String,
}

/// A single testable statement the design must satisfy.
#[derive(Debug)]
pub struct Requirement {
    pub id: EntityId,
    pub statement: String,
    pub category: RequirementCategory,
    pub priority: Priority,
    pub acceptance_criterion: String,
    pub status: RequirementStatus,
    /// The DesignIntent (or external standard entity) this requirement is rooted in.
    pub source: EntityId,
    /// Typed physical targets within the requirement.
    pub targets: Vec<Quantity>,
}

impl Requirement {
    pub open spec fn spec_is_testable(&self) -> bool {
        !spec_is_blank(self.acceptance_criterion@)
    }

    #[verifier::when_used_as_spec(spec_is_testable)]
    pub fn is_testable(&self) -> (r: bool)
        ensures
            r == !spec_is_blank(self.acceptance_criterion@),
    {
        !is_blank(self.acceptance_criterion.as_str())
    }

    /// The invariant outcome: a non-blank statement; an *accepted* requirement is also
    /// testable and rooted in a source.
    pub open spec fn validity(&self) -> Result<(), DomainError> {
        if spec_is_blank(self.statement@) {
            Err(DomainError::EmptyStatement)
        } else if self.status == RequirementStatus::Accepted && spec_is_blank(
            self.acceptance_criterion@,
        ) {
            Err(DomainError::AcceptedRequirementNeedsCriterion)
        } else if self.status == RequirementStatus::Accepted && self.source.0 == 0 {
            Err(DomainError::AcceptedRequirementNeedsSource)
        } else {
            Ok(())
        }
    }

    pub fn validate(&self) -> (r: Result<(), DomainError>)
        ensures
            r == self.validity(),
    {
        if is_blank(self.statement.as_str()) {
            return Err(DomainError::EmptyStatement);
        }
        if self.status == RequirementStatus::Accepted {
            if !self.is_testable() {
                return Err(DomainError::AcceptedRequirementNeedsCriterion);
            }
            if self.source.is_null() {
                return Err(DomainError::AcceptedRequirementNeedsSource);
            }
        }
        Ok(())
    }
}

/// The justification for a design-significant change.
#[derive(Debug)]
pub struct Decision {
    pub id: EntityId,
    pub subject: EntityId,
    pub rationale: String,
    pub decider: String,
    /// Sequence number of the recorded reasoning call this decision relied on, if any.
    pub reasoning_call_seq: Option<u64>,
    pub evidence: Vec<EntityId>,
    pub confidence: Ppm,
}

/// A fact supporting a [`Decision`].
#[derive(Debug)]
pub struct Evidence {
    pub id: EntityId,
    pub kind: EvidenceKind,
    pub content_reference: String,
    pub source: String,
    pub reliability: Ppm,
}

/// A first-class, addressed relationship ("X relation Y").
#[derive(Debug, Clone, Copy, PartialEq, Eq, Structural)]
pub struct ProvenanceLink {
    pub id: EntityId,
    pub from: EntityId,
    pub to: EntityId,
    pub relation: RelationType,
}

// ============================== Phase 2: verification ==============================

#[derive(Debug, Clone, Copy, PartialEq, Eq, Structural, Hash)]
pub enum ConstraintKind {
    Max,
    Min,
    Equal,
}

#[derive(Debug, Clone, Copy, PartialEq, Eq, Structural, Hash)]
pub enum ConstraintStatus {
    Active,
    Superseded,
}

/// A machine-checkable bound on a requirement's physical target.
#[derive(Debug)]
pub struct Constraint {
    pub id: EntityId,
    pub statement: String,
    pub subject_requirement: EntityId,
    pub kind: ConstraintKind,
    pub bound: Quantity,
    pub source: EntityId,
    pub status: ConstraintStatus,
}

impl Constraint {
    pub fn is_active(&self) -> (r: bool)
        ensures
            r == (self.status == ConstraintStatus::Active),
    {
        self.status == ConstraintStatus::Active
    }

    pub open spec fn validity(&self) -> Result<(), DomainError> {
        if spec_is_blank(self.statement@) {
            Err(DomainError::EmptyStatement)
        } else {
            Ok(())
        }
    }

    /// A constraint carries a non-blank statement.
    pub fn validate(&self) -> (r: Result<(), DomainError>)
        ensures
            r == self.validity(),
    {
        if is_blank(self.statement.as_str()) {
            return Err(DomainError::EmptyStatement);
        }
        Ok(())
    }
}

/// How serious a [`Violation`] is. Only `Error` can block a workflow.
#[derive(Debug, Clone, Copy, PartialEq, Eq, Structural, Hash)]
pub enum ViolationSeverity {
    Error,
    Warning,
    Info,
}

#[derive(Debug, Clone, Copy, PartialEq, Eq, Structural, Hash)]
pub enum ViolationStatus {
    Open,
    Waived,
    Resolved,
}

/// A detected breach of a verification rule, traceable through its subjects.
#[derive(Debug)]
pub struct Violation {
    pub id: EntityId,
    pub rule: String,
    pub severity: ViolationSeverity,
    pub subjects: Vec<EntityId>,
    pub message: String,
    pub status: ViolationStatus,
}

impl Violation {
    pub open spec fn spec_is_blocking(&self) -> bool {
        self.severity == ViolationSeverity::Error && self.status == ViolationStatus::Open
    }

    /// A violation blocks a workflow iff it is an unaddressed error.
    #[verifier::when_used_as_spec(spec_is_blocking)]
    pub fn is_blocking(&self) -> (r: bool)
        ensures
            r == (self.severity == ViolationSeverity::Error && self.status
                == ViolationStatus::Open),
    {
        self.severity == ViolationSeverity::Error && self.status == ViolationStatus::Open
    }
}

/// A recorded decision to accept a [`Violation`] rather than fix it.
#[derive(Debug)]
pub struct Waiver {
    pub id: EntityId,
    pub violation: EntityId,
    pub justification: String,
    pub decided_by: String,
}

// ============================== Phase 3: schematic ==============================

/// A unit of design intent realized as part of the architecture.
#[derive(Debug)]
pub struct FunctionalBlock {
    pub id: EntityId,
    pub name: String,
    pub function: String,
    pub requirements: Vec<EntityId>,
}

impl FunctionalBlock {
    pub open spec fn validity(&self) -> Result<(), DomainError> {
        if spec_is_blank(self.name@) {
            Err(DomainError::EmptyField("functional block name"))
        } else {
            Ok(())
        }
    }

    /// A block carries a non-blank name.
    pub fn validate(&self) -> (r: Result<(), DomainError>)
        ensures
            r == self.validity(),
    {
        if is_blank(self.name.as_str()) {
            return Err(DomainError::EmptyField("functional block name"));
        }
        Ok(())
    }
}

#[derive(Debug, Clone, Copy, PartialEq, Eq, Structural, Hash)]
pub enum ComponentClass {
    Connector,
    Regulator,
    Ic,
    Resistor,
    Capacitor,
}

#[derive(Debug, Clone, Copy, PartialEq, Eq, Structural, Hash)]
pub enum PinElectricalType {
    PowerIn,
    PowerOut,
    Input,
    Output,
    Bidirectional,
    Passive,
    Ground,
    NoConnect,
}

#[derive(Debug, Clone, Copy, PartialEq, Eq, Structural, Hash)]
pub enum NetClass {
    Power,
    Ground,
    Signal,
}

/// Where a [`Component`] came from: minted from a committed block, or parsed from a board.
#[derive(Debug, Clone, Copy, PartialEq, Eq, Structural)]
pub enum ComponentOrigin {
    Synthesized,
    Imported,
}

impl Default for ComponentOrigin {
    /// A component is synthesized unless stated otherwise, so records that predate the
    /// origin field read back with their original meaning.
    fn default() -> (r: ComponentOrigin)
        ensures
            r == ComponentOrigin::Synthesized,
    {
        ComponentOrigin::Synthesized
    }
}

/// A concrete part realizing some of a block's function.
#[derive(Debug)]
pub struct Component {
    pub id: EntityId,
    pub refdes: String,
    pub class: ComponentClass,
    pub value: Option<Quantity>,
    /// The functional block this component was realized from (null for an imported one).
    pub from_block: EntityId,
    pub origin: ComponentOrigin,
}

impl Component {
    pub open spec fn validity(&self) -> Result<(), DomainError> {
        if spec_is_blank(self.refdes@) {
            Err(DomainError::EmptyField("component reference designator"))
        } else {
            Ok(())
        }
    }

    /// A component carries a non-blank reference designator.
    pub fn validate(&self) -> (r: Result<(), DomainError>)
        ensures
            r == self.validity(),
    {
        if is_blank(self.refdes.as_str()) {
            return Err(DomainError::EmptyField("component reference designator"));
        }
        Ok(())
    }
}

/// An addressed terminal of a [`Component`].
#[derive(Debug)]
pub struct Pin {
    pub id: EntityId,
    pub component: EntityId,
    pub designation: String,
    pub electrical_type: PinElectricalType,
}

/// Where a [`Net`] came from: synthesised (joins pins) or imported copper (may be member-less).
#[derive(Debug, Clone, Copy, PartialEq, Eq, Structural)]
pub enum NetOrigin {
    Logical,
    Physical,
}

/// A first-class electrical connection joining a set of pins.
#[derive(Debug)]
pub struct Net {
    pub id: EntityId,
    pub name: String,
    pub class: NetClass,
    pub members: Vec<EntityId>,
    pub current: Option<Quantity>,
    pub impedance_target: Option<Quantity>,
    pub origin: NetOrigin,
}

/// A stated quantity of the given dimension must be positive.
pub open spec fn positive_of(q: Option<Quantity>, d: Dimension) -> bool {
    match q {
        Some(v) => v.dimension == d && v.nano > 0,
        None => true,
    }
}

impl Net {
    pub open spec fn validity(&self) -> Result<(), DomainError> {
        if spec_is_blank(self.name@) {
            Err(DomainError::EmptyField("net name"))
        } else if !positive_of(self.current, Dimension::Current) {
            Err(DomainError::Inconsistent("net current must be a finite, positive Current quantity"))
        } else if !positive_of(self.impedance_target, Dimension::Resistance) {
            Err(
                DomainError::Inconsistent(
                    "net impedance target must be a finite, positive Resistance quantity",
                ),
            )
        } else {
            Ok(())
        }
    }

    /// A net carries a non-blank name; a stated current is a positive Current and a stated
    /// impedance target a positive Resistance.
    pub fn validate(&self) -> (r: Result<(), DomainError>)
        ensures
            r == self.validity(),
    {
        if is_blank(self.name.as_str()) {
            return Err(DomainError::EmptyField("net name"));
        }
        if let Some(current) = &self.current {
            if current.dimension != Dimension::Current || current.nano <= 0 {
                return Err(
                    DomainError::Inconsistent(
                        "net current must be a finite, positive Current quantity",
                    ),
                );
            }
        }
        if let Some(z0) = &self.impedance_target {
            if z0.dimension != Dimension::Resistance || z0.nano <= 0 {
                return Err(
                    DomainError::Inconsistent(
                        "net impedance target must be a finite, positive Resistance quantity",
                    ),
                );
            }
        }
        Ok(())
    }
}

// ============================== BOM ==============================

#[derive(Debug, Clone, Copy, PartialEq, Eq, Structural, Hash)]
pub enum PartLifecycle {
    Active,
    Nrnd,
    Eol,
}

/// A concrete, orderable part identified by its manufacturer part number.
#[derive(Debug)]
pub struct Part {
    pub id: EntityId,
    pub mpn: String,
    pub manufacturer: String,
    pub lifecycle: PartLifecycle,
    pub datasheet: String,
}

impl Part {
    pub open spec fn validity(&self) -> Result<(), DomainError> {
        if spec_is_blank(self.mpn@) {
            Err(DomainError::EmptyField("manufacturer part number"))
        } else {
            Ok(())
        }
    }

    /// A part carries a non-blank manufacturer part number.
    pub fn validate(&self) -> (r: Result<(), DomainError>)
        ensures
            r == self.validity(),
    {
        if is_blank(self.mpn.as_str()) {
            return Err(DomainError::EmptyField("manufacturer part number"));
        }
        Ok(())
    }
}

/// A binding of one [`Part`] to the components it realizes, with a build quantity.
#[derive(Debug)]
pub struct BomLineItem {
    pub id: EntityId,
    pub part: EntityId,
    pub components: Vec<EntityId>,
    pub quantity: u32,
}

impl BomLineItem {
    pub open spec fn validity(&self) -> Result<(), DomainError> {
        if self.components@.len() == 0 {
            Err(DomainError::EmptyField("BOM line item components"))
        } else if self.quantity as int != self.components@.len() {
            Err(
                DomainError::Inconsistent(
                    "BOM line item quantity must equal the number of components it covers",
                ),
            )
        } else if !self.components@.no_duplicates() {
            Err(DomainError::Inconsistent("BOM line item lists a component more than once"))
        } else {
            Ok(())
        }
    }

    /// A line covers at least one component, its quantity equals the number of components
    /// it covers, and it lists no component twice.
    pub fn validate(&self) -> (r: Result<(), DomainError>)
        ensures
            r == self.validity(),
    {
        if self.components.len() == 0 {
            return Err(DomainError::EmptyField("BOM line item components"));
        }
        if self.quantity as usize != self.components.len() {
            return Err(
                DomainError::Inconsistent(
                    "BOM line item quantity must equal the number of components it covers",
                ),
            );
        }
        let n = self.components.len();
        let mut i: usize = 0;
        while i < n
            invariant
                n == self.components@.len(),
                n > 0,
                self.quantity as int == n,
                i <= n,
                forall|a: int, b: int|
                    0 <= a < i && a < b < n ==> self.components@[a] != self.components@[b],
            decreases n - i,
        {
            let mut j: usize = i + 1;
            while j < n
                invariant
                    n == self.components@.len(),
                    self.quantity as int == n,
                    i < n,
                    i + 1 <= j <= n,
                    forall|b: int| i < b < j ==> self.components@[i as int] != self.components@[b],
                decreases n - j,
            {
                if self.components[j] == self.components[i] {
                    assert(self.components@[i as int] == self.components@[j as int]);
                    assert(!self.components@.no_duplicates());
                    assert(self.components@.len() != 0);
                    assert(self.quantity as int == self.components@.len());
                    return Err(
                        DomainError::Inconsistent(
                            "BOM line item lists a component more than once",
                        ),
                    );
                }
                j += 1;
            }
            i += 1;
        }
        Ok(())
    }
}

// ============================== PCB ==============================

#[derive(Debug, Clone, Copy, PartialEq, Eq, Structural, Hash)]
pub enum BoardSide {
    Top,
    Bottom,
}

#[derive(Debug, Clone, Copy, PartialEq, Eq, Structural, Hash)]
pub enum LayerRole {
    Signal,
    Plane,
}

/// One copper layer plus the dielectric beneath it. `dielectric_er` (εr) and `loss_tangent`
/// (tan δ) are dimensionless ratios in parts per million.
#[derive(Debug, Clone, Copy)]
pub struct Layer {
    pub role: LayerRole,
    pub copper_thickness: Quantity,
    pub dielectric_height: Quantity,
    pub dielectric_er: Ppm,
    pub loss_tangent: Ppm,
}

/// The board's copper/dielectric build-up, ordered top to bottom.
#[derive(Debug)]
pub struct LayerStack {
    pub layers: Vec<Layer>,
}

pub open spec fn layer_ok_dims(l: Layer) -> bool {
    l.copper_thickness.nano > 0 && l.dielectric_height.nano > 0
}

/// The layers of the canonical 2-layer 1.6 mm FR-4 build-up.
pub open spec fn standard_layers() -> Seq<Layer> {
    seq![
        Layer {
            role: LayerRole::Signal,
            copper_thickness: Quantity::spec_mm_nm(35_000),
            dielectric_height: Quantity::spec_mm_nm(1_600_000),
            dielectric_er: 4_500_000,
            loss_tangent: 20_000,
        },
        Layer {
            role: LayerRole::Plane,
            copper_thickness: Quantity::spec_mm_nm(35_000),
            dielectric_height: Quantity::spec_mm_nm(1_600_000),
            dielectric_er: 4_500_000,
            loss_tangent: 20_000,
        },
    ]
}

impl LayerStack {
    /// The canonical default: a 2-layer 1.6 mm FR-4 board — a top `Signal` layer and a bottom
    /// `Plane`, both 35 µm copper on the same dielectric (εr 4.5, tan δ 0.02).
    pub fn standard_two_layer() -> (r: LayerStack)
        ensures
            r.layers@ == standard_layers(),
            r.validity() is Ok,
            r.layers@.len() == 2,
            r.layers@[0].role == LayerRole::Signal,
            r.layers@[1].role == LayerRole::Plane,
            forall|i: int|
                0 <= i < 2 ==> (#[trigger] r.layers@[i]).copper_thickness == Quantity::spec_mm_nm(
                    35_000,
                ) && r.layers@[i].dielectric_height == Quantity::spec_mm_nm(1_600_000)
                    && r.layers@[i].dielectric_er == 4_500_000 && r.layers@[i].loss_tangent
                    == 20_000,
    {
        let copper_thickness = Quantity::length_nm(35_000);
        let dielectric_height = Quantity::length_nm(1_600_000);
        let mut layers: Vec<Layer> = Vec::new();
        layers.push(
            Layer {
                role: LayerRole::Signal,
                copper_thickness,
                dielectric_height,
                dielectric_er: 4_500_000,
                loss_tangent: 20_000,
            },
        );
        layers.push(
            Layer {
                role: LayerRole::Plane,
                copper_thickness,
                dielectric_height,
                dielectric_er: 4_500_000,
                loss_tangent: 20_000,
            },
        );
        let r = LayerStack { layers };
        assert(r.layers@ =~= standard_layers());
        proof {
            reveal_with_fuel(LayerStack::layers_validity, 3);
        }
        r
    }

    pub open spec fn validity(&self) -> Result<(), DomainError> {
        if self.layers@.len() == 0 {
            Err(DomainError::Inconsistent("board layer stack must have at least one layer"))
        } else {
            self.layers_validity(0)
        }
    }

    /// The first failing layer from position `i` on, checked in stack order.
    pub open spec fn layers_validity(&self, i: nat) -> Result<(), DomainError>
        decreases self.layers@.len() - i,
    {
        if i >= self.layers@.len() {
            Ok(())
        } else {
            let l = self.layers@[i as int];
            if !layer_ok_dims(l) {
                Err(
                    DomainError::Inconsistent(
                        "layer copper thickness and dielectric height must be positive and finite",
                    ),
                )
            } else if l.dielectric_er < PPM_ONE {
                Err(
                    DomainError::Inconsistent(
                        "layer dielectric relative permittivity must be finite and at least 1.0",
                    ),
                )
            } else if l.loss_tangent < 0 {
                Err(DomainError::Inconsistent("layer loss tangent must be finite and non-negative"))
            } else {
                self.layers_validity(i + 1)
            }
        }
    }

    /// At least one layer; every layer has positive copper thickness and dielectric height,
    /// εr ≥ 1 and tan δ ≥ 0.
    pub fn validate(&self) -> (r: Result<(), DomainError>)
        ensures
            r == self.validity(),
    {
        if self.layers.len() == 0 {
            return Err(DomainError::Inconsistent("board layer stack must have at least one layer"));
        }
        let mut i: usize = 0;
        while i < self.layers.len()
            invariant
                i <= self.layers@.len(),
                self.layers@.len() > 0,
                self.layers_validity(0) == self.layers_validity(i as nat),
            decreases self.layers@.len() - i,
        {
            let l = self.layers[i];
            if l.copper_thickness.nano <= 0 || l.dielectric_height.nano <= 0 {
                return Err(
                    DomainError::Inconsistent(
                        "layer copper thickness and dielectric height must be positive and finite",
                    ),
                );
            }
            if l.dielectric_er < PPM_ONE {
                return Err(
                    DomainError::Inconsistent(
                        "layer dielectric relative permittivity must be finite and at least 1.0",
                    ),
                );
            }
            if l.loss_tangent < 0 {
                return Err(
                    DomainError::Inconsistent(
                        "layer loss tangent must be finite and non-negative",
                    ),
                );
            }
            i += 1;
        }
        Ok(())
    }
}

impl Quantity {
    pub open spec fn spec_mm_nm(nm: i128) -> Quantity {
        Quantity { nano: nm, dimension: Dimension::Length }
    }
}

/// The physical board outline: a `width` x `height` rectangle with a layer build-up.
#[derive(Debug)]
pub struct Board {
    pub id: EntityId,
    pub width: Quantity,
    pub height: Quantity,
    pub stack: LayerStack,
}

impl Board {
    /// The number of copper layers in the stack.
    pub fn layers(&self) -> (r: u32)
        ensures
            r == self.stack.layers@.len() as u32,
    {
        self.stack.layers.len() as u32
    }

    pub open spec fn validity(&self) -> Result<(), DomainError> {
        if self.width.nano <= 0 || self.height.nano <= 0 {
            Err(DomainError::Inconsistent("board dimensions must be positive and finite"))
        } else {
            self.stack.validity()
        }
    }

    /// Positive dimensions and a well-formed layer stack.
    pub fn validate(&self) -> (r: Result<(), DomainError>)
        ensures
            r == self.validity(),
    {
        if self.width.nano <= 0 || self.height.nano <= 0 {
            return Err(DomainError::Inconsistent("board dimensions must be positive and finite"));
        }
        self.stack.validate()
    }
}

/// The placement of one component on the board: origin, courtyard extent and side.
#[derive(Debug, Clone, Copy)]
pub struct Placement {
    pub id: EntityId,
    pub component: EntityId,
    pub x: Quantity,
    pub y: Quantity,
    pub width: Quantity,
    pub height: Quantity,
    pub side: BoardSide,
}

impl Placement {
    pub open spec fn validity(&self) -> Result<(), DomainError> {
        if self.width.nano <= 0 || self.height.nano <= 0 {
            Err(DomainError::Inconsistent("placement courtyard must be positive and finite"))
        } else {
            Ok(())
        }
    }

    /// The courtyard has positive extent.
    pub fn validate(&self) -> (r: Result<(), DomainError>)
        ensures
            r == self.validity(),
    {
        if self.width.nano <= 0 || self.height.nano <= 0 {
            return Err(
                DomainError::Inconsistent("placement courtyard must be positive and finite"),
            );
        }
        Ok(())
    }
}

/// A copper realization of one net: a trace of `width` from (`x1`,`y1`) to (`x2`,`y2`).
#[derive(Debug, Clone, Copy)]
pub struct Track {
    pub id: EntityId,
    pub net: EntityId,
    pub layer: BoardSide,
    pub width: Quantity,
    pub x1: Quantity,
    pub y1: Quantity,
    pub x2: Quantity,
    pub y2: Quantity,
}

impl Track {
    pub open spec fn validity(&self) -> Result<(), DomainError> {
        if self.width.nano <= 0 {
            Err(DomainError::Inconsistent("track width must be positive and finite"))
        } else {
            Ok(())
        }
    }

    /// A trace has a positive copper width (integer endpoints are always finite).
    pub fn validate(&self) -> (r: Result<(), DomainError>)
        ensures
            r == self.validity(),
    {
        if self.width.nano <= 0 {
            return Err(DomainError::Inconsistent("track width must be positive and finite"));
        }
        Ok(())
    }
}

// ============================== assumptions ==============================

#[derive(Debug, Clone, Copy, PartialEq, Eq, Structural, Hash)]
pub enum AssumptionCriticality {
    Critical,
    Normal,
}

#[derive(Debug, Clone, Copy, PartialEq, Eq, Structural, Hash)]
pub enum AssumptionStatus {
    Open,
    Discharged,
    Invalidated,
}

#[derive(Debug, Clone, Copy, PartialEq, Eq, Structural, Hash)]
pub enum DischargeResolution {
    GroundedFact,
    EnforcedConstraint,
    AcceptedRisk,
}

/// The record of discharging an [`Assumption`].
#[derive(Debug)]
pub struct Discharge {
    pub resolution: DischargeResolution,
    pub target: EntityId,
    pub decided_by: String,
}

/// A first-class, auditable presumption the reasoning made.
#[derive(Debug)]
pub struct Assumption {
    pub id: EntityId,
    pub statement: String,
    pub rests_on: EntityId,
    pub criticality: AssumptionCriticality,
    pub status: AssumptionStatus,
    /// Set exactly when `status == Discharged`.
    pub discharge: Option<Discharge>,
}

impl Assumption {
    pub open spec fn spec_is_open(&self) -> bool {
        self.status == AssumptionStatus::Open
    }

    /// Still relied upon.
    #[verifier::when_used_as_spec(spec_is_open)]
    pub fn is_open(&self) -> (r: bool)
        ensures
            r == (self.status == AssumptionStatus::Open),
    {
        self.status == AssumptionStatus::Open
    }

    pub open spec fn spec_is_blocking(&self) -> bool {
        self.criticality == AssumptionCriticality::Critical && self.status
            == AssumptionStatus::Open
    }

    /// An assumption blocks release iff it is Critical and still Open.
    #[verifier::when_used_as_spec(spec_is_blocking)]
    pub fn is_blocking(&self) -> (r: bool)
        ensures
            r == (self.criticality == AssumptionCriticality::Critical && self.status
                == AssumptionStatus::Open),
    {
        self.criticality == AssumptionCriticality::Critical && self.status
            == AssumptionStatus::Open
    }

    pub open spec fn validity(&self) -> Result<(), DomainError> {
        if spec_is_blank(self.statement@) {
            Err(DomainError::EmptyStatement)
        } else if self.status == AssumptionStatus::Discharged && self.discharge is None {
            Err(DomainError::Inconsistent("discharged assumption must record a discharge"))
        } else if self.status != AssumptionStatus::Discharged && self.discharge is Some {
            Err(DomainError::Inconsistent("only a discharged assumption may carry a discharge"))
        } else {
            Ok(())
        }
    }

    /// A non-blank statement, and a discharge record present exactly when discharged.
    pub fn validate(&self) -> (r: Result<(), DomainError>)
        ensures
            r == self.validity(),
    {
        if is_blank(self.statement.as_str()) {
            return Err(DomainError::EmptyStatement);
        }
        let present = self.discharge.is_some();
        if self.status == AssumptionStatus::Discharged && !present {
            return Err(DomainError::Inconsistent("discharged assumption must record a discharge"));
        }
        if self.status != AssumptionStatus::Discharged && present {
            return Err(
                DomainError::Inconsistent("only a discharged assumption may carry a discharge"),
            );
        }
        Ok(())
    }
}

// ============================== fidelity ==============================

#[derive(Debug, Clone, Copy, PartialEq, Eq, Structural, Hash)]
pub enum FidelityMethod {
    Assumed,
    FirstOrderFloor,
    Calculated,
    Simulated,
    Measured,
}

/// An advisory trust-tag on a derived fact, with a confidence in [0, 1] (parts per million).
#[derive(Debug)]
pub struct ModelFidelity {
    pub concern: String,
    pub method: FidelityMethod,
    pub confidence: Ppm,
    pub scope: String,
}

impl ModelFidelity {
    pub open spec fn validity(&self) -> Result<(), DomainError> {
        if !(0 <= self.confidence <= PPM_ONE) {
            Err(DomainError::Inconsistent("fidelity confidence must be within [0, 1]"))
        } else {
            Ok(())
        }
    }

    /// `confidence` lies in the closed interval [0, 1].
    pub fn validate(&self) -> (r: Result<(), DomainError>)
        ensures
            r == self.validity(),
    {
        if !(0 <= self.confidence && self.confidence <= PPM_ONE) {
            return Err(DomainError::Inconsistent("fidelity confidence must be within [0, 1]"));
        }
        Ok(())
    }
}

// ============================== risk ==============================

#[derive(Debug, Clone, Copy, PartialEq, Eq, Structural, Hash)]
pub enum RiskLikelihood {
    Low,
    Medium,
    High,
}

#[derive(Debug, Clone, Copy, PartialEq, Eq, Structural, Hash)]
pub enum RiskSeverity {
    Low,
    Medium,
    High,
    Critical,
}

#[derive(Debug, Clone, Copy, PartialEq, Eq, Structural, Hash)]
pub enum RiskStatus {
    Open,
    Mitigated,
    Accepted,
}

/// A first-class, auditable risk with a named accountable owner.
#[derive(Debug)]
pub struct Risk {
    pub id: EntityId,
    pub statement: String,
    pub likelihood: RiskLikelihood,
    pub severity: RiskSeverity,
    pub mitigation: String,
    pub residual: RiskSeverity,
    pub owner: String,
    pub status: RiskStatus,
}

impl Risk {
    pub open spec fn validity(&self) -> Result<(), DomainError> {
        if spec_is_blank(self.statement@) {
            Err(DomainError::EmptyStatement)
        } else if spec_is_blank(self.owner@) {
            Err(DomainError::EmptyField("risk owner"))
        } else {
            Ok(())
        }
    }

    /// A non-blank statement and a non-blank owner; status-agnostic.
    pub fn validate(&self) -> (r: Result<(), DomainError>)
        ensures
            r == self.validity(),
    {
        if is_blank(self.statement.as_str()) {
            return Err(DomainError::EmptyStatement);
        }
        if is_blank(self.owner.as_str()) {
            return Err(DomainError::EmptyField("risk owner"));
        }
        Ok(())
    }
}

// ============================== objectives and tradeoffs ==============================

/// One option weighed in a [`Tradeoff`], with its raw scores (parts per million).
#[derive(Debug)]
pub struct Alternative {
    pub label: String,
    pub description: String,
    pub scores: Vec<Ppm>,
    pub rejected: bool,
}

/// A weighted design goal rooted in the entity it derives from.
#[derive(Debug)]
pub struct Objective {
    pub id: EntityId,
    pub statement: String,
    pub weight: Ppm,
    pub source: EntityId,
}

impl Objective {
    pub open spec fn validity(&self) -> Result<(), DomainError> {
        if spec_is_blank(self.statement@) {
            Err(DomainError::EmptyStatement)
        } else {
            Ok(())
        }
    }

    /// A non-blank statement.
    pub fn validate(&self) -> (r: Result<(), DomainError>)
        ensures
            r == self.validity(),
    {
        if is_blank(self.statement.as_str()) {
            return Err(DomainError::EmptyStatement);
        }
        Ok(())
    }
}

/// A recorded decision among weighed alternatives, preserving the rejected space.
#[derive(Debug)]
pub struct Tradeoff {
    pub id: EntityId,
    pub question: String,
    pub alternatives: Vec<Alternative>,
    pub criteria: Vec<String>,
    pub chosen: usize,
    pub rationale: String,
    pub decided_by: String,
}

impl Tradeoff {
    pub open spec fn validity(&self) -> Result<(), DomainError> {
        let alts = self.alternatives@;
        if alts.len() < 2 {
            Err(DomainError::Inconsistent("a tradeoff must weigh at least two alternatives"))
        } else if self.chosen >= alts.len() {
            Err(DomainError::Inconsistent("tradeoff chosen index is out of range"))
        } else if alts[self.chosen as int].rejected {
            Err(DomainError::Inconsistent("the chosen alternative may not be marked rejected"))
        } else if !(exists|i: int| 0 <= i < alts.len() && (#[trigger] alts[i]).rejected) {
            Err(
                DomainError::Inconsistent(
                    "a tradeoff must preserve at least one rejected alternative",
                ),
            )
        } else {
            Ok(())
        }
    }

    /// At least two alternatives; `chosen` in range and not rejected; at least one rejected
    /// alternative preserved.
    pub fn validate(&self) -> (r: Result<(), DomainError>)
        ensures
            r == self.validity(),
    {
        if self.alternatives.len() < 2 {
            return Err(
                DomainError::Inconsistent("a tradeoff must weigh at least two alternatives"),
            );
        }
        if self.chosen >= self.alternatives.len() {
            return Err(DomainError::Inconsistent("tradeoff chosen index is out of range"));
        }
        if self.alternatives[self.chosen].rejected {
            return Err(
                DomainError::Inconsistent("the chosen alternative may not be marked rejected"),
            );
        }
        let mut i: usize = 0;
        while i < self.alternatives.len()
            invariant
                i <= self.alternatives@.len(),
                self.alternatives@.len() >= 2,
                self.chosen < self.alternatives@.len(),
                !self.alternatives@[self.chosen as int].rejected,
                forall|j: int| 0 <= j < i ==> !(#[trigger] self.alternatives@[j]).rejected,
            decreases self.alternatives@.len() - i,
        {
            if self.alternatives[i].rejected {
                assert(self.alternatives@[i as int].rejected);
                return Ok(());
            }
            i += 1;
        }
        Err(DomainError::Inconsistent("a tradeoff must preserve at least one rejected alternative"))
    }
}

// ============================== power and clock domains ==============================

/// A named power rail: nets held at `voltage`, supplied by one source component.
#[derive(Debug)]
pub struct PowerDomain {
    pub id: EntityId,
    pub name: String,
    pub voltage: Quantity,
    pub source_component: EntityId,
    pub max_current: Quantity,
    pub nets: Vec<EntityId>,
}

impl PowerDomain {
    pub open spec fn validity(&self) -> Result<(), DomainError> {
        if spec_is_blank(self.name@) {
            Err(DomainError::EmptyField("power domain name"))
        } else if self.voltage.nano <= 0 {
            Err(DomainError::Inconsistent("power domain voltage must be positive and finite"))
        } else if self.max_current.nano <= 0 {
            Err(DomainError::Inconsistent("power domain max current must be positive and finite"))
        } else if self.nets@.len() == 0 {
            Err(DomainError::Inconsistent("power domain must power at least one net"))
        } else {
            Ok(())
        }
    }

    /// A non-blank name, positive voltage and max current, and at least one net.
    pub fn validate(&self) -> (r: Result<(), DomainError>)
        ensures
            r == self.validity(),
    {
        if is_blank(self.name.as_str()) {
            return Err(DomainError::EmptyField("power domain name"));
        }
        if self.voltage.nano <= 0 {
            return Err(
                DomainError::Inconsistent("power domain voltage must be positive and finite"),
            );
        }
        if self.max_current.nano <= 0 {
            return Err(
                DomainError::Inconsistent("power domain max current must be positive and finite"),
            );
        }
        if self.nets.len() == 0 {
            return Err(DomainError::Inconsistent("power domain must power at least one net"));
        }
        Ok(())
    }
}

/// A named clock region: one source component driving `frequency` onto synchronous nets.
#[derive(Debug)]
pub struct ClockDomain {
    pub id: EntityId,
    pub name: String,
    pub frequency: Quantity,
    pub source_component: EntityId,
    pub members: Vec<EntityId>,
}

impl ClockDomain {
    pub open spec fn validity(&self) -> Result<(), DomainError> {
        if spec_is_blank(self.name@) {
            Err(DomainError::EmptyField("clock domain name"))
        } else if self.frequency.nano <= 0 {
            Err(DomainError::Inconsistent("clock domain frequency must be positive and finite"))
        } else if self.members@.len() == 0 {
            Err(DomainError::Inconsistent("clock domain must drive at least one net"))
        } else {
            Ok(())
        }
    }

    /// A non-blank name, a positive frequency and at least one member net.
    pub fn validate(&self) -> (r: Result<(), DomainError>)
        ensures
            r == self.validity(),
    {
        if is_blank(self.name.as_str()) {
            return Err(DomainError::EmptyField("clock domain name"));
        }
        if self.frequency.nano <= 0 {
            return Err(
                DomainError::Inconsistent("clock domain frequency must be positive and finite"),
            );
        }
        if self.members.len() == 0 {
            return Err(DomainError::Inconsistent("clock domain must drive at least one net"));
        }
        Ok(())
    }
}

} // verus!
