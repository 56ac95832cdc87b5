use eak::domain::{
    Alternative, Assumption, AssumptionCriticality, AssumptionStatus, Board, BoardSide,
    ClockDomain, Component, ComponentClass, ComponentOrigin, Constraint, ConstraintKind,
    ConstraintStatus, Dimension, Discharge, DischargeResolution, DomainError, EntityId,
    FidelityMethod, FunctionalBlock, Layer, LayerRole, LayerStack, ModelFidelity, Net, NetClass,
    NetOrigin, Objective, Part, PartLifecycle, Placement, PowerDomain, Priority, Quantity,
    Requirement, RequirementCategory, RequirementStatus, Risk, RiskLikelihood, RiskSeverity,
    RiskStatus, Track, Tradeoff, Violation, ViolationSeverity, ViolationStatus,
};

fn q(nano: i128, dimension: Dimension) -> Quantity {
    Quantity { nano, dimension }
}

/// Millimetres given in micrometres, held in nanometres.
fn mm_um(um: i128) -> Quantity {
    q(um * 1_000, Dimension::Length)
}

fn req(status: RequirementStatus, crit: &str, source: EntityId) -> Requirement {
    Requirement {
        id: EntityId(1),
        statement: "Operating power shall not exceed 5 W".into(),
        category: RequirementCategory::Electrical,
        priority: Priority::High,
        acceptance_criterion: crit.into(),
        status,
        source,
        targets: vec![],
    }
}

#[test]
fn accepted_requirement_needs_criterion() {
    let r = req(RequirementStatus::Accepted, "", EntityId(2));
    assert_eq!(r.validate(), Err(DomainError::AcceptedRequirementNeedsCriterion));
}

#[test]
fn accepted_requirement_needs_source() {
    let r = req(RequirementStatus::Accepted, "measured power < 5 W", EntityId::null());
    assert_eq!(r.validate(), Err(DomainError::AcceptedRequirementNeedsSource));
}

#[test]
fn well_formed_accepted_requirement_validates() {
    let r = req(RequirementStatus::Accepted, "measured power < 5 W", EntityId(2));
    assert!(r.validate().is_ok());
    assert!(r.is_testable());
}

#[test]
fn proposed_requirement_may_lack_criterion() {
    let r = req(RequirementStatus::Proposed, "", EntityId(2));
    assert!(r.validate().is_ok());
}

#[test]
fn entity_id_null_is_reserved() {
    assert!(EntityId::null().is_null());
    assert!(!EntityId(1).is_null());
}

#[test]
fn constraint_rejects_empty_statement() {
    let c = Constraint {
        id: EntityId(1),
        statement: "   ".into(),
        subject_requirement: EntityId(2),
        kind: ConstraintKind::Max,
        bound: q(5_000_000_000, Dimension::Power),
        source: EntityId(2),
        status: ConstraintStatus::Active,
    };
    assert_eq!(c.validate(), Err(DomainError::EmptyStatement));
}

#[test]
fn well_formed_constraint_validates_and_is_active() {
    let c = Constraint {
        id: EntityId(1),
        statement: "power <= 5 W".into(),
        subject_requirement: EntityId(2),
        kind: ConstraintKind::Max,
        bound: q(5_000_000_000, Dimension::Power),
        source: EntityId(2),
        status: ConstraintStatus::Active,
    };
    assert!(c.validate().is_ok());
    assert!(c.is_active());
}

#[test]
fn only_open_error_violations_block() {
    let mut v = Violation {
        id: EntityId(1),
        rule: "constraint-consistency".into(),
        severity: ViolationSeverity::Error,
        subjects: vec![EntityId(2), EntityId(3)],
        message: "contradictory bounds".into(),
        status: ViolationStatus::Open,
    };
    assert!(v.is_blocking());
    v.status = ViolationStatus::Waived;
    assert!(!v.is_blocking());
    v.status = ViolationStatus::Open;
    v.severity = ViolationSeverity::Warning;
    assert!(!v.is_blocking());
}

#[test]
fn functional_block_rejects_blank_name() {
    let b = FunctionalBlock {
        id: EntityId(1),
        name: "   ".into(),
        function: "5 V rail".into(),
        requirements: vec![EntityId(2)],
    };
    assert_eq!(b.validate(), Err(DomainError::EmptyField("functional block name")));
}

#[test]
fn well_formed_functional_block_validates() {
    let b = FunctionalBlock {
        id: EntityId(1),
        name: "Power Supply".into(),
        function: "step 12 V down to 5 V".into(),
        requirements: vec![EntityId(2)],
    };
    assert!(b.validate().is_ok());
}

#[test]
fn component_rejects_blank_refdes() {
    let c = Component {
        id: EntityId(1),
        refdes: "  ".into(),
        class: ComponentClass::Regulator,
        value: None,
        from_block: EntityId(2),
        origin: ComponentOrigin::Synthesized,
    };
    assert_eq!(c.validate(), Err(DomainError::EmptyField("component reference designator")));
}

#[test]
fn well_formed_component_validates() {
    let c = Component {
        id: EntityId(1),
        refdes: "U1".into(),
        class: ComponentClass::Resistor,
        value: Some(q(10_000_000_000_000, Dimension::Resistance)),
        from_block: EntityId(2),
        origin: ComponentOrigin::Synthesized,
    };
    assert!(c.validate().is_ok());
}

#[test]
fn component_origin_defaults_to_synthesized_so_old_logs_replay_unchanged() {
    assert_eq!(ComponentOrigin::default(), ComponentOrigin::Synthesized);
    let imported = Component {
        id: EntityId(1),
        refdes: "R1".into(),
        class: ComponentClass::Resistor,
        value: None,
        from_block: EntityId::null(),
        origin: ComponentOrigin::Imported,
    };
    assert!(imported.validate().is_ok());
}

fn net(name: &str, current: Option<Quantity>, impedance: Option<Quantity>) -> Net {
    Net {
        id: EntityId(1),
        name: name.into(),
        class: NetClass::Power,
        members: vec![EntityId(2), EntityId(3)],
        current,
        impedance_target: impedance,
        origin: NetOrigin::Logical,
    }
}

#[test]
fn net_rejects_blank_name() {
    assert_eq!(net("", None, None).validate(), Err(DomainError::EmptyField("net name")));
}

#[test]
fn well_formed_net_validates() {
    assert!(net("+5V", None, None).validate().is_ok());
}

#[test]
fn net_accepts_a_finite_positive_current() {
    assert!(net("+5V", Some(q(2_000_000_000, Dimension::Current)), None).validate().is_ok());
}

#[test]
fn net_rejects_a_dimensionally_wrong_current() {
    let n = net("+5V", Some(q(2_000_000, Dimension::Length)), None);
    assert!(matches!(n.validate(), Err(DomainError::Inconsistent(_))));
}

#[test]
fn net_rejects_a_non_positive_current() {
    let n = net("GND", Some(q(0, Dimension::Current)), None);
    assert!(matches!(n.validate(), Err(DomainError::Inconsistent(_))));
}

#[test]
fn net_accepts_a_finite_positive_impedance_target() {
    let n = net("USB_DP", None, Some(q(50_000_000_000, Dimension::Resistance)));
    assert!(n.validate().is_ok());
}

#[test]
fn net_rejects_a_dimensionally_wrong_impedance_target() {
    let n = net("USB_DP", None, Some(q(50_000_000, Dimension::Length)));
    assert!(matches!(n.validate(), Err(DomainError::Inconsistent(_))));
}

#[test]
fn part_rejects_blank_mpn() {
    let p = Part {
        id: EntityId(1),
        mpn: "   ".into(),
        manufacturer: "Texas Instruments".into(),
        lifecycle: PartLifecycle::Active,
        datasheet: "https://ti.com/lm1117".into(),
    };
    assert_eq!(p.validate(), Err(DomainError::EmptyField("manufacturer part number")));
}

#[test]
fn well_formed_part_validates() {
    let p = Part {
        id: EntityId(1),
        mpn: "LM1117-3.3".into(),
        manufacturer: "Texas Instruments".into(),
        lifecycle: PartLifecycle::Eol,
        datasheet: "https://ti.com/lm1117".into(),
    };
    assert!(p.validate().is_ok());
}

#[test]
fn board_rejects_non_positive_dimensions() {
    let zero_width = Board {
        id: EntityId(1),
        width: mm_um(0),
        height: mm_um(50_000),
        stack: LayerStack::standard_two_layer(),
    };
    assert_eq!(
        zero_width.validate(),
        Err(DomainError::Inconsistent("board dimensions must be positive and finite"))
    );
    let negative_height = Board {
        id: EntityId(1),
        width: mm_um(50_000),
        height: mm_um(-1_000),
        stack: LayerStack::standard_two_layer(),
    };
    assert_eq!(
        negative_height.validate(),
        Err(DomainError::Inconsistent("board dimensions must be positive and finite"))
    );
}

#[test]
fn board_rejects_empty_stack() {
    let b = Board {
        id: EntityId(1),
        width: mm_um(50_000),
        height: mm_um(50_000),
        stack: LayerStack { layers: vec![] },
    };
    assert_eq!(
        b.validate(),
        Err(DomainError::Inconsistent("board layer stack must have at least one layer"))
    );
}

#[test]
fn well_formed_board_validates() {
    let b = Board {
        id: EntityId(1),
        width: mm_um(50_000),
        height: mm_um(40_000),
        stack: LayerStack::standard_two_layer(),
    };
    assert!(b.validate().is_ok());
    assert_eq!(b.layers(), 2);
}

#[test]
fn standard_two_layer_stack_validates() {
    let stack = LayerStack::standard_two_layer();
    assert!(stack.validate().is_ok());
    assert_eq!(stack.layers.len(), 2);
    assert_eq!(stack.layers[0].role, LayerRole::Signal);
    assert_eq!(stack.layers[1].role, LayerRole::Plane);
}

#[test]
fn layer_stack_rejects_empty() {
    let stack = LayerStack { layers: vec![] };
    assert_eq!(
        stack.validate(),
        Err(DomainError::Inconsistent("board layer stack must have at least one layer"))
    );
}

fn good_layer() -> Layer {
    Layer {
        role: LayerRole::Signal,
        copper_thickness: mm_um(35),
        dielectric_height: mm_um(1_600),
        dielectric_er: 4_500_000,
        loss_tangent: 20_000,
    }
}

#[test]
fn layer_stack_rejects_non_positive_copper_thickness() {
    let stack = LayerStack { layers: vec![Layer { copper_thickness: mm_um(0), ..good_layer() }] };
    assert_eq!(
        stack.validate(),
        Err(DomainError::Inconsistent(
            "layer copper thickness and dielectric height must be positive and finite"
        ))
    );
}

#[test]
fn layer_stack_rejects_non_positive_dielectric_height() {
    let stack =
        LayerStack { layers: vec![Layer { dielectric_height: mm_um(-1_000), ..good_layer() }] };
    assert_eq!(
        stack.validate(),
        Err(DomainError::Inconsistent(
            "layer copper thickness and dielectric height must be positive and finite"
        ))
    );
}

#[test]
fn layer_stack_rejects_permittivity_below_one() {
    let stack = LayerStack { layers: vec![Layer { dielectric_er: 500_000, ..good_layer() }] };
    assert_eq!(
        stack.validate(),
        Err(DomainError::Inconsistent(
            "layer dielectric relative permittivity must be finite and at least 1.0"
        ))
    );
}

#[test]
fn layer_stack_rejects_negative_loss_tangent() {
    let stack = LayerStack { layers: vec![Layer { loss_tangent: -10_000, ..good_layer() }] };
    assert_eq!(
        stack.validate(),
        Err(DomainError::Inconsistent("layer loss tangent must be finite and non-negative"))
    );
}

#[test]
fn placement_rejects_non_positive_courtyard() {
    let zero_width = Placement {
        id: EntityId(1),
        component: EntityId(2),
        x: mm_um(1_000),
        y: mm_um(1_000),
        width: mm_um(0),
        height: mm_um(5_000),
        side: BoardSide::Top,
    };
    assert_eq!(
        zero_width.validate(),
        Err(DomainError::Inconsistent("placement courtyard must be positive and finite"))
    );
    let negative_height = Placement {
        id: EntityId(1),
        component: EntityId(2),
        x: mm_um(1_000),
        y: mm_um(1_000),
        width: mm_um(5_000),
        height: mm_um(-2_000),
        side: BoardSide::Bottom,
    };
    assert_eq!(
        negative_height.validate(),
        Err(DomainError::Inconsistent("placement courtyard must be positive and finite"))
    );
}

#[test]
fn well_formed_placement_validates() {
    let p = Placement {
        id: EntityId(1),
        component: EntityId(2),
        x: mm_um(10_000),
        y: mm_um(10_000),
        width: mm_um(5_000),
        height: mm_um(5_000),
        side: BoardSide::Top,
    };
    assert!(p.validate().is_ok());
}

fn track(width_um: i128) -> Track {
    Track {
        id: EntityId(1),
        net: EntityId(2),
        layer: BoardSide::Top,
        width: mm_um(width_um),
        x1: mm_um(1_000),
        y1: mm_um(1_000),
        x2: mm_um(9_000),
        y2: mm_um(1_000),
    }
}

#[test]
fn track_rejects_non_positive_width() {
    assert_eq!(
        track(0).validate(),
        Err(DomainError::Inconsistent("track width must be positive and finite"))
    );
    assert_eq!(
        track(-200).validate(),
        Err(DomainError::Inconsistent("track width must be positive and finite"))
    );
}

#[test]
fn well_formed_track_validates() {
    assert!(track(250).validate().is_ok());
}

fn open_assumption(statement: &str, crit: AssumptionCriticality) -> Assumption {
    Assumption {
        id: EntityId(1),
        statement: statement.into(),
        rests_on: EntityId(2),
        criticality: crit,
        status: AssumptionStatus::Open,
        discharge: None,
    }
}

#[test]
fn assumption_rejects_empty_statement() {
    let a = open_assumption("   ", AssumptionCriticality::Critical);
    assert_eq!(a.validate(), Err(DomainError::EmptyStatement));
}

#[test]
fn well_formed_open_assumption_validates() {
    let a = open_assumption("the load draws at most 500 mA", AssumptionCriticality::Normal);
    assert!(a.validate().is_ok());
}

#[test]
fn discharged_assumption_without_a_discharge_is_inconsistent() {
    let mut a = open_assumption("the rail is 3.3 V", AssumptionCriticality::Critical);
    a.status = AssumptionStatus::Discharged;
    a.discharge = None;
    assert_eq!(
        a.validate(),
        Err(DomainError::Inconsistent("discharged assumption must record a discharge"))
    );
}

#[test]
fn non_discharged_assumption_carrying_a_discharge_is_inconsistent() {
    let mut a = open_assumption("the rail is 3.3 V", AssumptionCriticality::Critical);
    a.status = AssumptionStatus::Open;
    a.discharge = Some(Discharge {
        resolution: DischargeResolution::GroundedFact,
        target: EntityId(3),
        decided_by: "engineer".into(),
    });
    assert_eq!(
        a.validate(),
        Err(DomainError::Inconsistent("only a discharged assumption may carry a discharge"))
    );
}

#[test]
fn well_formed_discharged_assumption_validates() {
    let a = Assumption {
        id: EntityId(1),
        statement: "the rail is 3.3 V".into(),
        rests_on: EntityId(2),
        criticality: AssumptionCriticality::Critical,
        status: AssumptionStatus::Discharged,
        discharge: Some(Discharge {
            resolution: DischargeResolution::EnforcedConstraint,
            target: EntityId(3),
            decided_by: "engineer".into(),
        }),
    };
    assert!(a.validate().is_ok());
}

#[test]
fn only_open_critical_assumptions_block() {
    let mut a = open_assumption("critical presumption", AssumptionCriticality::Critical);
    assert!(a.is_open());
    assert!(a.is_blocking());
    a.status = AssumptionStatus::Discharged;
    a.discharge = Some(Discharge {
        resolution: DischargeResolution::AcceptedRisk,
        target: EntityId(3),
        decided_by: "engineer".into(),
    });
    assert!(!a.is_open());
    assert!(!a.is_blocking());
    a.status = AssumptionStatus::Invalidated;
    a.discharge = None;
    assert!(!a.is_blocking());
    let normal = open_assumption("normal presumption", AssumptionCriticality::Normal);
    assert!(normal.is_open());
    assert!(!normal.is_blocking());
}

fn fidelity(concern: &str, method: FidelityMethod, confidence: i64) -> ModelFidelity {
    ModelFidelity {
        concern: concern.into(),
        method,
        confidence,
        scope: "the 3.3 V rail".into(),
    }
}

#[test]
fn well_formed_fidelity_tag_validates() {
    let f = fidelity("worst-case junction temperature", FidelityMethod::FirstOrderFloor, 600_000);
    assert!(f.validate().is_ok());
}

#[test]
fn fidelity_confidence_zero_and_one_are_valid_boundaries() {
    assert!(fidelity("assumed", FidelityMethod::Assumed, 0).validate().is_ok());
    assert!(fidelity("measured", FidelityMethod::Measured, 1_000_000).validate().is_ok());
}

#[test]
fn fidelity_confidence_above_one_is_inconsistent() {
    let f = fidelity("over-confident", FidelityMethod::Calculated, 1_000_001);
    assert!(matches!(f.validate(), Err(DomainError::Inconsistent(_))));
}

#[test]
fn fidelity_confidence_below_zero_is_inconsistent() {
    let f = fidelity("negative", FidelityMethod::Simulated, -1);
    assert!(matches!(f.validate(), Err(DomainError::Inconsistent(_))));
}

fn open_risk(statement: &str, owner: &str, residual: RiskSeverity) -> Risk {
    Risk {
        id: EntityId(1),
        statement: statement.into(),
        likelihood: RiskLikelihood::Medium,
        severity: RiskSeverity::High,
        mitigation: "add a TVS diode on the USB-C VBUS".into(),
        residual,
        owner: owner.into(),
        status: RiskStatus::Open,
    }
}

#[test]
fn risk_rejects_empty_statement() {
    let r = open_risk("   ", "hardware lead", RiskSeverity::Low);
    assert_eq!(r.validate(), Err(DomainError::EmptyStatement));
}

#[test]
fn risk_rejects_empty_owner() {
    let r = open_risk("ESD on the exposed connector", "  ", RiskSeverity::Medium);
    assert_eq!(r.validate(), Err(DomainError::EmptyField("risk owner")));
}

#[test]
fn well_formed_open_risk_validates() {
    let r = open_risk(
        "an ESD strike on the USB-C connector could latch up the MCU",
        "hardware lead",
        RiskSeverity::Low,
    );
    assert!(r.validate().is_ok());
}

#[test]
fn risk_validate_is_status_agnostic() {
    let mut r =
        open_risk("thermal runaway under sustained load", "thermal owner", RiskSeverity::Critical);
    r.status = RiskStatus::Mitigated;
    assert!(r.validate().is_ok());
    r.status = RiskStatus::Accepted;
    assert!(r.validate().is_ok());
}

fn alt(label: &str, description: &str, scores: Vec<i64>, rejected: bool) -> Alternative {
    Alternative { label: label.into(), description: description.into(), scores, rejected }
}

fn well_formed_tradeoff() -> Tradeoff {
    Tradeoff {
        id: EntityId(20),
        question: "Which regulator topology for the 3.3 V rail?".into(),
        alternatives: vec![
            alt("buck", "switching buck converter", vec![900_000, 600_000], false),
            alt("ldo", "linear low-dropout regulator", vec![400_000, 900_000], true),
            alt("charge-pump", "switched-capacitor charge pump", vec![300_000, 500_000], true),
        ],
        criteria: vec!["efficiency".into(), "simplicity".into()],
        chosen: 0,
        rationale: "efficiency dominates at this load; the LDO's droop is unacceptable".into(),
        decided_by: "hardware lead".into(),
    }
}

#[test]
fn well_formed_objective_validates() {
    let o = Objective {
        id: EntityId(19),
        statement: "minimize board area".into(),
        weight: 700_000,
        source: EntityId(3),
    };
    assert!(o.validate().is_ok());
}

#[test]
fn objective_rejects_empty_statement() {
    let o = Objective { id: EntityId(19), statement: "   ".into(), weight: 700_000, source: EntityId(3) };
    assert_eq!(o.validate(), Err(DomainError::EmptyStatement));
}

#[test]
fn well_formed_tradeoff_validates() {
    assert!(well_formed_tradeoff().validate().is_ok());
}

#[test]
fn tradeoff_rejects_fewer_than_two_alternatives() {
    let mut t = well_formed_tradeoff();
    t.alternatives = vec![alt("buck", "the only option", vec![900_000], false)];
    t.chosen = 0;
    assert!(matches!(t.validate(), Err(DomainError::Inconsistent(_))));
}

#[test]
fn tradeoff_rejects_chosen_index_out_of_range() {
    let mut t = well_formed_tradeoff();
    t.chosen = 3;
    assert!(matches!(t.validate(), Err(DomainError::Inconsistent(_))));
}

#[test]
fn tradeoff_rejects_a_chosen_alternative_that_is_marked_rejected() {
    let mut t = well_formed_tradeoff();
    t.chosen = 1;
    assert!(matches!(t.validate(), Err(DomainError::Inconsistent(_))));
}

#[test]
fn tradeoff_rejects_when_no_rejected_alternative_is_preserved() {
    let mut t = well_formed_tradeoff();
    for a in &mut t.alternatives {
        a.rejected = false;
    }
    t.chosen = 0;
    assert!(matches!(t.validate(), Err(DomainError::Inconsistent(_))));
}

fn well_formed_power_domain() -> PowerDomain {
    PowerDomain {
        id: EntityId(30),
        name: "3V3".into(),
        voltage: q(3_300_000_000, Dimension::Voltage),
        source_component: EntityId(4),
        max_current: q(1_000_000_000, Dimension::Current),
        nets: vec![EntityId(31), EntityId(32)],
    }
}

#[test]
fn power_domain_rejects_blank_name() {
    let mut d = well_formed_power_domain();
    d.name = "  ".into();
    assert_eq!(d.validate(), Err(DomainError::EmptyField("power domain name")));
}

#[test]
fn power_domain_rejects_non_positive_voltage() {
    let mut d = well_formed_power_domain();
    d.voltage = q(0, Dimension::Voltage);
    assert!(matches!(d.validate(), Err(DomainError::Inconsistent(_))));
}

#[test]
fn power_domain_rejects_non_positive_max_current() {
    let mut d = well_formed_power_domain();
    d.max_current = q(-500_000_000, Dimension::Current);
    assert!(matches!(d.validate(), Err(DomainError::Inconsistent(_))));
}

#[test]
fn power_domain_rejects_empty_nets() {
    let mut d = well_formed_power_domain();
    d.nets = vec![];
    assert!(matches!(d.validate(), Err(DomainError::Inconsistent(_))));
}

#[test]
fn well_formed_power_domain_validates_even_if_overloaded() {
    assert!(well_formed_power_domain().validate().is_ok());
}

fn well_formed_clock_domain() -> ClockDomain {
    ClockDomain {
        id: EntityId(40),
        name: "SYS".into(),
        frequency: q(48_000_000_000_000_000, Dimension::Frequency),
        source_component: EntityId(4),
        members: vec![EntityId(41), EntityId(42)],
    }
}

#[test]
fn clock_domain_rejects_blank_name() {
    let mut d = well_formed_clock_domain();
    d.name = "  ".into();
    assert_eq!(d.validate(), Err(DomainError::EmptyField("clock domain name")));
}

#[test]
fn clock_domain_rejects_non_positive_frequency() {
    let mut d = well_formed_clock_domain();
    d.frequency = q(0, Dimension::Frequency);
    assert!(matches!(d.validate(), Err(DomainError::Inconsistent(_))));
}

#[test]
fn clock_domain_rejects_empty_members() {
    let mut d = well_formed_clock_domain();
    d.members = vec![];
    assert!(matches!(d.validate(), Err(DomainError::Inconsistent(_))));
}

#[test]
fn well_formed_clock_domain_validates() {
    assert!(well_formed_clock_domain().validate().is_ok());
}

#[test]
fn entity_ids_render_as_full_and_short_hex() {
    let id = EntityId(0x1234_5678_9abc_def0);
    assert_eq!(id.to_hex(), "0000000000000000123456789abcdef0");
    assert_eq!(id.short(), "9abcdef0");
}

#[test]
fn domain_errors_read_as_their_messages() {
    assert_eq!(DomainError::EmptyStatement.message(), "requirement statement is empty");
    assert_eq!(DomainError::EmptyField("net name").message(), "net name must not be empty");
    assert_eq!(
        DomainError::AcceptedRequirementNeedsSource.message(),
        "accepted requirement lacks a source"
    );
}

#[test]
fn an_id_reads_back_from_its_hex_form_and_its_short_form_is_the_tail() {
    let id = EntityId(0x0123_4567_89ab_cdef_fedc_ba98_7654_3210);
    let hex = id.to_hex();
    assert_eq!(hex, "0123456789abcdeffedcba9876543210");
    assert_eq!(u128::from_str_radix(&hex, 16).unwrap(), id.0);
    assert_eq!(id.short(), &hex[24..]);
    assert_eq!(EntityId(7).to_hex().len(), 32);
}
