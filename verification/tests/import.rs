use eak::domain::{BoardSide, ComponentClass, ComponentOrigin, EntityId, NetOrigin, Quantity};
use eak::driver::{import_design, CliError};
use eak::ports::Event;

const WITH_FOOTPRINTS: &str = r#"
    (kicad_pcb
      (net 0 "")
      (net 1 "GND")
      (footprint "Resistor_SMD:R_0805" (layer "F.Cu") (at 20 30 90)
        (fp_text reference "R1" (at 0 -2) (layer "F.SilkS"))
        (fp_rect (start -1 -0.7) (end 1 0.7) (layer "F.CrtYd") (width 0.05))
        (pad "1" smd roundrect (at -0.9 0) (size 1 1.2) (layers "F.Cu"))
        (pad "2" smd roundrect (at 0.9 0) (size 1 1.2) (layers "F.Cu"))
      )
      (footprint "Package_SO:SOIC-8" (layer "B.Cu") (at 50 40)
        (fp_text reference "U1" (at 0 -3) (layer "B.SilkS"))
        (pad "1" smd rect (at -2 -1.9) (size 0.6 1.5) (layers "B.Cu"))
        (pad "2" smd rect (at -2 -0.6) (size 0.6 1.5) (layers "B.Cu"))
        (pad "3" smd rect (at -2 0.6) (size 0.6 1.5) (layers "B.Cu"))
      )
      (footprint "Connector:Conn_01x02" (layer "F.Cu") (at 5 5)
        (fp_text reference "J1" (at 0 -2) (layer "F.SilkS"))
        (pad "1" thru_hole circle (at 0 0) (size 1.7 1.7) (layers "*.Cu"))
        (pad "2" thru_hole circle (at 2.54 0) (size 1.7 1.7) (layers "*.Cu"))
      )
    )
"#;

/// The quantity equals `thousandths` thousandths of a millimetre, exactly.
fn near(q: &Quantity, thousandths: i128) -> bool {
    q.nano == thousandths * 1_000
}

#[test]
fn imported_footprints_land_as_components_and_placements_through_the_real_seam() {
    let core = import_design(WITH_FOOTPRINTS).expect("footprint import should succeed");

    assert_eq!(core.state.components.len(), 3, "three footprints realized");
    assert_eq!(core.state.placements.len(), 3, "three placements committed");
    assert_eq!(core.state.pins.len(), 7, "every pad became a pin");
    assert!(core
        .state
        .components
        .iter()
        .all(|c| c.origin == ComponentOrigin::Imported && c.from_block.is_null()));
    assert!(core.state.functional_blocks.is_empty());
    assert!(core.state.requirements.is_empty());
    assert!(core.state.intent.is_none());

    let comp_id = |refdes: &str| -> EntityId {
        core.state.components.iter().find(|c| c.refdes == refdes).unwrap().id
    };
    let placement = |refdes: &str| {
        let id = comp_id(refdes);
        core.state.placements.iter().find(|p| p.component == id).unwrap()
    };
    let r1 = placement("R1");
    assert_eq!(r1.side, BoardSide::Top);
    assert!(near(&r1.x, 20_000) && near(&r1.y, 30_000));
    assert!(near(&r1.width, 2_000) && near(&r1.height, 1_400), "explicit courtyard honoured");
    let u1 = placement("U1");
    assert_eq!(u1.side, BoardSide::Bottom);
    assert!(near(&u1.x, 50_000) && near(&u1.y, 40_000));
    assert_eq!(
        core.state.components.iter().find(|c| c.refdes == "J1").unwrap().class,
        ComponentClass::Connector
    );

    let records = core.log();
    let count = |pred: fn(&Event) -> bool| records.iter().filter(|r| pred(&r.event)).count();
    assert_eq!(count(|e| matches!(e, Event::ComponentCommitted { .. })), 3);
    assert_eq!(count(|e| matches!(e, Event::PlacementCommitted { .. })), 3);
    assert_eq!(count(|e| matches!(e, Event::PinCommitted { .. })), 7);
    assert_eq!(count(|e| matches!(e, Event::FunctionalBlockCommitted { .. })), 0);
    assert_eq!(count(|e| matches!(e, Event::IntentCaptured { .. })), 0);
    assert_eq!(count(|e| matches!(e, Event::RequirementCommitted { .. })), 0);
    assert_eq!(count(|e| matches!(e, Event::NetCommitted { .. })), 1);
}

#[test]
fn copper_only_import_commits_no_parts_no_spine() {
    let core = import_design(SAMPLE).expect("copper-only import should succeed");
    assert!(core.state.components.is_empty());
    assert!(core.state.placements.is_empty());
    assert!(core.state.pins.is_empty());
    assert!(core.state.functional_blocks.is_empty());
    assert!(core.state.requirements.is_empty());
    assert!(core.state.intent.is_none());
    assert!(core.log().iter().all(|r| !matches!(r.event, Event::ComponentCommitted { .. })));
}

const SAMPLE: &str = r#"
    (kicad_pcb
      (net 0 "")
      (net 1 "GND")
      (net 2 "VCC")
      (net 3 "SDA")
      (segment (start 10 10) (end 40 10) (width 0.15) (layer "F.Cu") (net 2))
      (segment (start 10 12) (end 40 12) (width 0.15) (layer "F.Cu") (net 1))
      (segment (start 10 14) (end 40 14) (width 0.25) (layer "B.Cu") (net 3))
      (via (at 20 20) (size 0.6))
    )
"#;

#[test]
fn board_only_import_flows_through_the_real_seam_to_the_event_log() {
    let core = import_design("(kicad_pcb (net 0 \"\"))").expect("board-only import should succeed");
    assert!(core.state.board.is_some(), "board outline should be committed");
    assert!(core.state.nets.is_empty());
    assert!(core.state.tracks.is_empty());
    assert!(core.log().iter().any(|r| matches!(r.event, Event::BoardCommitted { .. })));
}

#[test]
fn full_import_flows_through_commit_to_state_and_event_log() {
    let core = import_design(SAMPLE).expect("full import should succeed once Physical nets pass");
    assert!(core.state.board.is_some(), "board outline committed");
    assert_eq!(core.state.nets.len(), 3, "all three imported nets committed");
    assert_eq!(core.state.tracks.len(), 3, "all three imported tracks committed");
    assert!(core.state.nets.iter().all(|n| n.origin == NetOrigin::Physical));

    let records = core.log();
    let boards = records.iter().filter(|r| matches!(r.event, Event::BoardCommitted { .. })).count();
    let nets = records.iter().filter(|r| matches!(r.event, Event::NetCommitted { .. })).count();
    let tracks = records.iter().filter(|r| matches!(r.event, Event::TrackCommitted { .. })).count();
    assert_eq!(boards, 1, "one BoardCommitted event");
    assert_eq!(nets, 3, "one NetCommitted event per imported net");
    assert_eq!(tracks, 3, "one TrackCommitted event per imported track");
}

#[test]
fn import_malformed_input_is_a_typed_error_not_a_panic() {
    assert!(matches!(import_design(""), Err(CliError::Import(_))));
    assert!(matches!(import_design("(foo)"), Err(CliError::Import(_))));
    assert!(matches!(import_design("(kicad_pcb"), Err(CliError::Import(_))));
}

#[test]
fn import_error_message_carries_the_import_prefix() {
    match import_design("(foo)") {
        Err(e) => assert!(e.message().starts_with("import failed: ")),
        Ok(_) => panic!("a non-kicad_pcb root must not import"),
    }
}

#[test]
fn imported_state_replays_identically() {
    let core = import_design(WITH_FOOTPRINTS).unwrap();
    let replayed = eak::state::replay(core.log());
    assert_eq!(format!("{:?}", core.state), format!("{:?}", replayed));
}

const WITH_PAD_NETS: &str = r#"
    (kicad_pcb
      (net 0 "")
      (net 1 "GND")
      (net 2 "VCC")
      (footprint "Resistor_SMD:R_0805" (layer "F.Cu") (at 20 30)
        (fp_text reference "R1" (at 0 -2) (layer "F.SilkS"))
        (pad "1" smd roundrect (at -0.9 0) (size 1 1.2) (layers "F.Cu") (net 1 "GND"))
        (pad "2" smd roundrect (at 0.9 0) (size 1 1.2) (layers "F.Cu") (net 1 "GND"))
      )
      (footprint "Resistor_SMD:R_0805" (layer "F.Cu") (at 30 30)
        (fp_text reference "R2" (at 0 -2) (layer "F.SilkS"))
        (pad "1" smd roundrect (at -0.9 0) (size 1 1.2) (layers "F.Cu") (net 2 "VCC"))
        (pad "2" smd roundrect (at 0.9 0) (size 1 1.2) (layers "F.Cu") (net 9 "MYSTERY"))
      )
    )
"#;

#[test]
fn imported_nets_carry_the_pins_their_pads_declare() {
    let core = import_design(WITH_PAD_NETS).unwrap();
    let pins_of = |refdes: &str| -> Vec<EntityId> {
        let c = core.state.components.iter().find(|c| c.refdes == refdes).unwrap().id;
        core.state.pins.iter().filter(|p| p.component == c).map(|p| p.id).collect()
    };
    let r1 = pins_of("R1");
    let r2 = pins_of("R2");
    let gnd = core.state.nets.iter().find(|n| n.name == "GND").unwrap();
    let vcc = core.state.nets.iter().find(|n| n.name == "VCC").unwrap();
    assert_eq!(gnd.members, r1);
    assert_eq!(vcc.members, vec![r2[0]]);
    // Pin ids are minted per pad, in file order.
    assert_eq!(r1, vec![EntityId(30_000), EntityId(30_001)]);
    assert_eq!(r2, vec![EntityId(30_002), EntityId(30_003)]);
}

#[test]
fn a_track_on_net_index_zero_is_refused_by_the_seam() {
    let src = "(kicad_pcb (net 0 \"GND\") (segment (start 0 0) (end 1 0) (width 0.2) (layer \"F.Cu\") (net 0)))";
    match import_design(src) {
        Err(CliError::Import(m)) => assert_eq!(m, "capability rejected: track realizes no net"),
        other => panic!("expected a seam refusal, got ok = {}", other.is_ok()),
    }
}
