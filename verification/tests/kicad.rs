use eak::domain::{
    Board, BoardSide, ComponentClass, Dimension, EntityId, LayerStack, Net, NetClass, NetOrigin,
    PinElectricalType, Quantity, Track,
};
use eak::export::{export, fmt_mm};
use eak::kicad::{
    classify, import_kicad_pcb, ImportError, ImportWarning, ImportedComponent, ImportedDesign,
};
use eak::sexp::quote;

const SAMPLE: &str = r#"
    (kicad_pcb
      (net 0 "")
      (net 1 "GND")
      (net 2 "VCC")
      (net 3 "SDA")
      (segment (start 10 10) (end 40 10) (width 0.15) (layer "F.Cu") (net 2))
      (segment (start 10 12) (end 40 12) (width 0.15) (layer "F.Cu") (net 1))
      (segment (start 10 14) (end 40 14) (width 0.25) (layer "B.Cu") (net 3))
      (via (at 20 20) (size 0.6))
    )
"#;

fn mm_nm(nm: i128) -> Quantity {
    Quantity { nano: nm, dimension: Dimension::Length }
}

#[test]
fn imports_nets_and_tracks_with_inferred_classes() {
    let d = import_kicad_pcb(SAMPLE).unwrap();
    assert_eq!(d.nets.len(), 3);
    let by_name = |n: &str| d.nets.iter().find(|x| x.name == n).unwrap().class;
    assert_eq!(by_name("GND"), NetClass::Ground);
    assert_eq!(by_name("VCC"), NetClass::Power);
    assert_eq!(by_name("SDA"), NetClass::Signal);
    assert_eq!(d.tracks.len(), 3);
    let sda = d.tracks.iter().find(|t| t.net == EntityId(3)).unwrap();
    assert_eq!(sda.layer, BoardSide::Bottom);
    assert_eq!(sda.width, mm_nm(250_000));
    assert!(d.board.width.nano > 40_000_000);
}

#[test]
fn well_formed_board_imports_with_zero_warnings() {
    let d = import_kicad_pcb(SAMPLE).unwrap();
    assert!(d.warnings.is_empty(), "clean board must have no warnings");
    assert_eq!(d.tracks.len(), 3);
}

#[test]
fn segment_on_unknown_net_is_skipped_and_warned_not_aborted() {
    let src = r#"
        (kicad_pcb
          (net 0 "")
          (net 1 "GND")
          (segment (start 0 0) (end 10 0) (width 0.2) (layer "F.Cu") (net 1))
          (segment (start 0 2) (end 10 2) (width 0.2) (layer "F.Cu") (net 7))
          (segment (start 0 4) (end 10 4) (width 0.2) (layer "F.Cu") (net 0))
        )
    "#;
    let d = import_kicad_pcb(src).unwrap();
    assert_eq!(d.tracks.len(), 1);
    assert_eq!(d.tracks[0].net, EntityId(1));
    assert_eq!(d.warnings.len(), 2);
    assert!(d.warnings.contains(&ImportWarning::SegmentUnknownNet { net_id: 7 }));
    assert!(d.warnings.contains(&ImportWarning::SegmentUnknownNet { net_id: 0 }));
}

#[test]
fn pathologically_deep_input_is_a_clean_error_not_a_stack_overflow() {
    let deep = "(".repeat(100_000);
    assert!(matches!(import_kicad_pcb(&deep), Err(ImportError::TooDeep)));
}

#[test]
fn lib_malformed_input_is_a_typed_error_not_a_panic() {
    assert!(matches!(import_kicad_pcb(""), Err(ImportError::Empty)));
    assert!(matches!(import_kicad_pcb("(foo)"), Err(ImportError::NotKicadPcb)));
    assert!(matches!(import_kicad_pcb("(kicad_pcb"), Err(ImportError::Unbalanced)));
}

const WITH_FOOTPRINTS: &str = r#"
    (kicad_pcb
      (net 0 "")
      (net 1 "GND")
      (net 2 "VCC")
      (footprint "Resistor_SMD:R_0805" (layer "F.Cu") (at 20 30 90)
        (fp_text reference "R1" (at 0 -2) (layer "F.SilkS"))
        (fp_text value "10k" (at 0 2) (layer "F.Fab"))
        (fp_rect (start -1 -0.7) (end 1 0.7) (layer "F.CrtYd") (width 0.05))
        (pad "1" smd roundrect (at -0.9 0) (size 1 1.2) (layers "F.Cu"))
        (pad "2" smd roundrect (at 0.9 0) (size 1 1.2) (layers "F.Cu"))
      )
      (footprint "Package_SO:SOIC-8" (layer "B.Cu") (at 50 40)
        (fp_text reference "U1" (at 0 -3) (layer "B.SilkS"))
        (pad "1" smd rect (at -2 -1.9) (size 0.6 1.5) (layers "B.Cu"))
        (pad "2" smd rect (at -2 -0.6) (size 0.6 1.5) (layers "B.Cu"))
        (pad "3" smd rect (at -2 0.6) (size 0.6 1.5) (layers "B.Cu"))
      )
      (footprint "Connector:Conn_01x02" (layer "F.Cu") (at 5 5)
        (property "Reference" "J1" (at 0 -2) (layer "F.SilkS"))
        (pad "1" thru_hole circle (at 0 0) (size 1.7 1.7) (layers "*.Cu"))
        (pad "2" thru_hole circle (at 2.54 0) (size 1.7 1.7) (layers "*.Cu"))
      )
      (footprint "Fiducial" (layer "F.Cu") (at 1 1)
        (fp_text reference "FID1" (at 0 -1) (layer "F.SilkS"))
      )
    )
"#;

fn comp<'a>(d: &'a ImportedDesign, refdes: &str) -> &'a ImportedComponent {
    d.components
        .iter()
        .find(|c| c.component.refdes == refdes)
        .unwrap_or_else(|| panic!("no imported component {refdes}"))
}

#[test]
fn footprints_import_as_components_with_inferred_class_side_and_position() {
    let d = import_kicad_pcb(WITH_FOOTPRINTS).unwrap();
    assert_eq!(d.components.len(), 3);
    let r1 = comp(&d, "R1");
    assert_eq!(r1.component.class, ComponentClass::Resistor);
    assert_eq!(r1.placement.side, BoardSide::Top);
    assert_eq!((r1.placement.x, r1.placement.y), (mm_nm(20_000_000), mm_nm(30_000_000)));
    let u1 = comp(&d, "U1");
    assert_eq!(u1.component.class, ComponentClass::Ic);
    assert_eq!(u1.placement.side, BoardSide::Bottom);
    assert_eq!((u1.placement.x, u1.placement.y), (mm_nm(50_000_000), mm_nm(40_000_000)));
    let j1 = comp(&d, "J1");
    assert_eq!(j1.component.class, ComponentClass::Connector);
    assert_eq!(j1.placement.side, BoardSide::Top);
}

#[test]
fn footprint_courtyard_uses_the_rect_when_present_else_the_class_default() {
    let d = import_kicad_pcb(WITH_FOOTPRINTS).unwrap();
    let r1 = comp(&d, "R1");
    assert_eq!((r1.placement.width, r1.placement.height), (mm_nm(2_000_000), mm_nm(1_400_000)));
    let u1 = comp(&d, "U1");
    assert_eq!((u1.placement.width, u1.placement.height), (mm_nm(6_000_000), mm_nm(6_000_000)));
    let j1 = comp(&d, "J1");
    assert_eq!((j1.placement.width, j1.placement.height), (mm_nm(9_000_000), mm_nm(9_000_000)));
}

#[test]
fn footprint_pads_become_pins_bound_to_their_component() {
    let d = import_kicad_pcb(WITH_FOOTPRINTS).unwrap();
    let r1 = comp(&d, "R1");
    assert_eq!(r1.pins.len(), 2);
    assert!(r1.pins.iter().all(|p| p.component == r1.component.id));
    assert!(r1.pins.iter().all(|p| p.electrical_type == PinElectricalType::Passive));
    let names: Vec<&str> = r1.pins.iter().map(|p| p.designation.as_str()).collect();
    assert_eq!(names, vec!["1", "2"]);
    assert_eq!(comp(&d, "U1").pins.len(), 3);
    let mut ids: Vec<_> = d.components.iter().flat_map(|c| c.pins.iter().map(|p| p.id)).collect();
    let n = ids.len();
    ids.sort();
    ids.dedup();
    assert_eq!(ids.len(), n, "all pin ids distinct");
}

#[test]
fn padless_footprint_is_skipped_and_warned_not_committed() {
    let d = import_kicad_pcb(WITH_FOOTPRINTS).unwrap();
    assert!(d.components.iter().all(|c| c.component.refdes != "FID1"));
    assert!(d.warnings.contains(&ImportWarning::FootprintNoPads { refdes: "FID1".into() }));
}

#[test]
fn copper_only_board_has_no_components() {
    let d = import_kicad_pcb(SAMPLE).unwrap();
    assert!(d.components.is_empty());
    assert_eq!(d.tracks.len(), 3);
    assert!(d.warnings.is_empty());
}

const WITH_PAD_NETS: &str = r#"
    (kicad_pcb
      (net 0 "")
      (net 1 "GND")
      (net 2 "VCC")
      (footprint "Resistor_SMD:R_0805" (layer "F.Cu") (at 20 30)
        (fp_text reference "R1" (at 0 -2) (layer "F.SilkS"))
        (pad "1" smd roundrect (at -0.9 0) (size 1 1.2) (layers "F.Cu") (net 1 "GND"))
        (pad "2" smd roundrect (at 0.9 0) (size 1 1.2) (layers "F.Cu") (net 1 "GND"))
      )
      (footprint "Resistor_SMD:R_0805" (layer "F.Cu") (at 30 30)
        (fp_text reference "R2" (at 0 -2) (layer "F.SilkS"))
        (pad "1" smd roundrect (at -0.9 0) (size 1 1.2) (layers "F.Cu") (net 2 "VCC"))
        (pad "2" smd roundrect (at 0.9 0) (size 1 1.2) (layers "F.Cu") (net 9 "MYSTERY"))
      )
      (footprint "Connector:Conn_01x01" (layer "F.Cu") (at 5 5)
        (fp_text reference "J1" (at 0 -2) (layer "F.SilkS"))
        (pad "1" thru_hole circle (at 0 0) (size 1.7 1.7) (layers "*.Cu") (net 0 ""))
      )
    )
"#;

#[test]
fn pad_net_index_is_captured_per_pin_for_kept_nets() {
    let d = import_kicad_pcb(WITH_PAD_NETS).unwrap();
    let r1 = comp(&d, "R1");
    assert_eq!(r1.pin_nets.len(), r1.pins.len());
    assert_eq!(r1.pin_nets, vec![Some(1), Some(1)]);
    let r2 = comp(&d, "R2");
    assert_eq!(r2.pin_nets, vec![Some(2), None]);
}

#[test]
fn pad_on_undeclared_net_is_warned_and_joined_to_nothing() {
    let d = import_kicad_pcb(WITH_PAD_NETS).unwrap();
    assert!(d.warnings.contains(&ImportWarning::PadUnknownNet {
        refdes: "R2".into(),
        pad: "2".into(),
        net_id: 9,
    }));
    assert!(!d.warnings.iter().any(|w| matches!(w, ImportWarning::PadUnknownNet { net_id: 0, .. })));
    let j1 = comp(&d, "J1");
    assert_eq!(j1.pin_nets, vec![None]);
}

#[test]
fn pads_without_net_nodes_capture_no_membership() {
    let d = import_kicad_pcb(WITH_FOOTPRINTS).unwrap();
    assert!(d.components.iter().all(|c| c.pin_nets.iter().all(Option::is_none)));
    assert!(d.warnings.iter().all(|w| !matches!(w, ImportWarning::PadUnknownNet { .. })));
}

#[test]
fn output_has_the_expected_shape() {
    let d = import_kicad_pcb(SAMPLE).unwrap();
    let s = export(&d);
    assert!(s.starts_with("(kicad_pcb"));
    assert_eq!(s.matches("(segment").count(), d.tracks.len());
    for n in &d.nets {
        assert!(s.contains(&format!("(net {} \"{}\")", n.id.0, n.name)), "missing net {}", n.name);
    }
    assert!(s.contains("\"F.Cu\"") && s.contains("\"B.Cu\""));
    assert!(s.contains("Edge.Cuts"));
    assert!(!s.contains("(footprint"));
}

#[test]
fn export_is_deterministic() {
    let d = import_kicad_pcb(SAMPLE).unwrap();
    assert_eq!(export(&d), export(&d), "same IR must yield byte-identical output");
}

#[test]
fn import_export_import_is_a_fixed_point() {
    let d1 = import_kicad_pcb(SAMPLE).unwrap();
    let d2 = import_kicad_pcb(&export(&d1)).unwrap();
    assert_eq!(d1.board.width, d2.board.width);
    assert_eq!(d1.board.height, d2.board.height);
    assert_eq!(d1.board.stack.layers.len(), d2.board.stack.layers.len());
    assert_eq!(d1.nets.len(), d2.nets.len());
    for (a, b) in d1.nets.iter().zip(&d2.nets) {
        assert_eq!(a.id, b.id);
        assert_eq!(a.name, b.name);
        assert_eq!(a.class, b.class);
        assert_eq!(a.members, b.members);
        assert!(a.current.is_none() && b.current.is_none());
        assert!(a.impedance_target.is_none() && b.impedance_target.is_none());
    }
    assert_eq!(d1.tracks.len(), d2.tracks.len());
    for (a, b) in d1.tracks.iter().zip(&d2.tracks) {
        assert_eq!(a.id, b.id);
        assert_eq!(a.net, b.net);
        assert_eq!(a.layer, b.layer);
        assert_eq!(a.width, b.width);
        assert_eq!((a.x1, a.y1, a.x2, a.y2), (b.x1, b.y1, b.x2, b.y2));
    }
}

#[test]
fn hand_built_design_round_trips() {
    let nets = vec![
        Net {
            id: EntityId(1),
            name: "GND".into(),
            class: NetClass::Ground,
            members: vec![],
            current: None,
            impedance_target: None,
            origin: NetOrigin::Logical,
        },
        Net {
            id: EntityId(2),
            name: "+3V3".into(),
            class: NetClass::Power,
            members: vec![],
            current: None,
            impedance_target: None,
            origin: NetOrigin::Logical,
        },
    ];
    let tracks = vec![
        Track {
            id: EntityId(10_000),
            net: EntityId(2),
            layer: BoardSide::Top,
            width: mm_nm(300_000),
            x1: mm_nm(5_000_000),
            y1: mm_nm(5_000_000),
            x2: mm_nm(25_000_000),
            y2: mm_nm(5_000_000),
        },
        Track {
            id: EntityId(10_001),
            net: EntityId(1),
            layer: BoardSide::Bottom,
            width: mm_nm(200_000),
            x1: mm_nm(5_000_000),
            y1: mm_nm(8_000_000),
            x2: mm_nm(25_000_000),
            y2: mm_nm(8_000_000),
        },
    ];
    let board = Board {
        id: EntityId(1),
        width: mm_nm(30_000_000),
        height: mm_nm(13_000_000),
        stack: LayerStack::standard_two_layer(),
    };
    let d1 = ImportedDesign { board, nets, tracks, components: vec![], warnings: vec![] };
    let d2 = import_kicad_pcb(&export(&d1)).unwrap();
    assert_eq!(d1.board.width, d2.board.width);
    assert_eq!(d1.board.height, d2.board.height);
    assert_eq!(d1.nets.len(), d2.nets.len());
    for (a, b) in d1.nets.iter().zip(&d2.nets) {
        assert_eq!(a.id, b.id);
        assert_eq!(a.name, b.name);
        assert_eq!(a.class, b.class);
    }
    assert_eq!(d1.tracks.len(), d2.tracks.len());
    for (a, b) in d1.tracks.iter().zip(&d2.tracks) {
        assert_eq!(a.id, b.id);
        assert_eq!(a.net, b.net);
        assert_eq!(a.layer, b.layer);
        assert_eq!(a.width, b.width);
        assert_eq!(a.x1, b.x1);
        assert_eq!(a.y2, b.y2);
    }
}

#[test]
fn numbers_snap_to_kicad_grid_cleanly() {
    assert_eq!(fmt_mm(150_000), "0.15");
    assert_eq!(fmt_mm(10_000_000), "10");
    assert_eq!(fmt_mm(0), "0");
    assert_eq!(fmt_mm(40_500_000), "40.5");
    assert_eq!(fmt_mm(-150_000), "-0.15");
    assert_eq!(fmt_mm(1), "0.000001");
}

#[test]
fn quote_escapes_specials() {
    assert_eq!(quote("GND"), "\"GND\"");
    assert_eq!(quote("A\"B"), "\"A\\\"B\"");
    assert_eq!(quote("C\\D"), "\"C\\\\D\"");
}

#[test]
fn net_names_classify_by_their_upper_case_form() {
    assert_eq!(classify("gnd"), NetClass::Ground);
    assert_eq!(classify("AGND_1"), NetClass::Ground);
    assert_eq!(classify("+12V"), NetClass::Power);
    assert_eq!(classify("usb_vbus"), NetClass::Power);
    assert_eq!(classify("3.3V_A"), NetClass::Power);
    assert_eq!(classify("SCL"), NetClass::Signal);
}

#[test]
fn decimals_read_exactly_on_the_nanometre_grid() {
    let src = r#"(kicad_pcb (net 1 "N") (segment (start -1.5 .25) (end 2. 0.0000019) (width 0.1234567) (net 1)))"#;
    let d = import_kicad_pcb(src).unwrap();
    let t = &d.tracks[0];
    assert_eq!(t.x1, mm_nm(-1_500_000));
    assert_eq!(t.y1, mm_nm(250_000));
    assert_eq!(t.x2, mm_nm(2_000_000));
    assert_eq!(t.y2, mm_nm(1));
    assert_eq!(t.width, mm_nm(123_456));
    assert_eq!(t.layer, BoardSide::Top);
}

#[test]
fn malformed_fields_name_what_is_missing() {
    let no_width = r#"(kicad_pcb (net 1 "N") (segment (start 0 0) (end 1 1) (net 1)))"#;
    assert_eq!(import_kicad_pcb(no_width).unwrap_err(), ImportError::Malformed("segment width"));
    let bad_id = r#"(kicad_pcb (net one "N"))"#;
    assert_eq!(import_kicad_pcb(bad_id).unwrap_err(), ImportError::Malformed("net id"));
    let zero_width = r#"(kicad_pcb (net 1 "N") (segment (start 0 0) (end 1 1) (width 0) (net 1)))"#;
    assert_eq!(
        import_kicad_pcb(zero_width).unwrap_err(),
        ImportError::Invalid("track width must be positive and finite".into())
    );
    assert_eq!(
        ImportError::Malformed("segment width").message(),
        "malformed segment width"
    );
}

#[test]
fn warnings_read_as_their_messages() {
    assert_eq!(
        ImportWarning::SegmentUnknownNet { net_id: 7 }.message(),
        "segment skipped: references unknown net 7"
    );
    assert_eq!(
        ImportWarning::PadUnknownNet { refdes: "R2".into(), pad: "2".into(), net_id: 9 }.message(),
        "pad R2.2 references unknown net 9: pin joined to no net"
    );
}

#[test]
fn footprints_are_left_out_of_an_export_and_the_nets_read_back() {
    let d1 = import_kicad_pcb(WITH_FOOTPRINTS).unwrap();
    assert!(!d1.components.is_empty());
    let d2 = import_kicad_pcb(&export(&d1)).unwrap();
    assert!(d2.components.is_empty());
    assert!(d2.warnings.is_empty());
    assert_eq!(d1.nets.len(), d2.nets.len());
    for (a, b) in d1.nets.iter().zip(&d2.nets) {
        assert_eq!((a.id, &a.name, a.class), (b.id, &b.name, b.class));
    }
    // With no copper, the outline falls back to the 10 mm minimum.
    assert_eq!(d2.board.width, mm_nm(10_000_000));
    assert_eq!(d2.board.height, mm_nm(10_000_000));
}
