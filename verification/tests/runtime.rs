use eak::domain::{
    Board, BoardSide, BomLineItem, Component, ComponentClass, ComponentOrigin, Decision,
    Dimension, EntityId, FunctionalBlock, LayerStack, Net, NetClass, NetOrigin, Part,
    PartLifecycle, Pin, PinElectricalType, Placement, Priority, Quantity, Requirement,
    RequirementCategory, RequirementStatus, Track,
};
use eak::kernel::RuntimeCore;
use eak::ports::Event;
use eak::protocol::{Autonomy, CapabilityError, CapabilityRequest};
use eak::state::replay;

/// Whole millimetres, held in nanometres.
fn mm(v: i128) -> Quantity {
    Quantity { nano: v * 1_000_000, dimension: Dimension::Length }
}

/// Thousandths of a millimetre, held in nanometres.
fn mm_t(v: i128) -> Quantity {
    Quantity { nano: v * 1_000, dimension: Dimension::Length }
}

fn new_core() -> RuntimeCore {
    RuntimeCore::new(Autonomy::Autonomous, 7)
}

fn same_state(core: &RuntimeCore) {
    let replayed = replay(core.log());
    assert_eq!(format!("{:?}", core.state), format!("{:?}", replayed));
}

fn requirement(id: EntityId, statement: &str, crit: &str, source: EntityId) -> Requirement {
    Requirement {
        id,
        statement: statement.into(),
        category: RequirementCategory::Electrical,
        priority: Priority::High,
        acceptance_criterion: crit.into(),
        status: RequirementStatus::Accepted,
        source,
        targets: vec![],
    }
}

fn decision(id: EntityId, subject: EntityId, rationale: &str) -> Decision {
    Decision {
        id,
        subject,
        rationale: rationale.into(),
        decider: "test".into(),
        reasoning_call_seq: None,
        evidence: vec![],
        confidence: 1_000_000,
    }
}

/// Commit intent and one accepted requirement rooted in it; returns the requirement id.
fn seed_requirement_with(core: &mut RuntimeCore, intent: &str, statement: &str, crit: &str) -> EntityId {
    core.capture_intent(intent, "engineer");
    let src = core.state.intent.as_ref().unwrap().id;
    let rid = core.fresh_id();
    let did = core.fresh_id();
    core.invoke(CapabilityRequest::CreateRequirement {
        requirement: requirement(rid, statement, crit, src),
        decision: decision(did, rid, "from intent"),
        evidence: vec![],
        links: vec![],
    })
    .unwrap();
    rid
}

/// Requirement -> block -> one synthesized component with one pin. Returns (block, component, pin).
fn seed_component(core: &mut RuntimeCore, rid: EntityId, class: ComponentClass, designation: &str, et: PinElectricalType) -> (EntityId, EntityId, EntityId) {
    let block_id = core.fresh_id();
    core.invoke(CapabilityRequest::CreateFunctionalBlock {
        block: FunctionalBlock {
            id: block_id,
            name: "blk".into(),
            function: "f".into(),
            requirements: vec![rid],
        },
        links: vec![],
    })
    .unwrap();
    let comp_id = core.fresh_id();
    let pin_id = core.fresh_id();
    core.invoke(CapabilityRequest::RealizeComponent {
        component: Component {
            id: comp_id,
            refdes: "U1".into(),
            class,
            value: None,
            from_block: block_id,
            origin: ComponentOrigin::Synthesized,
        },
        pins: vec![Pin {
            id: pin_id,
            component: comp_id,
            designation: designation.into(),
            electrical_type: et,
        }],
        links: vec![],
    })
    .unwrap();
    (block_id, comp_id, pin_id)
}

fn board(id: EntityId, w: i128, h: i128) -> Board {
    Board { id, width: mm(w), height: mm(h), stack: LayerStack::standard_two_layer() }
}

#[test]
fn commit_then_replay_reconstructs_identical_state() {
    let mut core = RuntimeCore::new(Autonomy::Autonomous, 42);
    core.capture_intent("USB-C powered IoT sensor node, < 5 W", "engineer");
    let src = core.state.intent.as_ref().unwrap().id;
    let rid = core.fresh_id();
    let did = core.fresh_id();
    core.invoke(CapabilityRequest::CreateRequirement {
        requirement: requirement(rid, "Operating power shall not exceed 5 W", "measured power < 5 W", src),
        decision: decision(did, rid, "derived from intent"),
        evidence: vec![],
        links: vec![],
    })
    .unwrap();

    same_state(&core);
    assert_eq!(core.state.requirements.len(), 1);
}

#[test]
fn event_sink_observes_every_committed_event_live_in_order() {
    let mut core = new_core();
    core.capture_intent("USB-C powered IoT sensor node, < 5 W", "engineer");
    // The intent event is in the log the moment capture_intent commits.
    assert_eq!(core.log().len(), 1);
    assert!(matches!(core.log()[0].event, Event::IntentCaptured { .. }));
    let seen_after_intent: Vec<u64> = core.log().iter().map(|r| r.seq).collect();

    let src = core.state.intent.as_ref().unwrap().id;
    let rid = core.fresh_id();
    let did = core.fresh_id();
    let ack = core
        .invoke(CapabilityRequest::CreateRequirement {
            requirement: requirement(rid, "Operating power shall not exceed 5 W", "measured power < 5 W", src),
            decision: decision(did, rid, "derived from intent"),
            evidence: vec![],
            links: vec![],
        })
        .unwrap();

    // Every committed record sits at its own sequence number, in commit order, and the
    // acknowledged sequence numbers are exactly the records the request appended.
    let logged = core.log();
    assert!(logged.len() >= 2, "intent + at least the requirement");
    for (i, rec) in logged.iter().enumerate() {
        assert_eq!(rec.seq, i as u64);
    }
    assert_eq!(seen_after_intent, vec![0]);
    let expected: Vec<u64> = (1..logged.len() as u64).collect();
    assert_eq!(ack.committed, expected);
}

#[test]
fn create_net_seam_applies_origin_dependent_connectivity_invariant() {
    let mut core = new_core();
    let phys_id = core.fresh_id();
    let logi_id = core.fresh_id();
    let phantom_id = core.fresh_id();

    core.invoke(CapabilityRequest::CreateNet {
        net: Net {
            id: phys_id,
            name: "GND".into(),
            class: NetClass::Ground,
            members: vec![],
            current: None,
            impedance_target: None,
            origin: NetOrigin::Physical,
        },
        links: vec![],
    })
    .expect("a member-less Physical net is accepted at the seam");
    assert_eq!(core.state.nets.len(), 1);

    let err = core
        .invoke(CapabilityRequest::CreateNet {
            net: Net {
                id: logi_id,
                name: "VCC".into(),
                class: NetClass::Power,
                members: vec![],
                current: None,
                impedance_target: None,
                origin: NetOrigin::Logical,
            },
            links: vec![],
        })
        .unwrap_err();
    assert!(matches!(err, CapabilityError::Rejected(_)));

    let err = core
        .invoke(CapabilityRequest::CreateNet {
            net: Net {
                id: phantom_id,
                name: "SDA".into(),
                class: NetClass::Signal,
                members: vec![EntityId(0xDEAD_BEEF)],
                current: None,
                impedance_target: None,
                origin: NetOrigin::Physical,
            },
            links: vec![],
        })
        .unwrap_err();
    assert!(matches!(err, CapabilityError::Rejected(_)));

    assert_eq!(core.state.nets.len(), 1);
}

#[test]
fn realize_component_seam_applies_origin_dependent_block_invariant() {
    let mut core = new_core();
    let imported_id = core.fresh_id();
    let imported_pin = core.fresh_id();
    let synth_id = core.fresh_id();
    let synth_pin = core.fresh_id();
    let phantom_comp = core.fresh_id();
    let phantom_pin = core.fresh_id();

    let pin = |id: EntityId, comp: EntityId| Pin {
        id,
        component: comp,
        designation: "1".into(),
        electrical_type: PinElectricalType::Passive,
    };

    core.invoke(CapabilityRequest::RealizeComponent {
        component: Component {
            id: imported_id,
            refdes: "R1".into(),
            class: ComponentClass::Resistor,
            value: None,
            from_block: EntityId::null(),
            origin: ComponentOrigin::Imported,
        },
        pins: vec![pin(imported_pin, imported_id)],
        links: vec![],
    })
    .expect("an Imported component with a null block is accepted at the seam");
    assert_eq!(core.state.components.len(), 1);

    let err = core
        .invoke(CapabilityRequest::RealizeComponent {
            component: Component {
                id: synth_id,
                refdes: "U1".into(),
                class: ComponentClass::Ic,
                value: None,
                from_block: EntityId::null(),
                origin: ComponentOrigin::Synthesized,
            },
            pins: vec![pin(synth_pin, synth_id)],
            links: vec![],
        })
        .unwrap_err();
    assert!(matches!(err, CapabilityError::Rejected(_)));

    let err = core
        .invoke(CapabilityRequest::RealizeComponent {
            component: Component {
                id: phantom_comp,
                refdes: "U2".into(),
                class: ComponentClass::Ic,
                value: None,
                from_block: EntityId(0xDEAD_BEEF),
                origin: ComponentOrigin::Imported,
            },
            pins: vec![pin(phantom_pin, phantom_comp)],
            links: vec![],
        })
        .unwrap_err();
    assert!(matches!(err, CapabilityError::Rejected(_)));

    assert_eq!(core.state.components.len(), 1);
}

#[test]
fn phase3_synthesis_commits_fold_and_replay_byte_identically() {
    let mut core = new_core();
    let rid = seed_requirement_with(&mut core, "USB-C powered IoT sensor node, 5 V rail", "Device shall regulate to 5 V", "rail measures 5 V");
    let bid = core.fresh_id();
    core.invoke(CapabilityRequest::CreateFunctionalBlock {
        block: FunctionalBlock {
            id: bid,
            name: "5V regulation".into(),
            function: "step USB-C VBUS down to 5 V".into(),
            requirements: vec![rid],
        },
        links: vec![],
    })
    .unwrap();
    let cid = core.fresh_id();
    let pid = core.fresh_id();
    core.invoke(CapabilityRequest::RealizeComponent {
        component: Component {
            id: cid,
            refdes: "U1".into(),
            class: ComponentClass::Regulator,
            value: None,
            from_block: bid,
            origin: ComponentOrigin::Synthesized,
        },
        pins: vec![Pin {
            id: pid,
            component: cid,
            designation: "VOUT".into(),
            electrical_type: PinElectricalType::PowerOut,
        }],
        links: vec![],
    })
    .unwrap();
    let nid = core.fresh_id();
    core.invoke(CapabilityRequest::CreateNet {
        net: Net {
            id: nid,
            name: "+5V".into(),
            class: NetClass::Power,
            members: vec![pid],
            current: None,
            impedance_target: None,
            origin: NetOrigin::Logical,
        },
        links: vec![],
    })
    .unwrap();

    assert_eq!(core.state.functional_blocks.len(), 1);
    assert_eq!(core.state.components.len(), 1);
    assert_eq!(core.state.pins.len(), 1);
    assert_eq!(core.state.nets.len(), 1);
    assert!(core.state.functional_block(bid).is_some());
    assert!(core.state.component(cid).is_some());
    assert!(core.state.pin(pid).is_some());
    same_state(&core);
}

#[test]
fn phase3_bom_commits_fold_and_replay_byte_identically() {
    let mut core = new_core();
    let rid = seed_requirement_with(&mut core, "USB-C powered IoT sensor node, 3.3 V rail", "Device shall regulate to 3.3 V", "rail measures 3.3 V");
    let (_, cid, _) = seed_component(&mut core, rid, ComponentClass::Regulator, "VOUT", PinElectricalType::PowerOut);

    let part_id = core.fresh_id();
    core.invoke(CapabilityRequest::CreatePart {
        part: Part {
            id: part_id,
            mpn: "LM1117-3.3".into(),
            manufacturer: "Texas Instruments".into(),
            lifecycle: PartLifecycle::Eol,
            datasheet: "https://ti.com/lm1117".into(),
        },
        links: vec![],
    })
    .unwrap();
    let item_id = core.fresh_id();
    core.invoke(CapabilityRequest::CreateBomLineItem {
        item: BomLineItem { id: item_id, part: part_id, components: vec![cid], quantity: 1 },
        links: vec![],
    })
    .unwrap();

    assert_eq!(core.state.parts.len(), 1);
    assert_eq!(core.state.bom_line_items.len(), 1);
    assert!(core.state.part(part_id).is_some());
    assert!(core.state.bom_line_item(item_id).is_some());
    same_state(&core);
}

#[test]
fn phase3_pcb_commits_fold_and_replay_byte_identically() {
    let mut core = new_core();
    let rid = seed_requirement_with(&mut core, "USB-C powered IoT sensor node, fits a 50x40 mm board", "Device shall fit a 50x40 mm outline", "board <= 50x40 mm");
    let (_, cid, _) = seed_component(&mut core, rid, ComponentClass::Regulator, "VOUT", PinElectricalType::PowerOut);

    let board_id = core.fresh_id();
    core.invoke(CapabilityRequest::CreateBoard { board: board(board_id, 50, 40), links: vec![] })
        .unwrap();
    let placement_id = core.fresh_id();
    core.invoke(CapabilityRequest::PlaceComponent {
        placement: Placement {
            id: placement_id,
            component: cid,
            x: mm(5),
            y: mm(5),
            width: mm(10),
            height: mm(8),
            side: BoardSide::Top,
        },
        links: vec![],
    })
    .unwrap();

    assert!(core.state.board.is_some());
    assert_eq!(core.state.placements.len(), 1);
    assert!(core.state.board().is_some());
    assert_eq!(core.state.board().unwrap().id, board_id);
    assert!(core.state.placement(placement_id).is_some());
    same_state(&core);
}

#[test]
fn bom_line_item_handler_rejects_untraceable_proposals_at_the_seam() {
    let mut core = new_core();
    let fake_part = core.fresh_id();
    let fake_comp = core.fresh_id();
    let pid = core.fresh_id();
    let (id1, id2, id3, id4) = (core.fresh_id(), core.fresh_id(), core.fresh_id(), core.fresh_id());

    core.invoke(CapabilityRequest::CreatePart {
        part: Part {
            id: pid,
            mpn: "RC0402FR-0710KL".into(),
            manufacturer: "Yageo".into(),
            lifecycle: PartLifecycle::Active,
            datasheet: "https://yageo.com/rc0402".into(),
        },
        links: vec![],
    })
    .unwrap();

    for (id, part, components, quantity) in [
        (id1, pid, vec![fake_comp], 0u32),
        (id2, pid, vec![], 1),
        (id3, fake_part, vec![fake_comp], 1),
        (id4, pid, vec![fake_comp], 1),
    ] {
        let err = core
            .invoke(CapabilityRequest::CreateBomLineItem {
                item: BomLineItem { id, part, components, quantity },
                links: vec![],
            })
            .unwrap_err();
        assert!(matches!(err, CapabilityError::Rejected(_)));
    }
    assert!(core.state.bom_line_items.is_empty());
}

#[test]
fn phase3_handlers_reject_untraceable_proposals_at_the_seam() {
    let mut core = new_core();
    let (id1, id2, id3) = (core.fresh_id(), core.fresh_id(), core.fresh_id());

    let err = core
        .invoke(CapabilityRequest::CreateFunctionalBlock {
            block: FunctionalBlock {
                id: id1,
                name: "orphan".into(),
                function: "f".into(),
                requirements: vec![],
            },
            links: vec![],
        })
        .unwrap_err();
    assert!(matches!(err, CapabilityError::Rejected(_)));

    let err = core
        .invoke(CapabilityRequest::RealizeComponent {
            component: Component {
                id: id2,
                refdes: "R1".into(),
                class: ComponentClass::Resistor,
                value: None,
                from_block: EntityId::null(),
                origin: ComponentOrigin::Synthesized,
            },
            pins: vec![],
            links: vec![],
        })
        .unwrap_err();
    assert!(matches!(err, CapabilityError::Rejected(_)));

    let err = core
        .invoke(CapabilityRequest::CreateNet {
            net: Net {
                id: id3,
                name: "GND".into(),
                class: NetClass::Ground,
                members: vec![],
                current: None,
                impedance_target: None,
                origin: NetOrigin::Logical,
            },
            links: vec![],
        })
        .unwrap_err();
    assert!(matches!(err, CapabilityError::Rejected(_)));

    assert!(core.state.functional_blocks.is_empty());
    assert!(core.state.components.is_empty());
    assert!(core.state.nets.is_empty());
    assert!(core.log().is_empty());
}

#[test]
fn phase3_pcb_handlers_reject_untraceable_proposals_at_the_seam() {
    let mut core = new_core();
    let placement = |id: EntityId, component: EntityId, xy: i128, wh: i128| Placement {
        id,
        component,
        x: mm(xy),
        y: mm(xy),
        width: mm(wh),
        height: mm(wh),
        side: BoardSide::Top,
    };

    let (pid0, cid0) = (core.fresh_id(), core.fresh_id());
    let err = core
        .invoke(CapabilityRequest::PlaceComponent { placement: placement(pid0, cid0, 0, 1), links: vec![] })
        .unwrap_err();
    assert!(matches!(err, CapabilityError::Rejected(_)));

    let board0 = core.fresh_id();
    core.invoke(CapabilityRequest::CreateBoard { board: board(board0, 50, 50), links: vec![] })
        .unwrap();
    let board1 = core.fresh_id();
    let err = core
        .invoke(CapabilityRequest::CreateBoard { board: board(board1, 20, 20), links: vec![] })
        .unwrap_err();
    assert!(matches!(err, CapabilityError::Rejected(_)));

    let (pid1, cid1) = (core.fresh_id(), core.fresh_id());
    let err = core
        .invoke(CapabilityRequest::PlaceComponent { placement: placement(pid1, cid1, 1, 1), links: vec![] })
        .unwrap_err();
    assert!(matches!(err, CapabilityError::Rejected(_)));

    let rid = seed_requirement_with(&mut core, "intent", "Device shall do a thing", "it does the thing");
    let (_, comp_id, _) = seed_component(&mut core, rid, ComponentClass::Ic, "VDD", PinElectricalType::PowerIn);

    let p1 = core.fresh_id();
    core.invoke(CapabilityRequest::PlaceComponent { placement: placement(p1, comp_id, 2, 3), links: vec![] })
        .unwrap();
    let p2 = core.fresh_id();
    let err = core
        .invoke(CapabilityRequest::PlaceComponent { placement: placement(p2, comp_id, 2, 3), links: vec![] })
        .unwrap_err();
    assert!(matches!(err, CapabilityError::Rejected(_)));

    assert_eq!(core.state.placements.len(), 1);
    assert!(core.state.board.is_some());
}

#[test]
fn phase3_routing_handler_rejects_untraceable_proposals_at_the_seam() {
    let mut core = new_core();
    let track = |id: EntityId, net: EntityId| CapabilityRequest::RouteNet {
        track: Track {
            id,
            net,
            layer: BoardSide::Top,
            width: mm_t(250),
            x1: mm(1),
            y1: mm(1),
            x2: mm(9),
            y2: mm(1),
        },
        links: vec![],
    };

    let rid = seed_requirement_with(&mut core, "intent", "Device shall do a thing", "it does the thing");
    let (_, _, pin_id) = seed_component(&mut core, rid, ComponentClass::Ic, "VDD", PinElectricalType::PowerIn);
    let net_id = core.fresh_id();
    core.invoke(CapabilityRequest::CreateNet {
        net: Net {
            id: net_id,
            name: "VBUS".into(),
            class: NetClass::Power,
            members: vec![pin_id],
            current: None,
            impedance_target: None,
            origin: NetOrigin::Logical,
        },
        links: vec![],
    })
    .unwrap();

    let t0 = core.fresh_id();
    let err = core.invoke(track(t0, net_id)).unwrap_err();
    assert!(matches!(err, CapabilityError::Rejected(_)));

    let board_id = core.fresh_id();
    core.invoke(CapabilityRequest::CreateBoard { board: board(board_id, 50, 50), links: vec![] })
        .unwrap();
    let t1 = core.fresh_id();
    let phantom = core.fresh_id();
    let err = core.invoke(track(t1, phantom)).unwrap_err();
    assert!(matches!(err, CapabilityError::Rejected(_)));

    let t2 = core.fresh_id();
    core.invoke(track(t2, net_id)).unwrap();
    let t3 = core.fresh_id();
    core.invoke(track(t3, net_id)).unwrap();

    assert_eq!(core.state.tracks.len(), 2);
    same_state(&core);
}
