//! The command logic behind the `eak` tool: importing a KiCad board through the capability
//! seam, seeding the default fabrication floor, the workflow plans, and the provenance trace.
use vstd::prelude::*;
use vstd::string::StringExecFns;
use crate::domain::{
    Component, ComponentOrigin, Decision, EntityId, Evidence, EvidenceKind, Net, NetOrigin, Pin,
    PinElectricalType,
    Placement, Priority,
    ProvenanceLink, Quantity, RelationType, Requirement, RequirementCategory, RequirementStatus,
    PPM_ONE,
};
use crate::kernel::{settled, RuntimeCore};
use crate::kicad::{
    board_is, component_is, design_is, import_error_text, import_kicad_pcb, import_spec, kept_ids, length,
    max_int, net_class_of, net_is, uppercased, ImportFacts, ImportedComponent, ImportedDesign,
    PartFact,
};
use crate::intake::{
    facts_fit, lemma_import_facts_fit, lemma_pin_total_mono, lemma_pin_total_step, part_fact_ok,
    pin_total, pins_numbered,
};
use crate::roundtrip::{net_fact_ok, track_ok};
use crate::laws::{
    integrity, lemma_empty_has_integrity, lemma_fold_component, lemma_fold_one,
    lemma_invoke_keeps_integrity,
};
use crate::ports::Event;
use crate::protocol::{Autonomy, CapabilityError, CapabilityRequest};
use crate::seam::{comp_ids, decide, first_missing_from, net_ids, pin_ids, request_size};
use crate::state::{empty_state, fold_events, has_id, StateView};
use crate::views::copy_vec;

verus! {

/// Why a command failed.
#[derive(Debug)]
pub enum CliError {
    Msg(String),
    /// A design could not be imported: the `.kicad_pcb` failed to parse, or the seam declined
    /// one of the entities it proposed.
    Import(String),
}

impl CliError {
    /// The human-readable description of the error.
    pub fn message(&self) -> (r: String)
        ensures
            r@ == match self {
                CliError::Msg(m) => m@,
                CliError::Import(m) => "import failed: "@ + m@,
            },
    {
        match self {
            CliError::Msg(m) => m.clone(),
            CliError::Import(m) => {
                let mut s = "import failed: ".to_owned();
                s.append(m.as_str());
                s
            },
        }
    }
}

/// Submit one request on behalf of an import; a refusal becomes an import error carrying the
/// seam's reason.
fn submit_import(core: &mut RuntimeCore, request: CapabilityRequest) -> (r: Result<(), CliError>)
    requires
        old(core).inv(),
        integrity(old(core).spec_state()),
    ensures
        final(core).inv(),
        integrity(final(core).spec_state()),
        final(core).spec_autonomy() == old(core).spec_autonomy(),
        r is Err ==> r matches Err(CliError::Import(_)),
        r is Ok ==> decide(old(core).spec_state(), old(core).spec_autonomy(), request) is Ok
            && final(core).spec_state() == fold_events(
            old(core).spec_state(),
            decide(old(core).spec_state(), old(core).spec_autonomy(), request)->Ok_0,
        ),
        r is Ok ==> old(core).spec_log().len() + request_size(request) < u64::MAX
            && final(core).spec_log().len() == old(core).spec_log().len() + decide(
            old(core).spec_state(),
            old(core).spec_autonomy(),
            request,
        )->Ok_0.len(),
        old(core).spec_log().len() + request_size(request) < u64::MAX && decide(
            old(core).spec_state(),
            old(core).spec_autonomy(),
            request,
        ) is Ok ==> r is Ok,
{
    let ghost before = *core;
    let res = core.submit(request);
    proof {
        if before.spec_log().len() + request_size(request) < u64::MAX {
            lemma_invoke_keeps_integrity(before, *core, request, res);
        }
        assert(crate::state::log_events(core.spec_log()).len() == core.spec_log().len());
        assert(crate::state::log_events(before.spec_log()).len() == before.spec_log().len());
    }
    match res {
        Ok(_) => Ok(()),
        Err(e) => Err(CliError::Import(e.message())),
    }
}

/// The pins of the imported components that sit on the net with KiCad index `net`, in
/// component and pad order.
pub open spec fn members_on(comps: Seq<ImportedComponent>, net: u128) -> Seq<EntityId>
    decreases comps.len(),
{
    if comps.len() == 0 {
        Seq::empty()
    } else {
        members_on(comps.drop_last(), net) + pins_on(comps.last(), net, comps.last().pins@.len())
    }
}

/// The pins among the first `n` of one component that sit on the net.
pub open spec fn pins_on(c: ImportedComponent, net: u128, n: nat) -> Seq<EntityId>
    decreases n,
{
    if n == 0 {
        Seq::empty()
    } else {
        let k = (n - 1) as int;
        let prev = pins_on(c, net, (n - 1) as nat);
        if k < c.pin_nets@.len() && c.pin_nets@[k] == Some(net) {
            prev.push(c.pins@[k].id)
        } else {
            prev
        }
    }
}

fn collect_members(comps: &Vec<ImportedComponent>, net: u128) -> (r: Vec<EntityId>)
    ensures
        r@ == members_on(comps@, net),
{
    let mut out: Vec<EntityId> = Vec::new();
    let mut i: usize = 0;
    while i < comps.len()
        invariant
            i <= comps.len(),
            out@ == members_on(comps@.take(i as int), net),
        decreases comps.len() - i,
    {
        let c = &comps[i];
        let ghost base = out@;
        let mut j: usize = 0;
        while j < c.pins.len()
            invariant
                j <= c.pins.len(),
                out@ == base + pins_on(*c, net, j as nat),
            decreases c.pins.len() - j,
        {
            if j < c.pin_nets.len() {
                match c.pin_nets[j] {
                    Some(idx) => {
                        if idx == net {
                            out.push(c.pins[j].id);
                        }
                    },
                    None => {},
                }
            }
            j += 1;
        }
        proof {
            assert(comps@.take(i + 1).drop_last() =~= comps@.take(i as int));
            assert(comps@.take(i + 1).last() == comps@[i as int]);
        }
        i += 1;
    }
    assert(comps@.take(comps.len() as int) =~= comps@);
    out
}

fn copy_pins(pins: &Vec<Pin>) -> (r: Vec<Pin>)
    ensures
        r@ == pins@,
{
    let mut r: Vec<Pin> = Vec::new();
    let mut i: usize = 0;
    while i < pins.len()
        invariant
            i <= pins.len(),
            r@ == pins@.take(i as int),
        decreases pins.len() - i,
    {
        r.push(pins[i].clone());
        assert(r@ =~= pins@.take(i + 1));
        i += 1;
    }
    assert(pins@.take(pins.len() as int) =~= pins@);
    r
}

/// The pins, among the first `n` a part's pads mint, whose pads sit on net `net`.
pub open spec fn part_pins_on(p: PartFact, net: u128, n: nat) -> Seq<EntityId>
    decreases n,
{
    if n == 0 {
        Seq::empty()
    } else {
        let k = (n - 1) as nat;
        let prev = part_pins_on(p, net, k);
        if k < p.pins.len() && p.pins[k as int].net == Some(net) {
            prev.push(EntityId((30_000 + p.first_pin + k) as u128))
        } else {
            prev
        }
    }
}

/// The pins of the imported parts whose pads sit on net `net`, in part and pad order.
pub open spec fn fact_members(parts: Seq<PartFact>, net: u128) -> Seq<EntityId>
    decreases parts.len(),
{
    if parts.len() == 0 {
        Seq::empty()
    } else {
        fact_members(parts.drop_last(), net) + part_pins_on(parts.last(), net, parts.last().pins.len())
    }
}

proof fn lemma_pins_on_facts(c: ImportedComponent, k: int, p: PartFact, net: u128, n: nat)
    requires
        component_is(c, k, p),
        n <= p.pins.len(),
    ensures
        pins_on(c, net, n) == part_pins_on(p, net, n),
    decreases n,
{
    if n > 0 {
        lemma_pins_on_facts(c, k, p, net, (n - 1) as nat);
        let j = n - 1;
        assert(c.pins@[j].id == EntityId((30_000 + p.first_pin + j) as u128));
        assert(c.pin_nets@[j] == p.pins[j].net);
    }
}

proof fn lemma_members_facts(comps: Seq<ImportedComponent>, parts: Seq<PartFact>, net: u128)
    requires
        comps.len() == parts.len(),
        forall|k: int| 0 <= k < parts.len() ==> component_is(#[trigger] comps[k], k, parts[k]),
    ensures
        members_on(comps, net) == fact_members(parts, net),
    decreases comps.len(),
{
    if comps.len() > 0 {
        let n = comps.len() - 1;
        assert forall|k: int| 0 <= k < n implies component_is(
            #[trigger] comps.drop_last()[k],
            k,
            parts.drop_last()[k],
        ) by {
            assert(component_is(comps[k], k, parts[k]));
        }
        lemma_members_facts(comps.drop_last(), parts.drop_last(), net);
        assert(component_is(comps[n], n, parts[n]));
        lemma_pins_on_facts(comps.last(), n, parts.last(), net, parts.last().pins.len());
        assert(comps.last().pins@.len() == parts.last().pins.len());
    }
}

/// The `k`-th footprint of an import as it landed: the imported component and its placement.
pub open spec fn part_landed(c: Component, p: Placement, k: int, f: PartFact) -> bool {
    let cid = EntityId((20_000 + k) as u128);
    &&& c.id == cid
    &&& c.refdes@ == f.refdes
    &&& c.class == f.class
    &&& c.value is None
    &&& c.from_block == EntityId(0)
    &&& c.origin == ComponentOrigin::Imported
    &&& p == (Placement {
        id: EntityId((40_000 + k) as u128),
        component: cid,
        x: length(f.x),
        y: length(f.y),
        width: length(f.width),
        height: length(f.height),
        side: f.side,
    })
}

/// The `j`-th pin of the `k`-th footprint as it landed: minted from its pad, on its component.
pub open spec fn pin_landed(p: Pin, k: int, j: int, f: PartFact) -> bool {
    &&& p.id == EntityId((30_000 + f.first_pin + j) as u128)
    &&& p.component == EntityId((20_000 + k) as u128)
    &&& p.designation@ == f.pins[j].designation
    &&& p.electrical_type == PinElectricalType::Passive
}

/// The design an import commits, as the facts read from the file describe it: the derived
/// board outline, each footprint as an imported component with its pins and placement, each kept net
/// as a physical net, each segment as a track, and no intent, requirement or block.
pub open spec fn imported_state(s: StateView, f: ImportFacts) -> bool {
    &&& s.board matches Some(b) && b.id == EntityId(1) && b.width == length(
        max_int(f.max_x + 5_000_000, 10_000_000),
    ) && b.height == length(max_int(f.max_y + 5_000_000, 10_000_000))
    &&& s.components.len() == f.parts.len()
    &&& s.placements.len() == f.parts.len()
    &&& forall|k: int|
        0 <= k < f.parts.len() ==> part_landed(#[trigger] s.components[k], s.placements[k], k, f.parts[k])
    &&& s.pins.len() == pin_total(f.parts)
    &&& forall|k: int, j: int|
        0 <= k < f.parts.len() && 0 <= j < f.parts[k].pins.len() ==> pin_landed(
            #[trigger] s.pins[f.parts[k].first_pin + j],
            k,
            j,
            f.parts[k],
        )
    &&& s.nets.len() == f.nets.len()
    &&& forall|k: int|
        0 <= k < f.nets.len() ==> {
            &&& (#[trigger] s.nets[k]).id == EntityId(f.nets[k].id)
            &&& s.nets[k].name@ == f.nets[k].name
            &&& s.nets[k].class == net_class_of(uppercased(f.nets[k].name))
            &&& s.nets[k].origin == NetOrigin::Physical
            &&& s.nets[k].members == fact_members(f.parts, f.nets[k].id)
        }
    &&& s.tracks == f.tracks
    &&& s.intent is None
    &&& s.requirements.len() == 0
    &&& s.functional_blocks.len() == 0
}

/// The events a list of imported parts commits: each component, its pins and its placement.
pub open spec fn part_events(parts: Seq<PartFact>) -> nat
    decreases parts.len(),
{
    if parts.len() == 0 {
        0
    } else {
        part_events(parts.drop_last()) + 2 + parts.last().pins.len()
    }
}

/// The number of events an import commits: the board, the parts, the nets and the tracks.
pub open spec fn import_events(f: ImportFacts) -> nat {
    1 + part_events(f.parts) + f.nets.len() + f.tracks.len()
}

/// The seam takes every request of an import: no track of the file lies on net index 0,
/// which the seam reads as no net at all.
pub open spec fn tracks_on_nets(f: ImportFacts) -> bool {
    forall|k: int| 0 <= k < f.tracks.len() ==> (#[trigger] f.tracks[k]).net.0 != 0
}

/// One more part adds its component, its placement and its pins.
proof fn lemma_part_events_step(parts: Seq<PartFact>, i: int)
    requires
        0 <= i < parts.len(),
    ensures
        part_events(parts.take(i + 1)) == part_events(parts.take(i)) + 2 + parts[i].pins.len(),
{
    assert(parts.take(i + 1).drop_last() =~= parts.take(i));
    assert(parts.take(i + 1).last() == parts[i]);
}

/// The parts so far commit no more events than all of them.
proof fn lemma_part_events_prefix(parts: Seq<PartFact>, i: int)
    requires
        0 <= i <= parts.len(),
    ensures
        part_events(parts.take(i)) <= part_events(parts),
    decreases parts.len() - i,
{
    if i < parts.len() {
        lemma_part_events_step(parts, i);
        lemma_part_events_prefix(parts, i + 1);
    } else {
        assert(parts.take(i) =~= parts);
    }
}

/// Every pin of the components is committed in `s`.
spec fn pins_held(s: StateView, comps: Seq<ImportedComponent>) -> bool {
    forall|q: int, j: int|
        0 <= q < comps.len() && 0 <= j < comps[q].pins@.len() ==> has_id(
            pin_ids(s),
            #[trigger] comps[q].pins@[j].id,
        )
}

/// Appending pins keeps every pin id and adds the new ones.
proof fn lemma_pin_ids_append(s: StateView, t: StateView, pins: Seq<Pin>)
    requires
        t.pins == s.pins + pins,
    ensures
        forall|id: EntityId| has_id(pin_ids(s), id) ==> #[trigger] has_id(pin_ids(t), id),
        forall|j: int| 0 <= j < pins.len() ==> has_id(pin_ids(t), #[trigger] pins[j].id),
{
    assert forall|id: EntityId| has_id(pin_ids(s), id) implies #[trigger] has_id(pin_ids(t), id) by {
        let w = choose|w: int| 0 <= w < pin_ids(s).len() && pin_ids(s)[w] == id;
        assert(pin_ids(t)[w] == id);
    }
    assert forall|j: int| 0 <= j < pins.len() implies has_id(pin_ids(t), #[trigger] pins[j].id) by {
        assert(pin_ids(t)[s.pins.len() + j] == pins[j].id);
    }
}

/// The pins of one component on a net are committed when all its pins are.
proof fn lemma_pins_on_held(c: ImportedComponent, net: u128, n: nat, s: StateView)
    requires
        n <= c.pins@.len(),
        forall|j: int| 0 <= j < c.pins@.len() ==> has_id(pin_ids(s), #[trigger] c.pins@[j].id),
    ensures
        forall|m: int|
            0 <= m < pins_on(c, net, n).len() ==> has_id(pin_ids(s), #[trigger] pins_on(c, net, n)[m]),
    decreases n,
{
    if n > 0 {
        lemma_pins_on_held(c, net, (n - 1) as nat, s);
        let prev = pins_on(c, net, (n - 1) as nat);
        assert forall|m: int| 0 <= m < pins_on(c, net, n).len() implies has_id(
            pin_ids(s),
            #[trigger] pins_on(c, net, n)[m],
        ) by {
            if m < prev.len() {
                assert(pins_on(c, net, n)[m] == prev[m]);
            } else {
                assert(pins_on(c, net, n)[m] == c.pins@[n - 1].id);
            }
        }
    }
}

/// The members of a net are committed when every pin of the components is.
proof fn lemma_members_held(comps: Seq<ImportedComponent>, net: u128, s: StateView)
    requires
        pins_held(s, comps),
    ensures
        forall|m: int|
            0 <= m < members_on(comps, net).len() ==> has_id(
                pin_ids(s),
                #[trigger] members_on(comps, net)[m],
            ),
    decreases comps.len(),
{
    if comps.len() > 0 {
        let n = comps.len() - 1;
        assert forall|q: int, j: int|
            0 <= q < comps.drop_last().len() && 0 <= j < comps.drop_last()[q].pins@.len()
                implies has_id(pin_ids(s), #[trigger] comps.drop_last()[q].pins@[j].id) by {
            assert(comps.drop_last()[q] == comps[q]);
            assert(has_id(pin_ids(s), comps[q].pins@[j].id));
        }
        lemma_members_held(comps.drop_last(), net, s);
        let c = comps.last();
        assert forall|j: int| 0 <= j < c.pins@.len() implies has_id(
            pin_ids(s),
            #[trigger] c.pins@[j].id,
        ) by {
            assert(has_id(pin_ids(s), comps[n].pins@[j].id));
        }
        lemma_pins_on_held(c, net, c.pins@.len(), s);
        let a = members_on(comps.drop_last(), net);
        let b = pins_on(c, net, c.pins@.len());
        assert forall|m: int| 0 <= m < members_on(comps, net).len() implies has_id(
            pin_ids(s),
            #[trigger] members_on(comps, net)[m],
        ) by {
            if m < a.len() {
                assert(members_on(comps, net)[m] == a[m]);
            } else {
                assert(members_on(comps, net)[m] == b[m - a.len()]);
            }
        }
    }
}

/// Ids that all lie in the pool leave none missing.
proof fn lemma_none_missing(ids: Seq<EntityId>, pool: Seq<EntityId>, i: nat)
    requires
        forall|m: int| 0 <= m < ids.len() ==> has_id(pool, #[trigger] ids[m]),
    ensures
        first_missing_from(ids, pool, i) is None,
    decreases ids.len() - i,
{
    if i < ids.len() {
        assert(has_id(pool, ids[i as int]));
        lemma_none_missing(ids, pool, i + 1);
    }
}

/// Feed an imported KiCad design through the real capability seam, in dependency order: the
/// board outline, then each footprint as a realized component with its pins and a placement,
/// then each net carrying the committed pins its pads declared, then each track. Any parse
/// failure or seam refusal is an import error; nothing reaches the state except through the
/// seam, so the imported design keeps referential integrity. Whatever parses is fit for the
/// seam, which refuses an import only for a track on net index 0 or a log with no room left.
pub fn import_design(kicad_src: &str) -> (r: Result<RuntimeCore, CliError>)
    ensures
        import_spec(kicad_src@) matches Err(e) ==> r matches Err(CliError::Import(m)) && m@
            == import_error_text(e),
        import_spec(kicad_src@) matches Ok(f) ==> (r is Ok <==> import_events(f) < u64::MAX
            && tracks_on_nets(f)),
        r matches Ok(core) ==> core.inv() && integrity(core.spec_state())
            && core.spec_autonomy() == Autonomy::Autonomous && import_spec(kicad_src@) is Ok
            && imported_state(core.spec_state(), import_spec(kicad_src@)->Ok_0)
            && core.spec_log().len() == import_events(import_spec(kicad_src@)->Ok_0),
        r is Err ==> r matches Err(CliError::Import(_)),
{
    let design = match import_kicad_pcb(kicad_src) {
        Ok(d) => d,
        Err(e) => {
            return Err(CliError::Import(e.message()));
        },
    };
    let ghost f = import_spec(kicad_src@)->Ok_0;
    let ghost dd = design;
    proof {
        lemma_import_facts_fit(kicad_src@);
        lemma_part_events_prefix(f.parts, 0);
    }
    assert(design_is(dd, f));
    assert(facts_fit(f));
    let ImportedDesign { board, nets, tracks, components, warnings: _ } = design;
    let mut core = RuntimeCore::new(Autonomy::Autonomous, 1);
    proof {
        lemma_empty_has_integrity();
    }
    let links: Vec<crate::domain::ProvenanceLink> = Vec::new();
    let ghost s0 = core.spec_state();
    assert(links@ =~= Seq::<crate::domain::ProvenanceLink>::empty());
    proof {
        reveal_with_fuel(crate::domain::LayerStack::layers_validity, 3);
        assert(board.stack.layers@ == crate::domain::standard_layers());
        assert(board.width.nano > 0 && board.height.nano > 0);
        assert(board.validity() is Ok);
        assert(decide(
            s0,
            Autonomy::Autonomous,
            CapabilityRequest::CreateBoard { board, links },
        ) is Ok);
    }
    match submit_import(&mut core, CapabilityRequest::CreateBoard { board, links }) {
        Ok(()) => {},
        Err(e) => {
            return Err(e);
        },
    }
    proof {
        lemma_fold_one(s0, Event::BoardCommitted { board: dd.board });
        assert(f.parts.take(0) =~= Seq::<PartFact>::empty());
        assert(dd.components@.take(0) =~= Seq::<ImportedComponent>::empty());
    }
    let mut i: usize = 0;
    while i < components.len()
        invariant
            core.inv(),
            integrity(core.spec_state()),
            core.spec_autonomy() == Autonomy::Autonomous,
            import_spec(kicad_src@) is Ok,
            f == import_spec(kicad_src@)->Ok_0,
            design_is(dd, f),
            facts_fit(f),
            components@ == dd.components@,
            i <= components.len(),
            core.spec_log().len() == 1 + part_events(f.parts.take(i as int)),
            core.spec_log().len() < u64::MAX,
            1 + part_events(f.parts) <= import_events(f),
            pins_held(core.spec_state(), dd.components@.take(i as int)),
            core.spec_state().pins.len() == pin_total(f.parts.take(i as int)),
            forall|q: int, j: int|
                0 <= q < i && 0 <= j < dd.components@[q].pins@.len() ==> #[trigger] core.spec_state().pins[f.parts[q].first_pin
                    + j] == dd.components@[q].pins@[j],
            core.spec_state().board == Some(dd.board@),
            core.spec_state().components.len() == i,
            core.spec_state().placements.len() == i,
            forall|k: int|
                0 <= k < i ==> #[trigger] core.spec_state().components[k] == dd.components@[k].component
                    && core.spec_state().placements[k] == dd.components@[k].placement,
            core.spec_state().nets.len() == 0,
            core.spec_state().tracks.len() == 0,
            core.spec_state().intent is None,
            core.spec_state().requirements.len() == 0,
            core.spec_state().functional_blocks.len() == 0,
        decreases components.len() - i,
    {
        let c = &components[i];
        let component = c.component.clone();
        let pins = copy_pins(&c.pins);
        let placement = c.placement;
        let ghost s1 = core.spec_state();
        let ghost l1 = core.spec_log().len();
        let no_links: Vec<crate::domain::ProvenanceLink> = Vec::new();
        assert(no_links@ =~= Seq::<crate::domain::ProvenanceLink>::empty());
        proof {
            assert(component_is(dd.components@[i as int], i as int, f.parts[i as int]));
            assert(part_fact_ok(f.parts[i as int]));
            lemma_part_events_step(f.parts, i as int);
            lemma_part_events_prefix(f.parts, i + 1);
            assert(decide(
                s1,
                Autonomy::Autonomous,
                CapabilityRequest::RealizeComponent { component, pins, links: no_links },
            ) is Ok);
        }
        match submit_import(
            &mut core,
            CapabilityRequest::RealizeComponent { component, pins, links: no_links },
        ) {
            Ok(()) => {},
            Err(e) => {
                return Err(e);
            },
        }
        proof {
            lemma_fold_component(s1, component, pins@);
        }
        let ghost s2 = core.spec_state();
        proof {
            lemma_pin_ids_append(s1, s2, pins@);
            let cs = dd.components@;
            assert forall|q: int, j: int|
                0 <= q < cs.take(i + 1).len() && 0 <= j < cs.take(i + 1)[q].pins@.len()
                    implies has_id(pin_ids(s2), #[trigger] cs.take(i + 1)[q].pins@[j].id) by {
                if q < i {
                    assert(cs.take(i + 1)[q] == cs.take(i as int)[q]);
                    assert(has_id(pin_ids(s1), cs.take(i as int)[q].pins@[j].id));
                } else {
                    assert(cs.take(i + 1)[q] == cs[i as int]);
                    assert(pins@[j] == cs[i as int].pins@[j]);
                }
            }
            assert(comp_ids(s2)[i as int] == placement.component);
            assert forall|k: int| 0 <= k < s2.placements.len() implies (
            #[trigger] s2.placements[k]).component != placement.component by {
                assert(component_is(cs[k], k, f.parts[k]));
            }
            assert(decide(
                s2,
                Autonomy::Autonomous,
                CapabilityRequest::PlaceComponent { placement, links: no_links },
            ) is Ok) by {
                assert(has_id(comp_ids(s2), placement.component));
            }
        }
        let no_links2: Vec<crate::domain::ProvenanceLink> = Vec::new();
        assert(no_links2@ =~= Seq::<crate::domain::ProvenanceLink>::empty());
        match submit_import(
            &mut core,
            CapabilityRequest::PlaceComponent { placement, links: no_links2 },
        ) {
            Ok(()) => {},
            Err(e) => {
                return Err(e);
            },
        }
        proof {
            lemma_fold_one(s2, Event::PlacementCommitted { placement });
            assert forall|k: int| 0 <= k < i + 1 implies #[trigger] core.spec_state().components[k]
                == dd.components@[k].component && core.spec_state().placements[k]
                == dd.components@[k].placement by {
                if k < i {
                    assert(core.spec_state().components[k] == s1.components[k]);
                }
            }
            assert(core.spec_state().pins == s2.pins);
            lemma_pin_total_step(f.parts, i as int);
            assert(pins_numbered(f.parts));
            assert(f.parts[i as int].first_pin == pin_total(f.parts.take(i as int)));
            assert forall|q: int, j: int|
                0 <= q < i + 1 && 0 <= j < dd.components@[q].pins@.len() implies #[trigger] s2.pins[f.parts[q].first_pin
                    + j] == dd.components@[q].pins@[j] by {
                assert(component_is(dd.components@[q], q, f.parts[q]));
                assert(f.parts[q].first_pin == pin_total(f.parts.take(q)));
                if q < i {
                    lemma_pin_total_step(f.parts, q);
                    lemma_pin_total_mono(f.parts, q + 1, i as int);
                    assert(s2.pins[f.parts[q].first_pin + j] == s1.pins[f.parts[q].first_pin + j]);
                } else {
                    assert(s2.pins[f.parts[q].first_pin + j] == pins@[j]);
                }
            }
        }
        i += 1;
    }
    proof {
        assert(dd.components@.take(i as int) =~= dd.components@);
        assert(f.parts.take(i as int) =~= f.parts);
    }
    let ghost pins_done = core.spec_state().pins;
    assert(pins_done.len() == pin_total(f.parts));
    assert(forall|q: int, j: int|
        0 <= q < dd.components@.len() && 0 <= j < dd.components@[q].pins@.len() ==> #[trigger] pins_done[f.parts[q].first_pin
            + j] == dd.components@[q].pins@[j]);
    let mut k: usize = 0;
    while k < nets.len()
        invariant
            core.inv(),
            integrity(core.spec_state()),
            core.spec_autonomy() == Autonomy::Autonomous,
            import_spec(kicad_src@) is Ok,
            f == import_spec(kicad_src@)->Ok_0,
            design_is(dd, f),
            facts_fit(f),
            nets@ == dd.nets@,
            components@ == dd.components@,
            k <= nets.len(),
            core.spec_log().len() == 1 + part_events(f.parts) + k,
            core.spec_log().len() < u64::MAX,
            core.spec_state().pins == pins_done,
            pins_held(core.spec_state(), dd.components@),
            core.spec_state().board == Some(dd.board@),
            core.spec_state().components.len() == dd.components@.len(),
            core.spec_state().placements.len() == dd.components@.len(),
            forall|q: int|
                0 <= q < dd.components@.len() ==> #[trigger] core.spec_state().components[q]
                    == dd.components@[q].component && core.spec_state().placements[q]
                    == dd.components@[q].placement,
            core.spec_state().nets.len() == k,
            forall|q: int|
                0 <= q < k ==> {
                    &&& (#[trigger] core.spec_state().nets[q]).id == dd.nets@[q].id
                    &&& core.spec_state().nets[q].name == dd.nets@[q].name
                    &&& core.spec_state().nets[q].class == dd.nets@[q].class
                    &&& core.spec_state().nets[q].origin == dd.nets@[q].origin
                    &&& core.spec_state().nets[q].members == members_on(dd.components@, dd.nets@[q].id.0)
                },
            core.spec_state().tracks.len() == 0,
            core.spec_state().intent is None,
            core.spec_state().requirements.len() == 0,
            core.spec_state().functional_blocks.len() == 0,
        decreases nets.len() - k,
    {
        let n = &nets[k];
        let members = collect_members(&components, n.id.0);
        let net = Net {
            id: n.id,
            name: n.name.clone(),
            class: n.class,
            members,
            current: n.current,
            impedance_target: n.impedance_target,
            origin: n.origin,
        };
        let ghost s1 = core.spec_state();
        let ghost nv = net;
        let no_links: Vec<crate::domain::ProvenanceLink> = Vec::new();
        assert(no_links@ =~= Seq::<crate::domain::ProvenanceLink>::empty());
        proof {
            assert(net_is(dd.nets@[k as int], f.nets[k as int]));
            assert(net_fact_ok(f.nets[k as int]));
            lemma_members_held(dd.components@, n.id.0, s1);
            lemma_none_missing(nv.members@, pin_ids(s1), 0);
            assert(decide(
                s1,
                Autonomy::Autonomous,
                CapabilityRequest::CreateNet { net: nv, links: no_links },
            ) is Ok);
        }
        match submit_import(&mut core, CapabilityRequest::CreateNet { net, links: no_links }) {
            Ok(()) => {},
            Err(e) => {
                return Err(e);
            },
        }
        proof {
            lemma_fold_one(s1, Event::NetCommitted { net: nv });
            assert forall|q: int| 0 <= q < k + 1 implies {
                &&& (#[trigger] core.spec_state().nets[q]).id == dd.nets@[q].id
                &&& core.spec_state().nets[q].name == dd.nets@[q].name
                &&& core.spec_state().nets[q].class == dd.nets@[q].class
                &&& core.spec_state().nets[q].origin == dd.nets@[q].origin
                &&& core.spec_state().nets[q].members == members_on(dd.components@, dd.nets@[q].id.0)
            } by {
                if q < k {
                    assert(core.spec_state().nets[q] == s1.nets[q]);
                }
            }
        }
        k += 1;
    }
    let mut t: usize = 0;
    while t < tracks.len()
        invariant
            core.inv(),
            integrity(core.spec_state()),
            core.spec_autonomy() == Autonomy::Autonomous,
            import_spec(kicad_src@) is Ok,
            f == import_spec(kicad_src@)->Ok_0,
            design_is(dd, f),
            facts_fit(f),
            tracks@ == dd.tracks@,
            t <= tracks.len(),
            core.spec_log().len() == 1 + part_events(f.parts) + f.nets.len() + t,
            core.spec_log().len() < u64::MAX,
            forall|q: int| 0 <= q < t ==> (#[trigger] f.tracks[q]).net.0 != 0,
            core.spec_state().pins == pins_done,
            core.spec_state().board == Some(dd.board@),
            core.spec_state().components.len() == dd.components@.len(),
            core.spec_state().placements.len() == dd.components@.len(),
            forall|q: int|
                0 <= q < dd.components@.len() ==> #[trigger] core.spec_state().components[q]
                    == dd.components@[q].component && core.spec_state().placements[q]
                    == dd.components@[q].placement,
            core.spec_state().nets.len() == dd.nets@.len(),
            forall|q: int|
                0 <= q < dd.nets@.len() ==> {
                    &&& (#[trigger] core.spec_state().nets[q]).id == dd.nets@[q].id
                    &&& core.spec_state().nets[q].name == dd.nets@[q].name
                    &&& core.spec_state().nets[q].class == dd.nets@[q].class
                    &&& core.spec_state().nets[q].origin == dd.nets@[q].origin
                    &&& core.spec_state().nets[q].members == members_on(dd.components@, dd.nets@[q].id.0)
                },
            core.spec_state().tracks == dd.tracks@.take(t as int),
            core.spec_state().intent is None,
            core.spec_state().requirements.len() == 0,
            core.spec_state().functional_blocks.len() == 0,
        decreases tracks.len() - t,
    {
        let track = tracks[t];
        let ghost s1 = core.spec_state();
        let no_links: Vec<crate::domain::ProvenanceLink> = Vec::new();
        assert(no_links@ =~= Seq::<crate::domain::ProvenanceLink>::empty());
        proof {
            assert(track_ok(f.tracks[t as int], t as int, kept_ids(f.nets)));
            let w = choose|w: int| 0 <= w < f.nets.len() && kept_ids(f.nets)[w] == track.net.0;
            assert(net_is(dd.nets@[w], f.nets[w]));
            assert(net_ids(s1)[w] == track.net);
            assert(has_id(net_ids(s1), track.net));
        }
        match submit_import(&mut core, CapabilityRequest::RouteNet { track, links: no_links }) {
            Ok(()) => {},
            Err(e) => {
                return Err(e);
            },
        }
        proof {
            lemma_fold_one(s1, Event::TrackCommitted { track });
            assert(dd.tracks@.take(t + 1) =~= dd.tracks@.take(t as int).push(track));
        }
        t += 1;
    }
    proof {
        assert(dd.tracks@.take(tracks.len() as int) =~= dd.tracks@);
        let st = core.spec_state();
        assert forall|q: int| 0 <= q < f.parts.len() implies part_landed(
            #[trigger] st.components[q],
            st.placements[q],
            q,
            f.parts[q],
        ) by {
            assert(component_is(dd.components@[q], q, f.parts[q]));
        }
        assert forall|q: int| 0 <= q < f.nets.len() implies {
            &&& (#[trigger] st.nets[q]).id == EntityId(f.nets[q].id)
            &&& st.nets[q].name@ == f.nets[q].name
            &&& st.nets[q].class == net_class_of(uppercased(f.nets[q].name))
            &&& st.nets[q].origin == NetOrigin::Physical
            &&& st.nets[q].members == fact_members(f.parts, f.nets[q].id)
        } by {
            assert(net_is(dd.nets@[q], f.nets[q]));
            lemma_members_facts(dd.components@, f.parts, f.nets[q].id);
        }
        assert(board_is(dd.board, f));
        assert forall|q: int, j: int|
            0 <= q < f.parts.len() && 0 <= j < f.parts[q].pins.len() implies pin_landed(
                #[trigger] st.pins[f.parts[q].first_pin + j],
                q,
                j,
                f.parts[q],
            ) by {
            assert(component_is(dd.components@[q], q, f.parts[q]));
            assert(pins_done[f.parts[q].first_pin + j] == dd.components@[q].pins@[j]);
        }
    }
    Ok(core)
}

/// The default fabrication floor, as lengths in the positional slots the geometry rules
/// read: 0 the minimum trace width, 1 the board-edge keep-out, 2 the minimum copper
/// clearance (IPC-2221 Class 2: 0.15 mm trace and space; 0.5 mm edge keep-out).
pub open spec fn default_floor() -> Seq<Quantity> {
    seq![
        Quantity::spec_mm_nm(150_000),
        Quantity::spec_mm_nm(500_000),
        Quantity::spec_mm_nm(150_000),
    ]
}

/// The default fabrication process-floor targets an imported board is seeded with.
pub fn default_fabrication_floor() -> (r: Vec<Quantity>)
    ensures
        r@ == default_floor(),
{
    let mut v: Vec<Quantity> = Vec::new();
    v.push(Quantity::length_nm(150_000));
    v.push(Quantity::length_nm(500_000));
    v.push(Quantity::length_nm(150_000));
    assert(v@ =~= default_floor());
    v
}

/// The request that installs the default floor on a board: an accepted Fabrication
/// requirement rooted in the board, its decision and IPC-2221 evidence, and the
/// justified-by / derived-from / supports provenance, all under ids minted from `n`.
pub open spec fn floor_request(req: CapabilityRequest, n: u128, board: EntityId) -> bool {
    let rid = EntityId(n);
    let did = EntityId((n + 1) as u128);
    let eid = EntityId((n + 2) as u128);
    match req {
        CapabilityRequest::CreateRequirement { requirement, decision, evidence, links } => {
        &&& requirement.id == rid
        &&& requirement.statement@
            == "Imported board defaults to the IPC-2221 Class 2 fabrication process floor"@
        &&& requirement.category == RequirementCategory::Fabrication
        &&& requirement.priority == Priority::High
        &&& requirement.acceptance_criterion@
            == "every trace >= 0.15 mm wide and every copper gap >= 0.15 mm"@
        &&& requirement.status == RequirementStatus::Accepted
        &&& requirement.source == board
        &&& requirement.targets@ == default_floor()
        &&& decision.id == did
        &&& decision.subject == rid
        &&& decision.rationale@
            == "No fab process was imported with the board; apply a conservative, overridable default floor so geometric DRC can run"@
        &&& decision.decider@ == "ImportDefaultFabFloor"@
        &&& decision.reasoning_call_seq is None
        &&& decision.evidence@ == seq![eid]
        &&& decision.confidence == PPM_ONE
        &&& evidence@.len() == 1
        &&& evidence@[0].id == eid
        &&& evidence@[0].kind == EvidenceKind::StandardClause
        &&& evidence@[0].content_reference@
            == "IPC-2221 generic design, Class 2 standard capability: 6 mil (0.15 mm) minimum trace width and copper spacing"@
        &&& evidence@[0].source@ == "IPC-2221"@
        &&& evidence@[0].reliability == PPM_ONE
        &&& links@ == seq![
            ProvenanceLink {
                id: EntityId((n + 3) as u128),
                from: rid,
                to: did,
                relation: RelationType::JustifiedBy,
            },
            ProvenanceLink {
                id: EntityId((n + 4) as u128),
                from: rid,
                to: board,
                relation: RelationType::DerivedFrom,
            },
            ProvenanceLink {
                id: EntityId((n + 5) as u128),
                from: did,
                to: eid,
                relation: RelationType::Supports,
            },
        ]
        },
        _ => false,
    }
}

/// Seed an imported design with the default fabrication floor through the real
/// `CreateRequirement` seam, rooted in the design's board, so the geometric rules have a floor
/// to check imported copper against. With no board there is nothing to check and nothing is
/// seeded. A refusal by the seam is returned as an import error carrying its reason.
pub fn seed_default_fabrication_floor(core: &mut RuntimeCore) -> (r: Result<(), CliError>)
    requires
        old(core).inv(),
        old(core).spec_next_id() + 6 < u128::MAX,
        old(core).spec_log().len() + 6 < u64::MAX,
    ensures
        final(core).inv(),
        final(core).spec_autonomy() == old(core).spec_autonomy(),
        old(core).spec_state().board is None ==> r is Ok && final(core).spec_state()
            == old(core).spec_state() && final(core).spec_log() == old(core).spec_log()
            && final(core).spec_next_id() == old(core).spec_next_id(),
        old(core).spec_state().board matches Some(b) ==> final(core).spec_next_id() == old(
            core,
        ).spec_next_id() + 6 && exists|req: CapabilityRequest|
            floor_request(req, old(core).spec_next_id(), b.id) && {
                let d = decide(old(core).spec_state(), old(core).spec_autonomy(), req);
                &&& (d is Ok <==> r is Ok)
                &&& d matches Err(text) ==> r matches Err(CliError::Import(m)) && m@
                    == "capability rejected: "@ + text
                &&& d matches Ok(events) ==> final(core).spec_state() == crate::state::fold_events(
                    old(core).spec_state(),
                    events,
                )
                &&& d is Err ==> final(core).spec_state() == old(core).spec_state()
                    && final(core).spec_log() == old(core).spec_log()
                &&& d matches Ok(events) ==> crate::state::log_events(final(core).spec_log())
                    == crate::state::log_events(old(core).spec_log()) + events
            },
{
    let source = match &core.current_state().board {
        Some(b) => b.id,
        None => {
            return Ok(());
        },
    };
    let rid = core.fresh_id();
    let did = core.fresh_id();
    let eid = core.fresh_id();
    let link_justified = core.fresh_id();
    let link_derived = core.fresh_id();
    let link_supports = core.fresh_id();
    let mut evidence_ids: Vec<EntityId> = Vec::new();
    evidence_ids.push(eid);
    let mut evidence: Vec<Evidence> = Vec::new();
    evidence.push(
        Evidence {
            id: eid,
            kind: EvidenceKind::StandardClause,
            content_reference: "IPC-2221 generic design, Class 2 standard capability: 6 mil (0.15 mm) minimum trace width and copper spacing".to_owned(),
            source: "IPC-2221".to_owned(),
            reliability: PPM_ONE,
        },
    );
    let mut links: Vec<ProvenanceLink> = Vec::new();
    links.push(
        ProvenanceLink { id: link_justified, from: rid, to: did, relation: RelationType::JustifiedBy },
    );
    links.push(
        ProvenanceLink { id: link_derived, from: rid, to: source, relation: RelationType::DerivedFrom },
    );
    links.push(
        ProvenanceLink { id: link_supports, from: did, to: eid, relation: RelationType::Supports },
    );
    assert(evidence_ids@ =~= seq![eid]);
    assert(links@ =~= seq![
        ProvenanceLink { id: link_justified, from: rid, to: did, relation: RelationType::JustifiedBy },
        ProvenanceLink { id: link_derived, from: rid, to: source, relation: RelationType::DerivedFrom },
        ProvenanceLink { id: link_supports, from: did, to: eid, relation: RelationType::Supports },
    ]);
    let request = CapabilityRequest::CreateRequirement {
        requirement: Requirement {
            id: rid,
            statement: "Imported board defaults to the IPC-2221 Class 2 fabrication process floor".to_owned(),
            category: RequirementCategory::Fabrication,
            priority: Priority::High,
            acceptance_criterion: "every trace >= 0.15 mm wide and every copper gap >= 0.15 mm".to_owned(),
            status: RequirementStatus::Accepted,
            source,
            targets: default_fabrication_floor(),
        },
        decision: Decision {
            id: did,
            subject: rid,
            rationale: "No fab process was imported with the board; apply a conservative, overridable default floor so geometric DRC can run".to_owned(),
            decider: "ImportDefaultFabFloor".to_owned(),
            reasoning_call_seq: None,
            evidence: evidence_ids,
            confidence: PPM_ONE,
        },
        evidence,
        links,
    };
    proof {
        assert(floor_request(request, rid.0, source));
    }
    let ghost mid = *core;
    let ghost req = request;
    let res = core.invoke(request);
    let r = match res {
        Ok(_) => Ok(()),
        Err(e) => Err(CliError::Import(e.message())),
    };
    proof {
        let d = decide(mid.spec_state(), mid.spec_autonomy(), req);
        assert(settled(mid, *core, d, res));
        assert(floor_request(req, old(core).spec_next_id(), source));
        assert(d is Ok <==> r is Ok);
        assert(mid.spec_state() == old(core).spec_state());
        assert(mid.spec_autonomy() == old(core).spec_autonomy());
        assert(d matches Err(text) ==> r matches Err(CliError::Import(m)) && m@ == "capability rejected: "@ + text);
        assert(d matches Ok(events) ==> core.spec_state() == crate::state::fold_events(old(core).spec_state(), events));
        assert(d is Err ==> core.spec_state() == old(core).spec_state());
        assert(mid.spec_log() == old(core).spec_log());
        assert(core.spec_next_id() == old(core).spec_next_id() + 6);
        assert(old(core).spec_state().board->0.id == source);
        assert(exists|q: CapabilityRequest|
            floor_request(q, old(core).spec_next_id(), source) && {
                let d = decide(old(core).spec_state(), old(core).spec_autonomy(), q);
                &&& (d is Ok <==> r is Ok)
                &&& d matches Err(text) ==> r matches Err(CliError::Import(m)) && m@
                    == "capability rejected: "@ + text
                &&& d matches Ok(events) ==> core.spec_state() == crate::state::fold_events(
                    old(core).spec_state(),
                    events,
                )
                &&& d is Err ==> core.spec_state() == old(core).spec_state()
                    && core.spec_log() == old(core).spec_log()
                &&& d matches Ok(events) ==> crate::state::log_events(core.spec_log())
                    == crate::state::log_events(old(core).spec_log()) + events
            });
    }
    r
}

/// A correctness loop-back: a failed `from` gate re-enters `to`, at most `max_retries` times.
#[derive(Debug)]
pub struct LoopBack {
    pub from: String,
    pub to: String,
    pub max_retries: u32,
}

/// A workflow plan: the phases in order, named, and the loop-back edges between them.
#[derive(Debug)]
pub struct WorkflowPlan {
    pub phases: Vec<String>,
    pub loopbacks: Vec<LoopBack>,
}

pub open spec fn phase_names(v: Seq<String>) -> Seq<Seq<char>> {
    v.map_values(|s: String| s@)
}

pub open spec fn loopback_views(v: Seq<LoopBack>) -> Seq<(Seq<char>, Seq<char>, u32)> {
    v.map_values(|l: LoopBack| (l.from@, l.to@, l.max_retries))
}

/// The default workflow's phases, in order.
pub open spec fn default_phases() -> Seq<Seq<char>> {
    seq![
        "RequirementPlanning"@,
        "EngineeringAnalysis"@,
        "ConstraintExtraction"@,
        "ConstraintVerification"@,
        "SchematicPlanning"@,
        "ErcVerification"@,
        "BomPlanning"@,
        "BomVerification"@,
        "PcbFloorPlanning"@,
        "ComponentPlacement"@,
        "RoutingPlanning"@,
        "DrcVerification"@,
        "DfmVerification"@,
        "EmcAnalysis"@,
        "ManufacturingGeneration"@,
    ]
}

/// The default workflow's correctness loops: each failed gate re-enters its canonical
/// producer, at most twice.
pub open spec fn default_loopbacks() -> Seq<(Seq<char>, Seq<char>, u32)> {
    seq![
        ("ConstraintVerification"@, "ConstraintExtraction"@, 2u32),
        ("ErcVerification"@, "SchematicPlanning"@, 2u32),
        ("BomVerification"@, "BomPlanning"@, 2u32),
        ("DrcVerification"@, "RoutingPlanning"@, 2u32),
        ("DfmVerification"@, "ComponentPlacement"@, 2u32),
        ("EmcAnalysis"@, "RoutingPlanning"@, 2u32),
    ]
}

/// The verify-only review's phases: the rule-check phases alone, in canonical order.
pub open spec fn verify_only_phases() -> Seq<Seq<char>> {
    seq![
        "ConstraintVerification"@,
        "ErcVerification"@,
        "BomVerification"@,
        "DrcVerification"@,
        "DfmVerification"@,
        "EmcAnalysis"@,
    ]
}

fn loop_back(from: &str, to: &str) -> (r: LoopBack)
    ensures
        r.from@ == from@,
        r.to@ == to@,
        r.max_retries == 2,
{
    LoopBack { from: from.to_owned(), to: to.to_owned(), max_retries: 2 }
}

/// The default design workflow: requirement planning through manufacturing generation, the
/// last phase being the global release gate, with six bounded correctness loops.
pub fn default_workflow() -> (r: WorkflowPlan)
    ensures
        phase_names(r.phases@) == default_phases(),
        loopback_views(r.loopbacks@) == default_loopbacks(),
{
    let mut phases: Vec<String> = Vec::new();
    phases.push("RequirementPlanning".to_owned());
    phases.push("EngineeringAnalysis".to_owned());
    phases.push("ConstraintExtraction".to_owned());
    phases.push("ConstraintVerification".to_owned());
    phases.push("SchematicPlanning".to_owned());
    phases.push("ErcVerification".to_owned());
    phases.push("BomPlanning".to_owned());
    phases.push("BomVerification".to_owned());
    phases.push("PcbFloorPlanning".to_owned());
    phases.push("ComponentPlacement".to_owned());
    phases.push("RoutingPlanning".to_owned());
    phases.push("DrcVerification".to_owned());
    phases.push("DfmVerification".to_owned());
    phases.push("EmcAnalysis".to_owned());
    phases.push("ManufacturingGeneration".to_owned());
    let mut loopbacks: Vec<LoopBack> = Vec::new();
    loopbacks.push(loop_back("ConstraintVerification", "ConstraintExtraction"));
    loopbacks.push(loop_back("ErcVerification", "SchematicPlanning"));
    loopbacks.push(loop_back("BomVerification", "BomPlanning"));
    loopbacks.push(loop_back("DrcVerification", "RoutingPlanning"));
    loopbacks.push(loop_back("DfmVerification", "ComponentPlacement"));
    loopbacks.push(loop_back("EmcAnalysis", "RoutingPlanning"));
    assert(phase_names(phases@) =~= default_phases());
    assert(loopback_views(loopbacks@) =~= default_loopbacks());
    WorkflowPlan { phases, loopbacks }
}

/// The verify-only review of an already populated design: the rule checks alone, no
/// synthesis, no loop-backs (a failed gate stops the review with its violation recorded).
pub fn verify_only_workflow() -> (r: WorkflowPlan)
    ensures
        phase_names(r.phases@) == verify_only_phases(),
        r.loopbacks@.len() == 0,
{
    let mut phases: Vec<String> = Vec::new();
    phases.push("ConstraintVerification".to_owned());
    phases.push("ErcVerification".to_owned());
    phases.push("BomVerification".to_owned());
    phases.push("DrcVerification".to_owned());
    phases.push("DfmVerification".to_owned());
    phases.push("EmcAnalysis".to_owned());
    assert(phase_names(phases@) =~= verify_only_phases());
    WorkflowPlan { phases, loopbacks: Vec::new() }
}

/// Which reasoning engine a run uses: the recorded cassette or the live model.
#[derive(Debug, Clone, Copy, PartialEq, Eq, Structural)]
pub enum ReasoningChoice {
    Fixture,
    Live,
}

/// How to run the default workflow. The cassette and the log are named by their paths.
#[derive(Debug, Clone)]
pub struct RunConfig {
    pub intent: String,
    pub reasoning: ReasoningChoice,
    pub cassette: Option<String>,
    pub log: String,
    pub model: String,
    pub seed: u64,
    /// Use a logical (counter) clock for a fully reproducible run.
    pub deterministic_clock: bool,
}

/// Open a run: a fresh autonomous kernel whose ids are minted from the configured seed, with
/// the engineer's intent captured as its first event.
pub fn start_run(cfg: &RunConfig) -> (r: RuntimeCore)
    ensures
        r.inv(),
        r.spec_autonomy() == Autonomy::Autonomous,
        r.spec_log().len() == 1,
        r.state_intent() matches Some(i) && i.id.0 == (if cfg.seed == 0 { 1 } else { cfg.seed as u128 })
            && i.statement@ == cfg.intent@ && i.structured_summary@ == cfg.intent@
            && i.source@ == "engineer"@,
        r.spec_state().requirements.len() == 0,
{
    let mut core = RuntimeCore::new(Autonomy::Autonomous, cfg.seed as u128);
    core.capture_intent(cfg.intent.as_str(), "engineer");
    core
}

} // verus!
