//! What an import reads is fit to commit: every kept net has a name, every track a positive
//! width on a kept net, every part a reference, pins and a positive courtyard.
use vstd::prelude::*;
use crate::decimal::{max_whole_mm, nm_per_mm};
use crate::kicad::{
    child_of, courtyard_default_nm, courtyard_from, courtyard_of, footprint_step,
    footprints_from, head_of, import_spec, kept_ids, lemma_ref_from_nonblank, num_arg,
    rect_extent, FpAcc, ImportFacts, PartFact, PinFact, WarningFact, pins_from, pad_designation,
    index_arg, max_int, board_is, component_is, design_is, length, net_class_of, net_is,
    uppercased, ImportedDesign,
};
use crate::roundtrip::{
    lemma_decimal_nm_bound, lemma_nets_from_ok, lemma_segments_from_ok, net_fact_ok, track_ok,
    tracks_max_x, tracks_max_y,
};
use crate::domain::{standard_layers, ComponentOrigin, EntityId, NetOrigin, Track};
use crate::sexp::SexpV;
use crate::text::spec_is_blank;

verus! {

/// The largest courtyard side an import can read, exclusive.
pub open spec fn max_extent() -> int {
    2 * (max_whole_mm() * nm_per_mm()) as int
}

/// A part an import keeps: a non-blank reference, at least one pin, and a courtyard of
/// positive extent within the readable range.
pub open spec fn part_fact_ok(p: PartFact) -> bool {
    &&& !spec_is_blank(p.refdes)
    &&& p.pins.len() > 0
    &&& 0 < p.width < max_extent()
    &&& 0 < p.height < max_extent()
}

/// The facts of an import are fit to commit: named nets, tracks an import keeps, parts an
/// import keeps with their pins numbered in order, and an extent in range.
pub open spec fn facts_fit(f: ImportFacts) -> bool {
    &&& forall|k: int| 0 <= k < f.nets.len() ==> net_fact_ok(#[trigger] f.nets[k])
    &&& forall|k: int|
        0 <= k < f.tracks.len() ==> track_ok(#[trigger] f.tracks[k], k, kept_ids(f.nets))
    &&& forall|k: int| 0 <= k < f.parts.len() ==> part_fact_ok(#[trigger] f.parts[k])
    &&& 0 <= f.max_x < max_extent()
    &&& 0 <= f.max_y < max_extent()
    &&& pins_numbered(f.parts)
}

/// The copper extent of tracks an import keeps lies in the readable range.
proof fn lemma_tracks_extent(ts: Seq<Track>, kept: Seq<u128>)
    requires
        forall|k: int| 0 <= k < ts.len() ==> track_ok(#[trigger] ts[k], k, kept),
    ensures
        0 <= tracks_max_x(ts) < max_whole_mm() * nm_per_mm(),
        0 <= tracks_max_y(ts) < max_whole_mm() * nm_per_mm(),
    decreases ts.len(),
{
    if ts.len() > 0 {
        let n = ts.len() - 1;
        assert forall|k: int| 0 <= k < n implies track_ok(#[trigger] ts.drop_last()[k], k, kept) by {
            assert(ts.drop_last()[k] == ts[k]);
            assert(track_ok(ts[k], k, kept));
        }
        lemma_tracks_extent(ts.drop_last(), kept);
        assert(track_ok(ts[n], n, kept));
    }
}

/// A number read from a keyed child lies in the readable range.
proof fn lemma_num_arg_bound(l: Seq<SexpV>, key: Seq<char>, k: int)
    ensures
        num_arg(l, key, k) matches Some(x) ==> -(max_whole_mm() * nm_per_mm()) < x < max_whole_mm()
            * nm_per_mm(),
{
    if num_arg(l, key, k) is Some {
        let c = child_of(l, key)->0;
        lemma_decimal_nm_bound(crate::kicad::atom_of(c, k + 1)->0);
    }
}

/// A courtyard read from a rectangle has positive sides in range.
proof fn lemma_courtyard_from_ok(fp: Seq<SexpV>, i: nat)
    ensures
        courtyard_from(fp, i) matches Some((w, h)) ==> 0 < w < max_extent() && 0 < h
            < max_extent(),
    decreases fp.len() - i,
{
    if i < fp.len() {
        match fp[i as int] {
            SexpV::List(inner) => {
                if head_of(inner) == Some("fp_rect"@) && rect_extent(inner) is Some {
                    lemma_num_arg_bound(inner, "start"@, 0);
                    lemma_num_arg_bound(inner, "start"@, 1);
                    lemma_num_arg_bound(inner, "end"@, 0);
                    lemma_num_arg_bound(inner, "end"@, 1);
                } else {
                    lemma_courtyard_from_ok(fp, i + 1);
                }
            },
            SexpV::Atom(_) => {
                lemma_courtyard_from_ok(fp, i + 1);
            },
        }
    }
}

/// Every part the footprint pass keeps is a part an import keeps.
proof fn lemma_footprints_from_ok(items: Seq<SexpV>, i: nat, kept: Seq<u128>, acc: FpAcc)
    requires
        forall|k: int| 0 <= k < acc.parts.len() ==> part_fact_ok(#[trigger] acc.parts[k]),
        0 <= acc.max_x < max_extent(),
        0 <= acc.max_y < max_extent(),
    ensures
        footprints_from(items, i, kept, acc) matches Ok(r) ==> (forall|k: int|
            0 <= k < r.parts.len() ==> part_fact_ok(#[trigger] r.parts[k])) && 0 <= r.max_x
            < max_extent() && 0 <= r.max_y < max_extent(),
    decreases items.len() - i,
{
    if i < items.len() {
        match items[i as int] {
            SexpV::List(l) => {
                if head_of(l) == Some("footprint"@) || head_of(l) == Some("module"@) {
                    match footprint_step(l, kept, acc) {
                        Ok(next) => {
                            lemma_ref_from_nonblank(l, "fp_text"@, "reference"@, 0);
                            lemma_ref_from_nonblank(l, "property"@, "Reference"@, 0);
                            lemma_courtyard_from_ok(l, 0);
                            lemma_num_arg_bound(l, "at"@, 0);
                            lemma_num_arg_bound(l, "at"@, 1);
                            if next.parts.len() > acc.parts.len() {
                                let p = next.parts.last();
                                let (cw, ch) = courtyard_of(l, p.class);
                                assert(courtyard_default_nm(p.class) > 0);
                                assert(next.parts == acc.parts.push(p));
                                assert forall|k: int| 0 <= k < next.parts.len() implies part_fact_ok(
                                    #[trigger] next.parts[k],
                                ) by {
                                    if k < acc.parts.len() {
                                        assert(next.parts[k] == acc.parts[k]);
                                    }
                                }
                            } else {
                                assert(next.parts == acc.parts);
                            }
                            lemma_footprints_from_ok(items, i + 1, kept, next);
                        },
                        Err(_) => {},
                    }
                } else {
                    lemma_footprints_from_ok(items, i + 1, kept, acc);
                }
            },
            SexpV::Atom(_) => {
                lemma_footprints_from_ok(items, i + 1, kept, acc);
            },
        }
    }
}

/// How many pins the parts carry in all.
pub open spec fn pin_total(parts: Seq<PartFact>) -> nat
    decreases parts.len(),
{
    if parts.len() == 0 {
        0
    } else {
        pin_total(parts.drop_last()) + parts.last().pins.len()
    }
}

/// Each part's pins are numbered on from those of the parts before it.
pub open spec fn pins_numbered(parts: Seq<PartFact>) -> bool {
    forall|k: int| 0 <= k < parts.len() ==> (#[trigger] parts[k]).first_pin == pin_total(parts.take(k))
}

pub proof fn lemma_pin_total_step(parts: Seq<PartFact>, i: int)
    requires
        0 <= i < parts.len(),
    ensures
        pin_total(parts.take(i + 1)) == pin_total(parts.take(i)) + parts[i].pins.len(),
{
    assert(parts.take(i + 1).drop_last() =~= parts.take(i));
}

pub proof fn lemma_pin_total_mono(parts: Seq<PartFact>, a: int, b: int)
    requires
        0 <= a <= b <= parts.len(),
    ensures
        pin_total(parts.take(a)) <= pin_total(parts.take(b)),
    decreases b - a,
{
    if a < b {
        lemma_pin_total_step(parts, b - 1);
        lemma_pin_total_mono(parts, a, b - 1);
    }
}

/// The footprint pass numbers each part's pins on from those before it.
proof fn lemma_footprints_numbered(items: Seq<SexpV>, i: nat, kept: Seq<u128>, acc: FpAcc)
    requires
        acc.pin_count == pin_total(acc.parts),
        pins_numbered(acc.parts),
    ensures
        footprints_from(items, i, kept, acc) matches Ok(r) ==> pins_numbered(r.parts),
    decreases items.len() - i,
{
    if i < items.len() {
        match items[i as int] {
            SexpV::List(l) => {
                if head_of(l) == Some("footprint"@) || head_of(l) == Some("module"@) {
                    match footprint_step(l, kept, acc) {
                        Ok(next) => {
                            if next.parts.len() > acc.parts.len() {
                                let p = next.parts.last();
                                assert(next.parts == acc.parts.push(p));
                                assert(next.parts.drop_last() =~= acc.parts);
                                assert forall|k: int| 0 <= k < next.parts.len() implies (
                                #[trigger] next.parts[k]).first_pin == pin_total(next.parts.take(k)) by {
                                    if k < acc.parts.len() {
                                        assert(next.parts.take(k) =~= acc.parts.take(k));
                                    } else {
                                        assert(next.parts.take(k) =~= acc.parts);
                                    }
                                }
                            } else {
                                assert(next.parts == acc.parts);
                            }
                            lemma_footprints_numbered(items, i + 1, kept, next);
                        },
                        Err(_) => {},
                    }
                } else {
                    lemma_footprints_numbered(items, i + 1, kept, acc);
                }
            },
            SexpV::Atom(_) => {
                lemma_footprints_numbered(items, i + 1, kept, acc);
            },
        }
    }
}

/// Whatever an import reads from a document is fit to commit.
pub proof fn lemma_import_facts_fit(src: Seq<char>)
    ensures
        import_spec(src) matches Ok(f) ==> facts_fit(f),
{
    if import_spec(src) is Ok {
        let f = import_spec(src)->Ok_0;
        let root = crate::sexp::parse_node_spec(src, 0, 0)->Node_0;
        let items = root->List_0;
        lemma_nets_from_ok(items, 0, Seq::empty());
        let nets = f.nets;
        let sacc = crate::kicad::SegAcc {
            tracks: Seq::empty(),
            warnings: Seq::empty(),
            max_x: 0,
            max_y: 0,
        };
        lemma_segments_from_ok(items, 0, kept_ids(nets), sacc);
        let sa = crate::kicad::segments_from(items, 0, kept_ids(nets), sacc)->Ok_0;
        lemma_tracks_extent(sa.tracks, kept_ids(nets));
        let facc = FpAcc {
            parts: Seq::empty(),
            warnings: sa.warnings,
            max_x: sa.max_x,
            max_y: sa.max_y,
            pin_count: 0,
        };
        lemma_footprints_from_ok(items, 0, kept_ids(nets), facc);
        lemma_footprints_numbered(items, 0, kept_ids(nets), facc);
    }
}


/// Every pad net a part's pins keep is one of the kept nets.
pub open spec fn pins_on_kept(pins: Seq<PinFact>, kept: Seq<u128>) -> bool {
    forall|j: int| 0 <= j < pins.len() ==> ((#[trigger] pins[j]).net matches Some(k) ==> kept.contains(k))
}

proof fn lemma_pins_from_kept(
    fp: Seq<SexpV>,
    i: nat,
    kept: Seq<u128>,
    refdes: Seq<char>,
    pins: Seq<PinFact>,
    warns: Seq<WarningFact>,
)
    requires
        pins_on_kept(pins, kept),
    ensures
        pins_on_kept(pins_from(fp, i, kept, refdes, pins, warns).0, kept),
    decreases fp.len() - i,
{
    if i < fp.len() {
        match fp[i as int] {
            SexpV::List(pad) => {
                if head_of(pad) == Some("pad"@) {
                    let name = pad_designation(pad, pins.len());
                    let np = match index_arg(pad, "net"@, 0) {
                        Some(idx) => if kept.contains(idx) {
                            pins.push(PinFact { designation: name, net: Some(idx) })
                        } else {
                            pins.push(PinFact { designation: name, net: None })
                        },
                        None => pins.push(PinFact { designation: name, net: None }),
                    };
                    assert forall|j: int| 0 <= j < np.len() implies ((#[trigger] np[j]).net matches Some(
                        k,
                    ) ==> kept.contains(k)) by {
                        if j < pins.len() {
                            assert(np[j] == pins[j]);
                        }
                    }
                    let nw = match index_arg(pad, "net"@, 0) {
                        Some(idx) => if !kept.contains(idx) && idx != 0 {
                            warns.push(WarningFact::PadUnknownNet(refdes, name, idx))
                        } else {
                            warns
                        },
                        None => warns,
                    };
                    lemma_pins_from_kept(fp, i + 1, kept, refdes, np, nw);
                } else {
                    lemma_pins_from_kept(fp, i + 1, kept, refdes, pins, warns);
                }
            },
            SexpV::Atom(_) => {
                lemma_pins_from_kept(fp, i + 1, kept, refdes, pins, warns);
            },
        }
    }
}

/// The right-most extent of parts over a base: each part reaches half its courtyard past its
/// position.
pub open spec fn parts_extent_x(parts: Seq<PartFact>, base: int) -> int
    decreases parts.len(),
{
    if parts.len() == 0 {
        base
    } else {
        max_int(parts_extent_x(parts.drop_last(), base), parts.last().x + parts.last().width / 2)
    }
}

/// The lowest extent of parts over a base.
pub open spec fn parts_extent_y(parts: Seq<PartFact>, base: int) -> int
    decreases parts.len(),
{
    if parts.len() == 0 {
        base
    } else {
        max_int(parts_extent_y(parts.drop_last(), base), parts.last().y + parts.last().height / 2)
    }
}

/// The footprint pass keeps only kept pad nets, and grows the extent by each part it keeps.
proof fn lemma_footprints_shape(items: Seq<SexpV>, i: nat, kept: Seq<u128>, acc: FpAcc, bx: int, by_: int)
    requires
        acc.max_x == parts_extent_x(acc.parts, bx),
        acc.max_y == parts_extent_y(acc.parts, by_),
        forall|k: int| 0 <= k < acc.parts.len() ==> pins_on_kept((#[trigger] acc.parts[k]).pins, kept),
    ensures
        footprints_from(items, i, kept, acc) matches Ok(r) ==> r.max_x == parts_extent_x(r.parts, bx)
            && r.max_y == parts_extent_y(r.parts, by_) && forall|k: int|
            0 <= k < r.parts.len() ==> pins_on_kept((#[trigger] r.parts[k]).pins, kept),
    decreases items.len() - i,
{
    if i < items.len() {
        match items[i as int] {
            SexpV::List(l) => {
                if head_of(l) == Some("footprint"@) || head_of(l) == Some("module"@) {
                    match footprint_step(l, kept, acc) {
                        Ok(next) => {
                            if next.parts.len() > acc.parts.len() {
                                let p = next.parts.last();
                                let refdes = p.refdes;
                                lemma_pins_from_kept(l, 0, kept, refdes, Seq::empty(), acc.warnings);
                                assert(next.parts == acc.parts.push(p));
                                assert(next.parts.drop_last() =~= acc.parts);
                                assert forall|k: int| 0 <= k < next.parts.len() implies pins_on_kept(
                                    (#[trigger] next.parts[k]).pins,
                                    kept,
                                ) by {
                                    if k < acc.parts.len() {
                                        assert(next.parts[k] == acc.parts[k]);
                                    }
                                }
                            } else {
                                assert(next.parts == acc.parts);
                            }
                            lemma_footprints_shape(items, i + 1, kept, next, bx, by_);
                        },
                        Err(_) => {},
                    }
                } else {
                    lemma_footprints_shape(items, i + 1, kept, acc, bx, by_);
                }
            },
            SexpV::Atom(_) => {
                lemma_footprints_shape(items, i + 1, kept, acc, bx, by_);
            },
        }
    }
}

/// The shape of every import, from the facts it reads: each kept net named; each track on a
/// kept net with a positive width and the next track id; each part with a reference, pins
/// numbered in order whose pad nets are kept nets; and the extent the outline is sized to is
/// the furthest reach of the tracks' end points and the parts' courtyards, from the origin.
pub proof fn lemma_import_shape(src: Seq<char>)
    ensures
        import_spec(src) matches Ok(f) ==> {
            &&& forall|k: int| 0 <= k < f.nets.len() ==> !spec_is_blank((#[trigger] f.nets[k]).name)
            &&& forall|k: int|
                0 <= k < f.tracks.len() ==> kept_ids(f.nets).contains((#[trigger] f.tracks[k]).net.0)
                    && f.tracks[k].width.nano > 0 && f.tracks[k].id == EntityId(
                    (10_000 + k) as u128,
                )
            &&& forall|k: int|
                0 <= k < f.parts.len() ==> !spec_is_blank((#[trigger] f.parts[k]).refdes)
                    && f.parts[k].pins.len() > 0 && pins_on_kept(f.parts[k].pins, kept_ids(f.nets))
            &&& pins_numbered(f.parts)
            &&& f.max_x == parts_extent_x(f.parts, tracks_max_x(f.tracks))
            &&& f.max_y == parts_extent_y(f.parts, tracks_max_y(f.tracks))
        },
{
    lemma_import_facts_fit(src);
    if import_spec(src) is Ok {
        let f = import_spec(src)->Ok_0;
        let items = crate::sexp::parse_node_spec(src, 0, 0)->Node_0->List_0;
        let kept = kept_ids(f.nets);
        let sacc = crate::kicad::SegAcc {
            tracks: Seq::empty(),
            warnings: Seq::empty(),
            max_x: 0,
            max_y: 0,
        };
        lemma_segments_from_ok(items, 0, kept, sacc);
        let sa = crate::kicad::segments_from(items, 0, kept, sacc)->Ok_0;
        let facc = FpAcc {
            parts: Seq::empty(),
            warnings: sa.warnings,
            max_x: sa.max_x,
            max_y: sa.max_y,
            pin_count: 0,
        };
        lemma_footprints_shape(items, 0, kept, facc, sa.max_x, sa.max_y);
        assert forall|k: int| 0 <= k < f.parts.len() implies !spec_is_blank((#[trigger] f.parts[k]).refdes)
            && f.parts[k].pins.len() > 0 by {
            assert(part_fact_ok(f.parts[k]));
        }
        assert forall|k: int|
            0 <= k < f.tracks.len() implies kept.contains((#[trigger] f.tracks[k]).net.0)
                && f.tracks[k].width.nano > 0 && f.tracks[k].id == EntityId((10_000 + k) as u128) by {
            assert(track_ok(f.tracks[k], k, kept));
        }
        assert forall|k: int| 0 <= k < f.nets.len() implies !spec_is_blank((#[trigger] f.nets[k]).name) by {
            assert(net_fact_ok(f.nets[k]));
        }
    }
}


/// The shape of every imported design: each net named, physical, with no members and no
/// electrical targets, classed by its upper-cased name; each track on an imported net, with a
/// positive width and the next track id; each component imported, numbered in order, with a
/// reference, pins of its own and a placement of its own, its pad nets among the imported
/// nets; and a valid standard two-layer outline of id 1 sized to the furthest reach of the
/// tracks and the parts' courtyards plus 5 mm, never under 10 mm.
#[verifier::rlimit(60)]
#[verifier::spinoff_prover]
pub proof fn lemma_imported_design_shape(src: Seq<char>, d: ImportedDesign)
    requires
        import_spec(src) is Ok,
        design_is(d, import_spec(src)->Ok_0),
    ensures
        forall|k: int|
            0 <= k < d.nets@.len() ==> {
                let n = #[trigger] d.nets@[k];
                &&& !spec_is_blank(n.name@)
                &&& n.origin == NetOrigin::Physical
                &&& n.members@.len() == 0
                &&& n.current is None
                &&& n.impedance_target is None
                &&& n.class == net_class_of(uppercased(n.name@))
            },
        forall|j: int|
            0 <= j < d.tracks@.len() ==> {
                let t = #[trigger] d.tracks@[j];
                &&& exists|q: int| 0 <= q < d.nets@.len() && (#[trigger] d.nets@[q]).id == t.net
                &&& t.validity() is Ok
                &&& t.id == EntityId((10_000 + j) as u128)
            },
        forall|i: int|
            0 <= i < d.components@.len() ==> {
                let c = #[trigger] d.components@[i];
                let cid = EntityId((20_000 + i) as u128);
                &&& c.component.id == cid
                &&& c.component.origin == ComponentOrigin::Imported
                &&& c.component.from_block == EntityId(0)
                &&& !spec_is_blank(c.component.refdes@)
                &&& c.pins@.len() > 0
                &&& forall|j: int| 0 <= j < c.pins@.len() ==> (#[trigger] c.pins@[j]).component == cid
                &&& c.pin_nets@.len() == c.pins@.len()
                &&& forall|j: int|
                    0 <= j < c.pin_nets@.len() ==> ((#[trigger] c.pin_nets@[j]) matches Some(x) ==> exists|
                        q: int,
                    | 0 <= q < d.nets@.len() && (#[trigger] d.nets@[q]).id == EntityId(x))
                &&& c.placement.id == EntityId((40_000 + i) as u128)
                &&& c.placement.component == cid
            },
        d.board.id == EntityId(1),
        d.board.stack.layers@ == standard_layers(),
        d.board.validity() is Ok,
        d.board.width == length(
            max_int(
                parts_extent_x(import_spec(src)->Ok_0.parts, tracks_max_x(d.tracks@)) + 5_000_000,
                10_000_000,
            ),
        ),
        d.board.height == length(
            max_int(
                parts_extent_y(import_spec(src)->Ok_0.parts, tracks_max_y(d.tracks@)) + 5_000_000,
                10_000_000,
            ),
        ),
{
    let f = import_spec(src)->Ok_0;
    lemma_import_shape(src);
    lemma_import_facts_fit(src);
    let kept = kept_ids(f.nets);
    assert forall|k: int| 0 <= k < d.nets@.len() implies {
        let n = #[trigger] d.nets@[k];
        &&& !spec_is_blank(n.name@)
        &&& n.origin == NetOrigin::Physical
        &&& n.members@.len() == 0
        &&& n.current is None
        &&& n.impedance_target is None
        &&& n.class == net_class_of(uppercased(n.name@))
    } by {
        assert(net_is(d.nets@[k], f.nets[k]));
        assert(!spec_is_blank(f.nets[k].name));
    }
    assert forall|j: int| 0 <= j < d.tracks@.len() implies {
        let t = #[trigger] d.tracks@[j];
        &&& exists|q: int| 0 <= q < d.nets@.len() && (#[trigger] d.nets@[q]).id == t.net
        &&& t.validity() is Ok
        &&& t.id == EntityId((10_000 + j) as u128)
    } by {
        let t = d.tracks@[j];
        assert(t == f.tracks[j]);
        assert(kept.contains(t.net.0));
        let q = choose|q: int| 0 <= q < kept.len() && kept[q] == t.net.0;
        assert(net_is(d.nets@[q], f.nets[q]));
        assert(d.nets@[q].id == t.net);
    }
    assert forall|i: int| 0 <= i < d.components@.len() implies {
        let c = #[trigger] d.components@[i];
        let cid = EntityId((20_000 + i) as u128);
        &&& c.component.id == cid
        &&& c.component.origin == ComponentOrigin::Imported
        &&& c.component.from_block == EntityId(0)
        &&& !spec_is_blank(c.component.refdes@)
        &&& c.pins@.len() > 0
        &&& forall|j: int| 0 <= j < c.pins@.len() ==> (#[trigger] c.pins@[j]).component == cid
        &&& c.pin_nets@.len() == c.pins@.len()
        &&& forall|j: int|
            0 <= j < c.pin_nets@.len() ==> ((#[trigger] c.pin_nets@[j]) matches Some(x) ==> exists|
                q: int,
            | 0 <= q < d.nets@.len() && (#[trigger] d.nets@[q]).id == EntityId(x))
        &&& c.placement.id == EntityId((40_000 + i) as u128)
        &&& c.placement.component == cid
    } by {
        let c = d.components@[i];
        let p = f.parts[i];
        assert(component_is(c, i, p));
        assert(part_fact_ok(p));
        assert(pins_on_kept(p.pins, kept));
        assert forall|j: int| 0 <= j < c.pin_nets@.len() implies ((#[trigger] c.pin_nets@[j]) matches Some(
            x,
        ) ==> exists|q: int| 0 <= q < d.nets@.len() && (#[trigger] d.nets@[q]).id == EntityId(x)) by {
            if let Some(x) = c.pin_nets@[j] {
                assert(c.pins@[j].component == EntityId((20_000 + i) as u128));
                assert(c.pin_nets@[j] == p.pins[j].net);
                assert(kept.contains(x));
                let q = choose|q: int| 0 <= q < kept.len() && kept[q] == x;
                assert(net_is(d.nets@[q], f.nets[q]));
                assert(d.nets@[q].id == EntityId(x));
            }
        }
    }
    assert(board_is(d.board, f));
    reveal_with_fuel(crate::domain::LayerStack::layers_validity, 3);
}

} // verus!
