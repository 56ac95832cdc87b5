//! Export then import: the document an export lays out is one the reader reads back, and a
//! copper-only board re-imports as the nets, tracks and outline it was exported from.
use vstd::prelude::*;
use crate::decimal::{
    all_digits, decimal_digits, decimal_index, decimal_nm, digits_value, dot_from, is_digit,
    lemma_digits_bound, max_whole_mm, nm_per_mm, pow10, unsigned_part,
};
use crate::export::{
    edge_doc, edge_elems, export_doc, export_text, group2, group3, header_elems, layer_table,
    lemma_decimal_digits_read, lemma_mm_text_reads_back, lemma_padded_read, lemma_pow10_positive, lemma_trim_zeros_read,
    layer_token_spec, mm_text, net_doc,
    net_elems, padded, seg_elems, segment_doc, trim_zeros,
};
use crate::domain::{
    standard_layers, BoardSide, Dimension, EntityId, Net, NetOrigin, Quantity, Track,
};
use crate::kicad::{
    atom_of, child_from, child_of, head_of, index_arg, index_at, is_node, layer_or_front, length,
    design_is, footprint_step, footprints_from, import_spec, kept_ids, max_int, net_is, nets_from,
    num_arg, segment_step, segments_from, side_of, FpAcc, ImportErrorV, ImportedDesign, NetFact,
    SegAcc, net_class_of, uppercased,
};
use crate::layout::{
    all_ws, bare_ok, doc_ok, doc_value, elem_values, elems_height, elems_ok, height,
    lemma_doc_reads, lemma_elems_height_bound, lemma_elems_ok_sep, render, sep_ok, Doc,
};
use crate::sexp::{is_delim, parse_node_spec, Parsed, SexpV};
use crate::text::{occurs_at, spec_is_blank, spec_is_whitespace};

verus! {

/// A digit is no delimiter and no quote.
proof fn lemma_digit_plain(c: char)
    requires
        is_digit(c),
    ensures
        !is_delim(c) && c != '"',
{
}

pub proof fn lemma_digits_bare(n: nat)
    ensures
        bare_ok(decimal_digits(n)),
{
    lemma_decimal_digits_read(n);
    let s = decimal_digits(n);
    assert forall|i: int| 0 <= i < s.len() implies !is_delim(#[trigger] s[i]) && s[i] != '"' by {
        lemma_digit_plain(s[i]);
    }
}


/// Characters of numbers, names and layer tokens written bare.
pub open spec fn plain_char(c: char) -> bool {
    ('a' <= c && c <= 'z') || ('0' <= c && c <= '9') || c == '_' || c == '.' || c == '-'
}

pub proof fn lemma_plain_bare(s: Seq<char>)
    requires
        s.len() > 0,
        forall|i: int| 0 <= i < s.len() ==> plain_char(#[trigger] s[i]),
    ensures
        bare_ok(s),
{
    assert forall|i: int| 0 <= i < s.len() implies !is_delim(#[trigger] s[i]) && s[i] != '"' by {
        assert(plain_char(s[i]));
    }
}

proof fn lemma_word_bare(s: Seq<char>)
    requires
        s.len() > 0,
        forall|i: int| 0 <= i < s.len() ==> ('a' <= #[trigger] s[i] && s[i] <= 'z') || s[i] == '_',
    ensures
        bare_ok(s),
{
    assert forall|i: int| 0 <= i < s.len() implies plain_char(#[trigger] s[i]) by {
        assert(('a' <= s[i] && s[i] <= 'z') || s[i] == '_');
    }
    lemma_plain_bare(s);
}

/// Every word the export writes bare is a bare atom.
pub proof fn lemma_words_bare()
    ensures
        bare_ok("kicad_pcb"@),
        bare_ok("version"@),
        bare_ok("20221018"@),
        bare_ok("generator"@),
        bare_ok("layers"@),
        bare_ok("0"@),
        bare_ok("signal"@),
        bare_ok("31"@),
        bare_ok("44"@),
        bare_ok("user"@),
        bare_ok("net"@),
        bare_ok("gr_line"@),
        bare_ok("start"@),
        bare_ok("end"@),
        bare_ok("layer"@),
        bare_ok("width"@),
        bare_ok("0.1"@),
        bare_ok("segment"@),
{
    reveal_strlit("kicad_pcb");
    reveal_strlit("version");
    reveal_strlit("20221018");
    reveal_strlit("generator");
    reveal_strlit("layers");
    reveal_strlit("0");
    reveal_strlit("signal");
    reveal_strlit("31");
    reveal_strlit("44");
    reveal_strlit("user");
    reveal_strlit("net");
    reveal_strlit("gr_line");
    reveal_strlit("start");
    reveal_strlit("end");
    reveal_strlit("layer");
    reveal_strlit("width");
    reveal_strlit("0.1");
    reveal_strlit("segment");
    lemma_word_bare("kicad_pcb"@);
    lemma_word_bare("version"@);
    lemma_plain_bare("20221018"@);
    lemma_word_bare("generator"@);
    lemma_word_bare("layers"@);
    lemma_plain_bare("0"@);
    lemma_word_bare("signal"@);
    lemma_plain_bare("31"@);
    lemma_plain_bare("44"@);
    lemma_word_bare("user"@);
    lemma_word_bare("net"@);
    lemma_word_bare("gr_line"@);
    lemma_word_bare("start"@);
    lemma_word_bare("end"@);
    lemma_word_bare("layer"@);
    lemma_word_bare("width"@);
    lemma_plain_bare("0.1"@);
    lemma_word_bare("segment"@);
}

/// A length's millimetre text is a bare atom.
pub proof fn lemma_mm_bare(nm: int)
    ensures
        bare_ok(mm_text(nm)),
{
    reveal_strlit("0");
    reveal_strlit("-");
    reveal_strlit(".");
    let a: int = if nm < 0 { -nm } else { nm };
    let w = a / 1_000_000;
    let f = a % 1_000_000;
    lemma_decimal_digits_read(w as nat);
    let dd = decimal_digits(w as nat);
    let sign = if nm < 0 { "-"@ } else { Seq::<char>::empty() };
    if f == 0 {
        if w == 0 {
            lemma_plain_bare("0"@);
        } else {
            let t = sign + dd;
            assert forall|i: int| 0 <= i < t.len() implies plain_char(#[trigger] t[i]) by {
                if i >= sign.len() {
                    assert(t[i] == dd[i - sign.len()]);
                    assert(is_digit(dd[i - sign.len()]));
                }
            }
            assert(mm_text(nm) == t);
            lemma_plain_bare(t);
        }
    } else {
        lemma_padded_read(f as nat, 6);
        lemma_trim_zeros_read(padded(f as nat, 6));
        let tz = trim_zeros(padded(f as nat, 6));
        let t = sign + dd + "."@ + tz;
        assert forall|i: int| 0 <= i < t.len() implies plain_char(#[trigger] t[i]) by {
            let k = i - sign.len();
            if i >= sign.len() {
                if k < dd.len() {
                    assert(t[i] == dd[k]);
                    assert(is_digit(dd[k]));
                } else if k > dd.len() {
                    assert(t[i] == tz[k - dd.len() - 1]);
                    assert(is_digit(tz[k - dd.len() - 1]));
                }
            }
        }
        assert(mm_text(nm) == t);
        lemma_plain_bare(t);
    }
}


/// The white space the export writes between elements is white space.
pub proof fn lemma_spaces()
    ensures
        all_ws(" "@) && " "@.len() > 0,
        all_ws("\n  "@) && "\n  "@.len() > 0,
        all_ws("\n    "@) && "\n    "@.len() > 0,
        all_ws("\n"@) && "\n"@.len() > 0,
        all_ws(Seq::<char>::empty()),
{
    reveal_strlit(" ");
    reveal_strlit("\n  ");
    reveal_strlit("\n    ");
    reveal_strlit("\n");
    assert(spec_is_whitespace(' '));
    assert(spec_is_whitespace('\n'));
}

/// A group whose first element opens it without white space and whose other elements are
/// each separated by white space is readable, one level deeper than its elements.
pub proof fn lemma_group_ok(es: Seq<(Seq<char>, Doc)>, tail: Seq<char>, h: nat)
    requires
        es.len() > 0,
        es[0].0 == Seq::<char>::empty(),
        doc_ok(es[0].1),
        forall|i: int| 1 <= i < es.len() ==> sep_ok(#[trigger] es[i]),
        all_ws(tail),
        forall|i: int| 0 <= i < es.len() ==> height(#[trigger] es[i].1) <= h,
    ensures
        doc_ok(Doc::Group(es, tail)),
        height(Doc::Group(es, tail)) <= h + 1,
{
    let rest = es.drop_first();
    assert forall|i: int| 0 <= i < rest.len() implies sep_ok(#[trigger] rest[i]) by {
        assert(rest[i] == es[i + 1]);
    }
    lemma_elems_ok_sep(rest, false);
    lemma_spaces();
    assert(elems_ok(es, true));
    lemma_elems_height_bound(es, h);
}

pub proof fn lemma_group2_ok(x: Doc, y: Doc, h: nat)
    requires
        doc_ok(x),
        doc_ok(y),
        height(x) <= h,
        height(y) <= h,
    ensures
        doc_ok(group2(x, y)),
        height(group2(x, y)) <= h + 1,
{
    lemma_spaces();
    let es = seq![(Seq::<char>::empty(), x), (" "@, y)];
    assert(sep_ok(es[1]));
    lemma_group_ok(es, Seq::empty(), h);
}

pub proof fn lemma_group3_ok(x: Doc, y: Doc, z: Doc, h: nat)
    requires
        doc_ok(x),
        doc_ok(y),
        doc_ok(z),
        height(x) <= h,
        height(y) <= h,
        height(z) <= h,
    ensures
        doc_ok(group3(x, y, z)),
        height(group3(x, y, z)) <= h + 1,
{
    lemma_spaces();
    let es = seq![(Seq::<char>::empty(), x), (" "@, y), (" "@, z)];
    assert(sep_ok(es[1]));
    assert(sep_ok(es[2]));
    lemma_group_ok(es, Seq::empty(), h);
}

pub proof fn lemma_net_doc_ok(n: Net)
    ensures
        doc_ok(net_doc(n)),
        height(net_doc(n)) <= 1,
{
    lemma_words_bare();
    lemma_digits_bare(n.id.0 as nat);
    lemma_group3_ok(
        Doc::Bare("net"@),
        Doc::Bare(decimal_digits(n.id.0 as nat)),
        Doc::Quoted(n.name@),
        0,
    );
}

pub proof fn lemma_segment_doc_ok(t: Track)
    ensures
        doc_ok(segment_doc(t)),
        height(segment_doc(t)) <= 2,
{
    lemma_words_bare();
    lemma_spaces();
    lemma_mm_bare(t.x1.nano as int);
    lemma_mm_bare(t.y1.nano as int);
    lemma_mm_bare(t.x2.nano as int);
    lemma_mm_bare(t.y2.nano as int);
    lemma_mm_bare(t.width.nano as int);
    lemma_digits_bare(t.net.0 as nat);
    let g1 = group3(Doc::Bare("start"@), Doc::Bare(mm_text(t.x1.nano as int)), Doc::Bare(mm_text(t.y1.nano as int)));
    let g2 = group3(Doc::Bare("end"@), Doc::Bare(mm_text(t.x2.nano as int)), Doc::Bare(mm_text(t.y2.nano as int)));
    let g3 = group2(Doc::Bare("width"@), Doc::Bare(mm_text(t.width.nano as int)));
    let g4 = group2(Doc::Bare("layer"@), Doc::Quoted(crate::export::layer_token_spec(t.layer)));
    let g5 = group2(Doc::Bare("net"@), Doc::Bare(decimal_digits(t.net.0 as nat)));
    lemma_group3_ok(Doc::Bare("start"@), Doc::Bare(mm_text(t.x1.nano as int)), Doc::Bare(mm_text(t.y1.nano as int)), 0);
    lemma_group3_ok(Doc::Bare("end"@), Doc::Bare(mm_text(t.x2.nano as int)), Doc::Bare(mm_text(t.y2.nano as int)), 0);
    lemma_group2_ok(Doc::Bare("width"@), Doc::Bare(mm_text(t.width.nano as int)), 0);
    lemma_group2_ok(Doc::Bare("layer"@), Doc::Quoted(crate::export::layer_token_spec(t.layer)), 0);
    lemma_group2_ok(Doc::Bare("net"@), Doc::Bare(decimal_digits(t.net.0 as nat)), 0);
    let es = segment_doc(t)->Group_0;
    assert(sep_ok(es[1]) && sep_ok(es[2]) && sep_ok(es[3]) && sep_ok(es[4]) && sep_ok(es[5]));
    assert forall|i: int| 1 <= i < es.len() implies sep_ok(#[trigger] es[i]) by {
        assert(i == 1 || i == 2 || i == 3 || i == 4 || i == 5);
    }
    assert forall|i: int| 0 <= i < es.len() implies height(#[trigger] es[i].1) <= 1 by {
        assert(i == 0 || i == 1 || i == 2 || i == 3 || i == 4 || i == 5);
    }
    lemma_group_ok(es, Seq::empty(), 1);
}

pub proof fn lemma_edge_doc_ok(sx: Seq<char>, sy: Seq<char>, ex: Seq<char>, ey: Seq<char>)
    requires
        bare_ok(sx),
        bare_ok(sy),
        bare_ok(ex),
        bare_ok(ey),
    ensures
        doc_ok(edge_doc(sx, sy, ex, ey)),
        height(edge_doc(sx, sy, ex, ey)) <= 2,
{
    lemma_words_bare();
    lemma_spaces();
    lemma_group3_ok(Doc::Bare("start"@), Doc::Bare(sx), Doc::Bare(sy), 0);
    lemma_group3_ok(Doc::Bare("end"@), Doc::Bare(ex), Doc::Bare(ey), 0);
    lemma_group2_ok(Doc::Bare("layer"@), Doc::Quoted("Edge.Cuts"@), 0);
    lemma_group2_ok(Doc::Bare("width"@), Doc::Bare("0.1"@), 0);
    let es = edge_doc(sx, sy, ex, ey)->Group_0;
    assert(sep_ok(es[1]) && sep_ok(es[2]) && sep_ok(es[3]) && sep_ok(es[4]));
    assert forall|i: int| 1 <= i < es.len() implies sep_ok(#[trigger] es[i]) by {
        assert(i == 1 || i == 2 || i == 3 || i == 4);
    }
    assert forall|i: int| 0 <= i < es.len() implies height(#[trigger] es[i].1) <= 1 by {
        assert(i == 0 || i == 1 || i == 2 || i == 3 || i == 4);
    }
    lemma_group_ok(es, Seq::empty(), 1);
}


pub proof fn lemma_header_ok()
    ensures
        forall|i: int| 1 <= i < header_elems().len() ==> sep_ok(#[trigger] header_elems()[i]),
        forall|i: int| 0 <= i < header_elems().len() ==> height(#[trigger] header_elems()[i].1) <= 2,
        header_elems()[0] == (Seq::<char>::empty(), Doc::Bare("kicad_pcb"@)),
        doc_ok(Doc::Bare("kicad_pcb"@)),
{
    lemma_words_bare();
    lemma_spaces();
    lemma_group2_ok(Doc::Bare("version"@), Doc::Bare("20221018"@), 0);
    lemma_group2_ok(Doc::Bare("generator"@), Doc::Quoted("eak"@), 0);
    lemma_group3_ok(Doc::Bare("0"@), Doc::Quoted("F.Cu"@), Doc::Bare("signal"@), 0);
    lemma_group3_ok(Doc::Bare("31"@), Doc::Quoted("B.Cu"@), Doc::Bare("signal"@), 0);
    lemma_group3_ok(Doc::Bare("44"@), Doc::Quoted("Edge.Cuts"@), Doc::Bare("user"@), 0);
    lemma_group3_ok(Doc::Bare("net"@), Doc::Bare("0"@), Doc::Quoted(Seq::empty()), 0);
    let ls = layer_table()->Group_0;
    assert(sep_ok(ls[1]) && sep_ok(ls[2]) && sep_ok(ls[3]));
    assert forall|i: int| 1 <= i < ls.len() implies sep_ok(#[trigger] ls[i]) by {
        assert(i == 1 || i == 2 || i == 3);
    }
    assert forall|i: int| 0 <= i < ls.len() implies height(#[trigger] ls[i].1) <= 1 by {
        assert(i == 0 || i == 1 || i == 2 || i == 3);
    }
    lemma_group_ok(ls, "\n  "@, 1);
    let he = header_elems();
    assert(sep_ok(he[1]) && sep_ok(he[2]) && sep_ok(he[3]) && sep_ok(he[4]));
    assert forall|i: int| 1 <= i < he.len() implies sep_ok(#[trigger] he[i]) by {
        assert(i == 1 || i == 2 || i == 3 || i == 4);
    }
    assert forall|i: int| 0 <= i < he.len() implies height(#[trigger] he[i].1) <= 2 by {
        assert(i == 0 || i == 1 || i == 2 || i == 3 || i == 4);
    }
}

/// The document an export lays out is readable and nests three groups deep at most.
pub proof fn lemma_export_doc_ok(d: ImportedDesign)
    ensures
        doc_ok(export_doc(d)),
        height(export_doc(d)) <= 3,
{
    let w = mm_text(d.board.width.nano as int);
    let h = mm_text(d.board.height.nano as int);
    lemma_header_ok();
    lemma_spaces();
    lemma_words_bare();
    lemma_mm_bare(d.board.width.nano as int);
    lemma_mm_bare(d.board.height.nano as int);
    let he = header_elems();
    let ne = net_elems(d.nets@);
    let ee = edge_elems(w, h);
    let se = seg_elems(d.tracks@);
    assert forall|k: int| 0 <= k < ne.len() implies sep_ok(#[trigger] ne[k]) && height(ne[k].1) <= 2 by {
        lemma_net_doc_ok(d.nets@[k]);
    }
    assert forall|k: int| 0 <= k < se.len() implies sep_ok(#[trigger] se[k]) && height(se[k].1) <= 2 by {
        lemma_segment_doc_ok(d.tracks@[k]);
    }
    let z = "0"@;
    lemma_edge_doc_ok(z, z, w, z);
    lemma_edge_doc_ok(w, z, w, h);
    lemma_edge_doc_ok(w, h, z, h);
    lemma_edge_doc_ok(z, h, z, z);
    assert forall|k: int| 0 <= k < ee.len() implies sep_ok(#[trigger] ee[k]) && height(ee[k].1) <= 2 by {
        assert(k == 0 || k == 1 || k == 2 || k == 3);
    }
    let es = he + ne + ee + se;
    assert forall|i: int| 1 <= i < es.len() implies sep_ok(#[trigger] es[i]) by {
        if i < he.len() {
            assert(es[i] == he[i]);
        } else if i < he.len() + ne.len() {
            assert(es[i] == ne[i - he.len()]);
        } else if i < he.len() + ne.len() + ee.len() {
            assert(es[i] == ee[i - he.len() - ne.len()]);
        } else {
            assert(es[i] == se[i - he.len() - ne.len() - ee.len()]);
        }
    }
    assert forall|i: int| 0 <= i < es.len() implies height(#[trigger] es[i].1) <= 2 by {
        if i < he.len() {
            assert(es[i] == he[i]);
        } else if i < he.len() + ne.len() {
            assert(es[i] == ne[i - he.len()]);
        } else if i < he.len() + ne.len() + ee.len() {
            assert(es[i] == ee[i - he.len() - ne.len()]);
        } else {
            assert(es[i] == se[i - he.len() - ne.len() - ee.len()]);
        }
    }
    assert(es[0] == he[0]);
    lemma_group_ok(es, "\n"@, 2);
}


// ------------------------------------------------------------------ the tree an export reads as

pub proof fn lemma_elem_values_index(es: Seq<(Seq<char>, Doc)>)
    ensures
        elem_values(es).len() == es.len(),
        forall|i: int| 0 <= i < es.len() ==> #[trigger] elem_values(es)[i] == doc_value(es[i].1),
    decreases es.len(),
{
    if es.len() > 0 {
        lemma_elem_values_index(es.drop_first());
        assert forall|i: int| 0 <= i < es.len() implies #[trigger] elem_values(es)[i] == doc_value(
            es[i].1,
        ) by {
            if i > 0 {
                assert(elem_values(es)[i] == elem_values(es.drop_first())[i - 1]);
                assert(es.drop_first()[i - 1] == es[i]);
            }
        }
    }
}

pub proof fn lemma_group3_value(x: Doc, y: Doc, z: Doc)
    ensures
        doc_value(group3(x, y, z)) == SexpV::List(seq![doc_value(x), doc_value(y), doc_value(z)]),
{
    let es = seq![(Seq::<char>::empty(), x), (" "@, y), (" "@, z)];
    lemma_elem_values_index(es);
    assert(elem_values(es) =~= seq![doc_value(x), doc_value(y), doc_value(z)]);
}

pub proof fn lemma_group2_value(x: Doc, y: Doc)
    ensures
        doc_value(group2(x, y)) == SexpV::List(seq![doc_value(x), doc_value(y)]),
{
    let es = seq![(Seq::<char>::empty(), x), (" "@, y)];
    lemma_elem_values_index(es);
    assert(elem_values(es) =~= seq![doc_value(x), doc_value(y)]);
}

/// The elements of the tree an export reads as.
pub open spec fn export_items(d: ImportedDesign) -> Seq<SexpV> {
    elem_values(export_doc(d)->Group_0)
}

/// An export reads as its document's tree: a list of the header's items, one item per net,
/// the outline's four lines and one item per track.
pub proof fn lemma_export_reads(d: ImportedDesign)
    ensures
        parse_node_spec(export_text(d), 0, 0) == Parsed::Node(
            SexpV::List(export_items(d)),
            render(export_doc(d)).len(),
        ),
{
    lemma_export_doc_ok(d);
    let x = export_text(d);
    let r = render(export_doc(d));
    assert(x.subrange(0, r.len() as int) =~= r);
    lemma_doc_reads(x, 0, 0, export_doc(d));
}


// ------------------------------------------------------------------ nets read back

/// A whole number written in decimal reads back as itself.
pub proof fn lemma_index_digits(n: nat)
    requires
        n < max_whole_mm(),
    ensures
        decimal_index(decimal_digits(n)) == Some(n as u128),
{
    reveal_strlit("0");
    let v = (n * 1_000_000) as int;
    assert(v / 1_000_000 == n && v % 1_000_000 == 0) by (nonlinear_arith)
        requires
            v == n * 1_000_000,
    ;
    if n == 0 {
        assert(decimal_digits(n) =~= "0"@);
    } else {
        assert(mm_text(v) =~= decimal_digits(n));
    }
    assert(v < max_whole_mm() * nm_per_mm()) by (nonlinear_arith)
        requires
            v == n * 1_000_000,
            n < max_whole_mm(),
            nm_per_mm() == 1_000_000,
    ;
    lemma_mm_text_reads_back(v);
}

/// What an imported net records: its KiCad index and name.
pub open spec fn fact_of(n: Net) -> NetFact {
    NetFact { id: n.id.0, name: n.name@ }
}

/// Whether a node is a list headed `key`.
pub open spec fn headed(v: SexpV, key: Seq<char>) -> bool {
    v matches SexpV::List(l) && head_of(l) == Some(key)
}

/// Items that declare no net leave the net pass as it was.
pub proof fn lemma_nets_skip(items: Seq<SexpV>, i: nat, j: nat, acc: Seq<NetFact>)
    requires
        i <= j <= items.len(),
        forall|k: int| i <= k < j ==> !headed(#[trigger] items[k], "net"@),
    ensures
        nets_from(items, i, acc) == nets_from(items, j, acc),
    decreases j - i,
{
    if i < j {
        assert(!headed(items[i as int], "net"@));
        lemma_nets_skip(items, i + 1, j, acc);
    }
}

/// The net items an export writes read back as the nets' facts, in order.
pub proof fn lemma_nets_read(items: Seq<SexpV>, i: nat, nets: Seq<Net>, acc: Seq<NetFact>)
    requires
        i + nets.len() <= items.len(),
        forall|k: int| 0 <= k < nets.len() ==> #[trigger] items[i + k] == doc_value(net_doc(nets[k])),
        forall|k: int|
            0 <= k < nets.len() ==> (#[trigger] nets[k]).id.0 < max_whole_mm() && !spec_is_blank(
                nets[k].name@,
            ),
    ensures
        nets_from(items, i, acc) == nets_from(
            items,
            i + nets.len(),
            acc + nets.map_values(|n: Net| fact_of(n)),
        ),
    decreases nets.len(),
{
    if nets.len() == 0 {
        assert(acc + nets.map_values(|n: Net| fact_of(n)) =~= acc);
    } else {
        let n = nets[0];
        assert(items[i + 0int] == doc_value(net_doc(n)));
        lemma_group3_value(
            Doc::Bare("net"@),
            Doc::Bare(decimal_digits(n.id.0 as nat)),
            Doc::Quoted(n.name@),
        );
        let l = seq![SexpV::Atom("net"@), SexpV::Atom(decimal_digits(n.id.0 as nat)), SexpV::Atom(n.name@)];
        assert(items[i as int] == SexpV::List(l));
        lemma_index_digits(n.id.0 as nat);
        assert(atom_of(l, 1) == Some(decimal_digits(n.id.0 as nat)));
        assert(index_at(l, 1) == Some(n.id.0));
        assert(atom_of(l, 2) == Some(n.name@));
        assert(nets_from(items, i, acc) == nets_from(items, i + 1, acc.push(fact_of(n))));
        let rest = nets.drop_first();
        assert forall|k: int| 0 <= k < rest.len() implies #[trigger] items[(i + 1) + k] == doc_value(
            net_doc(rest[k]),
        ) by {
            assert(items[i + (k + 1)] == doc_value(net_doc(nets[k + 1])));
        }
        assert forall|k: int| 0 <= k < rest.len() implies (#[trigger] rest[k]).id.0 < max_whole_mm()
            && !spec_is_blank(rest[k].name@) by {
            assert(rest[k] == nets[k + 1]);
        }
        lemma_nets_read(items, i + 1, rest, acc.push(fact_of(n)));
        assert(acc.push(fact_of(n)) + rest.map_values(|m: Net| fact_of(m)) =~= acc
            + nets.map_values(|m: Net| fact_of(m)));
    }
}


pub proof fn lemma_pow10_add(a: nat, b: nat)
    ensures
        pow10(a) * pow10(b) == pow10(a + b),
    decreases a,
{
    if a > 0 {
        lemma_pow10_add((a - 1) as nat, b);
        assert(pow10(a) == 10 * pow10((a - 1) as nat));
        assert(pow10(a + b) == 10 * pow10((a - 1 + b) as nat));
        let p = pow10((a - 1) as nat) as int;
        let q = pow10(b) as int;
        assert(p * q == pow10((a - 1 + b) as nat));
        assert((10 * p) * q == 10 * (p * q)) by (nonlinear_arith);
        assert(pow10(a) * pow10(b) == (10 * p) * q);
    } else {
        assert(pow10(0) == 1);
        assert(1 * pow10(b) == pow10(b));
    }
}

/// Whatever a decimal reads as is within the readable range.
pub proof fn lemma_decimal_nm_bound(s: Seq<char>)
    ensures
        decimal_nm(s) matches Some(x) ==> -(max_whole_mm() * nm_per_mm()) < x < max_whole_mm()
            * nm_per_mm(),
{
    if decimal_nm(s) is Some {
        let (neg, body) = unsigned_part(s);
        let d = dot_from(body, 0);
        let ip = body.take(d as int);
        let fp = if d < body.len() {
            body.skip(d + 1 as int)
        } else {
            Seq::empty()
        };
        let f6 = if fp.len() <= 6 {
            fp
        } else {
            fp.take(6)
        };
        let l = f6.len();
        assert(all_digits(f6));
        lemma_digits_bound(f6);
        lemma_pow10_add(l, (6 - l) as nat);
        assert(pow10(6) == 1_000_000) by {
            reveal_with_fuel(pow10, 7);
        }
        let fv = digits_value(f6) as int;
        let pl = pow10(l) as int;
        let pr = pow10((6 - l) as nat) as int;
        assert(pr >= 1) by {
            lemma_pow10_positive((6 - l) as nat);
        }
        assert(fv * pr < 1_000_000) by (nonlinear_arith)
            requires
                fv < pl,
                pl * pr == 1_000_000,
                pr >= 1,
                fv >= 0,
        ;
        let iv = digits_value(ip) as int;
        assert(iv * 1_000_000 + fv * pr < max_whole_mm() * 1_000_000) by (nonlinear_arith)
            requires
                iv < max_whole_mm(),
                fv * pr < 1_000_000,
                iv >= 0,
        ;
        assert(fv * pr >= 0) by (nonlinear_arith)
            requires
                fv >= 0,
                pr >= 1,
        ;
        assert(iv * 1_000_000 >= 0) by (nonlinear_arith)
            requires
                iv >= 0,
        ;
    }
}

pub proof fn lemma_index_bound(s: Seq<char>)
    ensures
        decimal_index(s) matches Some(v) ==> v < max_whole_mm(),
{
    lemma_decimal_nm_bound(s);
    if let Some(x) = decimal_nm(s) {
        if x >= 0 {
            assert(x / 1_000_000 < max_whole_mm()) by (nonlinear_arith)
                requires
                    0 <= x < max_whole_mm() * 1_000_000,
            ;
        }
    }
}

/// A net fact an import keeps: a readable index and a non-blank name.
pub open spec fn net_fact_ok(f: NetFact) -> bool {
    f.id < max_whole_mm() && !spec_is_blank(f.name)
}

/// Every net the net pass keeps is a net fact an import keeps.
pub proof fn lemma_nets_from_ok(items: Seq<SexpV>, i: nat, acc: Seq<NetFact>)
    requires
        forall|k: int| 0 <= k < acc.len() ==> net_fact_ok(#[trigger] acc[k]),
    ensures
        nets_from(items, i, acc) matches Ok(r) ==> forall|k: int| 0 <= k < r.len() ==> net_fact_ok(
            #[trigger] r[k],
        ),
    decreases items.len() - i,
{
    if i < items.len() {
        match items[i as int] {
            SexpV::List(l) => {
                if head_of(l) == Some("net"@) {
                    match index_at(l, 1) {
                        None => {},
                        Some(id) => {
                            lemma_index_bound(atom_of(l, 1)->0);
                            let name = match atom_of(l, 2) {
                                Some(a) => a,
                                None => Seq::empty(),
                            };
                            if spec_is_blank(name) {
                                lemma_nets_from_ok(items, i + 1, acc);
                            } else {
                                let nacc = acc.push(NetFact { id, name });
                                assert forall|k: int| 0 <= k < nacc.len() implies net_fact_ok(
                                    #[trigger] nacc[k],
                                ) by {
                                    if k < acc.len() {
                                        assert(nacc[k] == acc[k]);
                                    }
                                }
                                lemma_nets_from_ok(items, i + 1, nacc);
                            }
                        },
                    }
                } else {
                    lemma_nets_from_ok(items, i + 1, acc);
                }
            },
            SexpV::Atom(_) => {
                lemma_nets_from_ok(items, i + 1, acc);
            },
        }
    }
}


// ------------------------------------------------------------------ tracks read back

/// A length in the readable range.
pub open spec fn in_range(v: int) -> bool {
    -(max_whole_mm() * nm_per_mm()) < v < max_whole_mm() * nm_per_mm()
}

/// A length an import reads: whole nanometres in the readable range.
pub open spec fn read_length(q: Quantity) -> bool {
    &&& q.dimension == Dimension::Length
    &&& in_range(q.nano as int)
}

/// The `k`-th track an import keeps: its minted id, a kept net, a positive width and readable
/// lengths.
pub open spec fn track_ok(t: Track, k: int, kept: Seq<u128>) -> bool {
    &&& t.id == EntityId((10_000 + k) as u128)
    &&& kept.contains(t.net.0)
    &&& t.width.nano > 0
    &&& read_length(t.width)
    &&& read_length(t.x1)
    &&& read_length(t.y1)
    &&& read_length(t.x2)
    &&& read_length(t.y2)
}

/// The right-most copper extent of tracks, from the origin.
pub open spec fn tracks_max_x(ts: Seq<Track>) -> int
    decreases ts.len(),
{
    if ts.len() == 0 {
        0
    } else {
        max_int(max_int(tracks_max_x(ts.drop_last()), ts.last().x1.nano as int), ts.last().x2.nano as int)
    }
}

/// The lowest copper extent of tracks, from the origin.
pub open spec fn tracks_max_y(ts: Seq<Track>) -> int
    decreases ts.len(),
{
    if ts.len() == 0 {
        0
    } else {
        max_int(max_int(tracks_max_y(ts.drop_last()), ts.last().y1.nano as int), ts.last().y2.nano as int)
    }
}

/// What the segment pass has gathered, as an import keeps it.
pub open spec fn seg_acc_ok(a: SegAcc, kept: Seq<u128>) -> bool {
    &&& forall|k: int| 0 <= k < a.tracks.len() ==> track_ok(#[trigger] a.tracks[k], k, kept)
    &&& a.max_x == tracks_max_x(a.tracks)
    &&& a.max_y == tracks_max_y(a.tracks)
}

/// Every track the segment pass keeps is a track an import keeps, and the extent is theirs.
pub proof fn lemma_segments_from_ok(items: Seq<SexpV>, i: nat, kept: Seq<u128>, acc: SegAcc)
    requires
        seg_acc_ok(acc, kept),
    ensures
        segments_from(items, i, kept, acc) matches Ok(r) ==> seg_acc_ok(r, kept),
    decreases items.len() - i,
{
    if i < items.len() {
        match items[i as int] {
            SexpV::List(l) => {
                if head_of(l) == Some("segment"@) {
                    match segment_step(l, kept, acc) {
                        Ok(next) => {
                            if next.tracks.len() > acc.tracks.len() {
                                let x1 = num_arg(l, "start"@, 0)->0;
                                let y1 = num_arg(l, "start"@, 1)->0;
                                let x2 = num_arg(l, "end"@, 0)->0;
                                let y2 = num_arg(l, "end"@, 1)->0;
                                let w = num_arg(l, "width"@, 0)->0;
                                lemma_decimal_nm_bound(atom_of(child_of(l, "start"@)->0, 1)->0);
                                lemma_decimal_nm_bound(atom_of(child_of(l, "start"@)->0, 2)->0);
                                lemma_decimal_nm_bound(atom_of(child_of(l, "end"@)->0, 1)->0);
                                lemma_decimal_nm_bound(atom_of(child_of(l, "end"@)->0, 2)->0);
                                lemma_decimal_nm_bound(atom_of(child_of(l, "width"@)->0, 1)->0);
                                let t = next.tracks.last();
                                assert(next.tracks == acc.tracks.push(t));
                                assert(next.tracks.drop_last() =~= acc.tracks);
                                assert forall|k: int| 0 <= k < next.tracks.len() implies track_ok(
                                    #[trigger] next.tracks[k],
                                    k,
                                    kept,
                                ) by {
                                    if k < acc.tracks.len() {
                                        assert(next.tracks[k] == acc.tracks[k]);
                                    }
                                }
                            } else {
                                assert(next.tracks == acc.tracks);
                            }
                            lemma_segments_from_ok(items, i + 1, kept, next);
                        },
                        Err(_) => {},
                    }
                } else {
                    lemma_segments_from_ok(items, i + 1, kept, acc);
                }
            },
            SexpV::Atom(_) => {
                lemma_segments_from_ok(items, i + 1, kept, acc);
            },
        }
    }
}

/// Items that are not segments leave the segment pass as it was.
pub proof fn lemma_segs_skip(items: Seq<SexpV>, i: nat, j: nat, kept: Seq<u128>, acc: SegAcc)
    requires
        i <= j <= items.len(),
        forall|k: int| i <= k < j ==> !headed(#[trigger] items[k], "segment"@),
    ensures
        segments_from(items, i, kept, acc) == segments_from(items, j, kept, acc),
    decreases j - i,
{
    if i < j {
        assert(!headed(items[i as int], "segment"@));
        lemma_segs_skip(items, i + 1, j, kept, acc);
    }
}


/// The side a written layer token reads as is the side it was written for.
pub proof fn lemma_side_reads(side: BoardSide)
    ensures
        side_of(layer_token_spec(side)) == side,
{
    reveal_strlit("F.Cu");
    reveal_strlit("B.Cu");
    reveal_strlit("B.");
    match side {
        BoardSide::Top => {
            assert(layer_token_spec(side).subrange(0, 2)[0] == 'F');
            assert(!occurs_at(layer_token_spec(side), "B."@, 0));
        },
        BoardSide::Bottom => {
            assert(layer_token_spec(side).subrange(0, 2) =~= "B."@);
        },
    }
}

/// The tree a segment node reads as.
pub open spec fn segment_value(t: Track) -> Seq<SexpV> {
    seq![
        SexpV::Atom("segment"@),
        SexpV::List(
            seq![
                SexpV::Atom("start"@),
                SexpV::Atom(mm_text(t.x1.nano as int)),
                SexpV::Atom(mm_text(t.y1.nano as int)),
            ],
        ),
        SexpV::List(
            seq![
                SexpV::Atom("end"@),
                SexpV::Atom(mm_text(t.x2.nano as int)),
                SexpV::Atom(mm_text(t.y2.nano as int)),
            ],
        ),
        SexpV::List(seq![SexpV::Atom("width"@), SexpV::Atom(mm_text(t.width.nano as int))]),
        SexpV::List(seq![SexpV::Atom("layer"@), SexpV::Atom(layer_token_spec(t.layer))]),
        SexpV::List(seq![SexpV::Atom("net"@), SexpV::Atom(decimal_digits(t.net.0 as nat))]),
    ]
}

pub proof fn lemma_segment_value(t: Track)
    ensures
        doc_value(segment_doc(t)) == SexpV::List(segment_value(t)),
{
    let x1 = Doc::Bare(mm_text(t.x1.nano as int));
    let y1 = Doc::Bare(mm_text(t.y1.nano as int));
    let x2 = Doc::Bare(mm_text(t.x2.nano as int));
    let y2 = Doc::Bare(mm_text(t.y2.nano as int));
    lemma_group3_value(Doc::Bare("start"@), x1, y1);
    lemma_group3_value(Doc::Bare("end"@), x2, y2);
    lemma_group2_value(Doc::Bare("width"@), Doc::Bare(mm_text(t.width.nano as int)));
    lemma_group2_value(Doc::Bare("layer"@), Doc::Quoted(layer_token_spec(t.layer)));
    lemma_group2_value(Doc::Bare("net"@), Doc::Bare(decimal_digits(t.net.0 as nat)));
    let es = segment_doc(t)->Group_0;
    lemma_elem_values_index(es);
    assert(elem_values(es) =~= segment_value(t));
}

/// The keys a segment's fields are found by are distinct words.
proof fn lemma_segment_keys()
    ensures
        "start"@ != "end"@,
        "start"@ != "width"@,
        "start"@ != "layer"@,
        "start"@ != "net"@,
        "end"@ != "width"@,
        "end"@ != "layer"@,
        "end"@ != "net"@,
        "width"@ != "layer"@,
        "width"@ != "net"@,
        "layer"@ != "net"@,
        "segment"@ != "net"@,
        "segment"@ != "start"@,
        "segment"@ != "end"@,
        "segment"@ != "width"@,
        "segment"@ != "layer"@,
{
    reveal_strlit("start");
    reveal_strlit("end");
    reveal_strlit("width");
    reveal_strlit("layer");
    reveal_strlit("net");
    reveal_strlit("segment");
    assert("start"@.len() != "end"@.len());
    assert("start"@[0] != "width"@[0]);
    assert("start"@[0] != "layer"@[0]);
    assert("start"@.len() != "net"@.len());
    assert("end"@.len() != "width"@.len());
    assert("end"@.len() != "layer"@.len());
    assert("end"@[0] != "net"@[0]);
    assert("width"@[0] != "layer"@[0]);
    assert("width"@.len() != "net"@.len());
    assert("layer"@.len() != "net"@.len());
    assert("segment"@.len() != "net"@.len());
    assert("segment"@.len() != "start"@.len());
    assert("segment"@.len() != "end"@.len());
    assert("segment"@.len() != "width"@.len());
    assert("segment"@.len() != "layer"@.len());
}

/// A written segment reads back as the track it was written from, extending the extent.
#[verifier::rlimit(60)]
pub proof fn lemma_segment_step_reads(t: Track, kept: Seq<u128>, acc: SegAcc)
    requires
        track_ok(t, acc.tracks.len() as int, kept),
        forall|k: int| 0 <= k < kept.len() ==> #[trigger] kept[k] < max_whole_mm(),
    ensures
        segment_step(segment_value(t), kept, acc) == Ok::<SegAcc, ImportErrorV>(
            SegAcc {
                tracks: acc.tracks.push(t),
                warnings: acc.warnings,
                max_x: max_int(max_int(acc.max_x, t.x1.nano as int), t.x2.nano as int),
                max_y: max_int(max_int(acc.max_y, t.y1.nano as int), t.y2.nano as int),
            },
        ),
{
    let l = segment_value(t);
    lemma_segment_keys();
    let start = l[1]->List_0;
    let end = l[2]->List_0;
    let width = l[3]->List_0;
    let layer = l[4]->List_0;
    let net = l[5]->List_0;
    assert(!is_node(l[0], "start"@) && is_node(l[1], "start"@));
    assert(child_from(l, "start"@, 1) == Some(start));
    assert(child_from(l, "start"@, 0) == Some(start));
    assert(!is_node(l[0], "end"@) && !is_node(l[1], "end"@) && is_node(l[2], "end"@));
    assert(child_from(l, "end"@, 2) == Some(end));
    assert(child_from(l, "end"@, 1) == Some(end));
    assert(child_from(l, "end"@, 0) == Some(end));
    assert(!is_node(l[0], "width"@) && !is_node(l[1], "width"@) && !is_node(l[2], "width"@)
        && is_node(l[3], "width"@));
    assert(child_from(l, "width"@, 3) == Some(width));
    assert(child_from(l, "width"@, 2) == Some(width));
    assert(child_from(l, "width"@, 1) == Some(width));
    assert(child_from(l, "width"@, 0) == Some(width));
    assert(!is_node(l[0], "layer"@) && !is_node(l[1], "layer"@) && !is_node(l[2], "layer"@)
        && !is_node(l[3], "layer"@) && is_node(l[4], "layer"@));
    assert(child_from(l, "layer"@, 4) == Some(layer));
    assert(child_from(l, "layer"@, 3) == Some(layer));
    assert(child_from(l, "layer"@, 2) == Some(layer));
    assert(child_from(l, "layer"@, 1) == Some(layer));
    assert(child_from(l, "layer"@, 0) == Some(layer));
    assert(!is_node(l[0], "net"@) && !is_node(l[1], "net"@) && !is_node(l[2], "net"@)
        && !is_node(l[3], "net"@) && !is_node(l[4], "net"@) && is_node(l[5], "net"@));
    assert(child_from(l, "net"@, 5) == Some(net));
    assert(child_from(l, "net"@, 4) == Some(net));
    assert(child_from(l, "net"@, 3) == Some(net));
    assert(child_from(l, "net"@, 2) == Some(net));
    assert(child_from(l, "net"@, 1) == Some(net));
    assert(child_from(l, "net"@, 0) == Some(net));
    lemma_mm_text_reads_back(t.x1.nano as int);
    lemma_mm_text_reads_back(t.y1.nano as int);
    lemma_mm_text_reads_back(t.x2.nano as int);
    lemma_mm_text_reads_back(t.y2.nano as int);
    lemma_mm_text_reads_back(t.width.nano as int);
    assert(num_arg(l, "start"@, 0) == Some(t.x1.nano as int));
    assert(num_arg(l, "start"@, 1) == Some(t.y1.nano as int));
    assert(num_arg(l, "end"@, 0) == Some(t.x2.nano as int));
    assert(num_arg(l, "end"@, 1) == Some(t.y2.nano as int));
    assert(num_arg(l, "width"@, 0) == Some(t.width.nano as int));
    let kk = choose|k: int| 0 <= k < kept.len() && kept[k] == t.net.0;
    assert(kept[kk] < max_whole_mm());
    lemma_index_digits(t.net.0 as nat);
    assert(index_arg(l, "net"@, 0) == Some(t.net.0));
    assert(layer_or_front(l) == layer_token_spec(t.layer));
    lemma_side_reads(t.layer);
    let nt = Track {
        id: EntityId((10_000 + acc.tracks.len()) as u128),
        net: EntityId(t.net.0),
        layer: side_of(layer_or_front(l)),
        width: length(t.width.nano as int),
        x1: length(t.x1.nano as int),
        y1: length(t.y1.nano as int),
        x2: length(t.x2.nano as int),
        y2: length(t.y2.nano as int),
    };
    assert(nt == t);
}


proof fn lemma_segs_one(items: Seq<SexpV>, i: nat, kept: Seq<u128>, acc: SegAcc, t: Track, next: SegAcc)
    requires
        i < items.len(),
        items[i as int] == SexpV::List(segment_value(t)),
        segment_step(segment_value(t), kept, acc) == Ok::<SegAcc, ImportErrorV>(next),
    ensures
        segments_from(items, i, kept, acc) == segments_from(items, i + 1, kept, next),
{
    assert(segment_value(t)[0] == SexpV::Atom("segment"@));
    assert(head_of(segment_value(t)) == Some("segment"@));
}

/// The segment items an export writes read back as their tracks, in order.
#[verifier::rlimit(60)]
#[verifier::spinoff_prover]
pub proof fn lemma_segs_read(items: Seq<SexpV>, i: nat, ts: Seq<Track>, kept: Seq<u128>, acc: SegAcc)
    requires
        i + ts.len() <= items.len(),
        forall|k: int| 0 <= k < ts.len() ==> #[trigger] items[i + k] == SexpV::List(segment_value(ts[k])),
        forall|k: int| 0 <= k < ts.len() ==> track_ok(#[trigger] ts[k], acc.tracks.len() + k, kept),
        forall|k: int| 0 <= k < kept.len() ==> #[trigger] kept[k] < max_whole_mm(),
        acc.max_x == tracks_max_x(acc.tracks),
        acc.max_y == tracks_max_y(acc.tracks),
    ensures
        segments_from(items, i, kept, acc) == segments_from(
            items,
            i + ts.len(),
            kept,
            SegAcc {
                tracks: acc.tracks + ts,
                warnings: acc.warnings,
                max_x: tracks_max_x(acc.tracks + ts),
                max_y: tracks_max_y(acc.tracks + ts),
            },
        ),
    decreases ts.len(),
{
    if ts.len() == 0 {
        assert(acc.tracks + ts =~= acc.tracks);
    } else {
        let t = ts[0];
        assert(items[i + 0int] == SexpV::List(segment_value(t)));
        assert(track_ok(ts[0], acc.tracks.len() + 0int, kept));
        lemma_segment_step_reads(t, kept, acc);
        let next = SegAcc {
            tracks: acc.tracks.push(t),
            warnings: acc.warnings,
            max_x: max_int(max_int(acc.max_x, t.x1.nano as int), t.x2.nano as int),
            max_y: max_int(max_int(acc.max_y, t.y1.nano as int), t.y2.nano as int),
        };
        lemma_segs_one(items, i, kept, acc, t, next);
        assert(acc.tracks.push(t).drop_last() =~= acc.tracks);
        assert(next.max_x == tracks_max_x(next.tracks));
        assert(next.max_y == tracks_max_y(next.tracks));
        let rest = ts.drop_first();
        assert forall|k: int| 0 <= k < rest.len() implies #[trigger] items[(i + 1) + k] == SexpV::List(
            segment_value(rest[k]),
        ) by {
            assert(items[i + (k + 1)] == SexpV::List(segment_value(ts[k + 1])));
        }
        assert forall|k: int| 0 <= k < rest.len() implies track_ok(
            #[trigger] rest[k],
            next.tracks.len() + k,
            kept,
        ) by {
            assert(track_ok(ts[k + 1], acc.tracks.len() + (k + 1), kept));
        }
        lemma_segs_read(items, i + 1, rest, kept, next);
        assert(next.tracks + rest =~= acc.tracks + ts);
    }
}


// ------------------------------------------------------------------ footprints

/// Items that are not footprints leave the footprint pass as it was.
pub proof fn lemma_fps_skip(items: Seq<SexpV>, i: nat, j: nat, kept: Seq<u128>, acc: FpAcc)
    requires
        i <= j <= items.len(),
        forall|k: int|
            i <= k < j ==> !headed(#[trigger] items[k], "footprint"@) && !headed(items[k], "module"@),
    ensures
        footprints_from(items, i, kept, acc) == footprints_from(items, j, kept, acc),
    decreases j - i,
{
    if i < j {
        assert(!headed(items[i as int], "footprint"@) && !headed(items[i as int], "module"@));
        lemma_fps_skip(items, i + 1, j, kept, acc);
    }
}

/// The footprint pass only adds parts, and moves the extent only when it adds one.
pub proof fn lemma_footprints_keep(items: Seq<SexpV>, i: nat, kept: Seq<u128>, acc: FpAcc)
    ensures
        footprints_from(items, i, kept, acc) matches Ok(r) ==> r.parts.len() >= acc.parts.len() && (
        r.parts.len() == acc.parts.len() ==> r.max_x == acc.max_x && r.max_y == acc.max_y),
    decreases items.len() - i,
{
    if i < items.len() {
        match items[i as int] {
            SexpV::List(l) => {
                if head_of(l) == Some("footprint"@) || head_of(l) == Some("module"@) {
                    match footprint_step(l, kept, acc) {
                        Ok(next) => {
                            lemma_footprints_keep(items, i + 1, kept, next);
                        },
                        Err(_) => {},
                    }
                } else {
                    lemma_footprints_keep(items, i + 1, kept, acc);
                }
            },
            SexpV::Atom(_) => {
                lemma_footprints_keep(items, i + 1, kept, acc);
            },
        }
    }
}


// ------------------------------------------------------------------ export, then import

/// The heads the passes look for differ from the heads an export writes elsewhere.
proof fn lemma_heads_distinct()
    ensures
        "version"@ != "net"@ && "version"@ != "segment"@ && "version"@ != "footprint"@ && "version"@
            != "module"@,
        "generator"@ != "net"@ && "generator"@ != "segment"@ && "generator"@ != "footprint"@
            && "generator"@ != "module"@,
        "layers"@ != "net"@ && "layers"@ != "segment"@ && "layers"@ != "footprint"@ && "layers"@
            != "module"@,
        "net"@ != "segment"@ && "net"@ != "footprint"@ && "net"@ != "module"@,
        "gr_line"@ != "net"@ && "gr_line"@ != "segment"@ && "gr_line"@ != "footprint"@
            && "gr_line"@ != "module"@,
        "segment"@ != "footprint"@ && "segment"@ != "module"@,
{
    reveal_strlit("version");
    reveal_strlit("generator");
    reveal_strlit("layers");
    reveal_strlit("net");
    reveal_strlit("segment");
    reveal_strlit("footprint");
    reveal_strlit("module");
    reveal_strlit("gr_line");
    assert("version"@[0] != "net"@[0]);
    assert("version"@[0] != "segment"@[0]);
    assert("version"@[0] != "footprint"@[0]);
    assert("version"@[0] != "module"@[0]);
    assert("generator"@[0] != "net"@[0]);
    assert("generator"@[0] != "segment"@[0]);
    assert("generator"@[0] != "footprint"@[0]);
    assert("generator"@[0] != "module"@[0]);
    assert("layers"@[0] != "net"@[0]);
    assert("layers"@[0] != "segment"@[0]);
    assert("layers"@[0] != "footprint"@[0]);
    assert("layers"@[0] != "module"@[0]);
    assert("net"@[0] != "segment"@[0]);
    assert("net"@[0] != "footprint"@[0]);
    assert("net"@[0] != "module"@[0]);
    assert("gr_line"@[0] != "net"@[0]);
    assert("gr_line"@[0] != "segment"@[0]);
    assert("gr_line"@[0] != "footprint"@[0]);
    assert("gr_line"@[0] != "module"@[0]);
    assert("segment"@[0] != "footprint"@[0]);
    assert("segment"@[0] != "module"@[0]);
}

/// The items an export reads as, region by region: the header's five, one per net, the
/// outline's four and one per track.
pub proof fn lemma_export_items(d: ImportedDesign)
    ensures
        ({
            let items = export_items(d);
            let n = d.nets@.len();
            let m = d.tracks@.len();
            &&& items.len() == 9 + n + m
            &&& items[0] == SexpV::Atom("kicad_pcb"@)
            &&& headed(items[1], "version"@)
            &&& headed(items[2], "generator"@)
            &&& headed(items[3], "layers"@)
            &&& items[4] == SexpV::List(seq![SexpV::Atom("net"@), SexpV::Atom("0"@), SexpV::Atom(Seq::empty())])
            &&& forall|k: int| 0 <= k < n ==> #[trigger] items[5 + k] == doc_value(net_doc(d.nets@[k]))
            &&& forall|k: int| 5 + n <= k < 9 + n ==> headed(#[trigger] items[k], "gr_line"@)
            &&& forall|k: int| 0 <= k < m ==> #[trigger] items[9 + n + k] == SexpV::List(
                segment_value(d.tracks@[k]),
            )
        }),
{
    let w = mm_text(d.board.width.nano as int);
    let h = mm_text(d.board.height.nano as int);
    let he = header_elems();
    let ne = net_elems(d.nets@);
    let ee = edge_elems(w, h);
    let se = seg_elems(d.tracks@);
    let es = he + ne + ee + se;
    assert(export_doc(d)->Group_0 == es);
    lemma_elem_values_index(es);
    let items = export_items(d);
    let n = d.nets@.len();
    lemma_group2_value(Doc::Bare("version"@), Doc::Bare("20221018"@));
    lemma_group2_value(Doc::Bare("generator"@), Doc::Quoted("eak"@));
    lemma_group3_value(Doc::Bare("net"@), Doc::Bare("0"@), Doc::Quoted(Seq::empty()));
    lemma_elem_values_index(layer_table()->Group_0);
    assert(items[0] == doc_value(es[0].1));
    assert(es[0] == he[0]);
    assert(items[1] == doc_value(he[1].1));
    assert(es[1] == he[1]);
    assert(es[2] == he[2]);
    assert(es[3] == he[3]);
    assert(es[4] == he[4]);
    assert(items[3] == doc_value(layer_table()));
    assert(headed(items[3], "layers"@));
    assert forall|k: int| 0 <= k < n implies #[trigger] items[5 + k] == doc_value(net_doc(d.nets@[k])) by {
        assert(es[5 + k] == ne[k]);
    }
    assert forall|k: int| 5 + n <= k < 9 + n implies headed(#[trigger] items[k], "gr_line"@) by {
        assert(es[k] == ee[k - 5 - n]);
        let z = "0"@;
        let e = ee[k - 5 - n].1;
        assert(e == edge_doc(z, z, w, z) || e == edge_doc(w, z, w, h) || e == edge_doc(w, h, z, h) || e
            == edge_doc(z, h, z, z));
        lemma_elem_values_index(e->Group_0);
    }
    assert forall|k: int| 0 <= k < d.tracks@.len() implies #[trigger] items[9 + n + k] == SexpV::List(
        segment_value(d.tracks@[k]),
    ) by {
        assert(es[9 + n + k] == se[k]);
        lemma_segment_value(d.tracks@[k]);
    }
}


/// Export then import is a fixed point over a copper-only board: a board imported without
/// footprints, exported, and imported again, yields the same nets (indices and names, so the
/// same classes), the same tracks (ids, nets, sides, widths and end points) and the same copper
/// extent (so the same derived outline).
#[verifier::rlimit(80)]
#[verifier::spinoff_prover]
pub proof fn lemma_export_reimports(src: Seq<char>, d: ImportedDesign)
    requires
        import_spec(src) is Ok,
        design_is(d, import_spec(src)->Ok_0),
        import_spec(src)->Ok_0.parts.len() == 0,
    ensures
        import_spec(export_text(d)) matches Ok(g) && g.nets == import_spec(src)->Ok_0.nets
            && g.tracks == import_spec(src)->Ok_0.tracks && g.max_x == import_spec(src)->Ok_0.max_x
            && g.max_y == import_spec(src)->Ok_0.max_y && g.parts.len() == 0,
{
    let f = import_spec(src)->Ok_0;
    // The first import, pass by pass.
    let items0 = parse_node_spec(src, 0, 0)->Node_0->List_0;
    let nets0 = nets_from(items0, 0, Seq::empty())->Ok_0;
    let kept = kept_ids(nets0);
    let acc0 = SegAcc { tracks: Seq::empty(), warnings: Seq::empty(), max_x: 0, max_y: 0 };
    let sa0 = segments_from(items0, 0, kept, acc0)->Ok_0;
    let fp0 = FpAcc { parts: Seq::empty(), warnings: sa0.warnings, max_x: sa0.max_x, max_y: sa0.max_y, pin_count: 0 };
    let fa0 = footprints_from(items0, 0, kept, fp0)->Ok_0;
    assert(f.nets == nets0 && f.tracks == sa0.tracks && f.parts == fa0.parts && f.max_x == fa0.max_x
        && f.max_y == fa0.max_y);
    lemma_nets_from_ok(items0, 0, Seq::empty());
    assert(seg_acc_ok(acc0, kept));
    lemma_segments_from_ok(items0, 0, kept, acc0);
    lemma_footprints_keep(items0, 0, kept, fp0);
    assert forall|k: int| 0 <= k < kept.len() implies #[trigger] kept[k] < max_whole_mm() by {
        assert(net_fact_ok(nets0[k]));
    }
    // The export reads as its items.
    lemma_export_reads(d);
    lemma_export_items(d);
    lemma_heads_distinct();
    let items = export_items(d);
    let n = d.nets@.len();
    let m = d.tracks@.len();
    assert(head_of(items) == Some("kicad_pcb"@));
    // Pass one: the header's net 0 has a blank name; then one fact per exported net.
    lemma_nets_skip(items, 0, 4, Seq::empty());
    reveal_strlit("0");
    lemma_index_digits(0);
    assert(decimal_digits(0) =~= "0"@);
    assert(spec_is_blank(Seq::<char>::empty()));
    assert(nets_from(items, 4, Seq::empty()) == nets_from(items, 5, Seq::empty()));
    assert forall|k: int| 0 <= k < n implies (#[trigger] d.nets@[k]).id.0 < max_whole_mm()
        && !spec_is_blank(d.nets@[k].name@) by {
        assert(net_is(d.nets@[k], f.nets[k]));
        assert(net_fact_ok(nets0[k]));
    }
    lemma_nets_read(items, 5, d.nets@, Seq::empty());
    let facts = Seq::<NetFact>::empty() + d.nets@.map_values(|x: Net| fact_of(x));
    assert forall|k: int| (5 + n) <= k < items.len() implies !headed(#[trigger] items[k], "net"@) by {
        if k < 9 + n {
            assert(headed(items[k], "gr_line"@));
        } else {
            assert(items[9 + n + (k - 9 - n)] == SexpV::List(segment_value(d.tracks@[k - 9 - n])));
        }
    }
    lemma_nets_skip(items, 5 + n, items.len(), facts);
    assert(facts =~= nets0) by {
        assert forall|k: int| 0 <= k < n implies facts[k] == nets0[k] by {
            assert(net_is(d.nets@[k], f.nets[k]));
        }
    }
    assert(nets_from(items, 0, Seq::empty()) == Ok::<Seq<NetFact>, ImportErrorV>(nets0));
    // Pass two: nothing but the segments is a segment; they read back as the tracks.
    assert forall|k: int| 0 <= k < 9 + n implies !headed(#[trigger] items[k], "segment"@) by {
        if 5 <= k < 5 + n {
            lemma_group3_value(
                Doc::Bare("net"@),
                Doc::Bare(decimal_digits(d.nets@[k - 5].id.0 as nat)),
                Doc::Quoted(d.nets@[k - 5].name@),
            );
            assert(items[5 + (k - 5)] == doc_value(net_doc(d.nets@[k - 5])));
        }
    }
    lemma_segs_skip(items, 0, 9 + n, kept, acc0);
    assert(d.tracks@ == sa0.tracks);
    assert forall|k: int| 0 <= k < m implies #[trigger] items[(9 + n) + k] == SexpV::List(
        segment_value(d.tracks@[k]),
    ) by {}
    assert forall|k: int| 0 <= k < m implies track_ok(#[trigger] d.tracks@[k], acc0.tracks.len() + k, kept) by {
        assert(track_ok(sa0.tracks[k], k, kept));
    }
    lemma_segs_read(items, 9 + n, d.tracks@, kept, acc0);
    assert(acc0.tracks + d.tracks@ =~= sa0.tracks);
    let sa1 = SegAcc {
        tracks: sa0.tracks,
        warnings: Seq::empty(),
        max_x: tracks_max_x(sa0.tracks),
        max_y: tracks_max_y(sa0.tracks),
    };
    assert(9 + n + m == items.len());
    assert(segments_from(items, 0, kept, acc0) == Ok::<SegAcc, ImportErrorV>(sa1));
    // Pass three: no footprint.
    let fp1 = FpAcc { parts: Seq::empty(), warnings: sa1.warnings, max_x: sa1.max_x, max_y: sa1.max_y, pin_count: 0 };
    assert forall|k: int| 0 <= k < items.len() implies !headed(#[trigger] items[k], "footprint"@)
        && !headed(items[k], "module"@) by {
        if 5 <= k < 5 + n {
            lemma_group3_value(
                Doc::Bare("net"@),
                Doc::Bare(decimal_digits(d.nets@[k - 5].id.0 as nat)),
                Doc::Quoted(d.nets@[k - 5].name@),
            );
            assert(items[5 + (k - 5)] == doc_value(net_doc(d.nets@[k - 5])));
        } else if 9 + n <= k {
            assert(items[9 + n + (k - 9 - n)] == SexpV::List(segment_value(d.tracks@[k - 9 - n])));
        }
    }
    lemma_fps_skip(items, 0, items.len(), kept, fp1);
    assert(footprints_from(items, 0, kept, fp1) == Ok::<FpAcc, ImportErrorV>(fp1));
    assert(sa0.max_x == fa0.max_x && sa0.max_y == fa0.max_y);
}

/// The same fixed point over designs: any design the re-import yields has the exported
/// design's outline, nets and tracks.
pub proof fn lemma_export_reimports_design(src: Seq<char>, d: ImportedDesign, d2: ImportedDesign)
    requires
        import_spec(src) is Ok,
        design_is(d, import_spec(src)->Ok_0),
        import_spec(src)->Ok_0.parts.len() == 0,
        import_spec(export_text(d)) is Ok,
        design_is(d2, import_spec(export_text(d))->Ok_0),
    ensures
        d2.board.id == d.board.id,
        d2.board.width == d.board.width,
        d2.board.height == d.board.height,
        d2.board.stack.layers@ == d.board.stack.layers@,
        d2.nets@.len() == d.nets@.len(),
        forall|k: int|
            0 <= k < d.nets@.len() ==> (#[trigger] d2.nets@[k]).id == d.nets@[k].id
                && d2.nets@[k].name@ == d.nets@[k].name@ && d2.nets@[k].class == d.nets@[k].class
                && d2.nets@[k].origin == d.nets@[k].origin,
        d2.tracks@ == d.tracks@,
{
    lemma_export_reimports(src, d);
    let f = import_spec(src)->Ok_0;
    let g = import_spec(export_text(d))->Ok_0;
    assert forall|k: int| 0 <= k < d.nets@.len() implies (#[trigger] d2.nets@[k]).id == d.nets@[k].id
        && d2.nets@[k].name@ == d.nets@[k].name@ && d2.nets@[k].class == d.nets@[k].class
        && d2.nets@[k].origin == d.nets@[k].origin by {
        assert(net_is(d.nets@[k], f.nets[k]));
        assert(net_is(d2.nets@[k], g.nets[k]));
    }
}


/// The net facts a design's nets stand for.
pub open spec fn net_facts(d: ImportedDesign) -> Seq<NetFact> {
    d.nets@.map_values(|x: Net| fact_of(x))
}

/// A design an export writes so that an import reads it back: every net named, with a
/// readable index, and every track one an import keeps, on one of those nets. Footprints may
/// be present; the export leaves them out.
pub open spec fn exportable(d: ImportedDesign) -> bool {
    &&& forall|k: int|
        0 <= k < d.nets@.len() ==> (#[trigger] d.nets@[k]).id.0 < max_whole_mm() && !spec_is_blank(
            d.nets@[k].name@,
        )
    &&& forall|k: int|
        0 <= k < d.tracks@.len() ==> track_ok(#[trigger] d.tracks@[k], k, kept_ids(net_facts(d)))
}

/// Export then import, for any design with valid nets and tracks: the file reads back as the
/// design's nets (indices and names), its tracks, the copper extent of those tracks, and no
/// footprint and no warning.
#[verifier::rlimit(80)]
#[verifier::spinoff_prover]
pub proof fn lemma_export_reads_back(d: ImportedDesign)
    requires
        exportable(d),
    ensures
        import_spec(export_text(d)) matches Ok(g) && g.nets == net_facts(d) && g.tracks
            == d.tracks@ && g.max_x == tracks_max_x(d.tracks@) && g.max_y == tracks_max_y(
            d.tracks@,
        ) && g.parts.len() == 0 && g.warnings.len() == 0,
{
    let facts0 = net_facts(d);
    let kept = kept_ids(facts0);
    let acc0 = SegAcc { tracks: Seq::empty(), warnings: Seq::empty(), max_x: 0, max_y: 0 };
    assert forall|k: int| 0 <= k < kept.len() implies #[trigger] kept[k] < max_whole_mm() by {
        assert(kept[k] == d.nets@[k].id.0);
    }
    lemma_export_reads(d);
    lemma_export_items(d);
    lemma_heads_distinct();
    let items = export_items(d);
    let n = d.nets@.len();
    let m = d.tracks@.len();
    assert(head_of(items) == Some("kicad_pcb"@));
    lemma_nets_skip(items, 0, 4, Seq::empty());
    reveal_strlit("0");
    lemma_index_digits(0);
    assert(decimal_digits(0) =~= "0"@);
    assert(spec_is_blank(Seq::<char>::empty()));
    assert(nets_from(items, 4, Seq::empty()) == nets_from(items, 5, Seq::empty()));
    lemma_nets_read(items, 5, d.nets@, Seq::empty());
    let facts = Seq::<NetFact>::empty() + d.nets@.map_values(|x: Net| fact_of(x));
    assert(facts =~= facts0);
    assert forall|k: int| (5 + n) <= k < items.len() implies !headed(#[trigger] items[k], "net"@) by {
        if k < 9 + n {
            assert(headed(items[k], "gr_line"@));
        } else {
            assert(items[9 + n + (k - 9 - n)] == SexpV::List(segment_value(d.tracks@[k - 9 - n])));
        }
    }
    lemma_nets_skip(items, 5 + n, items.len(), facts);
    assert(nets_from(items, 0, Seq::empty()) == Ok::<Seq<NetFact>, ImportErrorV>(facts0));
    assert forall|k: int| 0 <= k < 9 + n implies !headed(#[trigger] items[k], "segment"@) by {
        if 5 <= k < 5 + n {
            lemma_group3_value(
                Doc::Bare("net"@),
                Doc::Bare(decimal_digits(d.nets@[k - 5].id.0 as nat)),
                Doc::Quoted(d.nets@[k - 5].name@),
            );
            assert(items[5 + (k - 5)] == doc_value(net_doc(d.nets@[k - 5])));
        }
    }
    lemma_segs_skip(items, 0, 9 + n, kept, acc0);
    assert forall|k: int| 0 <= k < m implies #[trigger] items[(9 + n) + k] == SexpV::List(
        segment_value(d.tracks@[k]),
    ) by {}
    assert forall|k: int| 0 <= k < m implies track_ok(#[trigger] d.tracks@[k], acc0.tracks.len() + k, kept) by {
        assert(track_ok(d.tracks@[k], k, kept));
    }
    lemma_segs_read(items, 9 + n, d.tracks@, kept, acc0);
    assert(acc0.tracks + d.tracks@ =~= d.tracks@);
    let sa1 = SegAcc {
        tracks: d.tracks@,
        warnings: Seq::empty(),
        max_x: tracks_max_x(d.tracks@),
        max_y: tracks_max_y(d.tracks@),
    };
    assert(9 + n + m == items.len());
    assert(segments_from(items, 0, kept, acc0) == Ok::<SegAcc, ImportErrorV>(sa1));
    let fp1 = FpAcc { parts: Seq::empty(), warnings: sa1.warnings, max_x: sa1.max_x, max_y: sa1.max_y, pin_count: 0 };
    assert forall|k: int| 0 <= k < items.len() implies !headed(#[trigger] items[k], "footprint"@)
        && !headed(items[k], "module"@) by {
        if 5 <= k < 5 + n {
            lemma_group3_value(
                Doc::Bare("net"@),
                Doc::Bare(decimal_digits(d.nets@[k - 5].id.0 as nat)),
                Doc::Quoted(d.nets@[k - 5].name@),
            );
            assert(items[5 + (k - 5)] == doc_value(net_doc(d.nets@[k - 5])));
        } else if 9 + n <= k {
            assert(items[9 + n + (k - 9 - n)] == SexpV::List(segment_value(d.tracks@[k - 9 - n])));
        }
    }
    lemma_fps_skip(items, 0, items.len(), kept, fp1);
    assert(footprints_from(items, 0, kept, fp1) == Ok::<FpAcc, ImportErrorV>(fp1));
}

/// Export then import as designs: any design the import of an export yields has the exported
/// design's nets (indices, names, the class each name implies, physical, no members), its
/// tracks, no component and no warning, and the outline sized to the tracks' extent plus
/// 5 mm, never under 10 mm.
pub proof fn lemma_export_reimports_any(d: ImportedDesign, d2: ImportedDesign)
    requires
        exportable(d),
        import_spec(export_text(d)) is Ok,
        design_is(d2, import_spec(export_text(d))->Ok_0),
    ensures
        d2.board.id == EntityId(1),
        d2.board.width == length(max_int(tracks_max_x(d.tracks@) + 5_000_000, 10_000_000)),
        d2.board.height == length(max_int(tracks_max_y(d.tracks@) + 5_000_000, 10_000_000)),
        d2.board.stack.layers@ == standard_layers(),
        d2.nets@.len() == d.nets@.len(),
        forall|k: int|
            0 <= k < d.nets@.len() ==> (#[trigger] d2.nets@[k]).id == d.nets@[k].id
                && d2.nets@[k].name@ == d.nets@[k].name@ && d2.nets@[k].class == net_class_of(
                uppercased(d.nets@[k].name@),
            ) && d2.nets@[k].origin == NetOrigin::Physical && d2.nets@[k].members@.len() == 0,
        d2.tracks@ == d.tracks@,
        d2.components@.len() == 0,
        d2.warnings@.len() == 0,
{
    lemma_export_reads_back(d);
    let g = import_spec(export_text(d))->Ok_0;
    assert forall|k: int| 0 <= k < d.nets@.len() implies (#[trigger] d2.nets@[k]).id == d.nets@[k].id
        && d2.nets@[k].name@ == d.nets@[k].name@ && d2.nets@[k].class == net_class_of(
        uppercased(d.nets@[k].name@),
    ) && d2.nets@[k].origin == NetOrigin::Physical && d2.nets@[k].members@.len() == 0 by {
        assert(net_is(d2.nets@[k], g.nets[k]));
        assert(g.nets[k] == fact_of(d.nets@[k]));
    }
}

} // verus!
