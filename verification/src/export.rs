//! Imported design to `.kicad_pcb`: a header, the net table, an `Edge.Cuts` outline and one
//! `(segment …)` per track, in the exact shapes the importer reads. Deterministic: the same
//! design always yields the same text, every length on KiCad's 1 nm grid.
use vstd::prelude::*;
use vstd::string::StringExecFns;
use crate::decimal::{
    all_digits, decimal_digits, decimal_nm, decimal_text, digit_char, digit_value, digits_value,
    dot_from, is_digit, max_whole_mm, nm_per_mm, pow10, unsigned_part,
};
use vstd::arithmetic::div_mod::{lemma_fundamental_div_mod, lemma_fundamental_div_mod_converse_mod};
use crate::domain::{BoardSide, Net, Quantity, Track};
use crate::kicad::ImportedDesign;
use crate::layout::{lemma_group_doc, render, render_tree, tree_elems, Doc, DocTree};
use crate::text::string_from_chars;

verus! {

/// `k` decimal digits of `f`, zero-padded on the left.
pub open spec fn padded(f: nat, k: nat) -> Seq<char>
    decreases k,
{
    if k == 0 {
        Seq::empty()
    } else {
        padded(f / 10, (k - 1) as nat).push(digit_char(f % 10))
    }
}

/// A text with its trailing `0`s removed.
pub open spec fn trim_zeros(s: Seq<char>) -> Seq<char>
    decreases s.len(),
{
    if s.len() > 0 && s.last() == '0' {
        trim_zeros(s.drop_last())
    } else {
        s
    }
}

/// A length in nanometres written as millimetres on the 1 nm grid, trailing zeros of the
/// fraction dropped (`150000` is `0.15`, `10000000` is `10`, zero is `0`).
pub open spec fn mm_text(nm: int) -> Seq<char> {
    let a = if nm < 0 {
        -nm
    } else {
        nm
    };
    let w = a / 1_000_000;
    let f = a % 1_000_000;
    let sign = if nm < 0 {
        "-"@
    } else {
        Seq::empty()
    };
    if f == 0 {
        if w == 0 {
            "0"@
        } else {
            sign + decimal_digits(w as nat)
        }
    } else {
        sign + decimal_digits(w as nat) + "."@ + trim_zeros(padded(f as nat, 6))
    }
}

/// A length quantity as a millimetre string.
pub fn fmt_mm(nm: i128) -> (r: String)
    ensures
        r@ == mm_text(nm as int),
{
    let a: u128 = if nm < 0 {
        (-(nm + 1)) as u128 + 1
    } else {
        nm as u128
    };
    let w = a / 1_000_000;
    let f = a % 1_000_000;
    if f == 0 {
        if w == 0 {
            return "0".to_owned();
        }
        let mut s = String::new();
        if nm < 0 {
            s.append("-");
        }
        let d = decimal_text(w);
        s.append(d.as_str());
        proof {
            reveal_strlit("-");
        }
        return s;
    }
    // six fraction digits, most significant first
    let mut digits: Vec<char> = Vec::new();
    let mut k: usize = 0;
    let mut rest = f;
    let mut rev: Vec<char> = Vec::new();
    while k < 6
        invariant
            k <= 6,
            padded(f as nat, 6) == padded(rest as nat, (6 - k) as nat) + rev@.reverse(),
        decreases 6 - k,
    {
        let c = crate::text::char_from_ascii((rest % 10) as u32 + 48);
        proof {
            assert(c == digit_char((rest % 10) as nat));
            assert(rev@.push(c).reverse() =~= seq![c] + rev@.reverse());
        }
        rev.push(c);
        rest = rest / 10;
        k += 1;
    }
    assert(padded(rest as nat, 0) =~= Seq::<char>::empty());
    assert(rev@.reverse() == padded(f as nat, 6));
    let mut j = rev.len();
    while j > 0
        invariant
            j <= rev.len(),
            digits@ == rev@.reverse().take((rev.len() - j) as int),
        decreases j,
    {
        j -= 1;
        proof {
            assert(rev@.reverse().take((rev.len() - j) as int) =~= rev@.reverse().take(
                (rev.len() - j - 1) as int,
            ).push(rev@[j as int]));
        }
        digits.push(rev[j]);
    }
    assert(rev@.reverse().take(rev.len() as int) =~= rev@.reverse());
    // trailing zeros dropped
    while digits.len() > 0 && digits[digits.len() - 1] == '0'
        invariant
            trim_zeros(padded(f as nat, 6)) == trim_zeros(digits@),
        decreases digits.len(),
    {
        digits.pop();
    }
    let mut s = String::new();
    if nm < 0 {
        s.append("-");
    }
    let d = decimal_text(w);
    s.append(d.as_str());
    s.append(".");
    let fs = string_from_chars(&digits);
    s.append(fs.as_str());
    s
}

/// The KiCad copper-layer name for a board side.
pub open spec fn layer_token_spec(side: BoardSide) -> Seq<char> {
    match side {
        BoardSide::Top => "F.Cu"@,
        BoardSide::Bottom => "B.Cu"@,
    }
}

pub fn layer_token(side: BoardSide) -> (r: &'static str)
    ensures
        r@ == layer_token_spec(side),
{
    match side {
        BoardSide::Top => "F.Cu",
        BoardSide::Bottom => "B.Cu",
    }
}

/// `(x y)` with one space.
pub open spec fn group2(x: Doc, y: Doc) -> Doc {
    Doc::Group(seq![(Seq::<char>::empty(), x), (" "@, y)], Seq::empty())
}

/// `(x y z)` with single spaces.
pub open spec fn group3(x: Doc, y: Doc, z: Doc) -> Doc {
    Doc::Group(seq![(Seq::<char>::empty(), x), (" "@, y), (" "@, z)], Seq::empty())
}

/// `(net <id> "<name>")`.
pub open spec fn net_doc(n: Net) -> Doc {
    group3(Doc::Bare("net"@), Doc::Bare(decimal_digits(n.id.0 as nat)), Doc::Quoted(n.name@))
}

/// `(segment (start x y) (end x y) (width w) (layer "L") (net n))`, lengths in millimetres.
pub open spec fn segment_doc(t: Track) -> Doc {
    Doc::Group(
        seq![
            (Seq::<char>::empty(), Doc::Bare("segment"@)),
            (
                " "@,
                group3(
                    Doc::Bare("start"@),
                    Doc::Bare(mm_text(t.x1.nano as int)),
                    Doc::Bare(mm_text(t.y1.nano as int)),
                ),
            ),
            (
                " "@,
                group3(
                    Doc::Bare("end"@),
                    Doc::Bare(mm_text(t.x2.nano as int)),
                    Doc::Bare(mm_text(t.y2.nano as int)),
                ),
            ),
            (" "@, group2(Doc::Bare("width"@), Doc::Bare(mm_text(t.width.nano as int)))),
            (" "@, group2(Doc::Bare("layer"@), Doc::Quoted(layer_token_spec(t.layer)))),
            (" "@, group2(Doc::Bare("net"@), Doc::Bare(decimal_digits(t.net.0 as nat)))),
        ],
        Seq::empty(),
    )
}

/// `(gr_line (start sx sy) (end ex ey) (layer "Edge.Cuts") (width 0.1))`.
pub open spec fn edge_doc(sx: Seq<char>, sy: Seq<char>, ex: Seq<char>, ey: Seq<char>) -> Doc {
    Doc::Group(
        seq![
            (Seq::<char>::empty(), Doc::Bare("gr_line"@)),
            (" "@, group3(Doc::Bare("start"@), Doc::Bare(sx), Doc::Bare(sy))),
            (" "@, group3(Doc::Bare("end"@), Doc::Bare(ex), Doc::Bare(ey))),
            (" "@, group2(Doc::Bare("layer"@), Doc::Quoted("Edge.Cuts"@))),
            (" "@, group2(Doc::Bare("width"@), Doc::Bare("0.1"@))),
        ],
        Seq::empty(),
    )
}

/// The layer table: front and back copper, and the board edge.
pub open spec fn layer_table() -> Doc {
    Doc::Group(
        seq![
            (Seq::<char>::empty(), Doc::Bare("layers"@)),
            ("\n    "@, group3(Doc::Bare("0"@), Doc::Quoted("F.Cu"@), Doc::Bare("signal"@))),
            ("\n    "@, group3(Doc::Bare("31"@), Doc::Quoted("B.Cu"@), Doc::Bare("signal"@))),
            ("\n    "@, group3(Doc::Bare("44"@), Doc::Quoted("Edge.Cuts"@), Doc::Bare("user"@))),
        ],
        "\n  "@,
    )
}

/// The header: the version, the generator, the layer table and the unconnected net 0.
pub open spec fn header_elems() -> Seq<(Seq<char>, Doc)> {
    seq![
        (Seq::<char>::empty(), Doc::Bare("kicad_pcb"@)),
        (" "@, group2(Doc::Bare("version"@), Doc::Bare("20221018"@))),
        (" "@, group2(Doc::Bare("generator"@), Doc::Quoted("eak"@))),
        ("\n  "@, layer_table()),
        ("\n  "@, group3(Doc::Bare("net"@), Doc::Bare("0"@), Doc::Quoted(Seq::empty()))),
    ]
}

pub open spec fn net_elems(nets: Seq<Net>) -> Seq<(Seq<char>, Doc)> {
    nets.map_values(|n: Net| ("\n  "@, net_doc(n)))
}

pub open spec fn seg_elems(tracks: Seq<Track>) -> Seq<(Seq<char>, Doc)> {
    tracks.map_values(|t: Track| ("\n  "@, segment_doc(t)))
}

/// The board outline: four `Edge.Cuts` lines from the origin round a `w` by `h` rectangle.
pub open spec fn edge_elems(w: Seq<char>, h: Seq<char>) -> Seq<(Seq<char>, Doc)> {
    seq![
        ("\n  "@, edge_doc("0"@, "0"@, w, "0"@)),
        ("\n  "@, edge_doc(w, "0"@, w, h)),
        ("\n  "@, edge_doc(w, h, "0"@, h)),
        ("\n  "@, edge_doc("0"@, h, "0"@, "0"@)),
    ]
}

/// The document an export lays out: the header, one line per net, the outline at the board's
/// width and height, and one segment per track, each on its own indented line.
pub open spec fn export_doc(d: ImportedDesign) -> Doc {
    let w = mm_text(d.board.width.nano as int);
    let h = mm_text(d.board.height.nano as int);
    Doc::Group(
        header_elems() + net_elems(d.nets@) + edge_elems(w, h) + seg_elems(d.tracks@),
        "\n"@,
    )
}

/// The text an export writes: its document and a final newline.
pub open spec fn export_text(d: ImportedDesign) -> Seq<char> {
    render(export_doc(d)) + "\n"@
}

fn bare(a: &str) -> (t: DocTree)
    ensures
        DocTree::doc(t) == Doc::Bare(a@),
{
    DocTree::Bare(a.to_owned())
}

fn quoted(s: &str) -> (t: DocTree)
    ensures
        DocTree::doc(t) == Doc::Quoted(s@),
{
    DocTree::Quoted(s.to_owned())
}

/// A group of the given elements with nothing before its `)`.
fn group(v: Vec<(String, DocTree)>) -> (t: DocTree)
    ensures
        DocTree::doc(t) == Doc::Group(tree_elems(v@), Seq::empty()),
{
    let tail = String::new();
    proof {
        lemma_group_doc(v, tail);
    }
    DocTree::Group(v, tail)
}

fn g2(x: DocTree, y: DocTree) -> (t: DocTree)
    ensures
        DocTree::doc(t) == group2(DocTree::doc(x), DocTree::doc(y)),
{
    let ghost dx = DocTree::doc(x);
    let ghost dy = DocTree::doc(y);
    let mut v: Vec<(String, DocTree)> = Vec::new();
    v.push((String::new(), x));
    v.push((" ".to_owned(), y));
    assert(tree_elems(v@) =~= seq![(Seq::<char>::empty(), dx), (" "@, dy)]);
    group(v)
}

fn g3(x: DocTree, y: DocTree, z: DocTree) -> (t: DocTree)
    ensures
        DocTree::doc(t) == group3(DocTree::doc(x), DocTree::doc(y), DocTree::doc(z)),
{
    let ghost dx = DocTree::doc(x);
    let ghost dy = DocTree::doc(y);
    let ghost dz = DocTree::doc(z);
    let mut v: Vec<(String, DocTree)> = Vec::new();
    v.push((String::new(), x));
    v.push((" ".to_owned(), y));
    v.push((" ".to_owned(), z));
    assert(tree_elems(v@) =~= seq![(Seq::<char>::empty(), dx), (" "@, dy), (" "@, dz)]);
    group(v)
}

fn net_tree(n: &Net) -> (t: DocTree)
    ensures
        DocTree::doc(t) == net_doc(*n),
{
    let id = decimal_text(n.id.0);
    g3(bare("net"), DocTree::Bare(id), DocTree::Quoted(n.name.clone()))
}

fn segment_tree(t: &Track) -> (r: DocTree)
    ensures
        DocTree::doc(r) == segment_doc(*t),
{
    let start = g3(bare("start"), DocTree::Bare(fmt_mm(t.x1.nano)), DocTree::Bare(fmt_mm(t.y1.nano)));
    let end = g3(bare("end"), DocTree::Bare(fmt_mm(t.x2.nano)), DocTree::Bare(fmt_mm(t.y2.nano)));
    let width = g2(bare("width"), DocTree::Bare(fmt_mm(t.width.nano)));
    let layer = g2(bare("layer"), quoted(layer_token(t.layer)));
    let net = g2(bare("net"), DocTree::Bare(decimal_text(t.net.0)));
    let ghost ds = seq![
        (Seq::<char>::empty(), Doc::Bare("segment"@)),
        (" "@, DocTree::doc(start)),
        (" "@, DocTree::doc(end)),
        (" "@, DocTree::doc(width)),
        (" "@, DocTree::doc(layer)),
        (" "@, DocTree::doc(net)),
    ];
    let mut v: Vec<(String, DocTree)> = Vec::new();
    v.push((String::new(), bare("segment")));
    v.push((" ".to_owned(), start));
    v.push((" ".to_owned(), end));
    v.push((" ".to_owned(), width));
    v.push((" ".to_owned(), layer));
    v.push((" ".to_owned(), net));
    assert(tree_elems(v@) =~= ds);
    group(v)
}

fn edge_tree(sx: &str, sy: &str, ex: &str, ey: &str) -> (r: DocTree)
    ensures
        DocTree::doc(r) == edge_doc(sx@, sy@, ex@, ey@),
{
    let start = g3(bare("start"), bare(sx), bare(sy));
    let end = g3(bare("end"), bare(ex), bare(ey));
    let layer = g2(bare("layer"), quoted("Edge.Cuts"));
    let width = g2(bare("width"), bare("0.1"));
    let ghost ds = seq![
        (Seq::<char>::empty(), Doc::Bare("gr_line"@)),
        (" "@, DocTree::doc(start)),
        (" "@, DocTree::doc(end)),
        (" "@, DocTree::doc(layer)),
        (" "@, DocTree::doc(width)),
    ];
    let mut v: Vec<(String, DocTree)> = Vec::new();
    v.push((String::new(), bare("gr_line")));
    v.push((" ".to_owned(), start));
    v.push((" ".to_owned(), end));
    v.push((" ".to_owned(), layer));
    v.push((" ".to_owned(), width));
    assert(tree_elems(v@) =~= ds);
    group(v)
}

fn header_trees() -> (v: Vec<(String, DocTree)>)
    ensures
        tree_elems(v@) == header_elems(),
{
    let l0 = g3(bare("0"), quoted("F.Cu"), bare("signal"));
    let l1 = g3(bare("31"), quoted("B.Cu"), bare("signal"));
    let l2 = g3(bare("44"), quoted("Edge.Cuts"), bare("user"));
    let mut layers: Vec<(String, DocTree)> = Vec::new();
    layers.push((String::new(), bare("layers")));
    layers.push(("\n    ".to_owned(), l0));
    layers.push(("\n    ".to_owned(), l1));
    layers.push(("\n    ".to_owned(), l2));
    let ltail = "\n  ".to_owned();
    proof {
        lemma_group_doc(layers, ltail);
        assert(tree_elems(layers@) =~= layer_table()->Group_0);
    }
    let table = DocTree::Group(layers, ltail);
    assert(DocTree::doc(table) == layer_table());
    let version = g2(bare("version"), bare("20221018"));
    let generator = g2(bare("generator"), quoted("eak"));
    let net0 = g3(bare("net"), bare("0"), quoted(""));
    let mut v: Vec<(String, DocTree)> = Vec::new();
    v.push((String::new(), bare("kicad_pcb")));
    v.push((" ".to_owned(), version));
    v.push((" ".to_owned(), generator));
    v.push(("\n  ".to_owned(), table));
    v.push(("\n  ".to_owned(), net0));
    proof {
        reveal_strlit("");
        assert(""@ =~= Seq::<char>::empty());
    }
    assert(tree_elems(v@) =~= header_elems());
    v
}

/// Serialize an imported design into a `(kicad_pcb …)` document: nets and tracks in order, the
/// outline at the board's width and height. Footprints are not written.
pub fn export(design: &ImportedDesign) -> (r: String)
    ensures
        r@ == export_text(*design),
{
    let mut v = header_trees();
    let mut i: usize = 0;
    assert(design.nets@.take(0) =~= Seq::<Net>::empty());
    assert(header_elems() + net_elems(design.nets@.take(0)) =~= header_elems());
    while i < design.nets.len()
        invariant
            i <= design.nets.len(),
            tree_elems(v@) == header_elems() + net_elems(design.nets@.take(i as int)),
        decreases design.nets.len() - i,
    {
        let ghost before = v@;
        let nt = net_tree(&design.nets[i]);
        v.push(("\n  ".to_owned(), nt));
        proof {
            let e = ("\n  "@, net_doc(design.nets@[i as int]));
            assert(design.nets@.take(i + 1) =~= design.nets@.take(i as int).push(design.nets@[i as int]));
            assert(tree_elems(v@) =~= tree_elems(before).push(e));
            assert(net_elems(design.nets@.take(i + 1)) =~= net_elems(design.nets@.take(i as int)).push(e));
            assert(tree_elems(v@) =~= header_elems() + net_elems(design.nets@.take(i + 1)));
        }
        i += 1;
    }
    assert(design.nets@.take(design.nets.len() as int) =~= design.nets@);
    let w = fmt_mm(design.board.width.nano);
    let h = fmt_mm(design.board.height.nano);
    let ghost before_edges = v@;
    let e0 = edge_tree("0", "0", w.as_str(), "0");
    let e1 = edge_tree(w.as_str(), "0", w.as_str(), h.as_str());
    let e2 = edge_tree(w.as_str(), h.as_str(), "0", h.as_str());
    let e3 = edge_tree("0", h.as_str(), "0", "0");
    v.push(("\n  ".to_owned(), e0));
    v.push(("\n  ".to_owned(), e1));
    v.push(("\n  ".to_owned(), e2));
    v.push(("\n  ".to_owned(), e3));
    assert(tree_elems(v@) =~= tree_elems(before_edges) + edge_elems(w@, h@));
    let ghost mid = tree_elems(v@);
    let mut t: usize = 0;
    assert(design.tracks@.take(0) =~= Seq::<Track>::empty());
    assert(mid + seg_elems(design.tracks@.take(0)) =~= mid);
    while t < design.tracks.len()
        invariant
            t <= design.tracks.len(),
            tree_elems(v@) == mid + seg_elems(design.tracks@.take(t as int)),
        decreases design.tracks.len() - t,
    {
        let ghost before = v@;
        let st = segment_tree(&design.tracks[t]);
        v.push(("\n  ".to_owned(), st));
        proof {
            let e = ("\n  "@, segment_doc(design.tracks@[t as int]));
            assert(design.tracks@.take(t + 1) =~= design.tracks@.take(t as int).push(
                design.tracks@[t as int],
            ));
            assert(tree_elems(v@) =~= tree_elems(before).push(e));
            assert(seg_elems(design.tracks@.take(t + 1)) =~= seg_elems(design.tracks@.take(t as int)).push(e));
            assert(tree_elems(v@) =~= mid + seg_elems(design.tracks@.take(t + 1)));
        }
        t += 1;
    }
    assert(design.tracks@.take(design.tracks.len() as int) =~= design.tracks@);
    let tail = "\n".to_owned();
    proof {
        lemma_group_doc(v, tail);
    }
    let doc = DocTree::Group(v, tail);
    let mut out = render_tree(&doc);
    out.append("\n");
    out
}

// ------------------------------------------------------------------ lengths read back

/// A decimal numeral is digits only, at least one, and reads back as its number.
pub proof fn lemma_decimal_digits_read(n: nat)
    ensures
        all_digits(decimal_digits(n)),
        decimal_digits(n).len() >= 1,
        digits_value(decimal_digits(n)) == n,
    decreases n,
{
    assert(digit_value(digit_char(n % 10)) == n % 10);
    if n >= 10 {
        lemma_decimal_digits_read(n / 10);
        let d = decimal_digits(n / 10);
        assert(decimal_digits(n).drop_last() =~= d);
        assert(decimal_digits(n).last() == digit_char(n % 10));
        assert(n == (n / 10) * 10 + n % 10);
        assert(digits_value(decimal_digits(n)) == digits_value(d) * 10 + digit_value(
            digit_char(n % 10),
        ));
        assert forall|i: int| 0 <= i < decimal_digits(n).len() implies is_digit(
            #[trigger] decimal_digits(n)[i],
        ) by {
            if i < d.len() {
                assert(decimal_digits(n)[i] == d[i]);
            }
        }
    } else {
        assert(seq![digit_char(n)].drop_last() =~= Seq::<char>::empty());
        assert(n % 10 == n);
        assert(is_digit(digit_char(n)));
        assert(digits_value(Seq::<char>::empty()) == 0);
        assert(digits_value(seq![digit_char(n)]) == digits_value(Seq::<char>::empty()) * 10
            + digit_value(digit_char(n)));
    }
}

/// `k` zero-padded digits of `f` are `k` digits reading as `f` modulo `10^k`.
pub proof fn lemma_padded_read(f: nat, k: nat)
    ensures
        padded(f, k).len() == k,
        all_digits(padded(f, k)),
        digits_value(padded(f, k)) == f % pow10(k),
    decreases k,
{
    if k > 0 {
        lemma_padded_read(f / 10, (k - 1) as nat);
        let p = pow10((k - 1) as nat);
        let prev = padded(f / 10, (k - 1) as nat);
        assert(padded(f, k).drop_last() =~= prev);
        assert forall|i: int| 0 <= i < padded(f, k).len() implies is_digit(#[trigger] padded(f, k)[i]) by {
            if i < prev.len() {
                assert(padded(f, k)[i] == prev[i]);
            }
        }
        assert(p > 0) by {
            lemma_pow10_positive((k - 1) as nat);
        }
        let q = f / 10;
        let r = f % 10;
        let a = q / p;
        let b = q % p;
        assert(f == q * 10 + r);
        lemma_fundamental_div_mod(q as int, p as int);
        assert(q == a * p + b);
        assert(f == a * (10 * p) + (b * 10 + r)) by (nonlinear_arith)
            requires
                f == q * 10 + r,
                q == a * p + b,
        ;
        assert(0 <= b * 10 + r < 10 * p) by (nonlinear_arith)
            requires
                0 <= b < p,
                0 <= r < 10,
        ;
        lemma_fundamental_div_mod_converse_mod(f as int, (10 * p) as int, a as int, (b * 10 + r) as int);
    } else {
        assert(f % 1 == 0);
    }
}

pub proof fn lemma_pow10_positive(n: nat)
    ensures
        pow10(n) >= 1,
    decreases n,
{
    if n > 0 {
        lemma_pow10_positive((n - 1) as nat);
    }
}

/// Dropping trailing zeros keeps digits only and divides the value by a power of ten; of a
/// non-zero value something is left.
pub proof fn lemma_trim_zeros_read(s: Seq<char>)
    requires
        all_digits(s),
    ensures
        trim_zeros(s).len() <= s.len(),
        all_digits(trim_zeros(s)),
        trim_zeros(s) == s.take(trim_zeros(s).len() as int),
        digits_value(s) == digits_value(trim_zeros(s)) * pow10((s.len() - trim_zeros(s).len()) as nat),
        digits_value(s) != 0 ==> trim_zeros(s).len() >= 1,
    decreases s.len(),
{
    if s.len() > 0 && s.last() == '0' {
        let s1 = s.drop_last();
        lemma_trim_zeros_read(s1);
        let t = trim_zeros(s1);
        let n = (s1.len() - t.len()) as nat;
        assert(trim_zeros(s) == t);
        assert(s.take(t.len() as int) =~= s1.take(t.len() as int));
        assert(digit_value(s.last()) == 0);
        assert(digits_value(s) == digits_value(s1) * 10);
        assert(digits_value(s1) == digits_value(t) * pow10(n));
        assert(pow10(n + 1) == 10 * pow10(n));
        let vt = digits_value(t) as int;
        let pn = pow10(n) as int;
        assert((vt * pn) * 10 == vt * (10 * pn)) by (nonlinear_arith);
        assert((s.len() - t.len()) as nat == n + 1);
        assert(digits_value(s) == digits_value(t) * pow10(n + 1));
    } else {
        assert(s.take(s.len() as int) =~= s);
        assert(trim_zeros(s) == s);
        assert(pow10(0) == 1);
        assert(digits_value(s) * pow10(0) == digits_value(s));
    }
}

/// Positions of a digit run hold no `.`, so the first `.` from inside it is where it ends.
proof fn lemma_dot_after_digits(body: Seq<char>, d: Seq<char>, i: nat)
    requires
        all_digits(d),
        body.len() >= d.len(),
        body.take(d.len() as int) == d,
        i <= d.len(),
        d.len() < body.len() ==> body[d.len() as int] == '.',
    ensures
        dot_from(body, i) == d.len(),
    decreases d.len() - i,
{
    if i < d.len() {
        assert(body[i as int] == d[i as int]);
        lemma_dot_after_digits(body, d, i + 1);
    }
}

pub open spec fn sign_text(neg: bool) -> Seq<char> {
    if neg {
        "-"@
    } else {
        Seq::empty()
    }
}

/// A sign and a run that starts with a digit read as that sign and that run.
proof fn lemma_unsigned(neg: bool, body: Seq<char>)
    requires
        body.len() > 0,
        is_digit(body[0]),
    ensures
        unsigned_part(sign_text(neg) + body) == (neg, body),
{
    reveal_strlit("-");
    let text = sign_text(neg) + body;
    if neg {
        assert(text[0] == '-');
        assert(text.drop_first() =~= body);
    } else {
        assert(text =~= body);
    }
}

/// Whole millimetres, signed, read back.
proof fn lemma_read_whole(neg: bool, w: nat)
    requires
        0 < w < max_whole_mm(),
    ensures
        decimal_nm(sign_text(neg) + decimal_digits(w)) == Some(
            if neg {
                -(w * 1_000_000) as int
            } else {
                (w * 1_000_000) as int
            },
        ),
{
    lemma_decimal_digits_read(w);
    let dd = decimal_digits(w);
    lemma_unsigned(neg, dd);
    assert(dd.take(dd.len() as int) =~= dd);
    lemma_dot_after_digits(dd, dd, 0);
    assert(all_digits(Seq::<char>::empty()));
    assert(digits_value(Seq::<char>::empty()) == 0);
    assert(pow10(6) == 1_000_000) by {
        reveal_with_fuel(pow10, 7);
    }
    let text = sign_text(neg) + dd;
    assert(unsigned_part(text) == (neg, dd));
    assert(dot_from(dd, 0) == dd.len());
    let fp = Seq::<char>::empty();
    assert(digits_value(fp) == 0);
    assert((6 - fp.len()) as nat == 6);
    assert(pow10((6 - fp.len()) as nat) == 1_000_000);
    assert(digits_value(fp) * pow10((6 - fp.len()) as nat) == 0 * 1_000_000);
    assert(digits_value(dd) * nm_per_mm() == w * 1_000_000);
}

/// Millimetres with a non-zero fraction, signed, read back.
#[verifier::rlimit(30)]
proof fn lemma_read_fraction(neg: bool, w: nat, f: nat)
    requires
        w < max_whole_mm(),
        0 < f < 1_000_000,
    ensures
        decimal_nm(sign_text(neg) + (decimal_digits(w) + "."@ + trim_zeros(padded(f, 6)))) == Some(
            if neg {
                -(w * 1_000_000 + f) as int
            } else {
                (w * 1_000_000 + f) as int
            },
        ),
{
    reveal_strlit(".");
    assert(pow10(6) == 1_000_000) by {
        reveal_with_fuel(pow10, 7);
    }
    lemma_decimal_digits_read(w);
    let dd = decimal_digits(w);
    lemma_padded_read(f, 6);
    let pd = padded(f, 6);
    lemma_trim_zeros_read(pd);
    let t = trim_zeros(pd);
    let body = dd + "."@ + t;
    assert(body[0] == dd[0]);
    lemma_unsigned(neg, body);
    assert(body.take(dd.len() as int) =~= dd);
    assert(body[dd.len() as int] == '.');
    lemma_dot_after_digits(body, dd, 0);
    assert(body.skip(dd.len() + 1int) =~= t);
    assert(f % pow10(6) == f);
    assert(digits_value(t) * pow10((6 - t.len()) as nat) == f);
}

/// Zero millimetres read back.
proof fn lemma_read_zero()
    ensures
        decimal_nm("0"@) == Some(0int),
{
    reveal_strlit("0");
    let body = "0"@;
    assert(body =~= seq!['0']);
    assert(is_digit(body[0]));
    assert(all_digits(body));
    lemma_unsigned(false, body);
    assert(sign_text(false) + body =~= body);
    assert(body.take(1) =~= body);
    lemma_dot_after_digits(body, body, 0);
    assert(body.drop_last() =~= Seq::<char>::empty());
    assert(digits_value(body) == 0);
    assert(all_digits(Seq::<char>::empty()));
    assert(digits_value(Seq::<char>::empty()) == 0);
    assert(pow10(6) == 1_000_000) by {
        reveal_with_fuel(pow10, 7);
    }
}

/// Every length `export` writes reads back as the same length: the millimetre text of `nm`
/// parses to `nm` exactly, for any length whose whole millimetres are in the readable range.
#[verifier::spinoff_prover]
pub proof fn lemma_mm_text_reads_back(nm: int)
    requires
        -(max_whole_mm() * nm_per_mm()) < nm < max_whole_mm() * nm_per_mm(),
    ensures
        decimal_nm(mm_text(nm)) == Some(nm),
{
    let a: int = if nm < 0 { -nm } else { nm };
    let w = a / 1_000_000;
    let f = a % 1_000_000;
    assert(a == w * 1_000_000 + f);
    assert(0 <= f < 1_000_000);
    assert(w < max_whole_mm()) by (nonlinear_arith)
        requires
            a < max_whole_mm() * 1_000_000,
            a == w * 1_000_000 + f,
            0 <= f,
    ;
    if f == 0 {
        if w == 0 {
            assert(a == 0 && nm == 0);
            assert(mm_text(nm) == "0"@);
            lemma_read_zero();
        } else {
            assert(mm_text(nm) =~= sign_text(nm < 0) + decimal_digits(w as nat));
            lemma_read_whole(nm < 0, w as nat);
            assert((w * 1_000_000) as int == a);
        }
    } else {
        assert(mm_text(nm) =~= sign_text(nm < 0) + (decimal_digits(w as nat) + "."@ + trim_zeros(
            padded(f as nat, 6),
        )));
        lemma_read_fraction(nm < 0, w as nat, f as nat);
        assert((w * 1_000_000 + f) as int == a);
    }
}

} // verus!
