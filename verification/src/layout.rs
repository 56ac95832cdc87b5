//! Laid-out s-expressions, the writer's side of the reader: a document of atoms and groups
//! with its white space, the text it lays out, and the law that the reader reads that text
//! back as the document's tree.
use vstd::prelude::*;
use crate::sexp::{
    bare_end, is_delim, lemma_quote_reads_back_at, parse_list_spec,
    parse_node_spec, quote, quote_spec, ws_end, Parsed, SexpV, MAX_PARSE_DEPTH,
};
use vstd::string::StringExecFns;
use crate::text::spec_is_whitespace;

verus! {

/// A laid-out s-expression: a bare atom, a quoted atom, or a parenthesised group whose
/// elements each follow their own leading white space, with white space before the `)`.
pub enum Doc {
    Bare(Seq<char>),
    Quoted(Seq<char>),
    Group(Seq<(Seq<char>, Doc)>, Seq<char>),
}

pub open spec fn all_ws(s: Seq<char>) -> bool {
    forall|i: int| 0 <= i < s.len() ==> spec_is_whitespace(#[trigger] s[i])
}

/// A bare atom: some characters, none a delimiter or a quote.
pub open spec fn bare_ok(a: Seq<char>) -> bool {
    &&& a.len() > 0
    &&& forall|i: int| 0 <= i < a.len() ==> !is_delim(#[trigger] a[i]) && a[i] != '"'
}

/// The text a document lays out.
pub open spec fn render(d: Doc) -> Seq<char>
    decreases d, 0int,
{
    match d {
        Doc::Bare(a) => a,
        Doc::Quoted(s) => quote_spec(s),
        Doc::Group(es, tail) => seq!['('] + render_elems(es) + tail + seq![')'],
    }
}

/// The elements of a group, each after its leading white space.
pub open spec fn render_elems(es: Seq<(Seq<char>, Doc)>) -> Seq<char>
    decreases es, 1int,
{
    if es.len() == 0 {
        Seq::empty()
    } else {
        es[0].0 + render(es[0].1) + render_elems(es.drop_first())
    }
}

/// The tree a document lays out.
pub open spec fn doc_value(d: Doc) -> SexpV
    decreases d, 0int,
{
    match d {
        Doc::Bare(a) => SexpV::Atom(a),
        Doc::Quoted(s) => SexpV::Atom(s),
        Doc::Group(es, _) => SexpV::List(elem_values(es)),
    }
}

pub open spec fn elem_values(es: Seq<(Seq<char>, Doc)>) -> Seq<SexpV>
    decreases es, 1int,
{
    if es.len() == 0 {
        Seq::empty()
    } else {
        seq![doc_value(es[0].1)] + elem_values(es.drop_first())
    }
}

/// How deeply a document nests groups.
pub open spec fn height(d: Doc) -> nat
    decreases d, 0int,
{
    match d {
        Doc::Bare(_) => 0,
        Doc::Quoted(_) => 0,
        Doc::Group(es, _) => 1 + elems_height(es),
    }
}

pub open spec fn elems_height(es: Seq<(Seq<char>, Doc)>) -> nat
    decreases es, 1int,
{
    if es.len() == 0 {
        0
    } else {
        let h = height(es[0].1);
        let r = elems_height(es.drop_first());
        if h >= r {
            h
        } else {
            r
        }
    }
}

/// A document the reader reads back: bare atoms are bare, white space is white space, and
/// every element after the first is separated from the one before it.
pub open spec fn doc_ok(d: Doc) -> bool
    decreases d, 0int,
{
    match d {
        Doc::Bare(a) => bare_ok(a),
        Doc::Quoted(_) => true,
        Doc::Group(es, tail) => all_ws(tail) && elems_ok(es, true),
    }
}

pub open spec fn elems_ok(es: Seq<(Seq<char>, Doc)>, first: bool) -> bool
    decreases es, 1int,
{
    if es.len() == 0 {
        true
    } else {
        &&& all_ws(es[0].0)
        &&& (first || es[0].0.len() > 0)
        &&& doc_ok(es[0].1)
        &&& elems_ok(es.drop_first(), false)
    }
}

/// The first character of a laid-out document opens it: `(`, `"` or a bare character.
pub proof fn lemma_render_first(d: Doc)
    requires
        doc_ok(d),
    ensures
        render(d).len() > 0,
        !spec_is_whitespace(render(d)[0]),
        render(d)[0] != ')',
        d is Group <==> render(d)[0] == '(',
{
    match d {
        Doc::Bare(a) => {
            assert(!is_delim(a[0]));
        },
        Doc::Quoted(s) => {
            assert(render(d)[0] == '"');
        },
        Doc::Group(es, tail) => {
            assert(render(d)[0] == '(');
        },
    }
}

/// White space read from `p` ends where the white-space run ends.
pub proof fn lemma_ws_run(x: Seq<char>, p: nat, w: Seq<char>)
    requires
        all_ws(w),
        p + w.len() <= x.len(),
        x.subrange(p as int, p + w.len() as int) == w,
        p + w.len() < x.len() ==> !spec_is_whitespace(x[p + w.len() as int]),
    ensures
        ws_end(x, p) == p + w.len(),
    decreases w.len(),
{
    if w.len() > 0 {
        assert(x[p as int] == x.subrange(p as int, p + w.len() as int)[0]);
        assert(spec_is_whitespace(w[0]));
        let w1 = w.drop_first();
        assert(x.subrange((p + 1) as int, p + 1 + w1.len() as int) =~= w1) by {
            assert forall|m: int| 0 <= m < w1.len() implies x.subrange(
                (p + 1) as int,
                p + 1 + w1.len() as int,
            )[m] == w1[m] by {
                assert(x.subrange(p as int, p + w.len() as int)[m + 1] == x[p + 1 + m]);
            }
        }
        lemma_ws_run(x, p + 1, w1);
    }
}

/// A bare atom read from `p` ends where the atom ends, at a delimiter or the end.
pub proof fn lemma_bare_run(x: Seq<char>, p: nat, a: Seq<char>, k: nat)
    requires
        bare_ok(a),
        k <= a.len(),
        p + a.len() <= x.len(),
        x.subrange(p as int, p + a.len() as int) == a,
        p + a.len() < x.len() ==> is_delim(x[p + a.len() as int]),
    ensures
        bare_end(x, p + k) == p + a.len(),
    decreases a.len() - k,
{
    if k < a.len() {
        assert(x[(p + k) as int] == x.subrange(p as int, p + a.len() as int)[k as int]);
        lemma_bare_run(x, p, a, k + 1);
    }
}


/// A text standing at `i` that is a concatenation stands there piece by piece.
pub proof fn lemma_sub_split(x: Seq<char>, i: nat, a: Seq<char>, b: Seq<char>)
    requires
        i + a.len() + b.len() <= x.len(),
        x.subrange(i as int, (i + a.len() + b.len()) as int) == a + b,
    ensures
        x.subrange(i as int, (i + a.len()) as int) == a,
        x.subrange((i + a.len()) as int, (i + a.len() + b.len()) as int) == b,
{
    let ii = i as int;
    let al = a.len() as int;
    let bl = b.len() as int;
    assert(x.subrange(ii, ii + al) =~= a) by {
        assert forall|m: int| 0 <= m < al implies x.subrange(ii, ii + al)[m] == a[m] by {
            assert(x.subrange(ii, ii + al + bl)[m] == (a + b)[m]);
        }
    }
    assert(x.subrange(ii + al, ii + al + bl) =~= b) by {
        assert forall|m: int| 0 <= m < bl implies x.subrange(ii + al, ii + al + bl)[m] == b[m] by {
            assert(x.subrange(ii, ii + al + bl)[al + m] == (a + b)[al + m]);
        }
    }
}

/// A group's elements laid out from `i` (after its `(`), then its closing white space and
/// `)`, read as the elements' trees after `acc`, and the reader stops right after the `)`.
pub proof fn lemma_elems_read(
    x: Seq<char>,
    i: nat,
    depth: nat,
    acc: Seq<SexpV>,
    es: Seq<(Seq<char>, Doc)>,
    tail: Seq<char>,
    first: bool,
)
    requires
        elems_ok(es, first),
        all_ws(tail),
        depth + 1 + elems_height(es) <= MAX_PARSE_DEPTH,
        i + render_elems(es).len() + tail.len() + 1 <= x.len(),
        x.subrange(i as int, (i + render_elems(es).len() + tail.len() + 1) as int) == render_elems(es) + tail
            + seq![')'],
    ensures
        parse_list_spec(x, i, depth, acc) == Parsed::Node(
            SexpV::List(acc + elem_values(es)),
            i + render_elems(es).len() + tail.len() + 1,
        ),
    decreases es, 1int,
{
    if es.len() == 0 {
        assert(render_elems(es) =~= Seq::<char>::empty());
        assert(elem_values(es) =~= Seq::<SexpV>::empty());
        lemma_sub_split(x, i, tail, seq![')']);
        assert(x[(i + tail.len()) as int] == x.subrange((i + tail.len()) as int, (i + tail.len() + 1) as int)[0]);
        lemma_ws_run(x, i, tail);
        assert(acc + elem_values(es) =~= acc);
    } else {
        let w = es[0].0;
        let d0 = es[0].1;
        let r0 = render(d0);
        let rest = es.drop_first();
        let after = render_elems(rest) + tail + seq![')'];
        assert(render_elems(es) == w + r0 + render_elems(rest));
        assert(render_elems(es) + tail + seq![')'] =~= w + (r0 + after));
        lemma_sub_split(x, i, w, r0 + after);
        let j = i + w.len();
        lemma_sub_split(x, j, r0, after);
        lemma_render_first(d0);
        assert(x[j as int] == x.subrange(j as int, (j + r0.len()) as int)[0]);
        lemma_ws_run(x, i, w);
        let e = j + r0.len();
        assert(x[e as int] == x.subrange(e as int, (e + after.len()) as int)[0]);
        if rest.len() > 0 {
            assert(render_elems(rest) == rest[0].0 + render(rest[0].1) + render_elems(rest.drop_first()));
            assert(elems_ok(rest, false));
            assert(rest[0].0.len() > 0);
            assert(all_ws(rest[0].0));
            assert(after[0] == rest[0].0[0]);
            assert(spec_is_whitespace(rest[0].0[0]));
        } else {
            assert(render_elems(rest) =~= Seq::<char>::empty());
            if tail.len() > 0 {
                assert(after[0] == tail[0]);
            } else {
                assert(after[0] == ')');
            }
        }
        assert(height(d0) <= elems_height(es));
        lemma_doc_reads(x, j, depth + 1, d0);
        assert(elems_height(rest) <= elems_height(es));
        lemma_elems_read(x, e, depth, acc.push(doc_value(d0)), rest, tail, false);
        assert(elem_values(es) == seq![doc_value(d0)] + elem_values(rest));
        assert(acc.push(doc_value(d0)) + elem_values(rest) =~= acc + elem_values(es));
    }
}

/// A laid-out document standing at `p` reads as its tree, and the reader stops right after
/// it (a bare atom needs a delimiter or the end of the text after it).
pub proof fn lemma_doc_reads(x: Seq<char>, p: nat, depth: nat, d: Doc)
    requires
        doc_ok(d),
        depth + height(d) <= MAX_PARSE_DEPTH,
        p + render(d).len() <= x.len(),
        x.subrange(p as int, (p + render(d).len()) as int) == render(d),
        d is Bare && p + render(d).len() < x.len() ==> is_delim(x[(p + render(d).len()) as int]),
    ensures
        parse_node_spec(x, p, depth) == Parsed::Node(doc_value(d), p + render(d).len()),
    decreases d, 0int,
{
    lemma_render_first(d);
    let r = render(d);
    assert(x[p as int] == x.subrange(p as int, (p + r.len()) as int)[0]);
    assert(x.subrange(p as int, p as int) =~= Seq::<char>::empty());
    lemma_ws_run(x, p, Seq::empty());
    match d {
        Doc::Bare(a) => {
            lemma_bare_run(x, p, a, 0);
        },
        Doc::Quoted(s) => {
            lemma_quote_reads_back_at(x, p, s, depth);
        },
        Doc::Group(es, tail) => {
            assert(r == seq!['('] + (render_elems(es) + tail + seq![')']));
            lemma_sub_split(x, p, seq!['('], render_elems(es) + tail + seq![')']);
            lemma_elems_read(x, p + 1, depth, Seq::empty(), es, tail, true);
            assert(Seq::<SexpV>::empty() + elem_values(es) =~= elem_values(es));
        },
    }
}


// ------------------------------------------------------------------ composing documents

pub proof fn lemma_render_elems_concat(a: Seq<(Seq<char>, Doc)>, b: Seq<(Seq<char>, Doc)>)
    ensures
        render_elems(a + b) == render_elems(a) + render_elems(b),
    decreases a.len(),
{
    if a.len() == 0 {
        assert(a + b =~= b);
        assert(render_elems(a) =~= Seq::<char>::empty());
        assert(Seq::<char>::empty() + render_elems(b) =~= render_elems(b));
    } else {
        lemma_render_elems_concat(a.drop_first(), b);
        assert((a + b).drop_first() =~= a.drop_first() + b);
        assert((a + b)[0] == a[0]);
        assert(render_elems(a + b) == a[0].0 + render(a[0].1) + render_elems(a.drop_first() + b));
        assert(render_elems(a) == a[0].0 + render(a[0].1) + render_elems(a.drop_first()));
        assert(render_elems(a + b) =~= render_elems(a) + render_elems(b));
    }
}

/// An element separated from what precedes it by white space, laying out a readable document.
pub open spec fn sep_ok(e: (Seq<char>, Doc)) -> bool {
    &&& all_ws(e.0)
    &&& e.0.len() > 0
    &&& doc_ok(e.1)
}

pub proof fn lemma_elems_ok_sep(es: Seq<(Seq<char>, Doc)>, first: bool)
    requires
        forall|i: int| 0 <= i < es.len() ==> sep_ok(#[trigger] es[i]),
    ensures
        elems_ok(es, first),
    decreases es.len(),
{
    if es.len() > 0 {
        assert(sep_ok(es[0]));
        assert forall|i: int| 0 <= i < es.drop_first().len() implies sep_ok(
            #[trigger] es.drop_first()[i],
        ) by {
            assert(es.drop_first()[i] == es[i + 1]);
        }
        lemma_elems_ok_sep(es.drop_first(), false);
    }
}

pub proof fn lemma_elems_height_bound(es: Seq<(Seq<char>, Doc)>, h: nat)
    requires
        forall|i: int| 0 <= i < es.len() ==> height(#[trigger] es[i].1) <= h,
    ensures
        elems_height(es) <= h,
    decreases es.len(),
{
    if es.len() > 0 {
        assert(height(es[0].1) <= h);
        assert forall|i: int| 0 <= i < es.drop_first().len() implies height(
            #[trigger] es.drop_first()[i].1,
        ) <= h by {
            assert(es.drop_first()[i] == es[i + 1]);
        }
        lemma_elems_height_bound(es.drop_first(), h);
    }
}




// ------------------------------------------------------------------ laying documents out

/// An executable document: what [`render_tree`] writes out.
pub enum DocTree {
    Bare(String),
    Quoted(String),
    Group(Vec<(String, DocTree)>, String),
}

impl DocTree {
    pub open spec fn doc(t: DocTree) -> Doc
        decreases t,
    {
        match t {
            DocTree::Bare(a) => Doc::Bare(a@),
            DocTree::Quoted(s) => Doc::Quoted(s@),
            DocTree::Group(v, tail) => Doc::Group(
                Seq::new(
                    v@.len(),
                    |i: int|
                        if 0 <= i < v@.len() {
                            (v@[i].0@, DocTree::doc(v@[i].1))
                        } else {
                            (Seq::empty(), Doc::Bare(Seq::empty()))
                        },
                ),
                tail@,
            ),
        }
    }
}

/// The documents of a group's executable elements.
pub open spec fn tree_elems(v: Seq<(String, DocTree)>) -> Seq<(Seq<char>, Doc)> {
    Seq::new(v.len(), |i: int| (v[i].0@, DocTree::doc(v[i].1)))
}

pub proof fn lemma_group_doc(v: Vec<(String, DocTree)>, tail: String)
    ensures
        DocTree::doc(DocTree::Group(v, tail)) == Doc::Group(tree_elems(v@), tail@),
{
    let d = DocTree::doc(DocTree::Group(v, tail));
    assert(d->Group_0 =~= tree_elems(v@));
}

pub proof fn lemma_render_elems_push(es: Seq<(Seq<char>, Doc)>, e: (Seq<char>, Doc))
    ensures
        render_elems(es.push(e)) == render_elems(es) + e.0 + render(e.1),
{
    lemma_render_elems_concat(es, seq![e]);
    assert(es.push(e) =~= es + seq![e]);
    assert((seq![e]).drop_first() =~= Seq::<(Seq<char>, Doc)>::empty());
    assert(render_elems(Seq::<(Seq<char>, Doc)>::empty()) =~= Seq::<char>::empty());
    assert(render_elems(seq![e]) =~= e.0 + render(e.1));
    assert(render_elems(es) + (e.0 + render(e.1)) =~= render_elems(es) + e.0 + render(e.1));
}

/// Write a document out.
pub fn render_tree(t: &DocTree) -> (r: String)
    ensures
        r@ == render(DocTree::doc(*t)),
    decreases t,
{
    match t {
        DocTree::Bare(a) => a.clone(),
        DocTree::Quoted(s) => quote(s.as_str()),
        DocTree::Group(v, tail) => {
            proof {
                lemma_group_doc(*v, *tail);
            }
            let ghost es = tree_elems(v@);
            let mut out = "(".to_owned();
            let mut i: usize = 0;
            proof {
                reveal_strlit("(");
                assert(es.take(0) =~= Seq::<(Seq<char>, Doc)>::empty());
                assert(render_elems(es.take(0)) =~= Seq::<char>::empty());
                assert(out@ =~= seq!['('] + render_elems(es.take(0)));
            }
            while i < v.len()
                invariant
                    i <= v.len(),
                    es == tree_elems(v@),
                    *t == DocTree::Group(*v, *tail),
                    out@ == seq!['('] + render_elems(es.take(i as int)),
                decreases v.len() - i,
            {
                out.append(v[i].0.as_str());
                proof {
                    let tt = *t;
                    assert(tt == DocTree::Group(*v, *tail));
                    vstd::std_specs::vec::axiom_vec_index_decreases(*v, i as int);
                    assert(decreases_to!(*v => v[i as int]));
                    assert(decreases_to!(v[i as int] => v[i as int].1));
                    assert(decreases_to!(tt => tt->Group_0));
                }
                let r = render_tree(&v[i].1);
                out.append(r.as_str());
                proof {
                    assert(es.take(i + 1) =~= es.take(i as int).push(es[i as int]));
                    lemma_render_elems_push(es.take(i as int), es[i as int]);
                    assert(out@ =~= seq!['('] + render_elems(es.take(i + 1)));
                }
                i += 1;
            }
            assert(es.take(v.len() as int) =~= es);
            out.append(tail.as_str());
            out.append(")");
            proof {
                reveal_strlit(")");
                assert(out@ =~= seq!['('] + render_elems(es) + tail@ + seq![')']);
            }
            out
        },
    }
}

} // verus!
