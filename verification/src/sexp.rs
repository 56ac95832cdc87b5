//! The s-expression reader behind `.kicad_pcb` import: a tree of atoms and lists, read by a
//! recursive-descent grammar with a bounded nesting depth.
use vstd::prelude::*;
use crate::kicad::ImportError;
use crate::text::{chars_of, is_whitespace, spec_is_whitespace, string_from_chars};

verus! {

/// Maximum s-expression nesting depth. Deeper input is refused with
/// [`ImportError::TooDeep`] instead of exhausting the stack.
pub const MAX_PARSE_DEPTH: usize = 256;

/// The mathematical value of an s-expression.
pub enum SexpV {
    Atom(Seq<char>),
    List(Seq<SexpV>),
}

/// A parsed s-expression node: either a leaf token or a parenthesised list.
pub enum Sexp {
    Atom(String),
    List(Vec<Sexp>),
}

impl Sexp {
    pub open spec fn value(s: Sexp) -> SexpV
        decreases s,
    {
        match s {
            Sexp::Atom(a) => SexpV::Atom(a@),
            Sexp::List(v) => SexpV::List(
                Seq::new(
                    v@.len(),
                    |i: int|
                        if 0 <= i < v@.len() {
                            Sexp::value(v@[i])
                        } else {
                            SexpV::Atom(Seq::empty())
                        },
                ),
            ),
        }
    }
}

impl View for Sexp {
    type V = SexpV;

    open spec fn view(&self) -> SexpV {
        Sexp::value(*self)
    }
}

/// The values of a slice of nodes.
pub open spec fn values(v: Seq<Sexp>) -> Seq<SexpV> {
    Seq::new(v.len(), |i: int| v[i]@)
}

/// What reading one node from a position yields.
pub enum Parsed {
    /// The node and the position just after it.
    Node(SexpV, nat),
    /// No s-expression at all.
    Empty,
    /// A list or quoted string was left open.
    Unbalanced,
    /// Nesting went past [`MAX_PARSE_DEPTH`].
    TooDeep,
}

/// The first position at or after `i` that holds no white space (or the end).
pub open spec fn ws_end(s: Seq<char>, i: nat) -> nat
    decreases s.len() - i,
{
    if i < s.len() && spec_is_whitespace(s[i as int]) {
        ws_end(s, i + 1)
    } else {
        i
    }
}

/// A character that ends a bare atom.
pub open spec fn is_delim(c: char) -> bool {
    spec_is_whitespace(c) || c == '(' || c == ')'
}

/// The end of the bare atom starting at `i`.
pub open spec fn bare_end(s: Seq<char>, i: nat) -> nat
    decreases s.len() - i,
{
    if i < s.len() && !is_delim(s[i as int]) {
        bare_end(s, i + 1)
    } else {
        i
    }
}

/// The rest of a quoted string whose opening quote precedes `i`: a backslash takes the next
/// character literally, a quote closes the string. `None` when the input ends first.
pub open spec fn quoted(s: Seq<char>, i: nat, acc: Seq<char>) -> Option<(Seq<char>, nat)>
    decreases s.len() - i,
{
    if i >= s.len() {
        None
    } else if s[i as int] == '\\' {
        if i + 1 < s.len() {
            quoted(s, i + 2, acc.push(s[(i + 1) as int]))
        } else {
            None
        }
    } else if s[i as int] == '"' {
        Some((acc, i + 1))
    } else {
        quoted(s, i + 1, acc.push(s[i as int]))
    }
}

pub proof fn lemma_ws_end(s: Seq<char>, i: nat)
    ensures
        i <= ws_end(s, i),
        i <= s.len() ==> ws_end(s, i) <= s.len(),
        ws_end(s, i) < s.len() ==> !spec_is_whitespace(s[ws_end(s, i) as int]),
    decreases s.len() - i,
{
    if i < s.len() && spec_is_whitespace(s[i as int]) {
        lemma_ws_end(s, i + 1);
    }
}

/// The grammar of one node at position `i`, nested `depth` lists deep.
pub open spec fn parse_node_spec(s: Seq<char>, i: nat, depth: nat) -> Parsed
    decreases s.len() - i, 1int,
{
    if depth > MAX_PARSE_DEPTH {
        Parsed::TooDeep
    } else {
        let j = ws_end(s, i);
        proof {
            lemma_ws_end(s, i);
        }
        if j >= s.len() {
            Parsed::Empty
        } else if s[j as int] == '(' {
            parse_list_spec(s, j + 1, depth, Seq::empty())
        } else if s[j as int] == '"' {
            match quoted(s, j + 1, Seq::empty()) {
                Some((a, k)) => Parsed::Node(SexpV::Atom(a), k),
                None => Parsed::Unbalanced,
            }
        } else {
            let k = bare_end(s, j);
            Parsed::Node(SexpV::Atom(s.subrange(j as int, k as int)), k)
        }
    }
}

/// The grammar of the rest of a list whose elements so far are `acc`.
pub open spec fn parse_list_spec(s: Seq<char>, i: nat, depth: nat, acc: Seq<SexpV>) -> Parsed
    decreases s.len() - i, 2int,
{
    let j = ws_end(s, i);
    proof {
        lemma_ws_end(s, i);
    }
    if j >= s.len() {
        Parsed::Unbalanced
    } else if s[j as int] == ')' {
        Parsed::Node(SexpV::List(acc), j + 1)
    } else {
        match parse_node_spec(s, j, depth + 1) {
            Parsed::Node(n, k) => if j < k <= s.len() {
                parse_list_spec(s, k, depth, acc.push(n))
            } else {
                Parsed::Unbalanced
            },
            other => other,
        }
    }
}

/// Whether an executable parse result agrees with the grammar's outcome.
pub open spec fn agrees(r: Result<(Sexp, usize), ImportError>, p: Parsed) -> bool {
    match p {
        Parsed::Node(v, k) => r matches Ok((n, k2)) && n@ == v && k2 == k,
        Parsed::Empty => r matches Err(ImportError::Empty),
        Parsed::Unbalanced => r matches Err(ImportError::Unbalanced),
        Parsed::TooDeep => r matches Err(ImportError::TooDeep),
    }
}

/// Advance past white space.
pub fn skip_ws(s: &Vec<char>, i: usize) -> (j: usize)
    requires
        i <= s.len(),
    ensures
        j == ws_end(s@, i as nat),
{
    let mut j = i;
    while j < s.len() && is_whitespace(s[j])
        invariant
            i <= j <= s.len(),
            ws_end(s@, j as nat) == ws_end(s@, i as nat),
        decreases s.len() - j,
    {
        j += 1;
    }
    j
}

/// Read one node starting at position `i`, `depth` lists deep.
pub fn parse_node(s: &Vec<char>, i: usize, depth: usize) -> (r: Result<(Sexp, usize), ImportError>)
    requires
        i <= s.len(),
    ensures
        agrees(r, parse_node_spec(s@, i as nat, depth as nat)),
        r matches Ok((_, k)) ==> k <= s.len() && (ws_end(s@, i as nat) < s.len() && s@[ws_end(
            s@,
            i as nat,
        ) as int] != ')' ==> k > ws_end(s@, i as nat)),
    decreases s.len() - i,
{
    if depth > MAX_PARSE_DEPTH {
        return Err(ImportError::TooDeep);
    }
    let j = skip_ws(s, i);
    proof {
        lemma_ws_end(s@, i as nat);
    }
    if j >= s.len() {
        return Err(ImportError::Empty);
    }
    let c = s[j];
    if c == '(' {
        let mut list: Vec<Sexp> = Vec::new();
        let mut pos: usize = j + 1;
        assert(values(list@) =~= Seq::<SexpV>::empty());
        loop
            invariant
                j < pos <= s.len(),
                j < s.len(),
                depth <= MAX_PARSE_DEPTH,
                i <= j,
                j == ws_end(s@, i as nat),
                s@[j as int] == '(',
                parse_node_spec(s@, i as nat, depth as nat) == parse_list_spec(
                    s@,
                    pos as nat,
                    depth as nat,
                    values(list@),
                ),
            decreases s.len() - pos,
        {
            let k = skip_ws(s, pos);
            proof {
                lemma_ws_end(s@, pos as nat);
            }
            if k >= s.len() {
                return Err(ImportError::Unbalanced);
            }
            if s[k] == ')' {
                let ghost acc = values(list@);
                assert(Sexp::value(Sexp::List(list)) matches SexpV::List(q2) && q2.len() == acc.len());
                assert(forall|m: int| 0 <= m < acc.len() ==> Sexp::value(Sexp::List(list))->List_0[m] == acc[m]);
                assert(Sexp::value(Sexp::List(list))->List_0 =~= acc);
                let r = Sexp::List(list);
                assert(r@ == SexpV::List(acc));
                return Ok((r, k + 1));
            }
            proof {
                lemma_ws_end(s@, k as nat);
            }
            let res = parse_node(s, k, depth + 1);
            match res {
                Ok((node, k2)) => {
                    let ghost old_vals = values(list@);
                    list.push(node);
                    assert(values(list@) =~= old_vals.push(node@));
                    pos = k2;
                },
                Err(e) => {
                    return Err(e);
                },
            }
        }
    } else if c == '"' {
        let mut acc: Vec<char> = Vec::new();
        let mut p: usize = j + 1;
        loop
            invariant
                j < p <= s.len() + 1,
                j < s.len(),
                j == ws_end(s@, i as nat),
                depth <= MAX_PARSE_DEPTH,
                s@[j as int] == '"',
                quoted(s@, (j + 1) as nat, Seq::empty()) == quoted(s@, p as nat, acc@),
            decreases s.len() + 1 - p,
        {
            if p >= s.len() {
                return Err(ImportError::Unbalanced);
            }
            let d = s[p];
            if d == '\\' {
                if p + 1 < s.len() {
                    acc.push(s[p + 1]);
                    p = p + 2;
                } else {
                    return Err(ImportError::Unbalanced);
                }
            } else if d == '"' {
                let a = string_from_chars(&acc);
                return Ok((Sexp::Atom(a), p + 1));
            } else {
                acc.push(d);
                p = p + 1;
            }
        }
    } else {
        let mut k = j;
        while k < s.len() && !(is_whitespace(s[k]) || s[k] == '(' || s[k] == ')')
            invariant
                j <= k <= s.len(),
                bare_end(s@, j as nat) == bare_end(s@, k as nat),
            decreases s.len() - k,
        {
            k += 1;
        }
        let mut a: Vec<char> = Vec::new();
        let mut q = j;
        while q < k
            invariant
                j <= q <= k <= s.len(),
                a@ == s@.subrange(j as int, q as int),
            decreases k - q,
        {
            a.push(s[q]);
            q += 1;
        }
        let atom = string_from_chars(&a);
        Ok((Sexp::Atom(atom), k))
    }
}

/// Read the first s-expression of a document (anything after it is ignored).
pub fn parse_document(src: &str) -> (r: Result<Sexp, ImportError>)
    ensures
        match parse_node_spec(src@, 0, 0) {
            Parsed::Node(v, _) => r matches Ok(n) && n@ == v,
            Parsed::Empty => r matches Err(ImportError::Empty),
            Parsed::Unbalanced => r matches Err(ImportError::Unbalanced),
            Parsed::TooDeep => r matches Err(ImportError::TooDeep),
        },
{
    let chars = chars_of(src);
    match parse_node(&chars, 0, 0) {
        Ok((n, _)) => Ok(n),
        Err(e) => Err(e),
    }
}

/// The escaped form of one character inside a quoted atom.
pub open spec fn escape_char(c: char) -> Seq<char> {
    if c == '"' || c == '\\' {
        seq!['\\', c]
    } else {
        seq![c]
    }
}

/// The escaped form of a text: `"` and `\` are preceded by a backslash.
pub open spec fn escape(s: Seq<char>) -> Seq<char>
    decreases s.len(),
{
    if s.len() == 0 {
        Seq::empty()
    } else {
        escape(s.drop_last()) + escape_char(s.last())
    }
}

/// A text as a quoted KiCad atom.
pub open spec fn quote_spec(s: Seq<char>) -> Seq<char> {
    seq!['"'] + escape(s) + seq!['"']
}

proof fn lemma_escape_first(s: Seq<char>)
    requires
        s.len() > 0,
    ensures
        escape(s) =~= escape_char(s[0]) + escape(s.drop_first()),
    decreases s.len(),
{
    if s.len() > 1 {
        lemma_escape_first(s.drop_last());
        assert(s.drop_last().drop_first() =~= s.drop_first().drop_last());
        assert(s.drop_last()[0] == s[0]);
        assert(s.drop_first().last() == s.last());
    } else {
        assert(s.drop_first() =~= Seq::<char>::empty());
        assert(s.drop_last() =~= Seq::<char>::empty());
    }
}

/// Reading the escaped text back from any position where it stands, followed by a closing
/// quote, recovers the text.
proof fn lemma_quoted_escape(x: Seq<char>, p: nat, t: Seq<char>, acc: Seq<char>)
    requires
        p + escape(t).len() < x.len(),
        x.subrange(p as int, p + escape(t).len() as int) == escape(t),
        x[p + escape(t).len() as int] == '"',
    ensures
        quoted(x, p, acc) == Some((acc + t, (p + escape(t).len() + 1) as nat)),
    decreases t.len(),
{
    let pi = p as int;
    let n = escape(t).len() as int;
    if t.len() == 0 {
        assert(acc + t =~= acc);
    } else {
        lemma_escape_first(t);
        let c = t[0];
        let rest = t.drop_first();
        let e = escape_char(c);
        let el = e.len() as int;
        let rl = escape(rest).len() as int;
        assert(n == el + rl);
        assert(x.subrange(pi, pi + n)[0] == x[pi]);
        assert(x[pi] == escape(t)[0]);
        assert(x.subrange(pi + el, pi + el + rl) =~= escape(rest)) by {
            assert forall|m: int| 0 <= m < rl implies x.subrange(pi + el, pi + el + rl)[m]
                == escape(rest)[m] by {
                assert(escape(t)[el + m] == escape(rest)[m]);
                assert(x.subrange(pi, pi + n)[el + m] == x[pi + el + m]);
            }
        }
        if c == '"' || c == '\\' {
            assert(x.subrange(pi, pi + n)[1] == x[pi + 1]);
            assert(x[pi + 1] == escape(t)[1]);
            lemma_quoted_escape(x, (p + 2) as nat, rest, acc.push(c));
        } else {
            lemma_quoted_escape(x, (p + 1) as nat, rest, acc.push(c));
        }
        assert(acc.push(c) + rest =~= acc + t);
    }
}

/// How many characters of a text need escaping (`"` and `\`).
pub open spec fn escaped_count(s: Seq<char>) -> nat
    decreases s.len(),
{
    if s.len() == 0 {
        0
    } else {
        escaped_count(s.drop_last()) + if s.last() == '"' || s.last() == '\\' {
            1nat
        } else {
            0nat
        }
    }
}

/// A quoted text starts and ends with a quote, and is two characters longer than the text
/// plus one for each character that needed escaping.
pub proof fn lemma_quote_shape(s: Seq<char>)
    ensures
        quote_spec(s).len() == s.len() + 2 + escaped_count(s),
        quote_spec(s)[0] == '"',
        quote_spec(s).last() == '"',
    decreases s.len(),
{
    lemma_escape_len(s);
}

proof fn lemma_escape_len(s: Seq<char>)
    ensures
        escape(s).len() == s.len() + escaped_count(s),
    decreases s.len(),
{
    if s.len() > 0 {
        lemma_escape_len(s.drop_last());
    }
}

/// Quoting is undone by reading: whatever follows it, a quoted atom reads back as exactly the
/// original text, and the reader stops right after the closing quote.
pub proof fn lemma_quote_reads_back(s: Seq<char>, rest: Seq<char>, depth: nat)
    requires
        depth <= MAX_PARSE_DEPTH,
    ensures
        parse_node_spec(quote_spec(s) + rest, 0, depth) == Parsed::Node(
            SexpV::Atom(s),
            quote_spec(s).len(),
        ),
{
    let x = quote_spec(s) + rest;
    let n = escape(s).len() as int;
    assert(x[0] == '"');
    assert(ws_end(x, 0) == 0);
    assert(x.subrange(1, 1 + n) =~= escape(s));
    assert(x[1 + n] == '"');
    lemma_quoted_escape(x, 1, s, Seq::empty());
    assert(Seq::<char>::empty() + s =~= s);
}

/// A quoted atom standing at any position of a text reads back as its original text, and
/// the reader stops right after the closing quote.
pub proof fn lemma_quote_reads_back_at(x: Seq<char>, p: nat, s: Seq<char>, depth: nat)
    requires
        depth <= MAX_PARSE_DEPTH,
        p + quote_spec(s).len() <= x.len(),
        x.subrange(p as int, p + quote_spec(s).len() as int) == quote_spec(s),
    ensures
        parse_node_spec(x, p, depth) == Parsed::Node(SexpV::Atom(s), p + quote_spec(s).len()),
{
    let q = quote_spec(s);
    let n = escape(s).len() as int;
    let pi = p as int;
    assert(x[pi] == q[0]);
    assert(ws_end(x, p) == p);
    assert(x.subrange(pi + 1, pi + 1 + n) =~= escape(s)) by {
        assert forall|m: int| 0 <= m < n implies x.subrange(pi + 1, pi + 1 + n)[m] == escape(s)[m] by {
            assert(x.subrange(pi, pi + q.len())[1 + m] == x[pi + 1 + m]);
            assert(q[1 + m] == escape(s)[m]);
        }
    }
    assert(x[pi + 1 + n] == q[1 + n]);
    lemma_quoted_escape(x, p + 1, s, Seq::empty());
    assert(Seq::<char>::empty() + s =~= s);
}

/// Quote a string as a KiCad atom, escaping `"` and `\` so the reader recovers it.
pub fn quote(s: &str) -> (r: String)
    ensures
        r@ == quote_spec(s@),
{
    let v = chars_of(s);
    let mut out: Vec<char> = Vec::new();
    out.push('"');
    let mut i: usize = 0;
    while i < v.len()
        invariant
            v@ == s@,
            i <= v.len(),
            out@ == seq!['"'] + escape(v@.take(i as int)),
        decreases v.len() - i,
    {
        let c = v[i];
        if c == '"' || c == '\\' {
            out.push('\\');
        }
        out.push(c);
        proof {
            assert(v@.take(i + 1).drop_last() =~= v@.take(i as int));
            assert(v@.take(i + 1).last() == c);
        }
        assert(out@ =~= seq!['"'] + escape(v@.take(i + 1)));
        i += 1;
    }
    out.push('"');
    assert(v@.take(v.len() as int) =~= v@);
    assert(out@ =~= quote_spec(s@));
    string_from_chars(&out)
}

} // verus!
