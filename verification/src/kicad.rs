//! `.kicad_pcb` import: a real board's copper and footprints read into the plain domain
//! entities the review understands. Nothing the file does not state is invented; content
//! that cannot be carried is skipped and the skip is reported as a warning.
use vstd::prelude::*;
use crate::decimal::{decimal_digits, decimal_index, decimal_nm, parse_decimal_nm, decimal_text};
use crate::domain::{
    domain_message, standard_layers, Board, BoardSide, Component, ComponentClass,
    ComponentOrigin, DomainError, EntityId, LayerStack, Net, NetClass, NetOrigin, Pin,
    PinElectricalType, Placement, Quantity, Track,
};
use crate::sexp::{parse_document, parse_node_spec, Parsed};
use crate::sexp::{values, Sexp, SexpV};
use crate::text::{
    chars_equal, chars_of, contains_exec, contains_text, is_blank, occurs_at, same_text,
    spec_is_blank, starts_with_exec, string_from_chars, ascii_upper, spec_ascii_upper,
};

verus! {

/// Why an import could not produce a well-formed design.
#[derive(Debug, Clone, PartialEq, Eq)]
pub enum ImportError {
    /// The input was empty or contained no s-expression.
    Empty,
    /// Parentheses or a quoted string were left unbalanced.
    Unbalanced,
    /// The root node is not a `(kicad_pcb …)` list.
    NotKicadPcb,
    /// A recognised node was missing a required field or carried a non-numeric one.
    Malformed(&'static str),
    /// A produced entity failed a domain invariant (carries the domain message).
    Invalid(String),
    /// The s-expression nested past the safe recursion depth.
    TooDeep,
}

/// The value of an [`ImportError`].
pub enum ImportErrorV {
    Empty,
    Unbalanced,
    NotKicadPcb,
    Malformed(Seq<char>),
    Invalid(Seq<char>),
    TooDeep,
}

impl View for ImportError {
    type V = ImportErrorV;

    open spec fn view(&self) -> ImportErrorV {
        match self {
            ImportError::Empty => ImportErrorV::Empty,
            ImportError::Unbalanced => ImportErrorV::Unbalanced,
            ImportError::NotKicadPcb => ImportErrorV::NotKicadPcb,
            ImportError::Malformed(m) => ImportErrorV::Malformed(m@),
            ImportError::Invalid(m) => ImportErrorV::Invalid(m@),
            ImportError::TooDeep => ImportErrorV::TooDeep,
        }
    }
}

impl ImportError {
    /// The human-readable description of the error.
    pub fn message(&self) -> (r: String)
        ensures
            r@ == import_error_text(self@),
    {
        match self {
            ImportError::Empty => "empty input: no s-expression to parse".to_owned(),
            ImportError::Unbalanced => "unbalanced parentheses or string in .kicad_pcb".to_owned(),
            ImportError::NotKicadPcb => "root node is not (kicad_pcb ...)".to_owned(),
            ImportError::Malformed(what) => {
                let mut m = "malformed ".to_owned();
                m.append(what);
                m
            },
            ImportError::Invalid(msg) => {
                let mut m = "imported entity is invalid: ".to_owned();
                m.append(msg.as_str());
                m
            },
            ImportError::TooDeep => "s-expression nested too deeply (malformed or adversarial input)".to_owned(),
        }
    }
}

pub open spec fn import_error_text(e: ImportErrorV) -> Seq<char> {
    match e {
        ImportErrorV::Empty => "empty input: no s-expression to parse"@,
        ImportErrorV::Unbalanced => "unbalanced parentheses or string in .kicad_pcb"@,
        ImportErrorV::NotKicadPcb => "root node is not (kicad_pcb ...)"@,
        ImportErrorV::Malformed(what) => "malformed "@ + what,
        ImportErrorV::Invalid(msg) => "imported entity is invalid: "@ + msg,
        ImportErrorV::TooDeep => "s-expression nested too deeply (malformed or adversarial input)"@,
    }
}

// ------------------------------------------------------------------ reading nodes

/// The head token of a list, e.g. `segment` for `(segment …)`.
pub open spec fn head_of(l: Seq<SexpV>) -> Option<Seq<char>> {
    if l.len() > 0 && l[0] is Atom {
        Some(l[0]->Atom_0)
    } else {
        None
    }
}

/// The `i`-th element of a list, when it is an atom.
pub open spec fn atom_of(l: Seq<SexpV>, i: int) -> Option<Seq<char>> {
    if 0 <= i < l.len() && l[i] is Atom {
        Some(l[i]->Atom_0)
    } else {
        None
    }
}

/// Whether a node is a list headed `key`.
pub open spec fn is_node(v: SexpV, key: Seq<char>) -> bool {
    v matches SexpV::List(inner) && head_of(inner) == Some(key)
}

/// The first child list at or after `i` headed `key` (head included).
pub open spec fn child_from(l: Seq<SexpV>, key: Seq<char>, i: nat) -> Option<Seq<SexpV>>
    decreases l.len() - i,
{
    if i >= l.len() {
        None
    } else if is_node(l[i as int], key) {
        Some(l[i as int]->List_0)
    } else {
        child_from(l, key, i + 1)
    }
}

/// The first child list headed `key`, e.g. the `(start x y)` of a segment.
pub open spec fn child_of(l: Seq<SexpV>, key: Seq<char>) -> Option<Seq<SexpV>> {
    child_from(l, key, 0)
}

/// The `k`-th argument (after the head) of the first child list headed `key`, as text.
pub open spec fn arg_of(l: Seq<SexpV>, key: Seq<char>, k: int) -> Option<Seq<char>> {
    match child_of(l, key) {
        Some(inner) => atom_of(inner, k + 1),
        None => None,
    }
}

/// The `i`-th element of a list read as millimetres, in nanometres.
pub open spec fn num_of(l: Seq<SexpV>, i: int) -> Option<int> {
    match atom_of(l, i) {
        Some(a) => decimal_nm(a),
        None => None,
    }
}

/// The `k`-th argument of the first child list headed `key`, in nanometres.
pub open spec fn num_arg(l: Seq<SexpV>, key: Seq<char>, k: int) -> Option<int> {
    match child_of(l, key) {
        Some(inner) => num_of(inner, k + 1),
        None => None,
    }
}

/// The `k`-th argument of the first child list headed `key`, read as a whole number.
pub open spec fn index_arg(l: Seq<SexpV>, key: Seq<char>, k: int) -> Option<u128> {
    match arg_of(l, key, k) {
        Some(a) => decimal_index(a),
        None => None,
    }
}

pub proof fn lemma_list_value(v: Vec<Sexp>)
    ensures
        Sexp::List(v)@ == SexpV::List(values(v@)),
{
    let a = Sexp::List(v)@;
    assert(a->List_0 =~= values(v@));
}

/// Whether the list's head token is `key`.
pub fn head_is(l: &Vec<Sexp>, key: &str) -> (r: bool)
    ensures
        r == (head_of(values(l@)) == Some(key@)),
{
    if l.len() == 0 {
        return false;
    }
    match &l[0] {
        Sexp::Atom(a) => same_text(a.as_str(), key),
        Sexp::List(_) => false,
    }
}

/// The `i`-th element of a list, when it is an atom.
pub fn atom_at(l: &Vec<Sexp>, i: usize) -> (r: Option<&String>)
    ensures
        match r {
            Some(a) => atom_of(values(l@), i as int) == Some(a@),
            None => atom_of(values(l@), i as int) is None,
        },
{
    if i >= l.len() {
        return None;
    }
    match &l[i] {
        Sexp::Atom(a) => Some(a),
        Sexp::List(_) => None,
    }
}

/// The first child list headed `key`.
pub fn child<'a>(l: &'a Vec<Sexp>, key: &str) -> (r: Option<&'a Vec<Sexp>>)
    ensures
        match r {
            Some(inner) => child_of(values(l@), key@) == Some(values(inner@)),
            None => child_of(values(l@), key@) is None,
        },
{
    let mut i: usize = 0;
    while i < l.len()
        invariant
            i <= l.len(),
            child_of(values(l@), key@) == child_from(values(l@), key@, i as nat),
        decreases l.len() - i,
    {
        match &l[i] {
            Sexp::List(inner) => {
                proof {
                    lemma_list_value(*inner);
                }
                if head_is(inner, key) {
                    return Some(inner);
                }
            },
            Sexp::Atom(_) => {},
        }
        i += 1;
    }
    None
}

/// The `i`-th element of a list read as millimetres, in nanometres.
pub fn number_at(l: &Vec<Sexp>, i: usize) -> (r: Option<i128>)
    ensures
        match num_of(values(l@), i as int) {
            Some(v) => r == Some(v as i128) && -2_000_000_000_000_000_000_000_000_000_000 < v
                < 2_000_000_000_000_000_000_000_000_000_000,
            None => r is None,
        },
        r matches Some(v) ==> -2_000_000_000_000_000_000_000_000_000_000 < v
            < 2_000_000_000_000_000_000_000_000_000_000,
{
    match atom_at(l, i) {
        Some(a) => {
            let cs = chars_of(a.as_str());
            parse_decimal_nm(&cs)
        },
        None => None,
    }
}

/// The `k`-th argument of the first child list headed `key`, in nanometres.
pub fn number_arg(l: &Vec<Sexp>, key: &str, k: usize) -> (r: Option<i128>)
    requires
        k < usize::MAX,
    ensures
        match num_arg(values(l@), key@, k as int) {
            Some(v) => r == Some(v as i128) && -2_000_000_000_000_000_000_000_000_000_000 < v
                < 2_000_000_000_000_000_000_000_000_000_000,
            None => r is None,
        },
        r matches Some(v) ==> -2_000_000_000_000_000_000_000_000_000_000 < v
            < 2_000_000_000_000_000_000_000_000_000_000,
{
    match child(l, key) {
        Some(inner) => number_at(inner, k + 1),
        None => None,
    }
}

/// The `k`-th argument of the first child list headed `key`, as text.
pub fn text_arg<'a>(l: &'a Vec<Sexp>, key: &str, k: usize) -> (r: Option<&'a String>)
    requires
        k < usize::MAX,
    ensures
        match r {
            Some(a) => arg_of(values(l@), key@, k as int) == Some(a@),
            None => arg_of(values(l@), key@, k as int) is None,
        },
{
    match child(l, key) {
        Some(inner) => atom_at(inner, k + 1),
        None => None,
    }
}

/// A whole number read from a decimal in nanometres (truncated, negatives read as zero).
fn index_from_nm(v: i128) -> (r: u128)
    requires
        -2_000_000_000_000_000_000_000_000_000_000 < v < 2_000_000_000_000_000_000_000_000_000_000,
    ensures
        r == (if v < 0 {
            0u128
        } else {
            (v / 1_000_000) as u128
        }),
{
    if v < 0 {
        0
    } else {
        (v / 1_000_000) as u128
    }
}

/// The `k`-th argument of the first child list headed `key`, read as a whole number.
pub fn index_arg_exec(l: &Vec<Sexp>, key: &str, k: usize) -> (r: Option<u128>)
    requires
        k < usize::MAX,
    ensures
        r == index_arg(values(l@), key@, k as int),
{
    match text_arg(l, key, k) {
        Some(a) => {
            let cs = chars_of(a.as_str());
            match parse_decimal_nm(&cs) {
                Some(v) => {
                    let r = index_from_nm(v);
                    assert(decimal_nm(a@) == Some(v as int));
                    assert(decimal_index(a@) == Some(r));
                    Some(r)
                },
                None => None,
            }
        },
        None => None,
    }
}

// ------------------------------------------------------------------ classification

/// The upper-case form of a text under Unicode case mapping (`str::to_uppercase`).
pub uninterp spec fn uppercased(s: Seq<char>) -> Seq<char>;

/// Upper-cases a text with std's `str::to_uppercase` (full Unicode case mapping). The result
/// is named, not described: it depends on the text alone.
#[verifier::external_body]
fn to_upper(s: &str) -> (r: String)
    ensures
        r@ == uppercased(s@),
{
    s.to_uppercase()
}

/// The names that mark a power net (anywhere in the upper-cased name).
pub open spec fn power_marker(u: Seq<char>) -> bool {
    ||| contains_text(u, "VCC"@)
    ||| contains_text(u, "VDD"@)
    ||| contains_text(u, "VBUS"@)
    ||| contains_text(u, "VIN"@)
    ||| contains_text(u, "VOUT"@)
    ||| contains_text(u, "PWR"@)
    ||| contains_text(u, "3V3"@)
    ||| contains_text(u, "5V"@)
    ||| contains_text(u, "3.3V"@)
}

/// The coarse class of a net from its upper-cased name: ground, power or signal.
pub open spec fn net_class_of(u: Seq<char>) -> NetClass {
    if u == "GND"@ || u == "GROUND"@ || occurs_at(u, "GND"@, 0) || occurs_at(u, "AGND"@, 0) {
        NetClass::Ground
    } else if occurs_at(u, "+"@, 0) || power_marker(u) {
        NetClass::Power
    } else {
        NetClass::Signal
    }
}

/// Classify an upper-cased net name.
pub fn classify_upper(u: &str) -> (r: NetClass)
    ensures
        r == net_class_of(u@),
{
    let v = chars_of(u);
    if chars_equal(&v, "GND") || chars_equal(&v, "GROUND") || starts_with_exec(&v, "GND")
        || starts_with_exec(&v, "AGND") {
        NetClass::Ground
    } else if starts_with_exec(&v, "+") || contains_exec(&v, "VCC") || contains_exec(&v, "VDD")
        || contains_exec(&v, "VBUS") || contains_exec(&v, "VIN") || contains_exec(&v, "VOUT")
        || contains_exec(&v, "PWR") || contains_exec(&v, "3V3") || contains_exec(&v, "5V")
        || contains_exec(&v, "3.3V") {
        NetClass::Power
    } else {
        NetClass::Signal
    }
}

/// Classify a net by its name — a heuristic on the imported name, not an electrical claim.
pub fn classify(name: &str) -> (r: NetClass)
    ensures
        r == net_class_of(uppercased(name@)),
{
    let u = to_upper(name);
    classify_upper(u.as_str())
}

pub open spec fn is_ascii_alpha(c: char) -> bool {
    ('a' <= c && c <= 'z') || ('A' <= c && c <= 'Z')
}

/// The length of the leading run of ASCII letters from position `i`.
pub open spec fn alpha_end(s: Seq<char>, i: nat) -> nat
    decreases s.len() - i,
{
    if i < s.len() && is_ascii_alpha(s[i as int]) {
        alpha_end(s, i + 1)
    } else {
        i
    }
}

/// The component class a refdes prefix names.
pub open spec fn class_of_prefix(u: Seq<char>) -> ComponentClass {
    if u == "R"@ || u == "RN"@ {
        ComponentClass::Resistor
    } else if u == "C"@ {
        ComponentClass::Capacitor
    } else if u == "J"@ || u == "P"@ || u == "CN"@ || u == "CON"@ {
        ComponentClass::Connector
    } else if u == "VR"@ || u == "REG"@ {
        ComponentClass::Regulator
    } else {
        ComponentClass::Ic
    }
}

/// The class an upper-cased refdes prefix names.
pub fn class_for_prefix(u: &str) -> (r: ComponentClass)
    ensures
        r == class_of_prefix(u@),
{
    let v = chars_of(u);
    if chars_equal(&v, "R") || chars_equal(&v, "RN") {
        ComponentClass::Resistor
    } else if chars_equal(&v, "C") {
        ComponentClass::Capacitor
    } else if chars_equal(&v, "J") || chars_equal(&v, "P") || chars_equal(&v, "CN")
        || chars_equal(&v, "CON") {
        ComponentClass::Connector
    } else if chars_equal(&v, "VR") || chars_equal(&v, "REG") {
        ComponentClass::Regulator
    } else {
        ComponentClass::Ic
    }
}

/// The component class a refdes implies: its leading ASCII letters, upper-cased, name the
/// class; an unrecognised prefix falls back to the neutral active class.
pub open spec fn refdes_class(refdes: Seq<char>) -> ComponentClass {
    class_of_prefix(refdes.take(alpha_end(refdes, 0) as int).map_values(|c: char| spec_ascii_upper(c)))
}

/// Infer a component class from a refdes prefix (R, C, J/P/CN/CON, VR/REG, U/IC).
pub fn classify_refdes(refdes: &str) -> (r: ComponentClass)
    ensures
        r == refdes_class(refdes@),
{
    let v = chars_of(refdes);
    let mut k: usize = 0;
    while k < v.len() && (('a' <= v[k] && v[k] <= 'z') || ('A' <= v[k] && v[k] <= 'Z'))
        invariant
            k <= v.len(),
            alpha_end(v@, 0) == alpha_end(v@, k as nat),
        decreases v.len() - k,
    {
        k += 1;
    }
    let mut prefix: Vec<char> = Vec::new();
    let mut i: usize = 0;
    while i < k
        invariant
            i <= k <= v.len(),
            prefix@ == v@.take(i as int).map_values(|c: char| spec_ascii_upper(c)),
        decreases k - i,
    {
        prefix.push(ascii_upper(v[i]));
        assert(prefix@ =~= v@.take(i + 1).map_values(|c: char| spec_ascii_upper(c)));
        i += 1;
    }
    let u = string_from_chars(&prefix);
    class_for_prefix(u.as_str())
}

/// Whether `refdes` starts with exactly the ASCII letters `word` (in either case), followed
/// by the end of the text or by a character that is no ASCII letter.
pub open spec fn has_letter_prefix(refdes: Seq<char>, word: Seq<char>) -> bool {
    &&& word.len() <= refdes.len()
    &&& forall|i: int|
        0 <= i < word.len() ==> (#[trigger] refdes[i] == word[i] || refdes[i] == ((word[i] as u32)
            + 32) as char)
    &&& (refdes.len() == word.len() || !is_ascii_alpha(refdes[word.len() as int]))
}

proof fn lemma_prefix_class(refdes: Seq<char>, word: Seq<char>)
    requires
        has_letter_prefix(refdes, word),
        forall|i: int| 0 <= i < word.len() ==> 'A' <= #[trigger] word[i] <= 'Z',
    ensures
        refdes.take(alpha_end(refdes, 0) as int).map_values(|c: char| spec_ascii_upper(c)) == word,
{
    let n = word.len();
    assert forall|i: int| 0 <= i < n implies is_ascii_alpha(#[trigger] refdes[i]) by {
        assert('A' <= word[i] <= 'Z');
    }
    lemma_alpha_end_skip(refdes, n, n);
    assert(alpha_end(refdes, n) == n);
    let t = refdes.take(n as int).map_values(|c: char| spec_ascii_upper(c));
    assert forall|i: int| 0 <= i < n implies t[i] == word[i] by {
        assert(refdes[i] == word[i] || refdes[i] == ((word[i] as u32) + 32) as char);
    }
    assert(t =~= word);
}

proof fn lemma_alpha_end_skip(refdes: Seq<char>, k: nat, n: nat)
    requires
        k <= n <= refdes.len(),
        forall|i: int| 0 <= i < n ==> is_ascii_alpha(#[trigger] refdes[i]),
    ensures
        alpha_end(refdes, 0) == alpha_end(refdes, k),
    decreases k,
{
    if k > 0 {
        lemma_alpha_end_skip(refdes, (k - 1) as nat, n);
        assert(is_ascii_alpha(refdes[k - 1]));
    }
}

/// The classes reference designators name: `R` and `RN` are resistors, `C` capacitors,
/// `J`, `P`, `CN` and `CON` connectors, `VR` and `REG` regulators, and any other letters an
/// active part, whatever the letters' case and whatever follows them.
pub proof fn lemma_refdes_classes(refdes: Seq<char>)
    ensures
        has_letter_prefix(refdes, "R"@) || has_letter_prefix(refdes, "RN"@) ==> refdes_class(refdes)
            == ComponentClass::Resistor,
        has_letter_prefix(refdes, "C"@) ==> refdes_class(refdes) == ComponentClass::Capacitor,
        has_letter_prefix(refdes, "J"@) || has_letter_prefix(refdes, "P"@) || has_letter_prefix(
            refdes,
            "CN"@,
        ) || has_letter_prefix(refdes, "CON"@) ==> refdes_class(refdes) == ComponentClass::Connector,
        has_letter_prefix(refdes, "VR"@) || has_letter_prefix(refdes, "REG"@) ==> refdes_class(refdes)
            == ComponentClass::Regulator,
        has_letter_prefix(refdes, "U"@) || has_letter_prefix(refdes, "IC"@) ==> refdes_class(refdes)
            == ComponentClass::Ic,
{
    reveal_strlit("R");
    reveal_strlit("RN");
    reveal_strlit("C");
    reveal_strlit("J");
    reveal_strlit("P");
    reveal_strlit("CN");
    reveal_strlit("CON");
    reveal_strlit("VR");
    reveal_strlit("REG");
    reveal_strlit("U");
    reveal_strlit("IC");
    let words = seq!["R"@, "RN"@, "C"@, "J"@, "P"@, "CN"@, "CON"@, "VR"@, "REG"@, "U"@, "IC"@];
    assert forall|w: int| 0 <= w < words.len() && has_letter_prefix(refdes, words[w]) implies
        refdes.take(alpha_end(refdes, 0) as int).map_values(|c: char| spec_ascii_upper(c)) == words[w] by {
        lemma_prefix_class(refdes, words[w]);
    }
    assert(words[0] == "R"@);
    assert(words[1] == "RN"@);
    assert(words[2] == "C"@);
    assert(words[3] == "J"@);
    assert(words[4] == "P"@);
    assert(words[5] == "CN"@);
    assert(words[6] == "CON"@);
    assert(words[7] == "VR"@);
    assert(words[8] == "REG"@);
    assert(words[9] == "U"@);
    assert(words[10] == "IC"@);
}

/// The default square courtyard edge for a class, in nanometres.
pub open spec fn courtyard_default_nm(class: ComponentClass) -> int {
    match class {
        ComponentClass::Connector => 9_000_000,
        ComponentClass::Regulator | ComponentClass::Ic => 6_000_000,
        ComponentClass::Resistor | ComponentClass::Capacitor => 3_000_000,
    }
}

pub fn courtyard_default(class: ComponentClass) -> (r: i128)
    ensures
        r == courtyard_default_nm(class),
{
    match class {
        ComponentClass::Connector => 9_000_000,
        ComponentClass::Regulator | ComponentClass::Ic => 6_000_000,
        ComponentClass::Resistor | ComponentClass::Capacitor => 3_000_000,
    }
}

// ------------------------------------------------------------------ footprints

/// The first non-blank name a child list headed `head` gives as `(head tag NAME …)`, from
/// position `i` on.
pub open spec fn ref_from(l: Seq<SexpV>, head: Seq<char>, tag: Seq<char>, i: nat) -> Option<
    Seq<char>,
>
    decreases l.len() - i,
{
    if i >= l.len() {
        None
    } else {
        match l[i as int] {
            SexpV::List(inner) => if head_of(inner) == Some(head) && atom_of(inner, 1) == Some(tag)
                && atom_of(inner, 2) is Some && !spec_is_blank(atom_of(inner, 2)->0) {
                atom_of(inner, 2)
            } else {
                ref_from(l, head, tag, i + 1)
            },
            SexpV::Atom(_) => ref_from(l, head, tag, i + 1),
        }
    }
}

/// The reference designator of a footprint: from `(fp_text reference "R1" …)`, else from
/// `(property "Reference" "R1" …)`; `None` when neither gives a non-blank name.
pub open spec fn refdes_of(fp: Seq<SexpV>) -> Option<Seq<char>> {
    match ref_from(fp, "fp_text"@, "reference"@, 0) {
        Some(r) => Some(r),
        None => ref_from(fp, "property"@, "Reference"@, 0),
    }
}

fn ref_lookup(fp: &Vec<Sexp>, head: &str, tag: &str) -> (r: Option<String>)
    ensures
        match r {
            Some(s) => ref_from(values(fp@), head@, tag@, 0) == Some(s@),
            None => ref_from(values(fp@), head@, tag@, 0) is None,
        },
{
    let mut i: usize = 0;
    while i < fp.len()
        invariant
            i <= fp.len(),
            ref_from(values(fp@), head@, tag@, 0) == ref_from(values(fp@), head@, tag@, i as nat),
        decreases fp.len() - i,
    {
        match &fp[i] {
            Sexp::List(inner) => {
                proof {
                    lemma_list_value(*inner);
                }
                if head_is(inner, head) {
                    match atom_at(inner, 1) {
                        Some(t) => {
                            if same_text(t.as_str(), tag) {
                                match atom_at(inner, 2) {
                                    Some(name) => {
                                        if !is_blank(name.as_str()) {
                                            return Some(name.clone());
                                        }
                                    },
                                    None => {},
                                }
                            }
                        },
                        None => {},
                    }
                }
            },
            Sexp::Atom(_) => {},
        }
        i += 1;
    }
    None
}

/// The reference designator of a `(footprint …)`.
pub fn footprint_refdes(fp: &Vec<Sexp>) -> (r: Option<String>)
    ensures
        match r {
            Some(s) => refdes_of(values(fp@)) == Some(s@),
            None => refdes_of(values(fp@)) is None,
        },
{
    match ref_lookup(fp, "fp_text", "reference") {
        Some(r) => Some(r),
        None => ref_lookup(fp, "property", "Reference"),
    }
}

pub open spec fn abs_int(v: int) -> int {
    if v < 0 {
        -v
    } else {
        v
    }
}

/// The extent of an `(fp_rect …)` drawn on a courtyard layer, when it has a positive one.
pub open spec fn rect_extent(r: Seq<SexpV>) -> Option<(int, int)> {
    let on_courtyard = match arg_of(r, "layer"@, 0) {
        Some(layer) => contains_text(layer, "CrtYd"@),
        None => false,
    };
    if !on_courtyard {
        None
    } else {
        match (num_arg(r, "start"@, 0), num_arg(r, "start"@, 1), num_arg(r, "end"@, 0), num_arg(r, "end"@, 1)) {
            (Some(x1), Some(y1), Some(x2), Some(y2)) => {
                let w = abs_int(x2 - x1);
                let h = abs_int(y2 - y1);
                if w > 0 && h > 0 {
                    Some((w, h))
                } else {
                    None
                }
            },
            _ => None,
        }
    }
}

/// The first courtyard rectangle of a footprint, from position `i` on.
pub open spec fn courtyard_from(fp: Seq<SexpV>, i: nat) -> Option<(int, int)>
    decreases fp.len() - i,
{
    if i >= fp.len() {
        None
    } else {
        match fp[i as int] {
            SexpV::List(inner) => if head_of(inner) == Some("fp_rect"@) && rect_extent(inner) is Some {
                rect_extent(inner)
            } else {
                courtyard_from(fp, i + 1)
            },
            SexpV::Atom(_) => courtyard_from(fp, i + 1),
        }
    }
}

/// A footprint's courtyard `(width, height)` in nanometres: its declared courtyard rectangle,
/// else the class-sized default square.
pub open spec fn courtyard_of(fp: Seq<SexpV>, class: ComponentClass) -> (int, int) {
    match courtyard_from(fp, 0) {
        Some(e) => e,
        None => (courtyard_default_nm(class), courtyard_default_nm(class)),
    }
}

fn abs_diff(a: i128, b: i128) -> (r: i128)
    requires
        -2_000_000_000_000_000_000_000_000_000_000 < a < 2_000_000_000_000_000_000_000_000_000_000,
        -2_000_000_000_000_000_000_000_000_000_000 < b < 2_000_000_000_000_000_000_000_000_000_000,
    ensures
        r == abs_int(a - b),
{
    if a < b {
        b - a
    } else {
        a - b
    }
}

fn rect_extent_exec(r: &Vec<Sexp>) -> (e: Option<(i128, i128)>)
    ensures
        match rect_extent(values(r@)) {
            Some((w, h)) => e == Some((w as i128, h as i128)),
            None => e is None,
        },
        e matches Some((w, h)) ==> 0 < w < 4_000_000_000_000_000_000_000_000_000_000 && 0 < h
            < 4_000_000_000_000_000_000_000_000_000_000,
        rect_extent(values(r@)) matches Some((w, h)) ==> 0 < w
            < 4_000_000_000_000_000_000_000_000_000_000 && 0 < h
            < 4_000_000_000_000_000_000_000_000_000_000,
{
    let on = match text_arg(r, "layer", 0) {
        Some(layer) => {
            let lv = chars_of(layer.as_str());
            contains_exec(&lv, "CrtYd")
        },
        None => false,
    };
    if !on {
        return None;
    }
    let x1 = number_arg(r, "start", 0);
    let y1 = number_arg(r, "start", 1);
    let x2 = number_arg(r, "end", 0);
    let y2 = number_arg(r, "end", 1);
    match (x1, y1, x2, y2) {
        (Some(x1), Some(y1), Some(x2), Some(y2)) => {
            let w = abs_diff(x2, x1);
            let h = abs_diff(y2, y1);
            if w > 0 && h > 0 {
                Some((w, h))
            } else {
                None
            }
        },
        _ => None,
    }
}

/// The `(width, height)` courtyard of a footprint in nanometres.
pub fn footprint_courtyard(fp: &Vec<Sexp>, class: ComponentClass) -> (r: (i128, i128))
    ensures
        r.0 == courtyard_of(values(fp@), class).0,
        r.1 == courtyard_of(values(fp@), class).1,
        0 < r.0 < 4_000_000_000_000_000_000_000_000_000_000,
        0 < r.1 < 4_000_000_000_000_000_000_000_000_000_000,
{
    let mut i: usize = 0;
    while i < fp.len()
        invariant
            i <= fp.len(),
            courtyard_from(values(fp@), 0) == courtyard_from(values(fp@), i as nat),
        decreases fp.len() - i,
    {
        match &fp[i] {
            Sexp::List(inner) => {
                proof {
                    lemma_list_value(*inner);
                }
                if head_is(inner, "fp_rect") {
                    match rect_extent_exec(inner) {
                        Some(e) => {
                            return e;
                        },
                        None => {},
                    }
                }
            },
            Sexp::Atom(_) => {},
        }
        i += 1;
    }
    let edge = courtyard_default(class);
    (edge, edge)
}

// ------------------------------------------------------------------ the imported design

/// A non-fatal problem recorded during import: the affected content is skipped, and the
/// skip is reported rather than silently dropped.
#[derive(Debug, Clone, PartialEq, Eq)]
pub enum ImportWarning {
    /// A `(segment …)` referenced a net id with no reviewable `(net …)` declaration.
    SegmentUnknownNet { net_id: u128 },
    /// A `(footprint …)` carried no reference designator.
    FootprintNoReference,
    /// A `(footprint …)` carried no `(pad …)`.
    FootprintNoPads { refdes: String },
    /// A `(pad …)` referenced a net index with no reviewable `(net …)` declaration; its pin
    /// joins no net.
    PadUnknownNet { refdes: String, pad: String, net_id: u128 },
}

/// The value of an [`ImportWarning`].
pub enum WarningFact {
    SegmentUnknownNet(u128),
    FootprintNoReference,
    FootprintNoPads(Seq<char>),
    PadUnknownNet(Seq<char>, Seq<char>, u128),
}

impl View for ImportWarning {
    type V = WarningFact;

    open spec fn view(&self) -> WarningFact {
        match self {
            ImportWarning::SegmentUnknownNet { net_id } => WarningFact::SegmentUnknownNet(*net_id),
            ImportWarning::FootprintNoReference => WarningFact::FootprintNoReference,
            ImportWarning::FootprintNoPads { refdes } => WarningFact::FootprintNoPads(refdes@),
            ImportWarning::PadUnknownNet { refdes, pad, net_id } => WarningFact::PadUnknownNet(
                refdes@,
                pad@,
                *net_id,
            ),
        }
    }
}

impl ImportWarning {
    /// The human-readable description of the warning.
    pub fn message(&self) -> (r: String)
        ensures
            r@ == warning_text(self@),
    {
        match self {
            ImportWarning::SegmentUnknownNet { net_id } => {
                let mut m = "segment skipped: references unknown net ".to_owned();
                let n = decimal_text(*net_id);
                m.append(n.as_str());
                m
            },
            ImportWarning::FootprintNoReference => "footprint skipped: no reference designator".to_owned(),
            ImportWarning::FootprintNoPads { refdes } => {
                let mut m = "footprint ".to_owned();
                m.append(refdes.as_str());
                m.append(" skipped: no pads (cannot realize a pin-less component)");
                m
            },
            ImportWarning::PadUnknownNet { refdes, pad, net_id } => {
                let mut m = "pad ".to_owned();
                m.append(refdes.as_str());
                m.append(".");
                m.append(pad.as_str());
                m.append(" references unknown net ");
                let n = decimal_text(*net_id);
                m.append(n.as_str());
                m.append(": pin joined to no net");
                m
            },
        }
    }
}

pub open spec fn warning_text(w: WarningFact) -> Seq<char> {
    match w {
        WarningFact::SegmentUnknownNet(n) => "segment skipped: references unknown net "@
            + decimal_digits(n as nat),
        WarningFact::FootprintNoReference => "footprint skipped: no reference designator"@,
        WarningFact::FootprintNoPads(r) => "footprint "@ + r
            + " skipped: no pads (cannot realize a pin-less component)"@,
        WarningFact::PadUnknownNet(r, p, n) => "pad "@ + r + "."@ + p + " references unknown net "@
            + decimal_digits(n as nat) + ": pin joined to no net"@,
    }
}

/// One parsed `(footprint …)`: the component it realizes, the pins minted from its pads, its
/// placement, and, per pin, the kept net index its pad declared (if any).
#[derive(Debug)]
pub struct ImportedComponent {
    pub component: Component,
    pub pins: Vec<Pin>,
    pub placement: Placement,
    pub pin_nets: Vec<Option<u128>>,
}

/// A design imported from a `.kicad_pcb` file.
#[derive(Debug)]
pub struct ImportedDesign {
    pub board: Board,
    pub nets: Vec<Net>,
    pub tracks: Vec<Track>,
    pub components: Vec<ImportedComponent>,
    pub warnings: Vec<ImportWarning>,
}

/// A kept `(net …)`: its KiCad index and name.
pub struct NetFact {
    pub id: u128,
    pub name: Seq<char>,
}

/// A pin minted from a pad: its designation and the kept net its pad joins.
pub struct PinFact {
    pub designation: Seq<char>,
    pub net: Option<u128>,
}

/// A footprint carried as a part.
pub struct PartFact {
    pub refdes: Seq<char>,
    pub class: ComponentClass,
    pub x: int,
    pub y: int,
    pub width: int,
    pub height: int,
    pub side: BoardSide,
    pub first_pin: nat,
    pub pins: Seq<PinFact>,
}

/// What an import reads from a board, before it becomes domain entities.
pub struct ImportFacts {
    pub nets: Seq<NetFact>,
    pub tracks: Seq<Track>,
    pub parts: Seq<PartFact>,
    pub warnings: Seq<WarningFact>,
    pub max_x: int,
    pub max_y: int,
}

pub open spec fn max_int(a: int, b: int) -> int {
    if a >= b {
        a
    } else {
        b
    }
}

/// The `i`-th element of a list read as a whole number.
pub open spec fn index_at(l: Seq<SexpV>, i: int) -> Option<u128> {
    match atom_of(l, i) {
        Some(a) => decimal_index(a),
        None => None,
    }
}

pub open spec fn kept_ids(nets: Seq<NetFact>) -> Seq<u128> {
    nets.map_values(|n: NetFact| n.id)
}

/// Pass one: the `(net <id> "<name>")` declarations with a non-blank name, in file order.
pub open spec fn nets_from(items: Seq<SexpV>, i: nat, acc: Seq<NetFact>) -> Result<
    Seq<NetFact>,
    ImportErrorV,
>
    decreases items.len() - i,
{
    if i >= items.len() {
        Ok(acc)
    } else {
        match items[i as int] {
            SexpV::List(l) => if head_of(l) == Some("net"@) {
                match index_at(l, 1) {
                    None => Err(ImportErrorV::Malformed("net id"@)),
                    Some(id) => {
                        let name = match atom_of(l, 2) {
                            Some(a) => a,
                            None => Seq::empty(),
                        };
                        if spec_is_blank(name) {
                            nets_from(items, i + 1, acc)
                        } else {
                            nets_from(items, i + 1, acc.push(NetFact { id, name }))
                        }
                    },
                }
            } else {
                nets_from(items, i + 1, acc)
            },
            SexpV::Atom(_) => nets_from(items, i + 1, acc),
        }
    }
}

/// The board side a layer name puts copper on: `B.*` is the bottom, anything else the top.
pub open spec fn side_of(layer: Seq<char>) -> BoardSide {
    if occurs_at(layer, "B."@, 0) {
        BoardSide::Bottom
    } else {
        BoardSide::Top
    }
}

/// A node's own `(layer …)`, defaulting to the front copper.
pub open spec fn layer_or_front(l: Seq<SexpV>) -> Seq<char> {
    match arg_of(l, "layer"@, 0) {
        Some(a) => a,
        None => "F.Cu"@,
    }
}

pub open spec fn length(nm: int) -> Quantity {
    Quantity::spec_mm_nm(nm as i128)
}

/// Tracks, warnings and the copper extent gathered so far.
pub struct SegAcc {
    pub tracks: Seq<Track>,
    pub warnings: Seq<WarningFact>,
    pub max_x: int,
    pub max_y: int,
}

/// One `(segment (start x y) (end x y) (width w) (layer L) (net n))`: a track on a kept
/// net, a warning for an unknown net, or an error for a missing or non-numeric field.
pub open spec fn segment_step(l: Seq<SexpV>, kept: Seq<u128>, acc: SegAcc) -> Result<
    SegAcc,
    ImportErrorV,
> {
    if child_of(l, "start"@) is None {
        Err(ImportErrorV::Malformed("segment start"@))
    } else if child_of(l, "end"@) is None {
        Err(ImportErrorV::Malformed("segment end"@))
    } else if num_arg(l, "start"@, 0) is None {
        Err(ImportErrorV::Malformed("segment start x"@))
    } else if num_arg(l, "start"@, 1) is None {
        Err(ImportErrorV::Malformed("segment start y"@))
    } else if num_arg(l, "end"@, 0) is None {
        Err(ImportErrorV::Malformed("segment end x"@))
    } else if num_arg(l, "end"@, 1) is None {
        Err(ImportErrorV::Malformed("segment end y"@))
    } else if num_arg(l, "width"@, 0) is None {
        Err(ImportErrorV::Malformed("segment width"@))
    } else if index_arg(l, "net"@, 0) is None {
        Err(ImportErrorV::Malformed("segment net"@))
    } else {
        let x1 = num_arg(l, "start"@, 0)->0;
        let y1 = num_arg(l, "start"@, 1)->0;
        let x2 = num_arg(l, "end"@, 0)->0;
        let y2 = num_arg(l, "end"@, 1)->0;
        let w = num_arg(l, "width"@, 0)->0;
        let net = index_arg(l, "net"@, 0)->0;
        if !kept.contains(net) {
            Ok(SegAcc { warnings: acc.warnings.push(WarningFact::SegmentUnknownNet(net)), ..acc })
        } else if w <= 0 {
            Err(
                ImportErrorV::Invalid(
                    domain_message(
                        DomainError::Inconsistent("track width must be positive and finite"),
                    ),
                ),
            )
        } else {
            let t = Track {
                id: EntityId((10_000 + acc.tracks.len()) as u128),
                net: EntityId(net),
                layer: side_of(layer_or_front(l)),
                width: length(w),
                x1: length(x1),
                y1: length(y1),
                x2: length(x2),
                y2: length(y2),
            };
            Ok(
                SegAcc {
                    tracks: acc.tracks.push(t),
                    warnings: acc.warnings,
                    max_x: max_int(max_int(acc.max_x, x1), x2),
                    max_y: max_int(max_int(acc.max_y, y1), y2),
                },
            )
        }
    }
}

/// Pass two: every segment, in file order.
pub open spec fn segments_from(items: Seq<SexpV>, i: nat, kept: Seq<u128>, acc: SegAcc) -> Result<
    SegAcc,
    ImportErrorV,
>
    decreases items.len() - i,
{
    if i >= items.len() {
        Ok(acc)
    } else {
        match items[i as int] {
            SexpV::List(l) => if head_of(l) == Some("segment"@) {
                match segment_step(l, kept, acc) {
                    Ok(next) => segments_from(items, i + 1, kept, next),
                    Err(e) => Err(e),
                }
            } else {
                segments_from(items, i + 1, kept, acc)
            },
            SexpV::Atom(_) => segments_from(items, i + 1, kept, acc),
        }
    }
}

/// The designation a pad gives its pin: its non-blank name, else its 1-based position.
pub open spec fn pad_designation(pad: Seq<SexpV>, position: nat) -> Seq<char> {
    match atom_of(pad, 1) {
        Some(a) => if spec_is_blank(a) {
            decimal_digits(position + 1)
        } else {
            a
        },
        None => decimal_digits(position + 1),
    }
}

/// The pins a footprint's pads mint, from position `i` on, with the warnings their dangling
/// net references raise.
pub open spec fn pins_from(
    fp: Seq<SexpV>,
    i: nat,
    kept: Seq<u128>,
    refdes: Seq<char>,
    pins: Seq<PinFact>,
    warns: Seq<WarningFact>,
) -> (Seq<PinFact>, Seq<WarningFact>)
    decreases fp.len() - i,
{
    if i >= fp.len() {
        (pins, warns)
    } else {
        match fp[i as int] {
            SexpV::List(pad) => if head_of(pad) == Some("pad"@) {
                let name = pad_designation(pad, pins.len());
                match index_arg(pad, "net"@, 0) {
                    Some(idx) => if kept.contains(idx) {
                        pins_from(
                            fp,
                            i + 1,
                            kept,
                            refdes,
                            pins.push(PinFact { designation: name, net: Some(idx) }),
                            warns,
                        )
                    } else if idx != 0 {
                        pins_from(
                            fp,
                            i + 1,
                            kept,
                            refdes,
                            pins.push(PinFact { designation: name, net: None }),
                            warns.push(WarningFact::PadUnknownNet(refdes, name, idx)),
                        )
                    } else {
                        pins_from(
                            fp,
                            i + 1,
                            kept,
                            refdes,
                            pins.push(PinFact { designation: name, net: None }),
                            warns,
                        )
                    },
                    None => pins_from(
                        fp,
                        i + 1,
                        kept,
                        refdes,
                        pins.push(PinFact { designation: name, net: None }),
                        warns,
                    ),
                }
            } else {
                pins_from(fp, i + 1, kept, refdes, pins, warns)
            },
            SexpV::Atom(_) => pins_from(fp, i + 1, kept, refdes, pins, warns),
        }
    }
}

/// Parts, warnings, the extent and the pin count gathered so far.
pub struct FpAcc {
    pub parts: Seq<PartFact>,
    pub warnings: Seq<WarningFact>,
    pub max_x: int,
    pub max_y: int,
    pub pin_count: nat,
}

/// One `(footprint …)` (or legacy `(module …)`): a part at its `(at x y)` on its layer's side,
/// with its pads as pins and its courtyard; skipped with a warning when it has no reference
/// designator or no pads.
pub open spec fn footprint_step(l: Seq<SexpV>, kept: Seq<u128>, acc: FpAcc) -> Result<
    FpAcc,
    ImportErrorV,
> {
    if child_of(l, "at"@) is None {
        Err(ImportErrorV::Malformed("footprint at"@))
    } else if num_arg(l, "at"@, 0) is None {
        Err(ImportErrorV::Malformed("footprint at x"@))
    } else if num_arg(l, "at"@, 1) is None {
        Err(ImportErrorV::Malformed("footprint at y"@))
    } else {
        let x = num_arg(l, "at"@, 0)->0;
        let y = num_arg(l, "at"@, 1)->0;
        match refdes_of(l) {
            None => Ok(
                FpAcc { warnings: acc.warnings.push(WarningFact::FootprintNoReference), ..acc },
            ),
            Some(refdes) => {
                let class = refdes_class(refdes);
                let (pins, warns) = pins_from(l, 0, kept, refdes, Seq::empty(), acc.warnings);
                if pins.len() == 0 {
                    Ok(
                        FpAcc {
                            warnings: acc.warnings.push(WarningFact::FootprintNoPads(refdes)),
                            ..acc
                        },
                    )
                } else {
                    let (cw, ch) = courtyard_of(l, class);
                    Ok(
                        FpAcc {
                            parts: acc.parts.push(
                                PartFact {
                                    refdes,
                                    class,
                                    x,
                                    y,
                                    width: cw,
                                    height: ch,
                                    side: side_of(layer_or_front(l)),
                                    first_pin: acc.pin_count,
                                    pins,
                                },
                            ),
                            warnings: warns,
                            max_x: max_int(acc.max_x, x + cw / 2),
                            max_y: max_int(acc.max_y, y + ch / 2),
                            pin_count: acc.pin_count + pins.len(),
                        },
                    )
                }
            },
        }
    }
}

/// Pass three: every footprint, in file order.
pub open spec fn footprints_from(items: Seq<SexpV>, i: nat, kept: Seq<u128>, acc: FpAcc) -> Result<
    FpAcc,
    ImportErrorV,
>
    decreases items.len() - i,
{
    if i >= items.len() {
        Ok(acc)
    } else {
        match items[i as int] {
            SexpV::List(l) => if head_of(l) == Some("footprint"@) || head_of(l) == Some(
                "module"@,
            ) {
                match footprint_step(l, kept, acc) {
                    Ok(next) => footprints_from(items, i + 1, kept, next),
                    Err(e) => Err(e),
                }
            } else {
                footprints_from(items, i + 1, kept, acc)
            },
            SexpV::Atom(_) => footprints_from(items, i + 1, kept, acc),
        }
    }
}

/// What a `.kicad_pcb` document imports as, pass by pass: its kept nets, then its segments,
/// then its footprints; or the first error met.
pub open spec fn import_spec(src: Seq<char>) -> Result<ImportFacts, ImportErrorV> {
    match parse_node_spec(src, 0, 0) {
        Parsed::Empty => Err(ImportErrorV::Empty),
        Parsed::Unbalanced => Err(ImportErrorV::Unbalanced),
        Parsed::TooDeep => Err(ImportErrorV::TooDeep),
        Parsed::Node(root, _) => match root {
            SexpV::List(items) => if head_of(items) != Some("kicad_pcb"@) {
                Err(ImportErrorV::NotKicadPcb)
            } else {
                match nets_from(items, 0, Seq::empty()) {
                    Err(e) => Err(e),
                    Ok(nets) => match segments_from(
                        items,
                        0,
                        kept_ids(nets),
                        SegAcc { tracks: Seq::empty(), warnings: Seq::empty(), max_x: 0, max_y: 0 },
                    ) {
                        Err(e) => Err(e),
                        Ok(sa) => match footprints_from(
                            items,
                            0,
                            kept_ids(nets),
                            FpAcc {
                                parts: Seq::empty(),
                                warnings: sa.warnings,
                                max_x: sa.max_x,
                                max_y: sa.max_y,
                                pin_count: 0,
                            },
                        ) {
                            Err(e) => Err(e),
                            Ok(fa) => Ok(
                                ImportFacts {
                                    nets,
                                    tracks: sa.tracks,
                                    parts: fa.parts,
                                    warnings: fa.warnings,
                                    max_x: fa.max_x,
                                    max_y: fa.max_y,
                                },
                            ),
                        },
                    },
                }
            },
            SexpV::Atom(_) => Err(ImportErrorV::NotKicadPcb),
        },
    }
}

/// A net imported as declared: its KiCad index as id, its name, the class its name implies,
/// no members, no electrical targets, physical origin.
pub open spec fn net_is(n: Net, f: NetFact) -> bool {
    &&& n.id == EntityId(f.id)
    &&& n.name@ == f.name
    &&& n.class == net_class_of(uppercased(f.name))
    &&& n.members@.len() == 0
    &&& n.current is None
    &&& n.impedance_target is None
    &&& n.origin == NetOrigin::Physical
}

/// The `k`-th imported component as its part fact describes it.
pub open spec fn component_is(c: ImportedComponent, k: int, f: PartFact) -> bool {
    let cid = EntityId((20_000 + k) as u128);
    &&& c.component.id == cid
    &&& c.component.refdes@ == f.refdes
    &&& c.component.class == f.class
    &&& c.component.value is None
    &&& c.component.from_block == EntityId(0)
    &&& c.component.origin == ComponentOrigin::Imported
    &&& c.placement == (Placement {
        id: EntityId((40_000 + k) as u128),
        component: cid,
        x: length(f.x),
        y: length(f.y),
        width: length(f.width),
        height: length(f.height),
        side: f.side,
    })
    &&& c.pins@.len() == f.pins.len()
    &&& c.pin_nets@.len() == f.pins.len()
    &&& forall|j: int|
        0 <= j < f.pins.len() ==> {
            &&& (#[trigger] c.pins@[j]).id == EntityId((30_000 + f.first_pin + j) as u128)
            &&& c.pins@[j].component == cid
            &&& c.pins@[j].designation@ == f.pins[j].designation
            &&& c.pins@[j].electrical_type == PinElectricalType::Passive
            &&& c.pin_nets@[j] == f.pins[j].net
        }
}

/// The board outline an import derives: a standard 2-layer stack sized to the copper and
/// footprint extent plus a 5 mm margin, never under 10 mm.
pub open spec fn board_is(b: Board, f: ImportFacts) -> bool {
    &&& b.id == EntityId(1)
    &&& b.width == length(max_int(f.max_x + 5_000_000, 10_000_000))
    &&& b.height == length(max_int(f.max_y + 5_000_000, 10_000_000))
    &&& b.stack.layers@ == standard_layers()
}

/// An imported design exactly as the facts read from the file describe it.
pub open spec fn design_is(d: ImportedDesign, f: ImportFacts) -> bool {
    &&& board_is(d.board, f)
    &&& d.nets@.len() == f.nets.len()
    &&& forall|k: int| 0 <= k < f.nets.len() ==> net_is(#[trigger] d.nets@[k], f.nets[k])
    &&& d.tracks@ == f.tracks
    &&& d.components@.len() == f.parts.len()
    &&& forall|k: int|
        0 <= k < f.parts.len() ==> component_is(#[trigger] d.components@[k], k, f.parts[k])
    &&& d.warnings@.len() == f.warnings.len()
    &&& forall|k: int| 0 <= k < f.warnings.len() ==> (#[trigger] d.warnings@[k])@ == f.warnings[k]
}

// ------------------------------------------------------------------ the importer

pub proof fn lemma_ref_from_nonblank(l: Seq<SexpV>, head: Seq<char>, tag: Seq<char>, i: nat)
    ensures
        ref_from(l, head, tag, i) matches Some(r) ==> !spec_is_blank(r),
    decreases l.len() - i,
{
    if i < l.len() {
        lemma_ref_from_nonblank(l, head, tag, i + 1);
    }
}

/// The `i`-th element of a list read as a whole number.
fn index_at_exec(l: &Vec<Sexp>, i: usize) -> (r: Option<u128>)
    ensures
        r == index_at(values(l@), i as int),
{
    match atom_at(l, i) {
        Some(a) => {
            let cs = chars_of(a.as_str());
            match parse_decimal_nm(&cs) {
                Some(v) => {
                    let r = index_from_nm(v);
                    assert(decimal_nm(a@) == Some(v as int));
                    assert(decimal_index(a@) == Some(r));
                    Some(r)
                },
                None => None,
            }
        },
        None => None,
    }
}

fn contains_index(v: &Vec<u128>, x: u128) -> (r: bool)
    ensures
        r == v@.contains(x),
{
    let mut i: usize = 0;
    while i < v.len()
        invariant
            i <= v.len(),
            forall|j: int| 0 <= j < i ==> v@[j] != x,
        decreases v.len() - i,
    {
        if v[i] == x {
            assert(v@[i as int] == x);
            return true;
        }
        i += 1;
    }
    false
}

/// Pass one: the kept nets and their indices.
fn read_nets(items: &Vec<Sexp>) -> (r: Result<(Vec<Net>, Vec<u128>), ImportError>)
    ensures
        match nets_from(values(items@), 0, Seq::empty()) {
            Ok(f) => r matches Ok((nets, kept)) && nets@.len() == f.len() && (forall|k: int|
                0 <= k < f.len() ==> net_is(#[trigger] nets@[k], f[k])) && kept@ == kept_ids(f),
            Err(e) => r matches Err(x) && x@ == e,
        },
{
    let ghost vals = values(items@);
    let ghost mut facts: Seq<NetFact> = Seq::empty();
    let mut nets: Vec<Net> = Vec::new();
    let mut kept: Vec<u128> = Vec::new();
    let mut i: usize = 0;
    assert(kept_ids(facts) =~= kept@);
    while i < items.len()
        invariant
            i <= items.len(),
            vals == values(items@),
            nets_from(vals, 0, Seq::empty()) == nets_from(vals, i as nat, facts),
            nets@.len() == facts.len(),
            forall|k: int| 0 <= k < facts.len() ==> net_is(#[trigger] nets@[k], facts[k]),
            kept@ == kept_ids(facts),
        decreases items.len() - i,
    {
        match &items[i] {
            Sexp::List(l) => {
                proof {
                    lemma_list_value(*l);
                }
                if head_is(l, "net") {
                    let id = match index_at_exec(l, 1) {
                        Some(id) => id,
                        None => {
                            return Err(ImportError::Malformed("net id"));
                        },
                    };
                    let name = match atom_at(l, 2) {
                        Some(a) => a.clone(),
                        None => String::new(),
                    };
                    proof {
                        assert(name@ == match atom_of(values(l@), 2) {
                            Some(a) => a,
                            None => Seq::<char>::empty(),
                        }) by {
                            if atom_of(values(l@), 2) is None {
                                assert(name@ =~= Seq::<char>::empty());
                            }
                        }
                    }
                    if !is_blank(name.as_str()) {
                        let class = classify(name.as_str());
                        let net = Net {
                            id: EntityId(id),
                            name,
                            class,
                            members: Vec::new(),
                            current: None,
                            impedance_target: None,
                            origin: NetOrigin::Physical,
                        };
                        if let Err(e) = net.validate() {
                            return Err(ImportError::Invalid(e.message()));
                        }
                        let ghost f = NetFact { id, name: net.name@ };
                        kept.push(id);
                        nets.push(net);
                        proof {
                            facts = facts.push(f);
                            assert(kept_ids(facts) =~= kept@);
                        }
                    }
                }
            },
            Sexp::Atom(_) => {},
        }
        i += 1;
    }
    Ok((nets, kept))
}

pub open spec fn warning_facts(ws: Seq<ImportWarning>) -> Seq<WarningFact> {
    ws.map_values(|w: ImportWarning| w@)
}

pub open spec fn bounded(v: int, b: int) -> bool {
    -b < v < b
}

/// Pass two: tracks on kept nets, warnings for the rest, and the copper extent.
fn read_segments(items: &Vec<Sexp>, kept: &Vec<u128>) -> (r: Result<
    (Vec<Track>, Vec<ImportWarning>, i128, i128),
    ImportError,
>)
    ensures
        match segments_from(
            values(items@),
            0,
            kept@,
            SegAcc { tracks: Seq::empty(), warnings: Seq::empty(), max_x: 0, max_y: 0 },
        ) {
            Ok(a) => r matches Ok((tracks, warns, mx, my)) && tracks@ == a.tracks
                && warning_facts(warns@) == a.warnings && mx
                == a.max_x && my == a.max_y && bounded(mx as int, 2_000_000_000_000_000_000_000_000_000_000)
                && bounded(my as int, 2_000_000_000_000_000_000_000_000_000_000),
            Err(e) => r matches Err(x) && x@ == e,
        },
{
    let ghost vals = values(items@);
    let ghost start = SegAcc { tracks: Seq::empty(), warnings: Seq::empty(), max_x: 0, max_y: 0 };
    let mut tracks: Vec<Track> = Vec::new();
    let mut warns: Vec<ImportWarning> = Vec::new();
    let mut mx: i128 = 0;
    let mut my: i128 = 0;
    let mut i: usize = 0;
    assert(warning_facts(warns@) =~= Seq::<WarningFact>::empty());
    while i < items.len()
        invariant
            i <= items.len(),
            vals == values(items@),
            start == (SegAcc {
                tracks: Seq::empty(),
                warnings: Seq::empty(),
                max_x: 0,
                max_y: 0,
            }),
            segments_from(vals, 0, kept@, start) == segments_from(
                vals,
                i as nat,
                kept@,
                SegAcc {
                    tracks: tracks@,
                    warnings: warning_facts(warns@),
                    max_x: mx as int,
                    max_y: my as int,
                },
            ),
            bounded(mx as int, 2_000_000_000_000_000_000_000_000_000_000),
            bounded(my as int, 2_000_000_000_000_000_000_000_000_000_000),
            tracks@.len() <= i,
        decreases items.len() - i,
    {
        match &items[i] {
            Sexp::List(l) => {
                proof {
                    lemma_list_value(*l);
                }
                if head_is(l, "segment") {
                    let ghost acc = SegAcc {
                        tracks: tracks@,
                        warnings: warning_facts(warns@),
                        max_x: mx as int,
                        max_y: my as int,
                    };
                    match child(l, "start") {
                        Some(_) => {},
                        None => {
                            return Err(ImportError::Malformed("segment start"));
                        },
                    }
                    match child(l, "end") {
                        Some(_) => {},
                        None => {
                            return Err(ImportError::Malformed("segment end"));
                        },
                    }
                    let x1 = match number_arg(l, "start", 0) {
                        Some(v) => v,
                        None => {
                            return Err(ImportError::Malformed("segment start x"));
                        },
                    };
                    let y1 = match number_arg(l, "start", 1) {
                        Some(v) => v,
                        None => {
                            return Err(ImportError::Malformed("segment start y"));
                        },
                    };
                    let x2 = match number_arg(l, "end", 0) {
                        Some(v) => v,
                        None => {
                            return Err(ImportError::Malformed("segment end x"));
                        },
                    };
                    let y2 = match number_arg(l, "end", 1) {
                        Some(v) => v,
                        None => {
                            return Err(ImportError::Malformed("segment end y"));
                        },
                    };
                    let w = match number_arg(l, "width", 0) {
                        Some(v) => v,
                        None => {
                            return Err(ImportError::Malformed("segment width"));
                        },
                    };
                    let net = match index_arg_exec(l, "net", 0) {
                        Some(v) => v,
                        None => {
                            return Err(ImportError::Malformed("segment net"));
                        },
                    };
                    if !contains_index(kept, net) {
                        let ghost before = warns@;
                        warns.push(ImportWarning::SegmentUnknownNet { net_id: net });
                        proof {
                            assert(warning_facts(warns@) =~= warning_facts(before).push(WarningFact::SegmentUnknownNet(net)));
                        }
                    } else {
                        let side = match text_arg(l, "layer", 0) {
                            Some(layer) => {
                                let lv = chars_of(layer.as_str());
                                if starts_with_exec(&lv, "B.") {
                                    BoardSide::Bottom
                                } else {
                                    BoardSide::Top
                                }
                            },
                            None => BoardSide::Top,
                        };
                        proof {
                            if arg_of(values(l@), "layer"@, 0) is None {
                                reveal_strlit("F.Cu");
                                reveal_strlit("B.");
                                assert(!occurs_at("F.Cu"@, "B."@, 0)) by {
                                    assert("F.Cu"@.subrange(0, 2)[0] == 'F');
                                }
                            }
                        }
                        let track = Track {
                            id: EntityId(10_000 + tracks.len() as u128),
                            net: EntityId(net),
                            layer: side,
                            width: Quantity::length_nm(w),
                            x1: Quantity::length_nm(x1),
                            y1: Quantity::length_nm(y1),
                            x2: Quantity::length_nm(x2),
                            y2: Quantity::length_nm(y2),
                        };
                        if let Err(e) = track.validate() {
                            return Err(ImportError::Invalid(e.message()));
                        }
                        tracks.push(track);
                        if x1 > mx {
                            mx = x1;
                        }
                        if x2 > mx {
                            mx = x2;
                        }
                        if y1 > my {
                            my = y1;
                        }
                        if y2 > my {
                            my = y2;
                        }
                    }
                }
            },
            Sexp::Atom(_) => {},
        }
        i += 1;
    }
    Ok((tracks, warns, mx, my))
}

pub open spec fn parts_match(comps: Seq<ImportedComponent>, parts: Seq<PartFact>) -> bool {
    &&& comps.len() == parts.len()
    &&& forall|k: int| 0 <= k < parts.len() ==> component_is(#[trigger] comps[k], k, parts[k])
}

/// The pins of one footprint, read from its pads.
fn read_pads(
    l: &Vec<Sexp>,
    kept: &Vec<u128>,
    refdes: &String,
    cid: EntityId,
    first_pin: u128,
    warns: &mut Vec<ImportWarning>,
) -> (r: (Vec<Pin>, Vec<Option<u128>>))
    requires
        first_pin + l@.len() + 30_000 < u128::MAX,
    ensures
        ({
            let (facts, w) = pins_from(
                values(l@),
                0,
                kept@,
                refdes@,
                Seq::empty(),
                warning_facts(old(warns)@),
            );
            &&& warning_facts(final(warns)@) == w
            &&& r.0@.len() == facts.len()
            &&& r.1@.len() == facts.len()
            &&& facts.len() <= l@.len()
            &&& forall|j: int|
                0 <= j < facts.len() ==> {
                    &&& (#[trigger] r.0@[j]).id == EntityId((30_000 + first_pin + j) as u128)
                    &&& r.0@[j].component == cid
                    &&& r.0@[j].designation@ == facts[j].designation
                    &&& r.0@[j].electrical_type == PinElectricalType::Passive
                    &&& r.1@[j] == facts[j].net
                }
            &&& facts.len() == 0 ==> final(warns)@ == old(warns)@
        }),
{
    let ghost vals = values(l@);
    let ghost w0 = warning_facts(warns@);
    let ghost mut facts: Seq<PinFact> = Seq::empty();
    let ghost old_warns = warns@;
    let mut pins: Vec<Pin> = Vec::new();
    let mut nets: Vec<Option<u128>> = Vec::new();
    let mut j: usize = 0;
    while j < l.len()
        invariant
            j <= l.len(),
            vals == values(l@),
            first_pin + l@.len() + 30_000 < u128::MAX,
            w0 == warning_facts(old_warns),
            pins_from(vals, 0, kept@, refdes@, Seq::empty(), w0) == pins_from(
                vals,
                j as nat,
                kept@,
                refdes@,
                facts,
                warning_facts(warns@),
            ),
            pins@.len() == facts.len(),
            nets@.len() == facts.len(),
            facts.len() <= j,
            facts.len() == 0 ==> warns@ == old_warns,
            forall|k: int|
                0 <= k < facts.len() ==> {
                    &&& (#[trigger] pins@[k]).id == EntityId((30_000 + first_pin + k) as u128)
                    &&& pins@[k].component == cid
                    &&& pins@[k].designation@ == facts[k].designation
                    &&& pins@[k].electrical_type == PinElectricalType::Passive
                    &&& nets@[k] == facts[k].net
                },
        decreases l.len() - j,
    {
        match &l[j] {
            Sexp::List(pad) => {
                proof {
                    lemma_list_value(*pad);
                }
                if head_is(pad, "pad") {
                    let position = pins.len();
                    let designation = match atom_at(pad, 1) {
                        Some(a) => {
                            if is_blank(a.as_str()) {
                                decimal_text((position + 1) as u128)
                            } else {
                                a.clone()
                            }
                        },
                        None => decimal_text((position + 1) as u128),
                    };
                    assert(designation@ == pad_designation(values(pad@), facts.len()));
                    let joined = match index_arg_exec(pad, "net", 0) {
                        Some(idx) => {
                            if contains_index(kept, idx) {
                                Some(idx)
                            } else {
                                if idx != 0 {
                                    let ghost before = warns@;
                                    warns.push(
                                        ImportWarning::PadUnknownNet {
                                            refdes: refdes.clone(),
                                            pad: designation.clone(),
                                            net_id: idx,
                                        },
                                    );
                                    proof {
                                        assert(warning_facts(warns@) =~= warning_facts(before).push(
                                            WarningFact::PadUnknownNet(refdes@, designation@, idx),
                                        ));
                                    }
                                }
                                None
                            }
                        },
                        None => None,
                    };
                    let ghost f = PinFact { designation: designation@, net: joined };
                    let pin_id = 30_000 + first_pin + position as u128;
                    pins.push(
                        Pin {
                            id: EntityId(pin_id),
                            component: cid,
                            designation,
                            electrical_type: PinElectricalType::Passive,
                        },
                    );
                    nets.push(joined);
                    proof {
                        facts = facts.push(f);
                    }
                }
            },
            Sexp::Atom(_) => {},
        }
        j += 1;
    }
    (pins, nets)
}

pub open spec fn pin_room(i: nat) -> nat {
    i * 0x1_0000_0000_0000_0000
}

/// Pass three: the footprints carried as parts, with the warnings for those skipped.
fn read_footprints(
    items: &Vec<Sexp>,
    kept: &Vec<u128>,
    warns: &mut Vec<ImportWarning>,
    x_extent: i128,
    y_extent: i128,
) -> (r: Result<(Vec<ImportedComponent>, i128, i128), ImportError>)
    requires
        bounded(x_extent as int, 2_000_000_000_000_000_000_000_000_000_000),
        bounded(y_extent as int, 2_000_000_000_000_000_000_000_000_000_000),
    ensures
        match footprints_from(
            values(items@),
            0,
            kept@,
            FpAcc {
                parts: Seq::empty(),
                warnings: warning_facts(old(warns)@),
                max_x: x_extent as int,
                max_y: y_extent as int,
                pin_count: 0,
            },
        ) {
            Ok(a) => r matches Ok((comps, x, y)) && parts_match(comps@, a.parts)
                && warning_facts(final(warns)@) == a.warnings && x == a.max_x && y == a.max_y
                && bounded(x as int, 4_000_000_000_000_000_000_000_000_000_000) && bounded(
                y as int,
                4_000_000_000_000_000_000_000_000_000_000,
            ),
            Err(e) => r matches Err(x) && x@ == e,
        },
{
    let ghost vals = values(items@);
    let ghost start = FpAcc {
        parts: Seq::empty(),
        warnings: warning_facts(warns@),
        max_x: x_extent as int,
        max_y: y_extent as int,
        pin_count: 0,
    };
    let ghost mut parts: Seq<PartFact> = Seq::empty();
    let mut comps: Vec<ImportedComponent> = Vec::new();
    let mut mx = x_extent;
    let mut my = y_extent;
    let mut pin_counter: u128 = 0;
    let mut i: usize = 0;
    while i < items.len()
        invariant
            i <= items.len(),
            vals == values(items@),
            start == (FpAcc {
                parts: Seq::empty(),
                warnings: warning_facts(old(warns)@),
                max_x: x_extent as int,
                max_y: y_extent as int,
                pin_count: 0,
            }),
            footprints_from(vals, 0, kept@, start) == footprints_from(
                vals,
                i as nat,
                kept@,
                FpAcc {
                    parts,
                    warnings: warning_facts(warns@),
                    max_x: mx as int,
                    max_y: my as int,
                    pin_count: pin_counter as nat,
                },
            ),
            parts_match(comps@, parts),
            comps@.len() <= i,
            pin_counter <= pin_room(i as nat),
            bounded(mx as int, 4_000_000_000_000_000_000_000_000_000_000),
            bounded(my as int, 4_000_000_000_000_000_000_000_000_000_000),
        decreases items.len() - i,
    {
        match &items[i] {
            Sexp::List(l) => {
                proof {
                    lemma_list_value(*l);
                }
                if head_is(l, "footprint") || head_is(l, "module") {
                    let x = match number_arg(l, "at", 0) {
                        Some(v) => v,
                        None => {
                            match child(l, "at") {
                                Some(_) => {
                                    return Err(ImportError::Malformed("footprint at x"));
                                },
                                None => {
                                    return Err(ImportError::Malformed("footprint at"));
                                },
                            }
                        },
                    };
                    let y = match number_arg(l, "at", 1) {
                        Some(v) => v,
                        None => {
                            return Err(ImportError::Malformed("footprint at y"));
                        },
                    };
                    let refdes = match footprint_refdes(l) {
                        Some(r) => r,
                        None => {
                            let ghost before = warns@;
                            warns.push(ImportWarning::FootprintNoReference);
                            proof {
                                assert(warning_facts(warns@) =~= warning_facts(before).push(
                                    WarningFact::FootprintNoReference,
                                ));
                            }
                            i += 1;
                            proof {
                                assert(pin_room((i - 1) as nat) <= pin_room(i as nat)) by (nonlinear_arith)
                                    requires i >= 1;
                            }
                            continue;
                        },
                    };
                    proof {
                        lemma_ref_from_nonblank(values(l@), "fp_text"@, "reference"@, 0);
                        lemma_ref_from_nonblank(values(l@), "property"@, "Reference"@, 0);
                    }
                    let class = classify_refdes(refdes.as_str());
                    let cid = EntityId(20_000 + comps.len() as u128);
                    let nl = l.len();
                    proof {
                        assert(pin_counter + l@.len() + 30_000 < u128::MAX) by (nonlinear_arith)
                            requires
                                pin_counter <= i * 0x1_0000_0000_0000_0000,
                                i < 0xffff_ffff_ffff_ffff,
                                l@.len() < 0x1_0000_0000_0000_0000,
                        ;
                    }
                    let ghost before_pads = warns@;
                    let (pins, pin_nets) = read_pads(l, kept, &refdes, cid, pin_counter, warns);
                    if pins.len() == 0 {
                        warns.push(ImportWarning::FootprintNoPads { refdes });
                        proof {
                            assert(warning_facts(warns@) =~= warning_facts(before_pads).push(
                                WarningFact::FootprintNoPads(refdes@),
                            ));
                        }
                        i += 1;
                        proof {
                            assert(pin_room((i - 1) as nat) <= pin_room(i as nat)) by (nonlinear_arith)
                                requires i >= 1;
                        }
                        continue;
                    }
                    let (cw, ch) = footprint_courtyard(l, class);
                    let side = match text_arg(l, "layer", 0) {
                        Some(layer) => {
                            let lv = chars_of(layer.as_str());
                            if starts_with_exec(&lv, "B.") {
                                BoardSide::Bottom
                            } else {
                                BoardSide::Top
                            }
                        },
                        None => BoardSide::Top,
                    };
                    proof {
                        if arg_of(values(l@), "layer"@, 0) is None {
                            reveal_strlit("F.Cu");
                            reveal_strlit("B.");
                            assert(!occurs_at("F.Cu"@, "B."@, 0)) by {
                                assert("F.Cu"@.subrange(0, 2)[0] == 'F');
                            }
                        }
                    }
                    let ghost f = PartFact {
                        refdes: refdes@,
                        class,
                        x: x as int,
                        y: y as int,
                        width: cw as int,
                        height: ch as int,
                        side,
                        first_pin: pin_counter as nat,
                        pins: pins_from(
                            values(l@),
                            0,
                            kept@,
                            refdes@,
                            Seq::empty(),
                            warning_facts(before_pads),
                        ).0,
                    };
                    let npins = pins.len();
                    let component = Component {
                        id: cid,
                        refdes,
                        class,
                        value: None,
                        from_block: EntityId(0),
                        origin: ComponentOrigin::Imported,
                    };
                    if let Err(e) = component.validate() {
                        return Err(ImportError::Invalid(e.message()));
                    }
                    let placement = Placement {
                        id: EntityId(40_000 + comps.len() as u128),
                        component: cid,
                        x: Quantity::length_nm(x),
                        y: Quantity::length_nm(y),
                        width: Quantity::length_nm(cw),
                        height: Quantity::length_nm(ch),
                        side,
                    };
                    if let Err(e) = placement.validate() {
                        return Err(ImportError::Invalid(e.message()));
                    }
                    comps.push(ImportedComponent { component, pins, placement, pin_nets });
                    let ex = x + cw / 2;
                    let ey = y + ch / 2;
                    if ex > mx {
                        mx = ex;
                    }
                    if ey > my {
                        my = ey;
                    }
                    pin_counter = pin_counter + npins as u128;
                    proof {
                        parts = parts.push(f);
                        assert(pin_counter <= pin_room((i + 1) as nat)) by (nonlinear_arith)
                            requires
                                pin_counter <= pin_room(i as nat) + 0x1_0000_0000_0000_0000,
                        ;
                    }
                }
            },
            Sexp::Atom(_) => {},
        }
        i += 1;
        proof {
            assert(pin_room((i - 1) as nat) <= pin_room(i as nat)) by (nonlinear_arith)
                requires i >= 1;
        }
    }
    Ok((comps, mx, my))
}

/// Parse a `.kicad_pcb` document into an [`ImportedDesign`]: kept nets keep their KiCad
/// index, each segment on a kept net becomes a track (`B.*` layers on the bottom), each
/// footprint with a reference designator and pads becomes a component with pins and a
/// placement, and the outline is a standard 2-layer stack sized to the content plus a margin.
/// What cannot be carried is skipped with a warning; a malformed board is a typed error.
pub fn import_kicad_pcb(src: &str) -> (r: Result<ImportedDesign, ImportError>)
    ensures
        match import_spec(src@) {
            Ok(f) => r matches Ok(d) && design_is(d, f),
            Err(e) => r matches Err(x) && x@ == e,
        },
{
    let root = match parse_document(src) {
        Ok(n) => n,
        Err(e) => {
            return Err(e);
        },
    };
    let items = match root {
        Sexp::List(items) => items,
        Sexp::Atom(_) => {
            return Err(ImportError::NotKicadPcb);
        },
    };
    proof {
        lemma_list_value(items);
    }
    if !head_is(&items, "kicad_pcb") {
        return Err(ImportError::NotKicadPcb);
    }
    let (nets, kept) = match read_nets(&items) {
        Ok(p) => p,
        Err(e) => {
            return Err(e);
        },
    };
    let (tracks, mut warns, mx, my) = match read_segments(&items, &kept) {
        Ok(p) => p,
        Err(e) => {
            return Err(e);
        },
    };
    let (components, mx, my) = match read_footprints(&items, &kept, &mut warns, mx, my) {
        Ok(p) => p,
        Err(e) => {
            return Err(e);
        },
    };
    let width = if mx + 5_000_000 > 10_000_000 {
        mx + 5_000_000
    } else {
        10_000_000
    };
    let height = if my + 5_000_000 > 10_000_000 {
        my + 5_000_000
    } else {
        10_000_000
    };
    let board = Board {
        id: EntityId(1),
        width: Quantity::length_nm(width),
        height: Quantity::length_nm(height),
        stack: LayerStack::standard_two_layer(),
    };
    if let Err(e) = board.validate() {
        return Err(ImportError::Invalid(e.message()));
    }
    let d = ImportedDesign { board, nets, tracks, components, warnings: warns };
    proof {
        let wf = warning_facts(d.warnings@);
        assert(forall|k: int| 0 <= k < wf.len() ==> (#[trigger] d.warnings@[k])@ == wf[k]);
    }
    Ok(d)
}

} // verus!
