//! Character- and string-level helpers shared by the domain invariants, the
//! `.kicad_pcb` reader and the prompt builders.
use vstd::prelude::*;

verus! {

/// Whether `c` carries the Unicode `White_Space` property (the set `char::is_whitespace`
/// recognises).
pub open spec fn spec_is_whitespace(c: char) -> bool {
    let u = c as u32;
    (0x9 <= u && u <= 0xd) || u == 0x20 || u == 0x85 || u == 0xa0 || u == 0x1680 || (0x2000 <= u
        && u <= 0x200a) || u == 0x2028 || u == 0x2029 || u == 0x202f || u == 0x205f || u == 0x3000
}

/// A text is blank when every character is white space — exactly when trimming it leaves
/// nothing.
pub open spec fn spec_is_blank(s: Seq<char>) -> bool {
    forall|i: int| 0 <= i < s.len() ==> spec_is_whitespace(#[trigger] s[i])
}

pub fn is_whitespace(c: char) -> (r: bool)
    ensures
        r == spec_is_whitespace(c),
{
    let u = c as u32;
    (0x9 <= u && u <= 0xd) || u == 0x20 || u == 0x85 || u == 0xa0 || u == 0x1680 || (0x2000 <= u
        && u <= 0x200a) || u == 0x2028 || u == 0x2029 || u == 0x202f || u == 0x205f || u == 0x3000
}

/// The characters of a string slice, in order.
pub fn chars_of(s: &str) -> (v: Vec<char>)
    ensures
        v@ == s@,
{
    let mut v: Vec<char> = Vec::new();
    for c in it: s.chars()
        invariant
            v@ == it.seq().take(it.index() as int),
    {
        v.push(c);
    }
    v
}

/// Collects characters into an owned `String` (std's `FromIterator<char>` for `String`).
#[verifier::external_body]
pub(crate) fn string_from_chars(v: &Vec<char>) -> (s: String)
    ensures
        s@ == v@,
{
    v.iter().collect()
}

/// Whether the text is empty once surrounding white space is trimmed.
pub fn is_blank(s: &str) -> (r: bool)
    ensures
        r == spec_is_blank(s@),
{
    let v = chars_of(s);
    let mut i: usize = 0;
    while i < v.len()
        invariant
            v@ == s@,
            i <= v.len(),
            forall|j: int| 0 <= j < i ==> spec_is_whitespace(#[trigger] v@[j]),
        decreases v.len() - i,
    {
        if !is_whitespace(v[i]) {
            return false;
        }
        i += 1;
    }
    true
}

/// ASCII upper-case mapping of one character; other characters are kept.
pub open spec fn spec_ascii_upper(c: char) -> char {
    if 'a' <= c && c <= 'z' {
        ((c as u32) - 32) as char
    } else {
        c
    }
}

/// ASCII lower-case mapping of one character; other characters are kept.
pub open spec fn spec_ascii_lower(c: char) -> char {
    if 'A' <= c && c <= 'Z' {
        ((c as u32) + 32) as char
    } else {
        c
    }
}

/// Equality of two texts up to ASCII case (`str::eq_ignore_ascii_case`).
pub open spec fn spec_eq_ignore_ascii_case(a: Seq<char>, b: Seq<char>) -> bool {
    a.len() == b.len() && forall|i: int|
        0 <= i < a.len() ==> spec_ascii_lower(#[trigger] a[i]) == spec_ascii_lower(b[i])
}

pub fn ascii_lower(c: char) -> (r: char)
    ensures
        r == spec_ascii_lower(c),
{
    if 'A' <= c && c <= 'Z' {
        let u = (c as u32) + 32;
        assert(0x41 + 32 <= u <= 0x5a + 32);
        char_from_ascii(u)
    } else {
        c
    }
}

pub fn ascii_upper(c: char) -> (r: char)
    ensures
        r == spec_ascii_upper(c),
{
    if 'a' <= c && c <= 'z' {
        let u = (c as u32) - 32;
        char_from_ascii(u)
    } else {
        c
    }
}

/// The character with a given ASCII code point (`char::from_u32`, which cannot fail below 128).
#[verifier::external_body]
pub(crate) fn char_from_ascii(u: u32) -> (c: char)
    requires
        u < 128,
    ensures
        c as u32 == u,
{
    char::from_u32(u).unwrap()
}

pub fn eq_ignore_ascii_case(a: &Vec<char>, b: &Vec<char>) -> (r: bool)
    ensures
        r == spec_eq_ignore_ascii_case(a@, b@),
{
    if a.len() != b.len() {
        return false;
    }
    let mut i: usize = 0;
    while i < a.len()
        invariant
            a.len() == b.len(),
            i <= a.len(),
            forall|j: int| 0 <= j < i ==> spec_ascii_lower(#[trigger] a@[j]) == spec_ascii_lower(
                b@[j],
            ),
        decreases a.len() - i,
    {
        if ascii_lower(a[i]) != ascii_lower(b[i]) {
            return false;
        }
        i += 1;
    }
    true
}

/// The first position at or after `i` that holds no white space (or the end).
pub open spec fn spec_lead_end(s: Seq<char>, i: nat) -> nat
    decreases s.len() - i,
{
    if i < s.len() && spec_is_whitespace(s[i as int]) {
        spec_lead_end(s, i + 1)
    } else {
        i
    }
}

/// The end of the text once trailing white space before position `k` is dropped.
pub open spec fn spec_trail_end(s: Seq<char>, k: nat) -> nat
    decreases k,
{
    if 0 < k <= s.len() && spec_is_whitespace(s[k - 1]) {
        spec_trail_end(s, (k - 1) as nat)
    } else {
        k
    }
}

/// The text with leading and trailing white space removed (`str::trim`).
pub open spec fn spec_trim(s: Seq<char>) -> Seq<char> {
    let a = spec_lead_end(s, 0);
    let b = spec_trail_end(s, s.len());
    if a < b {
        s.subrange(a as int, b as int)
    } else {
        Seq::empty()
    }
}

/// `str::trim`, on a character vector.
pub fn trim(s: &Vec<char>) -> (r: Vec<char>)
    ensures
        r@ == spec_trim(s@),
{
    let mut a: usize = 0;
    while a < s.len() && is_whitespace(s[a])
        invariant
            a <= s.len(),
            spec_lead_end(s@, a as nat) == spec_lead_end(s@, 0),
        decreases s.len() - a,
    {
        a += 1;
    }
    let mut b: usize = s.len();
    while b > 0 && is_whitespace(s[b - 1])
        invariant
            b <= s.len(),
            spec_trail_end(s@, b as nat) == spec_trail_end(s@, s@.len()),
        decreases b,
    {
        b -= 1;
    }
    let mut r: Vec<char> = Vec::new();
    if a < b {
        let mut i = a;
        while i < b
            invariant
                a <= i <= b <= s.len(),
                r@ == s@.subrange(a as int, i as int),
            decreases b - i,
        {
            r.push(s[i]);
            i += 1;
        }
    }
    r
}

/// Whether a vector of characters spells the text `b`.
pub fn chars_equal(a: &Vec<char>, b: &str) -> (r: bool)
    ensures
        r == (a@ == b@),
{
    let bv = chars_of(b);
    if a.len() != bv.len() {
        return false;
    }
    let mut i: usize = 0;
    while i < a.len()
        invariant
            bv@ == b@,
            a.len() == bv.len(),
            i <= a.len(),
            forall|j: int| 0 <= j < i ==> a@[j] == bv@[j],
        decreases a.len() - i,
    {
        if a[i] != bv[i] {
            return false;
        }
        i += 1;
    }
    assert(a@ =~= bv@);
    true
}

/// Whether two texts are equal.
pub fn same_text(a: &str, b: &str) -> (r: bool)
    ensures
        r == (a@ == b@),
{
    let av = chars_of(a);
    chars_equal(&av, b)
}

/// Whether `p` occurs in `u` starting at position `i`.
pub open spec fn occurs_at(u: Seq<char>, p: Seq<char>, i: int) -> bool {
    0 <= i && i + p.len() <= u.len() && u.subrange(i, i + p.len()) == p
}

/// Whether `p` occurs anywhere in `u`.
pub open spec fn contains_text(u: Seq<char>, p: Seq<char>) -> bool {
    exists|i: int| occurs_at(u, p, i)
}

pub fn occurs_at_exec(u: &Vec<char>, p: &Vec<char>, i: usize) -> (r: bool)
    ensures
        r == occurs_at(u@, p@, i as int),
{
    if i > u.len() || p.len() > u.len() - i {
        return false;
    }
    let mut k: usize = 0;
    while k < p.len()
        invariant
            i + p.len() <= u.len(),
            k <= p.len(),
            forall|j: int| 0 <= j < k ==> u@[i + j] == p@[j],
        decreases p.len() - k,
    {
        if u[i + k] != p[k] {
            assert(u@.subrange(i as int, i + p.len())[k as int] != p@[k as int]);
            return false;
        }
        k += 1;
    }
    assert(u@.subrange(i as int, i + p.len()) =~= p@);
    true
}

/// Whether the text `p` occurs in `u` (`str::contains` with a text pattern).
pub fn contains_exec(u: &Vec<char>, p: &str) -> (r: bool)
    ensures
        r == contains_text(u@, p@),
{
    let pv = chars_of(p);
    if pv.len() > u.len() {
        return false;
    }
    let last = u.len() - pv.len();
    let mut i: usize = 0;
    loop
        invariant
            pv@ == p@,
            last == u.len() - p@.len(),
            i <= last,
            forall|j: int| 0 <= j < i ==> !occurs_at(u@, p@, j),
        ensures
            forall|j: int| 0 <= j <= last ==> !occurs_at(u@, p@, j),
        decreases last - i,
    {
        if occurs_at_exec(u, &pv, i) {
            return true;
        }
        if i == last {
            break;
        }
        i += 1;
    }
    false
}

/// Whether `u` begins with the text `p` (`str::starts_with` with a text pattern).
pub fn starts_with_exec(u: &Vec<char>, p: &str) -> (r: bool)
    ensures
        r == occurs_at(u@, p@, 0),
{
    let pv = chars_of(p);
    occurs_at_exec(u, &pv, 0)
}

} // verus!
