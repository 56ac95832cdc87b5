//! Plain decimal numbers as `.kicad_pcb` writes them (`[+|-]digits[.digits]`), read exactly
//! onto the 1 nm grid when they are millimetres, and whole numbers written in decimal.
use vstd::prelude::*;

verus! {

pub open spec fn is_digit(c: char) -> bool {
    '0' <= c && c <= '9'
}

pub open spec fn digit_value(c: char) -> nat {
    (c as nat - '0' as nat) as nat
}

pub open spec fn all_digits(s: Seq<char>) -> bool {
    forall|i: int| 0 <= i < s.len() ==> is_digit(#[trigger] s[i])
}

/// The value of a string of decimal digits.
pub open spec fn digits_value(s: Seq<char>) -> nat
    decreases s.len(),
{
    if s.len() == 0 {
        0
    } else {
        digits_value(s.drop_last()) * 10 + digit_value(s.last())
    }
}

pub open spec fn pow10(n: nat) -> nat
    decreases n,
{
    if n == 0 {
        1
    } else {
        10 * pow10((n - 1) as nat)
    }
}

/// Whole nanometres per millimetre.
pub open spec fn nm_per_mm() -> nat {
    1_000_000
}

/// The largest integer part a length may have, in millimetres (a kilometre and a half of
/// copper is far past any board; the bound keeps every sum on the grid exact).
pub open spec fn max_whole_mm() -> nat {
    1_000_000_000_000_000_000_000_000
}

/// The position of the first `.` at or after `i`, or the length.
pub open spec fn dot_from(s: Seq<char>, i: nat) -> nat
    decreases s.len() - i,
{
    if i >= s.len() {
        s.len()
    } else if s[i as int] == '.' {
        i
    } else {
        dot_from(s, i + 1)
    }
}

/// Sign and digits of a decimal: whether it is negative, and the text after the sign.
pub open spec fn unsigned_part(s: Seq<char>) -> (bool, Seq<char>) {
    if s.len() > 0 && (s[0] == '-' || s[0] == '+') {
        (s[0] == '-', s.drop_first())
    } else {
        (false, s)
    }
}

/// A decimal number of millimetres as whole nanometres: `[+|-]digits[.digits]` with at least
/// one digit; fraction digits past the sixth (below the 1 nm grid) are dropped. `None` for any
/// other text, and for integer parts past [`max_whole_mm`].
///
/// Lengths are held as whole nanometres, the grid a KiCad board itself is stored on, so a
/// board file carries no finer digits to round. A board file writes plain decimals: exponent
/// forms, `inf` and `nan` are no lengths a board can hold and read as malformed, and integer
/// parts past the bound lie far outside any board and outside the range the model holds.
pub open spec fn decimal_nm(s: Seq<char>) -> Option<int> {
    let (neg, body) = unsigned_part(s);
    let d = dot_from(body, 0);
    let ip = body.take(d as int);
    let fp = if d < body.len() {
        body.skip(d + 1 as int)
    } else {
        Seq::empty()
    };
    let f6 = if fp.len() <= 6 {
        fp
    } else {
        fp.take(6)
    };
    if !all_digits(ip) || !all_digits(fp) || ip.len() + fp.len() == 0 || digits_value(ip)
        >= max_whole_mm() {
        None
    } else {
        let mag = (digits_value(ip) * nm_per_mm() + digits_value(f6) * pow10(
            (6 - f6.len()) as nat,
        )) as int;
        Some(
            if neg {
                -mag
            } else {
                mag
            },
        )
    }
}

/// A decimal read as a whole number, truncated toward zero; negative values read as zero.
pub open spec fn decimal_index(s: Seq<char>) -> Option<u128> {
    match decimal_nm(s) {
        Some(v) => Some(
            if v < 0 {
                0u128
            } else {
                (v / nm_per_mm() as int) as u128
            },
        ),
        None => None,
    }
}

pub proof fn lemma_digits_prefix(s: Seq<char>, k: int)
    requires
        0 <= k <= s.len(),
        all_digits(s),
    ensures
        digits_value(s.take(k)) <= digits_value(s),
    decreases s.len() - k,
{
    if k < s.len() {
        lemma_digits_prefix(s, k + 1);
        assert(s.take(k + 1).drop_last() =~= s.take(k));
    } else {
        assert(s.take(k) =~= s);
    }
}

pub proof fn lemma_pow10_bounds(n: nat)
    requires
        n <= 6,
    ensures
        1 <= pow10(n) <= 1_000_000,
{
    reveal_with_fuel(pow10, 7);
}

pub proof fn lemma_digits_bound(s: Seq<char>)
    requires
        all_digits(s),
    ensures
        digits_value(s) < pow10(s.len()),
    decreases s.len(),
{
    if s.len() > 0 {
        lemma_digits_bound(s.drop_last());
    }
}

/// Read a decimal number of millimetres as whole nanometres.
#[verifier::rlimit(40)]
pub fn parse_decimal_nm(t: &Vec<char>) -> (r: Option<i128>)
    ensures
        match decimal_nm(t@) {
            Some(v) => r == Some(v as i128),
            None => r is None,
        },
        r matches Some(v) ==> -2_000_000_000_000_000_000_000_000_000_000 < v
            < 2_000_000_000_000_000_000_000_000_000_000,
        decimal_nm(t@) matches Some(v) ==> -2_000_000_000_000_000_000_000_000_000_000 < v
            < 2_000_000_000_000_000_000_000_000_000_000,
{
    let ghost (neg_s, body_s) = unsigned_part(t@);
    let mut i: usize = 0;
    let mut neg = false;
    if t.len() > 0 && (t[0] == '-' || t[0] == '+') {
        neg = t[0] == '-';
        i = 1;
    }
    proof {
        assert(body_s =~= t@.skip(i as int));
    }
    let start = i;
    // integer part
    let mut whole: i128 = 0;
    while i < t.len() && t[i] != '.'
        invariant
            start <= i <= t.len(),
            body_s == t@.skip(start as int),
            body_s == unsigned_part(t@).1,
            all_digits(t@.subrange(start as int, i as int)),
            whole == digits_value(t@.subrange(start as int, i as int)),
            whole < max_whole_mm(),
            dot_from(body_s, 0) == dot_from(body_s, (i - start) as nat),
        decreases t.len() - i,
    {
        let c = t[i];
        if !('0' <= c && c <= '9') {
            proof {
                let d = dot_from(body_s, 0);
                let m = (i - start) as int;
                lemma_dot_from_after(body_s, m as nat);
                assert(body_s[m] == t@[i as int]);
                assert(body_s[m] != '.');
                assert(d > m);
                let ip = body_s.take(d as int);
                assert(ip[m] == c);
                assert(!is_digit(ip[m]));
                assert(!all_digits(ip));
            }
            return None;
        }
        let dv = (c as u32 - '0' as u32) as i128;
        proof {
            assert(t@.subrange(start as int, i + 1).drop_last() =~= t@.subrange(
                start as int,
                i as int,
            ));
        }
        whole = whole * 10 + dv;
        i += 1;
        if whole >= 1_000_000_000_000_000_000_000_000 {
            proof {
                let d = dot_from(body_s, 0);
                lemma_dot_from_after(body_s, (i - start) as nat);
                let ip = body_s.take(d as int);
                assert(ip.take(i - start) =~= t@.subrange(start as int, i as int));
                if all_digits(ip) {
                    lemma_digits_prefix(ip, i - start);
                }
            }
            return None;
        }
    }
    let int_end = i;
    proof {
        lemma_dot_from_after(body_s, (i - start) as nat);
        assert(dot_from(body_s, 0) == int_end - start);
        assert(body_s.take((int_end - start) as int) =~= t@.subrange(start as int, int_end as int));
    }
    // fraction part
    let mut frac: i128 = 0;
    let mut nfrac: usize = 0;
    let mut has_dot = false;
    if i < t.len() {
        has_dot = true;
        i += 1;
        let fstart = i;
        proof {
            assert(body_s.skip((int_end - start) + 1) =~= t@.skip(fstart as int));
        }
        while i < t.len()
            invariant
                fstart <= i <= t.len(),
                fstart == int_end + 1,
                body_s == unsigned_part(t@).1,
                body_s == t@.skip(start as int),
                dot_from(body_s, 0) == int_end - start,
                int_end < t.len(),
                body_s.skip((int_end - start) + 1) == t@.skip(fstart as int),
                nfrac == if i - fstart <= 6 {
                    i - fstart
                } else {
                    6
                },
                all_digits(t@.subrange(fstart as int, i as int)),
                frac == digits_value(t@.subrange(fstart as int, fstart + nfrac)),
                frac < pow10(nfrac as nat),
                nfrac <= 6,
            decreases t.len() - i,
        {
            let c = t[i];
            if !('0' <= c && c <= '9') {
                proof {
                    assert(t@.skip(fstart as int)[i - fstart] == c);
                    assert(!is_digit(t@.skip(fstart as int)[i - fstart]));
                }
                return None;
            }
            if nfrac < 6 {
                let dv = (c as u32 - '0' as u32) as i128;
                proof {
                    assert(t@.subrange(fstart as int, fstart + nfrac + 1).drop_last() =~= t@.subrange(
                        fstart as int,
                        fstart + nfrac,
                    ));
                    lemma_pow10_bounds(nfrac as nat);
                    reveal_with_fuel(pow10, 2);
                }
                frac = frac * 10 + dv;
                nfrac += 1;
            }
            i += 1;
        }
        proof {
            let fp = t@.skip(fstart as int);
            assert(fp =~= t@.subrange(fstart as int, i as int));
            if fp.len() <= 6 {
                assert(t@.subrange(fstart as int, fstart + nfrac) =~= fp);
            } else {
                assert(t@.subrange(fstart as int, fstart + nfrac) =~= fp.take(6));
            }
        }
    }
    if int_end - start == 0 && (!has_dot || i - int_end - 1 == 0) {
        proof {
            if has_dot {
                assert(t@.skip((int_end + 1) as int).len() == 0);
            }
        }
        return None;
    }
    proof {
        lemma_pow10_bounds((6 - nfrac) as nat);
    }
    let mut scale: i128 = 1;
    let mut k: usize = nfrac;
    while k < 6
        invariant
            nfrac <= k <= 6,
            scale == pow10((k - nfrac) as nat),
            scale <= 1_000_000,
        decreases 6 - k,
    {
        proof {
            reveal_with_fuel(pow10, 2);
            lemma_pow10_bounds((k - nfrac + 1) as nat);
        }
        scale = scale * 10;
        k += 1;
    }
    proof {
        lemma_pow10_bounds(nfrac as nat);
    }
    assert(frac * scale < 1_000_000_000_000) by (nonlinear_arith)
        requires
            frac < 1_000_000,
            scale <= 1_000_000,
            frac >= 0,
            scale >= 0,
    ;
    assert(whole * 1_000_000 < 1_000_000_000_000_000_000_000_000_000_000) by (nonlinear_arith)
        requires
            whole < 1_000_000_000_000_000_000_000_000,
            whole >= 0,
    ;
    let mag = whole * 1_000_000 + frac * scale;
    assert(0 <= mag < 2_000_000_000_000_000_000_000_000_000_000);
    proof {
        if !has_dot {
            assert(dot_from(body_s, 0) == body_s.len());
        }
    }
    if neg {
        Some(-mag)
    } else {
        Some(mag)
    }
}

/// Positions before the first `.` at or after `i` hold no `.`.
pub proof fn lemma_dot_from_after(s: Seq<char>, i: nat)
    requires
        i <= s.len(),
    ensures
        i <= dot_from(s, i) <= s.len(),
        dot_from(s, i) < s.len() ==> s[dot_from(s, i) as int] == '.',
        forall|j: int| i <= j < dot_from(s, i) ==> s[j] != '.',
    decreases s.len() - i,
{
    if i < s.len() && s[i as int] != '.' {
        lemma_dot_from_after(s, i + 1);
    }
}

/// The character of a decimal digit.
pub open spec fn digit_char(d: nat) -> char {
    (d + 48) as char
}

/// The decimal numeral of a whole number, without leading zeros.
pub open spec fn decimal_digits(n: nat) -> Seq<char>
    decreases n,
{
    if n < 10 {
        seq![digit_char(n)]
    } else {
        decimal_digits(n / 10).push(digit_char(n % 10))
    }
}

/// The decimal numeral of `n` (what `to_string` gives for an integer).
pub fn decimal_text(n: u128) -> (r: String)
    ensures
        r@ == decimal_digits(n as nat),
{
    let mut rev: Vec<char> = Vec::new();
    let mut m = n;
    // digits are produced least significant first
    loop
        invariant_except_break
            decimal_digits(n as nat) == decimal_digits(m as nat) + rev@.reverse(),
        ensures
            decimal_digits(n as nat) == rev@.reverse(),
        decreases m,
    {
        let d = (m % 10) as u32;
        let c = crate::text::char_from_ascii(d + 48);
        if m < 10 {
            proof {
                assert(c == digit_char(m as nat));
                assert(decimal_digits(m as nat) == seq![digit_char(m as nat)]);
                assert(rev@.push(c).reverse() =~= seq![c] + rev@.reverse());
            }
            rev.push(c);
            break;
        }
        proof {
            assert(c == digit_char((m % 10) as nat));
            assert(decimal_digits(m as nat) == decimal_digits((m / 10) as nat).push(
                digit_char((m % 10) as nat),
            ));
            assert(rev@.push(c).reverse() =~= seq![c] + rev@.reverse());
            assert(decimal_digits((m / 10) as nat).push(c) + rev@.reverse() =~= decimal_digits(
                (m / 10) as nat,
            ) + rev@.push(c).reverse());
        }
        rev.push(c);
        m = m / 10;
    }
    let mut out: Vec<char> = Vec::new();
    let mut k = rev.len();
    while k > 0
        invariant
            k <= rev.len(),
            out@ == rev@.reverse().take((rev.len() - k) as int),
            decimal_digits(n as nat) == rev@.reverse(),
        decreases k,
    {
        k -= 1;
        proof {
            assert(rev@.reverse().take((rev.len() - k) as int) =~= rev@.reverse().take(
                (rev.len() - k - 1) as int,
            ).push(rev@[k as int]));
        }
        out.push(rev[k]);
    }
    assert(rev@.reverse().take(rev.len() as int) =~= rev@.reverse());
    crate::text::string_from_chars(&out)
}

} // verus!
