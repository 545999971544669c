//! Exact decimal prices: parsing from text, ordering, and rendering back to
//! the number's natural decimal form.

use vstd::prelude::*;
use crate::digits::pow10;
use crate::digits::pow10_u64;
use crate::digits::lemma_pow10_monotonic;
use crate::digits::lemma_pow10_positive;
use crate::digits::lemma_pow10_19_fits_u64;
use crate::digits::dec_digits;
use crate::digits::u64_to_dec;

verus! {

/// A non-negative price, held exactly as `mantissa / 10^scale`.
#[derive(Clone, Copy, PartialEq, Eq, Structural, Debug)]
pub struct Price {
    pub mantissa: u64,
    pub scale: u8,
}

impl Price {
    /// Well-formed: the scale is small enough for exact comparison, and the
    /// fraction carries no trailing zeros.
    pub open spec fn wf(self) -> bool {
        &&& self.scale <= 19
        &&& self.scale > 0 ==> self.mantissa % 10 != 0
    }
}

/// `a <= b` as rationals: cross-multiplied comparison.
pub open spec fn price_le(a: Price, b: Price) -> bool {
    a.mantissa * pow10(b.scale as nat) <= b.mantissa * pow10(a.scale as nat)
}

/// Compares two prices exactly.
pub fn price_le_exec(a: &Price, b: &Price) -> (r: bool)
    requires
        a.wf(),
        b.wf(),
    ensures
        r == price_le(*a, *b),
{
    let pa = pow10_u64(a.scale);
    let pb = pow10_u64(b.scale);
    proof {
        lemma_pow10_monotonic(a.scale as nat, 19);
        lemma_pow10_monotonic(b.scale as nat, 19);
        lemma_pow10_19_fits_u64();
        assert(a.mantissa as u128 * pb as u128 <= u64::MAX as u128 * pow10(19))
            by (nonlinear_arith)
            requires
                a.mantissa as u128 <= u64::MAX as u128,
                0 <= pb as u128,
                pb as u128 <= pow10(19),
        ;
        assert(b.mantissa as u128 * pa as u128 <= u64::MAX as u128 * pow10(19))
            by (nonlinear_arith)
            requires
                b.mantissa as u128 <= u64::MAX as u128,
                0 <= pa as u128,
                pa as u128 <= pow10(19),
        ;
    }
    let left: u128 = a.mantissa as u128 * pb as u128;
    let right: u128 = b.mantissa as u128 * pa as u128;
    left <= right
}

/// An ASCII decimal digit.
pub open spec fn is_ascii_digit(b: u8) -> bool {
    48 <= b && b <= 57
}

pub open spec fn all_digits(s: Seq<u8>) -> bool {
    forall|i: int| 0 <= i < s.len() ==> is_ascii_digit(#[trigger] s[i])
}

/// The value of a string of decimal digits, most significant first.
pub open spec fn digits_val(s: Seq<u8>) -> nat
    decreases s.len(),
{
    if s.len() == 0 {
        0
    } else {
        digits_val(s.drop_last()) * 10 + (
        if is_ascii_digit(s.last()) {
            (s.last() - 48) as nat
        } else {
            0
        })
    }
}

/// The first position at or after `i` holding a dot, or the length.
pub open spec fn find_dot(s: Seq<u8>, i: nat) -> nat
    decreases s.len() - i,
{
    if i >= s.len() {
        s.len()
    } else if s[i as int] == 46 {
        i
    } else {
        find_dot(s, i + 1)
    }
}

/// The accepted price grammar: one or more digits, optionally followed by a
/// dot and one or more digits.
pub open spec fn price_text_valid(s: Seq<u8>) -> bool {
    let d = find_dot(s, 0);
    if d == s.len() {
        s.len() > 0 && all_digits(s)
    } else {
        &&& d > 0
        &&& d + 1 < s.len()
        &&& all_digits(s.take(d as int))
        &&& all_digits(s.skip(d as int + 1))
    }
}

pub open spec fn price_scale_of(s: Seq<u8>) -> nat {
    let d = find_dot(s, 0);
    if d == s.len() {
        0
    } else {
        (s.len() - d - 1) as nat
    }
}

pub open spec fn price_mantissa_of(s: Seq<u8>) -> nat {
    let d = find_dot(s, 0);
    if d == s.len() {
        digits_val(s)
    } else {
        digits_val(s.take(d as int)) * pow10(price_scale_of(s)) + digits_val(
            s.skip(d as int + 1),
        )
    }
}

/// Strips trailing zeros from the fraction.
pub open spec fn norm(m: nat, sc: nat) -> (nat, nat)
    decreases sc,
{
    if sc > 0 && m % 10 == 0 {
        norm(m / 10, (sc - 1) as nat)
    } else {
        (m, sc)
    }
}

/// What parsing a price text yields: the normalized exact decimal, or
/// nothing when the text does not fit the grammar or exceeds what a machine
/// word holds.
pub open spec fn spec_parse_price(s: Seq<u8>) -> Option<Price> {
    if price_text_valid(s) {
        let m = price_mantissa_of(s);
        let sc = price_scale_of(s);
        if m <= u64::MAX && sc <= 19 {
            let n = norm(m, sc);
            Some(Price { mantissa: n.0 as u64, scale: n.1 as u8 })
        } else {
            None
        }
    } else {
        None
    }
}

/// A digit string's value only grows as the string extends.
proof fn lemma_digits_val_prefix_le(s: Seq<u8>, k: int)
    requires
        0 <= k <= s.len(),
    ensures
        digits_val(s.take(k)) <= digits_val(s),
    decreases s.len(),
{
    if k < s.len() {
        assert(s.take(k) =~= s.drop_last().take(k));
        lemma_digits_val_prefix_le(s.drop_last(), k);
    } else {
        assert(s.take(k) =~= s);
    }
}

/// Parses a price text into an exact decimal.
#[verifier::loop_isolation(false)]
pub fn parse_price(s: &Vec<u8>) -> (r: Option<Price>)
    ensures
        r == spec_parse_price(s@),
        r matches Some(p) ==> p.wf(),
{
    let ghost gs = s@;
    // Locate the dot, if any.
    let mut d: usize = 0;
    while d < s.len() && s[d] != 46
        invariant
            0 <= d <= gs.len(),
            find_dot(gs, 0) == find_dot(gs, d as nat),
            forall|i: int| 0 <= i < d ==> gs[i] != 46,
        decreases gs.len() - d,
    {
        d = d + 1;
    }
    assert(find_dot(gs, 0) == d as nat);
    let int_end: usize = d;
    if int_end == 0 && d < s.len() {
        // A leading dot is not a price.
        return None;
    }
    if d < s.len() && d + 1 == s.len() {
        // A trailing dot is not a price.
        return None;
    }
    // Accumulate the integer digits.
    let mut m: u64 = 0;
    let mut i: usize = 0;
    while i < int_end
        invariant
            0 <= i <= int_end <= gs.len(),
            int_end == find_dot(gs, 0),
            m == digits_val(gs.take(int_end as int).take(i as int)),
            all_digits(gs.take(int_end as int).take(i as int)),
        decreases int_end - i,
    {
        let b = s[i];
        if b < 48 || b > 57 {
            assert(!is_ascii_digit(gs.take(int_end as int)[i as int]));
            assert(!all_digits(gs.take(int_end as int)));
            assert(!price_text_valid(gs)) by {
                if find_dot(gs, 0) == gs.len() {
                    assert(gs.take(int_end as int) =~= gs);
                }
            }
            return None;
        }
        let dig = b - 48;
        if m > (u64::MAX - dig as u64) / 10 {
            // The value exceeds a machine word; so does the whole mantissa.
            proof {
                let pre = gs.take(int_end as int).take(i as int + 1);
                assert(pre.drop_last() =~= gs.take(int_end as int).take(i as int));
                assert(digits_val(pre) > u64::MAX);
                lemma_digits_val_prefix_le(gs.take(int_end as int), i as int + 1);
                lemma_mantissa_ge_int_part(gs);
            }
            return None;
        }
        m = m * 10 + dig as u64;
        proof {
            let pre = gs.take(int_end as int).take(i as int + 1);
            assert(pre.drop_last() =~= gs.take(int_end as int).take(i as int));
            assert(pre.last() == gs[i as int]);
        }
        i = i + 1;
    }
    assert(gs.take(int_end as int).take(int_end as int) =~= gs.take(int_end as int));
    if int_end == s.len() {
        // No fraction.
        if int_end == 0 {
            return None;
        }
        assert(gs.take(int_end as int) =~= gs);
        let n = normalize(m, 0);
        return Some(n);
    }
    // Accumulate the fraction digits.
    let frac_len: usize = s.len() - d - 1;
    if frac_len > 19 {
        return None;
    }
    let mut f: u64 = 0;
    let mut j: usize = d + 1;
    while j < s.len()
        invariant
            d + 1 <= j <= gs.len(),
            d == find_dot(gs, 0),
            (d as int) + 1 < gs.len(),
            f == digits_val(gs.skip(d as int + 1).take(j - d - 1)),
            all_digits(gs.skip(d as int + 1).take(j - d - 1)),
        decreases gs.len() - j,
    {
        let b = s[j];
        if b < 48 || b > 57 {
            assert(!is_ascii_digit(gs.skip(d as int + 1)[j - d - 1]));
            assert(!all_digits(gs.skip(d as int + 1)));
            return None;
        }
        let dig = b - 48;
        if f > (u64::MAX - dig as u64) / 10 {
            proof {
                let frac = gs.skip(d as int + 1);
                let pre = frac.take(j - d - 1 + 1);
                assert(pre.drop_last() =~= frac.take(j - d - 1));
                assert(digits_val(pre) > u64::MAX);
                lemma_digits_val_prefix_le(frac, j - d - 1 + 1);
                lemma_mantissa_ge_frac_part(gs);
            }
            return None;
        }
        f = f * 10 + dig as u64;
        proof {
            let frac = gs.skip(d as int + 1);
            let pre = frac.take(j - d - 1 + 1);
            assert(pre.drop_last() =~= frac.take(j - d - 1));
            assert(pre.last() == gs[j as int]);
        }
        j = j + 1;
    }
    assert(gs.skip(d as int + 1).take(gs.len() - d - 1) =~= gs.skip(d as int + 1));
    // Combine: integer part scaled up, plus fraction.
    let pw = pow10_u64(frac_len as u8);
    proof {
        lemma_pow10_monotonic(frac_len as nat, 19);
        lemma_pow10_19_fits_u64();
        assert(m as u128 * pw as u128 <= u64::MAX as u128 * pow10(19)) by (nonlinear_arith)
            requires
                m as u128 <= u64::MAX as u128,
                0 <= pw as u128,
                pw as u128 <= pow10(19),
        ;
    }
    let wide: u128 = m as u128 * pw as u128 + f as u128;
    if wide > u64::MAX as u128 {
        return None;
    }
    let n = normalize(wide as u64, frac_len as u8);
    Some(n)
}

/// The whole mantissa is at least the integer part's value.
proof fn lemma_mantissa_ge_int_part(s: Seq<u8>)
    ensures
        price_mantissa_of(s) >= digits_val(s.take(find_dot(s, 0) as int)),
{
    let d = find_dot(s, 0);
    lemma_find_dot_le_len(s, 0);
    if d == s.len() {
        assert(s.take(d as int) =~= s);
    } else {
        let a = digits_val(s.take(d as int));
        let p = pow10(price_scale_of(s));
        lemma_pow10_positive(price_scale_of(s));
        assert(a * p >= a * 1) by (nonlinear_arith)
            requires
                p >= 1,
                a >= 0,
        ;
    }
}

/// The whole mantissa is at least the fraction part's value.
proof fn lemma_mantissa_ge_frac_part(s: Seq<u8>)
    requires
        find_dot(s, 0) < s.len(),
    ensures
        price_mantissa_of(s) >= digits_val(s.skip(find_dot(s, 0) as int + 1)),
{
    let d = find_dot(s, 0);
    let a = digits_val(s.take(d as int));
    let p = pow10(price_scale_of(s));
    assert(a * p >= 0) by (nonlinear_arith)
        requires
            p >= 0,
            a >= 0,
    ;
}

proof fn lemma_find_dot_le_len(s: Seq<u8>, i: nat)
    requires
        i <= s.len(),
    ensures
        i <= find_dot(s, i) <= s.len(),
    decreases s.len() - i,
{
    if i < s.len() && s[i as int] != 46 {
        lemma_find_dot_le_len(s, i + 1);
    }
}

/// Strips trailing zeros from the fraction.
fn normalize(m0: u64, sc0: u8) -> (r: Price)
    ensures
        (r.mantissa as nat, r.scale as nat) == norm(m0 as nat, sc0 as nat),
        r.scale <= sc0,
        r.mantissa <= m0,
        r.wf() || r.scale > 19,
{
    let mut m: u64 = m0;
    let mut sc: u8 = sc0;
    while sc > 0 && m % 10 == 0
        invariant
            norm(m0 as nat, sc0 as nat) == norm(m as nat, sc as nat),
            sc <= sc0,
            m <= m0,
        decreases sc,
    {
        m = m / 10;
        sc = sc - 1;
    }
    Price { mantissa: m, scale: sc }
}

/// The digits of a fraction of `k` digits with value `n`, zero-padded on the
/// left.
pub open spec fn frac_digits(n: nat, k: nat) -> Seq<u8>
    decreases k,
{
    if k == 0 {
        Seq::empty()
    } else {
        frac_digits(n / 10, (k - 1) as nat).push((48 + n % 10) as u8)
    }
}

/// A price's natural decimal text: the integer part, then, if the price has
/// a fraction, a dot and the fraction's digits.
pub open spec fn price_text(p: Price) -> Seq<u8> {
    if p.scale == 0 {
        dec_digits(p.mantissa as nat)
    } else {
        dec_digits(p.mantissa as nat / pow10(p.scale as nat)) + seq![46u8] + frac_digits(
            p.mantissa as nat % pow10(p.scale as nat),
            p.scale as nat,
        )
    }
}

fn frac_to_dec(n: u64, k: u8) -> (r: Vec<u8>)
    ensures
        r@ == frac_digits(n as nat, k as nat),
    decreases k,
{
    if k == 0 {
        let v: Vec<u8> = Vec::new();
        proof {
            assert(v@ =~= frac_digits(n as nat, 0));
        }
        v
    } else {
        let mut v = frac_to_dec(n / 10, k - 1);
        v.push(48 + (n % 10) as u8);
        proof {
            assert(v@ =~= frac_digits(n as nat, k as nat));
        }
        v
    }
}

/// Renders a price in its natural decimal text.
pub fn render_price(p: &Price) -> (r: Vec<u8>)
    requires
        p.wf(),
    ensures
        r@ == price_text(*p),
{
    if p.scale == 0 {
        u64_to_dec(p.mantissa)
    } else {
        let pw = pow10_u64(p.scale);
        proof {
            lemma_pow10_positive(p.scale as nat);
        }
        let mut r = u64_to_dec(p.mantissa / pw);
        r.push(46);
        let mut frac = frac_to_dec(p.mantissa % pw, p.scale);
        r.append(&mut frac);
        proof {
            assert(r@ =~= price_text(*p));
        }
        r
    }
}

} // verus!
