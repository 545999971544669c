//! Decimal digits: powers of ten, rendering unsigned integers as decimal
//! text, and decoding a (sign, mantissa, exponent) scalar into an unsigned
//! integer.

use vstd::prelude::*;

verus! {

/// 10 to the power `n`.
pub open spec fn pow10(n: nat) -> nat
    decreases n,
{
    if n == 0 {
        1
    } else {
        10 * pow10((n - 1) as nat)
    }
}

pub proof fn lemma_pow10_monotonic(a: nat, b: nat)
    requires
        a <= b,
    ensures
        pow10(a) <= pow10(b),
    decreases b,
{
    if a < b {
        lemma_pow10_monotonic(a, (b - 1) as nat);
    }
}

pub proof fn lemma_pow10_positive(n: nat)
    ensures
        pow10(n) >= 1,
    decreases n,
{
    if n > 0 {
        lemma_pow10_positive((n - 1) as nat);
    }
}

pub proof fn lemma_pow10_19_fits_u64()
    ensures
        pow10(19) == 10_000_000_000_000_000_000,
        pow10(20) > u64::MAX,
{
    reveal_with_fuel(pow10, 21);
}

/// 10 to the power `n`, as a machine word.
pub fn pow10_u64(n: u8) -> (r: u64)
    requires
        n <= 19,
    ensures
        r == pow10(n as nat),
    decreases n,
{
    if n == 0 {
        1
    } else {
        let p = pow10_u64(n - 1);
        proof {
            lemma_pow10_monotonic(n as nat, 19);
            lemma_pow10_19_fits_u64();
        }
        10 * p
    }
}

/// The decimal digits of `n`, most significant first, as ASCII bytes.
pub open spec fn dec_digits(n: nat) -> Seq<u8>
    decreases n,
{
    if n < 10 {
        seq![(48 + n) as u8]
    } else {
        dec_digits(n / 10).push((48 + n % 10) as u8)
    }
}

/// Renders `n` in decimal.
pub fn u64_to_dec(n: u64) -> (r: Vec<u8>)
    ensures
        r@ == dec_digits(n as nat),
    decreases n,
{
    if n < 10 {
        let mut v: Vec<u8> = Vec::new();
        v.push(48 + n as u8);
        proof {
            assert(v@ =~= dec_digits(n as nat));
        }
        v
    } else {
        let mut v = u64_to_dec(n / 10);
        v.push(48 + (n % 10) as u8);
        proof {
            assert(v@ =~= dec_digits(n as nat));
        }
        v
    }
}

/// The value of a scalar given as sign, mantissa and decimal exponent,
/// provided it is a non-negative integer; `None` for a negative or
/// fractional scalar.
pub open spec fn uint_of_parts(positive: bool, mantissa: u64, exponent: i16) -> Option<nat> {
    if !positive {
        None
    } else if exponent >= 0 {
        Some((mantissa * pow10(exponent as nat)) as nat)
    } else if mantissa as nat % pow10((-exponent) as nat) == 0 {
        Some(mantissa as nat / pow10((-exponent) as nat))
    } else {
        None
    }
}

/// Decodes a (sign, mantissa, exponent) scalar into a `u64`: the value when
/// it is a non-negative integer that fits, `None` otherwise.
pub fn parts_to_u64(positive: bool, mantissa: u64, exponent: i16) -> (r: Option<u64>)
    ensures
        match uint_of_parts(positive, mantissa, exponent) {
            Some(v) => if v <= u64::MAX {
                r == Some(v as u64)
            } else {
                r is None
            },
            None => r is None,
        },
{
    if !positive {
        None
    } else if exponent >= 0 {
        if mantissa == 0 {
            assert(uint_of_parts(positive, mantissa, exponent) == Some(0nat));
            Some(0)
        } else if exponent > 19 {
            proof {
                lemma_pow10_monotonic(20, exponent as nat);
                lemma_pow10_19_fits_u64();
                assert(mantissa * pow10(exponent as nat) >= 1 * pow10(exponent as nat))
                    by (nonlinear_arith)
                    requires
                        mantissa >= 1,
                        pow10(exponent as nat) >= 0,
                ;
            }
            None
        } else {
            let p = pow10_u64(exponent as u8);
            proof {
                lemma_pow10_monotonic(exponent as nat, 19);
                lemma_pow10_19_fits_u64();
                assert(mantissa as u128 * p as u128 <= u64::MAX as u128 * pow10(19))
                    by (nonlinear_arith)
                    requires
                        mantissa as u128 <= u64::MAX as u128,
                        0 <= p as u128 <= pow10(19),
                ;
            }
            let wide: u128 = mantissa as u128 * p as u128;
            if wide <= u64::MAX as u128 {
                Some(wide as u64)
            } else {
                None
            }
        }
    } else {
        let neg_exp: i64 = -(exponent as i64);
        if neg_exp > 19 {
            proof {
                lemma_pow10_monotonic(20, neg_exp as nat);
                lemma_pow10_19_fits_u64();
            }
            if mantissa == 0 {
                Some(0)
            } else {
                proof {
                    assert(mantissa as nat % pow10(neg_exp as nat) == mantissa as nat)
                        by (nonlinear_arith)
                        requires
                            0 < mantissa as nat,
                            (mantissa as nat) < pow10(neg_exp as nat),
                    ;
                }
                None
            }
        } else {
            let p = pow10_u64(neg_exp as u8);
            proof {
                lemma_pow10_positive(neg_exp as nat);
                assert(mantissa as nat / p as nat <= mantissa as nat) by (nonlinear_arith)
                    requires
                        p as nat >= 1,
                ;
            }
            if mantissa % p == 0 {
                Some(mantissa / p)
            } else {
                None
            }
        }
    }
}

} // verus!
