//! The trusted bridge to `rust_decimal` for the two transcendental
//! operations the solvers need: natural logarithms and real powers.
//!
//! Each wrapper is a pure function of its integer arguments; its result is
//! given a name (`ln_parts`, `pow_parts`) that the solvers' contracts speak
//! of. Everything after a wrapper call -- scaling to the library's working
//! precision, directional rounding, all comparisons -- is verified code.

use vstd::prelude::*;

use crate::rational::ceil_div;
use crate::rational::ceil_div_u128;
use crate::rational::Rational;
use crate::rational::SCALE;

verus! {

/// What the `dec_ln` wrapper returns for a given rational: the natural
/// logarithm of `num / den` at 96-bit decimal precision, as an exact
/// mantissa and power-of-ten denominator pair, or `None` when the value is
/// not representable (a non-positive rational, or parts out of range).
pub uninterp spec fn ln_parts(num: int, den: int) -> Option<(int, int)>;

/// What the `dec_pow` wrapper returns: `(bn/bd) ^ (en/ed)` at 96-bit
/// decimal precision as an exact mantissa and power-of-ten denominator
/// pair, or `None` when out of range.
pub uninterp spec fn pow_parts(bn: int, bd: int, en: int, ed: int) -> Option<(int, int)>;

/// Relies on rust_decimal's `checked_div` and `checked_ln` (`maths`
/// feature): the natural logarithm of `num / den`. The arguments are taken
/// into 96-bit decimal, divided, and the logarithm's exact decimal parts
/// are handed back. `checked_ln` is `None` on non-positive input, and the
/// whole computation depends on the two arguments alone; every returned
/// denominator is a positive power of ten.
#[verifier::external_body]
fn dec_ln(num: u128, den: u128) -> (r: Option<(u128, u128)>)
    ensures
        match (r, ln_parts(num as int, den as int)) {
            (Some(p), Some(q)) => p.0 == q.0 && p.1 == q.1 && q.1 >= 1,
            (None, None) => true,
            _ => false,
        },
{
    let q = rust_decimal::Decimal::try_from_i128_with_scale(num as i128, 0).ok().zip(
        rust_decimal::Decimal::try_from_i128_with_scale(den as i128, 0).ok(),
    ).and_then(|(a, b)| a.checked_div(b));
    match q.and_then(|v| rust_decimal::MathematicalOps::checked_ln(&v)) {
        Some(l) => u128::try_from(l.mantissa()).ok().map(|m| (m, 10u128.pow(l.scale()))),
        None => None,
    }
}

/// Relies on rust_decimal's `checked_div` and `checked_powd` (`maths`
/// feature): `(bn/bd)` raised to `(en/ed)`, computed as `exp(exp * ln
/// base)` for fractional exponents, handed back as the result's exact
/// decimal parts. The computation depends on the four arguments alone;
/// every returned denominator is a positive power of ten.
#[verifier::external_body]
fn dec_pow(bn: u128, bd: u128, en: u128, ed: u128) -> (r: Option<(u128, u128)>)
    ensures
        match (r, pow_parts(bn as int, bd as int, en as int, ed as int)) {
            (Some(p), Some(q)) => p.0 == q.0 && p.1 == q.1 && q.1 >= 1,
            (None, None) => true,
            _ => false,
        },
{
    let b = rust_decimal::Decimal::try_from_i128_with_scale(bn as i128, 0).ok().zip(
        rust_decimal::Decimal::try_from_i128_with_scale(bd as i128, 0).ok(),
    ).and_then(|(x, y)| x.checked_div(y));
    let e = rust_decimal::Decimal::try_from_i128_with_scale(en as i128, 0).ok().zip(
        rust_decimal::Decimal::try_from_i128_with_scale(ed as i128, 0).ok(),
    ).and_then(|(x, y)| x.checked_div(y));
    match b.zip(e).and_then(|(x, y)| rust_decimal::MathematicalOps::checked_powd(&x, y)) {
        Some(p) => u128::try_from(p.mantissa()).ok().map(|m| (m, 10u128.pow(p.scale()))),
        None => None,
    }
}

/// ln 2 brought to the library's working precision of `SCALE` (rounded
/// down, and capped below `SCALE` so that the scaled value always stands
/// for a quantity below 1).
pub open spec fn scaled_ln2() -> Option<int> {
    match ln_parts(2, 1) {
        Some(p) => if p.1 >= 1 && p.0 * SCALE <= u128::MAX {
            if p.0 * SCALE / p.1 > SCALE - 1 {
                Some((SCALE - 1) as int)
            } else {
                Some(p.0 * SCALE / p.1)
            }
        } else {
            None
        },
        None => None,
    }
}

/// ln(1 / e) for a rational `e`, brought to the library's working
/// precision of `SCALE`, rounded up.
pub open spec fn scaled_inv_ln(e: (int, int)) -> Option<int> {
    match ln_parts(e.1, e.0) {
        Some(p) => if p.1 >= 1 && p.0 * SCALE <= u128::MAX {
            Some(ceil_div(p.0 * SCALE, p.1))
        } else {
            None
        },
        None => None,
    }
}

/// The power wrapper's result as a well-formed rational pair.
pub open spec fn pow_value(bn: int, bd: int, en: int, ed: int) -> Option<(int, int)> {
    match pow_parts(bn, bd, en, ed) {
        Some(p) => if p.1 >= 1 {
            Some(p)
        } else {
            None
        },
        None => None,
    }
}

/// Fetches ln 2 at working precision.
pub(crate) fn ln2_scaled() -> (r: Option<u128>)
    ensures
        match (r, scaled_ln2()) {
            (Some(a), Some(b)) => a == b && a < SCALE && a >= 0,
            (None, None) => true,
            _ => false,
        },
{
    match dec_ln(2, 1) {
        Some((n, d)) => match n.checked_mul(SCALE) {
            Some(m) => {
                let v = m / d;
                if v > SCALE - 1 {
                    Some(SCALE - 1)
                } else {
                    Some(v)
                }
            },
            None => None,
        },
        None => None,
    }
}

/// Fetches ln(1 / e) at working precision for a rational `e`.
pub(crate) fn inv_ln_scaled(e: &Rational) -> (r: Option<u128>)
    ensures
        match (r, scaled_inv_ln(e@)) {
            (Some(a), Some(b)) => a == b,
            (None, None) => true,
            _ => false,
        },
{
    let ed = e.denominator();
    let en = e.numerator();
    match dec_ln(ed, en) {
        Some((n, d)) => match n.checked_mul(SCALE) {
            Some(m) => Some(ceil_div_u128(m, d)),
            None => None,
        },
        None => None,
    }
}

/// Fetches `(bn/bd) ^ (en/ed)` as a well-formed rational.
pub(crate) fn pow_rational(bn: u128, bd: u128, en: u128, ed: u128) -> (r: Option<Rational>)
    ensures
        match (r, pow_value(bn as int, bd as int, en as int, ed as int)) {
            (Some(q), Some(p)) => q@ == p && q.wf(),
            (None, None) => true,
            _ => false,
        },
{
    match dec_pow(bn, bd, en, ed) {
        Some((n, d)) => Some(Rational::new(n, d)),
        None => None,
    }
}

} // verus!
