//! Exact non-negative rational values over `u128` parts, together with the
//! handful of integer-division helpers the solvers build their directional
//! rounding from.

use vstd::prelude::*;

verus! {

/// The scaling factor used when a transcendental value is brought to the
/// library's working precision: 2^32.
pub const SCALE: u128 = 4294967296;

/// A non-negative rational number, numerator over denominator.
///
/// A well-formed value has a positive denominator; the parts are not
/// required to be in lowest terms.
#[derive(Clone, Copy, Debug, PartialEq, Eq, Structural)]
pub struct Rational {
    num: u128,
    den: u128,
}

impl View for Rational {
    type V = (int, int);

    closed spec fn view(&self) -> (int, int) {
        (self.num as int, self.den as int)
    }
}

impl Rational {
    pub open spec fn wf(self) -> bool {
        self@.1 >= 1
    }

    pub fn new(num: u128, den: u128) -> (r: Rational)
        requires
            den >= 1,
        ensures
            r@ == (num as int, den as int),
            r.wf(),
    {
        Rational { num, den }
    }

    pub fn zero() -> (r: Rational)
        ensures
            r@ == (0int, 1int),
            r.wf(),
    {
        Rational { num: 0, den: 1 }
    }

    pub fn numerator(&self) -> (r: u128)
        ensures
            r == self@.0,
    {
        self.num
    }

    pub fn denominator(&self) -> (r: u128)
        ensures
            r == self@.1,
    {
        self.den
    }

    /// The value rounded down to an integer, when it fits in a `u64`.
    pub fn floor_u64(&self) -> (r: Option<u64>)
        requires
            self.wf(),
        ensures
            r == floor_in_u64(self@),
    {
        let f = self.num / self.den;
        if f <= u64::MAX as u128 {
            Some(f as u64)
        } else {
            None
        }
    }
}

/// The integer part of a rational pair, when it fits in a `u64`.
pub open spec fn floor_in_u64(q: (int, int)) -> Option<u64> {
    if q.0 / q.1 <= u64::MAX {
        Some((q.0 / q.1) as u64)
    } else {
        None
    }
}

/// Division rounded up: the least integer at or above `a / b`.
pub open spec fn ceil_div(a: int, b: int) -> int {
    if a % b == 0 {
        a / b
    } else {
        a / b + 1
    }
}

/// Division rounded to the nearest integer, halves rounding up.
pub open spec fn round_div(a: int, b: int) -> int {
    (2 * a + b) / (2 * b)
}

/// Division rounded down never overshoots: `(a / b) * b <= a`.
pub proof fn lemma_floor_div_bound(a: int, b: int)
    requires
        a >= 0,
        b >= 1,
    ensures
        (a / b) * b <= a,
        a / b >= 0,
{
    vstd::arithmetic::div_mod::lemma_fundamental_div_mod(a, b);
    vstd::arithmetic::div_mod::lemma_div_pos_is_pos(a, b);
    assert((a / b) * b == b * (a / b)) by (nonlinear_arith);
}

/// Division rounded up never undershoots: `ceil_div(a, b) * b >= a`.
pub proof fn lemma_ceil_div_bound(a: int, b: int)
    requires
        a >= 0,
        b >= 1,
    ensures
        ceil_div(a, b) * b >= a,
        ceil_div(a, b) >= 0,
{
    vstd::arithmetic::div_mod::lemma_fundamental_div_mod(a, b);
    vstd::arithmetic::div_mod::lemma_div_pos_is_pos(a, b);
    vstd::arithmetic::div_mod::lemma_mod_bound(a, b);
    if a % b == 0 {
        assert((a / b) * b == b * (a / b)) by (nonlinear_arith);
    } else {
        assert((a / b + 1) * b == b * (a / b) + b) by (nonlinear_arith);
    }
}

/// Division rounded up overshoots by less than the divisor:
/// `ceil_div(a, b) * b <= a + b - 1`.
pub proof fn lemma_ceil_div_upper(a: int, b: int)
    requires
        a >= 0,
        b >= 1,
    ensures
        ceil_div(a, b) * b <= a + b - 1,
{
    vstd::arithmetic::div_mod::lemma_fundamental_div_mod(a, b);
    vstd::arithmetic::div_mod::lemma_mod_bound(a, b);
    if a % b == 0 {
        assert((a / b) * b == b * (a / b)) by (nonlinear_arith);
    } else {
        assert((a / b + 1) * b == b * (a / b) + b) by (nonlinear_arith);
    }
}

/// Rounded-up division on `u128` values.
pub fn ceil_div_u128(a: u128, b: u128) -> (r: u128)
    requires
        b >= 1,
    ensures
        r == ceil_div(a as int, b as int),
{
    let q = a / b;
    let rem = a % b;
    if rem == 0 {
        q
    } else {
        proof {
            vstd::arithmetic::div_mod::lemma_fundamental_div_mod(a as int, b as int);
            assert(q + 1 <= a) by (nonlinear_arith)
                requires
                    a == (b as int) * (q as int) + (rem as int),
                    rem >= 1,
                    q >= 0,
                    b >= 1,
            ;
        }
        q + 1
    }
}

/// Rounded-to-nearest division on `u128` values, halves rounding up.
pub fn round_div_u128(a: u128, b: u128) -> (r: u128)
    requires
        b >= 1,
        2 * a + b <= u128::MAX,
        2 * b <= u128::MAX,
    ensures
        r == round_div(a as int, b as int),
{
    (2 * a + b) / (2 * b)
}

/// 2 to the given power, as an exact `u128`.
pub fn pow2_u128(e: u64) -> (r: u128)
    requires
        e <= 127,
    ensures
        r == vstd::arithmetic::power2::pow2(e as nat),
        r >= 1,
{
    let mut i: u64 = 0;
    let mut p: u128 = 1;
    proof {
        vstd::arithmetic::power2::lemma2_to64();
    }
    while i < e
        invariant
            i <= e <= 127,
            p == vstd::arithmetic::power2::pow2(i as nat),
        decreases e - i,
    {
        proof {
            vstd::arithmetic::power2::lemma_pow2_unfold((i + 1) as nat);
            vstd::arithmetic::power2::lemma2_to64();
            vstd::arithmetic::power2::lemma2_to64_rest();
            vstd::arithmetic::power2::lemma_pow2_adds(64, 63);
            if i + 1 < 127 {
                vstd::arithmetic::power2::lemma_pow2_strictly_increases((i + 1) as nat, 127nat);
            }
            assert(vstd::arithmetic::power2::pow2((i + 1) as nat) <= vstd::arithmetic::power2::pow2(
                127,
            ));
        }
        p = p * 2;
        i = i + 1;
    }
    proof {
        vstd::arithmetic::power2::lemma_pow2_pos(e as nat);
    }
    p
}

/// The least `k >= 0` with `num <= den * 2^k`, written by halving:
/// `ceil(log2(num / den))` for a rational at least 1.
pub open spec fn ceil_log2(num: int, den: int) -> int
    decreases num,
{
    if num <= den || den < 1 || num < 2 {
        0
    } else {
        1 + ceil_log2((num + 1) / 2, den)
    }
}

/// Rounded-up binary logarithm of the rational `num / den`.
pub fn ceil_log2_u128(num: u128, den: u128) -> (r: u64)
    requires
        den >= 1,
    ensures
        r == ceil_log2(num as int, den as int),
        num > den ==> r >= 1,
        r <= 128,
{
    let mut n: u128 = num;
    let mut k: u64 = 0;
    proof {
        lemma_ceil_log2_at_most(num as int, den as int);
        if num > den {
            lemma_ceil_log2_nonneg(((num as int) + 1) / 2, den as int);
        }
    }
    while n > den
        invariant
            den >= 1,
            k + ceil_log2(n as int, den as int) == ceil_log2(num as int, den as int),
            ceil_log2(num as int, den as int) <= 128,
            k <= 128,
        decreases n,
    {
        proof {
            lemma_ceil_log2_nonneg(((n as int) + 1) / 2, den as int);
            assert(((n as int) + 1) / 2 == (n as int) / 2 + (n as int) % 2) by (nonlinear_arith);
        }
        n = n / 2 + n % 2;
        k = k + 1;
    }
    k
}

/// What `ceil_log2` means: it is the least `k` with `num <= den * 2^k`,
/// pinned from both sides for a rational strictly above 1.
pub proof fn lemma_ceil_log2_characterization(num: int, den: int)
    requires
        den >= 1,
        num >= 1,
    ensures
        num <= den * vstd::arithmetic::power2::pow2(ceil_log2(num, den) as nat),
        num > den ==> den * vstd::arithmetic::power2::pow2((ceil_log2(num, den) - 1) as nat) < num,
    decreases num,
{
    vstd::arithmetic::power2::lemma2_to64();
    if num <= den {
        lemma_ceil_log2_nonneg(num, den);
        assert(den * vstd::arithmetic::power2::pow2(0) == den) by (nonlinear_arith)
            requires
                vstd::arithmetic::power2::pow2(0) == 1,
        ;
    } else {
        let m = (num + 1) / 2;
        let r1 = ceil_log2(m, den);
        lemma_ceil_log2_nonneg(m, den);
        lemma_ceil_log2_characterization(m, den);
        let p1 = vstd::arithmetic::power2::pow2(r1 as nat);
        vstd::arithmetic::power2::lemma_pow2_unfold((r1 + 1) as nat);
        assert(2 * m == num || 2 * m == num + 1);
        assert(num <= den * vstd::arithmetic::power2::pow2((r1 + 1) as nat)) by (nonlinear_arith)
            requires
                m <= den * p1,
                num <= 2 * m,
                vstd::arithmetic::power2::pow2((r1 + 1) as nat) == 2 * p1,
        ;
        if m <= den {
            assert(r1 == 0);
            assert(den * vstd::arithmetic::power2::pow2(0) == den) by (nonlinear_arith)
                requires
                    vstd::arithmetic::power2::pow2(0) == 1,
            ;
        } else {
            let p0 = vstd::arithmetic::power2::pow2((r1 - 1) as nat);
            vstd::arithmetic::power2::lemma_pow2_unfold(r1 as nat);
            assert(den * p1 < num) by (nonlinear_arith)
                requires
                    den * p0 < m,
                    2 * m <= num + 1,
                    p1 == 2 * p0,
            ;
        }
    }
}

/// `ceil_log2` is at least 1 on a rational strictly above 1.
pub proof fn lemma_ceil_log2_pos(num: int, den: int)
    requires
        den >= 1,
        num > den,
    ensures
        ceil_log2(num, den) >= 1,
{
    lemma_ceil_log2_nonneg((num + 1) / 2, den);
}

/// `ceil_log2` is never negative.
pub proof fn lemma_ceil_log2_nonneg(num: int, den: int)
    ensures
        ceil_log2(num, den) >= 0,
    decreases num,
{
    if !(num <= den || den < 1 || num < 2) {
        lemma_ceil_log2_nonneg((num + 1) / 2, den);
    }
}

/// `ceil_log2` never exceeds 128 on `u128`-sized arguments.
pub proof fn lemma_ceil_log2_at_most(num: int, den: int)
    requires
        num <= u128::MAX,
    ensures
        ceil_log2(num, den) <= 128,
{
    vstd::arithmetic::power2::lemma_pow2_adds(64, 64);
    vstd::arithmetic::power2::lemma2_to64();
    vstd::arithmetic::power2::lemma2_to64_rest();
    lemma_ceil_log2_within(num, den, 128);
}

/// Halving reaches the base case in at most as many steps as the numerator
/// has bits.
proof fn lemma_ceil_log2_within(num: int, den: int, bits: int)
    requires
        0 <= bits,
        num <= vstd::arithmetic::power2::pow2(bits as nat),
    ensures
        ceil_log2(num, den) <= bits,
    decreases num,
{
    if !(num <= den || den < 1 || num < 2) {
        if bits == 0 {
            assert(vstd::arithmetic::power2::pow2(0) == 1) by {
                vstd::arithmetic::power2::lemma2_to64();
            }
        } else {
            vstd::arithmetic::power2::lemma_pow2_unfold(bits as nat);
            lemma_ceil_log2_within((num + 1) / 2, den, bits - 1);
        }
    }
}

} // verus!
