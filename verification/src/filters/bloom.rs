//! Classical optimal Bloom filter sizing.
//!
//! Directional rounding is the load-bearing contract here: a capacity read
//! off a storage budget is rounded down (never promise more elements than
//! the budget truly supports), a storage requirement read off an element
//! count is rounded up (never under-provision), and both directions are
//! stated exactly against the library's working-precision logarithms.

use vstd::prelude::*;

use crate::filters::constraint_count;
use crate::filters::error_input_ok;
use crate::filters::opt_rat_view;
use crate::filters::opt_u64_view;
use crate::filters::FilterParameters;
use crate::math::inv_ln_scaled;
use crate::math::ln2_scaled;
use crate::math::pow_rational;
use crate::math::pow_value;
use crate::math::scaled_inv_ln;
use crate::math::scaled_ln2;
use crate::rational::ceil_div;
use crate::rational::ceil_div_u128;
use crate::rational::lemma_ceil_div_bound;
use crate::rational::lemma_floor_div_bound;
use crate::rational::round_div;
use crate::rational::round_div_u128;
use crate::rational::Rational;
use crate::rational::SCALE;

verus! {

/// The mathematical content of a resolved Bloom set.
pub struct BloomView {
    pub error: Option<(int, int)>,
    pub elements: Option<int>,
    pub storage: Option<int>,
    pub hashes: Option<int>,
}

/// Capacity read off a storage budget and an error target, rounded down:
/// `floor(storage * ln2^2 / -ln(error))` with the logarithms at working
/// precision `a / SCALE` and `l / SCALE`.
pub open spec fn capacity_value(s: int, a: int, l: int) -> int {
    s * a * a / SCALE as int / l
}

/// Storage required for an element count and an error target, rounded up:
/// `ceil(elements * -ln(error) / ln2^2)` at working precision.
pub open spec fn storage_value(n: int, a: int, l: int) -> int {
    ceil_div(n * l * SCALE as int, a * a)
}

/// The classical optimal hash count for the resulting load factor,
/// rounded to nearest: `round(storage / elements * ln2)`.
pub open spec fn hash_value(s: int, n: int, a: int) -> int {
    round_div(s * a, n * SCALE as int)
}

/// The false-positive rate actually achieved at the final load factor:
/// `exp(-storage * ln2^2 / elements)`, evaluated as `2 ^ -(storage * ln2 /
/// elements)`.
pub open spec fn achieved_error(s: int, n: int, a: int) -> Option<(int, int)> {
    pow_value(1, 2, s * a, n * SCALE as int)
}

/// Resolution from a storage budget and an error target.
pub open spec fn resolve_from_error_storage(
    e: (int, int),
    s: int,
    hashes_in: Option<int>,
    a: int,
    l: int,
) -> BloomView {
    let n = capacity_value(s, a, l);
    if n > u64::MAX {
        BloomView { error: Some(e), elements: None, storage: Some(s), hashes: hashes_in }
    } else if hashes_in is Some || n < 1 {
        BloomView { error: Some(e), elements: Some(n), storage: Some(s), hashes: hashes_in }
    } else {
        BloomView {
            error: achieved_error(s, n, a),
            elements: Some(n),
            storage: Some(s),
            hashes: if hash_value(s, n, a) <= u64::MAX {
                Some(hash_value(s, n, a))
            } else {
                None
            },
        }
    }
}

/// Resolution from an element count and an error target.
pub open spec fn resolve_from_error_elements(
    e: (int, int),
    n: int,
    hashes_in: Option<int>,
    a: int,
    l: int,
) -> BloomView {
    if n * l > u128::MAX || n * l * SCALE > u128::MAX || storage_value(n, a, l) > u64::MAX {
        BloomView { error: Some(e), elements: Some(n), storage: None, hashes: hashes_in }
    } else {
        let s = storage_value(n, a, l);
        if hashes_in is Some || n < 1 {
            BloomView { error: Some(e), elements: Some(n), storage: Some(s), hashes: hashes_in }
        } else {
            BloomView {
                error: achieved_error(s, n, a),
                elements: Some(n),
                storage: Some(s),
                hashes: if hash_value(s, n, a) <= u64::MAX {
                    Some(hash_value(s, n, a))
                } else {
                    None
                },
            }
        }
    }
}

/// Resolution from an element count and a storage budget.
pub open spec fn resolve_from_elements_storage(
    n: int,
    s: int,
    hashes_in: Option<int>,
    a: int,
) -> BloomView {
    if n < 1 {
        BloomView { error: None, elements: Some(n), storage: Some(s), hashes: hashes_in }
    } else {
        BloomView {
            error: achieved_error(s, n, a),
            elements: Some(n),
            storage: Some(s),
            hashes: match hashes_in {
                Some(h) => Some(h),
                None => if hash_value(s, n, a) <= u64::MAX {
                    Some(hash_value(s, n, a))
                } else {
                    None
                },
            },
        }
    }
}

/// What resolution computes, field by field.
///
/// With exactly two primaries supplied, the third is derived with the
/// documented rounding direction; when the hash count is not forced by the
/// caller, deriving it discards the supplied error and the achieved error
/// is recomputed from the final load factor. With 0, 1 or 3 primaries the
/// inputs are echoed and nothing is derived.
pub open spec fn resolve(
    error: Option<(int, int)>,
    elements: Option<int>,
    storage: Option<int>,
    hashes_in: Option<int>,
) -> BloomView {
    let base = (BloomView { error, elements, storage, hashes: hashes_in });
    if constraint_count(error.is_some(), elements.is_some(), storage.is_some()) != 2 {
        base
    } else {
        match (error, elements, storage) {
            (Some(e), Some(n), None) => match (scaled_ln2(), scaled_inv_ln(e)) {
                (Some(a), Some(l)) => if a >= 1 {
                    resolve_from_error_elements(e, n, hashes_in, a, l)
                } else {
                    base
                },
                _ => base,
            },
            (Some(e), None, Some(s)) => match (scaled_ln2(), scaled_inv_ln(e)) {
                (Some(a), Some(l)) => if a >= 1 && l >= 1 {
                    resolve_from_error_storage(e, s, hashes_in, a, l)
                } else {
                    base
                },
                _ => base,
            },
            (None, Some(n), Some(s)) => match scaled_ln2() {
                Some(a) => if a >= 1 {
                    resolve_from_elements_storage(n, s, hashes_in, a)
                } else {
                    base
                },
                None => base,
            },
            _ => base,
        }
    }
}

/// A resolved Bloom parameter set.
pub struct Parameters {
    error: Option<Rational>,
    elements: Option<u64>,
    storage: Option<u64>,
    hashes: Option<u64>,
}

impl View for Parameters {
    type V = BloomView;

    closed spec fn view(&self) -> BloomView {
        BloomView {
            error: opt_rat_view(self.error),
            elements: opt_u64_view(self.elements),
            storage: opt_u64_view(self.storage),
            hashes: opt_u64_view(self.hashes),
        }
    }
}

/// Capacity from a storage budget, rounded down. `None` when the exact
/// value does not fit in a `u64`.
fn derive_capacity(s: u64, a: u128, l: u128) -> (r: Option<u64>)
    requires
        1 <= a < SCALE,
        l >= 1,
    ensures
        r == if capacity_value(s as int, a as int, l as int) <= u64::MAX {
            Some(capacity_value(s as int, a as int, l as int) as u64)
        } else {
            None::<u64>
        },
        capacity_value(s as int, a as int, l as int) >= 0,
{
    proof {
        vstd::arithmetic::mul::lemma_mul_nonnegative(s as int, a as int);
        vstd::arithmetic::mul::lemma_mul_nonnegative(s as int * a as int, a as int);
        vstd::arithmetic::mul::lemma_mul_upper_bound(s as int, u64::MAX as int, a as int, SCALE - 1);
        vstd::arithmetic::mul::lemma_mul_upper_bound(
            s as int * a as int,
            u64::MAX as int * (SCALE - 1),
            a as int,
            SCALE - 1,
        );
        vstd::arithmetic::div_mod::lemma_div_pos_is_pos(s as int * a as int * a as int, SCALE as int);
        vstd::arithmetic::div_mod::lemma_div_pos_is_pos(
            s as int * a as int * a as int / SCALE as int,
            l as int,
        );
    }
    let v = (s as u128) * a * a / SCALE / l;
    if v <= u64::MAX as u128 {
        Some(v as u64)
    } else {
        None
    }
}

/// Storage from an element count, rounded up. `None` when an intermediate
/// product or the exact value is out of range.
fn derive_storage(n: u64, a: u128, l: u128) -> (r: Option<u64>)
    requires
        1 <= a < SCALE,
    ensures
        r == if n as int * l as int <= u128::MAX && n as int * l as int * SCALE <= u128::MAX
            && storage_value(n as int, a as int, l as int) <= u64::MAX {
            Some(storage_value(n as int, a as int, l as int) as u64)
        } else {
            None::<u64>
        },
        r is Some ==> storage_value(n as int, a as int, l as int) >= 0,
{
    proof {
        vstd::arithmetic::mul::lemma_mul_upper_bound(a as int, SCALE - 1, a as int, SCALE - 1);
        vstd::arithmetic::mul::lemma_mul_strictly_positive(a as int, a as int);
    }
    match (n as u128).checked_mul(l) {
        Some(m1) => match m1.checked_mul(SCALE) {
            Some(m2) => {
                proof {
                    assert(a as int * a as int <= u128::MAX) by (nonlinear_arith)
                        requires
                            0 <= a < 4294967296,
                    ;
                    lemma_ceil_div_bound(m2 as int, a as int * a as int);
                }
                let v = ceil_div_u128(m2, a * a);
                if v <= u64::MAX as u128 {
                    Some(v as u64)
                } else {
                    None
                }
            },
            None => None,
        },
        None => None,
    }
}

/// The optimal hash count, rounded to nearest. `None` when the exact value
/// does not fit in a `u64`.
fn derive_hashes(s: u64, n: u64, a: u128) -> (r: Option<u64>)
    requires
        n >= 1,
        1 <= a < SCALE,
    ensures
        r == if hash_value(s as int, n as int, a as int) <= u64::MAX {
            Some(hash_value(s as int, n as int, a as int) as u64)
        } else {
            None::<u64>
        },
        hash_value(s as int, n as int, a as int) >= 0,
{
    proof {
        vstd::arithmetic::mul::lemma_mul_upper_bound(s as int, u64::MAX as int, a as int, SCALE - 1);
        vstd::arithmetic::mul::lemma_mul_upper_bound(
            n as int,
            u64::MAX as int,
            SCALE as int,
            SCALE as int,
        );
        vstd::arithmetic::mul::lemma_mul_nonnegative(s as int, a as int);
        assert(n as int * SCALE >= 1 * SCALE) by (nonlinear_arith)
            requires
                n as int >= 1,
        ;
        vstd::arithmetic::div_mod::lemma_div_pos_is_pos(
            2 * (s as int * a as int) + n as int * SCALE,
            2 * (n as int * SCALE),
        );
    }
    let v = round_div_u128(s as u128 * a, n as u128 * SCALE);
    if v <= u64::MAX as u128 {
        Some(v as u64)
    } else {
        None
    }
}

/// The achieved false-positive rate at the final load factor.
fn derive_error(s: u64, n: u64, a: u128) -> (r: Option<Rational>)
    requires
        n >= 1,
        1 <= a < SCALE,
    ensures
        opt_rat_view(r) == achieved_error(s as int, n as int, a as int),
        r matches Some(q) ==> q.wf(),
{
    proof {
        vstd::arithmetic::mul::lemma_mul_upper_bound(s as int, u64::MAX as int, a as int, SCALE - 1);
        vstd::arithmetic::mul::lemma_mul_upper_bound(
            n as int,
            u64::MAX as int,
            SCALE as int,
            SCALE as int,
        );
        vstd::arithmetic::mul::lemma_mul_nonnegative(s as int, a as int);
    }
    pow_rational(1, 2, s as u128 * a, n as u128 * SCALE)
}

impl Parameters {
    /// A held error rational has a positive denominator.
    pub open spec fn wf(self) -> bool {
        self@.error matches Some(q) ==> q.1 >= 1
    }

    /// Builds and resolves a Bloom parameter set.
    ///
    /// A supplied error rate must lie strictly between 0 and 1. An optional
    /// caller-forced hash count suppresses the optimal-hash derivation and
    /// keeps a supplied error authoritative. With 0, 1 or 3 primaries
    /// supplied, the inputs are echoed back unresolved.
    pub fn new(
        error: Option<Rational>,
        elements: Option<u64>,
        storage: Option<u64>,
        hashes: Option<u64>,
    ) -> (r: Parameters)
        requires
            error_input_ok(error),
        ensures
            r@ == resolve(
                opt_rat_view(error),
                opt_u64_view(elements),
                opt_u64_view(storage),
                opt_u64_view(hashes),
            ),
            r.wf(),
            constraint_count(error.is_some(), elements.is_some(), storage.is_some()) != 2 ==> r@
                == (BloomView {
                error: opt_rat_view(error),
                elements: opt_u64_view(elements),
                storage: opt_u64_view(storage),
                hashes: opt_u64_view(hashes),
            }),
    {
        let mut count: u32 = 0;
        if error.is_some() {
            count = count + 1;
        }
        if elements.is_some() {
            count = count + 1;
        }
        if storage.is_some() {
            count = count + 1;
        }
        if count != 2 {
            return Parameters { error, elements, storage, hashes };
        }
        match (error, elements, storage) {
            (Some(e), Some(n), None) => {
                match (ln2_scaled(), inv_ln_scaled(&e)) {
                    (Some(a), Some(l)) => {
                        if a >= 1 {
                            match derive_storage(n, a, l) {
                                Some(s) => {
                                    if hashes.is_some() || n < 1 {
                                        Parameters {
                                            error: Some(e),
                                            elements: Some(n),
                                            storage: Some(s),
                                            hashes,
                                        }
                                    } else {
                                        Parameters {
                                            error: derive_error(s, n, a),
                                            elements: Some(n),
                                            storage: Some(s),
                                            hashes: derive_hashes(s, n, a),
                                        }
                                    }
                                },
                                None => Parameters {
                                    error: Some(e),
                                    elements: Some(n),
                                    storage: None,
                                    hashes,
                                },
                            }
                        } else {
                            Parameters { error, elements, storage, hashes }
                        }
                    },
                    _ => Parameters { error, elements, storage, hashes },
                }
            },
            (Some(e), None, Some(s)) => {
                match (ln2_scaled(), inv_ln_scaled(&e)) {
                    (Some(a), Some(l)) => {
                        if a >= 1 && l >= 1 {
                            match derive_capacity(s, a, l) {
                                Some(n) => {
                                    if hashes.is_some() || n < 1 {
                                        Parameters {
                                            error: Some(e),
                                            elements: Some(n),
                                            storage: Some(s),
                                            hashes,
                                        }
                                    } else {
                                        Parameters {
                                            error: derive_error(s, n, a),
                                            elements: Some(n),
                                            storage: Some(s),
                                            hashes: derive_hashes(s, n, a),
                                        }
                                    }
                                },
                                None => Parameters {
                                    error: Some(e),
                                    elements: None,
                                    storage: Some(s),
                                    hashes,
                                },
                            }
                        } else {
                            Parameters { error, elements, storage, hashes }
                        }
                    },
                    _ => Parameters { error, elements, storage, hashes },
                }
            },
            (None, Some(n), Some(s)) => {
                match ln2_scaled() {
                    Some(a) => {
                        if a >= 1 {
                            if n < 1 {
                                Parameters { error: None, elements: Some(n), storage: Some(s), hashes }
                            } else {
                                let hashes_v = match hashes {
                                    Some(h) => Some(h),
                                    None => derive_hashes(s, n, a),
                                };
                                Parameters {
                                    error: derive_error(s, n, a),
                                    elements: Some(n),
                                    storage: Some(s),
                                    hashes: hashes_v,
                                }
                            }
                        } else {
                            Parameters { error, elements, storage, hashes }
                        }
                    },
                    None => Parameters { error, elements, storage, hashes },
                }
            },
            _ => Parameters { error, elements, storage, hashes },
        }
    }

    /// The false-positive rate: as supplied, or the achieved rate when the
    /// hash count was derived.
    pub fn error(&self) -> (r: Option<Rational>)
        ensures
            opt_rat_view(r) == self@.error,
    {
        self.error
    }

    /// The element capacity.
    pub fn elements(&self) -> (r: Option<u64>)
        ensures
            opt_u64_view(r) == self@.elements,
    {
        self.elements
    }

    /// The storage budget in bits.
    pub fn storage(&self) -> (r: Option<u64>)
        ensures
            opt_u64_view(r) == self@.storage,
    {
        self.storage
    }

    /// The number of hash functions.
    pub fn hashes(&self) -> (r: Option<u64>)
        ensures
            opt_u64_view(r) == self@.hashes,
    {
        self.hashes
    }

    /// Storage over elements, exact; absent unless both are known and the
    /// element count is positive.
    pub fn bits_per_element(&self) -> (r: Option<Rational>)
        ensures
            opt_rat_view(r) == match (self@.storage, self@.elements) {
                (Some(s), Some(n)) => if n >= 1 {
                    Some((s, n))
                } else {
                    None::<(int, int)>
                },
                _ => None::<(int, int)>,
            },
    {
        match (self.storage, self.elements) {
            (Some(s), Some(n)) => if n >= 1 {
                Some(Rational::new(s as u128, n as u128))
            } else {
                None
            },
            _ => None,
        }
    }
}

impl FilterParameters for Parameters {
    fn error(&self) -> Option<Rational> {
        self.error
    }

    fn elements(&self) -> Option<u64> {
        self.elements
    }

    fn storage(&self) -> Option<u64> {
        self.storage
    }

    fn bits_per_element(&self) -> Option<Rational> {
        match (self.storage, self.elements) {
            (Some(s), Some(n)) => if n >= 1 {
                Some(Rational::new(s as u128, n as u128))
            } else {
                None
            },
            _ => None,
        }
    }
}

/// Capacity bound: the element count read off a storage budget, times the
/// exact per-element requirement, never exceeds the budget. Rounding down
/// is what makes the bound hold.
pub proof fn lemma_bloom_capacity_bound(s: int, a: int, l: int)
    requires
        s >= 0,
        a >= 0,
        l >= 1,
    ensures
        capacity_value(s, a, l) * l * SCALE <= s * a * a,
{
    let t = s * a * a;
    vstd::arithmetic::mul::lemma_mul_nonnegative(s, a);
    vstd::arithmetic::mul::lemma_mul_nonnegative(s * a, a);
    lemma_floor_div_bound(t, SCALE as int);
    lemma_floor_div_bound(t / SCALE as int, l);
    assert(capacity_value(s, a, l) * l * SCALE <= t) by (nonlinear_arith)
        requires
            (t / SCALE as int / l) * l <= t / SCALE as int,
            (t / SCALE as int) * SCALE <= t,
            capacity_value(s, a, l) == t / SCALE as int / l,
            SCALE as int >= 1,
    ;
}

/// Storage bound: the storage read off an element count, times the squared
/// working-precision ln 2, covers the exact requirement. Rounding up is
/// what makes the bound hold.
pub proof fn lemma_bloom_storage_bound(n: int, a: int, l: int)
    requires
        n >= 0,
        l >= 0,
        a >= 1,
    ensures
        storage_value(n, a, l) * (a * a) >= n * l * SCALE,
{
    vstd::arithmetic::mul::lemma_mul_nonnegative(n, l);
    vstd::arithmetic::mul::lemma_mul_nonnegative(n * l, SCALE as int);
    assert(a * a >= 1) by (nonlinear_arith)
        requires
            a >= 1,
    ;
    lemma_ceil_div_bound(n * l * SCALE as int, a * a);
}

/// Capacity bound over a resolved set: the capacity read off a supplied
/// storage budget and error target never exceeds the exact
/// working-precision capacity `s * ln2^2 / -ln(error)`.
pub proof fn lemma_bloom_resolve_capacity(e: (int, int), s: int, hashes_in: Option<int>, a: int, l: int)
    requires
        s >= 0,
        a >= 0,
        l >= 1,
        scaled_ln2() == Some(a),
        scaled_inv_ln(e) == Some(l),
    ensures
        ({
            let v = resolve(Some(e), None, Some(s), hashes_in);
            v.elements matches Some(n) ==> n * l * SCALE <= s * a * a
        }),
{
    lemma_bloom_capacity_bound(s, a, l);
}

/// Storage bound over a resolved set: the budget derived for a supplied
/// element count and error target covers the exact working-precision
/// requirement `n * -ln(error) / ln2^2`.
pub proof fn lemma_bloom_resolve_storage(e: (int, int), n: int, hashes_in: Option<int>, a: int, l: int)
    requires
        n >= 0,
        a >= 1,
        l >= 0,
        scaled_ln2() == Some(a),
        scaled_inv_ln(e) == Some(l),
    ensures
        ({
            let v = resolve(Some(e), Some(n), None, hashes_in);
            v.storage matches Some(s) ==> s * (a * a) >= n * l * SCALE
        }),
{
    lemma_bloom_storage_bound(n, a, l);
}

/// Idempotence, element-count origin: feeding a set resolved from error
/// and elements its own element count and storage back in (error left
/// absent, no forced hash count) reproduces the same achieved error and
/// the same hash count.
pub proof fn lemma_bloom_idempotent_from_elements(e: (int, int), n: int)
    requires
        n >= 1,
        resolve(Some(e), Some(n), None::<int>, None::<int>).storage is Some,
    ensures
        ({
            let first = resolve(Some(e), Some(n), None::<int>, None::<int>);
            let again = resolve(None, Some(n), first.storage, None::<int>);
            again.error == first.error && again.hashes == first.hashes
        }),
{
}

/// Idempotence, storage-budget origin: feeding a set resolved from error
/// and storage its own element count and storage back in (error left
/// absent, no forced hash count) reproduces the same achieved error and
/// the same hash count.
pub proof fn lemma_bloom_idempotent_from_storage(e: (int, int), s: int)
    requires
        resolve(Some(e), None::<int>, Some(s), None::<int>).elements matches Some(n) && n >= 1,
    ensures
        ({
            let first = resolve(Some(e), None::<int>, Some(s), None::<int>);
            let again = resolve(None, first.elements, Some(s), None::<int>);
            again.error == first.error && again.hashes == first.hashes
        }),
{
}

} // verus!
