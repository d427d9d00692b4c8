//! Cuckoo filter sizing from hyperparameters (candidate buckets per item,
//! slots per bucket, target utilization, optional partial-sort compression
//! flag).
//!
//! Capacity-like quantities (elements, buckets read off storage) are
//! rounded down so a declared budget is never exceeded; requirement-like
//! quantities (fingerprint width from an error target, buckets from an
//! element count) are rounded up so the requested bound is never silently
//! violated. The fingerprint-from-error rule is exact integer arithmetic:
//! the rounded-up binary logarithm of a rational.

use vstd::prelude::*;

use crate::filters::constraint_count;
use crate::filters::error_input_ok;
use crate::filters::opt_rat_view;
use crate::filters::opt_u64_view;
use crate::filters::FilterParameters;
use crate::math::inv_ln_scaled;
use crate::math::ln2_scaled;
use crate::math::pow_rational;
use crate::math::pow_value;
use crate::math::scaled_inv_ln;
use crate::math::scaled_ln2;
use crate::rational::ceil_div;
use crate::rational::ceil_div_u128;
use crate::rational::ceil_log2;
use crate::rational::ceil_log2_u128;
use crate::rational::lemma_ceil_div_bound;
use crate::rational::lemma_ceil_div_upper;
use crate::rational::lemma_ceil_log2_pos;
use crate::rational::lemma_floor_div_bound;
use crate::rational::pow2_u128;
use crate::rational::Rational;
use crate::rational::SCALE;
use vstd::arithmetic::power2::pow2;

verus! {

/// The mathematical content of a resolved Cuckoo set.
pub struct CuckooView {
    pub error: Option<(int, int)>,
    pub elements: Option<int>,
    pub storage: Option<int>,
    pub fingerprint: Option<int>,
    pub buckets: Option<int>,
    pub save: Option<(int, int)>,
    pub hashes: int,
    pub slots: int,
    pub util: (int, int),
}

/// `k!`.
pub open spec fn factorial(k: int) -> int
    decreases k,
{
    if k <= 1 {
        1
    } else {
        k * factorial(k - 1)
    }
}

/// Average bits saved per cell by the partial-sort compression:
/// `log2(slots!) / slots`, at working precision. Computed once at
/// construction; the sizing rules below do not consume it.
pub open spec fn save_value(slots: int, sorted: bool) -> Option<(int, int)> {
    if !sorted {
        Some((0int, 1int))
    } else if factorial(slots) > u128::MAX {
        None
    } else {
        match (scaled_ln2(), scaled_inv_ln((1int, factorial(slots)))) {
            (Some(a), Some(lf)) => if a >= 1 {
                Some((lf, a * slots))
            } else {
                None
            },
            _ => None,
        }
    }
}

/// Fingerprint width from an error target, rounded up:
/// `ceil(log2(util * slots * hashes / error))`, exact. Derived only when
/// the quantity under the logarithm is above 1.
pub open spec fn fp_from_error(e: (int, int), h: int, slots: int, u: (int, int)) -> Option<int> {
    if u.0 * slots > u128::MAX || u.0 * slots * h > u128::MAX || u.0 * slots * h * e.1 > u128::MAX
        || u.1 * e.0 > u128::MAX {
        None
    } else {
        let qn = u.0 * slots * h * e.1;
        let qd = u.1 * e.0;
        if qn > qd {
            Some(ceil_log2(qn, qd))
        } else {
            None
        }
    }
}

/// Fingerprint width from a storage budget, rounded down:
/// `floor(storage * util / elements)`.
pub open spec fn fp_from_storage(s: int, n: int, u: (int, int)) -> Option<int> {
    if n < 1 || s * u.0 > u128::MAX || u.1 * n > u128::MAX {
        None
    } else {
        let v = s * u.0 / (u.1 * n);
        if v <= u64::MAX {
            Some(v)
        } else {
            None
        }
    }
}

/// Bucket count from an element count, rounded up:
/// `ceil(ceil(elements / util) / slots)`.
pub open spec fn buckets_from_elements(n: int, u: (int, int), slots: int) -> Option<int> {
    if n * u.1 > u128::MAX {
        None
    } else {
        let b = ceil_div(ceil_div(n * u.1, u.0), slots);
        if b <= u64::MAX {
            Some(b)
        } else {
            None
        }
    }
}

/// Bucket count from a storage budget, rounded down:
/// `floor(floor(storage / fingerprint) / slots)`.
pub open spec fn buckets_from_storage(s: int, f: int, slots: int) -> Option<int> {
    let b = s / f / slots;
    if b <= u64::MAX {
        Some(b)
    } else {
        None
    }
}

/// Storage from bucket count and fingerprint width, exact:
/// `buckets * slots * fingerprint`.
pub open spec fn storage_from_buckets(b: int, slots: int, f: int) -> Option<int> {
    if b * slots > u128::MAX || b * slots * f > u128::MAX {
        None
    } else {
        let v = b * slots * f;
        if v <= u64::MAX {
            Some(v)
        } else {
            None
        }
    }
}

/// Element capacity from the bucket count, rounded down:
/// `floor(buckets * slots * util)`.
pub open spec fn elements_from_buckets(b: int, slots: int, u: (int, int)) -> Option<int> {
    if b * slots > u128::MAX || b * slots * u.0 > u128::MAX {
        None
    } else {
        let v = b * slots * u.0 / u.1;
        if v <= u64::MAX {
            Some(v)
        } else {
            None
        }
    }
}

/// The false-positive rate achieved by an integer fingerprint width:
/// `1 - (1 - 2^-fingerprint)^(slots * hashes * util)`.
pub open spec fn achieved_error(f: int, h: int, slots: int, u: (int, int)) -> Option<(int, int)> {
    if f > 127 || slots * h > u128::MAX || slots * h * u.0 > u128::MAX {
        None
    } else {
        let p2 = pow2(f as nat) as int;
        match pow_value(p2 - 1, p2, slots * h * u.0, u.1) {
            Some(p) => if p.0 >= p.1 {
                Some((0int, 1int))
            } else {
                Some((p.1 - p.0, p.1))
            },
            None => None,
        }
    }
}

/// What resolution computes, field by field, in the rules' priority order.
///
/// With exactly two primaries supplied: the fingerprint comes first (from
/// storage and elements when both are known, else rounded up from the
/// error target, discarding the supplied error); the achieved error is
/// recomputed from the integer fingerprint; buckets come from the element
/// count when known, else from the storage budget; the remaining primary
/// follows. With 0, 1 or 3 primaries the inputs are echoed and nothing is
/// derived.
pub open spec fn resolve(
    error: Option<(int, int)>,
    elements: Option<int>,
    storage: Option<int>,
    h: int,
    slots: int,
    u: (int, int),
    sorted: bool,
) -> CuckooView {
    let save = save_value(slots, sorted);
    let base = (CuckooView {
        error,
        elements,
        storage,
        fingerprint: None,
        buckets: None,
        save,
        hashes: h,
        slots,
        util: u,
    });
    if constraint_count(error.is_some(), elements.is_some(), storage.is_some()) != 2 {
        base
    } else {
        match (error, elements, storage) {
            (Some(e), Some(n), None) => match fp_from_error(e, h, slots, u) {
                Some(f) => {
                    let b_o = buckets_from_elements(n, u, slots);
                    CuckooView {
                        error: achieved_error(f, h, slots, u),
                        elements: Some(n),
                        storage: match b_o {
                            Some(b) => storage_from_buckets(b, slots, f),
                            None => None,
                        },
                        fingerprint: Some(f),
                        buckets: b_o,
                        save,
                        hashes: h,
                        slots,
                        util: u,
                    }
                },
                None => base,
            },
            (Some(e), None, Some(s)) => match fp_from_error(e, h, slots, u) {
                Some(f) => {
                    let b_o = buckets_from_storage(s, f, slots);
                    CuckooView {
                        error: achieved_error(f, h, slots, u),
                        elements: match b_o {
                            Some(b) => elements_from_buckets(b, slots, u),
                            None => None,
                        },
                        storage: Some(s),
                        fingerprint: Some(f),
                        buckets: b_o,
                        save,
                        hashes: h,
                        slots,
                        util: u,
                    }
                },
                None => base,
            },
            (None, Some(n), Some(s)) => match fp_from_storage(s, n, u) {
                Some(f) => CuckooView {
                    error: achieved_error(f, h, slots, u),
                    elements: Some(n),
                    storage: Some(s),
                    fingerprint: Some(f),
                    buckets: buckets_from_elements(n, u, slots),
                    save,
                    hashes: h,
                    slots,
                    util: u,
                },
                None => base,
            },
            _ => base,
        }
    }
}

/// A resolved Cuckoo parameter set.
pub struct Parameters {
    error: Option<Rational>,
    elements: Option<u64>,
    storage: Option<u64>,
    fingerprint: Option<u64>,
    buckets: Option<u64>,
    save: Option<Rational>,
    hashes: u64,
    slots: u64,
    util: Rational,
}

impl View for Parameters {
    type V = CuckooView;

    closed spec fn view(&self) -> CuckooView {
        CuckooView {
            error: opt_rat_view(self.error),
            elements: opt_u64_view(self.elements),
            storage: opt_u64_view(self.storage),
            fingerprint: opt_u64_view(self.fingerprint),
            buckets: opt_u64_view(self.buckets),
            save: opt_rat_view(self.save),
            hashes: self.hashes as int,
            slots: self.slots as int,
            util: self.util@,
        }
    }
}

/// `k!` when it fits in a `u128`.
fn factorial_u128(k: u64) -> (r: Option<u128>)
    ensures
        r == if factorial(k as int) <= u128::MAX {
            Some(factorial(k as int) as u128)
        } else {
            None::<u128>
        },
{
    let mut i: u64 = 1;
    let mut acc: u128 = 1;
    while i < k
        invariant
            1 <= i,
            k >= 1 ==> i <= k,
            k < 1 ==> i == 1,
            acc == factorial(i as int),
        decreases k - i,
    {
        proof {
            assert(i < k);
        }
        match acc.checked_mul((i + 1) as u128) {
            Some(next) => {
                proof {
                    assert(factorial(i as int + 1) == (i as int + 1) * factorial(i as int));
                    assert((i as int + 1) * factorial(i as int) == factorial(i as int) * (i as int
                        + 1)) by (nonlinear_arith);
                }
                acc = next;
                i = i + 1;
            },
            None => {
                proof {
                    assert(factorial(i as int + 1) == (i as int + 1) * factorial(i as int));
                    assert((i as int + 1) * factorial(i as int) == factorial(i as int) * (i as int
                        + 1)) by (nonlinear_arith);
                    lemma_factorial_nondecreasing(i as int + 1, k as int);
                }
                return None;
            },
        }
    }
    proof {
        if k >= 1 {
            assert(i == k);
        } else {
            assert(factorial(0) == 1);
            assert(factorial(1) == 1);
        }
    }
    Some(acc)
}

/// `k!` is positive.
proof fn lemma_factorial_pos(k: int)
    ensures
        factorial(k) >= 1,
    decreases k,
{
    if k > 1 {
        lemma_factorial_pos(k - 1);
        assert(k * factorial(k - 1) >= k * 1) by (nonlinear_arith)
            requires
                factorial(k - 1) >= 1,
                k > 1,
        ;
    }
}

/// `k!` does not decrease as `k` grows.
proof fn lemma_factorial_nondecreasing(i: int, j: int)
    requires
        1 <= i <= j,
    ensures
        factorial(i) <= factorial(j),
    decreases j,
{
    if i < j {
        lemma_factorial_nondecreasing(i, j - 1);
        lemma_factorial_pos(j - 1);
        assert(1 * factorial(j - 1) <= j * factorial(j - 1)) by (nonlinear_arith)
            requires
                factorial(j - 1) >= 1,
                j > 1,
        ;
    }
}

/// The compression constant, when computable.
fn derive_save(slots: u64, sorted: bool) -> (r: Option<Rational>)
    requires
        slots >= 1,
    ensures
        opt_rat_view(r) == save_value(slots as int, sorted),
        r matches Some(q) ==> q.wf(),
{
    if !sorted {
        return Some(Rational::zero());
    }
    match factorial_u128(slots) {
        Some(fact) => {
            proof {
                lemma_factorial_pos(slots as int);
            }
            let one = Rational::new(1, fact);
            match (ln2_scaled(), inv_ln_scaled(&one)) {
                (Some(a), Some(lf)) => {
                    if a >= 1 {
                        proof {
                            vstd::arithmetic::mul::lemma_mul_upper_bound(
                                a as int,
                                SCALE - 1,
                                slots as int,
                                u64::MAX as int,
                            );
                            vstd::arithmetic::mul::lemma_mul_strictly_positive(a as int, slots as int);
                        }
                        Some(Rational::new(lf, a * (slots as u128)))
                    } else {
                        None
                    }
                },
                _ => None,
            }
        },
        None => None,
    }
}

/// Fingerprint width from an error target, exact rounded-up logarithm.
fn derive_fp_from_error(e: &Rational, h: u64, slots: u64, u: &Rational) -> (r: Option<u64>)
    requires
        e.wf(),
        1 <= e@.0 < e@.1,
        u.wf(),
        1 <= u@.0 <= u@.1,
    ensures
        opt_u64_view(r) == fp_from_error(e@, h as int, slots as int, u@),
{
    let qn1 = match u.numerator().checked_mul(slots as u128) {
        Some(v) => v,
        None => {
            return None;
        },
    };
    let qn2 = match qn1.checked_mul(h as u128) {
        Some(v) => v,
        None => {
            return None;
        },
    };
    let qn = match qn2.checked_mul(e.denominator()) {
        Some(v) => v,
        None => {
            return None;
        },
    };
    let qd = match u.denominator().checked_mul(e.numerator()) {
        Some(v) => v,
        None => {
            return None;
        },
    };
    proof {
        vstd::arithmetic::mul::lemma_mul_strictly_positive(u@.1, e@.0);
    }
    if qn > qd {
        Some(ceil_log2_u128(qn, qd))
    } else {
        None
    }
}

/// Fingerprint width from a storage budget, rounded down.
fn derive_fp_from_storage(s: u64, n: u64, u: &Rational) -> (r: Option<u64>)
    requires
        u.wf(),
        1 <= u@.0 <= u@.1,
    ensures
        opt_u64_view(r) == fp_from_storage(s as int, n as int, u@),
{
    if n < 1 {
        return None;
    }
    let t = match (s as u128).checked_mul(u.numerator()) {
        Some(v) => v,
        None => {
            return None;
        },
    };
    let d = match u.denominator().checked_mul(n as u128) {
        Some(v) => v,
        None => {
            return None;
        },
    };
    proof {
        vstd::arithmetic::mul::lemma_mul_strictly_positive(u@.1, n as int);
    }
    let v = t / d;
    if v <= u64::MAX as u128 {
        Some(v as u64)
    } else {
        None
    }
}

/// Bucket count from an element count, rounded up.
fn derive_buckets_from_elements(n: u64, u: &Rational, slots: u64) -> (r: Option<u64>)
    requires
        u.wf(),
        1 <= u@.0 <= u@.1,
        slots >= 1,
    ensures
        opt_u64_view(r) == buckets_from_elements(n as int, u@, slots as int),
{
    let t = match (n as u128).checked_mul(u.denominator()) {
        Some(v) => v,
        None => {
            return None;
        },
    };
    let cells = ceil_div_u128(t, u.numerator());
    proof {
        lemma_ceil_div_bound(t as int, u@.0);
        lemma_ceil_div_bound(ceil_div(t as int, u@.0), slots as int);
    }
    let b = ceil_div_u128(cells, slots as u128);
    if b <= u64::MAX as u128 {
        Some(b as u64)
    } else {
        None
    }
}

/// Bucket count from a storage budget, rounded down.
fn derive_buckets_from_storage(s: u64, f: u64, slots: u64) -> (r: Option<u64>)
    requires
        f >= 1,
        slots >= 1,
    ensures
        opt_u64_view(r) == buckets_from_storage(s as int, f as int, slots as int),
{
    let b = (s as u128) / (f as u128) / (slots as u128);
    if b <= u64::MAX as u128 {
        Some(b as u64)
    } else {
        None
    }
}

/// Storage from bucket count and fingerprint width, exact.
fn derive_storage(b: u64, slots: u64, f: u64) -> (r: Option<u64>)
    ensures
        opt_u64_view(r) == storage_from_buckets(b as int, slots as int, f as int),
{
    let t = match (b as u128).checked_mul(slots as u128) {
        Some(v) => v,
        None => {
            return None;
        },
    };
    let v = match t.checked_mul(f as u128) {
        Some(v) => v,
        None => {
            return None;
        },
    };
    if v <= u64::MAX as u128 {
        Some(v as u64)
    } else {
        None
    }
}

/// Element capacity from the bucket count, rounded down.
fn derive_elements(b: u64, slots: u64, u: &Rational) -> (r: Option<u64>)
    requires
        u.wf(),
        1 <= u@.0 <= u@.1,
    ensures
        opt_u64_view(r) == elements_from_buckets(b as int, slots as int, u@),
{
    let t = match (b as u128).checked_mul(slots as u128) {
        Some(v) => v,
        None => {
            return None;
        },
    };
    let t2 = match t.checked_mul(u.numerator()) {
        Some(v) => v,
        None => {
            return None;
        },
    };
    let v = t2 / u.denominator();
    if v <= u64::MAX as u128 {
        Some(v as u64)
    } else {
        None
    }
}

/// The achieved false-positive rate for an integer fingerprint width.
fn derive_achieved_error(f: u64, h: u64, slots: u64, u: &Rational) -> (r: Option<Rational>)
    requires
        u.wf(),
        1 <= u@.0 <= u@.1,
    ensures
        opt_rat_view(r) == achieved_error(f as int, h as int, slots as int, u@),
        r matches Some(q) ==> q.wf(),
{
    if f > 127 {
        return None;
    }
    let t = match (slots as u128).checked_mul(h as u128) {
        Some(v) => v,
        None => {
            return None;
        },
    };
    let en = match t.checked_mul(u.numerator()) {
        Some(v) => v,
        None => {
            return None;
        },
    };
    let p2 = pow2_u128(f);
    match pow_rational(p2 - 1, p2, en, u.denominator()) {
        Some(p) => {
            let pn = p.numerator();
            let pd = p.denominator();
            if pn >= pd {
                Some(Rational::zero())
            } else {
                Some(Rational::new(pd - pn, pd))
            }
        },
        None => None,
    }
}

impl Parameters {
    /// Every held rational has a positive denominator and the utilization
    /// lies in (0, 1].
    pub open spec fn wf(self) -> bool {
        &&& (self@.error matches Some(q) ==> q.1 >= 1)
        &&& (self@.save matches Some(q) ==> q.1 >= 1)
        &&& 1 <= self@.util.0 <= self@.util.1
        &&& self@.slots >= 1
        &&& self@.hashes >= 1
    }

    /// Builds and resolves a Cuckoo parameter set.
    ///
    /// A supplied error rate must lie strictly between 0 and 1; the
    /// hyperparameters must be valid: at least one candidate bucket per
    /// item, at least one slot per bucket, utilization in (0, 1]. With 0,
    /// 1 or 3 primaries supplied, the inputs are echoed back unresolved
    /// (the compression constant is still computed).
    pub fn new(
        error: Option<Rational>,
        elements: Option<u64>,
        storage: Option<u64>,
        hashes: u64,
        slots: u64,
        util: Rational,
        sorted: bool,
    ) -> (r: Parameters)
        requires
            error_input_ok(error),
            hashes >= 1,
            slots >= 1,
            util.wf(),
            1 <= util@.0 <= util@.1,
        ensures
            r@ == resolve(
                opt_rat_view(error),
                opt_u64_view(elements),
                opt_u64_view(storage),
                hashes as int,
                slots as int,
                util@,
                sorted,
            ),
            r.wf(),
            constraint_count(error.is_some(), elements.is_some(), storage.is_some()) != 2
                ==> r@.fingerprint.is_none() && r@.buckets.is_none() && r@.error == opt_rat_view(
                error,
            ) && r@.elements == opt_u64_view(elements) && r@.storage == opt_u64_view(storage),
    {
        let save = derive_save(slots, sorted);
        let mut count: u32 = 0;
        if error.is_some() {
            count = count + 1;
        }
        if elements.is_some() {
            count = count + 1;
        }
        if storage.is_some() {
            count = count + 1;
        }
        if count != 2 {
            return Parameters {
                error,
                elements,
                storage,
                fingerprint: None,
                buckets: None,
                save,
                hashes,
                slots,
                util,
            };
        }
        match (error, elements, storage) {
            (Some(e), Some(n), None) => {
                match derive_fp_from_error(&e, hashes, slots, &util) {
                    Some(f) => {
                        let b_o = derive_buckets_from_elements(n, &util, slots);
                        let storage_v = match b_o {
                            Some(b) => derive_storage(b, slots, f),
                            None => None,
                        };
                        Parameters {
                            error: derive_achieved_error(f, hashes, slots, &util),
                            elements: Some(n),
                            storage: storage_v,
                            fingerprint: Some(f),
                            buckets: b_o,
                            save,
                            hashes,
                            slots,
                            util,
                        }
                    },
                    None => Parameters {
                        error,
                        elements,
                        storage,
                        fingerprint: None,
                        buckets: None,
                        save,
                        hashes,
                        slots,
                        util,
                    },
                }
            },
            (Some(e), None, Some(s)) => {
                match derive_fp_from_error(&e, hashes, slots, &util) {
                    Some(f) => {
                        proof {
                            lemma_ceil_log2_pos_for_fp(e@, hashes as int, slots as int, util@);
                        }
                        let b_o = derive_buckets_from_storage(s, f, slots);
                        let elements_v = match b_o {
                            Some(b) => derive_elements(b, slots, &util),
                            None => None,
                        };
                        Parameters {
                            error: derive_achieved_error(f, hashes, slots, &util),
                            elements: elements_v,
                            storage: Some(s),
                            fingerprint: Some(f),
                            buckets: b_o,
                            save,
                            hashes,
                            slots,
                            util,
                        }
                    },
                    None => Parameters {
                        error,
                        elements,
                        storage,
                        fingerprint: None,
                        buckets: None,
                        save,
                        hashes,
                        slots,
                        util,
                    },
                }
            },
            (None, Some(n), Some(s)) => {
                match derive_fp_from_storage(s, n, &util) {
                    Some(f) => Parameters {
                        error: derive_achieved_error(f, hashes, slots, &util),
                        elements: Some(n),
                        storage: Some(s),
                        fingerprint: Some(f),
                        buckets: derive_buckets_from_elements(n, &util, slots),
                        save,
                        hashes,
                        slots,
                        util,
                    },
                    None => Parameters {
                        error,
                        elements,
                        storage,
                        fingerprint: None,
                        buckets: None,
                        save,
                        hashes,
                        slots,
                        util,
                    },
                }
            },
            _ => Parameters {
                error,
                elements,
                storage,
                fingerprint: None,
                buckets: None,
                save,
                hashes,
                slots,
                util,
            },
        }
    }

    /// The false-positive rate: the achieved rate once a fingerprint width
    /// is fixed, else as supplied.
    pub fn error(&self) -> (r: Option<Rational>)
        ensures
            opt_rat_view(r) == self@.error,
    {
        self.error
    }

    /// The element capacity.
    pub fn elements(&self) -> (r: Option<u64>)
        ensures
            opt_u64_view(r) == self@.elements,
    {
        self.elements
    }

    /// The storage budget in bits.
    pub fn storage(&self) -> (r: Option<u64>)
        ensures
            opt_u64_view(r) == self@.storage,
    {
        self.storage
    }

    /// The fingerprint width in bits.
    pub fn fingerprint(&self) -> (r: Option<u64>)
        ensures
            opt_u64_view(r) == self@.fingerprint,
    {
        self.fingerprint
    }

    /// The bucket count.
    pub fn buckets(&self) -> (r: Option<u64>)
        ensures
            opt_u64_view(r) == self@.buckets,
    {
        self.buckets
    }

    /// Candidate buckets per item, as supplied.
    pub fn hashes(&self) -> (r: u64)
        ensures
            r as int == self@.hashes,
    {
        self.hashes
    }

    /// Slots per bucket, as supplied.
    pub fn slots(&self) -> (r: u64)
        ensures
            r as int == self@.slots,
    {
        self.slots
    }

    /// Target utilization, as supplied.
    pub fn util(&self) -> (r: Rational)
        ensures
            r@ == self@.util,
    {
        self.util
    }

    /// Storage over elements, exact; absent unless both are known and the
    /// element count is positive.
    pub fn bits_per_element(&self) -> (r: Option<Rational>)
        ensures
            opt_rat_view(r) == match (self@.storage, self@.elements) {
                (Some(s), Some(n)) => if n >= 1 {
                    Some((s, n))
                } else {
                    None::<(int, int)>
                },
                _ => None::<(int, int)>,
            },
    {
        match (self.storage, self.elements) {
            (Some(s), Some(n)) => if n >= 1 {
                Some(Rational::new(s as u128, n as u128))
            } else {
                None
            },
            _ => None,
        }
    }
}

impl FilterParameters for Parameters {
    fn error(&self) -> Option<Rational> {
        self.error
    }

    fn elements(&self) -> Option<u64> {
        self.elements
    }

    fn storage(&self) -> Option<u64> {
        self.storage
    }

    fn bits_per_element(&self) -> Option<Rational> {
        match (self.storage, self.elements) {
            (Some(s), Some(n)) => if n >= 1 {
                Some(Rational::new(s as u128, n as u128))
            } else {
                None
            },
            _ => None,
        }
    }
}

/// A fingerprint derived from an error target is at least 1 bit wide.
proof fn lemma_ceil_log2_pos_for_fp(e: (int, int), h: int, slots: int, u: (int, int))
    requires
        e.0 >= 1,
        u.1 >= 1,
    ensures
        fp_from_error(e, h, slots, u) matches Some(f) ==> f >= 1,
{
    if fp_from_error(e, h, slots, u) is Some {
        vstd::arithmetic::mul::lemma_mul_strictly_positive(u.1, e.0);
        lemma_ceil_log2_pos(u.0 * slots * h * e.1, u.1 * e.0);
    }
}

/// Fingerprint positivity: whenever a fingerprint width is derived from an
/// error target in (0, 1) with valid hyperparameters, it is at least 1.
pub proof fn lemma_cuckoo_fingerprint_positive(
    e: (int, int),
    elements: Option<int>,
    storage: Option<int>,
    h: int,
    slots: int,
    u: (int, int),
    sorted: bool,
)
    requires
        elements.is_some() != storage.is_some(),
        e.0 >= 1,
        u.1 >= 1,
    ensures
        ({
            let v = resolve(Some(e), elements, storage, h, slots, u, sorted);
            v.fingerprint matches Some(f) ==> f >= 1
        }),
{
    lemma_ceil_log2_pos_for_fp(e, h, slots, u);
}

/// Capacity bound: in every resolved set, the element capacity times the
/// utilization denominator never exceeds `buckets * slots` times the
/// utilization numerator -- the floor never inflates reported capacity and
/// the ceiling never undersizes the table.
pub proof fn lemma_cuckoo_capacity_bound(
    error: Option<(int, int)>,
    elements: Option<int>,
    storage: Option<int>,
    h: int,
    slots: int,
    u: (int, int),
    sorted: bool,
)
    requires
        1 <= u.0 <= u.1,
        slots >= 1,
        (elements matches Some(n) ==> n >= 0),
        (storage matches Some(s) ==> s >= 0),
        (error matches Some(e) ==> e.0 >= 1),
    ensures
        ({
            let v = resolve(error, elements, storage, h, slots, u, sorted);
            v.elements matches Some(n) ==> (v.buckets matches Some(b) ==> n * u.1 <= b * slots
                * u.0)
        }),
{
    let v = resolve(error, elements, storage, h, slots, u, sorted);
    if v.elements is Some && v.buckets is Some {
        let n = v.elements->Some_0;
        let b = v.buckets->Some_0;
        if elements is Some {
            lemma_buckets_cover_elements(n, u, slots);
        } else {
            let e = error->Some_0;
            let s = storage->Some_0;
            let f = v.fingerprint->Some_0;
            lemma_ceil_log2_pos_for_fp(e, h, slots, u);
            vstd::arithmetic::div_mod::lemma_div_pos_is_pos(s, f);
            vstd::arithmetic::div_mod::lemma_div_pos_is_pos(s / f, slots as int);
            lemma_elements_within_buckets(b, slots, u);
        }
    }
}

/// Idempotence, element-count origin: feeding a set resolved from error
/// and elements its own element count and storage back in (error left
/// absent) reproduces the same fingerprint width, the same achieved error
/// and the same bucket count. The element count must be large next to the
/// fingerprint -- `fingerprint * (slots * util_num - 1) < elements *
/// util_den` -- since on a tiny table the rounded-up bucket count inflates
/// the storage-derived fingerprint.
pub proof fn lemma_cuckoo_idempotent(
    e: (int, int),
    n: int,
    h: int,
    slots: int,
    u: (int, int),
    sorted: bool,
)
    requires
        1 <= u.0 <= u.1 <= u64::MAX,
        slots >= 1,
        1 <= n <= u64::MAX,
        e.0 >= 1,
        resolve(Some(e), Some(n), None::<int>, h, slots, u, sorted).storage is Some,
        ({
            let first = resolve(Some(e), Some(n), None::<int>, h, slots, u, sorted);
            first.fingerprint matches Some(f) ==> f * (slots * u.0 - 1) < n * u.1
        }),
    ensures
        ({
            let first = resolve(Some(e), Some(n), None::<int>, h, slots, u, sorted);
            let again = resolve(None, Some(n), first.storage, h, slots, u, sorted);
            again.fingerprint == first.fingerprint && again.error == first.error && again.buckets
                == first.buckets
        }),
{
    let first = resolve(Some(e), Some(n), None::<int>, h, slots, u, sorted);
    let f = first.fingerprint->Some_0;
    let b = first.buckets->Some_0;
    let s = first.storage->Some_0;
    let qn = u.0 * slots * h * e.1;
    let qd = u.1 * e.0;
    vstd::arithmetic::mul::lemma_mul_strictly_positive(u.1, e.0);
    lemma_ceil_log2_pos(qn, qd);
    assert(s == b * slots * f);
    assert(0 <= s <= u64::MAX);

    // The bucket count covers the element count, and overshoots it by
    // less than one bucket row.
    let t = n * u.1;
    vstd::arithmetic::mul::lemma_mul_strictly_positive(n, u.1);
    let c = ceil_div(t, u.0);
    lemma_ceil_div_bound(t, u.0);
    lemma_ceil_div_upper(t, u.0);
    lemma_ceil_div_bound(c, slots);
    lemma_ceil_div_upper(c, slots);
    assert(b == ceil_div(c, slots));
    assert(b * slots * u.0 >= t) by (nonlinear_arith)
        requires
            c * u.0 >= t,
            b * slots >= c,
            c >= 0,
            u.0 >= 1,
            b == ceil_div(c, slots),
    ;
    assert(b * slots * u.0 <= t + slots * u.0 - 1) by (nonlinear_arith)
        requires
            c * u.0 <= t + u.0 - 1,
            b * slots <= c + slots - 1,
            u.0 >= 1,
            slots >= 1,
    ;

    // Hence the storage-derived fingerprint lands exactly on the original.
    let x = s * u.0;
    let d = u.1 * n;
    vstd::arithmetic::mul::lemma_mul_strictly_positive(u.1, n);
    assert(x >= f * d) by (nonlinear_arith)
        requires
            x == s * u.0,
            s == b * slots * f,
            b * slots * u.0 >= t,
            t == n * u.1,
            d == u.1 * n,
            f >= 1,
            b >= 0,
            slots >= 1,
            1 <= u.0 <= u.1,
            n >= 1,
    ;
    assert(x < (f + 1) * d) by (nonlinear_arith)
        requires
            x == s * u.0,
            s == b * slots * f,
            b * slots * u.0 <= t + slots * u.0 - 1,
            f * (slots * u.0 - 1) < n * u.1,
            t == n * u.1,
            d == u.1 * n,
            f >= 1,
            b >= 0,
            slots >= 1,
            1 <= u.0 <= u.1,
            n >= 1,
    ;
    assert((f + 1) * d == f * d + d) by (nonlinear_arith);
    vstd::arithmetic::div_mod::lemma_fundamental_div_mod_converse(x, d, f, x - f * d);
    assert(x / d == f);

    // Both intermediate products stay within range, so the second
    // resolution derives the fingerprint rather than giving up.
    assert(s * u.0 <= u128::MAX) by (nonlinear_arith)
        requires
            0 <= s <= u64::MAX,
            0 <= u.0 <= u64::MAX,
    ;
    assert(u.1 * n <= u128::MAX) by (nonlinear_arith)
        requires
            0 <= u.1 <= u64::MAX,
            0 <= n <= u64::MAX,
    ;
    crate::rational::lemma_ceil_log2_at_most(qn, qd);
    assert(fp_from_storage(s, n, u) == Some(f));
}

/// Buckets derived from an element count cover it: rounding up twice only
/// enlarges the table.
proof fn lemma_buckets_cover_elements(n: int, u: (int, int), slots: int)
    requires
        n >= 0,
        1 <= u.0 <= u.1,
        slots >= 1,
    ensures
        buckets_from_elements(n, u, slots) matches Some(b) ==> n * u.1 <= b * slots * u.0,
{
    if buckets_from_elements(n, u, slots) is Some {
        let t = n * u.1;
        vstd::arithmetic::mul::lemma_mul_nonnegative(n, u.1);
        let c = ceil_div(t, u.0);
        let b = ceil_div(c, slots);
        lemma_ceil_div_bound(t, u.0);
        lemma_ceil_div_bound(c, slots);
        assert(t <= b * slots * u.0) by (nonlinear_arith)
            requires
                c * u.0 >= t,
                b * slots >= c,
                c >= 0,
                u.0 >= 1,
        ;
    }
}

/// Elements derived from a bucket count stay within it: rounding down
/// never overstates capacity.
proof fn lemma_elements_within_buckets(b: int, slots: int, u: (int, int))
    requires
        b >= 0,
        slots >= 1,
        1 <= u.0 <= u.1,
    ensures
        elements_from_buckets(b, slots, u) matches Some(n) ==> n * u.1 <= b * slots * u.0,
{
    if elements_from_buckets(b, slots, u) is Some {
        let t = b * slots * u.0;
        vstd::arithmetic::mul::lemma_mul_nonnegative(b, slots);
        vstd::arithmetic::mul::lemma_mul_nonnegative(b * slots, u.0);
        lemma_floor_div_bound(t, u.1);
    }
}

} // verus!
