//! The information-theoretic lower bound relating false-positive rate,
//! element count and storage. All quantities stay continuous rationals;
//! nothing is rounded during resolution.

use vstd::prelude::*;

use crate::filters::constraint_count;
use crate::filters::error_input_ok;
use crate::filters::opt_rat_view;
use crate::filters::opt_u64_view;
use crate::filters::FilterParameters;
use crate::math::pow_rational;
use crate::math::pow_value;
use crate::math::scaled_inv_ln;
use crate::math::scaled_ln2;
use crate::math::ln2_scaled;
use crate::math::inv_ln_scaled;
use crate::rational::floor_in_u64;
use crate::rational::Rational;

verus! {

/// The mathematical content of a resolved set: each field either absent or
/// a rational given by its parts.
pub struct TheoryView {
    pub error: Option<(int, int)>,
    pub elements: Option<(int, int)>,
    pub storage: Option<(int, int)>,
    pub bits: Option<(int, int)>,
}

/// What resolution computes, field by field.
///
/// With exactly two primaries supplied: bits-per-element is `log2(1/error)`
/// (the ratio of the scaled logarithms) or `storage/elements`; the missing
/// primary follows from it; a supplied value is never overwritten. With 0,
/// 1 or 3 primaries supplied everything derived stays absent.
pub open spec fn resolve(
    error: Option<(int, int)>,
    elements: Option<int>,
    storage: Option<int>,
) -> TheoryView {
    let base = (TheoryView {
        error,
        elements: match elements {
            Some(n) => Some((n, 1int)),
            None => None,
        },
        storage: match storage {
            Some(s) => Some((s, 1int)),
            None => None,
        },
        bits: None,
    });
    if constraint_count(error.is_some(), elements.is_some(), storage.is_some()) != 2 {
        base
    } else {
        match (error, elements, storage) {
            (Some(e), Some(n), None) => match (scaled_ln2(), scaled_inv_ln(e)) {
                (Some(a), Some(l)) => (TheoryView {
                    error: Some(e),
                    elements: Some((n, 1int)),
                    storage: if a >= 1 && n * l <= u128::MAX {
                        Some((n * l, a))
                    } else {
                        None
                    },
                    bits: if a >= 1 {
                        Some((l, a))
                    } else {
                        None
                    },
                }),
                _ => base,
            },
            (Some(e), None, Some(s)) => match (scaled_ln2(), scaled_inv_ln(e)) {
                (Some(a), Some(l)) => (TheoryView {
                    error: Some(e),
                    elements: if a >= 1 && l >= 1 {
                        Some((s * a, l))
                    } else {
                        None
                    },
                    storage: Some((s, 1int)),
                    bits: if a >= 1 {
                        Some((l, a))
                    } else {
                        None
                    },
                }),
                _ => base,
            },
            (None, Some(n), Some(s)) => (TheoryView {
                error: if n >= 1 {
                    pow_value(1, 2, s, n)
                } else {
                    None
                },
                elements: Some((n, 1int)),
                storage: Some((s, 1int)),
                bits: if n >= 1 {
                    Some((s, n))
                } else {
                    None
                },
            }),
            _ => base,
        }
    }
}

/// A resolved set for the theoretic bound.
pub struct Parameters {
    error: Option<Rational>,
    elements: Option<Rational>,
    storage: Option<Rational>,
    bits: Option<Rational>,
}

impl View for Parameters {
    type V = TheoryView;

    closed spec fn view(&self) -> TheoryView {
        TheoryView {
            error: opt_rat_view(self.error),
            elements: opt_rat_view(self.elements),
            storage: opt_rat_view(self.storage),
            bits: opt_rat_view(self.bits),
        }
    }
}

impl Parameters {
    /// Every held rational has a positive denominator.
    pub open spec fn wf(self) -> bool {
        &&& (self@.error matches Some(q) ==> q.1 >= 1)
        &&& (self@.elements matches Some(q) ==> q.1 >= 1)
        &&& (self@.storage matches Some(q) ==> q.1 >= 1)
        &&& (self@.bits matches Some(q) ==> q.1 >= 1)
    }

    /// Builds and resolves a parameter set from the supplied constraints.
    ///
    /// A supplied error rate must lie strictly between 0 and 1. With 0, 1
    /// or 3 primaries supplied, the inputs are echoed back and the derived
    /// bits-per-element stays absent.
    pub fn new(error: Option<Rational>, elements: Option<u64>, storage: Option<u64>) -> (r:
        Parameters)
        requires
            error_input_ok(error),
        ensures
            r@ == resolve(opt_rat_view(error), opt_u64_view(elements), opt_u64_view(storage)),
            r.wf(),
            constraint_count(error.is_some(), elements.is_some(), storage.is_some()) != 2
                ==> r@.bits.is_none() && r@.error == opt_rat_view(error),
    {
        let elements_r = match elements {
            Some(n) => Some(Rational::new(n as u128, 1)),
            None => None,
        };
        let storage_r = match storage {
            Some(s) => Some(Rational::new(s as u128, 1)),
            None => None,
        };
        let mut count: u32 = 0;
        if error.is_some() {
            count = count + 1;
        }
        if elements.is_some() {
            count = count + 1;
        }
        if storage.is_some() {
            count = count + 1;
        }
        if count != 2 {
            return Parameters { error, elements: elements_r, storage: storage_r, bits: None };
        }
        match (error, elements, storage) {
            (Some(e), Some(n), None) => {
                match (ln2_scaled(), inv_ln_scaled(&e)) {
                    (Some(a), Some(l)) => {
                        let bits = if a >= 1 {
                            Some(Rational::new(l, a))
                        } else {
                            None
                        };
                        let storage_v = if a >= 1 {
                            match (n as u128).checked_mul(l) {
                                Some(m) => Some(Rational::new(m, a)),
                                None => None,
                            }
                        } else {
                            None
                        };
                        Parameters { error: Some(e), elements: elements_r, storage: storage_v, bits }
                    },
                    _ => Parameters { error, elements: elements_r, storage: storage_r, bits: None },
                }
            },
            (Some(e), None, Some(s)) => {
                match (ln2_scaled(), inv_ln_scaled(&e)) {
                    (Some(a), Some(l)) => {
                        let bits = if a >= 1 {
                            Some(Rational::new(l, a))
                        } else {
                            None
                        };
                        let elements_v = if a >= 1 && l >= 1 {
                            proof {
                                assert(s as int * a as int <= u128::MAX) by (nonlinear_arith)
                                    requires
                                        0 <= s as int <= 0xffff_ffff_ffff_ffff,
                                        0 <= a < 4294967296,
                                ;
                            }
                            Some(Rational::new((s as u128) * a, l))
                        } else {
                            None
                        };
                        Parameters { error: Some(e), elements: elements_v, storage: storage_r, bits }
                    },
                    _ => Parameters { error, elements: elements_r, storage: storage_r, bits: None },
                }
            },
            (None, Some(n), Some(s)) => {
                let error_v = if n >= 1 {
                    pow_rational(1, 2, s as u128, n as u128)
                } else {
                    None
                };
                let bits = if n >= 1 {
                    Some(Rational::new(s as u128, n as u128))
                } else {
                    None
                };
                Parameters { error: error_v, elements: elements_r, storage: storage_r, bits }
            },
            _ => Parameters { error, elements: elements_r, storage: storage_r, bits: None },
        }
    }

    /// The false-positive rate: as supplied, or `2^-bits` when derived.
    pub fn error(&self) -> (r: Option<Rational>)
        ensures
            opt_rat_view(r) == self@.error,
    {
        self.error
    }

    /// The element count, rounded down to an integer.
    pub fn elements(&self) -> (r: Option<u64>)
        requires
            self.wf(),
        ensures
            r == match self@.elements {
                Some(q) => floor_in_u64(q),
                None => None::<u64>,
            },
    {
        match &self.elements {
            Some(q) => q.floor_u64(),
            None => None,
        }
    }

    /// The storage budget in bits, rounded down to an integer.
    pub fn storage(&self) -> (r: Option<u64>)
        requires
            self.wf(),
        ensures
            r == match self@.storage {
                Some(q) => floor_in_u64(q),
                None => None::<u64>,
            },
    {
        match &self.storage {
            Some(q) => q.floor_u64(),
            None => None,
        }
    }

    /// Bits per element, exact.
    pub fn bits_per_element(&self) -> (r: Option<Rational>)
        ensures
            opt_rat_view(r) == self@.bits,
    {
        self.bits
    }
}

impl FilterParameters for Parameters {
    fn error(&self) -> Option<Rational> {
        self.error
    }

    fn elements(&self) -> Option<u64> {
        match &self.elements {
            Some(q) => if q.denominator() >= 1 {
                q.floor_u64()
            } else {
                None
            },
            None => None,
        }
    }

    fn storage(&self) -> Option<u64> {
        match &self.storage {
            Some(q) => if q.denominator() >= 1 {
                q.floor_u64()
            } else {
                None
            },
            None => None,
        }
    }

    fn bits_per_element(&self) -> Option<Rational> {
        self.bits
    }
}

/// The derived element count stands to the supplied storage exactly as the
/// derived bits-per-element: elements times bits-per-element gives the
/// storage back with no loss, since this solver never rounds.
pub proof fn lemma_theory_elements_consistent(e: (int, int), s: int)
    ensures
        ({
            let v = resolve(Some(e), None, Some(s));
            v.elements matches Some(el) ==> (v.bits matches Some(b) ==> el.0 * b.0 == s * el.1
                * b.1)
        }),
{
    let v = resolve(Some(e), None, Some(s));
    if v.elements is Some {
        let el = v.elements->Some_0;
        let b = v.bits->Some_0;
        assert(el.0 * b.0 == s * el.1 * b.1) by (nonlinear_arith)
            requires
                el.0 == s * b.1,
                el.1 == b.0,
        ;
    }
}

/// The derived storage stands to the supplied element count exactly as the
/// derived bits-per-element: resolving from error and elements, then
/// reading storage over elements, recovers bits-per-element with no loss.
pub proof fn lemma_theory_storage_consistent(e: (int, int), n: int)
    ensures
        ({
            let v = resolve(Some(e), Some(n), None);
            v.storage matches Some(st) ==> (v.bits matches Some(b) && st.0 * b.1 == b.0 * st.1 * n)
        }),
{
    let v = resolve(Some(e), Some(n), None);
    if v.storage is Some {
        let st = v.storage->Some_0;
        let b = v.bits->Some_0;
        assert(st.0 * b.1 == b.0 * st.1 * n) by (nonlinear_arith)
            requires
                st.0 == n * b.0,
                st.1 == b.1,
        ;
    }
}

} // verus!
