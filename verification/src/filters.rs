//! The three sizing solvers and their shared read interface.

pub mod bloom;
pub mod cuckoo;
pub mod theory;

use vstd::prelude::*;

use crate::rational::Rational;

verus! {

/// The number of primary constraints supplied. Inference runs only when
/// exactly two of the three are present.
pub open spec fn constraint_count(error: bool, elements: bool, storage: bool) -> int {
    (if error {
        1int
    } else {
        0int
    }) + (if elements {
        1int
    } else {
        0int
    }) + (if storage {
        1int
    } else {
        0int
    })
}

/// A rational option as the pair of parts its contracts speak of.
pub open spec fn opt_rat_view(e: Option<Rational>) -> Option<(int, int)> {
    match e {
        Some(q) => Some(q@),
        None => None,
    }
}

/// An integer option as the mathematical integer its contracts speak of.
pub open spec fn opt_u64_view(x: Option<u64>) -> Option<int> {
    match x {
        Some(v) => Some(v as int),
        None => None,
    }
}

/// A supplied false-positive rate must be a well-formed rational strictly
/// between 0 and 1; callers reject anything else before constructing a
/// parameter set.
pub open spec fn error_input_ok(error: Option<Rational>) -> bool {
    match error {
        Some(e) => e.wf() && 1 <= e@.0 && e@.0 < e@.1,
        None => true,
    }
}

/// The common read interface over a resolved parameter set; each solver
/// also exposes the same accessors inherently, with full contracts.
pub trait FilterParameters {
    fn error(&self) -> Option<Rational>;

    fn elements(&self) -> Option<u64>;

    fn storage(&self) -> Option<u64>;

    fn bits_per_element(&self) -> Option<Rational>;
}

} // verus!
