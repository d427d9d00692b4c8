//! Sizing calculator for probabilistic membership filters.
//!
//! Three independent solvers (information-theoretic bound, Bloom, Cuckoo)
//! each take a partial set of constraints -- false-positive rate, element
//! count, storage budget in bits -- and infer the missing quantities.
//! All arithmetic on the constraint side is exact unsigned rational
//! arithmetic; the few transcendental values needed (natural logarithms
//! and real powers) are obtained from a fixed-precision decimal library
//! behind a small trusted boundary in `math`.

pub mod filters;
pub mod math;
pub mod rational;
pub mod render;
