use probset::filters::bloom;
use probset::filters::cuckoo;
use probset::filters::theory;
use probset::rational::Rational;

/// `lo_num/lo_den < r < hi_num/hi_den` by exact cross-multiplication.
fn between(r: &Rational, lo_num: u128, lo_den: u128, hi_num: u128, hi_den: u128) -> bool {
    let n = r.numerator();
    let d = r.denominator();
    lo_num * d < n * lo_den && n * hi_den < hi_num * d
}

fn util_95() -> Rational {
    Rational::new(95, 100)
}

#[test]
fn theory_concrete_scenario() {
    // error = 0.01, elements = 1000: bits/element is log2(100) ~ 6.643856,
    // storage ~ 6643.856 bits, the supplied error is echoed back.
    let p = theory::Parameters::new(Some(Rational::new(1, 100)), Some(1000), None);
    assert_eq!(p.elements(), Some(1000));
    assert_eq!(p.storage(), Some(6643));
    let bits = p.bits_per_element().unwrap();
    assert!(between(&bits, 66438, 10000, 66439, 10000));
    let err = p.error().unwrap();
    assert_eq!(err.numerator(), 1);
    assert_eq!(err.denominator(), 100);
}

#[test]
fn theory_error_round_trip() {
    // Deriving storage from (error, elements) and re-deriving the error
    // from (elements, storage) lands back within floating tolerance of the
    // original 0.01.
    let p = theory::Parameters::new(Some(Rational::new(1, 100)), Some(1000), None);
    let storage = p.storage().unwrap();
    let q = theory::Parameters::new(None, Some(1000), Some(storage));
    let bits = q.bits_per_element().unwrap();
    assert_eq!(bits.numerator(), storage as u128);
    assert_eq!(bits.denominator(), 1000);
    let err = q.error().unwrap();
    assert!(between(&err, 99, 10000, 101, 10000));
}

#[test]
fn theory_gate() {
    // 0, 1 or 3 primaries supplied: nothing is derived.
    let none = theory::Parameters::new(None, None, None);
    assert!(none.bits_per_element().is_none());
    assert!(none.error().is_none());
    let one = theory::Parameters::new(None, Some(1000), None);
    assert!(one.bits_per_element().is_none());
    assert!(one.storage().is_none());
    let three = theory::Parameters::new(Some(Rational::new(1, 100)), Some(1000), Some(9586));
    assert!(three.bits_per_element().is_none());
    assert_eq!(three.elements(), Some(1000));
    assert_eq!(three.storage(), Some(9586));
}

#[test]
fn bloom_concrete_scenario() {
    // storage = 9,585,058 bits, error = 0.001: the floored capacity at the
    // library's working precision, with the optimal hash count for the
    // resulting load factor.
    let p = bloom::Parameters::new(Some(Rational::new(1, 1000)), None, Some(9585058), None);
    assert_eq!(p.elements(), Some(666666));
    assert_eq!(p.storage(), Some(9585058));
    assert_eq!(p.hashes(), Some(10));
    // The achieved error at the final load factor is about 2^-9.9658.
    let err = p.error().unwrap();
    assert!(between(&err, 9, 10000, 11, 10000));
}

#[test]
fn bloom_storage_from_elements() {
    // error = 0.01, elements = 1000: storage is rounded up, never
    // under-provisioned, and the classical optimum of 7 hashes appears.
    let p = bloom::Parameters::new(Some(Rational::new(1, 100)), Some(1000), None, None);
    assert_eq!(p.storage(), Some(9586));
    assert_eq!(p.elements(), Some(1000));
    assert_eq!(p.hashes(), Some(7));
    let err = p.error().unwrap();
    assert!(between(&err, 99, 10000, 101, 10000));
}

#[test]
fn bloom_round_trip_directions() {
    // Sizing up from an element count and reading the capacity back off
    // the derived budget never loses elements: ceil then floor covers the
    // original count.
    let p = bloom::Parameters::new(Some(Rational::new(1, 100)), Some(1000), None, None);
    let storage = p.storage().unwrap();
    let q = bloom::Parameters::new(Some(Rational::new(1, 100)), None, Some(storage), None);
    assert!(q.elements().unwrap() >= 1000);
}

#[test]
fn bloom_idempotence() {
    // Re-feeding a resolved set's (elements, storage) with the error left
    // absent reproduces the same achieved error and hash count.
    let p = bloom::Parameters::new(Some(Rational::new(1, 100)), Some(1000), None, None);
    let q = bloom::Parameters::new(None, p.elements(), p.storage(), None);
    assert_eq!(p.error(), q.error());
    assert_eq!(p.hashes(), q.hashes());
    assert_eq!(p.hashes(), Some(7));
}

#[test]
fn bloom_forced_hashes() {
    // A caller-forced hash count suppresses the optimum derivation and
    // keeps the supplied error authoritative.
    let p = bloom::Parameters::new(Some(Rational::new(1, 100)), Some(1000), None, Some(4));
    assert_eq!(p.hashes(), Some(4));
    let err = p.error().unwrap();
    assert_eq!(err.numerator(), 1);
    assert_eq!(err.denominator(), 100);
}

#[test]
fn bloom_gate() {
    let e = Rational::new(1, 100);
    let none = bloom::Parameters::new(None, None, None, None);
    assert!(none.elements().is_none() && none.storage().is_none() && none.hashes().is_none());
    let one = bloom::Parameters::new(Some(e), None, None, None);
    assert!(one.elements().is_none() && one.storage().is_none() && one.hashes().is_none());
    let three = bloom::Parameters::new(Some(e), Some(1000), Some(9586), None);
    assert!(three.hashes().is_none());
    assert_eq!(three.elements(), Some(1000));
    assert_eq!(three.storage(), Some(9586));
    assert_eq!(three.error().unwrap().numerator(), 1);
}

#[test]
fn cuckoo_concrete_scenario() {
    // error ~ 0.00099, elements = 128,040,000,000, hashes = 2, slots = 4,
    // util = 0.95: the fingerprint is exactly 13 bits.
    let p = cuckoo::Parameters::new(
        Some(Rational::new(99, 100000)),
        Some(128_040_000_000),
        None,
        2,
        4,
        util_95(),
        true,
    );
    assert_eq!(p.fingerprint(), Some(13));
    assert_eq!(p.buckets(), Some(33_694_736_843));
    assert_eq!(p.storage(), Some(1_752_126_315_836));
    assert_eq!(p.elements(), Some(128_040_000_000));
    assert_eq!(p.hashes(), 2);
    assert_eq!(p.slots(), 4);
    // The achieved error for a 13-bit fingerprint at these hyperparameters
    // is about 0.000927, under the requested 0.00099.
    let err = p.error().unwrap();
    assert!(between(&err, 9, 10000, 95, 100000));
}

#[test]
fn cuckoo_idempotence() {
    // Re-feeding the resolved (elements, storage) pair reproduces the same
    // fingerprint, achieved error and bucket count.
    let p = cuckoo::Parameters::new(
        Some(Rational::new(99, 100000)),
        Some(128_040_000_000),
        None,
        2,
        4,
        util_95(),
        true,
    );
    let q = cuckoo::Parameters::new(None, p.elements(), p.storage(), 2, 4, util_95(), true);
    assert_eq!(q.fingerprint(), p.fingerprint());
    assert_eq!(q.error(), p.error());
    assert_eq!(q.buckets(), p.buckets());
}

#[test]
fn cuckoo_from_storage() {
    // error and storage supplied: buckets are floored off the budget, the
    // capacity is floored off the buckets, and the capacity bound
    // elements <= buckets * slots * util holds exactly.
    let p = cuckoo::Parameters::new(
        Some(Rational::new(99, 100000)),
        None,
        Some(1_752_126_315_836),
        2,
        4,
        util_95(),
        false,
    );
    assert_eq!(p.fingerprint(), Some(13));
    assert_eq!(p.buckets(), Some(33_694_736_843));
    let n = p.elements().unwrap();
    assert_eq!(n, 128_040_000_003);
    let b = p.buckets().unwrap();
    assert!(n as u128 * 100 <= b as u128 * 4 * 95);
}

#[test]
fn cuckoo_idempotence_from_storage() {
    // The same round trip starting from a storage budget: the re-fed set
    // reproduces fingerprint, achieved error and bucket count.
    let p = cuckoo::Parameters::new(
        Some(Rational::new(99, 100000)),
        None,
        Some(1_752_126_315_836),
        2,
        4,
        util_95(),
        false,
    );
    let q = cuckoo::Parameters::new(None, p.elements(), p.storage(), 2, 4, util_95(), false);
    assert_eq!(q.fingerprint(), p.fingerprint());
    assert_eq!(q.error(), p.error());
    assert_eq!(q.buckets(), p.buckets());
}

#[test]
fn cuckoo_capacity_direction() {
    // Capacity bound on the element-count origin as well.
    let p = cuckoo::Parameters::new(
        Some(Rational::new(1, 100)),
        Some(1000),
        None,
        2,
        4,
        util_95(),
        false,
    );
    let n = p.elements().unwrap();
    let b = p.buckets().unwrap();
    assert!(n as u128 * 100 <= b as u128 * 4 * 95);
    assert_eq!(p.storage(), p.buckets().map(|b| b * 4 * p.fingerprint().unwrap()));
}

#[test]
fn cuckoo_fingerprint_positive() {
    // Even a loose error target of 0.9 yields a fingerprint of at least
    // one bit.
    let p = cuckoo::Parameters::new(Some(Rational::new(9, 10)), Some(100), None, 2, 4, util_95(), false);
    let f = p.fingerprint().unwrap();
    assert_eq!(f, 4);
    assert!(f >= 1);
}

#[test]
fn cuckoo_gate() {
    let e = Rational::new(99, 100000);
    let none = cuckoo::Parameters::new(None, None, None, 2, 4, util_95(), true);
    assert!(none.fingerprint().is_none() && none.buckets().is_none());
    let one = cuckoo::Parameters::new(Some(e), None, None, 2, 4, util_95(), true);
    assert!(one.fingerprint().is_none() && one.buckets().is_none());
    assert_eq!(one.error().unwrap().numerator(), 99);
    let three = cuckoo::Parameters::new(Some(e), Some(1000), Some(9586), 2, 4, util_95(), true);
    assert!(three.fingerprint().is_none() && three.buckets().is_none());
    assert_eq!(three.elements(), Some(1000));
    assert_eq!(three.storage(), Some(9586));
}

#[test]
fn zero_elements_resolve_without_division() {
    // An element count of zero is allowed; quantities whose rules would
    // divide by it stay absent, nothing panics.
    let b = bloom::Parameters::new(Some(Rational::new(1, 100)), Some(0), None, None);
    assert_eq!(b.elements(), Some(0));
    assert_eq!(b.storage(), Some(0));
    assert!(b.hashes().is_none());
    assert_eq!(b.error().unwrap().numerator(), 1);

    let c = cuckoo::Parameters::new(Some(Rational::new(1, 100)), Some(0), None, 2, 4, util_95(), false);
    assert_eq!(c.fingerprint(), Some(10));
    assert_eq!(c.buckets(), Some(0));
    assert_eq!(c.storage(), Some(0));

    let t = theory::Parameters::new(None, Some(0), Some(100));
    assert!(t.bits_per_element().is_none());
    assert!(t.error().is_none());
    assert_eq!(t.elements(), Some(0));
    assert_eq!(t.storage(), Some(100));
}

#[test]
fn out_of_range_storage_stays_absent() {
    // A derivation whose exact value cannot be represented leaves the
    // field absent rather than clamping or wrapping.
    let tiny = Rational::new(1, 1_000_000_000_000_000_000_000_000_000);
    let p = bloom::Parameters::new(Some(tiny), Some(u64::MAX), None, None);
    assert!(p.storage().is_none());
    assert_eq!(p.elements(), Some(u64::MAX));
    assert!(p.hashes().is_none());
    assert_eq!(p.error().unwrap().denominator(), 1_000_000_000_000_000_000_000_000_000);
}

#[test]
fn bits_per_element_reads_storage_over_elements() {
    let p = cuckoo::Parameters::new(
        Some(Rational::new(99, 100000)),
        Some(128_040_000_000),
        None,
        2,
        4,
        util_95(),
        false,
    );
    let bits = p.bits_per_element().unwrap();
    assert_eq!(bits.numerator(), 1_752_126_315_836);
    assert_eq!(bits.denominator(), 128_040_000_000);
}
