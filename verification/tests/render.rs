use probset::render::count_some;
use probset::render::is_space;
use probset::render::parse_elements;
use probset::render::parse_error;
use probset::render::parse_storage;
use probset::render::sep_1000;
use probset::render::Msg;
use probset::render::Params;

#[test]
fn sep_1000_groups_from_the_right() {
    assert_eq!(sep_1000(0), "0");
    assert_eq!(sep_1000(7), "7");
    assert_eq!(sep_1000(123), "123");
    assert_eq!(sep_1000(1000), "1,000");
    assert_eq!(sep_1000(1234567), "1,234,567");
    assert_eq!(sep_1000(9585058), "9,585,058");
    assert_eq!(sep_1000(u64::MAX), "18,446,744,073,709,551,615");
}

#[test]
fn is_space_detects_blank_fields() {
    assert!(is_space(""));
    assert!(is_space("   "));
    assert!(is_space(" \t\r\n"));
    // The full Unicode whitespace set counts as blank, as trimming does.
    assert!(is_space("\u{000B}\u{000C}\u{0085}\u{00A0}\u{2003}\u{202F}\u{3000}"));
    assert_eq!(is_space("\u{000B}"), "\u{000B}".trim().is_empty());
    assert!(!is_space(" 4K "));
    assert!(!is_space("x"));
}

#[test]
fn count_some_counts_supplied_fields() {
    let supplied: Result<Option<u64>, ()> = Ok(Some(42));
    let blank: Result<Option<u64>, ()> = Ok(None);
    let malformed: Result<Option<u64>, ()> = Err(());
    assert_eq!(count_some(supplied), 1);
    assert_eq!(count_some(blank), 0);
    assert_eq!(count_some(malformed), 0);
}

#[test]
fn parse_elements_with_si_multipliers() {
    assert_eq!(parse_elements("123"), Ok(123));
    assert_eq!(parse_elements("4K"), Ok(4_000));
    assert_eq!(parse_elements(" 12 M "), Ok(12_000_000));
    assert_eq!(parse_elements("3G"), Ok(3_000_000_000));
    assert_eq!(parse_elements("2T"), Ok(2_000_000_000_000));
    assert_eq!(parse_elements("18446744073709551615"), Ok(u64::MAX));
    assert!(parse_elements("").is_err());
    assert!(parse_elements("4k").is_err());
    assert!(parse_elements("4K5").is_err());
    assert!(parse_elements("K").is_err());
    // Exceeds u64 both before and after the multiplier.
    assert!(parse_elements("20000000000000000000").is_err());
    assert!(parse_elements("18446744073709551615K").is_err());
}

#[test]
fn parse_storage_units() {
    assert_eq!(parse_storage("5"), Ok(5));
    assert_eq!(parse_storage("1K"), Ok(1_000));
    assert_eq!(parse_storage("1Kb"), Ok(1_000));
    assert_eq!(parse_storage("1KB"), Ok(8_000));
    assert_eq!(parse_storage("1KiB"), Ok(8_192));
    assert_eq!(parse_storage("2MiB"), Ok(2 * 8 * 1024 * 1024));
    assert_eq!(parse_storage(" 1 GiB "), Ok(8 * 1024 * 1024 * 1024));
    assert_eq!(parse_storage("1TiB"), Ok(8 * 1024 * 1024 * 1024 * 1024));
    assert_eq!(parse_storage("3TB"), Ok(24_000_000_000_000));
    assert!(parse_storage("1Ki").is_err());
    assert!(parse_storage("1XiB").is_err());
    assert!(parse_storage("1KiBB").is_err());
    assert!(parse_storage("").is_err());
}

#[test]
fn parse_error_rates() {
    let q = parse_error("0.001").unwrap();
    assert_eq!((q.numerator(), q.denominator()), (1, 1000));
    let q = parse_error("0.0000001").unwrap();
    assert_eq!((q.numerator(), q.denominator()), (1, 10_000_000));
    let q = parse_error("1.5%").unwrap();
    assert_eq!((q.numerator(), q.denominator()), (15, 1000));
    let q = parse_error("50%").unwrap();
    assert_eq!((q.numerator(), q.denominator()), (50, 100));
    let q = parse_error("0.1 %").unwrap();
    assert_eq!((q.numerator(), q.denominator()), (1, 1000));
    // Exponent notation, leading-dot forms and a leading plus sign.
    let q = parse_error("1e-7").unwrap();
    assert_eq!((q.numerator(), q.denominator()), (1, 10_000_000));
    let q = parse_error(".5").unwrap();
    assert_eq!((q.numerator(), q.denominator()), (5, 10));
    let q = parse_error("1.5e-3").unwrap();
    assert_eq!((q.numerator(), q.denominator()), (15, 10_000));
    let q = parse_error("2E-2").unwrap();
    assert_eq!((q.numerator(), q.denominator()), (2, 100));
    let q = parse_error("+0.25").unwrap();
    assert_eq!((q.numerator(), q.denominator()), (25, 100));
    let q = parse_error("5e-1 %").unwrap();
    assert_eq!((q.numerator(), q.denominator()), (5, 1_000));
    let q = parse_error("1.e-1").unwrap();
    assert_eq!((q.numerator(), q.denominator()), (1, 10));
    assert!(parse_error("1e7").is_err());
    assert!(parse_error("1e").is_err());
    assert!(parse_error("1e+").is_err());
    assert!(parse_error(".").is_err());
    assert!(parse_error("e5").is_err());
    // Below the resolution an exact 128-bit rational can hold.
    assert!(parse_error("1e-400").is_err());
    // Outside (0, 1), or malformed: rejected.
    assert!(parse_error("0").is_err());
    assert!(parse_error("1").is_err());
    assert!(parse_error("1.0").is_err());
    assert!(parse_error("150%").is_err());
    assert!(parse_error("100%").is_err());
    assert!(parse_error("0.0").is_err());
    assert!(parse_error("abc").is_err());
    assert!(parse_error("0..1").is_err());
    assert!(parse_error("0.").is_err());
}

#[test]
fn params_holds_raw_input() {
    let mut params = Params {
        error: "0.0000001".to_string(),
        elements: "4K".to_string(),
        storage: "".to_string(),
        cuckoo_hashes: 2,
        cuckoo_slots: 4,
    };
    let msg = Msg::UpdateStorage("1MiB".to_string());
    match msg {
        Msg::UpdateStorage(s) => params.storage = s,
        Msg::UpdateError(s) => params.error = s,
        Msg::UpdateElements(s) => params.elements = s,
        Msg::UpdateCuckooHashes(n) => params.cuckoo_hashes = n,
        Msg::UpdateCuckooSlots(n) => params.cuckoo_slots = n,
    }
    assert_eq!(params.storage, "1MiB");
    assert_eq!(params.cuckoo_hashes, 2);
}
