//! Input-form state and the text boundary of the solvers: parsing of the
//! operator's unit-suffixed input into plain values, and the pure string
//! formatting the presentation layer reads back. Page rendering itself
//! lives with the presentation shell.

use vstd::prelude::*;

use crate::rational::Rational;

verus! {

/// Raw operator input for all filters.
#[derive(Debug)]
pub struct Params {
    pub error: String,
    pub elements: String,
    pub storage: String,
    pub cuckoo_hashes: u64,
    pub cuckoo_slots: u64,
}

/// An edit to one input field.
pub enum Msg {
    UpdateError(String),
    UpdateElements(String),
    UpdateStorage(String),
    UpdateCuckooHashes(u64),
    UpdateCuckooSlots(u64),
}

/// A Unicode whitespace character (the White_Space set, what trimming a
/// blank field removes).
pub open spec fn is_ws_char(c: char) -> bool {
    let u = c as int;
    ||| u == 0x20
    ||| 0x09 <= u <= 0x0d
    ||| u == 0x85
    ||| u == 0xa0
    ||| u == 0x1680
    ||| 0x2000 <= u <= 0x200a
    ||| u == 0x2028
    ||| u == 0x2029
    ||| u == 0x202f
    ||| u == 0x205f
    ||| u == 0x3000
}

/// Whether a field is blank: empty or whitespace only.
pub fn is_space(s: &str) -> (r: bool)
    ensures
        r == forall|i: int| 0 <= i < s@.len() ==> is_ws_char(s@[i]),
{
    let len = s.unicode_len();
    let mut i: usize = 0;
    while i < len
        invariant
            i <= len,
            len == s@.len(),
            forall|j: int| 0 <= j < i ==> is_ws_char(s@[j]),
        decreases len - i,
    {
        let c = s.get_char(i);
        let u = c as u32;
        let ws = u == 0x20 || (0x09 <= u && u <= 0x0d) || u == 0x85 || u == 0xa0 || u == 0x1680
            || (0x2000 <= u && u <= 0x200a) || u == 0x2028 || u == 0x2029 || u == 0x202f || u
            == 0x205f || u == 0x3000;
        if !ws {
            proof {
                assert(!is_ws_char(s@[i as int]));
            }
            return false;
        }
        i = i + 1;
    }
    true
}

/// The decimal digit for a value below ten.
pub open spec fn digit_char(d: int) -> char {
    if d == 0 {
        '0'
    } else if d == 1 {
        '1'
    } else if d == 2 {
        '2'
    } else if d == 3 {
        '3'
    } else if d == 4 {
        '4'
    } else if d == 5 {
        '5'
    } else if d == 6 {
        '6'
    } else if d == 7 {
        '7'
    } else if d == 8 {
        '8'
    } else {
        '9'
    }
}

/// The decimal digits of a number, most significant first.
pub open spec fn dec_digits(v: int) -> Seq<char>
    decreases v,
{
    if v < 10 {
        seq![digit_char(v)]
    } else {
        dec_digits(v / 10).push(digit_char(v % 10))
    }
}

/// Digits grouped by thousands with comma separators, from the right.
pub open spec fn grouped(s: Seq<char>) -> Seq<char>
    decreases s.len(),
{
    if s.len() <= 3 {
        s
    } else {
        grouped(s.take(s.len() - 3)) + seq![','] + s.skip(s.len() - 3)
    }
}

/// One decimal digit as text.
fn digit_str(d: u64) -> (r: &'static str)
    requires
        d < 10,
    ensures
        r@ =~= seq![digit_char(d as int)],
{
    proof {
        reveal_strlit("0");
        reveal_strlit("1");
        reveal_strlit("2");
        reveal_strlit("3");
        reveal_strlit("4");
        reveal_strlit("5");
        reveal_strlit("6");
        reveal_strlit("7");
        reveal_strlit("8");
        reveal_strlit("9");
    }
    match d {
        0 => "0",
        1 => "1",
        2 => "2",
        3 => "3",
        4 => "4",
        5 => "5",
        6 => "6",
        7 => "7",
        8 => "8",
        _ => "9",
    }
}

/// A number written in decimal.
fn decimal_string(v: u64) -> (r: String)
    ensures
        r@ == dec_digits(v as int),
    decreases v,
{
    if v < 10 {
        let mut s = String::new();
        s.append(digit_str(v));
        proof {
            assert(s@ =~= seq![digit_char(v as int)]);
        }
        s
    } else {
        proof {
            vstd::arithmetic::div_mod::lemma_div_is_strictly_smaller(v as int, 10);
        }
        let mut s = decimal_string(v / 10);
        s.append(digit_str(v % 10));
        proof {
            assert(s@ =~= dec_digits(v as int / 10).push(digit_char(v as int % 10)));
        }
        s
    }
}

/// Thousands grouping of a digit string.
fn group_string(s: &str) -> (r: String)
    requires
        s@.len() >= 1,
    ensures
        r@ == grouped(s@),
    decreases s@.len(),
{
    let len = s.unicode_len();
    if len <= 3 {
        String::from_str(s)
    } else {
        let head = s.substring_char(0, len - 3);
        let tail = s.substring_char(len - 3, len);
        proof {
            assert(head@ =~= s@.take(s@.len() - 3));
            assert(tail@ =~= s@.skip(s@.len() - 3));
            reveal_strlit(",");
        }
        let mut r = group_string(head);
        r.append(",");
        r.append(tail);
        proof {
            assert(r@ =~= grouped(s@.take(s@.len() - 3)) + seq![','] + s@.skip(s@.len() - 3));
        }
        r
    }
}

/// A number written in decimal with thousands separators: `1234567`
/// becomes `1,234,567`.
pub fn sep_1000(v: u64) -> (r: String)
    ensures
        r@ == grouped(dec_digits(v as int)),
{
    let s = decimal_string(v);
    proof {
        if v < 10 {
            assert(dec_digits(v as int).len() == 1);
        } else {
            assert(dec_digits(v as int).len() == dec_digits(v as int / 10).len() + 1);
        }
    }
    group_string(s.as_str())
}

/// A field that was supplied but does not parse. Kept distinct from a
/// blank field, so the two render differently.
#[derive(Clone, Copy, Debug, PartialEq, Eq, Structural)]
pub struct ParseError;

/// A decimal digit.
pub open spec fn is_digit(c: char) -> bool {
    48 <= c as int <= 57
}

/// The first position at or after `i` holding something other than a
/// space.
pub open spec fn skip_spaces_from(s: Seq<char>, i: int) -> int
    decreases s.len() - i,
{
    if 0 <= i < s.len() && s[i] == ' ' {
        skip_spaces_from(s, i + 1)
    } else {
        i
    }
}

/// The first position at or after `i` holding a non-digit.
pub open spec fn digits_end(s: Seq<char>, i: int) -> int
    decreases s.len() - i,
{
    if 0 <= i < s.len() && is_digit(s[i]) {
        digits_end(s, i + 1)
    } else {
        i
    }
}

/// The number written by the digits from `i` up to `j`.
pub open spec fn digits_value(s: Seq<char>, i: int, j: int) -> int
    decreases j - i,
{
    if j <= i {
        0
    } else {
        digits_value(s, i, j - 1) * 10 + (s[j - 1] as int - 48)
    }
}

/// Ten to the `k`'th.
pub open spec fn pow10(k: int) -> int
    decreases k,
{
    if k <= 0 {
        1
    } else {
        10 * pow10(k - 1)
    }
}

/// Scans spaces from `from` on.
fn skip_spaces(s: &str, from: usize) -> (r: usize)
    requires
        from <= s@.len(),
    ensures
        r == skip_spaces_from(s@, from as int),
        from <= r <= s@.len(),
{
    let len = s.unicode_len();
    let mut i = from;
    while i < len
        invariant
            from <= i <= len,
            len == s@.len(),
            skip_spaces_from(s@, from as int) == skip_spaces_from(s@, i as int),
        decreases len - i,
    {
        if s.get_char(i) == ' ' {
            i = i + 1;
        } else {
            return i;
        }
    }
    i
}

/// Scans a digit run from `from` on: where it ends, and its value when
/// that value fits in a `u64`.
fn scan_number(s: &str, from: usize) -> (r: (usize, Option<u64>))
    requires
        from <= s@.len(),
    ensures
        r.0 == digits_end(s@, from as int),
        from <= r.0 <= s@.len(),
        r.1 == if digits_value(s@, from as int, digits_end(s@, from as int)) <= u64::MAX {
            Some(digits_value(s@, from as int, digits_end(s@, from as int)) as u64)
        } else {
            None::<u64>
        },
        digits_value(s@, from as int, digits_end(s@, from as int)) >= 0,
{
    let len = s.unicode_len();
    let mut i = from;
    let mut acc: Option<u64> = Some(0);
    while i < len
        invariant
            from <= i <= len,
            len == s@.len(),
            digits_end(s@, from as int) == digits_end(s@, i as int),
            digits_value(s@, from as int, i as int) >= 0,
            acc == if digits_value(s@, from as int, i as int) <= u64::MAX {
                Some(digits_value(s@, from as int, i as int) as u64)
            } else {
                None::<u64>
            },
        decreases len - i,
    {
        let c = s.get_char(i);
        let code = c as u32;
        if 48 <= code && code <= 57 {
            let d = (code - 48) as u64;
            let ghost old_v = digits_value(s@, from as int, i as int);
            proof {
                assert(digits_value(s@, from as int, i as int + 1) == old_v * 10 + d);
                assert(old_v * 10 >= old_v && old_v * 10 >= 0) by (nonlinear_arith)
                    requires
                        old_v >= 0,
                ;
            }
            acc = match acc {
                Some(a) => match a.checked_mul(10) {
                    Some(t) => t.checked_add(d),
                    None => None,
                },
                None => None,
            };
            i = i + 1;
        } else {
            return (i, acc);
        }
    }
    (i, acc)
}

/// Ten to the `k`'th, when it fits in a `u128`.
fn pow10_u128(k: u64) -> (r: Option<u128>)
    ensures
        r == if pow10(k as int) <= u128::MAX {
            Some(pow10(k as int) as u128)
        } else {
            None::<u128>
        },
        pow10(k as int) >= 1,
{
    proof {
        lemma_pow10_pos(k as int);
    }
    let mut i: u64 = 0;
    let mut acc: u128 = 1;
    while i < k
        invariant
            i <= k,
            acc == pow10(i as int),
        decreases k - i,
    {
        match acc.checked_mul(10) {
            Some(t) => {
                proof {
                    assert(pow10(i as int + 1) == 10 * pow10(i as int));
                }
                acc = t;
                i = i + 1;
            },
            None => {
                proof {
                    lemma_pow10_grows(i as int + 1, k as int);
                    assert(pow10(i as int + 1) == 10 * pow10(i as int));
                }
                return None;
            },
        }
    }
    Some(acc)
}

/// `pow10` does not decrease.
proof fn lemma_pow10_grows(i: int, j: int)
    requires
        0 <= i <= j,
    ensures
        pow10(i) <= pow10(j),
        pow10(i) >= 1,
    decreases j,
{
    if i < j {
        lemma_pow10_grows(i, j - 1);
        assert(pow10(j) == 10 * pow10(j - 1));
    } else {
        lemma_pow10_pos(i);
    }
}

/// `pow10` is positive.
proof fn lemma_pow10_pos(k: int)
    ensures
        pow10(k) >= 1,
    decreases k,
{
    if k > 0 {
        lemma_pow10_pos(k - 1);
    }
}

/// The SI multiplier a count suffix stands for, 0 for any other character.
pub open spec fn si_mult(c: char) -> int {
    if c == 'K' {
        1000
    } else if c == 'M' {
        1000000
    } else if c == 'G' {
        1000000000
    } else if c == 'T' {
        1000000000000
    } else {
        0
    }
}

/// The bits-per-unit multiplier of a binary byte suffix (`KiB` and so on),
/// 0 for any other character.
pub open spec fn bin_mult(c: char) -> int {
    if c == 'K' {
        8 * 1024int
    } else if c == 'M' {
        8 * 1024int * 1024
    } else if c == 'G' {
        8 * 1024int * 1024 * 1024
    } else if c == 'T' {
        8 * 1024int * 1024 * 1024 * 1024
    } else {
        0
    }
}

/// What an element count written as digits with an optional `K`/`M`/`G`/`T`
/// multiplier denotes: `None` for malformed text or a value out of `u64`
/// range.
pub open spec fn parse_elements_spec(s: Seq<char>) -> Option<int> {
    let i = skip_spaces_from(s, 0);
    let j = digits_end(s, i);
    let v = digits_value(s, i, j);
    if j == i || v > u64::MAX {
        None
    } else {
        let k = skip_spaces_from(s, j);
        if k == s.len() {
            Some(v)
        } else if si_mult(s[k]) != 0 && skip_spaces_from(s, k + 1) == s.len() {
            if v * si_mult(s[k]) <= u64::MAX {
                Some(v * si_mult(s[k]))
            } else {
                None
            }
        } else {
            None
        }
    }
}

/// The storage unit starting at `k`: its multiplier in bits and the
/// position after it. `X` and `Xb` are SI bits, `XB` SI bytes, `XiB`
/// binary bytes, for `X` one of `K`, `M`, `G`, `T`.
pub open spec fn storage_suffix(s: Seq<char>, k: int) -> Option<(int, int)> {
    if !(0 <= k < s.len()) || si_mult(s[k]) == 0 {
        None
    } else if k + 1 < s.len() && s[k + 1] == 'i' {
        if k + 2 < s.len() && s[k + 2] == 'B' {
            Some((bin_mult(s[k]), k + 3))
        } else {
            None
        }
    } else if k + 1 < s.len() && s[k + 1] == 'B' {
        Some((8 * si_mult(s[k]), k + 2))
    } else if k + 1 < s.len() && s[k + 1] == 'b' {
        Some((si_mult(s[k]), k + 2))
    } else {
        Some((si_mult(s[k]), k + 1))
    }
}

/// What a storage budget written as digits with an optional unit denotes,
/// in bits: `None` for malformed text or a value out of `u64` range.
pub open spec fn parse_storage_spec(s: Seq<char>) -> Option<int> {
    let i = skip_spaces_from(s, 0);
    let j = digits_end(s, i);
    let v = digits_value(s, i, j);
    if j == i || v > u64::MAX {
        None
    } else {
        let k = skip_spaces_from(s, j);
        if k == s.len() {
            Some(v)
        } else {
            match storage_suffix(s, k) {
                Some(ma) => if skip_spaces_from(s, ma.1) == s.len() {
                    if v * ma.0 <= u64::MAX {
                        Some(v * ma.0)
                    } else {
                        None
                    }
                } else {
                    None
                },
                None => None,
            }
        }
    }
}

/// The tail of an error rate: optional spaces, an optional percent sign,
/// trailing spaces; divides by 100 for the percent sign and demands a
/// rational strictly between 0 and 1.
pub open spec fn error_rate_tail(s: Seq<char>, p: int, num: int, den: int) -> Option<(int, int)> {
    let k = skip_spaces_from(s, p);
    let pct: int = if k < s.len() && s[k] == '%' {
        100
    } else {
        1
    };
    let after: int = if k < s.len() && s[k] == '%' {
        k + 1
    } else {
        k
    };
    if skip_spaces_from(s, after) != s.len() {
        None
    } else {
        let d = den * pct;
        if num > u128::MAX || d > u128::MAX || num < 1 || num >= d {
            None
        } else {
            Some((num, d))
        }
    }
}

/// The optional exponent starting at `p` -- `e` or `E`, an optional sign,
/// digits -- applied to the mantissa `whole + frac / fden`, then the
/// percent-sign tail.
pub open spec fn error_rate_exp(s: Seq<char>, p: int, whole: int, frac: int, fden: int) -> Option<
    (int, int),
> {
    let num0 = whole * fden + frac;
    if num0 > u128::MAX {
        None
    } else if p < s.len() && (s[p] == 'e' || s[p] == 'E') {
        let q: int = if p + 1 < s.len() && (s[p + 1] == '-' || s[p + 1] == '+') {
            p + 2
        } else {
            p + 1
        };
        let j3 = digits_end(s, q);
        let ev = digits_value(s, q, j3);
        if j3 == q || ev > u64::MAX || pow10(ev) > u128::MAX {
            None
        } else if p + 1 < s.len() && s[p + 1] == '-' {
            if fden * pow10(ev) > u128::MAX {
                None
            } else {
                error_rate_tail(s, j3, num0, fden * pow10(ev))
            }
        } else {
            if num0 * pow10(ev) > u128::MAX {
                None
            } else {
                error_rate_tail(s, j3, num0 * pow10(ev), fden)
            }
        }
    } else {
        error_rate_tail(s, p, num0, fden)
    }
}

/// What a false-positive rate denotes, as an exact rational: a decimal
/// such as `0.001` or `.5`, with an optional exponent such as `1e-7` and
/// an optional trailing percent sign such as `1.5%`; `None` for malformed
/// text or a value outside the open interval (0, 1).
pub open spec fn parse_error_spec(s: Seq<char>) -> Option<(int, int)> {
    let i0 = skip_spaces_from(s, 0);
    let i: int = if i0 < s.len() && s[i0] == '+' {
        i0 + 1
    } else {
        i0
    };
    let j = digits_end(s, i);
    let whole = digits_value(s, i, j);
    if whole > u64::MAX {
        None
    } else if j == i && !(j < s.len() && s[j] == '.') {
        None
    } else if j < s.len() && s[j] == '.' {
        let j2 = digits_end(s, j + 1);
        let frac = digits_value(s, j + 1, j2);
        if j == i && j2 == j + 1 {
            None
        } else if frac > u64::MAX || pow10(j2 - j - 1) > u128::MAX {
            None
        } else {
            error_rate_exp(s, j2, whole, frac, pow10(j2 - j - 1))
        }
    } else {
        error_rate_exp(s, j, whole, 0, 1)
    }
}

/// Parses an element count such as `4K` or `128040000000`.
pub fn parse_elements(s: &str) -> (r: Result<u64, ParseError>)
    ensures
        match (r, parse_elements_spec(s@)) {
            (Ok(v), Some(w)) => v == w,
            (Err(_), None) => true,
            _ => false,
        },
{
    let len = s.unicode_len();
    let i = skip_spaces(s, 0);
    let (j, acc) = scan_number(s, i);
    if j == i {
        return Err(ParseError);
    }
    let v = match acc {
        Some(v) => v,
        None => {
            return Err(ParseError);
        },
    };
    let k = skip_spaces(s, j);
    if k == len {
        return Ok(v);
    }
    let c = s.get_char(k);
    let mult: u64 = if c == 'K' {
        1000
    } else if c == 'M' {
        1_000_000
    } else if c == 'G' {
        1_000_000_000
    } else if c == 'T' {
        1_000_000_000_000
    } else {
        return Err(ParseError);
    };
    if skip_spaces(s, k + 1) != len {
        return Err(ParseError);
    }
    match v.checked_mul(mult) {
        Some(out) => Ok(out),
        None => Err(ParseError),
    }
}

/// The storage unit starting at `k`, executably.
fn read_storage_suffix(s: &str, k: usize) -> (r: Option<(u64, usize)>)
    requires
        k < s@.len(),
    ensures
        match (r, storage_suffix(s@, k as int)) {
            (Some(ma), Some(p)) => ma.0 == p.0 && ma.1 == p.1 && ma.1 <= s@.len(),
            (None, None) => true,
            _ => false,
        },
{
    let len = s.unicode_len();
    let c = s.get_char(k);
    let si: u64 = if c == 'K' {
        1000
    } else if c == 'M' {
        1_000_000
    } else if c == 'G' {
        1_000_000_000
    } else if c == 'T' {
        1_000_000_000_000
    } else {
        return None;
    };
    let bin: u64 = if c == 'K' {
        8 * 1024
    } else if c == 'M' {
        8 * 1024 * 1024
    } else if c == 'G' {
        8 * 1024 * 1024 * 1024
    } else {
        8 * 1024 * 1024 * 1024 * 1024
    };
    if k + 1 < len && s.get_char(k + 1) == 'i' {
        if k + 2 < len && s.get_char(k + 2) == 'B' {
            Some((bin, k + 3))
        } else {
            None
        }
    } else if k + 1 < len && s.get_char(k + 1) == 'B' {
        Some((8 * si, k + 2))
    } else if k + 1 < len && s.get_char(k + 1) == 'b' {
        Some((si, k + 2))
    } else {
        Some((si, k + 1))
    }
}

/// Parses a storage budget such as `1KiB`, `12Mb` or `9585058`, into bits.
pub fn parse_storage(s: &str) -> (r: Result<u64, ParseError>)
    ensures
        match (r, parse_storage_spec(s@)) {
            (Ok(v), Some(w)) => v == w,
            (Err(_), None) => true,
            _ => false,
        },
{
    let len = s.unicode_len();
    let i = skip_spaces(s, 0);
    let (j, acc) = scan_number(s, i);
    if j == i {
        return Err(ParseError);
    }
    let v = match acc {
        Some(v) => v,
        None => {
            return Err(ParseError);
        },
    };
    let k = skip_spaces(s, j);
    if k == len {
        return Ok(v);
    }
    let (mult, after) = match read_storage_suffix(s, k) {
        Some(ma) => ma,
        None => {
            return Err(ParseError);
        },
    };
    if skip_spaces(s, after) != len {
        return Err(ParseError);
    }
    match v.checked_mul(mult) {
        Some(out) => Ok(out),
        None => Err(ParseError),
    }
}

/// The percent-sign tail of an error rate, executably.
fn apply_error_tail(s: &str, p: usize, num: u128, den: u128) -> (r: Result<Rational, ParseError>)
    requires
        p <= s@.len(),
        den >= 1,
    ensures
        match (r, error_rate_tail(s@, p as int, num as int, den as int)) {
            (Ok(q), Some(v)) => q@ == v && q.wf() && 1 <= v.0 < v.1,
            (Err(_), None) => true,
            _ => false,
        },
{
    let len = s.unicode_len();
    let k = skip_spaces(s, p);
    let pct = k < len && s.get_char(k) == '%';
    let after = if pct {
        k + 1
    } else {
        k
    };
    if skip_spaces(s, after) != len {
        return Err(ParseError);
    }
    let d = if pct {
        match den.checked_mul(100) {
            Some(v) => v,
            None => {
                return Err(ParseError);
            },
        }
    } else {
        den
    };
    if num < 1 || num >= d {
        return Err(ParseError);
    }
    Ok(Rational::new(num, d))
}

/// The optional exponent of an error rate, executably.
fn apply_error_exp(s: &str, p: usize, whole: u64, frac: u64, fden: u128) -> (r: Result<
    Rational,
    ParseError,
>)
    requires
        p <= s@.len(),
        fden >= 1,
    ensures
        match (r, error_rate_exp(s@, p as int, whole as int, frac as int, fden as int)) {
            (Ok(q), Some(v)) => q@ == v && q.wf() && 1 <= v.0 < v.1,
            (Err(_), None) => true,
            _ => false,
        },
{
    let len = s.unicode_len();
    let num0 = match (whole as u128).checked_mul(fden) {
        Some(t) => match t.checked_add(frac as u128) {
            Some(n) => n,
            None => {
                return Err(ParseError);
            },
        },
        None => {
            return Err(ParseError);
        },
    };
    if p < len && (s.get_char(p) == 'e' || s.get_char(p) == 'E') {
        let neg = p + 1 < len && s.get_char(p + 1) == '-';
        let q = if p + 1 < len && (s.get_char(p + 1) == '-' || s.get_char(p + 1) == '+') {
            p + 2
        } else {
            p + 1
        };
        let (j3, acc3) = scan_number(s, q);
        if j3 == q {
            return Err(ParseError);
        }
        let ev = match acc3 {
            Some(v) => v,
            None => {
                return Err(ParseError);
            },
        };
        let pe = match pow10_u128(ev) {
            Some(v) => v,
            None => {
                return Err(ParseError);
            },
        };
        if neg {
            let d = match fden.checked_mul(pe) {
                Some(v) => v,
                None => {
                    return Err(ParseError);
                },
            };
            proof {
                vstd::arithmetic::mul::lemma_mul_strictly_positive(fden as int, pe as int);
            }
            apply_error_tail(s, j3, num0, d)
        } else {
            let n = match num0.checked_mul(pe) {
                Some(v) => v,
                None => {
                    return Err(ParseError);
                },
            };
            apply_error_tail(s, j3, n, fden)
        }
    } else {
        apply_error_tail(s, p, num0, fden)
    }
}

/// Parses a false-positive rate such as `0.001`, `.5`, `1e-7` or `1.5%`
/// into an exact rational strictly between 0 and 1.
pub fn parse_error(s: &str) -> (r: Result<Rational, ParseError>)
    ensures
        match (r, parse_error_spec(s@)) {
            (Ok(q), Some(p)) => q@ == p && q.wf() && 1 <= p.0 < p.1,
            (Err(_), None) => true,
            _ => false,
        },
{
    let len = s.unicode_len();
    let i0 = skip_spaces(s, 0);
    let i = if i0 < len && s.get_char(i0) == '+' {
        i0 + 1
    } else {
        i0
    };
    let (j, acc) = scan_number(s, i);
    let whole = match acc {
        Some(v) => v,
        None => {
            return Err(ParseError);
        },
    };
    let has_dot = j < len && s.get_char(j) == '.';
    if j == i && !has_dot {
        return Err(ParseError);
    }
    if has_dot {
        let (j2, acc2) = scan_number(s, j + 1);
        if j == i && j2 == j + 1 {
            return Err(ParseError);
        }
        let frac = match acc2 {
            Some(v) => v,
            None => {
                return Err(ParseError);
            },
        };
        let fden = match pow10_u128((j2 - (j + 1)) as u64) {
            Some(v) => v,
            None => {
                return Err(ParseError);
            },
        };
        apply_error_exp(s, j2, whole, frac, fden)
    } else {
        apply_error_exp(s, j, whole, 0, 1)
    }
}

/// How a parsed field counts toward the constraint gate: 1 when a value
/// was supplied and parsed, 0 when blank or malformed.
pub fn count_some<T, E>(v: Result<Option<T>, E>) -> (r: u32)
    ensures
        r == if v matches Ok(Some(_)) {
            1int
        } else {
            0int
        },
{
    match v {
        Ok(Some(_)) => 1,
        _ => 0,
    }
}

} // verus!
