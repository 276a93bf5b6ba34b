//! Reading unsigned decimal numbers typed into the menu fields, as `str::parse`
//! reads them: an optional `+`, then one or more ASCII digits, the value in range.

use vstd::prelude::*;
use vstd::string::StrSliceExecFns;

verus! {

/// The digits of a number: what follows an optional leading `+`.
pub open spec fn digits_of(s: Seq<char>) -> Seq<char> {
    if s.len() > 0 && s[0] == '+' {
        s.drop_first()
    } else {
        s
    }
}

/// An ASCII decimal digit.
pub open spec fn is_digit(c: char) -> bool {
    '0' <= c && c <= '9'
}

/// Every character is an ASCII decimal digit.
pub open spec fn all_digits(d: Seq<char>) -> bool {
    forall|i: int| 0 <= i < d.len() ==> is_digit(#[trigger] d[i])
}

/// The character of the decimal digit `d`.
pub open spec fn digit_of(d: int) -> char {
    if d == 0 {
        '0'
    } else if d == 1 {
        '1'
    } else if d == 2 {
        '2'
    } else if d == 3 {
        '3'
    } else if d == 4 {
        '4'
    } else if d == 5 {
        '5'
    } else if d == 6 {
        '6'
    } else if d == 7 {
        '7'
    } else if d == 8 {
        '8'
    } else {
        '9'
    }
}

/// The decimal digits of `n`, without leading zeros (`0` for zero).
pub open spec fn dec_text(n: nat) -> Seq<char>
    decreases n,
{
    if n < 10 {
        seq![digit_of(n as int)]
    } else {
        dec_text(n / 10).push(digit_of(n as int % 10))
    }
}

/// A number printed in decimal reads back as the same number, and parses
/// as itself wherever it is in range.
pub proof fn law_decimal_roundtrip(n: nat, max: nat)
    ensures
        dec_text(n).len() >= 1,
        all_digits(dec_text(n)),
        dec_value(dec_text(n)) == n,
        n <= max ==> parse_unsigned(dec_text(n), max) == Some(n),
        n > max ==> parse_unsigned(dec_text(n), max) is None,
{
    lemma_decimal_value(n);
    assert(dec_text(n)[0] != '+');
}

proof fn lemma_decimal_value(n: nat)
    ensures
        dec_text(n).len() >= 1,
        all_digits(dec_text(n)),
        dec_value(dec_text(n)) == n,
    decreases n,
{
    lemma_digit_value(n as int % 10);
    if n >= 10 {
        lemma_decimal_value(n / 10);
        let d = dec_text(n);
        assert(d.drop_last() == dec_text(n / 10));
        assert(d.last() == digit_of(n as int % 10));
        assert(forall|i: int| 0 <= i < d.len() - 1 ==> d[i] == dec_text(n / 10)[i]);
        assert(dec_value(d) == dec_value(d.drop_last()) * 10 + (d.last() as nat - '0' as nat) as nat);
        assert(dec_value(d.drop_last()) == n / 10);
        assert((d.last() as nat - '0' as nat) as nat == n % 10);
        assert((n / 10) * 10 + n % 10 == n);
    } else {
        let d = dec_text(n);
        assert(d.drop_last() =~= Seq::<char>::empty());
        assert(dec_value(d.drop_last()) == 0);
        assert(d.last() == digit_of(n as int));
        assert(dec_value(d) == dec_value(d.drop_last()) * 10 + (d.last() as nat - '0' as nat) as nat);
    }
}

proof fn lemma_digit_value(k: int)
    requires
        0 <= k < 10,
    ensures
        is_digit(digit_of(k)),
        digit_of(k) as int - '0' as int == k,
{
}

/// Ten to the power `k`.
pub open spec fn pow10(k: nat) -> nat
    decreases k,
{
    if k == 0 {
        1
    } else {
        10 * pow10((k - 1) as nat)
    }
}

proof fn lemma_dec_value_below(d: Seq<char>)
    requires
        all_digits(d),
    ensures
        dec_value(d) < pow10(d.len()),
    decreases d.len(),
{
    if d.len() > 0 {
        lemma_dec_value_below(d.drop_last());
        assert(is_digit(d[d.len() - 1]));
        let v = dec_value(d.drop_last());
        let p = pow10(d.drop_last().len());
        assert(v * 10 + 9 < p * 10) by (nonlinear_arith)
            requires
                v < p,
        ;
    }
}

/// Ten decimal digits, such as a proposed map seed, always read as a
/// `u64`.
pub proof fn law_ten_digits_read_as_u64(d: Seq<char>)
    requires
        d.len() == 10,
        all_digits(d),
    ensures
        parse_unsigned(d, u64::MAX as nat) == Some(dec_value(d)),
{
    lemma_dec_value_below(d);
    reveal_with_fuel(pow10, 11);
    assert(pow10(10) == 10000000000);
    assert(d[0] != '+') by {
        assert(is_digit(d[0]));
    }
}

/// The character of the decimal digit `d`.
pub fn digit_char(d: u8) -> (r: char)
    requires
        d <= 9,
    ensures
        r == digit_of(d as int),
        is_digit(r),
{
    if d == 0 {
        '0'
    } else if d == 1 {
        '1'
    } else if d == 2 {
        '2'
    } else if d == 3 {
        '3'
    } else if d == 4 {
        '4'
    } else if d == 5 {
        '5'
    } else if d == 6 {
        '6'
    } else if d == 7 {
        '7'
    } else if d == 8 {
        '8'
    } else {
        '9'
    }
}

/// The value of a string of decimal digits.
pub open spec fn dec_value(d: Seq<char>) -> nat
    decreases d.len(),
{
    if d.len() == 0 {
        0
    } else {
        dec_value(d.drop_last()) * 10 + (d.last() as nat - '0' as nat) as nat
    }
}

/// The number that `s` spells, when it spells one no larger than `max`.
pub open spec fn parse_unsigned(s: Seq<char>, max: nat) -> Option<nat> {
    let d = digits_of(s);
    if d.len() > 0 && all_digits(d) && dec_value(d) <= max {
        Some(dec_value(d))
    } else {
        None
    }
}

proof fn lemma_dec_value_grows(d: Seq<char>, k: int)
    requires
        all_digits(d),
        0 <= k <= d.len(),
    ensures
        dec_value(d.take(k)) <= dec_value(d),
    decreases d.len() - k,
{
    if k < d.len() {
        lemma_dec_value_grows(d, k + 1);
        assert(d.take(k + 1).drop_last() =~= d.take(k));
        assert(is_digit(d[k]));
    } else {
        assert(d.take(k) =~= d);
    }
}

/// Reads `s` as an unsigned decimal number no larger than `max`.
fn parse_unsigned_exec(s: &str, max: u64) -> (r: Option<u64>)
    requires
        max >= 9,
    ensures
        r == match parse_unsigned(s@, max as nat) {
            Some(v) => Some(v as u64),
            None => None::<u64>,
        },
{
    let n = s.unicode_len();
    let mut i: usize = 0;
    if n > 0 && s.get_char(0) == '+' {
        i = 1;
    }
    let ghost d = digits_of(s@);
    let ghost first = i as int;
    assert(d =~= s@.subrange(first, n as int));
    if i == n {
        return None;
    }
    let mut value: u64 = 0;
    let mut over = false;
    while i < n
        invariant
            n == s@.len(),
            d == s@.subrange(first, n as int),
            d == digits_of(s@),
            0 <= first <= i <= n,
            all_digits(d.take(i - first)),
            !over ==> value == dec_value(d.take(i - first)) && value <= max,
            max >= 9,
            over ==> dec_value(d.take(i - first)) > max,
        decreases n - i,
    {
        let c = s.get_char(i);
        assert(c == d[i - first]);
        if !('0' <= c && c <= '9') {
            proof {
                assert(!is_digit(d[i - first]));
                assert(!all_digits(d));
                assert(parse_unsigned(s@, max as nat) is None);
            }
            return None;
        }
        let ghost t = d.take(i + 1 - first);
        assert(t.drop_last() =~= d.take(i - first));
        assert(t.last() == c);
        let digit = (c as u32 - '0' as u32) as u64;
        if !over {
            if value > (max - digit) / 10 {
                over = true;
                assert(dec_value(t) > max) by (nonlinear_arith)
                    requires
                        dec_value(t) == value * 10 + digit,
                        value > (max - digit) / 10,
                        digit <= max || value * 10 + digit > max,
                ;
            } else {
                assert(value * 10 + digit <= max) by (nonlinear_arith)
                    requires
                        value <= (max - digit) / 10,
                        digit <= max,
                ;
                value = value * 10 + digit;
            }
        } else {
            assert(dec_value(t) > max) by (nonlinear_arith)
                requires
                    dec_value(t) == dec_value(d.take(i - first)) * 10 + digit,
                    dec_value(d.take(i - first)) > max,
            ;
        }
        i = i + 1;
    }
    assert(d.take(n - first) =~= d);
    if over {
        None
    } else {
        Some(value)
    }
}

/// `str::parse::<u64>`.
pub fn parse_u64(s: &str) -> (r: Option<u64>)
    ensures
        r == match parse_unsigned(s@, u64::MAX as nat) {
            Some(v) => Some(v as u64),
            None => None::<u64>,
        },
{
    parse_unsigned_exec(s, u64::MAX)
}

/// `str::parse::<u16>`.
pub fn parse_u16(s: &str) -> (r: Option<u16>)
    ensures
        r == match parse_unsigned(s@, u16::MAX as nat) {
            Some(v) => Some(v as u16),
            None => None::<u16>,
        },
{
    match parse_unsigned_exec(s, u16::MAX as u64) {
        Some(v) => Some(v as u16),
        None => None,
    }
}

/// `str::parse::<u8>`.
pub fn parse_u8(s: &str) -> (r: Option<u8>)
    ensures
        r == match parse_unsigned(s@, u8::MAX as nat) {
            Some(v) => Some(v as u8),
            None => None::<u8>,
        },
{
    match parse_unsigned_exec(s, u8::MAX as u64) {
        Some(v) => Some(v as u8),
        None => None,
    }
}

} // verus!
