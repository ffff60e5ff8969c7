//! Decimal numerals: specifications for strings of ASCII digits, a verified
//! parser for unsigned integers, and a verified formatter that emits the
//! canonical (no leading zero) numeral of a value.

use vstd::prelude::*;
use vstd::string::*;

verus! {

/// An ASCII decimal digit.
pub open spec fn is_digit(c: char) -> bool {
    '0' <= c && c <= '9'
}

/// The numeric value of one digit character.
pub open spec fn digit_val(c: char) -> nat {
    (c as int - '0' as int) as nat
}

/// A non-empty string made of digits only.
pub open spec fn is_digits(s: Seq<char>) -> bool {
    s.len() > 0 && forall|k: int| 0 <= k < s.len() ==> is_digit(#[trigger] s[k])
}

/// The value of a digit string, most significant digit first.
pub open spec fn digits_value(s: Seq<char>) -> nat
    decreases s.len(),
{
    if s.len() == 0 {
        0
    } else {
        digits_value(s.drop_last()) * 10 + digit_val(s.last())
    }
}

/// The digit character of a value below ten.
pub open spec fn digit_char(d: nat) -> char
    recommends
        d < 10,
{
    if d == 0 { '0' }
    else if d == 1 { '1' }
    else if d == 2 { '2' }
    else if d == 3 { '3' }
    else if d == 4 { '4' }
    else if d == 5 { '5' }
    else if d == 6 { '6' }
    else if d == 7 { '7' }
    else if d == 8 { '8' }
    else { '9' }
}

/// The canonical decimal numeral of a value: no leading zero, and the
/// single digit `0` for zero.
pub open spec fn decimal_of(n: nat) -> Seq<char>
    decreases n,
{
    if n < 10 {
        seq![digit_char(n)]
    } else {
        decimal_of(n / 10).push(digit_char(n % 10))
    }
}

/// Ten to the given power.
pub open spec fn spec_pow10(e: nat) -> nat
    decreases e,
{
    if e == 0 {
        1
    } else {
        10 * spec_pow10((e - 1) as nat)
    }
}

pub proof fn lemma_pow10_monotone(a: nat, b: nat)
    requires
        a <= b,
    ensures
        spec_pow10(a) <= spec_pow10(b),
        spec_pow10(a) >= 1,
    decreases b,
{
    if b == 0 {
    } else if a == b {
        lemma_pow10_monotone((a - 1) as nat, (b - 1) as nat);
    } else {
        lemma_pow10_monotone(a, (b - 1) as nat);
    }
}

/// Powers of ten multiply by adding exponents.
pub proof fn lemma_pow10_add(a: nat, b: nat)
    ensures
        spec_pow10(a + b) == spec_pow10(a) * spec_pow10(b),
    decreases a,
{
    if a == 0 {
        assert(spec_pow10(b) == 1 * spec_pow10(b));
    } else {
        lemma_pow10_add((a - 1) as nat, b);
        assert(spec_pow10(a + b) == 10 * spec_pow10((a - 1) as nat + b));
        assert(10 * (spec_pow10((a - 1) as nat) * spec_pow10(b)) == (10 * spec_pow10(
            (a - 1) as nat,
        )) * spec_pow10(b)) by (nonlinear_arith);
    }
}

/// Appending digit strings: the left part is shifted by the length of the
/// right part.
pub proof fn lemma_digits_value_append(a: Seq<char>, b: Seq<char>)
    ensures
        digits_value(a + b) == digits_value(a) * spec_pow10(b.len()) + digits_value(b),
    decreases b.len(),
{
    if b.len() == 0 {
        assert(a + b =~= a);
        assert(spec_pow10(b.len()) == 1);
        assert(digits_value(b) == 0);
        assert(digits_value(a + b) == digits_value(a) * spec_pow10(b.len()) + digits_value(b));
    } else {
        lemma_digits_value_append(a, b.drop_last());
        assert((a + b).drop_last() =~= a + b.drop_last());
        assert((a + b).last() == b.last());
        assert((a + b).len() == a.len() + b.len());
        assert(digits_value(a + b) == digits_value((a + b).drop_last()) * 10 + digit_val(
            (a + b).last(),
        ));
        assert(digits_value(a + b) == (digits_value(a) * spec_pow10((b.len() - 1) as nat)
            + digits_value(b.drop_last())) * 10 + digit_val(b.last()));
        assert(digits_value(b) == digits_value(b.drop_last()) * 10 + digit_val(b.last()));
        assert((digits_value(a) * spec_pow10((b.len() - 1) as nat) + digits_value(b.drop_last()))
            * 10 == digits_value(a) * spec_pow10(b.len()) + digits_value(b.drop_last()) * 10)
            by (nonlinear_arith)
            requires
                spec_pow10(b.len()) == 10 * spec_pow10((b.len() - 1) as nat),
        ;
    }
}

/// A digit string of length `k` has value below ten to the `k`.
pub proof fn lemma_digits_value_bound(s: Seq<char>)
    requires
        forall|k: int| 0 <= k < s.len() ==> is_digit(#[trigger] s[k]),
    ensures
        digits_value(s) < spec_pow10(s.len()),
    decreases s.len(),
{
    if s.len() == 0 {
    } else {
        lemma_digits_value_bound(s.drop_last());
        assert(digit_val(s.last()) <= 9);
        assert(digits_value(s.drop_last()) * 10 + 9 < spec_pow10(s.len())) by (nonlinear_arith)
            requires
                digits_value(s.drop_last()) < spec_pow10((s.len() - 1) as nat),
                spec_pow10(s.len()) == 10 * spec_pow10((s.len() - 1) as nat),
        ;
    }
}

/// Parse a non-empty all-digit string as an unsigned integer. Returns
/// `None` exactly when the string is not such a numeral or its value does
/// not fit in a `u64`.
pub fn parse_u64(s: &str) -> (r: Option<u64>)
    ensures
        r is Some <==> is_digits(s@) && digits_value(s@) <= u64::MAX,
        r is Some ==> r->0 == digits_value(s@),
{
    let n = s.unicode_len();
    if n == 0 {
        return None;
    }
    let mut acc: u64 = 0;
    let mut i: usize = 0;
    while i < n
        invariant
            0 <= i <= n,
            n == s@.len(),
            forall|k: int| 0 <= k < i ==> is_digit(#[trigger] s@[k]),
            acc == digits_value(s@.take(i as int)),
        decreases n - i,
    {
        let c = s.get_char(i);
        if !('0' <= c && c <= '9') {
            assert(!is_digit(s@[i as int]));
            return None;
        }
        let d: u64 = (c as u32 - '0' as u32) as u64;
        assert(d == digit_val(s@[i as int]));
        if acc > (u64::MAX - d) / 10 {
            proof {
                lemma_value_too_large(s@, i as int, acc as nat, d as nat);
            }
            return None;
        }
        proof {
            assert(acc * 10 + d <= u64::MAX) by (nonlinear_arith)
                requires
                    acc <= (u64::MAX - d) / 10,
                    d <= 9,
            ;
            assert(s@.take(i + 1).drop_last() =~= s@.take(i as int));
            assert(s@.take(i + 1).last() == s@[i as int]);
        }
        acc = acc * 10 + d;
        i = i + 1;
    }
    proof {
        assert(s@.take(n as int) =~= s@);
    }
    Some(acc)
}

/// If a digit prefix already exceeds the `u64` range once extended by one
/// digit, then the whole string is either not a numeral or too large.
proof fn lemma_value_too_large(s: Seq<char>, i: int, acc: nat, d: nat)
    requires
        0 <= i < s.len(),
        forall|k: int| 0 <= k <= i ==> is_digit(#[trigger] s[k]),
        acc == digits_value(s.take(i)),
        d == digit_val(s[i]),
        acc > (u64::MAX - d) / 10,
    ensures
        is_digits(s) ==> digits_value(s) > u64::MAX,
{
    if is_digits(s) {
        assert(acc * 10 + d > u64::MAX) by (nonlinear_arith)
            requires
                acc > (u64::MAX - d) / 10,
                d <= 9,
        ;
        assert(s.take(i + 1).drop_last() =~= s.take(i));
        assert(s.take(i + 1).last() == s[i]);
        assert(digits_value(s.take(i + 1)) == acc * 10 + d);
        lemma_digits_value_append(s.take(i + 1), s.skip(i + 1));
        assert(s.take(i + 1) + s.skip(i + 1) =~= s);
        lemma_pow10_monotone(0, s.skip(i + 1).len());
        assert(digits_value(s) >= digits_value(s.take(i + 1)) * spec_pow10(s.skip(i + 1).len()))
            by (nonlinear_arith)
            requires
                digits_value(s) == digits_value(s.take(i + 1)) * spec_pow10(s.skip(i + 1).len())
                    + digits_value(s.skip(i + 1)),
        ;
        assert(digits_value(s.take(i + 1)) * spec_pow10(s.skip(i + 1).len()) >= digits_value(
            s.take(i + 1),
        ) * 1) by (nonlinear_arith)
            requires
                spec_pow10(s.skip(i + 1).len()) >= 1,
        ;
    }
}

/// Law: formatting then reading a value is the identity — the canonical
/// numeral of `n` is a digit string whose value is `n`.
pub proof fn lemma_decimal_of_value(n: nat)
    ensures
        is_digits(decimal_of(n)),
        digits_value(decimal_of(n)) == n,
    decreases n,
{
    if n < 10 {
        lemma_digit_char_val(n);
        let d = decimal_of(n);
        assert(d == seq![digit_char(n)]);
        assert(d.drop_last() =~= Seq::<char>::empty());
        assert(d.last() == digit_char(n));
        assert(digits_value(d) == digits_value(d.drop_last()) * 10 + digit_val(d.last()));
        assert(digits_value(d.drop_last()) == 0);
    } else {
        lemma_digit_char_val(n % 10);
        lemma_decimal_of_value(n / 10);
        let d = decimal_of(n);
        assert(d.drop_last() =~= decimal_of(n / 10));
        assert(d.last() == digit_char(n % 10));
        assert(digits_value(d) == (n / 10) * 10 + n % 10);
    }
}

/// A string of digits cannot contain a non-digit character.
pub proof fn lemma_digits_not_contains(s: Seq<char>, x: char)
    requires
        forall|k: int| 0 <= k < s.len() ==> is_digit(#[trigger] s[k]),
        !is_digit(x),
    ensures
        !s.contains(x),
{
    if s.contains(x) {
        let w = choose|w: int| 0 <= w < s.len() && s[w] == x;
        assert(is_digit(s[w]));
    }
}

/// The digit character of a value is a digit with that value.
pub proof fn lemma_digit_char_val(d: nat)
    requires
        d < 10,
    ensures
        is_digit(digit_char(d)),
        digit_val(digit_char(d)) == d,
{
}

/// A numeral whose value fits a 32-bit genomic coordinate.
pub open spec fn is_u32_numeral(s: Seq<char>) -> bool {
    is_digits(s) && digits_value(s) <= u32::MAX
}

/// A numeral whose value fits a 16-bit read count.
pub open spec fn is_u16_numeral(s: Seq<char>) -> bool {
    is_digits(s) && digits_value(s) <= u16::MAX
}

/// Parse a 32-bit coordinate; `None` exactly on a malformed or too large
/// numeral.
pub fn parse_u32(s: &str) -> (r: Option<u32>)
    ensures
        r is Some <==> is_u32_numeral(s@),
        r is Some ==> r->0 == digits_value(s@),
{
    match parse_u64(s) {
        None => None,
        Some(v) => if v <= u32::MAX as u64 {
            Some(v as u32)
        } else {
            None
        },
    }
}

/// Parse a 16-bit read count; `None` exactly on a malformed or too large
/// numeral.
pub fn parse_u16(s: &str) -> (r: Option<u16>)
    ensures
        r is Some <==> is_u16_numeral(s@),
        r is Some ==> r->0 == digits_value(s@),
{
    match parse_u64(s) {
        None => None,
        Some(v) => if v <= u16::MAX as u64 {
            Some(v as u16)
        } else {
            None
        },
    }
}

/// One digit as a string slice.
pub(crate) fn digit_str(d: u64) -> (s: &'static str)
    requires
        d < 10,
    ensures
        s@ =~= seq![digit_char(d as nat)],
{
    proof {
        reveal_strlit("0123456789");
    }
    let digits = "0123456789";
    let s = digits.substring_ascii(d as usize, (d + 1) as usize);
    proof {
        assert(s@ =~= seq![digit_char(d as nat)]);
    }
    s
}

/// Append the canonical numeral of `n` to `out`.
pub fn push_decimal(n: u64, out: &mut String)
    ensures
        final(out)@ == old(out)@ + decimal_of(n as nat),
    decreases n,
{
    if n >= 10 {
        push_decimal(n / 10, out);
        let s = digit_str(n % 10);
        out.append(s);
        assert(final(out)@ =~= old(out)@ + decimal_of(n as nat));
    } else {
        let s = digit_str(n);
        out.append(s);
        assert(final(out)@ =~= old(out)@ + decimal_of(n as nat));
    }
}

/// The canonical numeral of `n` as a fresh string.
pub fn u64_to_string(n: u64) -> (s: String)
    ensures
        s@ == decimal_of(n as nat),
{
    let mut s = String::new();
    push_decimal(n, &mut s);
    proof {
        assert(s@ =~= decimal_of(n as nat));
    }
    s
}

/// Ten to the given power, as a machine integer.
pub fn pow10(e: u32) -> (r: u64)
    requires
        e <= 17,
    ensures
        r == spec_pow10(e as nat),
{
    let mut r: u64 = 1;
    let mut i: u32 = 0;
    while i < e
        invariant
            0 <= i <= e,
            e <= 17,
            r == spec_pow10(i as nat),
        decreases e - i,
    {
        proof {
            lemma_pow10_monotone((i + 1) as nat, 17);
            lemma_pow10_17_value();
        }
        r = r * 10;
        i = i + 1;
    }
    r
}

/// The concrete value of ten to the seventeenth.
pub proof fn lemma_pow10_17_value()
    ensures
        spec_pow10(17) == 100_000_000_000_000_000,
{
    reveal_with_fuel(spec_pow10, 18);
}

/// Concrete values of the powers of ten the converters use.
pub proof fn lemma_pow10_values()
    ensures
        spec_pow10(0) == 1,
        spec_pow10(1) == 10,
        spec_pow10(2) == 100,
        spec_pow10(6) == 1_000_000,
        spec_pow10(15) == 1_000_000_000_000_000,
        spec_pow10(16) == 10_000_000_000_000_000,
        spec_pow10(17) == 100_000_000_000_000_000,
{
    reveal_with_fuel(spec_pow10, 18);
}

} // verus!
