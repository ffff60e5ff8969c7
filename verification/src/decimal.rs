//! Exact decimal numbers. A smoothed methylation estimate is a finite
//! decimal fraction; keeping it as an integer mantissa and a power-of-ten
//! scale makes multiplying by one hundred and printing exact, with no
//! floating-point rounding.

use vstd::prelude::*;
use vstd::string::*;

use crate::digits::decimal_of;
use crate::digits::digit_char;
use crate::digits::digit_str;
use crate::digits::digit_val;
use crate::digits::digits_value;
use crate::digits::is_digit;
use crate::digits::is_digits;
use crate::digits::lemma_digits_value_append;
use crate::digits::lemma_digits_value_bound;
use crate::digits::lemma_pow10_monotone;
use crate::digits::lemma_pow10_values;
use crate::digits::parse_u64;
use crate::digits::pow10;
use crate::digits::push_decimal;
use crate::digits::spec_pow10;
use crate::text::first_idx;
use crate::text::lemma_first_idx_at;
use crate::text::scan_for;

verus! {

/// Every decimal the converters handle keeps its mantissa under this bound,
/// so that scaling by one hundred stays inside `u64`.
pub const DECIMAL_MANTISSA_LIMIT: u64 = 100_000_000_000_000_000;

/// A parsed decimal token is capped at fifteen significant digits and
/// fifteen fractional digits; longer numerals are rejected as malformed.
pub const TOKEN_MANTISSA_LIMIT: u64 = 1_000_000_000_000_000;

pub const TOKEN_SCALE_LIMIT: u32 = 15;

/// A non-negative decimal number: `mantissa / 10^scale`.
#[derive(Clone, Copy, Debug, PartialEq, Eq, Structural)]
pub struct Decimal {
    pub mantissa: u64,
    pub scale: u32,
}

impl Decimal {
    /// Bounds under which every operation of this module is overflow-free.
    pub open spec fn wf(self) -> bool {
        self.mantissa < DECIMAL_MANTISSA_LIMIT && self.scale <= TOKEN_SCALE_LIMIT
    }

    pub fn new(mantissa: u64, scale: u32) -> (d: Decimal)
        requires
            mantissa < DECIMAL_MANTISSA_LIMIT,
            scale <= TOKEN_SCALE_LIMIT,
        ensures
            d == (Decimal { mantissa, scale }),
            d.wf(),
    {
        Decimal { mantissa, scale }
    }
}

/// Whether a string is a plain decimal numeral: digits, optionally followed
/// by a dot and more digits.
pub open spec fn is_decimal_token(s: Seq<char>) -> bool {
    let j = first_idx(s, '.');
    if j == s.len() {
        is_digits(s)
    } else {
        is_digits(s.take(j)) && is_digits(s.skip(j + 1))
    }
}

/// The digits of a decimal token with the dot removed.
pub open spec fn token_mantissa_digits(s: Seq<char>) -> Seq<char> {
    let j = first_idx(s, '.');
    if j == s.len() {
        s
    } else {
        s.take(j) + s.skip(j + 1)
    }
}

/// The number of fractional digits of a decimal token.
pub open spec fn token_scale(s: Seq<char>) -> nat {
    let j = first_idx(s, '.');
    if j == s.len() {
        0
    } else {
        (s.len() - j - 1) as nat
    }
}

/// The `Decimal` a token denotes.
pub open spec fn spec_parse_decimal(s: Seq<char>) -> Decimal {
    Decimal { mantissa: digits_value(token_mantissa_digits(s)) as u64, scale: token_scale(s) as u32 }
}

/// Whether a token is accepted: well-formed and within the size caps.
pub open spec fn decimal_token_ok(s: Seq<char>) -> bool {
    &&& is_decimal_token(s)
    &&& digits_value(token_mantissa_digits(s)) < TOKEN_MANTISSA_LIMIT
    &&& token_scale(s) <= TOKEN_SCALE_LIMIT
}

/// Parse a decimal numeral (`digits` or `digits.digits`). Returns `None`
/// exactly when the string is not such a numeral or exceeds the size caps.
pub fn parse_decimal(s: &str) -> (r: Option<Decimal>)
    ensures
        r is Some <==> decimal_token_ok(s@),
        r is Some ==> r->0 == spec_parse_decimal(s@) && r->0.wf() && r->0.mantissa
            < TOKEN_MANTISSA_LIMIT,
{
    proof {
        lemma_pow10_values();
    }
    let n = s.unicode_len();
    let j = scan_for(s, n, 0, '.');
    proof {
        lemma_first_idx_at(s@, '.', j as int);
    }
    if j == n {
        match parse_u64(s) {
            None => {
                proof {
                    if is_digits(s@) {
                        // the value does not fit in u64, so it is over the cap
                        assert(digits_value(s@) > u64::MAX);
                    }
                }
                None
            },
            Some(m) => {
                if m < TOKEN_MANTISSA_LIMIT {
                    Some(Decimal { mantissa: m, scale: 0 })
                } else {
                    None
                }
            },
        }
    } else {
        let fl = n - j - 1;
        proof {
            assert(token_scale(s@) == fl);
        }
        if fl == 0 {
            proof {
                assert(s@.skip(j + 1).len() == 0);
                assert(!is_digits(s@.skip(j + 1)));
            }
            return None;
        }
        if fl > TOKEN_SCALE_LIMIT as usize {
            return None;
        }
        let int_str = s.substring_char(0, j);
        let frac_str = s.substring_char(j + 1, n);
        proof {
            assert(int_str@ =~= s@.take(j as int));
            assert(frac_str@ =~= s@.skip(j + 1));
        }
        let iv = match parse_u64(int_str) {
            Some(x) => x,
            None => {
                proof {
                    if is_decimal_token(s@) {
                        // the integer digits alone already exceed u64
                        assert(digits_value(s@.take(j as int)) > u64::MAX);
                        lemma_digits_value_append(s@.take(j as int), s@.skip(j + 1));
                        lemma_pow10_monotone(0, s@.skip(j + 1).len());
                        assert(digits_value(token_mantissa_digits(s@)) >= digits_value(
                            s@.take(j as int),
                        ) * 1) by (nonlinear_arith)
                            requires
                                digits_value(token_mantissa_digits(s@)) == digits_value(
                                    s@.take(j as int),
                                ) * spec_pow10(s@.skip(j + 1).len()) + digits_value(s@.skip(j + 1)),
                                spec_pow10(s@.skip(j + 1).len()) >= 1,
                        ;
                    }
                }
                return None;
            },
        };
        let fv = match parse_u64(frac_str) {
            Some(x) => x,
            None => {
                proof {
                    if is_digits(s@.skip(j + 1)) {
                        lemma_digits_value_bound(s@.skip(j + 1));
                        lemma_pow10_monotone(s@.skip(j + 1).len(), 15);
                        assert(digits_value(s@.skip(j + 1)) < spec_pow10(15));
                        assert(false);
                    }
                }
                return None;
            },
        };
        proof {
            lemma_digits_value_append(s@.take(j as int), s@.skip(j + 1));
        }
        if iv >= TOKEN_MANTISSA_LIMIT {
            proof {
                lemma_pow10_monotone(0, fl as nat);
                assert(digits_value(token_mantissa_digits(s@)) >= iv * 1) by (nonlinear_arith)
                    requires
                        digits_value(token_mantissa_digits(s@)) == iv * spec_pow10(fl as nat)
                            + digits_value(s@.skip(j + 1)),
                        spec_pow10(fl as nat) >= 1,
                        iv >= 0,
                ;
            }
            return None;
        }
        let p = pow10(fl as u32);
        proof {
            lemma_pow10_monotone(fl as nat, 15);
            assert((iv as nat) * (p as nat) <= 1_000_000_000_000_000 * 1_000_000_000_000_000)
                by (nonlinear_arith)
                requires
                    iv < 1_000_000_000_000_000,
                    p <= 1_000_000_000_000_000,
            ;
        }
        let m128 = (iv as u128) * (p as u128) + (fv as u128);
        proof {
            assert(m128 == digits_value(token_mantissa_digits(s@)));
        }
        if m128 >= TOKEN_MANTISSA_LIMIT as u128 {
            return None;
        }
        let m = m128 as u64;
        Some(Decimal { mantissa: m, scale: fl as u32 })
    }
}

/// The value scaled by one hundred: a fraction turned into a percentage.
pub open spec fn spec_percent_of(d: Decimal) -> Decimal {
    if d.scale >= 2 {
        Decimal { mantissa: d.mantissa, scale: (d.scale - 2) as u32 }
    } else {
        Decimal {
            mantissa: (d.mantissa * spec_pow10((2 - d.scale) as nat)) as u64,
            scale: 0,
        }
    }
}

/// Multiply a decimal by one hundred, exactly: the result `r` satisfies
/// `r == 100 * d` as rational numbers.
pub fn percent_of(d: &Decimal) -> (r: Decimal)
    requires
        d.wf(),
        d.mantissa < TOKEN_MANTISSA_LIMIT,
    ensures
        r == spec_percent_of(*d),
        r.wf(),
        r.mantissa as nat * spec_pow10(d.scale as nat) == 100 * d.mantissa as nat * spec_pow10(
            r.scale as nat,
        ),
{
    proof {
        lemma_pow10_values();
    }
    if d.scale >= 2 {
        let r = Decimal { mantissa: d.mantissa, scale: d.scale - 2 };
        proof {
            let s = d.scale as nat;
            lemma_pow10_monotone((s - 2) as nat, s);
            assert(spec_pow10(s) == 10 * spec_pow10((s - 1) as nat));
            assert(spec_pow10((s - 1) as nat) == 10 * spec_pow10((s - 2) as nat));
            assert(r.mantissa as nat * spec_pow10(s) == 100 * d.mantissa as nat * spec_pow10(
                (s - 2) as nat,
            )) by (nonlinear_arith)
                requires
                    r.mantissa == d.mantissa,
                    spec_pow10(s) == 100 * spec_pow10((s - 2) as nat),
            ;
        }
        r
    } else {
        let f = pow10(2 - d.scale);
        proof {
            assert(f <= 100);
            assert((d.mantissa as nat) * (f as nat) < 100_000_000_000_000_000) by (nonlinear_arith)
                requires
                    d.mantissa < 1_000_000_000_000_000,
                    f <= 100,
            ;
        }
        let r = Decimal { mantissa: d.mantissa * f, scale: 0 };
        proof {
            let s = d.scale as nat;
            assert(spec_pow10((2 - s) as nat) * spec_pow10(s) == 100) by {
                if s == 0 {
                    assert(spec_pow10(2) * spec_pow10(0) == 100);
                } else {
                    assert(s == 1);
                    assert(spec_pow10(1) * spec_pow10(1) == 100);
                }
            }
            assert(r.mantissa as nat * spec_pow10(s) == 100 * d.mantissa as nat * spec_pow10(0))
                by (nonlinear_arith)
                requires
                    r.mantissa == d.mantissa as nat * spec_pow10((2 - s) as nat),
                    spec_pow10((2 - s) as nat) * spec_pow10(s) == 100,
                    spec_pow10(0nat) == 1,
            ;
        }
        r
    }
}

/// Exactly `s` digit characters: the value of `rem` modulo ten to the `s`,
/// zero-padded on the left.
pub open spec fn spec_frac_digits_full(rem: nat, s: nat) -> Seq<char>
    decreases s,
{
    if s == 0 {
        Seq::empty()
    } else {
        spec_frac_digits_full(rem / 10, (s - 1) as nat).push(digit_char(rem % 10))
    }
}

/// The fractional digits as printed: trailing zeros trimmed, but at least
/// one digit kept.
pub open spec fn spec_frac_text(rem: nat, s: nat) -> Seq<char>
    decreases s,
{
    if s <= 1 {
        seq![digit_char(rem % 10)]
    } else if rem % 10 == 0 {
        spec_frac_text(rem / 10, (s - 1) as nat)
    } else {
        spec_frac_digits_full(rem, s)
    }
}

/// The text of a decimal: integer part, a dot, and the trimmed fractional
/// digits (so whole numbers end in `.0`).
pub open spec fn spec_decimal_text(d: Decimal) -> Seq<char> {
    let p = spec_pow10(d.scale as nat);
    decimal_of(d.mantissa as nat / p) + seq!['.'] + spec_frac_text(
        d.mantissa as nat % p,
        if d.scale == 0 { 1nat } else { d.scale as nat },
    )
}

/// The zero-padded fractional digits are exactly `s` digit characters.
pub proof fn lemma_frac_digits_full_chars(rem: nat, s: nat)
    ensures
        spec_frac_digits_full(rem, s).len() == s,
        forall|k: int| 0 <= k < s ==> is_digit(#[trigger] spec_frac_digits_full(rem, s)[k]),
    decreases s,
{
    if s > 0 {
        lemma_frac_digits_full_chars(rem / 10, (s - 1) as nat);
        crate::digits::lemma_digit_char_val(rem % 10);
        let full = spec_frac_digits_full(rem, s);
        assert forall|k: int| 0 <= k < s implies is_digit(#[trigger] full[k]) by {
            if k < s - 1 {
                assert(full[k] == spec_frac_digits_full(rem / 10, (s - 1) as nat)[k]);
            } else {
                assert(full[k] == digit_char(rem % 10));
            }
        }
    }
}

/// The trimmed fractional digits: at least one and at most `max(s, 1)`
/// digit characters.
pub proof fn lemma_frac_text_chars(rem: nat, s: nat)
    ensures
        1 <= spec_frac_text(rem, s).len(),
        spec_frac_text(rem, s).len() <= if s == 0 { 1nat } else { s },
        forall|k: int|
            0 <= k < spec_frac_text(rem, s).len() ==> is_digit(#[trigger] spec_frac_text(rem, s)[k]),
    decreases s,
{
    if s <= 1 {
        crate::digits::lemma_digit_char_val(rem % 10);
    } else if rem % 10 == 0 {
        lemma_frac_text_chars(rem / 10, (s - 1) as nat);
    } else {
        lemma_frac_digits_full_chars(rem, s);
    }
}

/// Law: printing a decimal of the fraction kind (six fractional places,
/// mantissa within the coverage range) yields a well-formed decimal token
/// within the parser's caps, made of digits and a single dot.
pub proof fn lemma_decimal_text_token(d: Decimal)
    requires
        d.scale == 6,
        d.mantissa < 100_000_000_000,
    ensures
        decimal_token_ok(spec_decimal_text(d)),
        !spec_decimal_text(d).contains('\t'),
        !spec_decimal_text(d).contains('\n'),
{
    lemma_pow10_values();
    let p = spec_pow10(6);
    let m = d.mantissa as nat;
    let ip = m / p;
    let rem = m % p;
    let i_text = decimal_of(ip);
    let f_text = spec_frac_text(rem, 6);
    let text = spec_decimal_text(d);
    assert(text == i_text + seq!['.'] + f_text);
    crate::digits::lemma_decimal_of_value(ip);
    lemma_frac_text_chars(rem, 6);
    // the dot is the first non-digit, so the token shape is digits.digits
    assert forall|k: int| 0 <= k < i_text.len() implies text[k] != '.' by {
        assert(text[k] == i_text[k]);
        assert(is_digit(i_text[k]));
    }
    assert(text[i_text.len() as int] == '.');
    crate::text::lemma_first_idx_at(text, '.', i_text.len() as int);
    assert(text.take(i_text.len() as int) =~= i_text);
    assert(text.skip(i_text.len() as int + 1) =~= f_text);
    assert(is_decimal_token(text));
    assert(token_scale(text) == f_text.len());
    // the mantissa digits read back below the parser's cap
    lemma_digits_value_append(i_text, f_text);
    assert(token_mantissa_digits(text) == i_text + f_text);
    lemma_digits_value_bound(f_text);
    lemma_pow10_monotone(f_text.len(), 6);
    assert(ip * p <= m) by (nonlinear_arith)
        requires
            ip == m / p,
            p >= 1,
            m >= 0,
    ;
    assert(ip < 100_000);
    assert(digits_value(i_text + f_text) == ip * spec_pow10(f_text.len()) + digits_value(f_text));
    assert(ip * spec_pow10(f_text.len()) <= 100_000 * 1_000_000) by (nonlinear_arith)
        requires
            ip < 100_000,
            spec_pow10(f_text.len()) <= 1_000_000,
    ;
    assert(digits_value(f_text) < 1_000_000);
    // every character is a digit or the dot, so no separator appears
    assert forall|k: int| 0 <= k < text.len() implies text[k] != '\t' && text[k] != '\n' by {
        if k < i_text.len() {
            assert(text[k] == i_text[k]);
            assert(is_digit(text[k]));
        } else if k == i_text.len() {
            assert(text[k] == '.');
        } else {
            assert(text[k] == f_text[k - i_text.len() - 1]);
            assert(is_digit(text[k]));
        }
    }
    if text.contains('\t') {
        let w = choose|w: int| 0 <= w < text.len() && text[w] == '\t';
    }
    if text.contains('\n') {
        let w = choose|w: int| 0 <= w < text.len() && text[w] == '\n';
    }
}

/// The zero-padded fractional digits read back as their value.
pub proof fn lemma_frac_digits_full_value(rem: nat, s: nat)
    requires
        rem < spec_pow10(s),
    ensures
        digits_value(spec_frac_digits_full(rem, s)) == rem,
    decreases s,
{
    if s == 0 {
    } else {
        assert(spec_pow10(s) == 10 * spec_pow10((s - 1) as nat));
        assert(rem / 10 < spec_pow10((s - 1) as nat)) by (nonlinear_arith)
            requires
                rem < 10 * spec_pow10((s - 1) as nat),
        ;
        lemma_frac_digits_full_value(rem / 10, (s - 1) as nat);
        lemma_frac_digits_full_chars(rem / 10, (s - 1) as nat);
        crate::digits::lemma_digit_char_val(rem % 10);
        let full = spec_frac_digits_full(rem, s);
        assert(full.drop_last() =~= spec_frac_digits_full(rem / 10, (s - 1) as nat));
        assert(full.last() == digit_char(rem % 10));
        assert(digits_value(full) == (rem / 10) * 10 + rem % 10);
    }
}

/// The trimmed fractional digits read back as the value with its trailing
/// zeros divided out: scaled up by the dropped places, they are the value.
pub proof fn lemma_frac_text_value(rem: nat, s: nat)
    requires
        1 <= s,
        rem < spec_pow10(s),
    ensures
        digits_value(spec_frac_text(rem, s)) * spec_pow10(
            (s - spec_frac_text(rem, s).len()) as nat,
        ) == rem,
    decreases s,
{
    lemma_frac_text_chars(rem, s);
    if s == 1 {
        crate::digits::lemma_digit_char_val(rem % 10);
        let ft = spec_frac_text(rem, s);
        assert(ft.drop_last() =~= Seq::<char>::empty());
        assert(ft.last() == digit_char(rem % 10));
        assert(digits_value(ft) == digits_value(ft.drop_last()) * 10 + digit_val(ft.last()));
        assert(digits_value(ft.drop_last()) == 0);
        assert(digits_value(ft) == rem % 10);
        assert(rem % 10 == rem);
        assert(spec_pow10((s - ft.len()) as nat) == 1);
        assert(digits_value(ft) * 1 == rem);
    } else if rem % 10 == 0 {
        assert(spec_pow10(s) == 10 * spec_pow10((s - 1) as nat));
        assert(rem / 10 < spec_pow10((s - 1) as nat)) by (nonlinear_arith)
            requires
                rem < 10 * spec_pow10((s - 1) as nat),
        ;
        lemma_frac_text_value(rem / 10, (s - 1) as nat);
        lemma_frac_text_chars(rem / 10, (s - 1) as nat);
        let ft = spec_frac_text(rem, s);
        assert(ft == spec_frac_text(rem / 10, (s - 1) as nat));
        assert(ft.len() <= s - 1);
        let dropped = ((s - 1) - ft.len()) as nat;
        assert(digits_value(ft) * spec_pow10(dropped) == rem / 10);
        assert((s - ft.len()) as nat == dropped + 1);
        assert(spec_pow10(dropped + 1) == 10 * spec_pow10(dropped));
        assert(rem == 10 * (rem / 10));
        assert(digits_value(ft) * spec_pow10(dropped + 1) == 10 * (digits_value(ft) * spec_pow10(
            dropped,
        ))) by (nonlinear_arith)
            requires
                spec_pow10(dropped + 1) == 10 * spec_pow10(dropped),
        ;
        assert(digits_value(ft) * spec_pow10((s - ft.len()) as nat) == rem);
    } else {
        lemma_frac_digits_full_chars(rem, s);
        lemma_frac_digits_full_value(rem, s);
        let ft = spec_frac_text(rem, s);
        assert(ft == spec_frac_digits_full(rem, s));
        assert(ft.len() == s);
        assert(spec_pow10((s - ft.len()) as nat) == 1);
        assert(digits_value(ft) * 1 == rem);
    }
}

/// Law: printing a decimal and reading the text back preserves the value
/// exactly — the parsed mantissa and scale denote the same rational as the
/// printed decimal, with trailing zeros of the fraction trimmed away.
pub proof fn lemma_decimal_text_round_trip(d: Decimal)
    requires
        d.scale == 6,
        d.mantissa < 100_000_000_000,
    ensures
        ({
            let back = spec_parse_decimal(spec_decimal_text(d));
            (back.mantissa as nat) * spec_pow10(d.scale as nat) == (d.mantissa as nat)
                * spec_pow10(back.scale as nat)
        }),
{
    lemma_pow10_values();
    lemma_decimal_text_token(d);
    let p = spec_pow10(6);
    let m = d.mantissa as nat;
    let ip = m / p;
    let rem = m % p;
    let i_text = decimal_of(ip);
    let f_text = spec_frac_text(rem, 6);
    let text = spec_decimal_text(d);
    crate::digits::lemma_decimal_of_value(ip);
    lemma_frac_text_chars(rem, 6);
    assert forall|k: int| 0 <= k < i_text.len() implies text[k] != '.' by {
        assert(text[k] == i_text[k]);
        assert(is_digit(i_text[k]));
    }
    assert(text[i_text.len() as int] == '.');
    crate::text::lemma_first_idx_at(text, '.', i_text.len() as int);
    assert(text.take(i_text.len() as int) =~= i_text);
    assert(text.skip(i_text.len() as int + 1) =~= f_text);
    lemma_digits_value_append(i_text, f_text);
    let fl = f_text.len();
    let dropped = (6 - fl) as nat;
    let back_m = digits_value(i_text + f_text);
    assert(back_m == ip * spec_pow10(fl) + digits_value(f_text));
    vstd::arithmetic::div_mod::lemma_fundamental_div_mod(m as int, p as int);
    vstd::arithmetic::div_mod::lemma_mod_bound(m as int, p as int);
    lemma_frac_text_value(rem, 6);
    // back_m * 10^dropped == ip * 10^6 + rem == m
    crate::digits::lemma_pow10_add(fl, dropped);
    assert((ip * spec_pow10(fl) + digits_value(f_text)) * spec_pow10(dropped) == ip * spec_pow10(
        fl + dropped,
    ) + digits_value(f_text) * spec_pow10(dropped)) by (nonlinear_arith)
        requires
            spec_pow10(fl + dropped) == spec_pow10(fl) * spec_pow10(dropped),
    ;
    assert(fl <= 6);
    assert(fl + dropped == 6);
    assert(digits_value(f_text) * spec_pow10(dropped) == rem);
    assert(ip * spec_pow10(6) + rem == m);
    assert(back_m * spec_pow10(dropped) == m);
    // cross-multiplied equality of the two rationals
    let back = spec_parse_decimal(text);
    assert(back.mantissa == back_m && back.scale == fl);
    assert(back_m * spec_pow10(6) == m * spec_pow10(fl)) by (nonlinear_arith)
        requires
            back_m * spec_pow10(dropped) == m,
            spec_pow10(fl + dropped) == spec_pow10(fl) * spec_pow10(dropped),
            spec_pow10(6) == spec_pow10(fl + dropped),
    ;
}

/// Append exactly `s` zero-padded digits of `rem`.
fn push_frac_digits(rem: u64, s: u32, out: &mut String)
    ensures
        final(out)@ == old(out)@ + spec_frac_digits_full(rem as nat, s as nat),
    decreases s,
{
    if s > 0 {
        push_frac_digits(rem / 10, s - 1, out);
        let ds = digit_str(rem % 10);
        out.append(ds);
        assert(final(out)@ =~= old(out)@ + spec_frac_digits_full(rem as nat, s as nat));
    } else {
        assert(final(out)@ =~= old(out)@ + spec_frac_digits_full(rem as nat, 0));
    }
}

/// Append the text of a decimal to `out`.
pub fn push_decimal_text(d: &Decimal, out: &mut String)
    requires
        d.wf(),
    ensures
        final(out)@ == old(out)@ + spec_decimal_text(*d),
{
    let p = pow10(d.scale);
    proof {
        lemma_pow10_monotone(0, d.scale as nat);
        lemma_pow10_values();
    }
    let ip = d.mantissa / p;
    let mut rem = d.mantissa % p;
    let mut sc: u32 = if d.scale == 0 {
        1
    } else {
        d.scale
    };
    proof {
        if d.scale == 0 {
            assert(rem == 0);
        }
        assert(rem < spec_pow10(sc as nat));
    }
    push_decimal(ip, out);
    proof {
        reveal_strlit(".");
    }
    out.append(".");
    let ghost rem0 = rem as nat;
    let ghost sc0 = sc as nat;
    while sc > 1 && rem % 10 == 0
        invariant
            sc >= 1,
            rem < spec_pow10(sc as nat),
            spec_frac_text(rem as nat, sc as nat) == spec_frac_text(rem0, sc0),
        decreases sc,
    {
        proof {
            assert(spec_pow10(sc as nat) == 10 * spec_pow10((sc - 1) as nat));
            assert(rem == 10 * (rem / 10));
        }
        rem = rem / 10;
        sc = sc - 1;
    }
    proof {
        if sc == 1 {
            assert(rem < 10);
            assert(spec_frac_text(rem as nat, sc as nat) == seq![digit_char(rem as nat % 10)]);
            assert(spec_frac_digits_full(rem as nat, 1) == spec_frac_digits_full(
                rem as nat / 10,
                0,
            ).push(digit_char(rem as nat % 10)));
            assert(spec_frac_digits_full(rem as nat, 1) =~= seq![digit_char(rem as nat % 10)]);
        }
        assert(spec_frac_text(rem as nat, sc as nat) == spec_frac_digits_full(
            rem as nat,
            sc as nat,
        ));
    }
    push_frac_digits(rem, sc, out);
    proof {
        assert(final(out)@ =~= old(out)@ + spec_decimal_text(*d));
    }
}

/// The text of a decimal as a fresh string.
pub fn decimal_text(d: &Decimal) -> (s: String)
    requires
        d.wf(),
    ensures
        s@ == spec_decimal_text(*d),
{
    let mut s = String::new();
    push_decimal_text(d, &mut s);
    proof {
        assert(s@ =~= spec_decimal_text(*d));
    }
    s
}

} // verus!
