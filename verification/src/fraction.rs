//! Grade-point targets as exact fractions, read from decimal literals.

use vstd::prelude::*;
use vstd::slice::{slice_subrange, slice_to_vec};
use crate::text::{parse_digits, spec_parse_digits, spec_split, split, texts};

verus! {

/// The number `numerator / denominator`, negated where `negative` is set.
/// A fraction with denominator zero stands for no number.
#[derive(Debug, Clone, Copy, PartialEq, Eq, Structural)]
pub struct Fraction {
    pub negative: bool,
    pub numerator: u32,
    pub denominator: u32,
}

/// The most digits that a literal may have after its point.
pub const MAX_FRACTION_DIGITS: usize = 9;

/// Ten to the power `k`.
pub open spec fn pow10(k: nat) -> nat
    decreases k,
{
    if k == 0 {
        1
    } else {
        10 * pow10((k - 1) as nat)
    }
}

/// The powers of ten up to the ninth fit in 32 bits.
pub proof fn lemma_pow10_bound(k: nat)
    requires
        k <= MAX_FRACTION_DIGITS,
    ensures
        1 <= pow10(k) <= 1_000_000_000,
{
    reveal_with_fuel(pow10, 10);
}

impl Fraction {
    /// The numerator with the sign of the fraction.
    pub open spec fn signed_numerator(self) -> int {
        if self.negative {
            -(self.numerator as int)
        } else {
            self.numerator as int
        }
    }
}

/// The quotient `a / b` rounded up to a whole number, for positive `b`.
pub open spec fn ceil_div(a: int, b: int) -> int
    recommends
        b > 0,
{
    (a + b - 1) / b
}

/// The rounded-up quotient is the least whole number that, times the
/// divisor, reaches the dividend.
pub proof fn lemma_ceil_div_bounds(a: int, b: int)
    requires
        b > 0,
    ensures
        (ceil_div(a, b) - 1) * b < a <= ceil_div(a, b) * b,
{
    let n = a + b - 1;
    vstd::arithmetic::div_mod::lemma_fundamental_div_mod(n, b);
    vstd::arithmetic::div_mod::lemma_mod_bound(n, b);
    let q = n / b;
    assert((q - 1) * b == q * b - b) by (nonlinear_arith);
    assert(b * q == q * b) by (nonlinear_arith);
}

/// Only one whole number is the least to reach the dividend.
pub proof fn lemma_ceil_div_unique(a: int, b: int, q: int)
    requires
        b > 0,
        (q - 1) * b < a <= q * b,
    ensures
        ceil_div(a, b) == q,
{
    lemma_ceil_div_bounds(a, b);
    let c = ceil_div(a, b);
    assert(c <= q) by (nonlinear_arith)
        requires
            b > 0,
            (c - 1) * b < a,
            a <= q * b,
    ;
    assert(q <= c) by (nonlinear_arith)
        requires
            b > 0,
            (q - 1) * b < a,
            a <= c * b,
    ;
}

/// Rounding up a quotient by `c * d` may be done in two steps: by `d`
/// first, then, after a whole number `w` is taken off, by `c`.
pub proof fn lemma_ceil_div_nested(a: int, w: int, c: int, d: int)
    requires
        c > 0,
        d > 0,
    ensures
        ceil_div(a - w * d, c * d) == ceil_div(ceil_div(a, d) - w, c),
{
    let q = ceil_div(a, d);
    let x = ceil_div(q - w, c);
    lemma_ceil_div_bounds(a, d);
    lemma_ceil_div_bounds(q - w, c);
    assert(c * d > 0) by (nonlinear_arith)
        requires
            c > 0,
            d > 0,
    ;
    assert(a - w * d <= x * (c * d)) by (nonlinear_arith)
        requires
            d > 0,
            a <= q * d,
            q - w <= x * c,
    ;
    assert((x - 1) * (c * d) < a - w * d) by (nonlinear_arith)
        requires
            d > 0,
            (q - 1) * d < a,
            (x - 1) * c < q - w,
    ;
    lemma_ceil_div_unique(a - w * d, c * d, x);
}

/// The quotient `a / b`, rounded up.
pub fn div_ceil(a: u128, b: u128) -> (q: u128)
    requires
        b > 0,
    ensures
        q == ceil_div(a as int, b as int),
        q <= a,
{
    let whole = a / b;
    let left = a % b;
    proof {
        vstd::arithmetic::div_mod::lemma_fundamental_div_mod(a as int, b as int);
        let w = whole as int;
        let bb = b as int;
        assert(bb * w == w * bb) by (nonlinear_arith);
        assert((w - 1) * bb == w * bb - bb) by (nonlinear_arith);
        assert((w + 1 - 1) * bb == w * bb) by (nonlinear_arith);
        assert((w + 1) * bb == w * bb + bb) by (nonlinear_arith);
        assert(w * bb >= w) by (nonlinear_arith)
            requires
                w >= 0,
                bb >= 1,
        ;
        if left == 0 {
            lemma_ceil_div_unique(a as int, bb, w);
        } else {
            lemma_ceil_div_unique(a as int, bb, w + 1);
        }
    }
    if left == 0 {
        whole
    } else {
        whole + 1
    }
}

/// Whether the literal `s` opens with a sign.
pub open spec fn has_sign(s: Seq<char>) -> bool {
    s.len() > 0 && (s[0] == '+' || s[0] == '-')
}

/// The literal `s` without its sign.
pub open spec fn unsigned_part(s: Seq<char>) -> Seq<char> {
    if has_sign(s) {
        s.skip(1)
    } else {
        s
    }
}

/// The fraction that the decimal literal `s` writes. A literal is an
/// optional sign, then digits with at most one point among them: at least
/// one digit in all, and at most nine after the point. The numerator is
/// the number that the digits write with the point left out, and must fit
/// in 32 bits; the denominator is ten to the count of digits after the
/// point. Exponents, infinities and not-a-number are no literals.
pub open spec fn spec_parse_fraction(s: Seq<char>) -> Option<Fraction> {
    let parts = spec_split(unsigned_part(s), '.');
    let after = if parts.len() == 2 {
        parts[1]
    } else {
        Seq::<char>::empty()
    };
    if parts.len() <= 2 && after.len() <= MAX_FRACTION_DIGITS {
        match spec_parse_digits(parts[0] + after) {
            Some(n) => Some(
                Fraction {
                    negative: s.len() > 0 && s[0] == '-',
                    numerator: n,
                    denominator: pow10(after.len()) as u32,
                },
            ),
            None => None,
        }
    } else {
        None
    }
}

/// Ten to the power `k`, for `k` up to nine.
fn power_of_ten(k: usize) -> (p: u32)
    requires
        k <= MAX_FRACTION_DIGITS,
    ensures
        p == pow10(k as nat),
{
    let mut p: u32 = 1;
    let mut j: usize = 0;
    while j < k
        invariant
            j <= k <= MAX_FRACTION_DIGITS,
            p == pow10(j as nat),
        decreases k - j,
    {
        proof {
            lemma_pow10_bound(j as nat);
            lemma_pow10_bound((j + 1) as nat);
        }
        p = p * 10;
        j += 1;
    }
    p
}

/// Reads `s` as a decimal literal.
pub fn parse_fraction(s: &[char]) -> (r: Option<Fraction>)
    ensures
        r == spec_parse_fraction(s@),
{
    let n = s.len();
    let negative = n > 0 && s[0] == '-';
    let start: usize = if n > 0 && (s[0] == '+' || s[0] == '-') { 1 } else { 0 };
    assert(s@.skip(start as int) =~= s@.subrange(start as int, n as int));
    assert(s@.skip(0) =~= s@);
    let mut parts = split(slice_subrange(s, start, n), '.');
    let ghost all = texts(parts@);
    assert(all.len() == parts@.len());
    if parts.len() > 2 {
        return None;
    }
    assert(parts@.len() >= 1) by {
        crate::text::lemma_split_nonempty(unsigned_part(s@), '.');
    }
    let mut after: Vec<char> = Vec::new();
    if parts.len() == 2 {
        assert(all[1] == parts@[1]@);
        after = parts.pop().unwrap();
    }
    assert(all[0] == parts@[0]@);
    if after.len() > MAX_FRACTION_DIGITS {
        return None;
    }
    let denominator = power_of_ten(after.len());
    let mut digits = slice_to_vec(parts[0].as_slice());
    digits.append(&mut after);
    match parse_digits(digits.as_slice()) {
        Some(numerator) => Some(Fraction { negative, numerator, denominator }),
        None => None,
    }
}

} // verus!
