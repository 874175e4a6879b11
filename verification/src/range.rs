//! Affine rescaling between integer ranges, computed exactly.
//!
//! A value is carried from an input range onto an output range without any
//! rounding: the result is a [`Ratio`], a fraction whose denominator is the
//! width of the input range. Rounding to a whole number is a separate,
//! explicit step ([`Ratio::round`]), so a caller can scale, clamp, divide and
//! only then round once.
//!
//! Every 64-bit value and range is taken. A clamped result always fits a
//! [`Ratio`]; an unclamped one can be too large for it, far outside the
//! input range, and is then not given at all rather than given wrong.

use vstd::arithmetic::div_mod::lemma_div_is_ordered;
use vstd::arithmetic::div_mod::lemma_div_multiples_vanish_quotient;
use vstd::arithmetic::div_mod::lemma_fundamental_div_mod_converse;
use vstd::arithmetic::mul::lemma_mul_inequality;
use vstd::prelude::*;

verus! {

/// Whether `n` can be held in 128 bits, as the numerator of a [`Ratio`].
pub open spec fn fits_numerator(n: int) -> bool {
    i128::MIN <= n <= i128::MAX
}

/// `x` held between `lo` and `hi`: `lo` below the range, `hi` above it.
pub open spec fn clamp_int(x: int, lo: int, hi: int) -> int {
    if x < lo {
        lo
    } else if x > hi {
        hi
    } else {
        x
    }
}

/// Width of the input range, as a positive number: the denominator of every
/// value scaled from `[in_begin, in_end]`.
pub open spec fn scaled_den(in_begin: int, in_end: int) -> int {
    if in_end > in_begin {
        in_end - in_begin
    } else {
        in_begin - in_end
    }
}

/// Numerator, over [`scaled_den`], of
/// `out_begin + (value - in_begin) / (in_end - in_begin) * (out_end - out_begin)`.
pub open spec fn scaled_num(
    value: int,
    in_begin: int,
    in_end: int,
    out_begin: int,
    out_end: int,
) -> int {
    let n = out_begin * (in_end - in_begin) + (value - in_begin) * (out_end - out_begin);
    if in_end > in_begin {
        n
    } else {
        -n
    }
}

/// Numerator, over [`scaled_den`], of the scaled value held inside
/// `[out_begin, out_end]`.
pub open spec fn clamped_num(
    value: int,
    in_begin: int,
    in_end: int,
    out_begin: int,
    out_end: int,
) -> int {
    let den = scaled_den(in_begin, in_end);
    clamp_int(scaled_num(value, in_begin, in_end, out_begin, out_end), out_begin * den, out_end * den)
}

/// `num / den` rounded to the nearest integer, a tie going away from zero.
/// Meaningful for `den > 0`.
pub open spec fn round_half_away(num: int, den: int) -> int {
    if num >= 0 {
        (2 * num + den) / (2 * den)
    } else {
        -((2 * (-num) + den) / (2 * den))
    }
}

/// An exact fraction `num / den`.
#[derive(Clone, Copy, Debug)]
pub struct Ratio {
    pub num: i128,
    pub den: i128,
}

impl Ratio {
    /// A fraction is well formed when its denominator is positive.
    pub open spec fn wf(self) -> bool {
        self.den > 0
    }

    /// The fraction equals the integer `k`.
    pub open spec fn is_int(self, k: int) -> bool {
        self.num == k * self.den
    }

    /// The fraction is at least the integer `k`.
    pub open spec fn at_least(self, k: int) -> bool {
        self.num >= k * self.den
    }

    /// The fraction is at most the integer `k`.
    pub open spec fn at_most(self, k: int) -> bool {
        self.num <= k * self.den
    }

    /// The nearest integer, a tie going away from zero.
    pub open spec fn rounded(self) -> int {
        round_half_away(self.num as int, self.den as int)
    }

    /// Half of this fraction: the same numerator over twice the denominator.
    pub fn halved(self) -> (r: Ratio)
        requires
            self.wf(),
            2 * self.den <= i128::MAX,
        ensures
            r.num == self.num,
            r.den == 2 * self.den,
    {
        Ratio { num: self.num, den: 2 * self.den }
    }

    /// Rounds to the nearest integer; a tie goes away from zero.
    pub fn round(self) -> (r: i128)
        requires
            self.wf(),
        ensures
            r == self.rounded(),
    {
        let den: u128 = self.den as u128;
        if self.num >= 0 {
            let n: u128 = self.num as u128;
            let q: u128 = n / den;
            let rem: u128 = n % den;
            proof {
                lemma_round_step(n as int, den as int);
                lemma_quotient_bound(n as int, den as int);
            }
            if rem >= den - rem {
                (q + 1) as i128
            } else {
                q as i128
            }
        } else {
            // The magnitude of `num`, which for the least `i128` has no
            // signed counterpart.
            let n: u128 = (-(self.num + 1)) as u128 + 1;
            let q: u128 = n / den;
            let rem: u128 = n % den;
            proof {
                lemma_round_step(n as int, den as int);
                lemma_quotient_bound(n as int, den as int);
            }
            let magnitude: u128 = if rem >= den - rem {
                q + 1
            } else {
                q
            };
            if magnitude == 0 {
                0
            } else {
                -((magnitude - 1) as i128) - 1
            }
        }
    }
}

/// Rounding half up, in terms of the quotient and remainder of `n / d`.
proof fn lemma_round_step(n: int, d: int)
    requires
        n >= 0,
        d > 0,
    ensures
        (2 * n + d) / (2 * d) == n / d + (if 2 * (n % d) >= d {
            1int
        } else {
            0int
        }),
{
    let q = n / d;
    let r = n % d;
    assert(n == q * d + r && 0 <= r < d) by (nonlinear_arith)
        requires
            q == n / d,
            r == n % d,
            d > 0,
    ;
    if 2 * r >= d {
        assert(2 * n + d == (q + 1) * (2 * d) + (2 * r - d)) by (nonlinear_arith)
            requires
                n == q * d + r,
        ;
        lemma_fundamental_div_mod_converse(2 * n + d, 2 * d, q + 1, 2 * r - d);
    } else {
        assert(2 * n + d == q * (2 * d) + (2 * r + d)) by (nonlinear_arith)
            requires
                n == q * d + r,
        ;
        lemma_fundamental_div_mod_converse(2 * n + d, 2 * d, q, 2 * r + d);
    }
}

/// The quotient of a non-negative `n` by `d >= 1` is at most `n`, and is
/// below `n` wherever the division leaves a remainder.
proof fn lemma_quotient_bound(n: int, d: int)
    requires
        n >= 0,
        d > 0,
    ensures
        0 <= n / d <= n,
        n % d > 0 ==> n / d < n,
        0 <= n % d < d,
{
    assert(0 <= n / d <= n && 0 <= n % d < d && n == (n / d) * d + n % d) by (nonlinear_arith)
        requires
            n >= 0,
            d > 0,
    ;
    if n % d > 0 {
        assert(n / d < n) by (nonlinear_arith)
            requires
                n == (n / d) * d + n % d,
                n / d >= 0,
                d > 0,
                n % d > 0,
        ;
    }
}

/// The outside function `num::clamp`, on 128-bit integers: `input` when it
/// lies in `[min, max]`, else the bound it passed. The outside function
/// checks `min <= max` in debug builds, so that is required here.
#[verifier::external_body]
fn clamp_i128(input: i128, min: i128, max: i128) -> (r: i128)
    requires
        min <= max,
    ensures
        r == clamp_int(input as int, min as int, max as int),
{
    num::clamp(input, min, max)
}

/// The product of two numbers, one of 64 bits and one a difference of two
/// such, fits in 128 bits.
proof fn lemma_term_fits(factor: int, difference: int)
    requires
        -0x8000_0000_0000_0000 <= factor <= 0x7fff_ffff_ffff_ffff,
        -0xffff_ffff_ffff_ffff <= difference <= 0xffff_ffff_ffff_ffff,
    ensures
        -0x7fff_ffff_ffff_ffff_8000_0000_0000_0000 <= factor * difference
            <= 0x7fff_ffff_ffff_ffff_8000_0000_0000_0000,
{
    assert(-(0x8000_0000_0000_0000 * 0xffff_ffff_ffff_ffff) <= factor * difference
        <= 0x8000_0000_0000_0000 * 0xffff_ffff_ffff_ffff) by (nonlinear_arith)
        requires
            -0x8000_0000_0000_0000 <= factor <= 0x8000_0000_0000_0000,
            -0xffff_ffff_ffff_ffff <= difference <= 0xffff_ffff_ffff_ffff,
    ;
    assert(0x8000_0000_0000_0000 * 0xffff_ffff_ffff_ffff
        == 0x7fff_ffff_ffff_ffff_8000_0000_0000_0000int) by (nonlinear_arith);
}

/// The numerator as a sum of two terms that each fit in 128 bits:
/// `out_begin` weighted by how far `value` is from `in_end`, and `out_end`
/// by how far it is from `in_begin`.
proof fn lemma_scaled_terms(value: int, in_begin: int, in_end: int, out_begin: int, out_end: int)
    ensures
        out_begin * (in_end - value) + out_end * (value - in_begin) == out_begin * (in_end
            - in_begin) + (value - in_begin) * (out_end - out_begin),
        out_begin * (value - in_end) + out_end * (in_begin - value) == -(out_begin * (in_end
            - in_begin) + (value - in_begin) * (out_end - out_begin)),
{
    assert(out_begin * (in_end - value) + out_end * (value - in_begin) == out_begin * (in_end
        - in_begin) + (value - in_begin) * (out_end - out_begin)) by (nonlinear_arith);
    assert(out_begin * (value - in_end) + out_end * (in_begin - value) == -(out_begin * (in_end
        - in_begin) + (value - in_begin) * (out_end - out_begin))) by (nonlinear_arith);
}

/// The two terms whose sum is the numerator of the scaled value. Each fits
/// in 128 bits; their sum may not.
fn scaled_terms(value: i64, in_begin: i64, in_end: i64, out_begin: i64, out_end: i64) -> (t: (
    i128,
    i128,
))
    requires
        in_begin != in_end,
    ensures
        t.0 + t.1 == scaled_num(
            value as int,
            in_begin as int,
            in_end as int,
            out_begin as int,
            out_end as int,
        ),
        value == in_begin ==> t.1 == 0,
        value == in_end ==> t.0 == 0,
{
    let to_end: i128 = in_end as i128 - value as i128;
    let from_begin: i128 = value as i128 - in_begin as i128;
    proof {
        lemma_scaled_terms(
            value as int,
            in_begin as int,
            in_end as int,
            out_begin as int,
            out_end as int,
        );
        lemma_term_fits(out_begin as int, to_end as int);
        lemma_term_fits(out_end as int, from_begin as int);
        lemma_term_fits(out_begin as int, -to_end as int);
        lemma_term_fits(out_end as int, -from_begin as int);
        assert(out_begin * 0 == 0 && out_end * 0 == 0) by (nonlinear_arith);
    }
    if in_end > in_begin {
        (out_begin as i128 * to_end, out_end as i128 * from_begin)
    } else {
        (out_begin as i128 * (-to_end), out_end as i128 * (-from_begin))
    }
}

/// The width of the input range as a positive number.
fn input_width(in_begin: i64, in_end: i64) -> (w: i128)
    requires
        in_begin != in_end,
    ensures
        w == scaled_den(in_begin as int, in_end as int),
        0 < w <= 0xffff_ffff_ffff_ffff,
{
    if in_end > in_begin {
        in_end as i128 - in_begin as i128
    } else {
        in_begin as i128 - in_end as i128
    }
}

/// Carries `value` from the range `[in_begin, in_end]` onto
/// `[out_begin, out_end]` by the affine map that sends `in_begin` to
/// `out_begin` and `in_end` to `out_end`. The input range may be reversed
/// (`in_end < in_begin`) but not empty, and `value` may lie outside it.
///
/// The result is exact. Far outside the input range its numerator can
/// outgrow 128 bits, and only then is there no result; at both ends of the
/// input range, and everywhere between them, there always is one.
pub fn scale_to_range(
    value: i64,
    in_begin: i64,
    in_end: i64,
    out_begin: i64,
    out_end: i64,
) -> (r: Option<Ratio>)
    requires
        in_begin != in_end,
    ensures
        r is Some <==> fits_numerator(
            scaled_num(
                value as int,
                in_begin as int,
                in_end as int,
                out_begin as int,
                out_end as int,
            ),
        ),
        r matches Some(q) ==> {
            &&& q.wf()
            &&& q.den == scaled_den(in_begin as int, in_end as int)
            &&& q.num == scaled_num(
                value as int,
                in_begin as int,
                in_end as int,
                out_begin as int,
                out_end as int,
            )
        },
        value == in_begin ==> r is Some && r->Some_0.is_int(out_begin as int),
        value == in_end ==> r is Some && r->Some_0.is_int(out_end as int),
{
    proof {
        lemma_scale_endpoints(in_begin as int, in_end as int, out_begin as int, out_end as int);
    }
    let den = input_width(in_begin, in_end);
    let (first, second) = scaled_terms(value, in_begin, in_end, out_begin, out_end);
    match first.checked_add(second) {
        Some(num) => Some(Ratio { num, den }),
        None => None,
    }
}

/// Scales as [`scale_to_range`] does, then holds the result inside
/// `[out_begin, out_end]`, however far outside the input range `value` lies.
/// There is always a result: what is too large to hold unclamped lies
/// beyond one end of the output range, and is held at that end.
pub fn clamp_scale(
    value: i64,
    in_begin: i64,
    in_end: i64,
    out_begin: i64,
    out_end: i64,
) -> (r: Ratio)
    requires
        in_begin != in_end,
        out_begin <= out_end,
    ensures
        r.wf(),
        r.den == scaled_den(in_begin as int, in_end as int),
        r.num == clamped_num(
            value as int,
            in_begin as int,
            in_end as int,
            out_begin as int,
            out_end as int,
        ),
        r.at_least(out_begin as int),
        r.at_most(out_end as int),
{
    let den = input_width(in_begin, in_end);
    let (first, second) = scaled_terms(value, in_begin, in_end, out_begin, out_end);
    proof {
        lemma_term_fits(out_begin as int, den as int);
        lemma_term_fits(out_end as int, den as int);
        lemma_clamp_scale_within(
            value as int,
            in_begin as int,
            in_end as int,
            out_begin as int,
            out_end as int,
        );
    }
    let low: i128 = out_begin as i128 * den;
    let high: i128 = out_end as i128 * den;
    let num = match first.checked_add(second) {
        Some(sum) => clamp_i128(sum, low, high),
        None => if first > 0 {
            // Both terms are positive and their sum is past every bound.
            high
        } else {
            low
        },
    };
    Ratio { num, den }
}

/// A scaled value meets the output range at both ends: `in_begin` is carried
/// exactly to `out_begin`, and `in_end` exactly to `out_end`, for every
/// non-empty input range.
pub proof fn lemma_scale_endpoints(in_begin: int, in_end: int, out_begin: int, out_end: int)
    requires
        in_begin != in_end,
    ensures
        scaled_num(in_begin, in_begin, in_end, out_begin, out_end) == out_begin * scaled_den(
            in_begin,
            in_end,
        ),
        scaled_num(in_end, in_begin, in_end, out_begin, out_end) == out_end * scaled_den(
            in_begin,
            in_end,
        ),
{
    let w = in_end - in_begin;
    assert((in_begin - in_begin) * (out_end - out_begin) == 0) by (nonlinear_arith);
    assert(out_begin * w + w * (out_end - out_begin) == out_end * w) by (nonlinear_arith);
    assert(out_begin * (-w) == -(out_begin * w)) by (nonlinear_arith);
    assert(out_end * (-w) == -(out_end * w)) by (nonlinear_arith);
}

/// A clamped scaled value never leaves `[out_begin, out_end]`, whatever the
/// value that was scaled.
pub proof fn lemma_clamp_scale_within(
    value: int,
    in_begin: int,
    in_end: int,
    out_begin: int,
    out_end: int,
)
    requires
        in_begin != in_end,
        out_begin <= out_end,
    ensures
        out_begin * scaled_den(in_begin, in_end) <= clamped_num(
            value,
            in_begin,
            in_end,
            out_begin,
            out_end,
        ) <= out_end * scaled_den(in_begin, in_end),
{
    lemma_mul_inequality(out_begin, out_end, scaled_den(in_begin, in_end));
}

/// Rounding keeps the order of fractions over one denominator.
pub proof fn lemma_round_monotonic(a: int, b: int, den: int)
    requires
        den > 0,
        0 <= a <= b,
    ensures
        round_half_away(a, den) <= round_half_away(b, den),
{
    lemma_div_is_ordered(2 * a + den, 2 * b + den, 2 * den);
}

/// Half of a whole number `k` rounds to `(k + 1) / 2`: to `k / 2` where `k`
/// is even, and up to the next integer where it is odd.
pub proof fn lemma_round_half(k: int, den: int)
    requires
        k >= 0,
        den > 0,
    ensures
        k * den >= 0,
        round_half_away(k * den, 2 * den) == (k + 1) / 2,
{
    assert(k * den >= 0) by (nonlinear_arith)
        requires
            k >= 0,
            den > 0,
    ;
    assert(2 * (k * den) + 2 * den == (k + 1) * (2 * den)) by (nonlinear_arith);
    lemma_whole_over_double(k + 1, 2 * den);
}

/// `(k * den) / (2 * den)` is `k / 2`.
proof fn lemma_whole_over_double(k: int, den: int)
    requires
        k >= 0,
        den > 0,
    ensures
        (k * den) / (2 * den) == k / 2,
{
    lemma_div_multiples_vanish_quotient(den, k, 2);
    assert(den * k == k * den) by (nonlinear_arith);
    assert(den * 2 == 2 * den);
}

} // verus!
