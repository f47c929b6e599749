//! Standard normal distribution: closed-form sigmoid-style tail
//! probabilities and a grid-based inverse (critical value).
//!
//! The upper-tail probability beyond `x >= 0` is computed as
//! `1 / (1 + exp(2 * y(x)))` with the cubic `y(x) = 0.7988 * x * (1 +
//! 0.04417 * x^2)`, a classical logistic approximation of the normal
//! integral, evaluated entirely in fixed-point arithmetic.

use vstd::arithmetic::div_mod::{lemma_div_is_ordered, lemma_div_is_ordered_by_denominator};
use vstd::math::abs;
use vstd::prelude::*;

use crate::domain::{FiniteReal, UnitReal};
use crate::fixed::SCALE;

verus! {

/// Linear coefficient of the sigmoid exponent, in nanounits (0.7988).
pub const SIG_LIN: i64 = 798_800_000;

/// Cubic coefficient of the sigmoid exponent, in nanounits (0.04417).
pub const SIG_CUBE: i64 = 44_170_000;

/// Statistics at or beyond this magnitude (6.5) have a tail probability
/// below one nanounit, so the exponent is evaluated at this cap.
pub const Z_CAP: i64 = 6_500_000_000;

/// Cap on the scaled exponential, large enough that a capped value
/// already drives the tail probability to zero nanounits.
pub const EXP_CAP: i64 = 1_000_000_000_000_000_000;

/// Number of series terms used for the exponential on a small argument.
pub const EXP_TERMS: u64 = 24;

/// Twice the sigmoid exponent `y` at statistic `x` (nanounits), computed
/// with the same truncating steps as the executable code.
pub open spec fn sig_exponent(x: int) -> int {
    let x2 = (x * x) / (SCALE as int);
    let cubic = (SCALE as int) + ((SIG_CUBE as int) * x2) / (SCALE as int);
    let linear = ((SIG_LIN as int) * x) / (SCALE as int);
    2 * ((linear * cubic) / (SCALE as int))
}

/// Term `n` of the scaled exponential series for argument `u`.
pub open spec fn exp_term(u: int, n: nat) -> int
    decreases n,
{
    if n == 0 {
        SCALE as int
    } else {
        (exp_term(u, (n - 1) as nat) * u) / ((n as int) * (SCALE as int))
    }
}

/// Sum of the first `n + 1` terms of the scaled exponential series.
pub open spec fn exp_series(u: int, n: nat) -> int
    decreases n,
{
    if n == 0 {
        exp_term(u, 0)
    } else {
        exp_series(u, (n - 1) as nat) + exp_term(u, n)
    }
}

/// One capped squaring step of the scaled exponential.
pub open spec fn exp_square(v: int) -> int {
    let s = (v * v) / (SCALE as int);
    if s > EXP_CAP as int {
        EXP_CAP as int
    } else {
        s
    }
}

/// The scaled exponential of `w` (nanounits): the series on `w / 16`,
/// then four capped squarings.
pub open spec fn exp_scaled(w: int) -> int {
    exp_square(exp_square(exp_square(exp_square(exp_series(w / 16, EXP_TERMS as nat)))))
}

/// Upper-tail probability (nanounits) of the standard normal beyond a
/// non-negative statistic `x`, with the statistic capped at `Z_CAP`.
pub open spec fn normal_tail(x: int) -> int {
    let xc = if x > Z_CAP as int {
        Z_CAP as int
    } else {
        x
    };
    ((SCALE as int) * (SCALE as int)) / ((SCALE as int) + exp_scaled(sig_exponent(xc)))
}

/// One-sided p-value for a statistic `z` of either sign.
pub open spec fn normal_one_sided(z: int) -> int {
    normal_tail(abs(z) as int)
}

/// Two-sided p-value: both tails.
pub open spec fn normal_two_sided(z: int) -> int {
    2 * normal_tail(abs(z) as int)
}

/// Exact upper-tail probability beyond a signed statistic `z`, used by
/// the inverse: for negative `z` the tail is the complement.
pub open spec fn upper_tail(z: int) -> int {
    if z >= 0 {
        normal_tail(z)
    } else {
        (SCALE as int) - normal_tail(-z)
    }
}

/// Scaled exponential series on a small argument.
fn exp_small(u: u64) -> (r: u64)
    requires
        u <= 2_000_000_000,
    ensures
        r == exp_series(u as int, EXP_TERMS as nat),
        SCALE <= r <= 49 * (SCALE as int),
{
    let mut sum: u64 = SCALE as u64;
    let mut t: u64 = SCALE as u64;
    let mut n: u64 = 1;
    while n <= EXP_TERMS
        invariant
            1 <= n <= EXP_TERMS + 1,
            u <= 2_000_000_000,
            t == exp_term(u as int, (n - 1) as nat),
            sum == exp_series(u as int, (n - 1) as nat),
            t <= 2 * (SCALE as int),
            (SCALE as int) <= sum <= (SCALE as int) + (n - 1) * 2 * (SCALE as int),
        decreases EXP_TERMS + 1 - n,
    {
        proof {
            let ti = t as int;
            let ui = u as int;
            let ni = n as int;
            assert(0 <= ti * ui <= 2 * (SCALE as int) * 2_000_000_000) by (nonlinear_arith)
                requires
                    0 <= ti <= 2 * (SCALE as int),
                    0 <= ui <= 2_000_000_000,
            ;
            assert(0 < ni * (SCALE as int) <= 25 * (SCALE as int)) by (nonlinear_arith)
                requires
                    1 <= ni <= 25,
                    SCALE == 1_000_000_000,
            ;
        }
        let wide: u128 = (t as u128) * (u as u128) / ((n as u128) * (SCALE as u128));
        proof {
            let ti = t as int;
            let ui = u as int;
            let ni = n as int;
            assert((t as u128) * (u as u128) == (ti * ui) as u128);
            assert((n as u128) * (SCALE as u128) == (ni * (SCALE as int)) as u128);
            vstd::arithmetic::div_mod::lemma_div_pos_is_pos(ti * ui, ni * (SCALE as int));
            assert(wide == (ti * ui) / (ni * (SCALE as int)));
            // The next term stays at or below twice one.
            if n == 1 {
                assert((ti * ui) / (ni * (SCALE as int)) == ui) by (nonlinear_arith)
                    requires
                        ti == SCALE as int,
                        ni == 1,
                        0 <= ui,
                ;
            } else {
                assert((ti * ui) / (ni * (SCALE as int)) <= 2 * (SCALE as int))
                    by (nonlinear_arith)
                    requires
                        0 <= ti <= 2 * (SCALE as int),
                        0 <= ui <= 2_000_000_000,
                        ni >= 2,
                        SCALE == 1_000_000_000,
                ;
            }
            assert(exp_term(u as int, n as nat) == (ti * ui) / (ni * (SCALE as int)));
        }
        t = wide as u64;
        sum = sum + t;
        n = n + 1;
    }
    sum
}

/// One capped squaring step.
fn square_cap(v: u64) -> (r: u64)
    requires
        SCALE <= v <= EXP_CAP,
    ensures
        r == exp_square(v as int),
        SCALE <= r <= EXP_CAP,
{
    proof {
        let vi = v as int;
        assert(0 <= vi * vi <= (EXP_CAP as int) * (EXP_CAP as int)) by (nonlinear_arith)
            requires
                0 <= vi <= EXP_CAP as int,
        ;
        assert((vi * vi) / (SCALE as int) >= SCALE as int) by (nonlinear_arith)
            requires
                vi >= SCALE as int,
                SCALE == 1_000_000_000,
        ;
    }
    let s: u128 = (v as u128) * (v as u128) / (SCALE as u128);
    if s > EXP_CAP as u128 {
        EXP_CAP as u64
    } else {
        s as u64
    }
}

/// Scaled exponential on an argument up to about thirty.
fn exp_scaled_exec(w: u64) -> (r: u64)
    requires
        w <= 32_000_000_000,
    ensures
        r == exp_scaled(w as int),
        SCALE <= r <= EXP_CAP,
{
    let u: u64 = w / 16;
    let v0 = exp_small(u);
    proof {
        assert(49 * (SCALE as int) <= EXP_CAP as int);
    }
    let v1 = square_cap(v0);
    let v2 = square_cap(v1);
    let v3 = square_cap(v2);
    let v4 = square_cap(v3);
    v4
}

/// The sigmoid exponent is bounded on the capped statistic range.
proof fn lemma_sig_exponent_bounds(x: int)
    requires
        0 <= x <= Z_CAP as int,
    ensures
        0 <= sig_exponent(x) <= 30_000_000_000,
{
    let s = SCALE as int;
    let x2 = (x * x) / s;
    assert(0 <= x * x <= (Z_CAP as int) * (Z_CAP as int)) by (nonlinear_arith)
        requires
            0 <= x <= Z_CAP as int,
    ;
    lemma_div_is_ordered(x * x, (Z_CAP as int) * (Z_CAP as int), s);
    vstd::arithmetic::div_mod::lemma_div_pos_is_pos(x * x, s);
    assert(0 <= x2 <= 42_250_000_000);
    let cu = ((SIG_CUBE as int) * x2) / s;
    assert(0 <= (SIG_CUBE as int) * x2 <= 44_170_000 * 42_250_000_000int) by (nonlinear_arith)
        requires
            0 <= x2 <= 42_250_000_000,
            SIG_CUBE == 44_170_000,
    ;
    lemma_div_is_ordered((SIG_CUBE as int) * x2, 44_170_000 * 42_250_000_000int, s);
    vstd::arithmetic::div_mod::lemma_div_pos_is_pos((SIG_CUBE as int) * x2, s);
    let cubic = s + cu;
    assert(s <= cubic <= 2_866_182_500int);
    let linear = ((SIG_LIN as int) * x) / s;
    assert(0 <= (SIG_LIN as int) * x <= 798_800_000 * 6_500_000_000int) by (nonlinear_arith)
        requires
            0 <= x <= Z_CAP as int,
            SIG_LIN == 798_800_000,
            Z_CAP == 6_500_000_000,
    ;
    lemma_div_is_ordered((SIG_LIN as int) * x, 798_800_000 * 6_500_000_000int, s);
    vstd::arithmetic::div_mod::lemma_div_pos_is_pos((SIG_LIN as int) * x, s);
    assert(0 <= linear <= 5_192_200_000int);
    assert(0 <= linear * cubic <= 5_192_200_000int * 2_866_182_500int) by (nonlinear_arith)
        requires
            0 <= linear <= 5_192_200_000int,
            0 <= cubic <= 2_866_182_500int,
    ;
    lemma_div_is_ordered(linear * cubic, 5_192_200_000int * 2_866_182_500int, s);
    vstd::arithmetic::div_mod::lemma_div_pos_is_pos(linear * cubic, s);
    assert(0 <= (linear * cubic) / s <= 14_881_931_833int);
}

/// Every series term is at or above zero.
proof fn lemma_exp_term_nonneg(u: int, n: nat)
    requires
        0 <= u,
    ensures
        0 <= exp_term(u, n),
    decreases n,
{
    if n > 0 {
        lemma_exp_term_nonneg(u, (n - 1) as nat);
        let prev = exp_term(u, (n - 1) as nat);
        assert(0 <= prev * u) by (nonlinear_arith)
            requires
                0 <= prev,
                0 <= u,
        ;
        assert(0 < (n as int) * (SCALE as int)) by (nonlinear_arith)
            requires
                n >= 1,
                SCALE == 1_000_000_000,
        ;
        vstd::arithmetic::div_mod::lemma_div_pos_is_pos(prev * u, (n as int) * (SCALE as int));
    }
}

/// The series is at or above its first term.
proof fn lemma_exp_series_ge_one(u: int, n: nat)
    requires
        0 <= u,
    ensures
        SCALE as int <= exp_series(u, n),
    decreases n,
{
    if n > 0 {
        lemma_exp_series_ge_one(u, (n - 1) as nat);
        lemma_exp_term_nonneg(u, n);
    }
}

/// Each series term grows with the argument.
proof fn lemma_exp_term_mono(u1: int, u2: int, n: nat)
    requires
        0 <= u1 <= u2,
    ensures
        exp_term(u1, n) <= exp_term(u2, n),
    decreases n,
{
    if n > 0 {
        lemma_exp_term_mono(u1, u2, (n - 1) as nat);
        lemma_exp_term_nonneg(u1, (n - 1) as nat);
        let p1 = exp_term(u1, (n - 1) as nat);
        let p2 = exp_term(u2, (n - 1) as nat);
        assert(p1 * u1 <= p2 * u2) by (nonlinear_arith)
            requires
                0 <= p1 <= p2,
                0 <= u1 <= u2,
        ;
        assert(0 < (n as int) * (SCALE as int)) by (nonlinear_arith)
            requires
                n >= 1,
                SCALE == 1_000_000_000,
        ;
        lemma_div_is_ordered(p1 * u1, p2 * u2, (n as int) * (SCALE as int));
    }
}

/// The series grows with the argument.
proof fn lemma_exp_series_mono(u1: int, u2: int, n: nat)
    requires
        0 <= u1 <= u2,
    ensures
        exp_series(u1, n) <= exp_series(u2, n),
    decreases n,
{
    lemma_exp_term_mono(u1, u2, n);
    if n > 0 {
        lemma_exp_series_mono(u1, u2, (n - 1) as nat);
    }
}

/// A capped squaring keeps order and the one-to-cap range.
proof fn lemma_exp_square_mono(v1: int, v2: int)
    requires
        SCALE as int <= v1 <= v2,
    ensures
        exp_square(v1) <= exp_square(v2),
        SCALE as int <= exp_square(v1) <= EXP_CAP as int,
{
    assert((SCALE as int) * (SCALE as int) <= v1 * v1 <= v2 * v2) by (nonlinear_arith)
        requires
            SCALE as int <= v1 <= v2,
    ;
    lemma_div_is_ordered(v1 * v1, v2 * v2, SCALE as int);
    lemma_div_is_ordered((SCALE as int) * (SCALE as int), v1 * v1, SCALE as int);
    assert(((SCALE as int) * (SCALE as int)) / (SCALE as int) == SCALE as int);
}

/// The scaled exponential keeps order and the one-to-cap range.
proof fn lemma_exp_scaled_mono(w1: int, w2: int)
    requires
        0 <= w1 <= w2,
    ensures
        exp_scaled(w1) <= exp_scaled(w2),
        SCALE as int <= exp_scaled(w1) <= EXP_CAP as int,
{
    lemma_div_is_ordered(w1, w2, 16);
    vstd::arithmetic::div_mod::lemma_div_pos_is_pos(w1, 16);
    let u1 = w1 / 16;
    let u2 = w2 / 16;
    lemma_exp_series_mono(u1, u2, EXP_TERMS as nat);
    lemma_exp_series_ge_one(u1, EXP_TERMS as nat);
    lemma_exp_series_ge_one(u2, EXP_TERMS as nat);
    let a1 = exp_series(u1, EXP_TERMS as nat);
    let a2 = exp_series(u2, EXP_TERMS as nat);
    lemma_exp_square_mono(a1, a2);
    lemma_exp_square_mono(exp_square(a1), exp_square(a2));
    lemma_exp_square_mono(exp_square(exp_square(a1)), exp_square(exp_square(a2)));
    lemma_exp_square_mono(
        exp_square(exp_square(exp_square(a1))),
        exp_square(exp_square(exp_square(a2))),
    );
}

/// The sigmoid exponent grows with the statistic.
proof fn lemma_sig_exponent_mono(x1: int, x2: int)
    requires
        0 <= x1 <= x2,
    ensures
        sig_exponent(x1) <= sig_exponent(x2),
        0 <= sig_exponent(x1),
{
    let s = SCALE as int;
    assert(0 <= x1 * x1 <= x2 * x2) by (nonlinear_arith)
        requires
            0 <= x1 <= x2,
    ;
    lemma_div_is_ordered(x1 * x1, x2 * x2, s);
    vstd::arithmetic::div_mod::lemma_div_pos_is_pos(x1 * x1, s);
    let q1 = (x1 * x1) / s;
    let q2 = (x2 * x2) / s;
    assert(0 <= (SIG_CUBE as int) * q1 <= (SIG_CUBE as int) * q2) by (nonlinear_arith)
        requires
            0 <= q1 <= q2,
            SIG_CUBE == 44_170_000,
    ;
    lemma_div_is_ordered((SIG_CUBE as int) * q1, (SIG_CUBE as int) * q2, s);
    vstd::arithmetic::div_mod::lemma_div_pos_is_pos((SIG_CUBE as int) * q1, s);
    let c1 = s + ((SIG_CUBE as int) * q1) / s;
    let c2 = s + ((SIG_CUBE as int) * q2) / s;
    assert(0 <= (SIG_LIN as int) * x1 <= (SIG_LIN as int) * x2) by (nonlinear_arith)
        requires
            0 <= x1 <= x2,
            SIG_LIN == 798_800_000,
    ;
    lemma_div_is_ordered((SIG_LIN as int) * x1, (SIG_LIN as int) * x2, s);
    vstd::arithmetic::div_mod::lemma_div_pos_is_pos((SIG_LIN as int) * x1, s);
    let l1 = ((SIG_LIN as int) * x1) / s;
    let l2 = ((SIG_LIN as int) * x2) / s;
    assert(0 <= l1 * c1 <= l2 * c2) by (nonlinear_arith)
        requires
            0 <= l1 <= l2,
            0 < c1 <= c2,
    ;
    lemma_div_is_ordered(l1 * c1, l2 * c2, s);
    vstd::arithmetic::div_mod::lemma_div_pos_is_pos(l1 * c1, s);
}

/// The tail probability never increases with the statistic, and always
/// lies between zero and one half.
pub proof fn lemma_normal_tail_antitone(x1: int, x2: int)
    requires
        0 <= x1 <= x2,
    ensures
        normal_tail(x2) <= normal_tail(x1),
        0 <= normal_tail(x2),
        normal_tail(x1) <= (SCALE as int) / 2,
{
    let s = SCALE as int;
    let c1 = if x1 > Z_CAP as int {
        Z_CAP as int
    } else {
        x1
    };
    let c2 = if x2 > Z_CAP as int {
        Z_CAP as int
    } else {
        x2
    };
    lemma_sig_exponent_mono(c1, c2);
    lemma_exp_scaled_mono(sig_exponent(c1), sig_exponent(c2));
    let e1 = exp_scaled(sig_exponent(c1));
    let e2 = exp_scaled(sig_exponent(c2));
    lemma_div_is_ordered_by_denominator(s * s, s + e1, s + e2);
    vstd::arithmetic::div_mod::lemma_div_pos_is_pos(s * s, s + e2);
    lemma_div_is_ordered_by_denominator(s * s, 2 * s, s + e1);
    assert((s * s) / (2 * s) == s / 2) by (nonlinear_arith)
        requires
            s == 1_000_000_000,
    ;
}

/// Bounds of the tail probability alone.
pub proof fn lemma_normal_tail_bounds(x: int)
    requires
        0 <= x,
    ensures
        0 <= normal_tail(x) <= (SCALE as int) / 2,
{
    lemma_normal_tail_antitone(x, x);
}

/// Upper-tail probability of the standard normal beyond `x >= 0`,
/// in nanounits.
fn tail_nanos(x: u64) -> (r: u64)
    ensures
        r == normal_tail(x as int),
        0 <= r <= SCALE / 2,
{
    let xc: u64 = if x > Z_CAP as u64 {
        Z_CAP as u64
    } else {
        x
    };
    proof {
        let s = SCALE as int;
        let xi = xc as int;
        assert(0 <= xi * xi <= (Z_CAP as int) * (Z_CAP as int)) by (nonlinear_arith)
            requires
                0 <= xi <= Z_CAP as int,
        ;
        lemma_div_is_ordered(xi * xi, (Z_CAP as int) * (Z_CAP as int), s);
        vstd::arithmetic::div_mod::lemma_div_pos_is_pos(xi * xi, s);
    }
    let x2: u64 = ((xc as u128) * (xc as u128) / (SCALE as u128)) as u64;
    proof {
        let s = SCALE as int;
        let xi = xc as int;
        assert(x2 == (xi * xi) / s);
        assert(0 <= x2 as int <= 42_250_000_000);
        assert(0 <= (SIG_CUBE as int) * (x2 as int) <= 44_170_000 * 42_250_000_000int)
            by (nonlinear_arith)
            requires
                0 <= x2 as int <= 42_250_000_000,
                SIG_CUBE == 44_170_000,
        ;
        lemma_div_is_ordered((SIG_CUBE as int) * (x2 as int), 44_170_000 * 42_250_000_000int, s);
        vstd::arithmetic::div_mod::lemma_div_pos_is_pos((SIG_CUBE as int) * (x2 as int), s);
    }
    let cubic: u64 = SCALE as u64 + ((SIG_CUBE as u128) * (x2 as u128) / (SCALE as u128)) as u64;
    proof {
        let s = SCALE as int;
        let xi = xc as int;
        assert(cubic as int == s + ((SIG_CUBE as int) * (x2 as int)) / s);
        assert(0 <= (SIG_LIN as int) * xi <= 798_800_000 * 6_500_000_000int) by (nonlinear_arith)
            requires
                0 <= xi <= Z_CAP as int,
                SIG_LIN == 798_800_000,
                Z_CAP == 6_500_000_000,
        ;
        lemma_div_is_ordered((SIG_LIN as int) * xi, 798_800_000 * 6_500_000_000int, s);
        vstd::arithmetic::div_mod::lemma_div_pos_is_pos((SIG_LIN as int) * xi, s);
    }
    let linear: u64 = ((SIG_LIN as u128) * (xc as u128) / (SCALE as u128)) as u64;
    proof {
        let s = SCALE as int;
        assert(linear as int == ((SIG_LIN as int) * (xc as int)) / s);
        assert(0 <= (linear as int) * (cubic as int) <= 5_192_200_000int * 2_866_182_500int)
            by (nonlinear_arith)
            requires
                0 <= linear as int <= 5_192_200_000int,
                0 <= cubic as int <= 2_866_182_500int,
        ;
        lemma_div_is_ordered(
            (linear as int) * (cubic as int),
            5_192_200_000int * 2_866_182_500int,
            s,
        );
        vstd::arithmetic::div_mod::lemma_div_pos_is_pos((linear as int) * (cubic as int), s);
    }
    let w: u64 = 2 * (((linear as u128) * (cubic as u128) / (SCALE as u128)) as u64);
    proof {
        assert(w as int == sig_exponent(xc as int));
    }
    let e: u64 = exp_scaled_exec(w);
    let r: u64 = ((SCALE as u128) * (SCALE as u128) / ((SCALE as u128) + (e as u128))) as u64;
    proof {
        let s = SCALE as int;
        let ei = e as int;
        lemma_div_is_ordered_by_denominator(s * s, 2 * s, s + ei);
        vstd::arithmetic::div_mod::lemma_div_pos_is_pos(s * s, s + ei);
        assert((s * s) / (2 * s) == s / 2) by (nonlinear_arith)
            requires
                s == 1_000_000_000,
        ;
        assert(r == (s * s) / (s + ei));
    }
    r
}

/// One-sided p-value of a standard normal statistic: the tail beyond
/// the statistic's magnitude.
pub fn one_sided_p_value(z: FiniteReal) -> (r: UnitReal)
    ensures
        r@ == normal_one_sided(z@),
{
    let zn = z.nanos();
    let mag: u64 = if zn < 0 {
        (-zn) as u64
    } else {
        zn as u64
    };
    let t = tail_nanos(mag);
    UnitReal::new(t as i64)
}

/// Two-sided p-value: twice the one-sided tail, symmetric in the sign
/// of the statistic.
pub fn two_sided_p_value(z: FiniteReal) -> (r: UnitReal)
    ensures
        r@ == normal_two_sided(z@),
{
    let zn = z.nanos();
    let mag: u64 = if zn < 0 {
        (-zn) as u64
    } else {
        zn as u64
    };
    let t = tail_nanos(mag);
    UnitReal::new((2 * t) as i64)
}

/// Upper-tail probability beyond a signed statistic.
fn upper_tail_nanos(z: i64) -> (r: u64)
    requires
        -crate::fixed::VAL_MAX <= z <= crate::fixed::VAL_MAX,
    ensures
        r == upper_tail(z as int),
        r <= SCALE,
{
    if z >= 0 {
        let t = tail_nanos(z as u64);
        t
    } else {
        let t = tail_nanos((-z) as u64);
        SCALE as u64 - t
    }
}

/// Number of points on the inverse's grid.
pub const GRID_POINTS: u64 = 799;

/// Distance between neighbouring grid statistics (one hundredth).
pub const GRID_STEP: i64 = 10_000_000;

/// The grid statistic at index `i`: from -3.99 to 3.99 in steps of 0.01.
pub open spec fn grid_z(i: int) -> int {
    (i - 399) * (GRID_STEP as int)
}

/// Distance between the upper tail at grid index `i` and a target
/// tail probability `q`.
pub open spec fn grid_err(i: int, q: int) -> int {
    abs(upper_tail(grid_z(i)) - q) as int
}

/// Index of the grid point whose upper tail is closest to `q` among the
/// first `n` points; the earliest such point on a tie.
pub open spec fn best_grid(q: int, n: nat) -> int
    decreases n,
{
    if n <= 1 {
        0
    } else {
        let b = best_grid(q, (n - 1) as nat);
        if grid_err(n - 1, q) < grid_err(b, q) {
            n - 1
        } else {
            b
        }
    }
}

/// The chosen index is in range and no other grid point comes closer.
pub proof fn lemma_best_grid(q: int, n: nat)
    requires
        1 <= n,
    ensures
        0 <= best_grid(q, n) < n,
        forall|j: int| 0 <= j < n ==> grid_err(best_grid(q, n), q) <= #[trigger] grid_err(j, q),
    decreases n,
{
    if n > 1 {
        lemma_best_grid(q, (n - 1) as nat);
    }
}

/// Critical value: the grid statistic whose upper-tail probability is
/// closest to the asked tail probability, earliest grid point on a tie.
pub fn critical_value(q: UnitReal) -> (r: FiniteReal)
    ensures
        r@ == grid_z(best_grid(q@, GRID_POINTS as nat)),
{
    let qn = q.nanos();
    let mut best: u64 = 0;
    let mut best_err: u64 = {
        let t = upper_tail_nanos(-399 * GRID_STEP);
        if t >= qn as u64 {
            t - qn as u64
        } else {
            qn as u64 - t
        }
    };
    let mut i: u64 = 1;
    while i < GRID_POINTS
        invariant
            1 <= i <= GRID_POINTS,
            0 <= qn <= SCALE,
            best == best_grid(qn as int, i as nat),
            best_err == grid_err(best as int, qn as int),
        decreases GRID_POINTS - i,
    {
        let zi: i64 = (i as i64 - 399) * GRID_STEP;
        let t = upper_tail_nanos(zi);
        let err: u64 = if t >= qn as u64 {
            t - qn as u64
        } else {
            qn as u64 - t
        };
        proof {
            assert(zi as int == grid_z(i as int));
            assert(err == grid_err(i as int, qn as int));
        }
        if err < best_err {
            best = i;
            best_err = err;
        }
        i = i + 1;
    }
    proof {
        lemma_best_grid(qn as int, GRID_POINTS as nat);
    }
    FiniteReal::new((best as i64 - 399) * GRID_STEP)
}

/// Round trip of the inverse: the upper-tail probability at the chosen
/// critical value is at least as close to the asked tail probability as
/// the upper tail at any other grid statistic — the inverse is exact up
/// to the grid's resolution. For `q` below one half the chosen
/// statistic is the non-negative tail, so `one_sided_p_value` at the
/// critical value is that closest tail probability.
pub proof fn lemma_critical_value_round_trip(q: int)
    ensures
        forall|j: int|
            0 <= j < GRID_POINTS ==> grid_err(best_grid(q, GRID_POINTS as nat), q) <= #[trigger] grid_err(
                j,
                q,
            ),
        forall|z: int| z >= 0 ==> #[trigger] upper_tail(z) == normal_one_sided(z),
{
    lemma_best_grid(q, GRID_POINTS as nat);
}

/// The z-span between the rejection quantile (at half the two-sided
/// p-value bound) and the power quantile: the denominator scale of the
/// sample-size planners.
pub open spec fn rejection_region(power: int, max_p: int) -> int {
    grid_z(best_grid(max_p / 2, GRID_POINTS as nat)) - grid_z(best_grid(power, GRID_POINTS as nat))
}

/// The planners' z-span, from two critical values.
pub(crate) fn rejection_region_exec(power: UnitReal, max_p: UnitReal) -> (r: i64)
    ensures
        r == rejection_region(power@, max_p@),
        -8_000_000_000 <= r <= 8_000_000_000,
{
    let half: i64 = ((max_p.nanos() as u64) / 2) as i64;
    let z_reject = critical_value(UnitReal::new(half));
    let z_power = critical_value(power);
    proof {
        lemma_best_grid(half as int, GRID_POINTS as nat);
        lemma_best_grid(power@, GRID_POINTS as nat);
    }
    z_reject.nanos() - z_power.nanos()
}

/// The two-sided p-value is even in the statistic.
pub proof fn lemma_two_sided_symmetry(z: int)
    ensures
        normal_two_sided(z) == normal_two_sided(-z),
{
}

/// Every series term vanishes at argument zero, except the first.
proof fn lemma_exp_term_zero(n: nat)
    ensures
        exp_term(0, n) == if n == 0 {
            SCALE as int
        } else {
            0
        },
    decreases n,
{
    if n > 0 {
        lemma_exp_term_zero((n - 1) as nat);
        assert((exp_term(0, (n - 1) as nat) * 0) == 0);
        assert(0 < (n as int) * (SCALE as int)) by (nonlinear_arith)
            requires
                n >= 1,
                SCALE == 1_000_000_000,
        ;
        assert(0int / ((n as int) * (SCALE as int)) == 0);
    }
}

/// The series at argument zero is exactly one.
proof fn lemma_exp_series_zero(n: nat)
    ensures
        exp_series(0, n) == SCALE as int,
    decreases n,
{
    lemma_exp_term_zero(n);
    if n > 0 {
        lemma_exp_series_zero((n - 1) as nat);
    }
}

/// At a statistic of zero the two-sided p-value is exactly one.
pub proof fn lemma_two_sided_at_zero()
    ensures
        normal_two_sided(0) == SCALE as int,
{
    let s = SCALE as int;
    assert(sig_exponent(0) == 0) by (nonlinear_arith)
        requires
            SCALE == 1_000_000_000,
            SIG_CUBE == 44_170_000,
            SIG_LIN == 798_800_000,
    ;
    lemma_exp_series_zero(EXP_TERMS as nat);
    assert(exp_square(s) == s) by (nonlinear_arith)
        requires
            s == 1_000_000_000,
            EXP_CAP == 1_000_000_000_000_000_000,
    ;
    assert(exp_scaled(0) == s);
    assert(normal_tail(0) == (s * s) / (s + s));
    assert((s * s) / (s + s) == 500_000_000) by (nonlinear_arith)
        requires
            s == 1_000_000_000,
    ;
}

/// The pipeline's value at a statistic of two, in closed numeric form:
/// the one-sided tail is 0.022759994 and the two-sided p-value is
/// 0.045519988 — the approximation's rendering of the textbook 0.0455.
pub proof fn lemma_tail_at_two()
    ensures
        normal_tail(2_000_000_000) == 22_759_994,
        normal_one_sided(2_000_000_000) == 22_759_994,
        normal_two_sided(2_000_000_000) == 45_519_988,
{
    assert(sig_exponent(2_000_000_000) == 3_759_727_936) by (nonlinear_arith)
        requires
            SCALE == 1_000_000_000,
            SIG_LIN == 798_800_000,
            SIG_CUBE == 44_170_000,
    ;
    assert(exp_term(234_982_996int, 0) == 1_000_000_000);
    assert((1000000000int * 234_982_996) / (1int * 1_000_000_000) == 234982996) by (nonlinear_arith);
    assert(exp_term(234_982_996int, 1) == 234982996);
    assert((234982996int * 234_982_996) / (2int * 1_000_000_000) == 27608504) by (nonlinear_arith);
    assert(exp_term(234_982_996int, 2) == 27608504);
    assert((27608504int * 234_982_996) / (3int * 1_000_000_000) == 2162509) by (nonlinear_arith);
    assert(exp_term(234_982_996int, 3) == 2162509);
    assert((2162509int * 234_982_996) / (4int * 1_000_000_000) == 127038) by (nonlinear_arith);
    assert(exp_term(234_982_996int, 4) == 127038);
    assert((127038int * 234_982_996) / (5int * 1_000_000_000) == 5970) by (nonlinear_arith);
    assert(exp_term(234_982_996int, 5) == 5970);
    assert((5970int * 234_982_996) / (6int * 1_000_000_000) == 233) by (nonlinear_arith);
    assert(exp_term(234_982_996int, 6) == 233);
    assert((233int * 234_982_996) / (7int * 1_000_000_000) == 7) by (nonlinear_arith);
    assert(exp_term(234_982_996int, 7) == 7);
    assert((7int * 234_982_996) / (8int * 1_000_000_000) == 0) by (nonlinear_arith);
    assert(exp_term(234_982_996int, 8) == 0);
    assert((0int * 234_982_996) / (9int * 1_000_000_000) == 0) by (nonlinear_arith);
    assert(exp_term(234_982_996int, 9) == 0);
    assert((0int * 234_982_996) / (10int * 1_000_000_000) == 0) by (nonlinear_arith);
    assert(exp_term(234_982_996int, 10) == 0);
    assert((0int * 234_982_996) / (11int * 1_000_000_000) == 0) by (nonlinear_arith);
    assert(exp_term(234_982_996int, 11) == 0);
    assert((0int * 234_982_996) / (12int * 1_000_000_000) == 0) by (nonlinear_arith);
    assert(exp_term(234_982_996int, 12) == 0);
    assert((0int * 234_982_996) / (13int * 1_000_000_000) == 0) by (nonlinear_arith);
    assert(exp_term(234_982_996int, 13) == 0);
    assert((0int * 234_982_996) / (14int * 1_000_000_000) == 0) by (nonlinear_arith);
    assert(exp_term(234_982_996int, 14) == 0);
    assert((0int * 234_982_996) / (15int * 1_000_000_000) == 0) by (nonlinear_arith);
    assert(exp_term(234_982_996int, 15) == 0);
    assert((0int * 234_982_996) / (16int * 1_000_000_000) == 0) by (nonlinear_arith);
    assert(exp_term(234_982_996int, 16) == 0);
    assert((0int * 234_982_996) / (17int * 1_000_000_000) == 0) by (nonlinear_arith);
    assert(exp_term(234_982_996int, 17) == 0);
    assert((0int * 234_982_996) / (18int * 1_000_000_000) == 0) by (nonlinear_arith);
    assert(exp_term(234_982_996int, 18) == 0);
    assert((0int * 234_982_996) / (19int * 1_000_000_000) == 0) by (nonlinear_arith);
    assert(exp_term(234_982_996int, 19) == 0);
    assert((0int * 234_982_996) / (20int * 1_000_000_000) == 0) by (nonlinear_arith);
    assert(exp_term(234_982_996int, 20) == 0);
    assert((0int * 234_982_996) / (21int * 1_000_000_000) == 0) by (nonlinear_arith);
    assert(exp_term(234_982_996int, 21) == 0);
    assert((0int * 234_982_996) / (22int * 1_000_000_000) == 0) by (nonlinear_arith);
    assert(exp_term(234_982_996int, 22) == 0);
    assert((0int * 234_982_996) / (23int * 1_000_000_000) == 0) by (nonlinear_arith);
    assert(exp_term(234_982_996int, 23) == 0);
    assert((0int * 234_982_996) / (24int * 1_000_000_000) == 0) by (nonlinear_arith);
    assert(exp_term(234_982_996int, 24) == 0);
    assert(exp_series(234_982_996int, 0) == 1000000000);
    assert(exp_series(234_982_996int, 1) == 1234982996);
    assert(exp_series(234_982_996int, 2) == 1262591500);
    assert(exp_series(234_982_996int, 3) == 1264754009);
    assert(exp_series(234_982_996int, 4) == 1264881047);
    assert(exp_series(234_982_996int, 5) == 1264887017);
    assert(exp_series(234_982_996int, 6) == 1264887250);
    assert(exp_series(234_982_996int, 7) == 1264887257);
    assert(exp_series(234_982_996int, 8) == 1264887257);
    assert(exp_series(234_982_996int, 9) == 1264887257);
    assert(exp_series(234_982_996int, 10) == 1264887257);
    assert(exp_series(234_982_996int, 11) == 1264887257);
    assert(exp_series(234_982_996int, 12) == 1264887257);
    assert(exp_series(234_982_996int, 13) == 1264887257);
    assert(exp_series(234_982_996int, 14) == 1264887257);
    assert(exp_series(234_982_996int, 15) == 1264887257);
    assert(exp_series(234_982_996int, 16) == 1264887257);
    assert(exp_series(234_982_996int, 17) == 1264887257);
    assert(exp_series(234_982_996int, 18) == 1264887257);
    assert(exp_series(234_982_996int, 19) == 1264887257);
    assert(exp_series(234_982_996int, 20) == 1264887257);
    assert(exp_series(234_982_996int, 21) == 1264887257);
    assert(exp_series(234_982_996int, 22) == 1264887257);
    assert(exp_series(234_982_996int, 23) == 1264887257);
    assert(exp_series(234_982_996int, 24) == 1264887257);
    assert((1264887257int * 1264887257) / 1_000_000_000int == 1599939772) by (nonlinear_arith);
    assert(exp_square(1264887257) == 1599939772) by {
        assert((1264887257int * 1264887257) / (SCALE as int) == 1599939772);
    }
    assert((1599939772int * 1599939772) / 1_000_000_000int == 2559807274) by (nonlinear_arith);
    assert(exp_square(1599939772) == 2559807274) by {
        assert((1599939772int * 1599939772) / (SCALE as int) == 2559807274);
    }
    assert((2559807274int * 2559807274) / 1_000_000_000int == 6552613280) by (nonlinear_arith);
    assert(exp_square(2559807274) == 6552613280) by {
        assert((2559807274int * 2559807274) / (SCALE as int) == 6552613280);
    }
    assert((6552613280int * 6552613280) / 1_000_000_000int == 42936740797) by (nonlinear_arith);
    assert(exp_square(6552613280) == 42936740797) by {
        assert((6552613280int * 6552613280) / (SCALE as int) == 42936740797);
    }
    assert(exp_scaled(3_759_727_936) == 42_936_740_797);
    assert((1_000_000_000int * 1_000_000_000) / (1_000_000_000int + 42_936_740_797) == 22_759_994)
        by (nonlinear_arith);
    assert(normal_tail(2_000_000_000) == 22_759_994) by {
        assert(((SCALE as int) * (SCALE as int)) / ((SCALE as int) + 42_936_740_797) == 22_759_994);
    }
}

/// The one-sided p-value never increases as the statistic's magnitude
/// grows, and both p-values stay within the unit range.
pub proof fn lemma_one_sided_antitone(z1: int, z2: int)
    requires
        abs(z1) <= abs(z2),
    ensures
        normal_one_sided(z2) <= normal_one_sided(z1),
        0 <= normal_one_sided(z2),
        normal_two_sided(z2) <= normal_two_sided(z1),
        normal_two_sided(z1) <= SCALE as int,
{
    lemma_normal_tail_antitone(abs(z1) as int, abs(z2) as int);
}

} // verus!
