//! F distribution: a continuous p-value through the regularized
//! incomplete beta function, evaluated by fixed-point midpoint
//! quadrature of the beta integrand.
//!
//! For an F ratio `f` with `df_1` and `df_2` degrees of freedom, the
//! statistic is mapped to `x = df_1 * f / (df_1 * f + df_2)` and the
//! p-value is `1 - I_x(df_1 / 2, df_2 / 2)`, where `I` is the ratio of
//! the beta integrand's integral over `[0, x]` to its integral over
//! `[0, 1]`. Both integrals are midpoint sums over the same fixed grid,
//! the numerator keeping the cells below `x`, so the ratio — and with
//! it the p-value — is exactly monotone in the statistic.

use vstd::arithmetic::div_mod::{
    lemma_div_is_ordered, lemma_div_is_ordered_by_denominator, lemma_div_multiples_vanish,
    lemma_div_pos_is_pos,
};
use vstd::prelude::*;

use crate::domain::{DomainError, NonNegativeReal, PositiveCount, UnitReal};
use crate::fixed::{int_sqrt, lemma_int_sqrt, sqrt_nano, SCALE};

verus! {

/// Number of quadrature cells on the unit interval.
pub const QUAD_CELLS: u64 = 2048;

/// Largest value the square root of a unit-range nanounit value can
/// take, and the smallest it can take on a positive value.
pub const SQRT_UNIT_MIN: i64 = 31_622;

/// Upper bound of the beta integrand's half-power factors.
pub const HALF_POW_MAX: i64 = 31_623_553_222_440;

/// `b^k` in nanounits for `b` in the unit range, with the same
/// truncating steps as the executable code.
pub open spec fn pow_nano(b: int, k: nat) -> int
    decreases k,
{
    if k == 0 {
        SCALE as int
    } else {
        (pow_nano(b, (k - 1) as nat) * b) / (SCALE as int)
    }
}

/// `t^(m/2)` in nanounits for a half-integer exponent given as `m`,
/// twice the exponent: the beta integrand's factor for `m = df - 2`.
pub open spec fn half_pow(t: int, m: int) -> int {
    if m == -1 {
        ((SCALE as int) * (SCALE as int)) / sqrt_nano(t)
    } else if m % 2 == 0 {
        pow_nano(t, (m / 2) as nat)
    } else {
        (pow_nano(t, (m / 2) as nat) * sqrt_nano(t)) / (SCALE as int)
    }
}

/// The beta integrand `t^((df1-2)/2) * (1-t)^((df2-2)/2)` at `t`,
/// in nanounits, with `m1 = df1 - 2` and `m2 = df2 - 2`.
pub open spec fn beta_integrand(t: int, m1: int, m2: int) -> int {
    (half_pow(t, m1) * half_pow((SCALE as int) - t, m2)) / (SCALE as int)
}

/// Midpoint of quadrature cell `i`, in nanounits.
pub open spec fn quad_midpoint(i: int) -> int {
    ((2 * i + 1) * (SCALE as int)) / (2 * (QUAD_CELLS as int))
}

/// Sum of the beta integrand over the midpoints of the first `k` cells.
pub open spec fn beta_prefix(m1: int, m2: int, k: nat) -> int
    decreases k,
{
    if k == 0 {
        0
    } else {
        beta_prefix(m1, m2, (k - 1) as nat) + beta_integrand(quad_midpoint(k - 1), m1, m2)
    }
}

/// Number of whole quadrature cells below `x`.
pub open spec fn beta_cells(x: int) -> int {
    (x * (QUAD_CELLS as int)) / (SCALE as int)
}

/// The regularized incomplete beta value at `x` in nanounits: the ratio
/// of the prefix sum below `x` to the full sum.
pub open spec fn beta_ratio(x: int, m1: int, m2: int) -> int {
    (beta_prefix(m1, m2, beta_cells(x) as nat) * (SCALE as int)) / beta_prefix(
        m1,
        m2,
        QUAD_CELLS as nat,
    )
}

/// The transformed statistic `df1 * f / (df1 * f + df2)` in nanounits.
pub open spec fn f_ratio_x(f: int, d1: int, d2: int) -> int {
    ((d1 * f) * (SCALE as int)) / (d1 * f + d2 * (SCALE as int))
}

/// The F p-value in nanounits: one minus the incomplete beta value at
/// the transformed statistic, with half-exponents `df1 - 2`, `df2 - 2`.
pub open spec fn f_p_value_spec(f: int, d1: int, d2: int) -> int {
    (SCALE as int) - beta_ratio(f_ratio_x(f, d1, d2), d1 - 2, d2 - 2)
}

/// Whether the quadrature can resolve the integrand at all: its full
/// sum must be positive.
pub open spec fn f_resolvable(d1: int, d2: int) -> bool {
    beta_prefix(d1 - 2, d2 - 2, QUAD_CELLS as nat) > 0
}

/// Parameters of the F distribution: the F ratio and both degrees of
/// freedom.
#[derive(Clone, Copy, Debug)]
pub struct FParams {
    pub x: NonNegativeReal,
    pub df_1: PositiveCount,
    pub df_2: PositiveCount,
}

/// A power of a unit-range value stays in the unit range.
proof fn lemma_pow_nano_bounds(b: int, k: nat)
    requires
        0 <= b <= SCALE as int,
    ensures
        0 <= pow_nano(b, k) <= SCALE as int,
    decreases k,
{
    if k > 0 {
        lemma_pow_nano_bounds(b, (k - 1) as nat);
        let p = pow_nano(b, (k - 1) as nat);
        assert(0 <= p * b <= (SCALE as int) * (SCALE as int)) by (nonlinear_arith)
            requires
                0 <= p <= SCALE as int,
                0 <= b <= SCALE as int,
        ;
        lemma_div_pos_is_pos(p * b, SCALE as int);
        lemma_div_is_ordered(p * b, (SCALE as int) * (SCALE as int), SCALE as int);
        assert(((SCALE as int) * (SCALE as int)) / (SCALE as int) == SCALE as int)
            by (nonlinear_arith)
            requires
                SCALE == 1_000_000_000,
        ;
    }
}

/// Once a power truncates to zero it stays zero.
proof fn lemma_pow_nano_zero(b: int, j: nat, k: nat)
    requires
        0 <= b,
        pow_nano(b, j) == 0,
        j <= k,
    ensures
        pow_nano(b, k) == 0,
    decreases k - j,
{
    if j < k {
        lemma_pow_nano_zero(b, j, (k - 1) as nat);
        assert(pow_nano(b, (k - 1) as nat) * b == 0);
        assert(0int / (SCALE as int) == 0);
    }
}

/// The square root of a unit-range positive value lies between the
/// root of the smallest positive value and the root of one.
proof fn lemma_sqrt_nano_bounds(t: int)
    requires
        1 <= t <= SCALE as int,
    ensures
        SQRT_UNIT_MIN as int <= sqrt_nano(t) <= SCALE as int,
{
    let n = (t * (SCALE as int)) as nat;
    assert((SCALE as int) <= t * (SCALE as int) <= (SCALE as int) * (SCALE as int))
        by (nonlinear_arith)
        requires
            1 <= t <= SCALE as int,
            SCALE == 1_000_000_000,
    ;
    lemma_int_sqrt(n);
    let r = int_sqrt(n) as int;
    assert(r >= SQRT_UNIT_MIN as int) by (nonlinear_arith)
        requires
            (r + 1) * (r + 1) > 1_000_000_000,
            r >= 0,
            SQRT_UNIT_MIN == 31_622,
    ;
    assert(r <= SCALE as int) by (nonlinear_arith)
        requires
            r * r <= 1_000_000_000_000_000_000,
            r >= 0,
            SCALE == 1_000_000_000,
    ;
}

/// The half-power factors are bounded on the unit range.
proof fn lemma_half_pow_bounds(t: int, m: int)
    requires
        1 <= t <= SCALE as int,
        m >= -1,
    ensures
        0 <= half_pow(t, m) <= HALF_POW_MAX as int,
{
    let s = SCALE as int;
    lemma_sqrt_nano_bounds(t);
    if m == -1 {
        lemma_div_pos_is_pos(s * s, sqrt_nano(t));
        lemma_div_is_ordered_by_denominator(s * s, SQRT_UNIT_MIN as int, sqrt_nano(t));
        assert((s * s) / (SQRT_UNIT_MIN as int) == HALF_POW_MAX as int) by (nonlinear_arith)
            requires
                s == 1_000_000_000,
                SQRT_UNIT_MIN == 31_622,
                HALF_POW_MAX == 31_623_553_222_440,
        ;
    } else if m % 2 == 0 {
        lemma_pow_nano_bounds(t, (m / 2) as nat);
    } else {
        lemma_pow_nano_bounds(t, (m / 2) as nat);
        let p = pow_nano(t, (m / 2) as nat);
        let q = sqrt_nano(t);
        assert(0 <= p * q <= s * s) by (nonlinear_arith)
            requires
                0 <= p <= s,
                0 <= q <= s,
        ;
        lemma_div_pos_is_pos(p * q, s);
        lemma_div_is_ordered(p * q, s * s, s);
        assert((s * s) / s == s) by (nonlinear_arith)
            requires
                s == 1_000_000_000,
        ;
    }
}

/// The beta integrand is bounded at any interior grid value.
proof fn lemma_beta_integrand_bounds(t: int, m1: int, m2: int)
    requires
        1 <= t <= (SCALE as int) - 1,
        m1 >= -1,
        m2 >= -1,
    ensures
        0 <= beta_integrand(t, m1, m2) <= 2_000_000_000_000_000_000int,
{
    let s = SCALE as int;
    lemma_half_pow_bounds(t, m1);
    lemma_half_pow_bounds(s - t, m2);
    let h1 = half_pow(t, m1);
    let h2 = half_pow(s - t, m2);
    assert(0 <= h1 * h2 <= (HALF_POW_MAX as int) * (HALF_POW_MAX as int)) by (nonlinear_arith)
        requires
            0 <= h1 <= HALF_POW_MAX as int,
            0 <= h2 <= HALF_POW_MAX as int,
    ;
    lemma_div_pos_is_pos(h1 * h2, s);
    lemma_div_is_ordered(h1 * h2, (HALF_POW_MAX as int) * (HALF_POW_MAX as int), s);
    assert(((HALF_POW_MAX as int) * (HALF_POW_MAX as int)) / s <= 2_000_000_000_000_000_000int)
        by (nonlinear_arith)
        requires
            s == 1_000_000_000,
            HALF_POW_MAX == 31_623_553_222_440,
    ;
}

/// Every quadrature midpoint lies strictly inside the unit range.
proof fn lemma_quad_midpoint_bounds(i: int)
    requires
        0 <= i < QUAD_CELLS as int,
    ensures
        1 <= quad_midpoint(i) <= (SCALE as int) - 1,
{
    let s = SCALE as int;
    let q = 2 * (QUAD_CELLS as int);
    assert((1 * s) <= (2 * i + 1) * s <= 4095 * s) by (nonlinear_arith)
        requires
            0 <= i < 2048,
            s == 1_000_000_000,
            QUAD_CELLS == 2048,
    ;
    lemma_div_is_ordered(1 * s, (2 * i + 1) * s, q);
    lemma_div_is_ordered((2 * i + 1) * s, 4095 * s, q);
    assert((1 * s) / q == 244_140int) by (nonlinear_arith)
        requires
            s == 1_000_000_000,
            q == 4096,
    ;
    assert((4095 * s) / q == 999_755_859int) by (nonlinear_arith)
        requires
            s == 1_000_000_000,
            q == 4096,
    ;
}

/// Prefix sums of the integrand are non-negative and never decrease.
proof fn lemma_beta_prefix_mono(m1: int, m2: int, k1: nat, k2: nat)
    requires
        m1 >= -1,
        m2 >= -1,
        k1 <= k2 <= QUAD_CELLS as nat,
    ensures
        0 <= beta_prefix(m1, m2, k1) <= beta_prefix(m1, m2, k2),
    decreases k2,
{
    if k2 > 0 {
        if k1 == k2 {
            lemma_beta_prefix_mono(m1, m2, (k1 - 1) as nat, (k2 - 1) as nat);
            lemma_quad_midpoint_bounds(k2 - 1);
            lemma_beta_integrand_bounds(quad_midpoint(k2 - 1), m1, m2);
        } else {
            lemma_beta_prefix_mono(m1, m2, k1, (k2 - 1) as nat);
            lemma_quad_midpoint_bounds(k2 - 1);
            lemma_beta_integrand_bounds(quad_midpoint(k2 - 1), m1, m2);
        }
    }
}

/// Integer square root of a unit-range nanounit value.
fn sqrt_nano_exec(t: u64) -> (r: u64)
    requires
        1 <= t <= SCALE as u64,
    ensures
        r == sqrt_nano(t as int),
        SQRT_UNIT_MIN as u64 <= r <= SCALE as u64,
{
    proof {
        assert((t as int) * (SCALE as int) <= (SCALE as int) * (SCALE as int))
            by (nonlinear_arith)
            requires
                1 <= t as int <= SCALE as int,
        ;
        lemma_sqrt_nano_bounds(t as int);
    }
    let n: u128 = (t as u128) * (SCALE as u128);
    crate::fixed::sqrt_u128(n)
}

/// `b^k` in nanounits for a unit-range base.
fn pow_nano_exec(b: u64, k: u64) -> (r: u64)
    requires
        b <= SCALE as u64,
    ensures
        r == pow_nano(b as int, k as nat),
        r <= SCALE as u64,
{
    proof {
        lemma_pow_nano_bounds(b as int, k as nat);
    }
    let mut acc: u64 = SCALE as u64;
    let mut j: u64 = 0;
    while j < k
        invariant
            j <= k,
            b <= SCALE as u64,
            acc == pow_nano(b as int, j as nat),
            acc <= SCALE as u64,
        decreases k - j,
    {
        if acc == 0 {
            proof {
                lemma_pow_nano_zero(b as int, j as nat, k as nat);
            }
            return 0;
        }
        proof {
            let a = acc as int;
            let bi = b as int;
            assert(0 <= a * bi <= (SCALE as int) * (SCALE as int)) by (nonlinear_arith)
                requires
                    0 <= a <= SCALE as int,
                    0 <= bi <= SCALE as int,
            ;
            lemma_div_pos_is_pos(a * bi, SCALE as int);
            lemma_div_is_ordered(a * bi, (SCALE as int) * (SCALE as int), SCALE as int);
            assert(((SCALE as int) * (SCALE as int)) / (SCALE as int) == SCALE as int)
                by (nonlinear_arith)
                requires
                    SCALE == 1_000_000_000,
            ;
        }
        acc = ((acc as u128) * (b as u128) / (SCALE as u128)) as u64;
        j = j + 1;
    }
    acc
}

/// The half-power factor `t^(m/2)` for twice-exponent `m >= -1`.
fn half_pow_exec(t: u64, m: i64) -> (r: u64)
    requires
        1 <= t <= SCALE as u64,
        m >= -1,
    ensures
        r == half_pow(t as int, m as int),
        r <= HALF_POW_MAX as u64,
{
    proof {
        lemma_half_pow_bounds(t as int, m as int);
        lemma_sqrt_nano_bounds(t as int);
    }
    if m == -1 {
        let q = sqrt_nano_exec(t);
        (((SCALE as u128) * (SCALE as u128)) / (q as u128)) as u64
    } else if m % 2 == 0 {
        pow_nano_exec(t, (m / 2) as u64)
    } else {
        let p = pow_nano_exec(t, (m / 2) as u64);
        let q = sqrt_nano_exec(t);
        proof {
            assert((m as int) % 2 == 1 && (m as int) / 2 == (m / 2) as int) by (nonlinear_arith)
                requires
                    m >= 1,
                    m % 2 != 0,
                    (m / 2) as int == m as int / 2,
            ;
            let pi = p as int;
            let qi = q as int;
            assert(0 <= pi * qi <= (SCALE as int) * (SCALE as int)) by (nonlinear_arith)
                requires
                    0 <= pi <= SCALE as int,
                    0 <= qi <= SCALE as int,
            ;
        }
        (((p as u128) * (q as u128)) / (SCALE as u128)) as u64
    }
}

/// The beta integrand at an interior grid value.
fn beta_integrand_exec(t: u64, m1: i64, m2: i64) -> (r: u64)
    requires
        1 <= t <= (SCALE as u64) - 1,
        m1 >= -1,
        m2 >= -1,
    ensures
        r == beta_integrand(t as int, m1 as int, m2 as int),
        r <= 2_000_000_000_000_000_000u64,
{
    proof {
        lemma_beta_integrand_bounds(t as int, m1 as int, m2 as int);
    }
    let h1 = half_pow_exec(t, m1);
    let h2 = half_pow_exec(SCALE as u64 - t, m2);
    proof {
        let a = h1 as int;
        let b = h2 as int;
        assert(0 <= a * b <= (HALF_POW_MAX as int) * (HALF_POW_MAX as int)) by (nonlinear_arith)
            requires
                0 <= a <= HALF_POW_MAX as int,
                0 <= b <= HALF_POW_MAX as int,
        ;
    }
    (((h1 as u128) * (h2 as u128)) / (SCALE as u128)) as u64
}

/// Sum of the integrand over the midpoints of the first `k` cells.
fn beta_prefix_exec(m1: i64, m2: i64, k: u64) -> (r: u128)
    requires
        m1 >= -1,
        m2 >= -1,
        k <= QUAD_CELLS,
    ensures
        r == beta_prefix(m1 as int, m2 as int, k as nat),
        r <= 0x1000_0000_0000_0000_0000u128,
{
    proof {
        lemma_beta_prefix_mono(m1 as int, m2 as int, 0, k as nat);
    }
    let mut sum: u128 = 0;
    let mut i: u64 = 0;
    while i < k
        invariant
            i <= k <= QUAD_CELLS,
            m1 >= -1,
            m2 >= -1,
            sum == beta_prefix(m1 as int, m2 as int, i as nat),
            sum <= (i as u128) * 2_000_000_000_000_000_000u128,
        decreases k - i,
    {
        proof {
            let ii = i as int;
            let s = SCALE as int;
            assert(0 <= (2 * ii + 1) * s <= 4095 * s) by (nonlinear_arith)
                requires
                    0 <= ii < 2048,
                    s == 1_000_000_000,
            ;
            lemma_quad_midpoint_bounds(ii);
        }
        let t: u64 = (((2 * (i as u128) + 1) * (SCALE as u128)) / (2 * (QUAD_CELLS as u128))) as u64;
        proof {
            assert(t as int == quad_midpoint(i as int));
        }
        let g = beta_integrand_exec(t, m1, m2);
        proof {
            let ii = i as int;
            assert((ii + 1) * 2_000_000_000_000_000_000int <= 2048
                * 2_000_000_000_000_000_000int) by (nonlinear_arith)
                requires
                    0 <= ii < 2048,
            ;
            assert(sum + g as u128 <= (ii + 1) * 2_000_000_000_000_000_000int) by (nonlinear_arith)
                requires
                    sum <= ii * 2_000_000_000_000_000_000int,
                    g <= 2_000_000_000_000_000_000u64,
            ;
        }
        sum = sum + (g as u128);
        i = i + 1;
    }
    proof {
        assert((k as u128) * 2_000_000_000_000_000_000u128 <= 0x1000_0000_0000_0000_0000u128)
            by (nonlinear_arith)
            requires
                k <= 2048,
        ;
    }
    sum
}

/// The F distribution's cumulative evaluator.
pub struct FCdf {}

impl FCdf {
    /// A fresh evaluator; the distribution carries no state.
    pub fn new() -> (r: Self) {
        FCdf {}
    }

    /// Upper-tail p-value of the F statistic in `params`; fails only
    /// when the quadrature cannot resolve the integrand (its full sum
    /// truncates to zero, which happens for extreme degrees of freedom).
    pub fn p_value(&self, params: FParams) -> (r: Result<UnitReal, DomainError>)
        ensures
            r is Ok <==> f_resolvable(params.df_1@, params.df_2@),
            r matches Ok(p) ==> p@ == f_p_value_spec(params.x@, params.df_1@, params.df_2@),
            !f_resolvable(params.df_1@, params.df_2@) ==> r == Err::<UnitReal, DomainError>(
                DomainError::DegenerateScale,
            ),
    {
        let d1 = params.df_1.get();
        let d2 = params.df_2.get();
        let f = params.x.nanos();
        let m1: i64 = d1 as i64 - 2;
        let m2: i64 = d2 as i64 - 2;
        proof {
            assert(0 <= (d1 as int) * (f as int) <= 4_000_000_000_000_000_000_000_000_000int)
                by (nonlinear_arith)
                requires
                    1 <= d1 as int <= 1_000_000_000,
                    0 <= f as int <= 4_000_000_000_000_000_000,
            ;
            assert(0 < (d2 as int) * (SCALE as int) <= 1_000_000_000_000_000_000int)
                by (nonlinear_arith)
                requires
                    1 <= d2 as int <= 1_000_000_000,
                    SCALE == 1_000_000_000,
            ;
        }
        let u: u128 = (d1 as u128) * (f as u128);
        let c: u128 = (d2 as u128) * (SCALE as u128);
        proof {
            let ui = u as int;
            let ci = c as int;
            assert(0 <= ui * (SCALE as int) <= 4_000_000_000_000_000_000_000_000_000int
                * 1_000_000_000int) by (nonlinear_arith)
                requires
                    0 <= ui <= 4_000_000_000_000_000_000_000_000_000int,
                    SCALE == 1_000_000_000,
            ;
            lemma_div_pos_is_pos(ui * (SCALE as int), ui + ci);
            assert(ui * (SCALE as int) <= (ui + ci) * (SCALE as int)) by (nonlinear_arith)
                requires
                    0 <= ui,
                    0 < ci,
                    SCALE == 1_000_000_000,
            ;
            lemma_div_is_ordered(ui * (SCALE as int), (ui + ci) * (SCALE as int), ui + ci);
            assert(((ui + ci) * (SCALE as int)) / (ui + ci) == SCALE as int) by {
                lemma_div_multiples_vanish(SCALE as int, ui + ci);
            }
        }
        let x: u64 = ((u * (SCALE as u128)) / (u + c)) as u64;
        proof {
            assert(x as int == f_ratio_x(f as int, d1 as int, d2 as int));
            assert(0 <= x as int <= SCALE as int);
        }
        let total = beta_prefix_exec(m1, m2, QUAD_CELLS);
        if total == 0 {
            return Err(DomainError::DegenerateScale);
        }
        proof {
            let xi = x as int;
            let s = SCALE as int;
            assert(0 <= xi * (QUAD_CELLS as int) <= 2048 * s) by (nonlinear_arith)
                requires
                    0 <= xi <= s,
                    QUAD_CELLS == 2048,
                    s == 1_000_000_000,
            ;
        }
        let k: u64 = (((x as u128) * (QUAD_CELLS as u128)) / (SCALE as u128)) as u64;
        proof {
            let xi = x as int;
            let s = SCALE as int;
            lemma_div_pos_is_pos(xi * (QUAD_CELLS as int), s);
            lemma_div_is_ordered(xi * (QUAD_CELLS as int), 2048 * s, s);
            assert((2048 * s) / s == 2048) by (nonlinear_arith)
                requires
                    s == 1_000_000_000,
            ;
            assert(k as int == beta_cells(x as int));
            assert(0 <= k <= QUAD_CELLS);
        }
        let num = beta_prefix_exec(m1, m2, k);
        proof {
            lemma_beta_prefix_mono(m1 as int, m2 as int, k as nat, QUAD_CELLS as nat);
            let n = num as int;
            let tt = total as int;
            let s = SCALE as int;
            assert(n * s <= tt * s) by (nonlinear_arith)
                requires
                    0 <= n <= tt,
                    s == 1_000_000_000,
            ;
            lemma_div_is_ordered(n * s, tt * s, tt);
            assert((tt * s) / tt == s) by {
                assert(tt * s == s * tt) by (nonlinear_arith);
                lemma_div_multiples_vanish(s, tt);
            }
            lemma_div_pos_is_pos(n * s, tt);
        }
        let ratio: u64 = (((num as u128) * (SCALE as u128)) / total) as u64;
        Ok(UnitReal::new(SCALE - ratio as i64))
    }
}

impl Default for FCdf {
    /// The same stateless evaluator.
    fn default() -> (r: Self) {
        FCdf::new()
    }
}

/// Division respects cross-multiplied order: if `a1 * b2 <= a2 * b1`
/// then `a1 / b1 <= a2 / b2`.
proof fn lemma_div_cross(a1: int, b1: int, a2: int, b2: int)
    requires
        0 <= a1,
        0 <= a2,
        0 < b1,
        0 < b2,
        a1 * b2 <= a2 * b1,
    ensures
        a1 / b1 <= a2 / b2,
{
    let q = a1 / b1;
    vstd::arithmetic::div_mod::lemma_fundamental_div_mod(a1, b1);
    vstd::arithmetic::div_mod::lemma_mod_division_less_than_divisor(a1, b1);
    lemma_div_pos_is_pos(a1, b1);
    assert(q * b1 <= a1);
    assert(q * b1 * b2 <= a1 * b2) by (nonlinear_arith)
        requires
            q * b1 <= a1,
            0 < b2,
    ;
    assert(q * b2 * b1 <= a2 * b1) by (nonlinear_arith)
        requires
            q * b1 * b2 <= a1 * b2,
            a1 * b2 <= a2 * b1,
    ;
    assert(q * b2 <= a2) by (nonlinear_arith)
        requires
            q * b2 * b1 <= a2 * b1,
            0 < b1,
    ;
    lemma_div_is_ordered(q * b2, a2, b2);
    assert((q * b2) / b2 == q) by {
        assert(q * b2 == b2 * q) by (nonlinear_arith);
        lemma_div_multiples_vanish(q, b2);
    }
}

/// For fixed degrees of freedom the F p-value never increases with the
/// statistic, and lies within the unit range.
pub proof fn lemma_f_p_value_antitone(f1: int, f2: int, d1: int, d2: int)
    requires
        0 <= f1 <= f2,
        1 <= d1,
        1 <= d2,
        f_resolvable(d1, d2),
    ensures
        f_p_value_spec(f2, d1, d2) <= f_p_value_spec(f1, d1, d2),
        0 <= f_p_value_spec(f2, d1, d2),
        f_p_value_spec(f1, d1, d2) <= SCALE as int,
{
    let s = SCALE as int;
    let m1 = d1 - 2;
    let m2 = d2 - 2;
    let u1 = d1 * f1;
    let u2 = d1 * f2;
    let c = d2 * s;
    assert(0 <= u1 <= u2) by (nonlinear_arith)
        requires
            0 <= f1 <= f2,
            1 <= d1,
            u1 == d1 * f1,
            u2 == d1 * f2,
    ;
    assert(0 < c) by (nonlinear_arith)
        requires
            1 <= d2,
            s == 1_000_000_000,
            c == d2 * s,
    ;
    // The transformed statistic is monotone: cross-multiplied order.
    assert((u1 * s) * (u2 + c) <= (u2 * s) * (u1 + c)) by (nonlinear_arith)
        requires
            0 <= u1 <= u2,
            0 < c,
            s == 1_000_000_000,
    ;
    lemma_div_cross(u1 * s, u1 + c, u2 * s, u2 + c);
    let x1 = f_ratio_x(f1, d1, d2);
    let x2 = f_ratio_x(f2, d1, d2);
    assert(x1 <= x2);
    lemma_div_pos_is_pos(u1 * s, u1 + c);
    assert(0 <= u1 * s) by (nonlinear_arith)
        requires
            0 <= u1,
            s == 1_000_000_000,
    ;
    // Whole cells below the statistic are monotone too.
    assert(x1 * (QUAD_CELLS as int) <= x2 * (QUAD_CELLS as int)) by (nonlinear_arith)
        requires
            x1 <= x2,
            QUAD_CELLS == 2048,
    ;
    lemma_div_is_ordered(x1 * (QUAD_CELLS as int), x2 * (QUAD_CELLS as int), s);
    let k1 = beta_cells(x1);
    let k2 = beta_cells(x2);
    assert(0 <= x1 * (QUAD_CELLS as int)) by (nonlinear_arith)
        requires
            0 <= x1,
            QUAD_CELLS == 2048,
    ;
    lemma_div_pos_is_pos(x1 * (QUAD_CELLS as int), s);
    // The statistic never maps beyond the last cell.
    lemma_x_within_unit(f2, d1, d2);
    lemma_x_within_unit(f1, d1, d2);
    assert(x2 * (QUAD_CELLS as int) <= 2048 * s) by (nonlinear_arith)
        requires
            x2 <= s,
            QUAD_CELLS == 2048,
    ;
    lemma_div_is_ordered(x2 * (QUAD_CELLS as int), 2048 * s, s);
    assert((2048 * s) / s == 2048) by (nonlinear_arith)
        requires
            s == 1_000_000_000,
    ;
    let total = beta_prefix(m1, m2, QUAD_CELLS as nat);
    lemma_beta_prefix_mono(m1, m2, k1 as nat, k2 as nat);
    lemma_beta_prefix_mono(m1, m2, k2 as nat, QUAD_CELLS as nat);
    let n1 = beta_prefix(m1, m2, k1 as nat);
    let n2 = beta_prefix(m1, m2, k2 as nat);
    assert(n1 * s <= n2 * s) by (nonlinear_arith)
        requires
            0 <= n1 <= n2,
            s == 1_000_000_000,
    ;
    lemma_div_is_ordered(n1 * s, n2 * s, total);
    assert(n2 * s <= total * s) by (nonlinear_arith)
        requires
            0 <= n2 <= total,
            s == 1_000_000_000,
    ;
    lemma_div_is_ordered(n2 * s, total * s, total);
    assert((total * s) / total == s) by {
        assert(total * s == s * total) by (nonlinear_arith);
        lemma_div_multiples_vanish(s, total);
    }
    lemma_div_pos_is_pos(n1 * s, total);
    assert(0 <= n1 * s) by (nonlinear_arith)
        requires
            0 <= n1,
            s == 1_000_000_000,
    ;
}

/// The transformed statistic stays within the unit range.
proof fn lemma_x_within_unit(f: int, d1: int, d2: int)
    requires
        0 <= f,
        1 <= d1,
        1 <= d2,
    ensures
        0 <= f_ratio_x(f, d1, d2) <= SCALE as int,
{
    let s = SCALE as int;
    let u = d1 * f;
    let c = d2 * s;
    assert(0 <= u) by (nonlinear_arith)
        requires
            0 <= f,
            1 <= d1,
            u == d1 * f,
    ;
    assert(0 < c) by (nonlinear_arith)
        requires
            1 <= d2,
            s == 1_000_000_000,
            c == d2 * s,
    ;
    assert(0 <= u * s <= (u + c) * s) by (nonlinear_arith)
        requires
            0 <= u,
            0 < c,
            s == 1_000_000_000,
    ;
    lemma_div_pos_is_pos(u * s, u + c);
    lemma_div_is_ordered(u * s, (u + c) * s, u + c);
    assert(((u + c) * s) / (u + c) == s) by {
        assert((u + c) * s == s * (u + c)) by (nonlinear_arith);
        lemma_div_multiples_vanish(s, u + c);
    }
}

/// A zero F statistic has a p-value of exactly one: the incomplete
/// beta value at the lower end of the range vanishes.
pub proof fn lemma_f_p_value_at_zero(d1: int, d2: int)
    requires
        1 <= d1,
        1 <= d2,
        f_resolvable(d1, d2),
    ensures
        f_p_value_spec(0, d1, d2) == SCALE as int,
{
    let s = SCALE as int;
    assert(d1 * 0 == 0) by (nonlinear_arith);
    assert(0 < d2 * s) by (nonlinear_arith)
        requires
            1 <= d2,
            s == 1_000_000_000,
    ;
    assert(f_ratio_x(0, d1, d2) == 0int / (d2 * s));
    assert(0int / (d2 * s) == 0);
    assert(beta_cells(0) == 0int / s);
    assert(0int / s == 0);
    let total = beta_prefix(d1 - 2, d2 - 2, QUAD_CELLS as nat);
    assert(beta_prefix(d1 - 2, d2 - 2, 0) == 0);
    assert(0int * s == 0) by (nonlinear_arith);
    assert(0int / total == 0);
}

} // verus!
