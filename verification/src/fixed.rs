//! Fixed-point arithmetic: reals as integer counts of nanounits.

use vstd::prelude::*;

verus! {

/// Number of nanounits in one; every real quantity is stored as an
/// integer multiple of `1 / SCALE`.
pub const SCALE: i64 = 1_000_000_000;

/// Largest magnitude, in nanounits, that a validated real may carry
/// (four billion wholes), chosen so that products of two in-range
/// values scaled back down stay far from `i64` overflow.
pub const VAL_MAX: i64 = 4_000_000_000_000_000_000;

/// Largest sample count a validated count may carry.
pub const COUNT_MAX: u64 = 1_000_000_000;

/// Integer square root: the largest `r` with `r * r <= n`.
pub open spec fn int_sqrt(n: nat) -> nat
    decreases n,
{
    if n == 0 {
        0
    } else {
        let r = int_sqrt((n - 1) as nat);
        if (r + 1) * (r + 1) <= n {
            r + 1
        } else {
            r
        }
    }
}

/// `int_sqrt(n)` brackets `n` between consecutive squares.
pub proof fn lemma_int_sqrt(n: nat)
    ensures
        int_sqrt(n) * int_sqrt(n) <= n,
        n < (int_sqrt(n) + 1) * (int_sqrt(n) + 1),
    decreases n,
{
    if n == 0 {
        assert(int_sqrt(0) == 0);
        let s = int_sqrt(n);
        assert(s * s <= n) by (nonlinear_arith)
            requires
                s == 0,
                n == 0,
        ;
        assert(n < (s + 1) * (s + 1)) by (nonlinear_arith)
            requires
                s == 0,
                n == 0,
        ;
    } else {
        lemma_int_sqrt((n - 1) as nat);
        let r = int_sqrt((n - 1) as nat);
        assert(r * r <= n - 1);
        assert(n - 1 < (r + 1) * (r + 1));
        if (r + 1) * (r + 1) <= n {
            assert(int_sqrt(n) == r + 1);
            assert(n < ((r + 1) + 1) * ((r + 1) + 1)) by (nonlinear_arith)
                requires
                    n - 1 < (r + 1) * (r + 1),
                    r >= 0,
            ;
        } else {
            assert(int_sqrt(n) == r);
            assert(r * r <= n);
            assert(n < (r + 1) * (r + 1));
        }
        let s = int_sqrt(n);
        assert(s * s <= n);
        assert(n < (s + 1) * (s + 1));
    }
}

/// Any `r` bracketing `n` between consecutive squares is `int_sqrt(n)`.
pub proof fn lemma_int_sqrt_unique(n: nat, r: nat)
    requires
        r * r <= n,
        n < (r + 1) * (r + 1),
    ensures
        r == int_sqrt(n),
{
    lemma_int_sqrt(n);
    let s = int_sqrt(n);
    assert(r == s) by (nonlinear_arith)
        requires
            r * r <= n < (r + 1) * (r + 1),
            s * s <= n < (s + 1) * (s + 1),
            r >= 0,
            s >= 0,
    ;
}

/// Square root of a nanounit value, in nanounits: scale up by one more
/// factor of `SCALE`, then take the integer root.
pub open spec fn sqrt_nano(t: int) -> int {
    int_sqrt((t * (SCALE as int)) as nat) as int
}

/// Signed quotient truncated toward zero, as the machine divides.
pub open spec fn sdiv(a: int, b: int) -> int {
    if a >= 0 {
        a / b
    } else {
        -((-a) / b)
    }
}

/// Rounded-up quotient.
pub open spec fn ceil_div(a: int, b: int) -> int {
    (a + b - 1) / b
}

/// Saturate a value at the largest representable magnitude.
pub open spec fn clamp_val(a: int) -> int {
    if a > VAL_MAX as int {
        VAL_MAX as int
    } else {
        a
    }
}

/// Fixed-point quotient `a / b` in nanounits, saturated at the largest
/// representable magnitude.
pub open spec fn div_nano_clamped(a: int, b: int) -> int {
    clamp_val((a * (SCALE as int)) / b)
}

/// Integer square root by bisection.
pub fn sqrt_u128(n: u128) -> (r: u64)
    requires
        n < 0x1_00000000_00000000_00000000_000000u128,
    ensures
        r as nat == int_sqrt(n as nat),
{
    let mut lo: u64 = 0;
    let mut hi: u64 = 0x2000_0000_0000_0000u64;
    while lo + 1 < hi
        invariant
            lo < hi,
            hi <= 0x2000_0000_0000_0000u64,
            (lo as u128) * (lo as u128) <= n,
            n < (hi as u128) * (hi as u128),
        decreases hi - lo,
    {
        let mid: u64 = lo + (hi - lo) / 2;
        proof {
            assert((mid as u128) * (mid as u128) < 0x40_00000000_00000000_00000000_000000u128)
                by (nonlinear_arith)
                requires
                    mid < 0x2000_0000_0000_0000u64,
            ;
        }
        if (mid as u128) * (mid as u128) <= n {
            lo = mid;
        } else {
            hi = mid;
        }
    }
    proof {
        lemma_int_sqrt_unique(n as nat, lo as nat);
    }
    lo
}

/// Square root of a nanounit value, in nanounits.
pub(crate) fn sqrt_nanos(t: i64) -> (r: i64)
    requires
        0 <= t <= VAL_MAX,
    ensures
        r == sqrt_nano(t as int),
        0 <= r <= 64_000_000_000_000i64,
{
    proof {
        assert((t as int) * (SCALE as int) <= 4_000_000_000_000_000_000_000_000_000int)
            by (nonlinear_arith)
            requires
                0 <= t as int <= VAL_MAX as int,
                VAL_MAX == 4_000_000_000_000_000_000,
                SCALE == 1_000_000_000,
        ;
        assert(4_000_000_000_000_000_000_000_000_000int < 1329227995784915872903807060280344576int);
    }
    let n: u128 = (t as u128) * (SCALE as u128);
    let r = sqrt_u128(n);
    proof {
        lemma_int_sqrt(n as nat);
        assert(r as int <= 64_000_000_000_000int) by (nonlinear_arith)
            requires
                (r as int) * (r as int) <= 4_000_000_000_000_000_000_000_000_000int,
                r as int >= 0,
        ;
    }
    r as i64
}

/// Fixed-point quotient of non-negative nanounit values, saturated at
/// the largest representable magnitude.
pub(crate) fn div_nanos_clamped(a: u64, b: u64) -> (r: i64)
    requires
        b >= 1,
    ensures
        r == div_nano_clamped(a as int, b as int),
        0 <= r <= VAL_MAX,
{
    proof {
        assert(0 <= (a as int) * (SCALE as int) <= 18446744073709551616int * 1_000_000_000int)
            by (nonlinear_arith)
            requires
                0 <= (a as int) < 18446744073709551616int,
                SCALE == 1_000_000_000,
        ;
    }
    let wide: u128 = (a as u128) * (SCALE as u128) / (b as u128);
    proof {
        vstd::arithmetic::div_mod::lemma_div_pos_is_pos((a as int) * (SCALE as int), b as int);
    }
    if wide > VAL_MAX as u128 {
        VAL_MAX
    } else {
        wide as i64
    }
}

} // verus!
