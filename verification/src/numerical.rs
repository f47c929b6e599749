//! Hypothesis tests on numeric samples given by their sufficient
//! statistics: one- and two-sample t-tests of means, the sample-size
//! planner for two means, and one-way analysis of variance.

use vstd::math::abs;
use vstd::prelude::*;

use crate::domain::{DomainError, FiniteReal, NonNegativeReal, PositiveCount, UnitReal};
use crate::f::{f_p_value_spec, f_resolvable, FCdf, FParams};
use crate::fixed::{
    clamp_val, div_nano_clamped, div_nanos_clamped, sdiv, sqrt_nano, sqrt_nanos, COUNT_MAX, SCALE,
    VAL_MAX,
};
use crate::t::TScoreTable;

verus! {

/// One numeric sample's sufficient statistics: mean, variance and size.
#[derive(Clone, Copy, Debug)]
pub struct NumericalSample {
    pub mean: FiniteReal,
    pub variance: NonNegativeReal,
    pub count: PositiveCount,
}

/// Squared standard error of a mean estimate: `variance / count`.
pub open spec fn sample_se2(v: int, c: int) -> int {
    v / c
}

impl NumericalSample {
    /// Squared standard error of the sample's mean estimate.
    pub fn standard_error_squared(&self) -> (r: NonNegativeReal)
        ensures
            r@ == sample_se2(self.variance@, self.count@),
    {
        let v = self.variance.nanos() as u64;
        let c = self.count.get();
        proof {
            vstd::arithmetic::div_mod::lemma_div_pos_is_pos(v as int, c as int);
            vstd::arithmetic::div_mod::lemma_div_is_ordered_by_denominator(
                v as int,
                1,
                c as int,
            );
        }
        NonNegativeReal::new((v / c) as i64)
    }
}

/// The t statistic of the one-sample mean test.
pub open spec fn one_mean_t(m: int, v: int, c: int, m0: int) -> int {
    div_nano_clamped(abs(m - m0) as int, sqrt_nano(sample_se2(v, c)))
}

/// Two-sided t-test of one sample's mean against a null mean `mean_0`.
///
/// Fails on a sample of one (no degrees of freedom) and when the
/// standard error vanishes (a variance below the fixed-point grain
/// times the count).
pub fn one_sample_mean(table: &TScoreTable, sample: NumericalSample, mean_0: FiniteReal) -> (r:
    Result<UnitReal, DomainError>)
    ensures
        r is Ok <==> sample.count@ >= 2 && sqrt_nano(sample_se2(sample.variance@, sample.count@))
            > 0,
        r matches Ok(p) ==> p@ == table.two_sided_spec(
            sample.count@ - 1,
            one_mean_t(sample.mean@, sample.variance@, sample.count@, mean_0@),
        ),
        sample.count@ < 2 ==> r == Err::<UnitReal, DomainError>(DomainError::ZeroCount),
        sample.count@ >= 2 && sqrt_nano(sample_se2(sample.variance@, sample.count@)) == 0 ==> r
            == Err::<UnitReal, DomainError>(DomainError::DegenerateScale),
{
    let c = sample.count.get();
    if c < 2 {
        return Err(DomainError::ZeroCount);
    }
    let se2 = sample.standard_error_squared();
    let se = sqrt_nanos(se2.nanos());
    if se == 0 {
        return Err(DomainError::DegenerateScale);
    }
    let m = sample.mean.nanos();
    let m0 = mean_0.nanos();
    let diff: i64 = m - m0;
    let mag: u64 = if diff < 0 {
        (-diff) as u64
    } else {
        diff as u64
    };
    let t = FiniteReal::new(div_nanos_clamped(mag, se as u64));
    let df = PositiveCount::new_checked(c - 1);
    Ok(table.p_value_two_sided(df, t))
}

/// The t statistic of the two-sample mean-difference test.
pub open spec fn two_means_t(
    m1: int,
    v1: int,
    c1: int,
    m2: int,
    v2: int,
    c2: int,
    m0: int,
) -> int {
    div_nano_clamped(
        abs(m1 - m2 - m0) as int,
        sqrt_nano(clamp_val(sample_se2(v1, c1) + sample_se2(v2, c2))),
    )
}

/// Two-sided t-test of the difference of two means against a null
/// difference `mean_0`, at the smaller sample's degrees of freedom.
pub fn difference_of_two_means(
    table: &TScoreTable,
    sample_1: NumericalSample,
    sample_2: NumericalSample,
    mean_0: FiniteReal,
) -> (r: Result<UnitReal, DomainError>)
    ensures
        ({
            let se2 = clamp_val(
                sample_se2(sample_1.variance@, sample_1.count@) + sample_se2(
                    sample_2.variance@,
                    sample_2.count@,
                ),
            );
            let df = vstd::math::min(sample_1.count@, sample_2.count@) - 1;
            &&& (r is Ok <==> df >= 1 && sqrt_nano(se2) > 0)
            &&& (r matches Ok(p) ==> p@ == table.two_sided_spec(
                df,
                two_means_t(
                    sample_1.mean@,
                    sample_1.variance@,
                    sample_1.count@,
                    sample_2.mean@,
                    sample_2.variance@,
                    sample_2.count@,
                    mean_0@,
                ),
            ))
            &&& (df < 1 ==> r == Err::<UnitReal, DomainError>(DomainError::ZeroCount))
            &&& (df >= 1 && sqrt_nano(se2) == 0 ==> r == Err::<UnitReal, DomainError>(
                DomainError::DegenerateScale,
            ))
        }),
{
    let c1 = sample_1.count.get();
    let c2 = sample_2.count.get();
    let cmin = if c1 < c2 {
        c1
    } else {
        c2
    };
    if cmin < 2 {
        return Err(DomainError::ZeroCount);
    }
    let se2_1 = sample_1.standard_error_squared();
    let se2_2 = sample_2.standard_error_squared();
    let sum: i64 = se2_1.nanos() + se2_2.nanos();
    let se2: i64 = if sum > VAL_MAX {
        VAL_MAX
    } else {
        sum
    };
    let se = sqrt_nanos(se2);
    if se == 0 {
        return Err(DomainError::DegenerateScale);
    }
    let m1 = sample_1.mean.nanos();
    let m2 = sample_2.mean.nanos();
    let m0 = mean_0.nanos();
    let wide: i128 = (m1 as i128) - (m2 as i128) - (m0 as i128);
    let mag: u64 = if wide < 0 {
        ((-wide) as u128) as u64
    } else {
        (wide as u128) as u64
    };
    let t = FiniteReal::new(div_nanos_clamped(mag, se as u64));
    let df = PositiveCount::new_checked(cmin - 1);
    Ok(table.p_value_two_sided(df, t))
}

/// Smallest size of each of two samples with which a true mean
/// difference `mean_a` away from a null of zero is detected: rejected
/// at `max_p_value` with probability `power`, given the two samples'
/// variances. The rejection region enters the formula squared, so its
/// sign does not matter; a zero region yields a count of zero.
///
/// Fails when the mean difference is zero, and when the needed count
/// exceeds the machine's range.
pub fn min_count_of_each_of_two_samples(
    mean_a: FiniteReal,
    power: UnitReal,
    max_p_value: UnitReal,
    deviation_1: NonNegativeReal,
    deviation_2: NonNegativeReal,
) -> (r: Result<usize, DomainError>)
    ensures
        ({
            let region = crate::normal::rejection_region(power@, max_p_value@);
            let d = abs(mean_a@) as int;
            let n = crate::categorical::planned_count(deviation_1@ + deviation_2@, region, d);
            &&& (r is Ok <==> d > 0 && n <= usize::MAX)
            &&& (r matches Ok(c) ==> c == n)
            &&& (d == 0 ==> r == Err::<usize, DomainError>(DomainError::DegenerateScale))
            &&& (d > 0 && n > usize::MAX ==> r == Err::<usize, DomainError>(
                DomainError::MagnitudeTooLarge,
            ))
        }),
{
    let region = crate::normal::rejection_region_exec(power, max_p_value);
    let rm: u64 = if region < 0 {
        (-region) as u64
    } else {
        region as u64
    };
    let ma = mean_a.nanos();
    if ma == 0 {
        return Err(DomainError::DegenerateScale);
    }
    let mag: u64 = if ma < 0 {
        (-ma) as u64
    } else {
        ma as u64
    };
    let sum: i64 = deviation_1.nanos() + deviation_2.nanos();
    let ec: u64 = if sum > VAL_MAX {
        VAL_MAX as u64
    } else {
        sum as u64
    };
    proof {
        let ei = ec as int;
        let ri = region as int;
        let rmi = rm as int;
        assert(rmi * rmi == ri * ri) by (nonlinear_arith)
            requires
                rmi == abs(ri),
        ;
        assert(0 <= ei * rmi <= 4_000_000_000_000_000_000int * 8_000_000_000) by (nonlinear_arith)
            requires
                0 <= ei <= 4_000_000_000_000_000_000,
                0 <= rmi <= 8_000_000_000,
        ;
        assert(0 <= ei * rmi * rmi <= 4_000_000_000_000_000_000int * 8_000_000_000 * 8_000_000_000)
            by (nonlinear_arith)
            requires
                0 <= ei <= 4_000_000_000_000_000_000,
                0 <= rmi <= 8_000_000_000,
        ;
        assert(ei * rmi * rmi == ei * ri * ri) by (nonlinear_arith)
            requires
                rmi * rmi == ri * ri,
        ;
        vstd::arithmetic::div_mod::lemma_div_pos_is_pos(ei * rmi * rmi, SCALE as int);
        assert(0 < (mag as int) * (mag as int) <= 4_000_000_000_000_000_000int
            * 4_000_000_000_000_000_000) by (nonlinear_arith)
            requires
                1 <= mag as int <= 4_000_000_000_000_000_000,
        ;
    }
    let num: u128 = (ec as u128) * (rm as u128) * (rm as u128) / (SCALE as u128);
    let den: u128 = (mag as u128) * (mag as u128);
    let count: u128 = (num + den - 1) / den;
    proof {
        vstd::arithmetic::div_mod::lemma_div_pos_is_pos(num as int + den as int - 1, den as int);
    }
    if count > usize::MAX as u128 {
        return Err(DomainError::MagnitudeTooLarge);
    }
    Ok(count as usize)
}

/// Sum of the first `n` groups' sizes.
pub open spec fn count_sum(g: Seq<NumericalSample>, n: nat) -> int
    decreases n,
{
    if n == 0 {
        0
    } else {
        count_sum(g, (n - 1) as nat) + g[n - 1].count@
    }
}

/// Partial size sums grow with the number of groups taken.
proof fn lemma_count_sum_mono(g: Seq<NumericalSample>, a: nat, b: nat)
    requires
        a <= b,
    ensures
        count_sum(g, a) <= count_sum(g, b),
    decreases b,
{
    if a < b && b > 0 {
        lemma_count_sum_mono(g, a, (b - 1) as nat);
        g[b - 1].count.lemma_view_nonneg();
    }
}

/// Sum of the first `n` groups' means weighted by their sizes.
pub open spec fn weighted_mean_sum(g: Seq<NumericalSample>, n: nat) -> int
    decreases n,
{
    if n == 0 {
        0
    } else {
        weighted_mean_sum(g, (n - 1) as nat) + g[n - 1].count@ * g[n - 1].mean@
    }
}

/// The grand mean: the size-weighted mean of the group means.
pub open spec fn anova_grand_mean(g: Seq<NumericalSample>) -> int {
    sdiv(weighted_mean_sum(g, g.len()), count_sum(g, g.len()))
}

/// Between-group sum of squares over the first `n` groups, around the
/// grand mean `gm`, each step saturated.
pub open spec fn ssg_sum(g: Seq<NumericalSample>, gm: int, n: nat) -> int
    decreases n,
{
    if n == 0 {
        0
    } else {
        clamp_val(
            ssg_sum(g, gm, (n - 1) as nat) + g[n - 1].count@ * (((g[n - 1].mean@ - gm) * (g[n
                - 1].mean@ - gm)) / (SCALE as int)),
        )
    }
}

/// Within-group (error) sum of squares over the first `n` groups, each
/// step saturated.
pub open spec fn sse_sum(g: Seq<NumericalSample>, n: nat) -> int
    decreases n,
{
    if n == 0 {
        0
    } else {
        clamp_val(sse_sum(g, (n - 1) as nat) + (g[n - 1].count@ - 1) * g[n - 1].variance@)
    }
}

/// Mean square between groups.
pub open spec fn anova_msg(g: Seq<NumericalSample>) -> int {
    ssg_sum(g, anova_grand_mean(g), g.len()) / (g.len() - 1)
}

/// Mean square of error.
pub open spec fn anova_mse(g: Seq<NumericalSample>) -> int {
    sse_sum(g, g.len()) / (count_sum(g, g.len()) - g.len())
}

/// The F ratio of the analysis of variance.
pub open spec fn anova_f(g: Seq<NumericalSample>) -> int {
    div_nano_clamped(anova_msg(g), anova_mse(g))
}

/// One-way analysis of variance. Null hypothesis: all group means are
/// equal.
///
/// Returns the F statistic with its degrees of freedom and the p-value.
/// Fails with fewer than two groups, with a total count beyond the
/// supported range, with no error degrees of freedom (every group of
/// size one), with a zero mean square of error, and when the F
/// distribution's quadrature cannot resolve the degrees of freedom.
pub fn anova(groups: &[NumericalSample]) -> (r: Result<(FParams, UnitReal), DomainError>)
    ensures
        ({
            let g = groups@;
            let k = g.len() as int;
            let nt = count_sum(g, g.len());
            &&& (r is Ok <==> k >= 2 && nt <= COUNT_MAX && nt > k && anova_mse(g) > 0
                && f_resolvable(k - 1, nt - k))
            &&& (r matches Ok(pair) ==> pair.0.x@ == anova_f(g) && pair.0.df_1@ == k - 1
                && pair.0.df_2@ == nt - k && pair.1@ == f_p_value_spec(anova_f(g), k - 1, nt - k))
            &&& (k < 2 ==> r == Err::<(FParams, UnitReal), DomainError>(DomainError::TooFewGroups))
            &&& (k >= 2 && nt > COUNT_MAX ==> r == Err::<(FParams, UnitReal), DomainError>(
                DomainError::CountTooLarge,
            ))
            &&& (k >= 2 && nt <= COUNT_MAX && nt <= k ==> r == Err::<
                (FParams, UnitReal),
                DomainError,
            >(DomainError::ZeroCount))
            &&& (k >= 2 && nt <= COUNT_MAX && nt > k && anova_mse(g) == 0 ==> r == Err::<
                (FParams, UnitReal),
                DomainError,
            >(DomainError::DegenerateScale))
            &&& (k >= 2 && nt <= COUNT_MAX && nt > k && anova_mse(g) > 0 && !f_resolvable(
                k - 1,
                nt - k,
            ) ==> r == Err::<(FParams, UnitReal), DomainError>(DomainError::DegenerateScale))
        }),
{
    let k = groups.len();
    if k < 2 {
        return Err(DomainError::TooFewGroups);
    }
    // Total size of all groups.
    let mut total: u128 = 0;
    let mut i: usize = 0;
    while i < k
        invariant
            i <= k == groups@.len(),
            total == count_sum(groups@, i as nat),
            (i as int) <= total <= (i as int) * 1_000_000_000,
        decreases k - i,
    {
        let c = groups[i].count.get();
        total = total + (c as u128);
        i = i + 1;
    }
    if total > COUNT_MAX as u128 {
        return Err(DomainError::CountTooLarge);
    }
    let nt: u64 = total as u64;
    if nt <= k as u64 {
        return Err(DomainError::ZeroCount);
    }
    // Grand mean: size-weighted sum of the means over the total size.
    let mut wsum: i128 = 0;
    let mut j: usize = 0;
    while j < k
        invariant
            j <= k == groups@.len(),
            nt == count_sum(groups@, k as nat),
            nt <= COUNT_MAX,
            wsum == weighted_mean_sum(groups@, j as nat),
            count_sum(groups@, j as nat) <= nt,
            -(count_sum(groups@, j as nat) * 4_000_000_000_000_000_000) <= wsum <= count_sum(
                groups@,
                j as nat,
            ) * 4_000_000_000_000_000_000,
        decreases k - j,
    {
        let c = groups[j].count.get();
        let m = groups[j].mean.nanos();
        proof {
            lemma_count_sum_mono(groups@, (j + 1) as nat, k as nat);
            assert(count_sum(groups@, (j + 1) as nat) == count_sum(groups@, j as nat) + c);
            let cs = count_sum(groups@, j as nat);
            assert(-((c as int) * 4_000_000_000_000_000_000) <= (c as int) * (m as int) <= (
            c as int) * 4_000_000_000_000_000_000) by (nonlinear_arith)
                requires
                    1 <= c as int,
                    -4_000_000_000_000_000_000 <= m as int <= 4_000_000_000_000_000_000,
            ;
            assert((cs + c) * 4_000_000_000_000_000_000 == cs * 4_000_000_000_000_000_000 + (
            c as int) * 4_000_000_000_000_000_000) by (nonlinear_arith);
        }
        wsum = wsum + (c as i128) * (m as i128);
        j = j + 1;
    }
    let wmag: u128 = if wsum < 0 {
        (-wsum) as u128
    } else {
        wsum as u128
    };
    let gmag: u128 = wmag / (nt as u128);
    proof {
        let w = wsum as int;
        let wm = wmag as int;
        let n = nt as int;
        assert(wm <= n * 4_000_000_000_000_000_000) by (nonlinear_arith)
            requires
                wm == abs(w),
                -(n * 4_000_000_000_000_000_000) <= w <= n * 4_000_000_000_000_000_000,
        ;
        vstd::arithmetic::div_mod::lemma_div_pos_is_pos(wm, n);
        vstd::arithmetic::div_mod::lemma_div_is_ordered(wm, n * 4_000_000_000_000_000_000, n);
        assert((n * 4_000_000_000_000_000_000) / n == 4_000_000_000_000_000_000int) by {
            vstd::arithmetic::div_mod::lemma_div_multiples_vanish(4_000_000_000_000_000_000int, n);
        }
    }
    let gm: i64 = if wsum < 0 {
        -(gmag as i64)
    } else {
        gmag as i64
    };
    proof {
        assert(gm as int == anova_grand_mean(groups@));
    }
    // Between-group sum of squares, saturated.
    let mut ssg: i64 = 0;
    let mut a: usize = 0;
    while a < k
        invariant
            a <= k == groups@.len(),
            -4_000_000_000_000_000_000 <= gm as int <= 4_000_000_000_000_000_000,
            ssg == ssg_sum(groups@, gm as int, a as nat),
            0 <= ssg <= VAL_MAX,
        decreases k - a,
    {
        let c = groups[a].count.get();
        let m = groups[a].mean.nanos();
        let d: i64 = m - gm;
        let dm: u64 = if d < 0 {
            (-d) as u64
        } else {
            d as u64
        };
        proof {
            let di = d as int;
            let dmi = dm as int;
            assert(dmi * dmi == di * di) by (nonlinear_arith)
                requires
                    dmi == abs(di),
            ;
            assert(0 <= dmi * dmi <= 8_000_000_000_000_000_000int * 8_000_000_000_000_000_000int)
                by (nonlinear_arith)
                requires
                    0 <= dmi <= 8_000_000_000_000_000_000int,
            ;
            vstd::arithmetic::div_mod::lemma_div_pos_is_pos(dmi * dmi, SCALE as int);
            vstd::arithmetic::div_mod::lemma_div_is_ordered(
                dmi * dmi,
                8_000_000_000_000_000_000int * 8_000_000_000_000_000_000int,
                SCALE as int,
            );
            let sq = (dmi * dmi) / (SCALE as int);
            assert(0 <= (c as int) * sq <= 1_000_000_000int * 64_000_000_000_000_000_000_000_000_000int)
                by (nonlinear_arith)
                requires
                    1 <= c as int <= 1_000_000_000,
                    0 <= sq <= 64_000_000_000_000_000_000_000_000_000int,
            ;
        }
        let sq: u128 = (dm as u128) * (dm as u128) / (SCALE as u128);
        let term: u128 = (c as u128) * sq;
        let next: u128 = (ssg as u128) + term;
        ssg = if next > VAL_MAX as u128 {
            VAL_MAX
        } else {
            next as i64
        };
        a = a + 1;
    }
    let msg: u64 = (ssg as u64) / (k as u64 - 1);
    proof {
        vstd::arithmetic::div_mod::lemma_div_pos_is_pos(ssg as int, k as int - 1);
        vstd::arithmetic::div_mod::lemma_div_is_ordered_by_denominator(
            ssg as int,
            1,
            k as int - 1,
        );
        assert(msg as int == anova_msg(groups@));
    }
    // Within-group sum of squares, saturated.
    let mut sse: i64 = 0;
    let mut b: usize = 0;
    while b < k
        invariant
            b <= k == groups@.len(),
            sse == sse_sum(groups@, b as nat),
            0 <= sse <= VAL_MAX,
        decreases k - b,
    {
        let c = groups[b].count.get();
        let v = groups[b].variance.nanos();
        proof {
            assert(0 <= ((c as int) - 1) * (v as int) <= 1_000_000_000int
                * 4_000_000_000_000_000_000int) by (nonlinear_arith)
                requires
                    1 <= c as int <= 1_000_000_000,
                    0 <= v as int <= 4_000_000_000_000_000_000,
            ;
        }
        let term: u128 = ((c - 1) as u128) * (v as u128);
        let next: u128 = (sse as u128) + term;
        sse = if next > VAL_MAX as u128 {
            VAL_MAX
        } else {
            next as i64
        };
        b = b + 1;
    }
    let mse: u64 = (sse as u64) / (nt - k as u64);
    proof {
        vstd::arithmetic::div_mod::lemma_div_pos_is_pos(sse as int, nt as int - k as int);
        assert(mse as int == anova_mse(groups@));
    }
    if mse == 0 {
        return Err(DomainError::DegenerateScale);
    }
    let f_nanos = div_nanos_clamped(msg, mse);
    let f_params = FParams {
        x: NonNegativeReal::new(f_nanos),
        df_1: PositiveCount::new_checked(k as u64 - 1),
        df_2: PositiveCount::new_checked(nt - k as u64),
    };
    proof {
        assert(f_params.x@ == anova_f(groups@));
    }
    let cdf = FCdf::new();
    match cdf.p_value(f_params) {
        Ok(p) => Ok((f_params, p)),
        Err(e) => Err(e),
    }
}

} // verus!
