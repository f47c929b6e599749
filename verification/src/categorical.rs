//! Hypothesis tests on categorical data: proportion tests against the
//! normal approximation, chi-square goodness-of-fit and independence
//! tests, and the sample-size planner for two proportions.

use vstd::math::abs;
use vstd::prelude::*;

use crate::chi_square::{ChiSquareTable, CHI_MAX_DF};
use crate::domain::{DomainError, NonNegativeReal, PositiveCount, UnitReal};
use crate::fixed::{
    ceil_div, clamp_val, div_nano_clamped, div_nanos_clamped, sqrt_nano, sqrt_nanos, COUNT_MAX,
    SCALE, VAL_MAX,
};
use crate::normal;

verus! {

/// Normal-approximation adequacy: both expected successes and expected
/// failures reach ten.
pub open spec fn normal_enough(c: int, p: int) -> bool {
    &&& c * p >= 10 * (SCALE as int)
    &&& c * ((SCALE as int) - p) >= 10 * (SCALE as int)
}

/// Squared standard error of a proportion estimate: `p * (1 - p) / c`.
pub open spec fn proportion_se2(p: int, c: int) -> int {
    ((p * ((SCALE as int) - p)) / (SCALE as int)) / c
}

/// One categorical sample: its size and its observed (or hypothesised)
/// proportion.
#[derive(Clone, Copy, Debug)]
pub struct CountAndProportion {
    pub count: PositiveCount,
    pub proportion: UnitReal,
}

impl CountAndProportion {
    /// Whether the sample is large enough for the normal approximation.
    pub fn is_normally_distributed_enough(&self) -> (r: bool)
        ensures
            r == normal_enough(self.count@, self.proportion@),
    {
        let c = self.count.get();
        let p = self.proportion.nanos();
        proof {
            assert(0 <= (c as int) * (p as int) <= 1_000_000_000_000_000_000int)
                by (nonlinear_arith)
                requires
                    0 <= c as int <= 1_000_000_000,
                    0 <= p as int <= 1_000_000_000,
            ;
            assert(0 <= (c as int) * ((SCALE as int) - p as int) <= 1_000_000_000_000_000_000int)
                by (nonlinear_arith)
                requires
                    0 <= c as int <= 1_000_000_000,
                    0 <= p as int <= 1_000_000_000,
                    SCALE == 1_000_000_000,
            ;
        }
        let a: bool = (c as u128) * (p as u128) >= 10_000_000_000u128;
        let b: bool = (c as u128) * ((SCALE as u64 - p as u64) as u128) >= 10_000_000_000u128;
        a && b
    }

    /// Squared standard error of the proportion estimate, at most a
    /// quarter.
    pub fn standard_error_squared(&self) -> (r: NonNegativeReal)
        ensures
            r@ == proportion_se2(self.proportion@, self.count@),
            r@ <= 250_000_000,
    {
        let c = self.count.get();
        let p = self.proportion.nanos() as u64;
        proof {
            let pi = p as int;
            let s = SCALE as int;
            assert(0 <= pi * (s - pi) <= 250_000_000_000_000_000int) by (nonlinear_arith)
                requires
                    0 <= pi <= s,
                    s == 1_000_000_000,
            ;
            vstd::arithmetic::div_mod::lemma_div_pos_is_pos(pi * (s - pi), s);
            vstd::arithmetic::div_mod::lemma_div_is_ordered(
                pi * (s - pi),
                250_000_000_000_000_000int,
                s,
            );
            let a = (pi * (s - pi)) / s;
            vstd::arithmetic::div_mod::lemma_div_pos_is_pos(a, c as int);
            vstd::arithmetic::div_mod::lemma_div_is_ordered_by_denominator(a, 1, c as int);
        }
        let a: u64 = ((p as u128) * ((SCALE as u64 - p) as u128) / (SCALE as u128)) as u64;
        let r: u64 = a / c;
        NonNegativeReal::new(r as i64)
    }
}

/// Sum of the squared standard errors of the first `n` samples.
pub open spec fn se2_sum(samples: Seq<CountAndProportion>, n: nat) -> int
    decreases n,
{
    if n == 0 {
        0
    } else {
        se2_sum(samples, (n - 1) as nat) + proportion_se2(
            samples[n - 1].proportion@,
            samples[n - 1].count@,
        )
    }
}

/// Pooled standard error of a few samples: the square root of the sum
/// of their squared standard errors.
fn standard_error(samples: &Vec<CountAndProportion>) -> (r: i64)
    requires
        samples@.len() <= 4,
    ensures
        r == sqrt_nano(se2_sum(samples@, samples@.len())),
        0 <= r <= 64_000_000_000_000i64,
{
    let mut sum: i64 = 0;
    let mut i: usize = 0;
    while i < samples.len()
        invariant
            i <= samples@.len() <= 4,
            sum == se2_sum(samples@, i as nat),
            0 <= sum <= (i as int) * 250_000_000,
        decreases samples@.len() - i,
    {
        let se2 = samples[i].standard_error_squared();
        sum = sum + se2.nanos();
        i = i + 1;
    }
    sqrt_nanos(sum)
}

/// The z statistic of the one-proportion test: the distance from the
/// null proportion over the null's standard error.
pub open spec fn one_proportion_z(phat: int, c: int, p0: int) -> int {
    div_nano_clamped(abs(phat - p0) as int, sqrt_nano(proportion_se2(p0, c)))
}

/// Two-sided test of one proportion against a null proportion `p_0`.
///
/// Fails when the sample is too small for the normal approximation, or
/// when the null's standard error vanishes (a null proportion of zero
/// or one, or a count too large for the fixed-point grain).
pub fn one_proportion(sample: CountAndProportion, p_0: UnitReal) -> (r: Result<
    UnitReal,
    DomainError,
>)
    ensures
        r is Ok <==> normal_enough(sample.count@, sample.proportion@) && sqrt_nano(
            proportion_se2(p_0@, sample.count@),
        ) > 0,
        r matches Ok(p) ==> p@ == normal::normal_two_sided(
            one_proportion_z(sample.proportion@, sample.count@, p_0@),
        ),
        !normal_enough(sample.count@, sample.proportion@) ==> r == Err::<UnitReal, DomainError>(
            DomainError::NormalApproximation,
        ),
        normal_enough(sample.count@, sample.proportion@) && sqrt_nano(
            proportion_se2(p_0@, sample.count@),
        ) == 0 ==> r == Err::<UnitReal, DomainError>(DomainError::DegenerateScale),
{
    if !sample.is_normally_distributed_enough() {
        return Err(DomainError::NormalApproximation);
    }
    let null_sample = CountAndProportion { count: sample.count, proportion: p_0 };
    let mut samples: Vec<CountAndProportion> = Vec::new();
    samples.push(null_sample);
    proof {
        assert(samples@.len() == 1 && samples@[0] == null_sample);
        assert(se2_sum(samples@, 0) == 0);
        assert(se2_sum(samples@, 1) == proportion_se2(p_0@, sample.count@));
    }
    let se = standard_error(&samples);
    if se == 0 {
        return Err(DomainError::DegenerateScale);
    }
    let phat = sample.proportion.nanos();
    let p0n = p_0.nanos();
    let diff: i64 = phat - p0n;
    let mag: u64 = if diff < 0 {
        (-diff) as u64
    } else {
        diff as u64
    };
    let z = div_nanos_clamped(mag, se as u64);
    Ok(normal::two_sided_p_value(crate::domain::FiniteReal::new(z)))
}

/// The z statistic of the two-proportion test: the distance of the
/// observed difference from the null difference over the pooled
/// standard error.
pub open spec fn two_proportions_z(s1: CountAndProportion, s2: CountAndProportion, p0: int) -> int {
    div_nano_clamped(
        abs(s1.proportion@ - s2.proportion@ - p0) as int,
        sqrt_nano(
            proportion_se2(s1.proportion@, s1.count@) + proportion_se2(s2.proportion@, s2.count@),
        ),
    )
}

/// Two-sided test of the difference of two proportions against a null
/// difference `p_0`.
pub fn difference_of_two_proportions(
    sample_1: CountAndProportion,
    sample_2: CountAndProportion,
    p_0: UnitReal,
) -> (r: Result<UnitReal, DomainError>)
    ensures
        r is Ok <==> normal_enough(sample_1.count@, sample_1.proportion@) && normal_enough(
            sample_2.count@,
            sample_2.proportion@,
        ) && sqrt_nano(
            proportion_se2(sample_1.proportion@, sample_1.count@) + proportion_se2(
                sample_2.proportion@,
                sample_2.count@,
            ),
        ) > 0,
        r matches Ok(p) ==> p@ == normal::normal_two_sided(two_proportions_z(sample_1, sample_2, p_0@)),
        !(normal_enough(sample_1.count@, sample_1.proportion@) && normal_enough(
            sample_2.count@,
            sample_2.proportion@,
        )) ==> r == Err::<UnitReal, DomainError>(DomainError::NormalApproximation),
        normal_enough(sample_1.count@, sample_1.proportion@) && normal_enough(
            sample_2.count@,
            sample_2.proportion@,
        ) && sqrt_nano(
            proportion_se2(sample_1.proportion@, sample_1.count@) + proportion_se2(
                sample_2.proportion@,
                sample_2.count@,
            ),
        ) == 0 ==> r == Err::<UnitReal, DomainError>(DomainError::DegenerateScale),
{
    if !sample_1.is_normally_distributed_enough() {
        return Err(DomainError::NormalApproximation);
    }
    if !sample_2.is_normally_distributed_enough() {
        return Err(DomainError::NormalApproximation);
    }
    let mut samples: Vec<CountAndProportion> = Vec::new();
    samples.push(sample_1);
    samples.push(sample_2);
    proof {
        assert(samples@.len() == 2 && samples@[0] == sample_1 && samples@[1] == sample_2);
        assert(se2_sum(samples@, 0) == 0);
        assert(se2_sum(samples@, 1) == proportion_se2(sample_1.proportion@, sample_1.count@));
        assert(se2_sum(samples@, 2) == proportion_se2(sample_1.proportion@, sample_1.count@)
            + proportion_se2(sample_2.proportion@, sample_2.count@));
    }
    let se = standard_error(&samples);
    if se == 0 {
        return Err(DomainError::DegenerateScale);
    }
    let p1 = sample_1.proportion.nanos();
    let p2 = sample_2.proportion.nanos();
    let p0n = p_0.nanos();
    let diff: i64 = p1 - p2 - p0n;
    let mag: u64 = if diff < 0 {
        (-diff) as u64
    } else {
        diff as u64
    };
    let z = div_nanos_clamped(mag, se as u64);
    Ok(normal::two_sided_p_value(crate::domain::FiniteReal::new(z)))
}

/// The planners' pooled error term for two proportions:
/// `p1 (1 - p1) + p2 (1 - p2)`.
pub open spec fn proportion_error_sum(p1: int, p2: int) -> int {
    (p1 * ((SCALE as int) - p1)) / (SCALE as int) + (p2 * ((SCALE as int) - p2)) / (SCALE as int)
}

/// The planners' sample size: `error / (difference / region)^2`,
/// rounded up.
pub open spec fn planned_count(e: int, region: int, d: int) -> int {
    ceil_div((clamp_val(e) * region * region) / (SCALE as int), d * d)
}

/// Smallest size of each of two samples with which a true difference of
/// proportions `p_0` away from the null is detected: rejected at
/// `max_p_value` with probability `power`. The rejection region (the z
/// gap between the rejection quantile and the power quantile) enters
/// the formula squared, so its sign does not matter; a zero region
/// yields a count of zero.
///
/// Fails when the proportions sit exactly on the null difference, and
/// when the needed count exceeds the machine's range.
pub fn min_count_of_each_of_two_samples(
    proportion_1: UnitReal,
    proportion_2: UnitReal,
    p_0: UnitReal,
    power: UnitReal,
    max_p_value: UnitReal,
) -> (r: Result<usize, DomainError>)
    ensures
        ({
            let region = normal::rejection_region(power@, max_p_value@);
            let d = abs(proportion_1@ - proportion_2@ - p_0@) as int;
            let n = planned_count(proportion_error_sum(proportion_1@, proportion_2@), region, d);
            &&& (r is Ok <==> d > 0 && n <= usize::MAX)
            &&& (r matches Ok(c) ==> c == n)
            &&& (d == 0 ==> r == Err::<usize, DomainError>(DomainError::DegenerateScale))
            &&& (d > 0 && n > usize::MAX ==> r == Err::<usize, DomainError>(
                DomainError::MagnitudeTooLarge,
            ))
        }),
{
    let region = normal::rejection_region_exec(power, max_p_value);
    let rm: u64 = if region < 0 {
        (-region) as u64
    } else {
        region as u64
    };
    let p1 = proportion_1.nanos();
    let p2 = proportion_2.nanos();
    let p0n = p_0.nanos();
    let diff: i64 = p1 - p2 - p0n;
    if diff == 0 {
        return Err(DomainError::DegenerateScale);
    }
    let mag: u64 = if diff < 0 {
        (-diff) as u64
    } else {
        diff as u64
    };
    proof {
        let p1i = p1 as int;
        let p2i = p2 as int;
        let s = SCALE as int;
        assert(0 <= p1i * (s - p1i) <= 250_000_000_000_000_000int) by (nonlinear_arith)
            requires
                0 <= p1i <= s,
                s == 1_000_000_000,
        ;
        assert(0 <= p2i * (s - p2i) <= 250_000_000_000_000_000int) by (nonlinear_arith)
            requires
                0 <= p2i <= s,
                s == 1_000_000_000,
        ;
        vstd::arithmetic::div_mod::lemma_div_pos_is_pos(p1i * (s - p1i), s);
        vstd::arithmetic::div_mod::lemma_div_pos_is_pos(p2i * (s - p2i), s);
        vstd::arithmetic::div_mod::lemma_div_is_ordered(
            p1i * (s - p1i),
            250_000_000_000_000_000int,
            s,
        );
        vstd::arithmetic::div_mod::lemma_div_is_ordered(
            p2i * (s - p2i),
            250_000_000_000_000_000int,
            s,
        );
    }
    let e1: u64 = ((p1 as u128) * ((SCALE - p1) as u128) / (SCALE as u128)) as u64;
    let e2: u64 = ((p2 as u128) * ((SCALE - p2) as u128) / (SCALE as u128)) as u64;
    let e: u64 = e1 + e2;
    let ec: u64 = if e > VAL_MAX as u64 {
        VAL_MAX as u64
    } else {
        e
    };
    proof {
        let ei = ec as int;
        let ri = region as int;
        let rmi = rm as int;
        assert(rmi * rmi == ri * ri) by (nonlinear_arith)
            requires
                rmi == abs(ri),
        ;
        assert(0 <= ei * rmi * rmi <= 500_000_000int * 8_000_000_000 * 8_000_000_000)
            by (nonlinear_arith)
            requires
                0 <= ei <= 500_000_000,
                0 <= rmi <= 8_000_000_000,
        ;
        assert(ei * rmi * rmi == ei * ri * ri) by (nonlinear_arith)
            requires
                rmi * rmi == ri * ri,
        ;
        vstd::arithmetic::div_mod::lemma_div_pos_is_pos(ei * rmi * rmi, SCALE as int);
        assert(0 <= ei * rmi <= 500_000_000int * 8_000_000_000) by (nonlinear_arith)
            requires
                0 <= ei <= 500_000_000,
                0 <= rmi <= 8_000_000_000,
        ;
        assert(0 < (mag as int) * (mag as int) <= 2_000_000_000int * 2_000_000_000)
            by (nonlinear_arith)
            requires
                1 <= mag as int <= 2_000_000_000,
        ;
    }
    let num: u128 = (ec as u128) * (rm as u128) * (rm as u128) / (SCALE as u128);
    let den: u128 = (mag as u128) * (mag as u128);
    let count: u128 = (num + den - 1) / den;
    proof {
        vstd::arithmetic::div_mod::lemma_div_pos_is_pos(
            num as int + den as int - 1,
            den as int,
        );
    }
    if count > usize::MAX as u128 {
        return Err(DomainError::MagnitudeTooLarge);
    }
    Ok(count as usize)
}

/// One chi-square cell: an observed count (zero allowed) and its
/// expected count.
#[derive(Clone, Copy, Debug)]
pub struct CountAndExpect {
    pub count: u32,
    pub expect: NonNegativeReal,
}

/// The cell's squared z contribution `(observed - expected)^2 /
/// expected`, saturated at the largest representable magnitude: any
/// saturated sum already lies beyond the whole critical-value table.
pub open spec fn z_squared_spec(c: int, e: int) -> int {
    clamp_val(((c * (SCALE as int) - e) * (c * (SCALE as int) - e)) / e)
}

impl CountAndExpect {
    /// The cell's squared z contribution; fails on an expected count of
    /// zero.
    pub fn z_squared(&self) -> (r: Result<NonNegativeReal, DomainError>)
        ensures
            r is Ok <==> self.expect@ > 0,
            r matches Ok(v) ==> v@ == z_squared_spec(self.count as int, self.expect@),
            self.expect@ == 0 ==> r == Err::<NonNegativeReal, DomainError>(
                DomainError::DegenerateScale,
            ),
    {
        let e = self.expect.nanos();
        if e == 0 {
            return Err(DomainError::DegenerateScale);
        }
        proof {
            assert(0 <= (self.count as int) * (SCALE as int) <= 4_294_967_295int * 1_000_000_000)
                by (nonlinear_arith)
                requires
                    0 <= self.count as int <= 4_294_967_295int,
                    SCALE == 1_000_000_000,
            ;
        }
        let cn: i128 = (self.count as i128) * (SCALE as i128);
        let d: i128 = cn - (e as i128);
        let dm: u128 = if d < 0 {
            (-d) as u128
        } else {
            d as u128
        };
        proof {
            let di = d as int;
            let dmi = dm as int;
            assert(dmi * dmi == di * di) by (nonlinear_arith)
                requires
                    dmi == if di < 0 {
                        -di
                    } else {
                        di
                    },
            ;
            assert(0 <= dmi * dmi <= 8_000_000_000_000_000_000int * 8_000_000_000_000_000_000int)
                by (nonlinear_arith)
                requires
                    0 <= dmi <= 8_000_000_000_000_000_000int,
            ;
            vstd::arithmetic::div_mod::lemma_div_pos_is_pos(di * di, e as int);
        }
        let q: u128 = dm * dm / (e as u128);
        if q > VAL_MAX as u128 {
            Ok(NonNegativeReal::new(VAL_MAX))
        } else {
            Ok(NonNegativeReal::new(q as i64))
        }
    }
}

/// Whether every cell's expected count reaches five.
pub open spec fn all_expected_adequate(bins: Seq<CountAndExpect>) -> bool {
    forall|i: int| 0 <= i < bins.len() ==> #[trigger] bins[i].expect@ >= 5 * (SCALE as int)
}

/// The chi-square statistic over the first `n` cells, with each step
/// saturated at the largest representable magnitude.
pub open spec fn chi_square_sum(bins: Seq<CountAndExpect>, n: nat) -> int
    decreases n,
{
    if n == 0 {
        0
    } else {
        clamp_val(
            chi_square_sum(bins, (n - 1) as nat) + z_squared_spec(
                bins[n - 1].count as int,
                bins[n - 1].expect@,
            ),
        )
    }
}

/// Chi-square goodness-of-fit test. Null hypothesis: the counts of the
/// categories equal their expected counts.
///
/// Fails with fewer than two categories, with degrees of freedom beyond
/// the table, or when any expected count falls below five.
pub fn fitness(table: &ChiSquareTable, categories: &[CountAndExpect]) -> (r: Result<
    UnitReal,
    DomainError,
>)
    ensures
        r is Ok <==> categories@.len() >= 2 && categories@.len() - 1 <= CHI_MAX_DF
            && all_expected_adequate(categories@),
        r matches Ok(p) ==> p@ == table.p_value_spec(
            categories@.len() - 1,
            chi_square_sum(categories@, categories@.len()),
        ),
        categories@.len() < 2 ==> r == Err::<UnitReal, DomainError>(DomainError::TooFewGroups),
        categories@.len() >= 2 && categories@.len() - 1 > CHI_MAX_DF ==> r == Err::<
            UnitReal,
            DomainError,
        >(DomainError::DegreesOfFreedomTooLarge),
        categories@.len() >= 2 && categories@.len() - 1 <= CHI_MAX_DF && !all_expected_adequate(
            categories@,
        ) ==> r == Err::<UnitReal, DomainError>(DomainError::ExpectedCountTooSmall),
{
    let n = categories.len();
    if n < 2 {
        return Err(DomainError::TooFewGroups);
    }
    if (n - 1) as u64 > CHI_MAX_DF {
        return Err(DomainError::DegreesOfFreedomTooLarge);
    }
    let mut chi: i64 = 0;
    let mut i: usize = 0;
    while i < n
        invariant
            i <= n == categories@.len(),
            2 <= n,
            n - 1 <= CHI_MAX_DF,
            chi == chi_square_sum(categories@, i as nat),
            0 <= chi <= VAL_MAX,
            forall|j: int| 0 <= j < i ==> #[trigger] categories@[j].expect@ >= 5 * (SCALE as int),
        decreases n - i,
    {
        let bin = categories[i];
        if bin.expect.nanos() < 5 * SCALE {
            return Err(DomainError::ExpectedCountTooSmall);
        }
        let z2 = match bin.z_squared() {
            Ok(v) => v,
            Err(e) => {
                return Err(e);
            },
        };
        let next: i64 = chi + z2.nanos();
        chi = if next > VAL_MAX {
            VAL_MAX
        } else {
            next
        };
        i = i + 1;
    }
    let df = PositiveCount::new_checked((n - 1) as u64);
    let chi_stat = NonNegativeReal::new(chi);
    match table.p_value(df, chi_stat) {
        Ok(p) => Ok(p),
        Err(e) => Err(e),
    }
}

/// Sum of the first `n` entries of one table row.
pub open spec fn row_sum(row: Seq<u32>, n: nat) -> int
    decreases n,
{
    if n == 0 {
        0
    } else {
        row_sum(row, (n - 1) as nat) + row[n - 1]
    }
}

/// Sum of column `c` over the first `n` rows.
pub open spec fn col_sum(m: Seq<Seq<u32>>, c: int, n: nat) -> int
    decreases n,
{
    if n == 0 {
        0
    } else {
        col_sum(m, c, (n - 1) as nat) + m[n - 1][c]
    }
}

/// Sum of all entries of the first `n` rows.
pub open spec fn grand_sum(m: Seq<Seq<u32>>, n: nat) -> int
    decreases n,
{
    if n == 0 {
        0
    } else {
        grand_sum(m, (n - 1) as nat) + row_sum(m[n - 1], m[n - 1].len())
    }
}

/// Whether every row has the first row's length.
pub open spec fn rectangular(m: Seq<Seq<u32>>) -> bool {
    forall|i: int| 0 <= i < m.len() ==> #[trigger] m[i].len() == m[0].len()
}

/// Expected count of cell `(r, c)` under independence:
/// row total times column total over the grand total, in nanounits.
pub open spec fn expected_cell(m: Seq<Seq<u32>>, r: int, c: int) -> int {
    (row_sum(m[r], m[r].len()) * col_sum(m, c, m.len() as nat) * (SCALE as int)) / grand_sum(
        m,
        m.len() as nat,
    )
}

/// Whether every cell's expected count reaches five.
pub open spec fn all_cells_adequate(m: Seq<Seq<u32>>) -> bool {
    forall|r: int, c: int|
        0 <= r < m.len() && 0 <= c < m[0].len() ==> #[trigger] expected_cell(m, r, c) >= 5 * (
        SCALE as int)
}

/// The chi-square statistic accumulated over the first `c` cells of row
/// `r`, starting from `acc`, each step saturated.
pub open spec fn indep_row_chi(m: Seq<Seq<u32>>, r: int, acc: int, c: nat) -> int
    decreases c,
{
    if c == 0 {
        acc
    } else {
        clamp_val(
            indep_row_chi(m, r, acc, (c - 1) as nat) + z_squared_spec(
                m[r][c - 1] as int,
                expected_cell(m, r, c - 1),
            ),
        )
    }
}

/// The chi-square statistic accumulated over the first `r` whole rows.
pub open spec fn indep_chi(m: Seq<Seq<u32>>, r: nat) -> int
    decreases r,
{
    if r == 0 {
        0
    } else {
        indep_row_chi(m, r - 1, indep_chi(m, (r - 1) as nat), m[0].len() as nat)
    }
}

/// Partial row sums are non-negative and grow with their length.
proof fn lemma_row_sum_mono(row: Seq<u32>, a: nat, b: nat)
    requires
        a <= b,
    ensures
        0 <= row_sum(row, a) <= row_sum(row, b),
    decreases b,
{
    if b > 0 {
        if a == b {
            lemma_row_sum_mono(row, (a - 1) as nat, (b - 1) as nat);
        } else {
            lemma_row_sum_mono(row, a, (b - 1) as nat);
        }
    }
}

/// Each entry is at most its row's total.
proof fn lemma_cell_le_row_sum(row: Seq<u32>, c: int)
    requires
        0 <= c < row.len(),
    ensures
        row[c] <= row_sum(row, row.len()),
{
    lemma_row_sum_mono(row, c as nat, (c + 1) as nat);
    lemma_row_sum_mono(row, (c + 1) as nat, row.len());
}

/// Partial grand sums are non-negative and grow with the row count.
proof fn lemma_grand_sum_mono(m: Seq<Seq<u32>>, a: nat, b: nat)
    requires
        a <= b,
    ensures
        0 <= grand_sum(m, a) <= grand_sum(m, b),
    decreases b,
{
    if b > 0 {
        if a == b {
            lemma_grand_sum_mono(m, (a - 1) as nat, (b - 1) as nat);
            lemma_row_sum_mono(m[b - 1], 0, m[b - 1].len());
        } else {
            lemma_grand_sum_mono(m, a, (b - 1) as nat);
            lemma_row_sum_mono(m[b - 1], 0, m[b - 1].len());
        }
    }
}

/// Each row's total is at most the grand total.
proof fn lemma_row_le_grand(m: Seq<Seq<u32>>, i: int, n: nat)
    requires
        0 <= i < n,
    ensures
        row_sum(m[i], m[i].len()) <= grand_sum(m, n),
    decreases n,
{
    lemma_grand_sum_mono(m, (i + 1) as nat, n);
    lemma_grand_sum_mono(m, i as nat, i as nat);
}

/// Each column's total is at most the grand total.
proof fn lemma_col_le_grand(m: Seq<Seq<u32>>, c: int, n: nat)
    requires
        n <= m.len(),
        rectangular(m),
        0 <= c < m[0].len(),
    ensures
        0 <= col_sum(m, c, n) <= grand_sum(m, n),
    decreases n,
{
    if n > 0 {
        lemma_col_le_grand(m, c, (n - 1) as nat);
        lemma_cell_le_row_sum(m[n - 1], c);
    }
}

/// Chi-square test of independence over a two-way table of counts.
/// Null hypothesis: the row variable and the column variable are
/// independent.
///
/// Fails on a table smaller than two-by-two or ragged, on degrees of
/// freedom beyond the table, on a grand total of zero or beyond the
/// supported count range, and when any cell's expected count falls
/// below five.
pub fn two_way_table_independence(table: &ChiSquareTable, matrix: &Vec<Vec<u32>>) -> (r: Result<
    UnitReal,
    DomainError,
>)
    ensures
        ({
            let m = matrix.deep_view();
            let shape_ok = m.len() >= 2 && m[0].len() >= 2 && rectangular(m);
            let df = (m.len() - 1) * (m[0].len() - 1);
            let g = grand_sum(m, m.len() as nat);
            &&& (r is Ok <==> shape_ok && df <= CHI_MAX_DF && 0 < g <= COUNT_MAX
                && all_cells_adequate(m))
            &&& (r matches Ok(p) ==> p@ == table.p_value_spec(df, indep_chi(m, m.len() as nat)))
            &&& (!shape_ok ==> r == Err::<UnitReal, DomainError>(DomainError::TooFewGroups))
            &&& (shape_ok && df > CHI_MAX_DF ==> r == Err::<UnitReal, DomainError>(
                DomainError::DegreesOfFreedomTooLarge,
            ))
            &&& (shape_ok && df <= CHI_MAX_DF && g > COUNT_MAX ==> r == Err::<
                UnitReal,
                DomainError,
            >(DomainError::CountTooLarge))
            &&& (shape_ok && df <= CHI_MAX_DF && g == 0 ==> r == Err::<UnitReal, DomainError>(
                DomainError::ExpectedCountTooSmall,
            ))
            &&& (shape_ok && df <= CHI_MAX_DF && 0 < g <= COUNT_MAX && !all_cells_adequate(m)
                ==> r == Err::<UnitReal, DomainError>(DomainError::ExpectedCountTooSmall))
        }),
{
    let ghost m = matrix.deep_view();
    proof {
        assert(m.len() == matrix@.len());
        assert forall|i: int| 0 <= i < m.len() implies m[i] =~= matrix@[i]@ by {
            assert(m[i] == matrix@[i].deep_view());
        }
    }
    let rows = matrix.len();
    if rows < 2 {
        return Err(DomainError::TooFewGroups);
    }
    let cols = matrix[0].len();
    proof {
        assert(m[0] =~= matrix@[0]@);
    }
    if cols < 2 {
        return Err(DomainError::TooFewGroups);
    }
    let mut r0: usize = 0;
    while r0 < rows
        invariant
            m == matrix.deep_view(),
            rows == m.len() == matrix@.len(),
            cols == m[0].len(),
            r0 <= rows,
            forall|j: int| 0 <= j < r0 ==> #[trigger] m[j].len() == cols,
            forall|i: int| 0 <= i < m.len() ==> m[i] =~= matrix@[i]@,
        decreases rows - r0,
    {
        if matrix[r0].len() != cols {
            proof {
                assert(m[r0 as int].len() != m[0].len());
                assert(!rectangular(m)) by {
                    if rectangular(m) {
                        assert(m[r0 as int].len() == m[0].len());
                    }
                }
            }
            return Err(DomainError::TooFewGroups);
        }
        r0 = r0 + 1;
    }
    proof {
        assert(rectangular(m));
    }
    if rows - 1 > CHI_MAX_DF as usize || cols - 1 > CHI_MAX_DF as usize {
        proof {
            assert((m.len() - 1) * (m[0].len() - 1) > CHI_MAX_DF) by (nonlinear_arith)
                requires
                    m.len() >= 2,
                    m[0].len() >= 2,
                    (m.len() - 1 > CHI_MAX_DF || m[0].len() - 1 > CHI_MAX_DF),
                    CHI_MAX_DF == 30,
            ;
        }
        return Err(DomainError::DegreesOfFreedomTooLarge);
    }
    proof {
        assert(1 <= (rows - 1) * (cols - 1) <= 900) by (nonlinear_arith)
            requires
                2 <= rows as int,
                2 <= cols as int,
                rows as int - 1 <= 30,
                cols as int - 1 <= 30,
        ;
    }
    let df = (rows - 1) * (cols - 1);
    if df > CHI_MAX_DF as usize {
        return Err(DomainError::DegreesOfFreedomTooLarge);
    }
    // Row totals, column totals and the grand total, with the grand
    // total held within the supported count range as it grows.
    let mut row_totals: Vec<u64> = Vec::new();
    let mut col_totals: Vec<u64> = Vec::new();
    let mut c0: usize = 0;
    while c0 < cols
        invariant
            c0 <= cols,
            col_totals@.len() == c0,
            forall|j: int| 0 <= j < c0 ==> col_totals@[j] == 0,
        decreases cols - c0,
    {
        col_totals.push(0);
        c0 = c0 + 1;
    }
    let mut grand: u64 = 0;
    let mut r: usize = 0;
    while r < rows
        invariant
            m == matrix.deep_view(),
            rows == m.len() == matrix@.len(),
            cols == m[0].len(),
            2 <= rows <= 31,
            2 <= cols <= 31,
            r <= rows,
            (rows - 1) * (cols - 1) <= CHI_MAX_DF,
            rectangular(m),
            forall|i: int| 0 <= i < m.len() ==> m[i] =~= matrix@[i]@,
            row_totals@.len() == r,
            col_totals@.len() == cols,
            grand == grand_sum(m, r as nat),
            grand <= COUNT_MAX,
            forall|i: int| 0 <= i < r ==> row_totals@[i] == row_sum(m[i], cols as nat),
            forall|j: int|
                0 <= j < cols ==> col_totals@[j] == col_sum(m, j, r as nat) && col_totals@[j]
                    <= COUNT_MAX,
        decreases rows - r,
    {
        let row = &matrix[r];
        let mut rsum: u64 = 0;
        let mut c: usize = 0;
        while c < cols
            invariant
                m == matrix.deep_view(),
                rows == m.len() == matrix@.len(),
                cols == m[0].len(),
                2 <= rows <= 31,
                2 <= cols <= 31,
                r < rows,
                c <= cols,
                rectangular(m),
                forall|i: int| 0 <= i < m.len() ==> m[i] =~= matrix@[i]@,
                row@ == matrix@[r as int]@,
                col_totals@.len() == cols,
                rsum == row_sum(m[r as int], c as nat),
                rsum <= (c as int) * 4_294_967_296,
                grand <= COUNT_MAX,
                forall|j: int|
                    0 <= j < c ==> col_totals@[j] == col_sum(m, j, (r + 1) as nat) && col_totals@[j]
                        <= COUNT_MAX + 4_294_967_296,
                forall|j: int|
                    c <= j < cols ==> col_totals@[j] == col_sum(m, j, r as nat) && col_totals@[j]
                        <= COUNT_MAX,
            decreases cols - c,
        {
            let cell = row[c];
            proof {
                assert(m[r as int][c as int] == cell);
                assert(col_sum(m, c as int, (r + 1) as nat) == col_sum(m, c as int, r as nat)
                    + cell);
            }
            rsum = rsum + cell as u64;
            let ct = col_totals[c] + cell as u64;
            col_totals.set(c, ct);
            c = c + 1;
        }
        proof {
            assert(rsum == row_sum(m[r as int], m[r as int].len()));
            assert(grand_sum(m, (r + 1) as nat) == grand_sum(m, r as nat) + row_sum(
                m[r as int],
                m[r as int].len(),
            ));
        }
        if rsum > COUNT_MAX || grand + rsum > COUNT_MAX {
            proof {
                lemma_grand_sum_mono(m, (r + 1) as nat, m.len() as nat);
                assert(grand_sum(m, (r + 1) as nat) > COUNT_MAX);
                assert(grand_sum(m, m.len() as nat) > COUNT_MAX);
            }
            return Err(DomainError::CountTooLarge);
        }
        grand = grand + rsum;
        row_totals.push(rsum);
        // Column totals stay within the grand total seen so far.
        proof {
            assert forall|j: int| 0 <= j < cols implies col_totals@[j] <= COUNT_MAX as int by {
                lemma_col_le_grand(m, j, (r + 1) as nat);
            }
        }
        r = r + 1;
    }
    if grand == 0 {
        return Err(DomainError::ExpectedCountTooSmall);
    }
    // Expected counts and the saturated chi-square accumulation.
    let mut chi: i64 = 0;
    let mut r2: usize = 0;
    while r2 < rows
        invariant
            m == matrix.deep_view(),
            rows == m.len() == matrix@.len(),
            cols == m[0].len(),
            2 <= rows,
            2 <= cols,
            r2 <= rows,
            (rows - 1) * (cols - 1) <= CHI_MAX_DF,
            rectangular(m),
            forall|i: int| 0 <= i < m.len() ==> m[i] =~= matrix@[i]@,
            row_totals@.len() == rows,
            col_totals@.len() == cols,
            grand == grand_sum(m, m.len() as nat),
            0 < grand <= COUNT_MAX,
            forall|i: int| 0 <= i < rows ==> row_totals@[i] == row_sum(m[i], cols as nat),
            forall|j: int| 0 <= j < cols ==> col_totals@[j] == col_sum(m, j, m.len() as nat),
            chi == indep_chi(m, r2 as nat),
            0 <= chi <= VAL_MAX,
            forall|i: int, j: int|
                0 <= i < r2 && 0 <= j < cols ==> #[trigger] expected_cell(m, i, j) >= 5 * (
                SCALE as int),
        decreases rows - r2,
    {
        let row = &matrix[r2];
        let rt = row_totals[r2];
        let mut c2: usize = 0;
        while c2 < cols
            invariant
                m == matrix.deep_view(),
                rows == m.len() == matrix@.len(),
                cols == m[0].len(),
                2 <= rows,
                2 <= cols,
                r2 < rows,
                c2 <= cols,
                (rows - 1) * (cols - 1) <= CHI_MAX_DF,
                rectangular(m),
                forall|i: int| 0 <= i < m.len() ==> m[i] =~= matrix@[i]@,
                row@ == matrix@[r2 as int]@,
                row_totals@.len() == rows,
                col_totals@.len() == cols,
                grand == grand_sum(m, m.len() as nat),
                0 < grand <= COUNT_MAX,
                rt == row_totals@[r2 as int],
                forall|i: int| 0 <= i < rows ==> row_totals@[i] == row_sum(m[i], cols as nat),
                forall|j: int| 0 <= j < cols ==> col_totals@[j] == col_sum(m, j, m.len() as nat),
                chi == indep_row_chi(m, r2 as int, indep_chi(m, r2 as nat), c2 as nat),
                0 <= chi <= VAL_MAX,
                forall|i: int, j: int|
                    0 <= i < r2 && 0 <= j < cols ==> #[trigger] expected_cell(m, i, j) >= 5 * (
                    SCALE as int),
                forall|j: int|
                    0 <= j < c2 ==> #[trigger] expected_cell(m, r2 as int, j) >= 5 * (SCALE as int),
            decreases cols - c2,
        {
            let ct = col_totals[c2];
            proof {
                lemma_row_le_grand(m, r2 as int, m.len() as nat);
                lemma_col_le_grand(m, c2 as int, m.len() as nat);
                let rti = rt as int;
                let cti = ct as int;
                let gi = grand as int;
                let s = SCALE as int;
                assert(0 <= rti * cti * s <= 1_000_000_000_000_000_000int * 1_000_000_000)
                    by (nonlinear_arith)
                    requires
                        0 <= rti <= 1_000_000_000,
                        0 <= cti <= 1_000_000_000,
                        s == 1_000_000_000,
                ;
                vstd::arithmetic::div_mod::lemma_div_pos_is_pos(rti * cti * s, gi);
                assert(rti * cti * s <= (rti * s) * gi) by (nonlinear_arith)
                    requires
                        0 <= rti,
                        0 <= cti <= gi,
                        s == 1_000_000_000,
                ;
                vstd::arithmetic::div_mod::lemma_div_is_ordered(
                    rti * cti * s,
                    (rti * s) * gi,
                    gi,
                );
                assert(((rti * s) * gi) / gi == rti * s) by {
                    assert((rti * s) * gi == gi * (rti * s)) by (nonlinear_arith);
                    vstd::arithmetic::div_mod::lemma_div_multiples_vanish(rti * s, gi);
                }
                assert(rti * s <= 1_000_000_000_000_000_000int) by (nonlinear_arith)
                    requires
                        0 <= rti <= 1_000_000_000,
                        s == 1_000_000_000,
                ;
            }
            let e: u64 = (((rt as u128) * (ct as u128) * (SCALE as u128)) / (grand as u128)) as u64;
            proof {
                assert(e as int == expected_cell(m, r2 as int, c2 as int));
            }
            if e < 5 * (SCALE as u64) {
                proof {
                    assert(0 <= (r2 as int) < m.len() && 0 <= (c2 as int) < m[0].len()
                        && expected_cell(m, r2 as int, c2 as int) < 5 * (SCALE as int));
                    assert(!all_cells_adequate(m)) by {
                        if all_cells_adequate(m) {
                            assert(expected_cell(m, r2 as int, c2 as int) >= 5 * (SCALE as int));
                        }
                    }
                }
                return Err(DomainError::ExpectedCountTooSmall);
            }
            let cell = CountAndExpect { count: row[c2], expect: NonNegativeReal::new(e as i64) };
            proof {
                assert(m[r2 as int][c2 as int] == cell.count);
            }
            let z2 = match cell.z_squared() {
                Ok(v) => v,
                Err(err) => {
                    return Err(err);
                },
            };
            let next: i64 = chi + z2.nanos();
            chi = if next > VAL_MAX {
                VAL_MAX
            } else {
                next
            };
            c2 = c2 + 1;
        }
        r2 = r2 + 1;
    }
    proof {
        assert(1 <= (rows - 1) * (cols - 1)) by (nonlinear_arith)
            requires
                2 <= rows as int,
                2 <= cols as int,
        ;
    }
    let df_count = PositiveCount::new_checked(df as u64);
    let chi_stat = NonNegativeReal::new(chi);
    match table.p_value(df_count, chi_stat) {
        Ok(p) => Ok(p),
        Err(e) => Err(e),
    }
}

} // verus!
