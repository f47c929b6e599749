//! Student's t distribution: a critical-value table indexed by a
//! degrees-of-freedom bucket and ten descending tail-area levels.
//!
//! Beyond a thousand degrees of freedom the distribution degenerates,
//! by design, to the standard normal.

use vstd::math::abs;
use vstd::prelude::*;

use crate::domain::{FiniteReal, PositiveCount, UnitReal};
use crate::fixed::SCALE;
use crate::normal;
use crate::table::{
    first_exceed_index, lemma_scan_area_antitone, lemma_scan_area_bounds, scan_area,
};

verus! {

/// The ten one-sided tail-area levels of the table, descending:
/// 0.25, 0.20, 0.15, 0.10, 0.05, 0.025, 0.01, 0.005, 0.001, 0.0005.
pub open spec fn tail_areas() -> Seq<i64> {
    seq![
        250_000_000i64,
        200_000_000i64,
        150_000_000i64,
        100_000_000i64,
        50_000_000i64,
        25_000_000i64,
        10_000_000i64,
        5_000_000i64,
        1_000_000i64,
        500_000i64,
    ]
}

/// The tail-area levels descend and lie within the unit range.
pub proof fn lemma_tail_areas_descending()
    ensures
        crate::table::descending_areas(tail_areas()),
        tail_areas().len() == 10,
        tail_areas()[0] == 250_000_000,
{
    let a = tail_areas();
    assert forall|i: int, j: int| 0 <= i <= j < a.len() implies #[trigger] a[i] >= #[trigger] a[j] by {
        assert(a[0] == 250_000_000 && a[1] == 200_000_000 && a[2] == 150_000_000 && a[3]
            == 100_000_000 && a[4] == 50_000_000 && a[5] == 25_000_000 && a[6] == 10_000_000 && a[7]
            == 5_000_000 && a[8] == 1_000_000 && a[9] == 500_000);
    }
    assert forall|i: int| 0 <= i < a.len() implies 0 <= #[trigger] a[i] <= SCALE by {
        assert(a[0] == 250_000_000 && a[1] == 200_000_000 && a[2] == 150_000_000 && a[3]
            == 100_000_000 && a[4] == 50_000_000 && a[5] == 25_000_000 && a[6] == 10_000_000 && a[7]
            == 5_000_000 && a[8] == 1_000_000 && a[9] == 500_000);
    }
}

/// The textbook critical t-values in nanounits, one row per degree
/// of freedom from one to thirty.
pub open spec fn standard_t_rows() -> Seq<Seq<i64>> {
    seq![
        seq![1000000000i64, 1376000000i64, 1963000000i64, 3078000000i64, 6314000000i64, 12710000000i64, 31820000000i64, 63660000000i64, 318310000000i64, 636620000000i64],
        seq![816000000i64, 1061000000i64, 1386000000i64, 1886000000i64, 2920000000i64, 4303000000i64, 6965000000i64, 9925000000i64, 22327000000i64, 31599000000i64],
        seq![765000000i64, 978000000i64, 1250000000i64, 1638000000i64, 2353000000i64, 3182000000i64, 4541000000i64, 5841000000i64, 10215000000i64, 12924000000i64],
        seq![741000000i64, 941000000i64, 1190000000i64, 1533000000i64, 2132000000i64, 2776000000i64, 3747000000i64, 4604000000i64, 7173000000i64, 8610000000i64],
        seq![727000000i64, 920000000i64, 1156000000i64, 1476000000i64, 2015000000i64, 2571000000i64, 3365000000i64, 4032000000i64, 5893000000i64, 6869000000i64],
        seq![718000000i64, 906000000i64, 1134000000i64, 1440000000i64, 1943000000i64, 2447000000i64, 3143000000i64, 3707000000i64, 5208000000i64, 5959000000i64],
        seq![711000000i64, 896000000i64, 1119000000i64, 1415000000i64, 1895000000i64, 2365000000i64, 2998000000i64, 3499000000i64, 4785000000i64, 5408000000i64],
        seq![706000000i64, 889000000i64, 1108000000i64, 1397000000i64, 1860000000i64, 2306000000i64, 2896000000i64, 3355000000i64, 4501000000i64, 5041000000i64],
        seq![703000000i64, 883000000i64, 1100000000i64, 1383000000i64, 1833000000i64, 2262000000i64, 2821000000i64, 3250000000i64, 4297000000i64, 4781000000i64],
        seq![700000000i64, 879000000i64, 1093000000i64, 1372000000i64, 1812000000i64, 2228000000i64, 2764000000i64, 3169000000i64, 4144000000i64, 4587000000i64],
        seq![697000000i64, 876000000i64, 1088000000i64, 1363000000i64, 1796000000i64, 2201000000i64, 2718000000i64, 3106000000i64, 4025000000i64, 4437000000i64],
        seq![695000000i64, 873000000i64, 1083000000i64, 1356000000i64, 1782000000i64, 2179000000i64, 2681000000i64, 3055000000i64, 3930000000i64, 4318000000i64],
        seq![694000000i64, 870000000i64, 1079000000i64, 1350000000i64, 1771000000i64, 2160000000i64, 2650000000i64, 3012000000i64, 3852000000i64, 4221000000i64],
        seq![692000000i64, 868000000i64, 1076000000i64, 1345000000i64, 1761000000i64, 2145000000i64, 2624000000i64, 2977000000i64, 3787000000i64, 4140000000i64],
        seq![691000000i64, 866000000i64, 1074000000i64, 1341000000i64, 1753000000i64, 2131000000i64, 2602000000i64, 2947000000i64, 3733000000i64, 4073000000i64],
        seq![690000000i64, 865000000i64, 1071000000i64, 1337000000i64, 1746000000i64, 2120000000i64, 2583000000i64, 2921000000i64, 3686000000i64, 4015000000i64],
        seq![689000000i64, 863000000i64, 1069000000i64, 1333000000i64, 1740000000i64, 2110000000i64, 2567000000i64, 2898000000i64, 3646000000i64, 3965000000i64],
        seq![688000000i64, 862000000i64, 1067000000i64, 1330000000i64, 1734000000i64, 2101000000i64, 2552000000i64, 2878000000i64, 3610000000i64, 3922000000i64],
        seq![688000000i64, 861000000i64, 1066000000i64, 1328000000i64, 1729000000i64, 2093000000i64, 2539000000i64, 2861000000i64, 3579000000i64, 3883000000i64],
        seq![687000000i64, 860000000i64, 1064000000i64, 1325000000i64, 1725000000i64, 2086000000i64, 2528000000i64, 2845000000i64, 3552000000i64, 3850000000i64],
        seq![686000000i64, 859000000i64, 1063000000i64, 1323000000i64, 1721000000i64, 2080000000i64, 2518000000i64, 2831000000i64, 3527000000i64, 3819000000i64],
        seq![686000000i64, 858000000i64, 1061000000i64, 1321000000i64, 1717000000i64, 2074000000i64, 2508000000i64, 2819000000i64, 3505000000i64, 3792000000i64],
        seq![685000000i64, 858000000i64, 1060000000i64, 1319000000i64, 1714000000i64, 2069000000i64, 2500000000i64, 2807000000i64, 3485000000i64, 3768000000i64],
        seq![685000000i64, 857000000i64, 1059000000i64, 1318000000i64, 1711000000i64, 2064000000i64, 2492000000i64, 2797000000i64, 3467000000i64, 3745000000i64],
        seq![684000000i64, 856000000i64, 1058000000i64, 1316000000i64, 1708000000i64, 2060000000i64, 2485000000i64, 2787000000i64, 3450000000i64, 3725000000i64],
        seq![684000000i64, 856000000i64, 1058000000i64, 1315000000i64, 1706000000i64, 2056000000i64, 2479000000i64, 2779000000i64, 3435000000i64, 3707000000i64],
        seq![684000000i64, 855000000i64, 1057000000i64, 1314000000i64, 1703000000i64, 2052000000i64, 2473000000i64, 2771000000i64, 3421000000i64, 3690000000i64],
        seq![683000000i64, 855000000i64, 1056000000i64, 1313000000i64, 1701000000i64, 2048000000i64, 2467000000i64, 2763000000i64, 3408000000i64, 3674000000i64],
        seq![683000000i64, 854000000i64, 1055000000i64, 1311000000i64, 1699000000i64, 2045000000i64, 2462000000i64, 2756000000i64, 3396000000i64, 3659000000i64],
        seq![683000000i64, 854000000i64, 1055000000i64, 1310000000i64, 1697000000i64, 2042000000i64, 2457000000i64, 2750000000i64, 3385000000i64, 3646000000i64],
    ]
}

/// The textbook row that covers `df` degrees of freedom: one row per
/// df up to thirty, then one collapsed row per bucket up to a thousand.
pub open spec fn standard_t_row(df: int) -> Seq<i64> {
    if df <= 30 {
        standard_t_rows()[df - 1]
    } else if df <= 40 {
        seq![681000000i64, 851000000i64, 1050000000i64, 1303000000i64, 1684000000i64, 2021000000i64, 2423000000i64, 2704000000i64, 3307000000i64, 3551000000i64]
    } else if df <= 60 {
        seq![679000000i64, 848000000i64, 1045000000i64, 1296000000i64, 1671000000i64, 2000000000i64, 2390000000i64, 2660000000i64, 3232000000i64, 3460000000i64]
    } else if df <= 80 {
        seq![678000000i64, 846000000i64, 1043000000i64, 1292000000i64, 1664000000i64, 1990000000i64, 2374000000i64, 2639000000i64, 3195000000i64, 3416000000i64]
    } else if df <= 100 {
        seq![677000000i64, 845000000i64, 1042000000i64, 1290000000i64, 1660000000i64, 1984000000i64, 2364000000i64, 2626000000i64, 3174000000i64, 3390000000i64]
    } else {
        seq![675000000i64, 842000000i64, 1037000000i64, 1282000000i64, 1646000000i64, 1962000000i64, 2330000000i64, 2581000000i64, 3098000000i64, 3300000000i64]
    }
}

/// Whether a table holds exactly the standard textbook rows.
pub open spec fn is_standard_t_table(t: TScoreTable) -> bool {
    forall|df: int| 1 <= df <= 1000 ==> #[trigger] t.spec_row(df) == standard_t_row(df)
}

/// Critical t-values in nanounits: one row for each of the first thirty
/// degrees of freedom, then one collapsed row per bucket up to a
/// thousand.
pub struct TScoreTable {
    t_scores_30: [[i64; 10]; 30],
    t_scores_40: [i64; 10],
    t_scores_60: [i64; 10],
    t_scores_80: [i64; 10],
    t_scores_100: [i64; 10],
    t_scores_1000: [i64; 10],
}

impl TScoreTable {
    /// The table row that covers `df` degrees of freedom.
    pub closed spec fn spec_row(self, df: int) -> Seq<i64> {
        if df <= 30 {
            self.t_scores_30@[df - 1]@
        } else if df <= 40 {
            self.t_scores_40@
        } else if df <= 60 {
            self.t_scores_60@
        } else if df <= 80 {
            self.t_scores_80@
        } else if df <= 100 {
            self.t_scores_100@
        } else {
            self.t_scores_1000@
        }
    }

    /// One-sided p-value: the tail area of the first table column whose
    /// critical value strictly exceeds the statistic's magnitude; zero
    /// when the magnitude passes the whole row; the normal tail beyond
    /// a thousand degrees of freedom.
    pub open spec fn one_sided_spec(self, df: int, t: int) -> int {
        if df > 1000 {
            normal::normal_one_sided(t)
        } else {
            scan_area(tail_areas(), self.spec_row(df), abs(t) as int)
        }
    }

    /// Two-sided p-value: both tails.
    pub open spec fn two_sided_spec(self, df: int, t: int) -> int {
        2 * self.one_sided_spec(df, t)
    }

    /// The standard table of critical t-values.
    pub fn new() -> (r: Self)
        ensures
            is_standard_t_table(r),
    {
        let t_scores_30: [[i64; 10]; 30] = [
            [1000000000, 1376000000, 1963000000, 3078000000, 6314000000, 12710000000, 31820000000, 63660000000, 318310000000, 636620000000],
            [816000000, 1061000000, 1386000000, 1886000000, 2920000000, 4303000000, 6965000000, 9925000000, 22327000000, 31599000000],
            [765000000, 978000000, 1250000000, 1638000000, 2353000000, 3182000000, 4541000000, 5841000000, 10215000000, 12924000000],
            [741000000, 941000000, 1190000000, 1533000000, 2132000000, 2776000000, 3747000000, 4604000000, 7173000000, 8610000000],
            [727000000, 920000000, 1156000000, 1476000000, 2015000000, 2571000000, 3365000000, 4032000000, 5893000000, 6869000000],
            [718000000, 906000000, 1134000000, 1440000000, 1943000000, 2447000000, 3143000000, 3707000000, 5208000000, 5959000000],
            [711000000, 896000000, 1119000000, 1415000000, 1895000000, 2365000000, 2998000000, 3499000000, 4785000000, 5408000000],
            [706000000, 889000000, 1108000000, 1397000000, 1860000000, 2306000000, 2896000000, 3355000000, 4501000000, 5041000000],
            [703000000, 883000000, 1100000000, 1383000000, 1833000000, 2262000000, 2821000000, 3250000000, 4297000000, 4781000000],
            [700000000, 879000000, 1093000000, 1372000000, 1812000000, 2228000000, 2764000000, 3169000000, 4144000000, 4587000000],
            [697000000, 876000000, 1088000000, 1363000000, 1796000000, 2201000000, 2718000000, 3106000000, 4025000000, 4437000000],
            [695000000, 873000000, 1083000000, 1356000000, 1782000000, 2179000000, 2681000000, 3055000000, 3930000000, 4318000000],
            [694000000, 870000000, 1079000000, 1350000000, 1771000000, 2160000000, 2650000000, 3012000000, 3852000000, 4221000000],
            [692000000, 868000000, 1076000000, 1345000000, 1761000000, 2145000000, 2624000000, 2977000000, 3787000000, 4140000000],
            [691000000, 866000000, 1074000000, 1341000000, 1753000000, 2131000000, 2602000000, 2947000000, 3733000000, 4073000000],
            [690000000, 865000000, 1071000000, 1337000000, 1746000000, 2120000000, 2583000000, 2921000000, 3686000000, 4015000000],
            [689000000, 863000000, 1069000000, 1333000000, 1740000000, 2110000000, 2567000000, 2898000000, 3646000000, 3965000000],
            [688000000, 862000000, 1067000000, 1330000000, 1734000000, 2101000000, 2552000000, 2878000000, 3610000000, 3922000000],
            [688000000, 861000000, 1066000000, 1328000000, 1729000000, 2093000000, 2539000000, 2861000000, 3579000000, 3883000000],
            [687000000, 860000000, 1064000000, 1325000000, 1725000000, 2086000000, 2528000000, 2845000000, 3552000000, 3850000000],
            [686000000, 859000000, 1063000000, 1323000000, 1721000000, 2080000000, 2518000000, 2831000000, 3527000000, 3819000000],
            [686000000, 858000000, 1061000000, 1321000000, 1717000000, 2074000000, 2508000000, 2819000000, 3505000000, 3792000000],
            [685000000, 858000000, 1060000000, 1319000000, 1714000000, 2069000000, 2500000000, 2807000000, 3485000000, 3768000000],
            [685000000, 857000000, 1059000000, 1318000000, 1711000000, 2064000000, 2492000000, 2797000000, 3467000000, 3745000000],
            [684000000, 856000000, 1058000000, 1316000000, 1708000000, 2060000000, 2485000000, 2787000000, 3450000000, 3725000000],
            [684000000, 856000000, 1058000000, 1315000000, 1706000000, 2056000000, 2479000000, 2779000000, 3435000000, 3707000000],
            [684000000, 855000000, 1057000000, 1314000000, 1703000000, 2052000000, 2473000000, 2771000000, 3421000000, 3690000000],
            [683000000, 855000000, 1056000000, 1313000000, 1701000000, 2048000000, 2467000000, 2763000000, 3408000000, 3674000000],
            [683000000, 854000000, 1055000000, 1311000000, 1699000000, 2045000000, 2462000000, 2756000000, 3396000000, 3659000000],
            [683000000, 854000000, 1055000000, 1310000000, 1697000000, 2042000000, 2457000000, 2750000000, 3385000000, 3646000000],
        ];
        let table = TScoreTable {
            t_scores_30,
            t_scores_40: [681000000, 851000000, 1050000000, 1303000000, 1684000000, 2021000000, 2423000000, 2704000000, 3307000000, 3551000000],
            t_scores_60: [679000000, 848000000, 1045000000, 1296000000, 1671000000, 2000000000, 2390000000, 2660000000, 3232000000, 3460000000],
            t_scores_80: [678000000, 846000000, 1043000000, 1292000000, 1664000000, 1990000000, 2374000000, 2639000000, 3195000000, 3416000000],
            t_scores_100: [677000000, 845000000, 1042000000, 1290000000, 1660000000, 1984000000, 2364000000, 2626000000, 3174000000, 3390000000],
            t_scores_1000: [675000000, 842000000, 1037000000, 1282000000, 1646000000, 1962000000, 2330000000, 2581000000, 3098000000, 3300000000],
        };
        proof {
            assert forall|df: int| 1 <= df <= 1000 implies #[trigger] table.spec_row(df)
                == standard_t_row(df) by {
                if df <= 30 {
                    assert(table.t_scores_30@[df - 1]@ =~= standard_t_rows()[df - 1]);
                } else if df <= 40 {
                    assert(table.t_scores_40@ =~= standard_t_row(df));
                } else if df <= 60 {
                    assert(table.t_scores_60@ =~= standard_t_row(df));
                } else if df <= 80 {
                    assert(table.t_scores_80@ =~= standard_t_row(df));
                } else if df <= 100 {
                    assert(table.t_scores_100@ =~= standard_t_row(df));
                } else {
                    assert(table.t_scores_1000@ =~= standard_t_row(df));
                }
            }
        }
        table
    }

    /// The row covering `df`, or nothing beyond the table's range.
    fn row(&self, df: u64) -> (r: Option<&[i64; 10]>)
        requires
            df >= 1,
        ensures
            df <= 1000 ==> (r matches Some(row) && row@ == self.spec_row(df as int)),
            df > 1000 ==> r is None,
    {
        if df <= 30 {
            Some(&self.t_scores_30[(df - 1) as usize])
        } else if df <= 40 {
            Some(&self.t_scores_40)
        } else if df <= 60 {
            Some(&self.t_scores_60)
        } else if df <= 80 {
            Some(&self.t_scores_80)
        } else if df <= 100 {
            Some(&self.t_scores_100)
        } else if df <= 1000 {
            Some(&self.t_scores_1000)
        } else {
            None
        }
    }

    /// One-sided p-value for a statistic `t` at `df` degrees of freedom.
    pub fn p_value_one_sided(&self, df: PositiveCount, t: FiniteReal) -> (r: UnitReal)
        ensures
            r@ == self.one_sided_spec(df@, t@),
    {
        let d = df.get();
        match self.row(d) {
            None => normal::one_sided_p_value(t),
            Some(row) => {
                let tn = t.nanos();
                let mag: i64 = if tn < 0 {
                    -tn
                } else {
                    tn
                };
                let i = first_exceed_index(row, mag);
                let areas: [i64; 10] = [
                    250_000_000,
                    200_000_000,
                    150_000_000,
                    100_000_000,
                    50_000_000,
                    25_000_000,
                    10_000_000,
                    5_000_000,
                    1_000_000,
                    500_000,
                ];
                let a: i64 = if i >= 10 {
                    0
                } else {
                    areas[i]
                };
                proof {
                    assert(areas@ =~= tail_areas());
                    assert(a == scan_area(tail_areas(), self.spec_row(d as int), mag as int));
                    lemma_tail_areas_descending();
                    lemma_scan_area_bounds(tail_areas(), self.spec_row(d as int), mag as int);
                }
                UnitReal::new(a)
            },
        }
    }

    /// Two-sided p-value: twice the one-sided tail area.
    pub fn p_value_two_sided(&self, df: PositiveCount, t: FiniteReal) -> (r: UnitReal)
        ensures
            r@ == self.two_sided_spec(df@, t@),
    {
        let one = self.p_value_one_sided(df, t);
        proof {
            lemma_one_sided_within_half(*self, df@, t@);
        }
        UnitReal::new(2 * one.nanos())
    }
}

impl Default for TScoreTable {
    /// The same standard table.
    fn default() -> (r: Self)
        ensures
            is_standard_t_table(r),
    {
        TScoreTable::new()
    }
}

/// The one-sided p-value lies between zero and one half.
pub proof fn lemma_one_sided_within_half(tbl: TScoreTable, df: int, t: int)
    ensures
        0 <= tbl.one_sided_spec(df, t) <= (SCALE as int) / 2,
{
    if df > 1000 {
        normal::lemma_normal_tail_bounds(abs(t) as int);
    } else {
        lemma_tail_areas_descending();
        lemma_scan_area_bounds(tail_areas(), tbl.spec_row(df), abs(t) as int);
    }
}

/// The two-sided p-value is exactly twice the one-sided one, and both
/// lie within the unit range.
pub proof fn lemma_two_sided_doubles_one_sided(tbl: TScoreTable, df: int, t: int)
    ensures
        tbl.two_sided_spec(df, t) == 2 * tbl.one_sided_spec(df, t),
        0 <= tbl.one_sided_spec(df, t) <= SCALE as int,
        0 <= tbl.two_sided_spec(df, t) <= SCALE as int,
{
    lemma_one_sided_within_half(tbl, df, t);
}

/// For fixed degrees of freedom the one-sided p-value never increases
/// as the statistic's magnitude grows.
pub proof fn lemma_one_sided_antitone(tbl: TScoreTable, df: int, ta: int, tb: int)
    requires
        abs(ta) <= abs(tb),
    ensures
        tbl.one_sided_spec(df, tb) <= tbl.one_sided_spec(df, ta),
        tbl.two_sided_spec(df, tb) <= tbl.two_sided_spec(df, ta),
{
    if df > 1000 {
        normal::lemma_one_sided_antitone(ta, tb);
    } else {
        lemma_tail_areas_descending();
        lemma_scan_area_antitone(tail_areas(), tbl.spec_row(df), abs(ta) as int, abs(tb) as int);
    }
}

/// Whether two degrees of freedom are covered by the same table row:
/// equal up to thirty, then collapsed into the buckets up to forty,
/// sixty, eighty, one hundred and one thousand, and one shared normal
/// regime beyond.
pub open spec fn same_bucket(df1: int, df2: int) -> bool {
    ||| df1 == df2
    ||| (30 < df1 <= 40 && 30 < df2 <= 40)
    ||| (40 < df1 <= 60 && 40 < df2 <= 60)
    ||| (60 < df1 <= 80 && 60 < df2 <= 80)
    ||| (80 < df1 <= 100 && 80 < df2 <= 100)
    ||| (100 < df1 <= 1000 && 100 < df2 <= 1000)
    ||| (df1 > 1000 && df2 > 1000)
}

/// The lookup depends only on the degrees-of-freedom bucket: two df
/// covered by the same collapsed row give the same p-values for every
/// statistic.
pub proof fn lemma_same_bucket_same_p_value(tbl: TScoreTable, df1: int, df2: int, t: int)
    requires
        same_bucket(df1, df2),
    ensures
        tbl.one_sided_spec(df1, t) == tbl.one_sided_spec(df2, t),
        tbl.two_sided_spec(df1, t) == tbl.two_sided_spec(df2, t),
{
}

/// Beyond a thousand degrees of freedom the t distribution's p-values
/// equal the standard normal's exactly.
pub proof fn lemma_degenerates_to_normal(tbl: TScoreTable, df: int, t: int)
    requires
        df > 1000,
    ensures
        tbl.one_sided_spec(df, t) == normal::normal_one_sided(t),
        tbl.two_sided_spec(df, t) == normal::normal_two_sided(t),
{
}

} // verus!
