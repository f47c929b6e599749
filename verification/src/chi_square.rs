//! Chi-square distribution: a critical-value table indexed by degrees
//! of freedom and ten descending upper-tail-area levels, scanned with
//! the same first-exceeded-column rule as the t table.

use vstd::prelude::*;

use crate::domain::{DomainError, NonNegativeReal, PositiveCount, UnitReal};
use crate::fixed::SCALE;
use crate::table::{
    first_exceed_index, lemma_scan_area_antitone, lemma_scan_area_bounds, scan_area,
};

verus! {

/// Largest degrees of freedom the table covers.
pub const CHI_MAX_DF: u64 = 30;

/// The ten upper-tail-area levels of the table, descending:
/// 0.995, 0.99, 0.975, 0.95, 0.90, 0.10, 0.05, 0.025, 0.01, 0.005.
pub open spec fn chi_areas() -> Seq<i64> {
    seq![
        995_000_000i64,
        990_000_000i64,
        975_000_000i64,
        950_000_000i64,
        900_000_000i64,
        100_000_000i64,
        50_000_000i64,
        25_000_000i64,
        10_000_000i64,
        5_000_000i64,
    ]
}

/// The tail-area levels descend and lie within the unit range.
pub proof fn lemma_chi_areas_descending()
    ensures
        crate::table::descending_areas(chi_areas()),
        chi_areas().len() == 10,
        chi_areas()[0] == 995_000_000,
{
    let a = chi_areas();
    assert forall|i: int, j: int| 0 <= i <= j < a.len() implies #[trigger] a[i] >= #[trigger] a[j] by {
        assert(a[0] == 995_000_000 && a[1] == 990_000_000 && a[2] == 975_000_000 && a[3]
            == 950_000_000 && a[4] == 900_000_000 && a[5] == 100_000_000 && a[6] == 50_000_000
            && a[7] == 25_000_000 && a[8] == 10_000_000 && a[9] == 5_000_000);
    }
    assert forall|i: int| 0 <= i < a.len() implies 0 <= #[trigger] a[i] <= SCALE by {
        assert(a[0] == 995_000_000 && a[1] == 990_000_000 && a[2] == 975_000_000 && a[3]
            == 950_000_000 && a[4] == 900_000_000 && a[5] == 100_000_000 && a[6] == 50_000_000
            && a[7] == 25_000_000 && a[8] == 10_000_000 && a[9] == 5_000_000);
    }
}

/// The textbook critical chi-square values in nanounits, one row per
/// degree of freedom from one to thirty.
pub open spec fn standard_chi_rows() -> Seq<Seq<i64>> {
    seq![
        seq![0i64, 0i64, 1000000i64, 4000000i64, 16000000i64, 2706000000i64, 3841000000i64, 5024000000i64, 6635000000i64, 7879000000i64],
        seq![10000000i64, 20000000i64, 51000000i64, 103000000i64, 211000000i64, 4605000000i64, 5991000000i64, 7378000000i64, 9210000000i64, 10597000000i64],
        seq![72000000i64, 115000000i64, 216000000i64, 352000000i64, 584000000i64, 6251000000i64, 7815000000i64, 9348000000i64, 11345000000i64, 12838000000i64],
        seq![207000000i64, 297000000i64, 484000000i64, 711000000i64, 1064000000i64, 7779000000i64, 9488000000i64, 11143000000i64, 13277000000i64, 14860000000i64],
        seq![412000000i64, 554000000i64, 831000000i64, 1145000000i64, 1610000000i64, 9236000000i64, 11070000000i64, 12833000000i64, 15086000000i64, 16750000000i64],
        seq![676000000i64, 872000000i64, 1237000000i64, 1635000000i64, 2204000000i64, 10645000000i64, 12592000000i64, 14449000000i64, 16812000000i64, 18548000000i64],
        seq![989000000i64, 1239000000i64, 1690000000i64, 2167000000i64, 2833000000i64, 12017000000i64, 14067000000i64, 16013000000i64, 18475000000i64, 20278000000i64],
        seq![1344000000i64, 1646000000i64, 2180000000i64, 2733000000i64, 3490000000i64, 13362000000i64, 15507000000i64, 17535000000i64, 20090000000i64, 21955000000i64],
        seq![1735000000i64, 2088000000i64, 2700000000i64, 3325000000i64, 4168000000i64, 14684000000i64, 16919000000i64, 19023000000i64, 21666000000i64, 23589000000i64],
        seq![2156000000i64, 2558000000i64, 3247000000i64, 3940000000i64, 4865000000i64, 15987000000i64, 18307000000i64, 20483000000i64, 23209000000i64, 25188000000i64],
        seq![2603000000i64, 3053000000i64, 3816000000i64, 4575000000i64, 5578000000i64, 17275000000i64, 19675000000i64, 21920000000i64, 24725000000i64, 26757000000i64],
        seq![3074000000i64, 3571000000i64, 4404000000i64, 5226000000i64, 6304000000i64, 18549000000i64, 21026000000i64, 23337000000i64, 26217000000i64, 28300000000i64],
        seq![3565000000i64, 4107000000i64, 5009000000i64, 5892000000i64, 7042000000i64, 19812000000i64, 22362000000i64, 24736000000i64, 27688000000i64, 29819000000i64],
        seq![4075000000i64, 4660000000i64, 5629000000i64, 6571000000i64, 7790000000i64, 21064000000i64, 23685000000i64, 26119000000i64, 29141000000i64, 31319000000i64],
        seq![4601000000i64, 5229000000i64, 6262000000i64, 7261000000i64, 8547000000i64, 22307000000i64, 24996000000i64, 27488000000i64, 30578000000i64, 32801000000i64],
        seq![5142000000i64, 5812000000i64, 6908000000i64, 7962000000i64, 9312000000i64, 23542000000i64, 26296000000i64, 28845000000i64, 32000000000i64, 34267000000i64],
        seq![5697000000i64, 6408000000i64, 7564000000i64, 8672000000i64, 10085000000i64, 24769000000i64, 27587000000i64, 30191000000i64, 33409000000i64, 35718000000i64],
        seq![6265000000i64, 7015000000i64, 8231000000i64, 9390000000i64, 10865000000i64, 25989000000i64, 28869000000i64, 31526000000i64, 34805000000i64, 37156000000i64],
        seq![6844000000i64, 7633000000i64, 8907000000i64, 10117000000i64, 11651000000i64, 27204000000i64, 30144000000i64, 32852000000i64, 36191000000i64, 38582000000i64],
        seq![7434000000i64, 8260000000i64, 9591000000i64, 10851000000i64, 12443000000i64, 28412000000i64, 31410000000i64, 34170000000i64, 37566000000i64, 39997000000i64],
        seq![8034000000i64, 8897000000i64, 10283000000i64, 11591000000i64, 13240000000i64, 29615000000i64, 32671000000i64, 35479000000i64, 38932000000i64, 41401000000i64],
        seq![8643000000i64, 9542000000i64, 10982000000i64, 12338000000i64, 14041000000i64, 30813000000i64, 33924000000i64, 36781000000i64, 40289000000i64, 42796000000i64],
        seq![9260000000i64, 10196000000i64, 11689000000i64, 13091000000i64, 14848000000i64, 32007000000i64, 35172000000i64, 38076000000i64, 41638000000i64, 44181000000i64],
        seq![9886000000i64, 10856000000i64, 12401000000i64, 13848000000i64, 15659000000i64, 33196000000i64, 36415000000i64, 39364000000i64, 42980000000i64, 45559000000i64],
        seq![10520000000i64, 11524000000i64, 13120000000i64, 14611000000i64, 16473000000i64, 34382000000i64, 37652000000i64, 40646000000i64, 44314000000i64, 46928000000i64],
        seq![11160000000i64, 12198000000i64, 13844000000i64, 15379000000i64, 17292000000i64, 35563000000i64, 38885000000i64, 41923000000i64, 45642000000i64, 48290000000i64],
        seq![11808000000i64, 12879000000i64, 14573000000i64, 16151000000i64, 18114000000i64, 36741000000i64, 40113000000i64, 43195000000i64, 46963000000i64, 49645000000i64],
        seq![12461000000i64, 13565000000i64, 15308000000i64, 16928000000i64, 18939000000i64, 37916000000i64, 41337000000i64, 44461000000i64, 48278000000i64, 50993000000i64],
        seq![13121000000i64, 14256000000i64, 16047000000i64, 17708000000i64, 19768000000i64, 39087000000i64, 42557000000i64, 45722000000i64, 49588000000i64, 52336000000i64],
        seq![13787000000i64, 14953000000i64, 16791000000i64, 18493000000i64, 20599000000i64, 40256000000i64, 43773000000i64, 46979000000i64, 50892000000i64, 53672000000i64],
    ]
}

/// Whether a table holds exactly the standard textbook rows.
pub open spec fn is_standard_chi_table(t: ChiSquareTable) -> bool {
    forall|df: int| 1 <= df <= CHI_MAX_DF ==> #[trigger] t.spec_row(df) == standard_chi_rows()[df - 1]
}

/// Critical chi-square values in nanounits, one row per degree of
/// freedom from one to thirty.
pub struct ChiSquareTable {
    scores: [[i64; 10]; 30],
}

impl ChiSquareTable {
    /// The table row for `df` degrees of freedom.
    pub closed spec fn spec_row(self, df: int) -> Seq<i64> {
        self.scores@[df - 1]@
    }

    /// Upper-tail p-value: the tail area of the first table column whose
    /// critical value strictly exceeds the statistic; zero when the
    /// statistic passes the whole row.
    pub open spec fn p_value_spec(self, df: int, x: int) -> int {
        scan_area(chi_areas(), self.spec_row(df), x)
    }

    /// The standard table of critical chi-square values.
    pub fn new() -> (r: Self)
        ensures
            is_standard_chi_table(r),
    {
        let scores: [[i64; 10]; 30] = [
            [0, 0, 1000000, 4000000, 16000000, 2706000000, 3841000000, 5024000000, 6635000000, 7879000000],
            [10000000, 20000000, 51000000, 103000000, 211000000, 4605000000, 5991000000, 7378000000, 9210000000, 10597000000],
            [72000000, 115000000, 216000000, 352000000, 584000000, 6251000000, 7815000000, 9348000000, 11345000000, 12838000000],
            [207000000, 297000000, 484000000, 711000000, 1064000000, 7779000000, 9488000000, 11143000000, 13277000000, 14860000000],
            [412000000, 554000000, 831000000, 1145000000, 1610000000, 9236000000, 11070000000, 12833000000, 15086000000, 16750000000],
            [676000000, 872000000, 1237000000, 1635000000, 2204000000, 10645000000, 12592000000, 14449000000, 16812000000, 18548000000],
            [989000000, 1239000000, 1690000000, 2167000000, 2833000000, 12017000000, 14067000000, 16013000000, 18475000000, 20278000000],
            [1344000000, 1646000000, 2180000000, 2733000000, 3490000000, 13362000000, 15507000000, 17535000000, 20090000000, 21955000000],
            [1735000000, 2088000000, 2700000000, 3325000000, 4168000000, 14684000000, 16919000000, 19023000000, 21666000000, 23589000000],
            [2156000000, 2558000000, 3247000000, 3940000000, 4865000000, 15987000000, 18307000000, 20483000000, 23209000000, 25188000000],
            [2603000000, 3053000000, 3816000000, 4575000000, 5578000000, 17275000000, 19675000000, 21920000000, 24725000000, 26757000000],
            [3074000000, 3571000000, 4404000000, 5226000000, 6304000000, 18549000000, 21026000000, 23337000000, 26217000000, 28300000000],
            [3565000000, 4107000000, 5009000000, 5892000000, 7042000000, 19812000000, 22362000000, 24736000000, 27688000000, 29819000000],
            [4075000000, 4660000000, 5629000000, 6571000000, 7790000000, 21064000000, 23685000000, 26119000000, 29141000000, 31319000000],
            [4601000000, 5229000000, 6262000000, 7261000000, 8547000000, 22307000000, 24996000000, 27488000000, 30578000000, 32801000000],
            [5142000000, 5812000000, 6908000000, 7962000000, 9312000000, 23542000000, 26296000000, 28845000000, 32000000000, 34267000000],
            [5697000000, 6408000000, 7564000000, 8672000000, 10085000000, 24769000000, 27587000000, 30191000000, 33409000000, 35718000000],
            [6265000000, 7015000000, 8231000000, 9390000000, 10865000000, 25989000000, 28869000000, 31526000000, 34805000000, 37156000000],
            [6844000000, 7633000000, 8907000000, 10117000000, 11651000000, 27204000000, 30144000000, 32852000000, 36191000000, 38582000000],
            [7434000000, 8260000000, 9591000000, 10851000000, 12443000000, 28412000000, 31410000000, 34170000000, 37566000000, 39997000000],
            [8034000000, 8897000000, 10283000000, 11591000000, 13240000000, 29615000000, 32671000000, 35479000000, 38932000000, 41401000000],
            [8643000000, 9542000000, 10982000000, 12338000000, 14041000000, 30813000000, 33924000000, 36781000000, 40289000000, 42796000000],
            [9260000000, 10196000000, 11689000000, 13091000000, 14848000000, 32007000000, 35172000000, 38076000000, 41638000000, 44181000000],
            [9886000000, 10856000000, 12401000000, 13848000000, 15659000000, 33196000000, 36415000000, 39364000000, 42980000000, 45559000000],
            [10520000000, 11524000000, 13120000000, 14611000000, 16473000000, 34382000000, 37652000000, 40646000000, 44314000000, 46928000000],
            [11160000000, 12198000000, 13844000000, 15379000000, 17292000000, 35563000000, 38885000000, 41923000000, 45642000000, 48290000000],
            [11808000000, 12879000000, 14573000000, 16151000000, 18114000000, 36741000000, 40113000000, 43195000000, 46963000000, 49645000000],
            [12461000000, 13565000000, 15308000000, 16928000000, 18939000000, 37916000000, 41337000000, 44461000000, 48278000000, 50993000000],
            [13121000000, 14256000000, 16047000000, 17708000000, 19768000000, 39087000000, 42557000000, 45722000000, 49588000000, 52336000000],
            [13787000000, 14953000000, 16791000000, 18493000000, 20599000000, 40256000000, 43773000000, 46979000000, 50892000000, 53672000000],
        ];
        let table = ChiSquareTable { scores };
        proof {
            assert forall|df: int| 1 <= df <= CHI_MAX_DF implies #[trigger] table.spec_row(df)
                == standard_chi_rows()[df - 1] by {
                assert(table.scores@[df - 1]@ =~= standard_chi_rows()[df - 1]);
            }
        }
        table
    }

    /// Upper-tail p-value for a chi-square statistic at `df` degrees of
    /// freedom; fails when the table does not cover `df`.
    pub fn p_value(&self, df: PositiveCount, chi_square: NonNegativeReal) -> (r: Result<
        UnitReal,
        DomainError,
    >)
        ensures
            r is Ok <==> df@ <= CHI_MAX_DF,
            r matches Ok(p) ==> p@ == self.p_value_spec(df@, chi_square@),
            df@ > CHI_MAX_DF ==> r == Err::<UnitReal, DomainError>(
                DomainError::DegreesOfFreedomTooLarge,
            ),
    {
        let d = df.get();
        if d > CHI_MAX_DF {
            return Err(DomainError::DegreesOfFreedomTooLarge);
        }
        let row = &self.scores[(d - 1) as usize];
        let x = chi_square.nanos();
        let i = first_exceed_index(row, x);
        let areas: [i64; 10] = [
            995_000_000,
            990_000_000,
            975_000_000,
            950_000_000,
            900_000_000,
            100_000_000,
            50_000_000,
            25_000_000,
            10_000_000,
            5_000_000,
        ];
        let a: i64 = if i >= 10 {
            0
        } else {
            areas[i]
        };
        proof {
            assert(areas@ =~= chi_areas());
            assert(a == scan_area(chi_areas(), self.spec_row(d as int), x as int));
            lemma_chi_areas_descending();
            lemma_scan_area_bounds(chi_areas(), self.spec_row(d as int), x as int);
        }
        Ok(UnitReal::new(a))
    }
}

impl Default for ChiSquareTable {
    /// The same standard table.
    fn default() -> (r: Self)
        ensures
            is_standard_chi_table(r),
    {
        ChiSquareTable::new()
    }
}

/// For fixed degrees of freedom the chi-square p-value never increases
/// with the statistic, and lies within the unit range.
pub proof fn lemma_p_value_antitone(tbl: ChiSquareTable, df: int, x1: int, x2: int)
    requires
        x1 <= x2,
    ensures
        tbl.p_value_spec(df, x2) <= tbl.p_value_spec(df, x1),
        0 <= tbl.p_value_spec(df, x2),
        tbl.p_value_spec(df, x1) <= SCALE as int,
{
    lemma_chi_areas_descending();
    lemma_scan_area_antitone(chi_areas(), tbl.spec_row(df), x1, x2);
}

} // verus!
