use stat_tests::categorical::{
    fitness, min_count_of_each_of_two_samples, one_proportion, two_way_table_independence,
    CountAndExpect, CountAndProportion,
};
use stat_tests::chi_square::ChiSquareTable;
use stat_tests::domain::{DomainError, FiniteReal, NonNegativeReal, PositiveCount, UnitReal};
use stat_tests::f::{FCdf, FParams};
use stat_tests::normal;
use stat_tests::numerical::{anova, one_sample_mean, NumericalSample};
use stat_tests::t::TScoreTable;

fn finite(x: f64) -> FiniteReal {
    FiniteReal::from_nanos((x * 1e9).round() as i64).unwrap()
}

fn unit(x: f64) -> UnitReal {
    UnitReal::from_nanos((x * 1e9).round() as i64).unwrap()
}

fn nonneg(x: f64) -> NonNegativeReal {
    NonNegativeReal::from_nanos((x * 1e9).round() as i64).unwrap()
}

#[test]
fn normal_two_sided_is_symmetric() {
    let p_pos = normal::two_sided_p_value(finite(1.7));
    let p_neg = normal::two_sided_p_value(finite(-1.7));
    assert_eq!(p_pos.nanos(), p_neg.nanos());
}

#[test]
fn normal_two_sided_at_zero_is_one() {
    assert_eq!(normal::two_sided_p_value(finite(0.0)).nanos(), 1_000_000_000);
}

#[test]
fn normal_two_sided_matches_reference_value() {
    // Two-sided tail beyond two standard deviations: about 0.0455.
    let p = normal::two_sided_p_value(finite(2.0)).nanos() as f64 / 1e9;
    assert!((p - 0.0455).abs() < 0.002);
}

#[test]
fn normal_one_sided_non_increasing() {
    let p1 = normal::one_sided_p_value(finite(0.3)).nanos();
    let p2 = normal::one_sided_p_value(finite(1.1)).nanos();
    let p3 = normal::one_sided_p_value(finite(2.9)).nanos();
    assert!(p1 >= p2 && p2 >= p3);
}

#[test]
fn critical_value_hits_textbook_quantiles() {
    assert_eq!(normal::critical_value(unit(0.025)).nanos(), 1_960_000_000);
    assert_eq!(normal::critical_value(unit(0.8)).nanos(), -840_000_000);
}

#[test]
fn critical_value_round_trip() {
    for q in [0.025_f64, 0.05, 0.1, 0.2, 0.4] {
        let z = normal::critical_value(unit(q));
        let back = normal::one_sided_p_value(z).nanos() as f64 / 1e9;
        assert!((back - q).abs() < 0.005, "{q} {back}");
    }
}

#[test]
fn t_two_sided_doubles_one_sided() {
    let table = TScoreTable::new();
    let df = PositiveCount::new(10).unwrap();
    let one = table.p_value_one_sided(df, finite(2.0)).nanos();
    let two = table.p_value_two_sided(df, finite(2.0)).nanos();
    assert_eq!(two, 2 * one);
    assert!(0 <= one && two <= 1_000_000_000);
}

#[test]
fn t_one_sided_non_increasing_in_statistic() {
    let table = TScoreTable::new();
    let df = PositiveCount::new(5).unwrap();
    let p1 = table.p_value_one_sided(df, finite(0.5)).nanos();
    let p2 = table.p_value_one_sided(df, finite(1.5)).nanos();
    let p3 = table.p_value_one_sided(df, finite(3.0)).nanos();
    assert!(p1 >= p2 && p2 >= p3);
}

#[test]
fn t_exactly_on_entry_stays_conservative() {
    // At one degree of freedom the first critical value is exactly one;
    // a statistic equal to it is not treated as exceeding it.
    let table = TScoreTable::new();
    let df = PositiveCount::new(1).unwrap();
    assert_eq!(table.p_value_one_sided(df, finite(1.0)).nanos(), 200_000_000);
    assert_eq!(table.p_value_one_sided(df, finite(0.999)).nanos(), 250_000_000);
}

#[test]
fn t_beyond_thousand_degrees_equals_normal() {
    let table = TScoreTable::new();
    let df = PositiveCount::new(1001).unwrap();
    for t in [0.0_f64, 0.7, 1.3, 2.0, 3.5] {
        assert_eq!(
            table.p_value_one_sided(df, finite(t)).nanos(),
            normal::one_sided_p_value(finite(t)).nanos()
        );
        assert_eq!(
            table.p_value_two_sided(df, finite(t)).nanos(),
            normal::two_sided_p_value(finite(t)).nanos()
        );
    }
}

#[test]
fn chi_square_p_value_exact_from_table() {
    // At two degrees of freedom the statistic five falls between the
    // critical values at the areas 0.10 and 0.05.
    let table = ChiSquareTable::new();
    let p = table.p_value(PositiveCount::new(2).unwrap(), nonneg(5.0)).unwrap();
    assert_eq!(p.nanos(), 50_000_000);
}

#[test]
fn chi_square_non_increasing_in_statistic() {
    let table = ChiSquareTable::new();
    let df = PositiveCount::new(3).unwrap();
    let p1 = table.p_value(df, nonneg(2.0)).unwrap().nanos();
    let p2 = table.p_value(df, nonneg(7.0)).unwrap().nanos();
    let p3 = table.p_value(df, nonneg(13.0)).unwrap().nanos();
    assert!(p1 >= p2 && p2 >= p3);
}

#[test]
fn chi_square_rejects_df_beyond_table() {
    let table = ChiSquareTable::new();
    let r = table.p_value(PositiveCount::new(31).unwrap(), nonneg(1.0));
    assert!(matches!(r, Err(DomainError::DegreesOfFreedomTooLarge)));
}

#[test]
fn f_p_value_non_increasing_in_statistic() {
    let cdf = FCdf::new();
    let df_1 = PositiveCount::new(2).unwrap();
    let df_2 = PositiveCount::new(9).unwrap();
    let p1 = cdf.p_value(FParams { x: nonneg(0.5), df_1, df_2 }).unwrap().nanos();
    let p2 = cdf.p_value(FParams { x: nonneg(2.0), df_1, df_2 }).unwrap().nanos();
    let p3 = cdf.p_value(FParams { x: nonneg(6.0), df_1, df_2 }).unwrap().nanos();
    assert!(p1 >= p2 && p2 >= p3);
}

#[test]
fn f_p_value_at_zero_statistic_is_one() {
    let cdf = FCdf::new();
    let params = FParams {
        x: nonneg(0.0),
        df_1: PositiveCount::new(3).unwrap(),
        df_2: PositiveCount::new(8).unwrap(),
    };
    assert_eq!(cdf.p_value(params).unwrap().nanos(), 1_000_000_000);
}

#[test]
fn f_p_value_reports_unresolvable_quadrature() {
    // Extreme degrees of freedom drive the whole integrand below the
    // fixed-point grain.
    let cdf = FCdf::new();
    let params = FParams {
        x: nonneg(1.0),
        df_1: PositiveCount::new(2).unwrap(),
        df_2: PositiveCount::new(200_000).unwrap(),
    };
    assert!(matches!(cdf.p_value(params), Err(DomainError::DegenerateScale)));
}

#[test]
fn invalid_constructions_fail_domain_validation() {
    assert!(matches!(UnitReal::from_nanos(1_200_000_000), Err(DomainError::AboveUnit)));
    assert!(matches!(NonNegativeReal::from_nanos(-1_000_000_000), Err(DomainError::NegativeValue)));
    assert!(matches!(PositiveCount::new(0), Err(DomainError::ZeroCount)));
    assert!(matches!(FiniteReal::from_nanos(i64::MAX), Err(DomainError::MagnitudeTooLarge)));
    assert!(matches!(PositiveCount::new(2_000_000_000), Err(DomainError::CountTooLarge)));
    assert!(matches!(UnitReal::from_nanos(-1), Err(DomainError::NegativeValue)));
}

#[test]
fn boundary_constructions_are_accepted() {
    assert_eq!(UnitReal::from_nanos(1_000_000_000).unwrap().nanos(), 1_000_000_000);
    assert_eq!(UnitReal::from_nanos(0).unwrap().nanos(), 0);
    assert_eq!(NonNegativeReal::from_nanos(0).unwrap().nanos(), 0);
    assert_eq!(PositiveCount::new(1).unwrap().get(), 1);
    assert_eq!(PositiveCount::new(1_000_000_000).unwrap().get(), 1_000_000_000);
    assert_eq!(
        FiniteReal::from_nanos(-4_000_000_000_000_000_000).unwrap().nanos(),
        -4_000_000_000_000_000_000
    );
}

#[test]
fn one_proportion_rejects_small_samples() {
    let sample = CountAndProportion {
        count: PositiveCount::new(10).unwrap(),
        proportion: unit(0.5),
    };
    let r = one_proportion(sample, unit(0.5));
    assert!(matches!(r, Err(DomainError::NormalApproximation)));
}

#[test]
fn one_proportion_rejects_degenerate_null() {
    let sample = CountAndProportion {
        count: PositiveCount::new(1000).unwrap(),
        proportion: unit(0.5),
    };
    let r = one_proportion(sample, unit(0.0));
    assert!(matches!(r, Err(DomainError::DegenerateScale)));
}

#[test]
fn z_squared_rejects_zero_expected() {
    let cell = CountAndExpect { count: 3, expect: nonneg(0.0) };
    assert!(matches!(cell.z_squared(), Err(DomainError::DegenerateScale)));
}

#[test]
fn z_squared_exact_value() {
    let cell = CountAndExpect { count: 205, expect: nonneg(198.0) };
    // (205 - 198)^2 / 198 = 49 / 198, in truncated nanounits.
    assert_eq!(cell.z_squared().unwrap().nanos(), 247_474_747);
}

#[test]
fn fitness_exact_table_area() {
    // The chi-square statistic of this fit is about 5.8896 at three
    // degrees of freedom, between the critical values at the areas
    // 0.90 and 0.10, so the scan reports exactly 0.10.
    let table = ChiSquareTable::new();
    let bins = [
        CountAndExpect { count: 205, expect: nonneg(198.0) },
        CountAndExpect { count: 26, expect: nonneg(19.25) },
        CountAndExpect { count: 25, expect: nonneg(33.0) },
        CountAndExpect { count: 19, expect: nonneg(24.75) },
    ];
    assert_eq!(fitness(&table, &bins).unwrap().nanos(), 100_000_000);
}

#[test]
fn difference_of_two_proportions_rejects_small_samples() {
    let big = CountAndProportion {
        count: PositiveCount::new(1000).unwrap(),
        proportion: unit(0.5),
    };
    let small = CountAndProportion {
        count: PositiveCount::new(12).unwrap(),
        proportion: unit(0.5),
    };
    let r = stat_tests::categorical::difference_of_two_proportions(big, small, unit(0.0));
    assert!(matches!(r, Err(DomainError::NormalApproximation)));
}

#[test]
fn fitness_rejects_bad_inputs() {
    let table = ChiSquareTable::new();
    assert!(matches!(fitness(&table, &[]), Err(DomainError::TooFewGroups)));

    let one_bin = [CountAndExpect { count: 5, expect: nonneg(6.0) }];
    assert!(matches!(fitness(&table, &one_bin), Err(DomainError::TooFewGroups)));

    let small = [
        CountAndExpect { count: 5, expect: nonneg(6.0) },
        CountAndExpect { count: 5, expect: nonneg(1.0) },
    ];
    assert!(matches!(fitness(&table, &small), Err(DomainError::ExpectedCountTooSmall)));

    let many: Vec<CountAndExpect> =
        (0..40).map(|_| CountAndExpect { count: 9, expect: nonneg(9.0) }).collect();
    assert!(matches!(fitness(&table, &many), Err(DomainError::DegreesOfFreedomTooLarge)));
}

#[test]
fn independence_rejects_bad_tables() {
    let table = ChiSquareTable::new();
    let one_row = vec![vec![8u32, 9]];
    assert!(matches!(
        two_way_table_independence(&table, &one_row),
        Err(DomainError::TooFewGroups)
    ));

    let ragged = vec![vec![8u32, 9], vec![7u32]];
    assert!(matches!(
        two_way_table_independence(&table, &ragged),
        Err(DomainError::TooFewGroups)
    ));

    let tiny = vec![vec![1u32, 1], vec![1u32, 1]];
    assert!(matches!(
        two_way_table_independence(&table, &tiny),
        Err(DomainError::ExpectedCountTooSmall)
    ));

    let huge = vec![vec![600_000_000u32, 600_000_000], vec![600_000_000u32, 600_000_000]];
    assert!(matches!(
        two_way_table_independence(&table, &huge),
        Err(DomainError::CountTooLarge)
    ));
}

#[test]
fn anova_rejects_bad_inputs() {
    assert!(matches!(anova(&[]), Err(DomainError::TooFewGroups)));

    let one_group = [NumericalSample {
        mean: finite(1.0),
        variance: nonneg(1.0),
        count: PositiveCount::new(5).unwrap(),
    }];
    assert!(matches!(anova(&one_group), Err(DomainError::TooFewGroups)));

    let singletons = [
        NumericalSample {
            mean: finite(1.0),
            variance: nonneg(1.0),
            count: PositiveCount::new(1).unwrap(),
        },
        NumericalSample {
            mean: finite(2.0),
            variance: nonneg(1.0),
            count: PositiveCount::new(1).unwrap(),
        },
    ];
    assert!(matches!(anova(&singletons), Err(DomainError::ZeroCount)));

    let flat = [
        NumericalSample {
            mean: finite(1.0),
            variance: nonneg(0.0),
            count: PositiveCount::new(3).unwrap(),
        },
        NumericalSample {
            mean: finite(2.0),
            variance: nonneg(0.0),
            count: PositiveCount::new(3).unwrap(),
        },
    ];
    assert!(matches!(anova(&flat), Err(DomainError::DegenerateScale)));
}

#[test]
fn one_sample_mean_rejects_single_observation() {
    let table = TScoreTable::new();
    let sample = NumericalSample {
        mean: finite(1.0),
        variance: nonneg(1.0),
        count: PositiveCount::new(1).unwrap(),
    };
    assert!(matches!(
        one_sample_mean(&table, sample, finite(0.0)),
        Err(DomainError::ZeroCount)
    ));
}

#[test]
fn sample_size_planner_rejects_degenerate_setups() {
    // No difference between the proportions and the null.
    let r = min_count_of_each_of_two_samples(unit(0.4), unit(0.4), unit(0.0), unit(0.8), unit(0.05));
    assert!(matches!(r, Err(DomainError::DegenerateScale)));
}

#[test]
fn sample_size_planner_region_enters_squared() {
    // The region is the rejection quantile minus the power quantile; a
    // power equal to half the p-value bound makes both quantiles agree,
    // the region vanish, and the needed count zero.
    let r = min_count_of_each_of_two_samples(unit(0.4), unit(0.5), unit(0.0), unit(0.025), unit(0.05));
    assert_eq!(r.unwrap(), 0);
    // A power below the significance level makes the region negative;
    // only its square matters, so a sensible count still comes back.
    let r = min_count_of_each_of_two_samples(unit(0.4), unit(0.5), unit(0.0), unit(0.01), unit(0.5));
    assert!(r.unwrap() >= 1);
}

#[test]
fn sample_size_planner_rejects_unrepresentable_counts() {
    // A difference of one nanounit with a wide region asks for more
    // samples than a machine word can count.
    let p1 = UnitReal::from_nanos(500_000_000).unwrap();
    let p2 = UnitReal::from_nanos(500_000_001).unwrap();
    let r = min_count_of_each_of_two_samples(p1, p2, unit(0.0), unit(0.999), unit(0.001));
    assert!(matches!(r, Err(DomainError::MagnitudeTooLarge)));
}
