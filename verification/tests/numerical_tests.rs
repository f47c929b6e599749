use stat_tests::domain::{FiniteReal, NonNegativeReal, PositiveCount, UnitReal};
use stat_tests::numerical::{
    anova, difference_of_two_means, min_count_of_each_of_two_samples, one_sample_mean,
    NumericalSample,
};
use stat_tests::t::TScoreTable;

fn finite(x: f64) -> FiniteReal {
    FiniteReal::from_nanos((x * 1e9).round() as i64).unwrap()
}

fn nonneg(x: f64) -> NonNegativeReal {
    NonNegativeReal::from_nanos((x * 1e9).round() as i64).unwrap()
}

#[test]
fn test_one_sample_mean() {
    let table = TScoreTable::new();
    let sample = NumericalSample {
        mean: finite(97.32),
        variance: nonneg(16.98_f64.powi(2)),
        count: PositiveCount::new(100).unwrap(),
    };
    let p = one_sample_mean(&table, sample, finite(93.29)).unwrap();
    assert!(p.nanos() < 50_000_000);
}

#[test]
fn test_difference_of_two_means() {
    let table = TScoreTable::new();
    let sample_1 = NumericalSample {
        mean: finite(7.18),
        variance: nonneg(1.60_f64.powi(2)),
        count: PositiveCount::new(100).unwrap(),
    };
    let sample_2 = NumericalSample {
        mean: finite(6.78),
        variance: nonneg(1.43_f64.powi(2)),
        count: PositiveCount::new(50).unwrap(),
    };
    let p = difference_of_two_means(&table, sample_1, sample_2, finite(0.0)).unwrap();
    assert!(p.nanos() >= 50_000_000);
}

#[test]
fn numerical_test_proper_sample_size() {
    let power = UnitReal::from_nanos(800_000_000).unwrap();
    let mean_a = finite(-3.0);
    let variance = nonneg(12.0_f64.powi(2));
    let max_p_value = UnitReal::from_nanos(50_000_000).unwrap();
    let count =
        min_count_of_each_of_two_samples(mean_a, power, max_p_value, variance, variance).unwrap();
    assert_eq!(count, 251);
}

#[test]
fn test_anova() {
    let groups = [
        NumericalSample {
            mean: finite(85.75),
            variance: nonneg(28.25),
            count: PositiveCount::new(4).unwrap(),
        },
        NumericalSample {
            mean: finite(84.0),
            variance: nonneg(13.00),
            count: PositiveCount::new(3).unwrap(),
        },
        NumericalSample {
            mean: finite(90.2),
            variance: nonneg(15.70),
            count: PositiveCount::new(5).unwrap(),
        },
    ];
    let (f, p) = anova(&groups).unwrap();
    assert_eq!(f.df_1.get(), 2);
    assert_eq!(f.df_2.get(), 9);
    assert!((f.x.nanos() as f64 / 1e9 - 2.1811).abs() < 0.05);
    assert!((p.nanos() as f64 / 1e9 - 0.1689).abs() < 0.05);
}
