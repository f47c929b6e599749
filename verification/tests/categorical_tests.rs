use stat_tests::categorical::{
    difference_of_two_proportions, fitness, min_count_of_each_of_two_samples, one_proportion,
    two_way_table_independence, CountAndExpect, CountAndProportion,
};
use stat_tests::chi_square::ChiSquareTable;
use stat_tests::domain::{NonNegativeReal, PositiveCount, UnitReal};

fn unit(x: f64) -> UnitReal {
    UnitReal::from_nanos((x * 1e9).round() as i64).unwrap()
}

fn nonneg(x: f64) -> NonNegativeReal {
    NonNegativeReal::from_nanos((x * 1e9).round() as i64).unwrap()
}

#[test]
fn test_one_proportion() {
    let sample = CountAndProportion {
        count: PositiveCount::new(1000).unwrap(),
        proportion: unit(0.37),
    };
    let p_0 = unit(0.5);
    assert!(one_proportion(sample, p_0).unwrap().nanos() < 50_000_000);
}

#[test]
fn test_difference_of_two_proportions() {
    let sample_1 = CountAndProportion {
        count: PositiveCount::new(500 + 44425).unwrap(),
        proportion: unit(500.0 / (500 + 44425) as f64),
    };
    let sample_2 = CountAndProportion {
        count: PositiveCount::new(505 + 44405).unwrap(),
        proportion: unit(505.0 / (505 + 44405) as f64),
    };
    let p_0 = unit(0.0);
    assert!(difference_of_two_proportions(sample_1, sample_2, p_0).unwrap().nanos() > 50_000_000);

    let sample_1 = CountAndProportion {
        count: PositiveCount::new(1000).unwrap(),
        proportion: unit(0.958),
    };
    let sample_2 = CountAndProportion {
        count: PositiveCount::new(1000).unwrap(),
        proportion: unit(0.899),
    };
    let p_0 = unit(0.03);
    assert!(difference_of_two_proportions(sample_1, sample_2, p_0).unwrap().nanos() < 50_000_000);
}

#[test]
fn categorical_test_proper_sample_size() {
    let proportion_1 = unit(500.0 / (500 + 44425) as f64);
    let proportion_2 = unit(505.0 / (505 + 44405) as f64);
    let p_0 = unit(0.0);
    let power = unit(0.8);
    let max_p_value = unit(0.05);
    let count =
        min_count_of_each_of_two_samples(proportion_1, proportion_2, p_0, power, max_p_value)
            .unwrap();
    println!("{count}");

    let proportion_1 = unit(0.958);
    let proportion_2 = unit(0.899);
    let p_0 = unit(0.03);
    let power = unit(0.8);
    let max_p_value = unit(0.05);
    let count =
        min_count_of_each_of_two_samples(proportion_1, proportion_2, p_0, power, max_p_value)
            .unwrap();
    println!("{count}");
}

#[test]
fn test_fitness() {
    let table = ChiSquareTable::new();
    let bins = [
        CountAndExpect { count: 205, expect: nonneg(198.0) },
        CountAndExpect { count: 26, expect: nonneg(19.25) },
        CountAndExpect { count: 25, expect: nonneg(33.0) },
        CountAndExpect { count: 19, expect: nonneg(24.75) },
    ];
    assert!(fitness(&table, &bins).unwrap().nanos() > 50_000_000);
}

#[test]
fn test_two_way_table_independence() {
    let table = ChiSquareTable::new();
    let matrix = vec![
        vec![2u32, 23, 36], //
        vec![71u32, 50, 37], //
    ];
    assert!(two_way_table_independence(&table, &matrix).unwrap().nanos() < 50_000_000);
}
