use stat_tests::domain::{FiniteReal, PositiveCount};
use stat_tests::t::TScoreTable;

fn finite(x: f64) -> FiniteReal {
    FiniteReal::from_nanos((x * 1e9).round() as i64).unwrap()
}

#[test]
fn df_1_t_0() {
    let table = TScoreTable::new();
    let p = table.p_value_two_sided(PositiveCount::new(1).unwrap(), finite(0.0));
    assert!(p.nanos() >= 500_000_000);
}

#[test]
fn df_1_t_637() {
    let table = TScoreTable::new();
    let p = table.p_value_two_sided(PositiveCount::new(1).unwrap(), finite(637.0));
    assert!(p.nanos() < 1_000_000);
}

#[test]
fn df_30_t_0() {
    let table = TScoreTable::new();
    let p = table.p_value_two_sided(PositiveCount::new(30).unwrap(), finite(0.0));
    assert!(p.nanos() >= 500_000_000);
}

#[test]
fn df_35_t_2() {
    let table = TScoreTable::new();
    let p = table.p_value_two_sided(PositiveCount::new(35).unwrap(), finite(2.0));
    assert!(p.nanos() >= 50_000_000);
    let p = table.p_value_two_sided(PositiveCount::new(35).unwrap(), finite(2.0));
    assert!(p.nanos() < 100_000_000);
}

#[test]
fn df_1001_t_2() {
    let table = TScoreTable::new();
    let p = table.p_value_two_sided(PositiveCount::new(1001).unwrap(), finite(2.0));
    assert!(p.nanos() >= 20_000_000);
    let p = table.p_value_two_sided(PositiveCount::new(1001).unwrap(), finite(2.0));
    assert!(p.nanos() < 50_000_000);
}
