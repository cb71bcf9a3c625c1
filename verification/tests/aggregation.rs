use teebench::algorithm::Algorithm;
use teebench::atomic::Atomic;
use teebench::operation::{OperationType, Prim};

fn kernel(p: Prim, a: u64, b: u64) -> u64 {
    let x = f64::from_bits(a);
    let y = f64::from_bits(b);
    let r = match p {
        Prim::Add => x + y,
        Prim::Sub => x - y,
        Prim::Mul => x * y,
        Prim::Div => x / y,
        Prim::Pow => x.powf(y),
        Prim::Sqrt => x.sqrt(),
        Prim::Abs => x.abs(),
        Prim::OfUint => return (a as f64).to_bits(),
    };
    r.to_bits()
}

fn vals(xs: &[f64]) -> Vec<u64> {
    xs.iter().map(|x| x.to_bits()).collect()
}

fn floats(bs: &Vec<u64>) -> Vec<f64> {
    bs.iter().map(|b| f64::from_bits(*b)).collect()
}

fn any_algorithm() -> Algorithm {
    Algorithm::load(vec![Atomic::new(
        "k".to_string(),
        true,
        OperationType::Addition,
        vec!["x".to_string()],
        None,
    )])
    .unwrap()
}

#[test]
fn two_companies_give_the_documented_statistics() {
    let alg = any_algorithm();
    let mut rows = vec![vals(&[10.0]), vals(&[20.0])];
    let out = alg.aggregate_atomic_var(&mut rows, &kernel).unwrap();
    assert_eq!(floats(out.worst_in_class()), vec![10.0]);
    assert_eq!(floats(out.best_in_class()), vec![20.0]);
    assert_eq!(floats(out.median()), vec![15.0]);
    assert_eq!(floats(out.average()), vec![15.0]);
    assert_eq!(floats(out.lower_quantile()), vec![10.0]);
    assert_eq!(floats(out.upper_quantile()), vec![20.0]);
}

#[test]
fn a_single_company_is_its_own_statistics() {
    let alg = any_algorithm();
    let mut rows = vec![vals(&[4.0, 8.0])];
    let out = alg.aggregate_atomic_var(&mut rows, &kernel).unwrap();
    assert_eq!(floats(out.worst_in_class()), vec![4.0, 8.0]);
    assert_eq!(floats(out.best_in_class()), vec![4.0, 8.0]);
    assert_eq!(floats(out.median()), vec![4.0, 8.0]);
    assert_eq!(floats(out.average()), vec![4.0, 8.0]);
    assert_eq!(floats(out.lower_quantile()), vec![4.0, 8.0]);
    assert_eq!(floats(out.upper_quantile()), vec![4.0, 8.0]);
}

#[test]
fn identical_companies_share_every_statistic() {
    let alg = any_algorithm();
    let mut rows = vec![vals(&[7.0]), vals(&[7.0]), vals(&[7.0])];
    let out = alg.aggregate_atomic_var(&mut rows, &kernel).unwrap();
    assert_eq!(floats(out.worst_in_class()), vec![7.0]);
    assert_eq!(floats(out.best_in_class()), vec![7.0]);
    assert_eq!(floats(out.median()), vec![7.0]);
    assert_eq!(floats(out.average()), vec![7.0]);
    assert_eq!(floats(out.lower_quantile()), vec![7.0]);
    assert_eq!(floats(out.upper_quantile()), vec![7.0]);
}

#[test]
fn four_companies_average_the_quartile_pairs() {
    let alg = any_algorithm();
    let mut rows = vec![vals(&[4.0]), vals(&[1.0]), vals(&[3.0]), vals(&[2.0])];
    let out = alg.aggregate_atomic_var(&mut rows, &kernel).unwrap();
    assert_eq!(floats(out.worst_in_class()), vec![1.0]);
    assert_eq!(floats(out.best_in_class()), vec![4.0]);
    assert_eq!(floats(out.median()), vec![2.5]);
    assert_eq!(floats(out.average()), vec![2.5]);
    assert_eq!(floats(out.lower_quantile()), vec![1.5]);
    assert_eq!(floats(out.upper_quantile()), vec![3.5]);
}

#[test]
fn infinite_components_downgrade_to_the_empty_result() {
    let alg = any_algorithm();
    let mut rows = vec![vals(&[1.0]), vals(&[f64::INFINITY])];
    let out = alg.aggregate_atomic_var(&mut rows, &kernel).unwrap();
    assert_eq!(out.best_in_class().len(), 0);
    assert_eq!(out.worst_in_class().len(), 0);
    assert_eq!(out.average().len(), 0);
    assert_eq!(out.median().len(), 0);
    assert_eq!(out.lower_quantile().len(), 0);
    assert_eq!(out.upper_quantile().len(), 0);
}

#[test]
fn an_empty_population_gives_the_empty_result() {
    let alg = any_algorithm();
    let mut rows: Vec<Vec<u64>> = Vec::new();
    let out = alg.aggregate_atomic_var(&mut rows, &kernel).unwrap();
    assert_eq!(out.best_in_class().len(), 0);
    assert_eq!(out.worst_in_class().len(), 0);
}

#[test]
fn nan_ranks_above_every_value() {
    let alg = any_algorithm();
    let mut rows = vec![vals(&[f64::NAN]), vals(&[1.0])];
    let out = alg.aggregate_atomic_var(&mut rows, &kernel).unwrap();
    assert_eq!(floats(out.worst_in_class()), vec![1.0]);
    assert!(floats(out.best_in_class())[0].is_nan());
}

#[test]
fn ranking_uses_the_first_component() {
    let alg = any_algorithm();
    let mut rows = vec![vals(&[5.0, 0.0]), vals(&[2.0, 100.0])];
    let out = alg.aggregate_atomic_var(&mut rows, &kernel).unwrap();
    assert_eq!(floats(out.worst_in_class()), vec![2.0, 100.0]);
    assert_eq!(floats(out.best_in_class()), vec![5.0, 0.0]);
}

#[test]
fn negative_values_rank_below_positive_ones() {
    let alg = any_algorithm();
    let mut rows = vec![vals(&[1.0]), vals(&[-3.0]), vals(&[0.0])];
    let out = alg.aggregate_atomic_var(&mut rows, &kernel).unwrap();
    assert_eq!(floats(out.worst_in_class()), vec![-3.0]);
    assert_eq!(floats(out.best_in_class()), vec![1.0]);
    assert_eq!(floats(out.median()), vec![0.0]);
}
