use teebench::algorithm::Algorithm;
use teebench::atomic::Atomic;
use teebench::benchmark::{run_benchmark, stage_aggregate, stage_cluster, stage_compute};
use teebench::entity::Company;
use teebench::error::BenchmarkingError;
use teebench::input::{Input, InputVariable};
use teebench::operation::{OperationType, Prim};

fn kernel(p: Prim, a: u64, b: u64) -> u64 {
    let x = f64::from_bits(a);
    let y = f64::from_bits(b);
    let r = match p {
        Prim::Add => x + y,
        Prim::Sub => x - y,
        Prim::Mul => x * y,
        Prim::Div => x / y,
        Prim::Pow => x.powf(y),
        Prim::Sqrt => x.sqrt(),
        Prim::Abs => x.abs(),
        Prim::OfUint => return (a as f64).to_bits(),
    };
    r.to_bits()
}

fn floats(bs: &Vec<u64>) -> Vec<f64> {
    bs.iter().map(|b| f64::from_bits(*b)).collect()
}

fn company_with_x(x: f64) -> Company {
    let mut c = Company::new();
    c.set_input_data(Input::from_vars(vec![InputVariable::new(
        "x".to_string(),
        vec![x.to_bits()],
    )]));
    c
}

fn doubling_algorithm() -> Algorithm {
    Algorithm::load(vec![Atomic::new(
        "k".to_string(),
        true,
        OperationType::MultiplicationConst,
        vec!["x".to_string()],
        Some(2.0f64.to_bits()),
    )])
    .unwrap()
}

#[test]
fn a_two_company_benchmark_attaches_statistics() {
    let alg = doubling_algorithm();
    let companies = vec![(1u128, company_with_x(5.0)), (2u128, company_with_x(10.0))];
    let finals = run_benchmark(&alg, &companies, &kernel).unwrap();
    assert_eq!(finals.len(), 2);
    assert_eq!(finals[0].0, 1);
    assert_eq!(finals[1].0, 2);

    let first = &finals[0].1;
    let var = &first.vars()[0];
    assert_eq!(var.name(), "k");
    assert_eq!(floats(var.result()), vec![10.0]);
    assert_eq!(floats(var.worst_in_class()), vec![10.0]);
    assert_eq!(floats(var.best_in_class()), vec![20.0]);
    assert_eq!(floats(var.median()), vec![15.0]);
    assert_eq!(floats(var.average()), vec![15.0]);
    assert_eq!(floats(var.lower_quantile()), vec![10.0]);
    assert_eq!(floats(var.upper_quantile()), vec![20.0]);

    let second = &finals[1].1;
    let var2 = &second.vars()[0];
    assert_eq!(floats(var2.result()), vec![20.0]);
    assert_eq!(floats(var2.median()), vec![15.0]);
}

#[test]
fn a_failing_company_fails_the_whole_benchmark() {
    let alg = Algorithm::load(vec![Atomic::new(
        "k".to_string(),
        true,
        OperationType::Division,
        vec!["x".to_string(), "x".to_string()],
        None,
    )])
    .unwrap();
    let companies = vec![(1u128, company_with_x(5.0)), (2u128, company_with_x(0.0))];
    assert!(matches!(
        run_benchmark(&alg, &companies, &kernel),
        Err(BenchmarkingError::DivisionByZero(_))
    ));
}

#[test]
fn a_company_without_inputs_fails_the_whole_benchmark() {
    let alg = doubling_algorithm();
    let companies = vec![(1u128, company_with_x(5.0)), (2u128, Company::new())];
    assert!(matches!(
        run_benchmark(&alg, &companies, &kernel),
        Err(BenchmarkingError::MissingInputs(_))
    ));
}

#[test]
fn clustering_collects_rows_in_company_order() {
    let alg = doubling_algorithm();
    let companies = vec![(7u128, company_with_x(1.0)), (8u128, company_with_x(2.0))];
    let outs = stage_compute(&alg, &companies, &kernel).unwrap();
    assert_eq!(outs.len(), 2);
    assert_eq!(outs[0].0, 7);
    let clustered = stage_cluster(&alg, &outs).unwrap();
    assert_eq!(clustered.len(), 1);
    assert_eq!(clustered[0].0, "k");
    assert_eq!(clustered[0].1.len(), 2);
    assert_eq!(floats(&clustered[0].1[0]), vec![2.0]);
    assert_eq!(floats(&clustered[0].1[1]), vec![4.0]);
}

#[test]
fn an_empty_company_list_yields_no_outputs() {
    let alg = doubling_algorithm();
    let companies: Vec<(u128, Company)> = Vec::new();
    let finals = run_benchmark(&alg, &companies, &kernel).unwrap();
    assert_eq!(finals.len(), 0);
}

#[test]
fn a_ragged_population_with_an_infinity_downgrades_to_empty() {
    let alg = doubling_algorithm();
    let clustered = vec![(
        "k".to_string(),
        vec![
            vec![f64::INFINITY.to_bits()],
            vec![1.0f64.to_bits(), 2.0f64.to_bits()],
        ],
    )];
    let stats = stage_aggregate(&alg, clustered, &kernel).unwrap();
    assert_eq!(stats.len(), 1);
    assert_eq!(stats[0].0, "k");
    assert_eq!(stats[0].1.best_in_class().len(), 0);
    assert_eq!(stats[0].1.worst_in_class().len(), 0);
    assert_eq!(stats[0].1.average().len(), 0);
}

#[test]
fn a_ragged_population_without_an_infinity_is_a_dimension_error() {
    let alg = doubling_algorithm();
    let clustered = vec![(
        "k".to_string(),
        vec![vec![1.0f64.to_bits()], vec![1.0f64.to_bits(), 2.0f64.to_bits()]],
    )];
    match stage_aggregate(&alg, clustered, &kernel) {
        Err(BenchmarkingError::DimensionMismatch(name)) => assert_eq!(name, "k"),
        other => panic!("expected a dimension error, got {:?}", other),
    }
}
