use teebench::algorithm::Algorithm;
use teebench::atomic::Atomic;
use teebench::entity::Company;
use teebench::error::BenchmarkingError;
use teebench::input::{Input, InputVariable};
use teebench::operation::{OperationType, Prim};

fn kernel(p: Prim, a: u64, b: u64) -> u64 {
    let x = f64::from_bits(a);
    let y = f64::from_bits(b);
    let r = match p {
        Prim::Add => x + y,
        Prim::Sub => x - y,
        Prim::Mul => x * y,
        Prim::Div => x / y,
        Prim::Pow => x.powf(y),
        Prim::Sqrt => x.sqrt(),
        Prim::Abs => x.abs(),
        Prim::OfUint => return (a as f64).to_bits(),
    };
    r.to_bits()
}

fn bits(x: f64) -> u64 {
    x.to_bits()
}

fn vals(xs: &[f64]) -> Vec<u64> {
    xs.iter().map(|x| x.to_bits()).collect()
}

fn floats(bs: &Vec<u64>) -> Vec<f64> {
    bs.iter().map(|b| f64::from_bits(*b)).collect()
}

fn company_with(vars: Vec<InputVariable>) -> Company {
    let mut c = Company::new();
    c.set_input_data(Input::from_vars(vars));
    c
}

#[test]
fn addition_const_broadcasts_over_the_input() {
    let atoms = vec![Atomic::new(
        "k".to_string(),
        true,
        OperationType::AdditionConst,
        vec!["x".to_string()],
        Some(bits(5.0)),
    )];
    let alg = Algorithm::load(atoms).unwrap();
    let company = company_with(vec![InputVariable::new(
        "x".to_string(),
        vals(&[1.0, 2.0, 3.0]),
    )]);
    let out = alg.run(&company, &kernel).unwrap();
    let r = out.get_result_from_var("k").unwrap();
    assert_eq!(floats(r), vec![6.0, 7.0, 8.0]);
}

#[test]
fn division_by_zero_names_the_atomic() {
    let atoms = vec![Atomic::new(
        "y".to_string(),
        true,
        OperationType::Division,
        vec!["n".to_string(), "d".to_string()],
        None,
    )];
    let alg = Algorithm::load(atoms).unwrap();
    let company = company_with(vec![
        InputVariable::new("n".to_string(), vals(&[1.0])),
        InputVariable::new("d".to_string(), vals(&[0.0])),
    ]);
    match alg.run(&company, &kernel) {
        Err(BenchmarkingError::DivisionByZero(name)) => assert_eq!(name, "y"),
        other => panic!("expected a zero-division error, got {:?}", other),
    }
}

#[test]
fn missing_inputs_are_listed() {
    let atoms = vec![Atomic::new(
        "k".to_string(),
        true,
        OperationType::Addition,
        vec!["a".to_string(), "b".to_string()],
        None,
    )];
    let alg = Algorithm::load(atoms).unwrap();
    let input = Input::from_vars(vec![InputVariable::new("a".to_string(), vals(&[1.0]))]);
    match alg.verify_input(input) {
        Err(BenchmarkingError::MissingInputs(names)) => assert_eq!(names, vec!["b".to_string()]),
        other => panic!("expected missing inputs, got {:?}", other),
    }
}

#[test]
fn output_contains_exactly_the_kpis() {
    let atoms = vec![
        Atomic::new(
            "mid".to_string(),
            false,
            OperationType::Addition,
            vec!["a".to_string(), "b".to_string()],
            None,
        ),
        Atomic::new(
            "k".to_string(),
            true,
            OperationType::MultiplicationConst,
            vec!["mid".to_string()],
            Some(bits(2.0)),
        ),
    ];
    let alg = Algorithm::load(atoms).unwrap();
    let company = company_with(vec![
        InputVariable::new("a".to_string(), vals(&[1.0, 10.0])),
        InputVariable::new("b".to_string(), vals(&[2.0, 20.0])),
    ]);
    let out = alg.run(&company, &kernel).unwrap();
    assert_eq!(out.size(), 1);
    assert!(out.get_result_from_var("mid").is_none());
    assert!(out.get_result_from_var("a").is_none());
    assert_eq!(
        floats(out.get_result_from_var("k").unwrap()),
        vec![6.0, 60.0]
    );
}

#[test]
fn chained_operations_compute_in_dependency_order() {
    // s = sqrt(|x|); t = s ^ 2; k = sum of t's components
    let atoms = vec![
        Atomic::new(
            "k".to_string(),
            true,
            OperationType::AdditionOverN,
            vec!["t".to_string()],
            None,
        ),
        Atomic::new(
            "t".to_string(),
            false,
            OperationType::PowerConst,
            vec!["s".to_string()],
            Some(bits(2.0)),
        ),
        Atomic::new(
            "s".to_string(),
            false,
            OperationType::Squareroot,
            vec!["absx".to_string()],
            None,
        ),
        Atomic::new(
            "absx".to_string(),
            false,
            OperationType::Absolute,
            vec!["x".to_string()],
            None,
        ),
    ];
    let alg = Algorithm::load(atoms).unwrap();
    let company = company_with(vec![InputVariable::new(
        "x".to_string(),
        vals(&[-4.0, 9.0]),
    )]);
    let out = alg.run(&company, &kernel).unwrap();
    assert_eq!(floats(out.get_result_from_var("k").unwrap()), vec![13.0]);
}

#[test]
fn minima_maxima_and_reductions() {
    let atoms = vec![
        Atomic::new(
            "lo".to_string(),
            true,
            OperationType::Minima,
            vec!["x".to_string(), "y".to_string()],
            None,
        ),
        Atomic::new(
            "hi".to_string(),
            true,
            OperationType::Maxima,
            vec!["x".to_string(), "y".to_string()],
            None,
        ),
        Atomic::new(
            "xmin".to_string(),
            true,
            OperationType::MinimaOverN,
            vec!["x".to_string()],
            None,
        ),
        Atomic::new(
            "xmax".to_string(),
            true,
            OperationType::MaximaOverN,
            vec!["x".to_string()],
            None,
        ),
    ];
    let alg = Algorithm::load(atoms).unwrap();
    let company = company_with(vec![
        InputVariable::new("x".to_string(), vals(&[3.0, 1.0, 2.0])),
        InputVariable::new("y".to_string(), vals(&[3.0, 0.5, 9.0])),
    ]);
    let out = alg.run(&company, &kernel).unwrap();
    assert_eq!(
        floats(out.get_result_from_var("lo").unwrap()),
        vec![3.0, 0.5, 9.0]
    );
    assert_eq!(
        floats(out.get_result_from_var("hi").unwrap()),
        vec![3.0, 1.0, 2.0]
    );
    assert_eq!(floats(out.get_result_from_var("xmin").unwrap()), vec![1.0]);
    assert_eq!(floats(out.get_result_from_var("xmax").unwrap()), vec![3.0]);
}

#[test]
fn subtraction_variants_and_const_forms() {
    let atoms = vec![
        Atomic::new(
            "d".to_string(),
            true,
            OperationType::Subtraction,
            vec!["x".to_string(), "y".to_string(), "y".to_string()],
            None,
        ),
        Atomic::new(
            "cv".to_string(),
            true,
            OperationType::SubtractionConstVar,
            vec!["x".to_string()],
            Some(bits(10.0)),
        ),
        Atomic::new(
            "vc".to_string(),
            true,
            OperationType::SubtractionVarConst,
            vec!["x".to_string()],
            Some(bits(1.0)),
        ),
        Atomic::new(
            "dc".to_string(),
            true,
            OperationType::DivisionConstVar,
            vec!["x".to_string()],
            Some(bits(8.0)),
        ),
    ];
    let alg = Algorithm::load(atoms).unwrap();
    let company = company_with(vec![
        InputVariable::new("x".to_string(), vals(&[4.0, 2.0])),
        InputVariable::new("y".to_string(), vals(&[1.0, 0.5])),
    ]);
    let out = alg.run(&company, &kernel).unwrap();
    assert_eq!(floats(out.get_result_from_var("d").unwrap()), vec![2.0, 1.0]);
    assert_eq!(
        floats(out.get_result_from_var("cv").unwrap()),
        vec![6.0, 8.0]
    );
    assert_eq!(
        floats(out.get_result_from_var("vc").unwrap()),
        vec![3.0, 1.0]
    );
    assert_eq!(
        floats(out.get_result_from_var("dc").unwrap()),
        vec![2.0, 4.0]
    );
}

#[test]
fn unused_constant_is_a_contract_error() {
    let atoms = vec![Atomic::new(
        "k".to_string(),
        true,
        OperationType::Addition,
        vec!["x".to_string()],
        Some(bits(1.0)),
    )];
    let alg = Algorithm::load(atoms).unwrap();
    let company = company_with(vec![InputVariable::new("x".to_string(), vals(&[1.0]))]);
    match alg.run(&company, &kernel) {
        Err(BenchmarkingError::UnusedConstant(name)) => assert_eq!(name, "k"),
        other => panic!("expected an unused-constant error, got {:?}", other),
    }
}

#[test]
fn wrong_operand_count_is_a_contract_error() {
    let atoms = vec![Atomic::new(
        "k".to_string(),
        true,
        OperationType::Division,
        vec!["x".to_string()],
        None,
    )];
    let alg = Algorithm::load(atoms).unwrap();
    let company = company_with(vec![InputVariable::new("x".to_string(), vals(&[1.0]))]);
    match alg.run(&company, &kernel) {
        Err(BenchmarkingError::WrongOperandCount(name, _)) => assert_eq!(name, "k"),
        other => panic!("expected an operand-count error, got {:?}", other),
    }
}

#[test]
fn missing_constant_is_a_contract_error() {
    let atoms = vec![Atomic::new(
        "k".to_string(),
        true,
        OperationType::AdditionConst,
        vec!["x".to_string()],
        None,
    )];
    let alg = Algorithm::load(atoms).unwrap();
    let company = company_with(vec![InputVariable::new("x".to_string(), vals(&[1.0]))]);
    match alg.run(&company, &kernel) {
        Err(BenchmarkingError::MissingConstant(name)) => assert_eq!(name, "k"),
        other => panic!("expected a missing-constant error, got {:?}", other),
    }
}

#[test]
fn dimension_mismatch_is_a_contract_error() {
    let atoms = vec![Atomic::new(
        "k".to_string(),
        true,
        OperationType::Addition,
        vec!["x".to_string(), "y".to_string()],
        None,
    )];
    let alg = Algorithm::load(atoms).unwrap();
    let company = company_with(vec![
        InputVariable::new("x".to_string(), vals(&[1.0, 2.0])),
        InputVariable::new("y".to_string(), vals(&[1.0])),
    ]);
    match alg.run(&company, &kernel) {
        Err(BenchmarkingError::DimensionMismatch(name)) => assert_eq!(name, "k"),
        other => panic!("expected a dimension error, got {:?}", other),
    }
}

#[test]
fn zero_constant_divisor_is_rejected() {
    let atoms = vec![Atomic::new(
        "k".to_string(),
        true,
        OperationType::DivisionVarConst,
        vec!["x".to_string()],
        Some(bits(0.0)),
    )];
    let alg = Algorithm::load(atoms).unwrap();
    let company = company_with(vec![InputVariable::new("x".to_string(), vals(&[1.0]))]);
    assert!(matches!(
        alg.run(&company, &kernel),
        Err(BenchmarkingError::DivisionByZero(_))
    ));
}
