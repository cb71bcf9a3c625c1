use teebench::algorithm::Algorithm;
use teebench::atomic::Atomic;
use teebench::error::BenchmarkingError;
use teebench::operation::OperationType;

fn add_atom(name: &str, kpi: bool, deps: &[&str]) -> Atomic {
    Atomic::new(
        name.to_string(),
        kpi,
        OperationType::Addition,
        deps.iter().map(|d| d.to_string()).collect(),
        None,
    )
}

#[test]
fn cycles_are_rejected() {
    let atoms = vec![add_atom("a", false, &["b"]), add_atom("b", false, &["a"])];
    assert!(matches!(
        Algorithm::load(atoms),
        Err(BenchmarkingError::CyclicDependency(_))
    ));
}

#[test]
fn self_cycles_are_rejected() {
    let atoms = vec![add_atom("a", true, &["a"])];
    assert!(matches!(
        Algorithm::load(atoms),
        Err(BenchmarkingError::CyclicDependency(_))
    ));
}

#[test]
fn empty_lists_are_rejected() {
    assert!(matches!(
        Algorithm::load(Vec::new()),
        Err(BenchmarkingError::EmptyAlgorithm)
    ));
}

#[test]
fn duplicate_names_are_rejected() {
    let atoms = vec![add_atom("a", false, &["x"]), add_atom("a", true, &["y"])];
    match Algorithm::load(atoms) {
        Err(BenchmarkingError::DuplicateAtomic(name)) => assert_eq!(name, "a"),
        other => panic!("expected a duplicate error, got {:?}", other),
    }
}

#[test]
fn undeclared_dependencies_become_required_inputs() {
    let atoms = vec![add_atom("k", true, &["a", "b"])];
    let alg = Algorithm::load(atoms).unwrap();
    assert_eq!(alg.len(), 1);
    let kpis = alg.get_kpis();
    assert_eq!(kpis.len(), 1);
    assert_eq!(kpis[0].name(), "k");
    let non_kpis = alg.get_non_kpis();
    assert!(non_kpis.contains(&"a".to_string()));
    assert!(non_kpis.contains(&"b".to_string()));
    assert!(!non_kpis.contains(&"k".to_string()));
}

#[test]
fn execution_list_is_topologically_ordered() {
    let atoms = vec![
        add_atom("k", true, &["m", "x"]),
        add_atom("m", false, &["n"]),
        add_atom("n", false, &["x"]),
    ];
    let alg = Algorithm::load(atoms).unwrap();
    let ops = alg.operations();
    assert_eq!(ops.len(), 3);
    assert_eq!(ops[0].name(), "n");
    assert_eq!(ops[1].name(), "m");
    assert_eq!(ops[2].name(), "k");
}

#[test]
fn loading_twice_yields_equal_algorithms() {
    let make = || {
        vec![
            add_atom("k", true, &["m", "x"]),
            add_atom("m", false, &["y"]),
        ]
    };
    let a1 = Algorithm::load(make()).unwrap();
    let a2 = Algorithm::load(make()).unwrap();
    assert_eq!(a1.len(), a2.len());
    for i in 0..a1.len() {
        assert_eq!(a1.operations()[i].name(), a2.operations()[i].name());
        assert_eq!(a1.operations()[i].op(), a2.operations()[i].op());
        assert_eq!(a1.operations()[i].is_kpi(), a2.operations()[i].is_kpi());
        assert_eq!(a1.operations()[i].var_ids(), a2.operations()[i].var_ids());
        assert_eq!(a1.operations()[i].constant(), a2.operations()[i].constant());
    }
    assert_eq!(a1.get_kpis().len(), a2.get_kpis().len());
    assert_eq!(a1.get_non_kpis(), a2.get_non_kpis());
}

#[test]
fn kpis_keep_their_declared_order() {
    let atoms = vec![
        add_atom("k2", true, &["x"]),
        add_atom("mid", false, &["x"]),
        add_atom("k1", true, &["mid"]),
    ];
    let alg = Algorithm::load(atoms).unwrap();
    let kpis = alg.get_kpis();
    assert_eq!(kpis.len(), 2);
    assert_eq!(kpis[0].name(), "k2");
    assert_eq!(kpis[1].name(), "k1");
}

#[test]
fn required_placeholders_are_zero_additions() {
    let atom = Atomic::new_required("a".to_string());
    assert_eq!(atom.name(), "a");
    assert_eq!(atom.op(), OperationType::AdditionConst);
    assert!(!atom.is_kpi());
    assert_eq!(atom.var_ids().len(), 0);
    assert_eq!(*atom.constant(), Some(0.0f64.to_bits()));
}

#[test]
fn re_sorting_a_loaded_algorithm_succeeds() {
    let atoms = vec![
        add_atom("k", true, &["m", "x"]),
        add_atom("m", false, &["x"]),
    ];
    let alg = Algorithm::load(atoms).unwrap();
    let sorted = alg.topological_op_sort().unwrap();
    assert_eq!(sorted.len(), 2);
    assert_eq!(sorted[0].name(), "m");
    assert_eq!(sorted[1].name(), "k");
}
