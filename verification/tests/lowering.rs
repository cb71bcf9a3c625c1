use teebench::algorithm::Algorithm;
use teebench::atomic::Atomic;
use teebench::entity::Company;
use teebench::formula::{
    prune_ast, lower_formulas, BinaryExpression, Expression, Formula, Literal, NAryExpression,
    TokenType, UnaryExpression,
};
use teebench::input::{Input, InputVariable};
use teebench::operation::{OperationType, Prim};

fn var(name: &str) -> Expression {
    Expression::Literal(Literal::Variable(name.to_string()))
}

fn num(x: f64) -> Expression {
    Expression::Literal(Literal::NumericLiteral(x.to_bits()))
}

fn bin(op: TokenType, l: Expression, r: Expression) -> Expression {
    Expression::Binary(BinaryExpression {
        operator: op,
        left: Box::new(l),
        right: Box::new(r),
    })
}

#[test]
fn lowering_a_sum_with_a_scaled_variable() {
    // k = a + (b * 2)
    let root = bin(
        TokenType::OperatorAdd,
        var("a"),
        bin(TokenType::OperatorMultiply, var("b"), num(2.0)),
    );
    let mut out: Vec<Atomic> = Vec::new();
    let mut counter: u32 = 0;
    prune_ast(&root, &mut out, &mut counter, "k".to_string(), true);
    assert_eq!(out.len(), 3);

    assert_eq!(out[0].name(), "he0000");
    assert_eq!(out[0].op(), OperationType::DefConst);
    assert!(!out[0].is_kpi());
    assert_eq!(*out[0].constant(), Some(2.0f64.to_bits()));
    assert_eq!(out[0].var_ids().len(), 0);

    assert_eq!(out[1].name(), "he0001");
    assert_eq!(out[1].op(), OperationType::Multiplication);
    assert!(!out[1].is_kpi());
    assert_eq!(*out[1].var_ids(), vec!["b".to_string(), "he0000".to_string()]);

    assert_eq!(out[2].name(), "k");
    assert_eq!(out[2].op(), OperationType::Addition);
    assert!(out[2].is_kpi());
    assert_eq!(*out[2].var_ids(), vec!["a".to_string(), "he0001".to_string()]);
}

#[test]
fn lowering_twice_yields_identical_lists() {
    let make = || Formula {
        name: "k".to_string(),
        is_kpi: true,
        root: bin(
            TokenType::OperatorSubtract,
            bin(TokenType::OperatorDivide, var("a"), num(4.0)),
            var("c"),
        ),
    };
    let l1 = lower_formulas(&vec![make()]);
    let l2 = lower_formulas(&vec![make()]);
    assert_eq!(l1.len(), l2.len());
    for i in 0..l1.len() {
        assert_eq!(l1[i].name(), l2[i].name());
        assert_eq!(l1[i].op(), l2[i].op());
        assert_eq!(l1[i].is_kpi(), l2[i].is_kpi());
        assert_eq!(l1[i].var_ids(), l2[i].var_ids());
        assert_eq!(l1[i].constant(), l2[i].constant());
    }
}

#[test]
fn a_numeric_root_becomes_a_constant_definition() {
    let mut out: Vec<Atomic> = Vec::new();
    let mut counter: u32 = 0;
    prune_ast(&num(3.5), &mut out, &mut counter, "k".to_string(), true);
    assert_eq!(out.len(), 1);
    assert_eq!(out[0].name(), "k");
    assert_eq!(out[0].op(), OperationType::DefConst);
    assert!(out[0].is_kpi());
    assert_eq!(*out[0].constant(), Some(3.5f64.to_bits()));
}

#[test]
fn a_variable_root_becomes_an_identity_multiplication() {
    let mut out: Vec<Atomic> = Vec::new();
    let mut counter: u32 = 0;
    prune_ast(&var("v"), &mut out, &mut counter, "k".to_string(), true);
    assert_eq!(out.len(), 1);
    assert_eq!(out[0].name(), "k");
    assert_eq!(out[0].op(), OperationType::MultiplicationConst);
    assert!(out[0].is_kpi());
    assert_eq!(*out[0].var_ids(), vec!["v".to_string()]);
    assert_eq!(*out[0].constant(), Some(1.0f64.to_bits()));
}

#[test]
fn nary_and_unary_subtrees_lower_in_source_order() {
    // k = min(sqrt(x), y, 7)
    let root = Expression::NAryExpression(NAryExpression {
        operator: TokenType::KeywordMin,
        operands: vec![
            Expression::UnaryExpression(UnaryExpression {
                operator: TokenType::KeywordWurzel,
                argument: Box::new(var("x")),
            }),
            var("y"),
            num(7.0),
        ],
    });
    let mut out: Vec<Atomic> = Vec::new();
    let mut counter: u32 = 0;
    prune_ast(&root, &mut out, &mut counter, "k".to_string(), true);
    assert_eq!(out.len(), 3);
    assert_eq!(out[0].name(), "he0000");
    assert_eq!(out[0].op(), OperationType::Squareroot);
    assert_eq!(*out[0].var_ids(), vec!["x".to_string()]);
    assert_eq!(out[1].name(), "he0001");
    assert_eq!(out[1].op(), OperationType::DefConst);
    assert_eq!(out[2].name(), "k");
    assert_eq!(out[2].op(), OperationType::Minima);
    assert!(out[2].is_kpi());
    assert_eq!(
        *out[2].var_ids(),
        vec!["he0000".to_string(), "y".to_string(), "he0001".to_string()]
    );
}

#[test]
fn a_lowered_formula_loads_and_runs() {
    let root = bin(
        TokenType::OperatorAdd,
        var("a"),
        bin(TokenType::OperatorMultiply, var("b"), num(2.0)),
    );
    let atoms = lower_formulas(&vec![Formula {
        name: "k".to_string(),
        is_kpi: true,
        root,
    }]);
    let alg = Algorithm::load(atoms).unwrap();

    let kernel = |p: Prim, a: u64, b: u64| -> u64 {
        let x = f64::from_bits(a);
        let y = f64::from_bits(b);
        let r = match p {
            Prim::Add => x + y,
            Prim::Sub => x - y,
            Prim::Mul => x * y,
            Prim::Div => x / y,
            Prim::Pow => x.powf(y),
            Prim::Sqrt => x.sqrt(),
            Prim::Abs => x.abs(),
            Prim::OfUint => return (a as f64).to_bits(),
        };
        r.to_bits()
    };
    let mut company = Company::new();
    company.set_input_data(Input::from_vars(vec![
        InputVariable::new("a".to_string(), vec![1.0f64.to_bits()]),
        InputVariable::new("b".to_string(), vec![10.0f64.to_bits()]),
    ]));
    let out = alg.run(&company, &kernel).unwrap();
    let r = out.get_result_from_var("k").unwrap();
    assert_eq!(
        r.iter().map(|b| f64::from_bits(*b)).collect::<Vec<f64>>(),
        vec![21.0]
    );
}
