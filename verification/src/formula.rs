//! Formula lowering: rewriting an expression-tree formula into a
//! flat list of named atomic operations.
//!
//! A fresh monotonically increasing counter generates intermediate
//! names `he0000`, `he0001`, ... (zero-padded to width four).  The
//! rewrite is a post-order traversal: the atomics of a subtree are
//! emitted before the atomic that consumes them, children listed in
//! source order.  The KPI flag is carried only on the atomic that
//! represents the root of a formula; every synthesised intermediary
//! is not a KPI.

use crate::atomic::Atomic;
use crate::bits::ONE_BITS;
use crate::operation::OperationType;
use crate::strutil::{is_digit_char, lemma_decimal_injective, lemma_decimal_shape, spec_decimal, spec_digit_char, u128_to_string};
use vstd::prelude::*;

verus! {

/// The tokens of the intermediate formula format.
#[derive(Debug, Clone, PartialEq, Eq, Copy, Structural)]
pub enum TokenType {
    NumberLiteral,
    Identifier,
    IgnoreToken,
    OperatorAdd,
    OperatorSubtract,
    OperatorDivide,
    OperatorMultiply,
    OperatorPower,
    Semicolon,
    Comma,
    Hash,
    OpenParen,
    CloseParen,
    OpenAngle,
    CloseAngle,
    OpenBracket,
    CloseBracket,
    OpenCurly,
    CloseCurly,
    AbsLine,
    KeywordWurzel,
    KeywordMin,
    KeywordMax,
    Unrecognized(char),
}

/// A leaf of an expression: a numeric constant (as a double bit
/// pattern) or a named variable reference.
#[derive(Debug)]
pub enum Literal {
    NumericLiteral(u64),
    Variable(String),
}

/// A unary operator applied to a subtree.
#[derive(Debug)]
pub struct UnaryExpression {
    pub operator: TokenType,
    pub argument: Box<Expression>,
}

/// A binary operator applied to two subtrees, in source order.
#[derive(Debug)]
pub struct BinaryExpression {
    pub operator: TokenType,
    pub left: Box<Expression>,
    pub right: Box<Expression>,
}

/// An n-ary operator applied to a list of subtrees, in source order.
#[derive(Debug)]
pub struct NAryExpression {
    pub operator: TokenType,
    pub operands: Vec<Expression>,
}

/// An expression tree of the intermediate formula format.
#[derive(Debug)]
pub enum Expression {
    UnaryExpression(UnaryExpression),
    Binary(BinaryExpression),
    NAryExpression(NAryExpression),
    Literal(Literal),
}

/// A named, KPI-flagged formula.
#[derive(Debug)]
pub struct Formula {
    pub name: String,
    pub is_kpi: bool,
    pub root: Expression,
}

/// The description of one atomic: name, KPI flag, operation,
/// dependency names, constant.
pub type AtomicV = (Seq<char>, bool, OperationType, Seq<Seq<char>>, Option<u64>);

/// The atomic agrees with its description.
pub open spec fn matches_atomic(a: Atomic, v: AtomicV) -> bool {
    &&& a.spec_name() == v.0
    &&& a.spec_is_kpi() == v.1
    &&& a.spec_op() == v.2
    &&& a.spec_deps() == v.3
    &&& a.spec_constant() == v.4
}

/// Pointwise agreement of a list of atomics with its description.
pub open spec fn matches_atomics(s: Seq<Atomic>, vs: Seq<AtomicV>) -> bool {
    &&& s.len() == vs.len()
    &&& forall|i: int| 0 <= i < s.len() ==> matches_atomic(#[trigger] s[i], vs[i])
}

/// The operator tokens the lowering accepts.
pub open spec fn is_op_token(t: TokenType) -> bool {
    t == TokenType::OperatorAdd || t == TokenType::OperatorSubtract || t
        == TokenType::OperatorDivide || t == TokenType::OperatorMultiply || t
        == TokenType::OperatorPower || t == TokenType::AbsLine || t == TokenType::KeywordWurzel
        || t == TokenType::KeywordMin || t == TokenType::KeywordMax
}

/// Operator token to flat atomic operation.
pub open spec fn spec_token_to_op(t: TokenType) -> OperationType {
    match t {
        TokenType::OperatorAdd => OperationType::Addition,
        TokenType::OperatorSubtract => OperationType::Subtraction,
        TokenType::OperatorDivide => OperationType::Division,
        TokenType::OperatorMultiply => OperationType::Multiplication,
        TokenType::OperatorPower => OperationType::Power,
        TokenType::AbsLine => OperationType::Absolute,
        TokenType::KeywordWurzel => OperationType::Squareroot,
        TokenType::KeywordMin => OperationType::Minima,
        TokenType::KeywordMax => OperationType::Maxima,
        _ => OperationType::Addition,
    }
}

/// Every operator token in the tree is one the lowering accepts.
pub open spec fn expr_wf(e: Expression) -> bool
    decreases e,
{
    match e {
        Expression::Literal(_) => true,
        Expression::UnaryExpression(u) => is_op_token(u.operator) && expr_wf(*u.argument),
        Expression::Binary(b) => is_op_token(b.operator) && expr_wf(*b.left) && expr_wf(*b.right),
        Expression::NAryExpression(na) => is_op_token(na.operator) && (forall|i: int|
            0 <= i < na.operands@.len() ==> expr_wf(#[trigger] na.operands@[i])),
    }
}

/// An upper bound on the fresh names a subtree can consume.
pub open spec fn expr_size(e: Expression) -> nat
    decreases e,
{
    match e {
        Expression::Literal(_) => 1,
        Expression::UnaryExpression(u) => 1 + expr_size(*u.argument),
        Expression::Binary(b) => 1 + expr_size(*b.left) + expr_size(*b.right),
        Expression::NAryExpression(na) => 1 + exprs_size(na.operands@, 0),
    }
}

/// The summed bound over a list of subtrees from index `i` on.
pub open spec fn exprs_size(es: Seq<Expression>, i: int) -> nat
    decreases es, es.len() - i,
{
    if i < 0 || i >= es.len() {
        0
    } else {
        expr_size(es[i]) + exprs_size(es, i + 1)
    }
}

/// The zero-padded decimal of a counter value, width at least four.
pub open spec fn pad4(c: nat) -> Seq<char> {
    if c < 10 {
        seq![spec_digit_char(0), spec_digit_char(0), spec_digit_char(0)] + spec_decimal(c as int)
    } else if c < 100 {
        seq![spec_digit_char(0), spec_digit_char(0)] + spec_decimal(c as int)
    } else if c < 1000 {
        seq![spec_digit_char(0)] + spec_decimal(c as int)
    } else {
        spec_decimal(c as int)
    }
}

/// The generated intermediate name for a counter value.
pub open spec fn helper_name_seq(c: nat) -> Seq<char> {
    seq!['h', 'e'] + pad4(c)
}

/// Lowers a subtree and yields the emitted atomics, the next counter
/// value, and the name by which the subtree's value is referenced.
pub open spec fn lower_sub_spec(e: Expression, c: nat) -> (Seq<AtomicV>, nat, Seq<char>)
    decreases e, 0int,
{
    match e {
        Expression::Literal(Literal::Variable(name)) => (Seq::empty(), c, name@),
        Expression::Literal(Literal::NumericLiteral(k)) => (
            seq![
                (
                    helper_name_seq(c),
                    false,
                    OperationType::DefConst,
                    Seq::<Seq<char>>::empty(),
                    Some(k),
                ),
            ],
            c + 1,
            helper_name_seq(c),
        ),
        Expression::UnaryExpression(u) => {
            let (l, c1, child) = lower_sub_spec(*u.argument, c);
            (
                l.push(
                    (
                        helper_name_seq(c1),
                        false,
                        spec_token_to_op(u.operator),
                        seq![child],
                        None,
                    ),
                ),
                c1 + 1,
                helper_name_seq(c1),
            )
        },
        Expression::Binary(b) => {
            let (l1, c1, n1) = lower_sub_spec(*b.left, c);
            let (l2, c2, n2) = lower_sub_spec(*b.right, c1);
            (
                (l1 + l2).push(
                    (helper_name_seq(c2), false, spec_token_to_op(b.operator), seq![n1, n2], None),
                ),
                c2 + 1,
                helper_name_seq(c2),
            )
        },
        Expression::NAryExpression(na) => {
            let (l, c1, childs) = lower_list_spec(na.operands@, 0, c);
            (
                l.push(
                    (helper_name_seq(c1), false, spec_token_to_op(na.operator), childs, None),
                ),
                c1 + 1,
                helper_name_seq(c1),
            )
        },
    }
}

/// Lowers the subtrees from index `i` on, collecting their reference
/// names in source order.
pub open spec fn lower_list_spec(es: Seq<Expression>, i: int, c: nat) -> (
    Seq<AtomicV>,
    nat,
    Seq<Seq<char>>,
)
    decreases es, es.len() - i,
{
    if i < 0 || i >= es.len() {
        (Seq::empty(), c, Seq::empty())
    } else {
        let (l1, c1, n1) = lower_sub_spec(es[i], c);
        let (l2, c2, ns) = lower_list_spec(es, i + 1, c1);
        (l1 + l2, c2, seq![n1] + ns)
    }
}

/// Lowers one formula: its root is represented by an atomic carrying
/// the formula's name and KPI flag; a bare literal becomes a constant
/// definition or an identity multiplication.
pub open spec fn lower_root_spec(e: Expression, c: nat, parent: Seq<char>, is_kpi: bool) -> (
    Seq<AtomicV>,
    nat,
)
    decreases e,
{
    match e {
        Expression::Literal(Literal::NumericLiteral(k)) => (
            seq![(parent, is_kpi, OperationType::DefConst, Seq::<Seq<char>>::empty(), Some(k))],
            c,
        ),
        Expression::Literal(Literal::Variable(v)) => (
            seq![
                (parent, is_kpi, OperationType::MultiplicationConst, seq![v@], Some(ONE_BITS)),
            ],
            c,
        ),
        Expression::UnaryExpression(u) => {
            let (l, c1, child) = lower_sub_spec(*u.argument, c);
            (
                l.push((parent, is_kpi, spec_token_to_op(u.operator), seq![child], None)),
                c1,
            )
        },
        Expression::Binary(b) => {
            let (l1, c1, n1) = lower_sub_spec(*b.left, c);
            let (l2, c2, n2) = lower_sub_spec(*b.right, c1);
            (
                (l1 + l2).push((parent, is_kpi, spec_token_to_op(b.operator), seq![n1, n2], None)),
                c2,
            )
        },
        Expression::NAryExpression(na) => {
            let (l, c1, childs) = lower_list_spec(na.operands@, 0, c);
            (l.push((parent, is_kpi, spec_token_to_op(na.operator), childs, None)), c1)
        },
    }
}

/// Lowers a list of formulas with one shared counter.
pub open spec fn lower_formulas_spec(fs: Seq<Formula>, i: int, c: nat) -> (Seq<AtomicV>, nat)
    decreases fs, fs.len() - i,
{
    if i < 0 || i >= fs.len() {
        (Seq::empty(), c)
    } else {
        let (l1, c1) = lower_root_spec(fs[i].root, c, fs[i].name@, fs[i].is_kpi);
        let (l2, c2) = lower_formulas_spec(fs, i + 1, c1);
        (l1 + l2, c2)
    }
}

/// The counter grows by at most the size bound of the subtree.
pub proof fn lemma_lower_counter_bound(e: Expression, c: nat)
    ensures
        c <= lower_sub_spec(e, c).1 <= c + expr_size(e),
    decreases e, 0int,
{
    match e {
        Expression::Literal(_) => {},
        Expression::UnaryExpression(u) => {
            lemma_lower_counter_bound(*u.argument, c);
        },
        Expression::Binary(b) => {
            lemma_lower_counter_bound(*b.left, c);
            lemma_lower_counter_bound(*b.right, lower_sub_spec(*b.left, c).1);
        },
        Expression::NAryExpression(na) => {
            lemma_lower_list_counter_bound(na.operands@, 0, c);
        },
    }
}

/// The counter grows by at most the summed size bound of the list.
pub proof fn lemma_lower_list_counter_bound(es: Seq<Expression>, i: int, c: nat)
    ensures
        c <= lower_list_spec(es, i, c).1 <= c + exprs_size(es, i),
    decreases es, es.len() - i,
{
    if 0 <= i < es.len() {
        lemma_lower_counter_bound(es[i], c);
        lemma_lower_list_counter_bound(es, i + 1, lower_sub_spec(es[i], c).1);
    }
}

/// Peeling the last processed subtree off a prefix lowering.
proof fn lemma_lower_list_snoc(es: Seq<Expression>, i: int, d: int, c: nat)
    requires
        0 <= i <= d < es.len(),
    ensures
        ({
            let (lp, cp, np) = lower_list_spec(es.take(d), i, c);
            let (l1, c1, n1) = lower_sub_spec(es[d], cp);
            lower_list_spec(es.take(d + 1), i, c) == (lp + l1, c1, np + seq![n1])
        }),
    decreases d - i,
{
    let td = es.take(d);
    let td1 = es.take(d + 1);
    if i == d {
        assert(lower_list_spec(td, i, c) == (
            Seq::<AtomicV>::empty(),
            c,
            Seq::<Seq<char>>::empty(),
        ));
        assert(td1[i] == es[d]);
        let (l1, c1, n1) = lower_sub_spec(es[d], c);
        assert(lower_list_spec(td1, i + 1, c1) == (
            Seq::<AtomicV>::empty(),
            c1,
            Seq::<Seq<char>>::empty(),
        ));
        assert(lower_list_spec(td1, i, c).0 =~= Seq::<AtomicV>::empty() + l1);
        assert(lower_list_spec(td1, i, c).2 =~= Seq::<Seq<char>>::empty() + seq![n1]);
    } else {
        assert(td[i] == es[i]);
        assert(td1[i] == es[i]);
        let (la, ca, na) = lower_sub_spec(es[i], c);
        lemma_lower_list_snoc(es, i + 1, d, ca);
        let (lp, cp, np) = lower_list_spec(td, i + 1, ca);
        let (l1, c1, n1) = lower_sub_spec(es[d], cp);
        assert(lower_list_spec(td1, i, c).0 =~= (la + lp) + l1) by {
            assert(lower_list_spec(td1, i + 1, ca).0 == lp + l1);
            assert(la + (lp + l1) =~= (la + lp) + l1);
        }
        assert(lower_list_spec(td, i, c).0 == la + lp);
        assert(lower_list_spec(td1, i, c).1 == c1);
        assert(lower_list_spec(td1, i, c).2 =~= (seq![na] + np) + seq![n1]) by {
            assert(lower_list_spec(td1, i + 1, ca).2 == np + seq![n1]);
            assert(seq![na] + (np + seq![n1]) =~= (seq![na] + np) + seq![n1]);
        }
        assert(lower_list_spec(td, i, c).2 == seq![na] + np);
    }
}

/// Maps an operator token to the operation that performs it.
fn token_to_op(t: &TokenType) -> (r: OperationType)
    requires
        is_op_token(*t),
    ensures
        r == spec_token_to_op(*t),
{
    match t {
        TokenType::OperatorAdd => OperationType::Addition,
        TokenType::OperatorSubtract => OperationType::Subtraction,
        TokenType::OperatorDivide => OperationType::Division,
        TokenType::OperatorMultiply => OperationType::Multiplication,
        TokenType::OperatorPower => OperationType::Power,
        TokenType::AbsLine => OperationType::Absolute,
        TokenType::KeywordWurzel => OperationType::Squareroot,
        TokenType::KeywordMin => OperationType::Minima,
        TokenType::KeywordMax => OperationType::Maxima,
        _ => OperationType::Addition,
    }
}

/// Renders the generated intermediate name for a counter value.
fn helper_name(c: u32) -> (r: String)
    ensures
        r@ == helper_name_seq(c as nat),
{
    proof {
        reveal_strlit("he");
        reveal_strlit("he000");
        reveal_strlit("he00");
        reveal_strlit("he0");
    }
    let mut s = if c < 10 {
        String::from_str("he000")
    } else if c < 100 {
        String::from_str("he00")
    } else if c < 1000 {
        String::from_str("he0")
    } else {
        String::from_str("he")
    };
    let digits = u128_to_string(c as u128);
    s.append(digits.as_str());
    proof {
        assert(s@ =~= helper_name_seq(c as nat));
    }
    s
}

/// Lowers a subtree into the list, returning the name by which its
/// value is referenced.
#[verifier::loop_isolation(false)]
fn lower_sub(e: &Expression, op_list: &mut Vec<Atomic>, helper_counter: &mut u32) -> (r: String)
    requires
        expr_wf(*e),
        *old(helper_counter) + expr_size(*e) <= u32::MAX,
    ensures
        ({
            let (l, c1, name) = lower_sub_spec(*e, *old(helper_counter) as nat);
            &&& final(op_list)@.len() == old(op_list)@.len() + l.len()
            &&& forall|j: int|
                0 <= j < old(op_list)@.len() ==> #[trigger] final(op_list)@[j] == old(op_list)@[j]
            &&& matches_atomics(final(op_list)@.skip(old(op_list)@.len() as int), l)
            &&& *final(helper_counter) == c1
            &&& r@ == name
        }),
    decreases *e, 0int,
{
    let ghost c0 = *helper_counter as nat;
    let ghost before = op_list@;
    proof {
        lemma_lower_counter_bound(*e, c0);
    }
    match e {
        Expression::Literal(Literal::Variable(name)) => {
            proof {
                assert(op_list@.skip(before.len() as int) =~= Seq::<Atomic>::empty());
            }
            name.clone()
        },
        Expression::Literal(Literal::NumericLiteral(k)) => {
            let atom_name = helper_name(*helper_counter);
            *helper_counter = *helper_counter + 1;
            let atom = Atomic::new(
                atom_name.clone(),
                false,
                OperationType::DefConst,
                Vec::new(),
                Some(*k),
            );
            op_list.push(atom);
            proof {
                let l = lower_sub_spec(*e, c0).0;
                assert(op_list@.skip(before.len() as int) =~= seq![op_list@[op_list@.len() - 1]]);
                assert(op_list@[op_list@.len() - 1].spec_deps() =~= Seq::<Seq<char>>::empty());
                assert(matches_atomic(op_list@[op_list@.len() - 1], l[0]));
            }
            atom_name
        },
        Expression::UnaryExpression(u) => {
            proof {
                lemma_lower_counter_bound(*u.argument, c0);
            }
            let child = lower_sub(&*u.argument, op_list, helper_counter);
            let atom_name = helper_name(*helper_counter);
            *helper_counter = *helper_counter + 1;
            let mut deps: Vec<String> = Vec::new();
            deps.push(child);
            let atom = Atomic::new(atom_name.clone(), false, token_to_op(&u.operator), deps, None);
            let ghost mid = op_list@;
            op_list.push(atom);
            proof {
                let (l, c1, name) = lower_sub_spec(*e, c0);
                let (la, ca, na) = lower_sub_spec(*u.argument, c0);
                assert(op_list@.skip(before.len() as int) =~= mid.skip(before.len() as int).push(
                    op_list@[op_list@.len() - 1],
                ));
                assert(op_list@[op_list@.len() - 1] == atom);
                assert(atom.spec_deps()[0] == (deps@[0])@);
                assert(op_list@[op_list@.len() - 1].spec_deps() =~= seq![na]);
                assert(matches_atomics(op_list@.skip(before.len() as int), l)) by {
                    assert forall|j: int| 0 <= j < l.len() implies matches_atomic(
                        #[trigger] op_list@.skip(before.len() as int)[j],
                        l[j],
                    ) by {
                        if j < la.len() {
                            assert(op_list@.skip(before.len() as int)[j] == mid.skip(
                                before.len() as int,
                            )[j]);
                            assert(l[j] == la[j]);
                        }
                    }
                }
            }
            atom_name
        },
        Expression::Binary(b) => {
            proof {
                lemma_lower_counter_bound(*b.left, c0);
                lemma_lower_counter_bound(*b.right, lower_sub_spec(*b.left, c0).1);
            }
            let left = lower_sub(&*b.left, op_list, helper_counter);
            let ghost mid1 = op_list@;
            let right = lower_sub(&*b.right, op_list, helper_counter);
            let atom_name = helper_name(*helper_counter);
            *helper_counter = *helper_counter + 1;
            let mut deps: Vec<String> = Vec::new();
            deps.push(left);
            deps.push(right);
            let atom = Atomic::new(atom_name.clone(), false, token_to_op(&b.operator), deps, None);
            let ghost mid = op_list@;
            op_list.push(atom);
            proof {
                let (l, c1, name) = lower_sub_spec(*e, c0);
                let (l1, ca, n1) = lower_sub_spec(*b.left, c0);
                let (l2, cb, n2) = lower_sub_spec(*b.right, ca);
                assert(op_list@.skip(before.len() as int) =~= mid.skip(before.len() as int).push(
                    op_list@[op_list@.len() - 1],
                ));
                assert(op_list@[op_list@.len() - 1] == atom);
                assert(atom.spec_deps()[0] == (deps@[0])@);
                assert(atom.spec_deps()[1] == (deps@[1])@);
                assert(op_list@[op_list@.len() - 1].spec_deps() =~= seq![n1, n2]);
                assert(matches_atomics(op_list@.skip(before.len() as int), l)) by {
                    assert forall|j: int| 0 <= j < l.len() implies matches_atomic(
                        #[trigger] op_list@.skip(before.len() as int)[j],
                        l[j],
                    ) by {
                        if j < l1.len() {
                            assert(mid.skip(before.len() as int)[j] == mid[before.len() + j]);
                            assert(mid[before.len() + j] == mid1[before.len() + j]);
                            assert(mid1.skip(before.len() as int)[j] == mid1[before.len() + j]);
                            assert(matches_atomic(mid1.skip(before.len() as int)[j], l1[j]));
                            assert(l[j] == (l1 + l2).push(l.last())[j]);
                            assert((l1 + l2)[j] == l1[j]);
                        } else if j < l1.len() + l2.len() {
                            assert(mid.skip(before.len() as int)[j] == mid[before.len() + j]);
                            assert(mid.skip(mid1.len() as int)[j - l1.len()] == mid[mid1.len() + (
                            j - l1.len())]);
                            assert(matches_atomic(
                                mid.skip(mid1.len() as int)[j - l1.len()],
                                l2[j - l1.len()],
                            ));
                            assert((l1 + l2)[j] == l2[j - l1.len()]);
                        }
                    }
                }
            }
            atom_name
        },
        Expression::NAryExpression(na) => {
            let children_names = lower_operands(&na.operands, op_list, helper_counter);
            let ghost ll = lower_list_spec(na.operands@, 0, c0).0;
            let ghost ns = lower_list_spec(na.operands@, 0, c0).2;
            let atom_name = helper_name(*helper_counter);
            *helper_counter = *helper_counter + 1;
            let atom = Atomic::new(
                atom_name.clone(),
                false,
                token_to_op(&na.operator),
                children_names,
                None,
            );
            let ghost mid = op_list@;
            op_list.push(atom);
            proof {
                let (l, c1, name) = lower_sub_spec(*e, c0);
                assert(op_list@.skip(before.len() as int) =~= mid.skip(before.len() as int).push(
                    op_list@[op_list@.len() - 1],
                ));
                assert(op_list@[op_list@.len() - 1] == atom);
                assert forall|i2: int| 0 <= i2 < ns.len() implies atom.spec_deps()[i2] == ns[i2] by {
                    assert(atom.spec_deps()[i2] == (children_names@[i2])@);
                }
                assert(op_list@[op_list@.len() - 1].spec_deps() =~= ns);
                assert(matches_atomics(op_list@.skip(before.len() as int), l)) by {
                    assert forall|j: int| 0 <= j < l.len() implies matches_atomic(
                        #[trigger] op_list@.skip(before.len() as int)[j],
                        l[j],
                    ) by {
                        if j < ll.len() {
                            assert(op_list@.skip(before.len() as int)[j] == mid.skip(
                                before.len() as int,
                            )[j]);
                            assert(l[j] == ll[j]);
                        }
                    }
                }
            }
            atom_name
        },
    }
}

/// Lowers a list of operand subtrees, returning the names by which
/// their values are referenced, in source order.
#[verifier::loop_isolation(false)]
fn lower_operands(
    operands: &Vec<Expression>,
    op_list: &mut Vec<Atomic>,
    helper_counter: &mut u32,
) -> (r: Vec<String>)
    requires
        forall|i: int| 0 <= i < operands@.len() ==> expr_wf(#[trigger] operands@[i]),
        *old(helper_counter) + exprs_size(operands@, 0) <= u32::MAX,
    ensures
        ({
            let (l, c1, ns) = lower_list_spec(operands@, 0, *old(helper_counter) as nat);
            &&& final(op_list)@.len() == old(op_list)@.len() + l.len()
            &&& forall|j: int|
                0 <= j < old(op_list)@.len() ==> #[trigger] final(op_list)@[j] == old(op_list)@[j]
            &&& matches_atomics(final(op_list)@.skip(old(op_list)@.len() as int), l)
            &&& *final(helper_counter) == c1
            &&& r@.len() == ns.len()
            &&& forall|j: int| 0 <= j < ns.len() ==> (#[trigger] r@[j])@ == ns[j]
        }),
    decreases operands@, 0int,
{
    let ghost c0 = *helper_counter as nat;
    let ghost before = op_list@;
    let mut children_names: Vec<String> = Vec::new();
    let mut d: usize = 0;
    let nlen = operands.len();
    proof {
        assert(operands@.take(0) =~= Seq::<Expression>::empty());
    }
    while d < nlen
        invariant
            d <= nlen,
            nlen == operands@.len(),
            forall|i: int| 0 <= i < operands@.len() ==> expr_wf(#[trigger] operands@[i]),
            *helper_counter as nat + exprs_size(operands@, d as int) <= u32::MAX,
            op_list@.len() >= before.len(),
            forall|j: int| 0 <= j < before.len() ==> #[trigger] op_list@[j] == before[j],
            ({
                let (lp, cp, np) = lower_list_spec(operands@.take(d as int), 0, c0);
                &&& op_list@.len() == before.len() + lp.len()
                &&& matches_atomics(op_list@.skip(before.len() as int), lp)
                &&& *helper_counter as nat == cp
                &&& children_names@.len() == np.len()
                &&& forall|j: int| 0 <= j < np.len() ==> (#[trigger] children_names@[j])@ == np[j]
            }),
        decreases nlen - d,
    {
        proof {
            lemma_lower_counter_bound(operands@[d as int], *helper_counter as nat);
            assert(exprs_size(operands@, d as int) == expr_size(operands@[d as int]) + exprs_size(
                operands@,
                d + 1,
            ));
        }
        let ghost mid0 = op_list@;
        let child = lower_sub(&operands[d], op_list, helper_counter);
        children_names.push(child);
        proof {
            lemma_lower_list_snoc(operands@, 0, d as int, c0);
            let (lp, cp, np) = lower_list_spec(operands@.take(d as int), 0, c0);
            let (l1, c1, n1) = lower_sub_spec(operands@[d as int], cp);
            assert(matches_atomics(op_list@.skip(before.len() as int), lp + l1)) by {
                assert forall|j: int| 0 <= j < lp.len() + l1.len() implies matches_atomic(
                    #[trigger] op_list@.skip(before.len() as int)[j],
                    (lp + l1)[j],
                ) by {
                    if j < lp.len() {
                        assert(op_list@.skip(before.len() as int)[j] == op_list@[before.len() + j]);
                        assert(op_list@[before.len() + j] == mid0[before.len() + j]);
                        assert(mid0.skip(before.len() as int)[j] == mid0[before.len() + j]);
                        assert((lp + l1)[j] == lp[j]);
                    } else {
                        assert(op_list@.skip(before.len() as int)[j] == op_list@[before.len() + j]);
                        assert(op_list@.skip(mid0.len() as int)[j - lp.len()] == op_list@[mid0.len()
                            + (j - lp.len())]);
                        assert(matches_atomic(
                            op_list@.skip(mid0.len() as int)[j - lp.len()],
                            l1[j - lp.len()],
                        ));
                        assert((lp + l1)[j] == l1[j - lp.len()]);
                    }
                }
            }
        }
        d += 1;
    }
    proof {
        assert(operands@.take(nlen as int) =~= operands@);
    }
    children_names
}


/// The counter grows by at most the size bound of the formula root.
pub proof fn lemma_lower_root_counter_bound(e: Expression, c: nat, parent: Seq<char>, k: bool)
    ensures
        c <= lower_root_spec(e, c, parent, k).1 <= c + expr_size(e),
{
    match e {
        Expression::Literal(_) => {},
        Expression::UnaryExpression(u) => {
            lemma_lower_counter_bound(*u.argument, c);
        },
        Expression::Binary(b) => {
            lemma_lower_counter_bound(*b.left, c);
            lemma_lower_counter_bound(*b.right, lower_sub_spec(*b.left, c).1);
        },
        Expression::NAryExpression(na) => {
            lemma_lower_list_counter_bound(na.operands@, 0, c);
        },
    }
}

/// Lowers one formula into the list: children first, then the atomic
/// that carries the formula's name and KPI flag.
#[verifier::loop_isolation(false)]
pub fn prune_ast(
    traverser: &Expression,
    op_list: &mut Vec<Atomic>,
    helper_counter: &mut u32,
    parent_name: String,
    is_kpi: bool,
)
    requires
        expr_wf(*traverser),
        *old(helper_counter) + expr_size(*traverser) <= u32::MAX,
    ensures
        ({
            let (l, c1) = lower_root_spec(
                *traverser,
                *old(helper_counter) as nat,
                parent_name@,
                is_kpi,
            );
            &&& final(op_list)@.len() == old(op_list)@.len() + l.len()
            &&& forall|j: int|
                0 <= j < old(op_list)@.len() ==> #[trigger] final(op_list)@[j] == old(op_list)@[j]
            &&& matches_atomics(final(op_list)@.skip(old(op_list)@.len() as int), l)
            &&& *final(helper_counter) == c1
        }),
{
    let ghost c0 = *helper_counter as nat;
    let ghost before = op_list@;
    match traverser {
        Expression::Literal(Literal::NumericLiteral(k)) => {
            let atom = Atomic::new(
                parent_name,
                is_kpi,
                OperationType::DefConst,
                Vec::new(),
                Some(*k),
            );
            op_list.push(atom);
            proof {
                let l = lower_root_spec(*traverser, c0, parent_name@, is_kpi).0;
                assert(op_list@.skip(before.len() as int) =~= seq![op_list@[op_list@.len() - 1]]);
                assert(op_list@[op_list@.len() - 1].spec_deps() =~= Seq::<Seq<char>>::empty());
                assert(matches_atomic(op_list@[op_list@.len() - 1], l[0]));
            }
        },
        Expression::Literal(Literal::Variable(v)) => {
            let mut deps: Vec<String> = Vec::new();
            deps.push(v.clone());
            let atom = Atomic::new(
                parent_name,
                is_kpi,
                OperationType::MultiplicationConst,
                deps,
                Some(ONE_BITS),
            );
            op_list.push(atom);
            proof {
                let l = lower_root_spec(*traverser, c0, parent_name@, is_kpi).0;
                assert(op_list@.skip(before.len() as int) =~= seq![op_list@[op_list@.len() - 1]]);
                assert(op_list@[op_list@.len() - 1] == atom);
                assert(atom.spec_deps()[0] == (deps@[0])@);
                assert(op_list@[op_list@.len() - 1].spec_deps() =~= seq![v@]);
                assert(matches_atomic(op_list@[op_list@.len() - 1], l[0]));
            }
        },
        Expression::UnaryExpression(u) => {
            let child = lower_sub(&*u.argument, op_list, helper_counter);
            let mut deps: Vec<String> = Vec::new();
            deps.push(child);
            let atom = Atomic::new(parent_name, is_kpi, token_to_op(&u.operator), deps, None);
            let ghost mid = op_list@;
            op_list.push(atom);
            proof {
                let (l, c1) = lower_root_spec(*traverser, c0, parent_name@, is_kpi);
                let (la, ca, na) = lower_sub_spec(*u.argument, c0);
                assert(op_list@.skip(before.len() as int) =~= mid.skip(before.len() as int).push(
                    op_list@[op_list@.len() - 1],
                ));
                assert(op_list@[op_list@.len() - 1] == atom);
                assert(atom.spec_deps()[0] == (deps@[0])@);
                assert(op_list@[op_list@.len() - 1].spec_deps() =~= seq![na]);
                assert(matches_atomics(op_list@.skip(before.len() as int), l)) by {
                    assert forall|j: int| 0 <= j < l.len() implies matches_atomic(
                        #[trigger] op_list@.skip(before.len() as int)[j],
                        l[j],
                    ) by {
                        if j < la.len() {
                            assert(op_list@.skip(before.len() as int)[j] == mid.skip(
                                before.len() as int,
                            )[j]);
                            assert(l[j] == la[j]);
                        }
                    }
                }
            }
        },
        Expression::Binary(b) => {
            proof {
                lemma_lower_counter_bound(*b.left, c0);
                lemma_lower_counter_bound(*b.right, lower_sub_spec(*b.left, c0).1);
            }
            let left = lower_sub(&*b.left, op_list, helper_counter);
            let ghost mid1 = op_list@;
            let right = lower_sub(&*b.right, op_list, helper_counter);
            let mut deps: Vec<String> = Vec::new();
            deps.push(left);
            deps.push(right);
            let atom = Atomic::new(parent_name, is_kpi, token_to_op(&b.operator), deps, None);
            let ghost mid = op_list@;
            op_list.push(atom);
            proof {
                let (l, c1) = lower_root_spec(*traverser, c0, parent_name@, is_kpi);
                let (l1, ca, n1) = lower_sub_spec(*b.left, c0);
                let (l2, cb, n2) = lower_sub_spec(*b.right, ca);
                assert(op_list@.skip(before.len() as int) =~= mid.skip(before.len() as int).push(
                    op_list@[op_list@.len() - 1],
                ));
                assert(op_list@[op_list@.len() - 1] == atom);
                assert(atom.spec_deps()[0] == (deps@[0])@);
                assert(atom.spec_deps()[1] == (deps@[1])@);
                assert(op_list@[op_list@.len() - 1].spec_deps() =~= seq![n1, n2]);
                assert(matches_atomics(op_list@.skip(before.len() as int), l)) by {
                    assert forall|j: int| 0 <= j < l.len() implies matches_atomic(
                        #[trigger] op_list@.skip(before.len() as int)[j],
                        l[j],
                    ) by {
                        if j < l1.len() {
                            assert(mid.skip(before.len() as int)[j] == mid[before.len() + j]);
                            assert(mid[before.len() + j] == mid1[before.len() + j]);
                            assert(mid1.skip(before.len() as int)[j] == mid1[before.len() + j]);
                            assert(matches_atomic(mid1.skip(before.len() as int)[j], l1[j]));
                            assert(l[j] == (l1 + l2).push(l.last())[j]);
                            assert((l1 + l2)[j] == l1[j]);
                        } else if j < l1.len() + l2.len() {
                            assert(mid.skip(before.len() as int)[j] == mid[before.len() + j]);
                            assert(mid.skip(mid1.len() as int)[j - l1.len()] == mid[mid1.len() + (j
                                - l1.len())]);
                            assert(matches_atomic(
                                mid.skip(mid1.len() as int)[j - l1.len()],
                                l2[j - l1.len()],
                            ));
                            assert((l1 + l2)[j] == l2[j - l1.len()]);
                        }
                    }
                }
            }
        },
        Expression::NAryExpression(na) => {
            let children_names = lower_operands(&na.operands, op_list, helper_counter);
            let ghost ll = lower_list_spec(na.operands@, 0, c0).0;
            let ghost ns = lower_list_spec(na.operands@, 0, c0).2;
            let atom = Atomic::new(
                parent_name,
                is_kpi,
                token_to_op(&na.operator),
                children_names,
                None,
            );
            let ghost mid = op_list@;
            op_list.push(atom);
            proof {
                let (l, c1) = lower_root_spec(*traverser, c0, parent_name@, is_kpi);
                assert(op_list@.skip(before.len() as int) =~= mid.skip(before.len() as int).push(
                    op_list@[op_list@.len() - 1],
                ));
                assert(op_list@[op_list@.len() - 1] == atom);
                assert forall|i2: int| 0 <= i2 < ns.len() implies atom.spec_deps()[i2] == ns[i2] by {
                    assert(atom.spec_deps()[i2] == (children_names@[i2])@);
                }
                assert(op_list@[op_list@.len() - 1].spec_deps() =~= ns);
                assert(matches_atomics(op_list@.skip(before.len() as int), l)) by {
                    assert forall|j: int| 0 <= j < l.len() implies matches_atomic(
                        #[trigger] op_list@.skip(before.len() as int)[j],
                        l[j],
                    ) by {
                        if j < ll.len() {
                            assert(op_list@.skip(before.len() as int)[j] == mid.skip(
                                before.len() as int,
                            )[j]);
                            assert(l[j] == ll[j]);
                        }
                    }
                }
            }
        },
    }
}

/// The summed size bound over a list of formulas from index `i` on.
pub open spec fn formulas_size(fs: Seq<Formula>, i: int) -> nat
    decreases fs, fs.len() - i,
{
    if i < 0 || i >= fs.len() {
        0
    } else {
        expr_size(fs[i].root) + formulas_size(fs, i + 1)
    }
}

/// Peeling the last processed formula off a prefix lowering.
proof fn lemma_lower_formulas_snoc(fs: Seq<Formula>, i: int, d: int, c: nat)
    requires
        0 <= i <= d < fs.len(),
    ensures
        ({
            let (lp, cp) = lower_formulas_spec(fs.take(d), i, c);
            let (l1, c1) = lower_root_spec(fs[d].root, cp, fs[d].name@, fs[d].is_kpi);
            lower_formulas_spec(fs.take(d + 1), i, c) == (lp + l1, c1)
        }),
    decreases d - i,
{
    let td = fs.take(d);
    let td1 = fs.take(d + 1);
    if i == d {
        assert(lower_formulas_spec(td, i, c) == (Seq::<AtomicV>::empty(), c));
        assert(td1[i] == fs[d]);
        let (l1, c1) = lower_root_spec(fs[d].root, c, fs[d].name@, fs[d].is_kpi);
        assert(lower_formulas_spec(td1, i + 1, c1) == (Seq::<AtomicV>::empty(), c1));
        assert(lower_formulas_spec(td1, i, c).0 =~= Seq::<AtomicV>::empty() + l1);
    } else {
        assert(td[i] == fs[i]);
        assert(td1[i] == fs[i]);
        let (la, ca) = lower_root_spec(fs[i].root, c, fs[i].name@, fs[i].is_kpi);
        lemma_lower_formulas_snoc(fs, i + 1, d, ca);
        let (lp, cp) = lower_formulas_spec(td, i + 1, ca);
        let (l1, c1) = lower_root_spec(fs[d].root, cp, fs[d].name@, fs[d].is_kpi);
        assert(lower_formulas_spec(td1, i, c).0 =~= (la + lp) + l1) by {
            assert(lower_formulas_spec(td1, i + 1, ca).0 == lp + l1);
            assert(la + (lp + l1) =~= (la + lp) + l1);
        }
        assert(lower_formulas_spec(td, i, c).0 == la + lp);
    }
}

/// Iterates over all formulas and makes them atomic, with one shared
/// counter starting at zero.
#[verifier::loop_isolation(false)]
pub fn lower_formulas(formulas: &Vec<Formula>) -> (r: Vec<Atomic>)
    requires
        forall|i: int| 0 <= i < formulas@.len() ==> expr_wf((#[trigger] formulas@[i]).root),
        formulas_size(formulas@, 0) <= u32::MAX,
    ensures
        matches_atomics(r@, lower_formulas_spec(formulas@, 0, 0).0),
{
    let mut out_op: Vec<Atomic> = Vec::new();
    let mut init_helper: u32 = 0;
    let mut d: usize = 0;
    let nlen = formulas.len();
    proof {
        assert(formulas@.take(0) =~= Seq::<Formula>::empty());
    }
    while d < nlen
        invariant
            d <= nlen,
            nlen == formulas@.len(),
            forall|i: int| 0 <= i < formulas@.len() ==> expr_wf((#[trigger] formulas@[i]).root),
            init_helper as nat + formulas_size(formulas@, d as int) <= u32::MAX,
            ({
                let (lp, cp) = lower_formulas_spec(formulas@.take(d as int), 0, 0);
                &&& matches_atomics(out_op@, lp)
                &&& init_helper as nat == cp
            }),
        decreases nlen - d,
    {
        proof {
            lemma_lower_root_counter_bound(
                formulas@[d as int].root,
                init_helper as nat,
                formulas@[d as int].name@,
                formulas@[d as int].is_kpi,
            );
            assert(formulas_size(formulas@, d as int) == expr_size(formulas@[d as int].root)
                + formulas_size(formulas@, d + 1));
        }
        let ghost mid0 = out_op@;
        prune_ast(
            &formulas[d].root,
            &mut out_op,
            &mut init_helper,
            formulas[d].name.clone(),
            formulas[d].is_kpi,
        );
        proof {
            lemma_lower_formulas_snoc(formulas@, 0, d as int, 0);
            let (lp, cp) = lower_formulas_spec(formulas@.take(d as int), 0, 0);
            let (l1, c1) = lower_root_spec(
                formulas@[d as int].root,
                cp,
                formulas@[d as int].name@,
                formulas@[d as int].is_kpi,
            );
            assert(matches_atomics(out_op@, lp + l1)) by {
                assert forall|j: int| 0 <= j < lp.len() + l1.len() implies matches_atomic(
                    #[trigger] out_op@[j],
                    (lp + l1)[j],
                ) by {
                    if j < lp.len() {
                        assert(out_op@[j] == mid0[j]);
                        assert((lp + l1)[j] == lp[j]);
                    } else {
                        assert(out_op@.skip(mid0.len() as int)[j - lp.len()] == out_op@[mid0.len()
                            + (j - lp.len())]);
                        assert(matches_atomic(
                            out_op@.skip(mid0.len() as int)[j - lp.len()],
                            l1[j - lp.len()],
                        ));
                        assert((lp + l1)[j] == l1[j - lp.len()]);
                    }
                }
            }
        }
        d += 1;
    }
    proof {
        assert(formulas@.take(nlen as int) =~= formulas@);
    }
    out_op
}

/// The shape of a generated intermediate name: the fixed prefix
/// followed by digits, zero-padded to width four, with no leading
/// zero beyond that width.
pub open spec fn is_helper_shaped(s: Seq<char>) -> bool {
    &&& s.len() >= 6
    &&& s[0] == 'h'
    &&& s[1] == 'e'
    &&& forall|i: int| 2 <= i < s.len() ==> is_digit_char(#[trigger] s[i])
    &&& (s.len() == 6 || s[2] != '0')
}

/// Generated intermediate names have the generated shape.
pub proof fn lemma_helper_name_shaped(c: nat)
    ensures
        is_helper_shaped(helper_name_seq(c)),
{
    lemma_decimal_shape(c as int);
    let s = helper_name_seq(c);
    let p = pad4(c);
    assert(s[0] == 'h');
    assert(s[1] == 'e');
    assert forall|i: int| 2 <= i < s.len() implies is_digit_char(#[trigger] s[i]) by {
        assert(s[i] == p[i - 2]);
        if c < 10 {
            if i - 2 < 3 {
                assert(p[i - 2] == spec_digit_char(0));
            } else {
                assert(p[i - 2] == spec_decimal(c as int)[i - 5]);
            }
        } else if c < 100 {
            if i - 2 < 2 {
                assert(p[i - 2] == spec_digit_char(0));
            } else {
                assert(p[i - 2] == spec_decimal(c as int)[i - 4]);
            }
        } else if c < 1000 {
            if i - 2 < 1 {
                assert(p[i - 2] == spec_digit_char(0));
            } else {
                assert(p[i - 2] == spec_decimal(c as int)[i - 3]);
            }
        } else {
            assert(p[i - 2] == spec_decimal(c as int)[i - 2]);
        }
    }
    if s.len() != 6 {
        assert(c >= 10000);
        assert(s[2] == p[0]);
        assert(p[0] == spec_decimal(c as int)[0]);
    }
}

/// Generated intermediate names are injective in the counter.
pub proof fn lemma_helper_name_injective(c1: nat, c2: nat)
    requires
        helper_name_seq(c1) == helper_name_seq(c2),
    ensures
        c1 == c2,
{
    lemma_decimal_shape(c1 as int);
    lemma_decimal_shape(c2 as int);
    let p1 = pad4(c1);
    let p2 = pad4(c2);
    assert(p1 =~= p2) by {
        assert(helper_name_seq(c1).len() == helper_name_seq(c2).len());
        assert(helper_name_seq(c1).len() == 2 + p1.len());
        assert(helper_name_seq(c2).len() == 2 + p2.len());
        assert forall|i: int| 0 <= i < p1.len() implies p1[i] == p2[i] by {
            assert(helper_name_seq(c1)[i + 2] == p1[i]);
            assert(helper_name_seq(c2)[i + 2] == p2[i]);
        }
    }
    let zero_pad1: int = if c1 < 10 {
        3
    } else if c1 < 100 {
        2
    } else if c1 < 1000 {
        1
    } else {
        0
    };
    let zero_pad2: int = if c2 < 10 {
        3
    } else if c2 < 100 {
        2
    } else if c2 < 1000 {
        1
    } else {
        0
    };
    // The zero padding has the same width on both sides: right after
    // it stands a non-zero digit.
    assert forall|i: int| 0 <= i < zero_pad1 implies p1[i] == '0' by {
        assert(p1[i] == spec_digit_char(0));
    }
    assert(zero_pad1 < p1.len() ==> p1[zero_pad1] == spec_decimal(c1 as int)[0]);
    assert forall|i: int| 0 <= i < zero_pad2 implies p2[i] == '0' by {
        assert(p2[i] == spec_digit_char(0));
    }
    assert(zero_pad2 < p2.len() ==> p2[zero_pad2] == spec_decimal(c2 as int)[0]);
    assert(c1 == 0 <==> c2 == 0) by {
        if c1 == 0 && c2 != 0 {
            assert(p1[3] == spec_digit_char(0));
            assert(p2[zero_pad2] != '0');
            assert(p1[zero_pad2] == '0');
        }
        if c2 == 0 && c1 != 0 {
            assert(p2[3] == spec_digit_char(0));
            assert(p1[zero_pad1] != '0');
            assert(p2[zero_pad1] == '0');
        }
    }
    if c1 != 0 || c2 != 0 {
        assert(zero_pad1 == zero_pad2) by {
            if zero_pad1 < zero_pad2 {
                assert(p2[zero_pad1] == '0');
                assert(p1[zero_pad1] != '0');
            }
            if zero_pad2 < zero_pad1 {
                assert(p1[zero_pad2] == '0');
                assert(p2[zero_pad2] != '0');
            }
        }
        assert(spec_decimal(c1 as int) =~= spec_decimal(c2 as int)) by {
            assert(spec_decimal(c1 as int).len() == p1.len() - zero_pad1);
            assert(spec_decimal(c2 as int).len() == p2.len() - zero_pad2);
            assert forall|i: int| 0 <= i < spec_decimal(c1 as int).len() implies spec_decimal(
                c1 as int,
            )[i] == spec_decimal(c2 as int)[i] by {
                assert(p1[zero_pad1 + i] == spec_decimal(c1 as int)[i]);
                assert(p2[zero_pad2 + i] == spec_decimal(c2 as int)[i]);
            }
        }
        lemma_decimal_injective(c1 as int, c2 as int);
    }
}

/// The name stands for a generated intermediate from the given
/// counter range.
pub open spec fn helper_in_range(nm: Seq<char>, lo: nat, hi: nat) -> bool {
    exists|k: nat| lo <= k < hi && nm == helper_name_seq(k)
}

/// Two generated names from disjoint counter ranges differ.
pub proof fn lemma_helpers_distinct_across(x: Seq<char>, y: Seq<char>, lo: nat, mid: nat, hi: nat)
    requires
        helper_in_range(x, lo, mid),
        helper_in_range(y, mid, hi),
    ensures
        x != y,
{
    lemma_ranges_disjoint(x, y, lo, mid, mid, hi);
}

/// Names from disjoint counter ranges differ.
proof fn lemma_ranges_disjoint(x: Seq<char>, y: Seq<char>, lo1: nat, hi1: nat, lo2: nat, hi2: nat)
    requires
        helper_in_range(x, lo1, hi1),
        helper_in_range(y, lo2, hi2),
        hi1 <= lo2,
    ensures
        x != y,
{
    let k1 = choose|k1: nat| lo1 <= k1 < hi1 && x == helper_name_seq(k1);
    let k2 = choose|k2: nat| lo2 <= k2 < hi2 && y == helper_name_seq(k2);
    if x == y {
        lemma_helper_name_injective(k1, k2);
    }
}

/// Every name a subtree lowering emits is a fresh intermediate name
/// from the consumed counter range; the names are mutually distinct;
/// the returned reference is such a name or a source variable.
pub proof fn lemma_lower_sub_names(e: Expression, c: nat)
    ensures
        ({
            let (l, c1, nm) = lower_sub_spec(e, c);
            &&& forall|i: int| 0 <= i < l.len() ==> helper_in_range((#[trigger] l[i]).0, c, c1)
            &&& forall|i: int, j: int|
                0 <= i < j < l.len() ==> (#[trigger] l[i]).0 != (#[trigger] l[j]).0
            &&& (helper_in_range(nm, c, c1) || (e matches Expression::Literal(Literal::Variable(v))
                && nm == v@))
        }),
    decreases e, 0int,
{
    let (l, c1, nm) = lower_sub_spec(e, c);
    match e {
        Expression::Literal(Literal::Variable(_)) => {},
        Expression::Literal(Literal::NumericLiteral(_)) => {
            assert(l[0].0 == helper_name_seq(c));
            assert(helper_in_range(l[0].0, c, c1));
            assert(helper_in_range(nm, c, c1));
        },
        Expression::UnaryExpression(u) => {
            lemma_lower_sub_names(*u.argument, c);
            lemma_lower_counter_bound(*u.argument, c);
            let (la, ca, na) = lower_sub_spec(*u.argument, c);
            assert(l.last().0 == helper_name_seq(ca));
            assert(helper_in_range(l.last().0, c, c1));
            assert forall|i: int| 0 <= i < l.len() implies helper_in_range(
                (#[trigger] l[i]).0,
                c,
                c1,
            ) by {
                if i < la.len() {
                    assert(l[i] == la[i]);
                    lemma_range_widen(l[i].0, c, ca, c, c1);
                }
            }
            assert forall|i: int, j: int|
                0 <= i < j < l.len() implies (#[trigger] l[i]).0 != (#[trigger] l[j]).0 by {
                if j < l.len() - 1 {
                    assert(l[i] == la[i] && l[j] == la[j]);
                } else {
                    assert(l[i] == la[i]);
                    lemma_ranges_disjoint(l[i].0, l[j].0, c, ca, ca, ca + 1);
                }
            }
            assert(helper_in_range(nm, c, c1));
        },
        Expression::Binary(b) => {
            lemma_lower_sub_names(*b.left, c);
            lemma_lower_counter_bound(*b.left, c);
            let (l1, ca, n1) = lower_sub_spec(*b.left, c);
            lemma_lower_sub_names(*b.right, ca);
            lemma_lower_counter_bound(*b.right, ca);
            let (l2, cb, n2) = lower_sub_spec(*b.right, ca);
            assert(l.last().0 == helper_name_seq(cb));
            assert forall|i: int| 0 <= i < l.len() implies helper_in_range(
                (#[trigger] l[i]).0,
                c,
                c1,
            ) by {
                if i < l1.len() {
                    assert(l[i] == (l1 + l2)[i]);
                    assert((l1 + l2)[i] == l1[i]);
                    lemma_range_widen(l[i].0, c, ca, c, c1);
                } else if i < l1.len() + l2.len() {
                    assert(l[i] == (l1 + l2)[i]);
                    assert((l1 + l2)[i] == l2[i - l1.len()]);
                    lemma_range_widen(l[i].0, ca, cb, c, c1);
                } else {
                    assert(helper_in_range(l[i].0, c, c1));
                }
            }
            assert forall|i: int, j: int|
                0 <= i < j < l.len() implies (#[trigger] l[i]).0 != (#[trigger] l[j]).0 by {
                let li = if i < l1.len() + l2.len() {
                    (l1 + l2)[i]
                } else {
                    l.last()
                };
                assert(l[i] == li);
                if j < l.len() - 1 {
                    assert(l[j] == (l1 + l2)[j]);
                    if i < l1.len() && j < l1.len() {
                        assert((l1 + l2)[i] == l1[i] && (l1 + l2)[j] == l1[j]);
                    } else if i < l1.len() {
                        assert((l1 + l2)[i] == l1[i] && (l1 + l2)[j] == l2[j - l1.len()]);
                        lemma_ranges_disjoint(l[i].0, l[j].0, c, ca, ca, cb);
                    } else {
                        assert((l1 + l2)[i] == l2[i - l1.len()] && (l1 + l2)[j] == l2[j - l1.len()]);
                    }
                } else {
                    if i < l1.len() {
                        assert((l1 + l2)[i] == l1[i]);
                        lemma_ranges_disjoint(l[i].0, l[j].0, c, ca, cb, cb + 1);
                    } else {
                        assert((l1 + l2)[i] == l2[i - l1.len()]);
                        lemma_ranges_disjoint(l[i].0, l[j].0, ca, cb, cb, cb + 1);
                    }
                }
            }
            assert(helper_in_range(nm, c, c1));
        },
        Expression::NAryExpression(na) => {
            lemma_lower_list_names(na.operands@, 0, c);
            lemma_lower_list_counter_bound(na.operands@, 0, c);
            let (ll, cl, ns) = lower_list_spec(na.operands@, 0, c);
            assert(l.last().0 == helper_name_seq(cl));
            assert forall|i: int| 0 <= i < l.len() implies helper_in_range(
                (#[trigger] l[i]).0,
                c,
                c1,
            ) by {
                if i < ll.len() {
                    assert(l[i] == ll[i]);
                    lemma_range_widen(l[i].0, c, cl, c, c1);
                }
            }
            assert forall|i: int, j: int|
                0 <= i < j < l.len() implies (#[trigger] l[i]).0 != (#[trigger] l[j]).0 by {
                if j < l.len() - 1 {
                    assert(l[i] == ll[i] && l[j] == ll[j]);
                } else {
                    assert(l[i] == ll[i]);
                    lemma_ranges_disjoint(l[i].0, l[j].0, c, cl, cl, cl + 1);
                }
            }
            assert(helper_in_range(nm, c, c1));
        },
    }
}

/// Widening the counter range keeps membership.
proof fn lemma_range_widen(nm: Seq<char>, lo: nat, hi: nat, lo2: nat, hi2: nat)
    requires
        helper_in_range(nm, lo, hi),
        lo2 <= lo,
        hi <= hi2,
    ensures
        helper_in_range(nm, lo2, hi2),
{
    let k = choose|k: nat| lo <= k < hi && nm == helper_name_seq(k);
    assert(lo2 <= k < hi2 && nm == helper_name_seq(k));
}

/// The list version of the naming facts.
pub proof fn lemma_lower_list_names(es: Seq<Expression>, i: int, c: nat)
    ensures
        ({
            let (l, c1, ns) = lower_list_spec(es, i, c);
            &&& forall|j: int| 0 <= j < l.len() ==> helper_in_range((#[trigger] l[j]).0, c, c1)
            &&& forall|a: int, b: int|
                0 <= a < b < l.len() ==> (#[trigger] l[a]).0 != (#[trigger] l[b]).0
        }),
    decreases es, es.len() - i,
{
    if 0 <= i < es.len() {
        lemma_lower_sub_names(es[i], c);
        lemma_lower_counter_bound(es[i], c);
        let (l1, ca, n1) = lower_sub_spec(es[i], c);
        lemma_lower_list_names(es, i + 1, ca);
        lemma_lower_list_counter_bound(es, i + 1, ca);
        let (l2, cb, ns) = lower_list_spec(es, i + 1, ca);
        let (l, c1, _) = lower_list_spec(es, i, c);
        assert forall|j: int| 0 <= j < l.len() implies helper_in_range(
            (#[trigger] l[j]).0,
            c,
            c1,
        ) by {
            if j < l1.len() {
                assert(l[j] == l1[j]);
                lemma_range_widen(l[j].0, c, ca, c, c1);
            } else {
                assert(l[j] == l2[j - l1.len()]);
                lemma_range_widen(l[j].0, ca, cb, c, c1);
            }
        }
        assert forall|a: int, b: int|
            0 <= a < b < l.len() implies (#[trigger] l[a]).0 != (#[trigger] l[b]).0 by {
            if a < l1.len() && b < l1.len() {
                assert(l[a] == l1[a] && l[b] == l1[b]);
            } else if a < l1.len() {
                assert(l[a] == l1[a] && l[b] == l2[b - l1.len()]);
                lemma_ranges_disjoint(l[a].0, l[b].0, c, ca, ca, cb);
            } else {
                assert(l[a] == l2[a - l1.len()] && l[b] == l2[b - l1.len()]);
            }
        }
    }
}

} // verus!
