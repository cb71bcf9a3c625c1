//! Operation model: operation tags, operation inputs, and the
//! element-wise operation functions.
//!
//! The tags form a closed enumeration.  Each tag fixes how many
//! dependency names it accepts, whether a constant is required or
//! forbidden, and the reducing semantics.
//!
//! The arithmetic itself is not performed here: a caller-supplied
//! kernel maps a primitive selector and two scalar bit patterns to a
//! result pattern, and every contract below relates results to the
//! kernel through `call_ensures`.  Minima, maxima and the `*OverN`
//! reductions are decided exactly on the documented total order over
//! bit patterns and need no kernel.

use crate::bits::{spec_float_key, float_key, ZERO_BITS};
use crate::variable::Variable;
use vstd::prelude::*;

verus! {

/// All types of operations.
#[derive(Clone, Copy, Debug, PartialEq, Eq, Hash, Structural)]
pub enum OperationType {
    Addition,
    AdditionConst,
    AdditionOverN,
    MinimaOverN,
    MaximaOverN,
    Subtraction,
    SubtractionConstVar,
    SubtractionVarConst,
    Multiplication,
    MultiplicationConst,
    Division,
    DivisionConstVar,
    DivisionVarConst,
    Squareroot,
    Power,
    PowerConst,
    PowerBaseConst,
    Minima,
    Maxima,
    Absolute,
    DefConst,
}

/// The shape of input an operation expects, used in contract errors.
#[derive(Clone, Copy, Debug, PartialEq, Eq, Structural)]
pub enum InputShape {
    NAry,
    Binary,
    Unary,
}

/// The primitive scalar functions a kernel must provide.
///
/// `OfUint` converts a small natural number (the first argument) to
/// the pattern of the equal double; the other primitives combine one
/// or two double patterns.  Unary primitives ignore the second
/// argument.
#[derive(Clone, Copy, Debug, PartialEq, Eq, Structural)]
pub enum Prim {
    Add,
    Sub,
    Mul,
    Div,
    Pow,
    Sqrt,
    Abs,
    OfUint,
}

/// Enum to combine all different input types for the calculations.
#[derive(Debug)]
pub enum OperationInput {
    Unary(Variable),
    Binary(Variable, Variable),
    NAry(Vec<Variable>),
}

/// The result of an operation.
pub type OperationOutput = Variable;

/// The tags that take any number of dependencies and no constant.
pub open spec fn is_nary_op(op: OperationType) -> bool {
    op == OperationType::Addition || op == OperationType::Subtraction
        || op == OperationType::Multiplication || op == OperationType::Minima
        || op == OperationType::Maxima
}

/// The tags that take exactly two dependencies and no constant.
pub open spec fn is_two_var_op(op: OperationType) -> bool {
    op == OperationType::Division || op == OperationType::Power
}

/// The tags that take one dependency and a constant, constant second.
pub open spec fn is_var_const_op(op: OperationType) -> bool {
    op == OperationType::AdditionConst || op == OperationType::SubtractionVarConst
        || op == OperationType::MultiplicationConst || op == OperationType::DivisionVarConst
        || op == OperationType::PowerConst || op == OperationType::PowerBaseConst
}

/// The tags that take one dependency and a constant, constant first.
pub open spec fn is_const_var_op(op: OperationType) -> bool {
    op == OperationType::SubtractionConstVar || op == OperationType::DivisionConstVar
}

/// The tags that take exactly one dependency and no constant.
pub open spec fn is_unary_op(op: OperationType) -> bool {
    op == OperationType::Squareroot || op == OperationType::Absolute
        || op == OperationType::AdditionOverN || op == OperationType::MinimaOverN
        || op == OperationType::MaximaOverN
}

/// The kernel accepts every argument combination.
pub open spec fn kernel_total<F: Fn(Prim, u64, u64) -> u64>(f: F) -> bool {
    forall|p: Prim, a: u64, b: u64| call_requires(f, (p, a, b))
}

/// One kernel application: `r` is a possible result of `f(p, a, b)`.
pub open spec fn kstep<F: Fn(Prim, u64, u64) -> u64>(
    f: F,
    p: Prim,
    a: u64,
    b: u64,
    r: u64,
) -> bool {
    call_ensures(f, (p, a, b), r)
}

/// Element-wise binary kernel application.
pub open spec fn ew_bin<F: Fn(Prim, u64, u64) -> u64>(
    f: F,
    p: Prim,
    a: Seq<u64>,
    b: Seq<u64>,
    r: Seq<u64>,
) -> bool {
    &&& r.len() == a.len()
    &&& forall|i: int| 0 <= i < a.len() ==> #[trigger] kstep(f, p, a[i], b[i], r[i])
}

/// Element-wise unary kernel application; the second argument is zero.
pub open spec fn ew_un<F: Fn(Prim, u64, u64) -> u64>(
    f: F,
    p: Prim,
    a: Seq<u64>,
    r: Seq<u64>,
) -> bool {
    &&& r.len() == a.len()
    &&& forall|i: int| 0 <= i < a.len() ==> #[trigger] kstep(f, p, a[i], 0u64, r[i])
}

/// A chain of intermediate results of a left-associative element-wise
/// fold: entry `i` is the fold of the first `i + 1` vectors.
pub open spec fn is_fold_chain<F: Fn(Prim, u64, u64) -> u64>(
    f: F,
    p: Prim,
    vs: Seq<Seq<u64>>,
    chain: Seq<Seq<u64>>,
) -> bool {
    &&& chain.len() == vs.len()
    &&& vs.len() >= 1 ==> chain[0] == vs[0]
    &&& forall|i: int| 1 <= i < vs.len() ==> #[trigger] ew_bin(f, p, chain[i - 1], vs[i], chain[i])
}

/// Left-associative element-wise fold of a non-empty list of vectors.
pub open spec fn fold_rel<F: Fn(Prim, u64, u64) -> u64>(
    f: F,
    p: Prim,
    vs: Seq<Seq<u64>>,
    r: Seq<u64>,
) -> bool {
    &&& vs.len() >= 1
    &&& exists|chain: Seq<Seq<u64>>| #[trigger] is_fold_chain(f, p, vs, chain) && chain.last() == r
}

/// A chain of accumulator values of a left fold over one vector:
/// entry `i` is the accumulator before component `i` is folded in.
pub open spec fn is_scalar_chain<F: Fn(Prim, u64, u64) -> u64>(
    f: F,
    p: Prim,
    s: Seq<u64>,
    acc: u64,
    chain: Seq<u64>,
) -> bool {
    &&& chain.len() == s.len() + 1
    &&& chain[0] == acc
    &&& forall|i: int| 0 <= i < s.len() ==> #[trigger] kstep(f, p, chain[i], s[i], chain[i + 1])
}

/// Left fold of a kernel primitive over the components of one vector.
pub open spec fn scalar_fold_rel<F: Fn(Prim, u64, u64) -> u64>(
    f: F,
    p: Prim,
    s: Seq<u64>,
    acc: u64,
    r: u64,
) -> bool {
    exists|chain: Seq<u64>| #[trigger] is_scalar_chain(f, p, s, acc, chain) && chain.last() == r
}

/// The views of a list of variables.
pub open spec fn views_of(s: Seq<Variable>) -> Seq<Seq<u64>> {
    s.map_values(|v: Variable| v@)
}


/// All vectors in the list have the dimension of the first.
pub open spec fn dims_equal(vs: Seq<Seq<u64>>) -> bool {
    forall|i: int| 0 <= i < vs.len() ==> #[trigger] vs[i].len() == vs[0].len()
}

/// Strict lexicographic order over the documented total order on
/// scalar patterns; a strict prefix is smaller.
pub open spec fn lex_lt(a: Seq<u64>, b: Seq<u64>) -> bool
    decreases a.len(),
{
    if b.len() == 0 {
        false
    } else if a.len() == 0 {
        true
    } else if spec_float_key(a[0]) < spec_float_key(b[0]) {
        true
    } else if spec_float_key(a[0]) > spec_float_key(b[0]) {
        false
    } else {
        lex_lt(a.drop_first(), b.drop_first())
    }
}

/// Index of the lexicographically least vector, earliest on ties.
pub open spec fn lex_argmin(vs: Seq<Seq<u64>>) -> int
    decreases vs.len(),
{
    if vs.len() <= 1 {
        0
    } else {
        let r = lex_argmin(vs.drop_last());
        if lex_lt(vs.last(), vs[r]) {
            vs.len() - 1
        } else {
            r
        }
    }
}

/// Index of the lexicographically greatest vector, latest on ties.
pub open spec fn lex_argmax(vs: Seq<Seq<u64>>) -> int
    decreases vs.len(),
{
    if vs.len() <= 1 {
        0
    } else {
        let r = lex_argmax(vs.drop_last());
        if lex_lt(vs.last(), vs[r]) {
            r
        } else {
            vs.len() - 1
        }
    }
}

/// Index of the least component of a vector, earliest on ties.
pub open spec fn key_argmin(s: Seq<u64>) -> int
    decreases s.len(),
{
    if s.len() <= 1 {
        0
    } else {
        let r = key_argmin(s.drop_last());
        if spec_float_key(s.last()) < spec_float_key(s[r]) {
            s.len() - 1
        } else {
            r
        }
    }
}

/// Index of the greatest component of a vector, latest on ties.
pub open spec fn key_argmax(s: Seq<u64>) -> int
    decreases s.len(),
{
    if s.len() <= 1 {
        0
    } else {
        let r = key_argmax(s.drop_last());
        if spec_float_key(s.last()) >= spec_float_key(s[r]) {
            s.len() - 1
        } else {
            r
        }
    }
}

/// Decides the strict lexicographic order on two vectors.
pub fn lex_less(a: &Vec<u64>, b: &Vec<u64>) -> (r: bool)
    ensures
        r == lex_lt(a@, b@),
{
    let mut i: usize = 0;
    proof {
        assert(a@.skip(0) =~= a@);
        assert(b@.skip(0) =~= b@);
    }
    loop
        invariant
            i <= a@.len(),
            i <= b@.len(),
            forall|j: int|
                0 <= j < i ==> spec_float_key(a@[j]) == spec_float_key(b@[j]),
            lex_lt(a@, b@) == lex_lt(a@.skip(i as int), b@.skip(i as int)),
        decreases a@.len() - i,
    {
        if i == b.len() {
            return false;
        }
        if i == a.len() {
            return true;
        }
        let ka = float_key(a[i]);
        let kb = float_key(b[i]);
        if ka < kb {
            return true;
        }
        if ka > kb {
            return false;
        }
        i += 1;
        proof {
            assert(a@.skip(i - 1).drop_first() =~= a@.skip(i as int));
            assert(b@.skip(i - 1).drop_first() =~= b@.skip(i as int));
        }
    }
}

/// Applies a binary kernel primitive element-wise; `None` exactly on a
/// dimension mismatch.
pub fn map_binary_op<F: Fn(Prim, u64, u64) -> u64>(
    f: &F,
    p: Prim,
    a: &Variable,
    b: &Variable,
) -> (r: Option<Variable>)
    requires
        kernel_total(*f),
    ensures
        match r {
            Some(v) => a@.len() == b@.len() && ew_bin(*f, p, a@, b@, v@),
            None => a@.len() != b@.len(),
        },
{
    if a.dim() != b.dim() {
        return None;
    }
    let av = a.vector();
    let bv = b.vector();
    let mut out: Vec<u64> = Vec::new();
    let mut i: usize = 0;
    while i < av.len()
        invariant
            kernel_total(*f),
            av@ == a@,
            bv@ == b@,
            a@.len() == b@.len(),
            i <= a@.len(),
            out@.len() == i,
            forall|j: int| 0 <= j < i ==> #[trigger] kstep(*f, p, a@[j], b@[j], out@[j]),
        decreases av@.len() - i,
    {
        out.push(f(p, av[i], bv[i]));
        i += 1;
    }
    proof {
        use_type_invariant(a);
    }
    Some(Variable::new(out))
}

/// Applies a unary kernel primitive element-wise.
pub fn map_unary_op<F: Fn(Prim, u64, u64) -> u64>(f: &F, p: Prim, a: &Variable) -> (r: Variable)
    requires
        kernel_total(*f),
    ensures
        ew_un(*f, p, a@, r@),
{
    let av = a.vector();
    let mut out: Vec<u64> = Vec::new();
    let mut i: usize = 0;
    while i < av.len()
        invariant
            kernel_total(*f),
            av@ == a@,
            i <= a@.len(),
            out@.len() == i,
            forall|j: int| 0 <= j < i ==> #[trigger] kstep(*f, p, a@[j], 0u64, out@[j]),
        decreases av@.len() - i,
    {
        out.push(f(p, av[i], 0u64));
        i += 1;
    }
    proof {
        use_type_invariant(a);
    }
    Variable::new(out)
}

/// Left-associative element-wise fold over a non-empty list; `None`
/// exactly when the dimensions are not all equal.  An empty list gives
/// the default length-one zero.
fn nary_fold<F: Fn(Prim, u64, u64) -> u64>(f: &F, p: Prim, vars: &Vec<Variable>) -> (r: Option<
    Variable,
>)
    requires
        kernel_total(*f),
    ensures
        match r {
            Some(v) => {
                if vars@.len() == 0 {
                    v@ == seq![ZERO_BITS]
                } else {
                    dims_equal(views_of(vars@)) && fold_rel(*f, p, views_of(vars@), v@)
                        && v@.len() == views_of(vars@)[0].len()
                }
            },
            None => vars@.len() >= 1 && !dims_equal(views_of(vars@)),
        },
{
    if vars.len() == 0 {
        return Some(Variable::default());
    }
    let ghost views = views_of(vars@);
    let mut acc = vars[0].clone();
    let ghost mut chain: Seq<Seq<u64>> = seq![acc@];
    let mut i: usize = 1;
    while i < vars.len()
        invariant
            kernel_total(*f),
            views == views_of(vars@),
            views.len() == vars@.len(),
            1 <= i <= vars@.len(),
            dims_equal(views.take(i as int)),
            is_fold_chain(*f, p, views.take(i as int), chain),
            chain.len() == i,
            chain.last() == acc@,
            acc@.len() == views[0].len(),
        decreases vars@.len() - i,
    {
        let next = map_binary_op(f, p, &acc, &vars[i]);
        match next {
            Some(v) => {
                proof {
                    let chain2 = chain.push(v@);
                    assert forall|j: int| 1 <= j < views.take(i + 1).len() implies #[trigger] ew_bin(
                        *f,
                        p,
                        chain2[j - 1],
                        views.take(i + 1)[j],
                        chain2[j],
                    ) by {
                        if j < i {
                            assert(ew_bin(*f, p, chain[j - 1], views.take(i as int)[j], chain[j]));
                            assert(chain2[j - 1] == chain[j - 1]);
                            assert(chain2[j] == chain[j]);
                            assert(views.take(i + 1)[j] == views.take(i as int)[j]);
                        } else {
                            assert(chain2[j - 1] == acc@);
                            assert(chain2[j] == v@);
                            assert(views.take(i + 1)[j] == views[i as int]);
                            assert(ew_bin(*f, p, acc@, views[i as int], v@));
                        }
                    }
                    assert(is_fold_chain(*f, p, views.take(i + 1), chain2));
                    assert(dims_equal(views.take(i + 1)));
                    chain = chain2;
                }
                acc = v;
            },
            None => {
                proof {
                    assert(views[i as int].len() != views[0].len());
                    assert(!dims_equal(views));
                }
                return None;
            },
        }
        i += 1;
    }
    proof {
        assert(views.take(vars@.len() as int) =~= views);
        assert(is_fold_chain(*f, p, views, chain) && chain.last() == acc@);
    }
    Some(acc)
}

/// Emits the constant operand of a nullary definition.
pub fn def_const(input: OperationInput) -> (r: OperationOutput)
    ensures
        match input {
            OperationInput::Unary(c) => r@ == c@,
            _ => r@ == seq![ZERO_BITS],
        },
{
    match input {
        OperationInput::Unary(constant) => constant,
        _ => OperationOutput::default(),
    }
}

/// Adds all values in the list element-wise, left-associatively.
pub fn add<F: Fn(Prim, u64, u64) -> u64>(f: &F, input: OperationInput) -> (r: Option<
    OperationOutput,
>)
    requires
        kernel_total(*f),
    ensures
        match input {
            OperationInput::NAry(vars) => match r {
                Some(v) => {
                    if vars@.len() == 0 {
                        v@ == seq![ZERO_BITS]
                    } else {
                        dims_equal(views_of(vars@)) && fold_rel(*f, Prim::Add, views_of(vars@), v@)
                            && v@.len() == views_of(vars@)[0].len()
                    }
                },
                None => vars@.len() >= 1 && !dims_equal(views_of(vars@)),
            },
            _ => r matches Some(v) && v@ == seq![ZERO_BITS],
        },
{
    match input {
        OperationInput::NAry(vars) => nary_fold(f, Prim::Add, &vars),
        _ => Some(OperationOutput::default()),
    }
}

/// Multiplies all values in the list element-wise, left-associatively.
pub fn mul<F: Fn(Prim, u64, u64) -> u64>(f: &F, input: OperationInput) -> (r: Option<
    OperationOutput,
>)
    requires
        kernel_total(*f),
    ensures
        match input {
            OperationInput::NAry(vars) => match r {
                Some(v) => {
                    if vars@.len() == 0 {
                        v@ == seq![ZERO_BITS]
                    } else {
                        dims_equal(views_of(vars@)) && fold_rel(*f, Prim::Mul, views_of(vars@), v@)
                            && v@.len() == views_of(vars@)[0].len()
                    }
                },
                None => vars@.len() >= 1 && !dims_equal(views_of(vars@)),
            },
            _ => r matches Some(v) && v@ == seq![ZERO_BITS],
        },
{
    match input {
        OperationInput::NAry(vars) => nary_fold(f, Prim::Mul, &vars),
        _ => Some(OperationOutput::default()),
    }
}

/// Subtracts the sum of the rest from the first value.  A single
/// operand is reduced against the default length-one zero, so it must
/// itself have dimension one.
pub fn sub<F: Fn(Prim, u64, u64) -> u64>(f: &F, input: OperationInput) -> (r: Option<
    OperationOutput,
>)
    requires
        kernel_total(*f),
    ensures
        match input {
            OperationInput::NAry(vars) => {
                &&& (r is Some) <==> (vars@.len() == 0 || (vars@.len() == 1 && vars@[0]@.len() == 1)
                    || (vars@.len() >= 2 && dims_equal(views_of(vars@))))
                &&& match r {
                    Some(v) => {
                        if vars@.len() == 0 {
                            v@ == seq![ZERO_BITS]
                        } else if vars@.len() == 1 {
                            ew_bin(*f, Prim::Sub, vars@[0]@, seq![ZERO_BITS], v@)
                        } else {
                            exists|rest: Seq<u64>|
                                #[trigger] fold_rel(
                                    *f,
                                    Prim::Add,
                                    views_of(vars@).drop_first(),
                                    rest,
                                ) && ew_bin(*f, Prim::Sub, vars@[0]@, rest, v@)
                        }
                    },
                    None => true,
                }
            },
            _ => r matches Some(v) && v@ == seq![ZERO_BITS],
        },
{
    match input {
        OperationInput::NAry(vars) => {
            if vars.len() == 0 {
                return Some(OperationOutput::default());
            }
            let ghost views = views_of(vars@);
            let first = vars[0].clone();
            let mut rest: Vec<Variable> = Vec::new();
            let mut i: usize = 1;
            while i < vars.len()
                invariant
                    views == views_of(vars@),
                    views.len() == vars@.len(),
                    1 <= i <= vars@.len(),
                    rest@.len() == i - 1,
                    forall|j: int| 0 <= j < i - 1 ==> #[trigger] rest@[j]@ == vars@[j + 1]@,
                decreases vars@.len() - i,
            {
                rest.push(vars[i].clone());
                i += 1;
            }
            proof {
                assert forall|j: int| 0 <= j < rest@.len() implies #[trigger] views_of(rest@)[j]
                    == views.drop_first()[j] by {
                    assert(views_of(rest@)[j] == rest@[j]@);
                    assert(rest@[j]@ == vars@[j + 1]@);
                    assert(views.drop_first()[j] == views[j + 1]);
                    assert(views[j + 1] == vars@[j + 1]@);
                }
                assert(views_of(rest@) =~= views.drop_first());
            }
            let sum_of_rest = if rest.len() == 0 {
                OperationOutput::default()
            } else {
                match nary_fold(f, Prim::Add, &rest) {
                    Some(v) => v,
                    None => {
                        proof {
                            assert(!dims_equal(views.drop_first()));
                            assert(!dims_equal(views)) by {
                                if dims_equal(views) {
                                    assert forall|j: int|
                                        0 <= j < views.drop_first().len() implies #[trigger] views.drop_first()[j].len()
                                        == views.drop_first()[0].len() by {
                                        assert(views.drop_first()[j] == views[j + 1]);
                                        assert(views.drop_first()[0] == views[1]);
                                        assert(views[j + 1].len() == views[0].len());
                                        assert(views[1].len() == views[0].len());
                                    }
                                }
                            }
                        }
                        return None;
                    },
                }
            };
            let ghost sum_view = sum_of_rest@;
            let r = map_binary_op(f, Prim::Sub, &first, &sum_of_rest);
            proof {
                if vars@.len() == 1 {
                    assert(sum_view == seq![ZERO_BITS]);
                    assert(first@ == views[0]);
                } else {
                    assert(fold_rel(*f, Prim::Add, views.drop_first(), sum_view));
                    assert(sum_view.len() == views.drop_first()[0].len());
                    assert(views.drop_first()[0] == views[1]);
                    match &r {
                        Some(v) => {
                            assert(first@.len() == sum_view.len());
                            assert(dims_equal(views)) by {
                                assert(dims_equal(views.drop_first()));
                                assert forall|j: int| 0 <= j < views.len() implies #[trigger] views[j].len()
                                    == views[0].len() by {
                                    if j >= 1 {
                                        assert(views.drop_first()[j - 1] == views[j]);
                                        assert(views.drop_first()[j - 1].len()
                                            == views.drop_first()[0].len());
                                        assert(views[1].len() == sum_view.len());
                                        assert(views[0].len() == first@.len());
                                    }
                                }
                            }
                            assert(ew_bin(*f, Prim::Sub, views[0], sum_view, v@));
                        },
                        None => {
                            assert(first@.len() != sum_view.len());
                            assert(!dims_equal(views)) by {
                                if dims_equal(views) {
                                    assert(views[1].len() == views[0].len());
                                }
                            }
                        },
                    }
                }
            }
            r
        },
        _ => Some(OperationOutput::default()),
    }
}

/// Adds a constant operand to a value.
pub fn add_const<F: Fn(Prim, u64, u64) -> u64>(f: &F, input: OperationInput) -> (r: Option<
    OperationOutput,
>)
    requires
        kernel_total(*f),
    ensures
        match input {
            OperationInput::Binary(n0, c) => match r {
                Some(v) => n0@.len() == c@.len() && ew_bin(*f, Prim::Add, n0@, c@, v@),
                None => n0@.len() != c@.len(),
            },
            _ => r matches Some(v) && v@ == seq![ZERO_BITS],
        },
{
    match input {
        OperationInput::Binary(n0, constant) => map_binary_op(f, Prim::Add, &n0, &constant),
        _ => Some(OperationOutput::default()),
    }
}

/// Subtracts a constant operand from a value (var - const).
pub fn sub_var_const<F: Fn(Prim, u64, u64) -> u64>(f: &F, input: OperationInput) -> (r: Option<
    OperationOutput,
>)
    requires
        kernel_total(*f),
    ensures
        match input {
            OperationInput::Binary(n0, c) => match r {
                Some(v) => n0@.len() == c@.len() && ew_bin(*f, Prim::Sub, n0@, c@, v@),
                None => n0@.len() != c@.len(),
            },
            _ => r matches Some(v) && v@ == seq![ZERO_BITS],
        },
{
    match input {
        OperationInput::Binary(n0, constant) => map_binary_op(f, Prim::Sub, &n0, &constant),
        _ => Some(OperationOutput::default()),
    }
}

/// Subtracts a value from a constant operand (const - var).
pub fn sub_const_var<F: Fn(Prim, u64, u64) -> u64>(f: &F, input: OperationInput) -> (r: Option<
    OperationOutput,
>)
    requires
        kernel_total(*f),
    ensures
        match input {
            OperationInput::Binary(n0, c) => match r {
                Some(v) => n0@.len() == c@.len() && ew_bin(*f, Prim::Sub, c@, n0@, v@),
                None => n0@.len() != c@.len(),
            },
            _ => r matches Some(v) && v@ == seq![ZERO_BITS],
        },
{
    match input {
        OperationInput::Binary(n0, constant) => map_binary_op(f, Prim::Sub, &constant, &n0),
        _ => Some(OperationOutput::default()),
    }
}

/// Multiplies a value by a constant operand.
pub fn mul_const<F: Fn(Prim, u64, u64) -> u64>(f: &F, input: OperationInput) -> (r: Option<
    OperationOutput,
>)
    requires
        kernel_total(*f),
    ensures
        match input {
            OperationInput::Binary(n0, c) => match r {
                Some(v) => n0@.len() == c@.len() && ew_bin(*f, Prim::Mul, n0@, c@, v@),
                None => n0@.len() != c@.len(),
            },
            _ => r matches Some(v) && v@ == seq![ZERO_BITS],
        },
{
    match input {
        OperationInput::Binary(n0, constant) => map_binary_op(f, Prim::Mul, &n0, &constant),
        _ => Some(OperationOutput::default()),
    }
}

/// Divides the first value by the second value.
pub fn div<F: Fn(Prim, u64, u64) -> u64>(f: &F, input: OperationInput) -> (r: Option<
    OperationOutput,
>)
    requires
        kernel_total(*f),
    ensures
        match input {
            OperationInput::Binary(n0, n1) => match r {
                Some(v) => n0@.len() == n1@.len() && ew_bin(*f, Prim::Div, n0@, n1@, v@),
                None => n0@.len() != n1@.len(),
            },
            _ => r matches Some(v) && v@ == seq![ZERO_BITS],
        },
{
    match input {
        OperationInput::Binary(n0, n1) => map_binary_op(f, Prim::Div, &n0, &n1),
        _ => Some(OperationOutput::default()),
    }
}

/// Divides a constant operand by a value (const / var).
pub fn div_const_var<F: Fn(Prim, u64, u64) -> u64>(f: &F, input: OperationInput) -> (r: Option<
    OperationOutput,
>)
    requires
        kernel_total(*f),
    ensures
        match input {
            OperationInput::Binary(n0, c) => match r {
                Some(v) => n0@.len() == c@.len() && ew_bin(*f, Prim::Div, c@, n0@, v@),
                None => n0@.len() != c@.len(),
            },
            _ => r matches Some(v) && v@ == seq![ZERO_BITS],
        },
{
    match input {
        OperationInput::Binary(n0, constant) => map_binary_op(f, Prim::Div, &constant, &n0),
        _ => Some(OperationOutput::default()),
    }
}

/// Divides a value by a constant operand (var / const).
pub fn div_var_const<F: Fn(Prim, u64, u64) -> u64>(f: &F, input: OperationInput) -> (r: Option<
    OperationOutput,
>)
    requires
        kernel_total(*f),
    ensures
        match input {
            OperationInput::Binary(n0, c) => match r {
                Some(v) => n0@.len() == c@.len() && ew_bin(*f, Prim::Div, n0@, c@, v@),
                None => n0@.len() != c@.len(),
            },
            _ => r matches Some(v) && v@ == seq![ZERO_BITS],
        },
{
    match input {
        OperationInput::Binary(n0, constant) => map_binary_op(f, Prim::Div, &n0, &constant),
        _ => Some(OperationOutput::default()),
    }
}

/// Raises the first value to the power of the second value.
pub fn power<F: Fn(Prim, u64, u64) -> u64>(f: &F, input: OperationInput) -> (r: Option<
    OperationOutput,
>)
    requires
        kernel_total(*f),
    ensures
        match input {
            OperationInput::Binary(n0, n1) => match r {
                Some(v) => n0@.len() == n1@.len() && ew_bin(*f, Prim::Pow, n0@, n1@, v@),
                None => n0@.len() != n1@.len(),
            },
            _ => r matches Some(v) && v@ == seq![ZERO_BITS],
        },
{
    match input {
        OperationInput::Binary(n0, n1) => map_binary_op(f, Prim::Pow, &n0, &n1),
        _ => Some(OperationOutput::default()),
    }
}

/// The same as `power`: the variable is the base, the constant the
/// exponent.
pub fn power_base_const<F: Fn(Prim, u64, u64) -> u64>(f: &F, input: OperationInput) -> (r: Option<
    OperationOutput,
>)
    requires
        kernel_total(*f),
    ensures
        match input {
            OperationInput::Binary(n0, c) => match r {
                Some(v) => n0@.len() == c@.len() && ew_bin(*f, Prim::Pow, n0@, c@, v@),
                None => n0@.len() != c@.len(),
            },
            _ => r matches Some(v) && v@ == seq![ZERO_BITS],
        },
{
    match input {
        OperationInput::Binary(n0, constant) => map_binary_op(f, Prim::Pow, &n0, &constant),
        _ => Some(OperationOutput::default()),
    }
}

/// Takes the element-wise square root of the value.
pub fn sqrt<F: Fn(Prim, u64, u64) -> u64>(f: &F, input: OperationInput) -> (r: OperationOutput)
    requires
        kernel_total(*f),
    ensures
        match input {
            OperationInput::Unary(n) => ew_un(*f, Prim::Sqrt, n@, r@),
            _ => r@ == seq![ZERO_BITS],
        },
{
    match input {
        OperationInput::Unary(n) => map_unary_op(f, Prim::Sqrt, &n),
        _ => OperationOutput::default(),
    }
}

/// Takes the element-wise absolute value of the input.
pub fn abs<F: Fn(Prim, u64, u64) -> u64>(f: &F, input: OperationInput) -> (r: OperationOutput)
    requires
        kernel_total(*f),
    ensures
        match input {
            OperationInput::Unary(n) => ew_un(*f, Prim::Abs, n@, r@),
            _ => r@ == seq![ZERO_BITS],
        },
{
    match input {
        OperationInput::Unary(n) => map_unary_op(f, Prim::Abs, &n),
        _ => OperationOutput::default(),
    }
}

/// Sums the components of a vector into a scalar.
pub fn add_over_n<F: Fn(Prim, u64, u64) -> u64>(f: &F, input: OperationInput) -> (r:
    OperationOutput)
    requires
        kernel_total(*f),
    ensures
        match input {
            OperationInput::Unary(n) => r@.len() == 1 && scalar_fold_rel(
                *f,
                Prim::Add,
                n@,
                ZERO_BITS,
                r@[0],
            ),
            _ => r@ == seq![ZERO_BITS],
        },
{
    match input {
        OperationInput::Unary(n) => {
            let nv = n.vector();
            let mut acc: u64 = 0;
            let ghost mut chain: Seq<u64> = seq![0u64];
            let mut i: usize = 0;
            while i < nv.len()
                invariant
                    kernel_total(*f),
                    nv@ == n@,
                    i <= n@.len(),
                    chain.len() == i + 1,
                    chain[0] == ZERO_BITS,
                    chain.last() == acc,
                    forall|j: int|
                        0 <= j < i ==> #[trigger] kstep(*f, Prim::Add, chain[j], n@[j], chain[j + 1]),
                decreases nv@.len() - i,
            {
                let next = f(Prim::Add, acc, nv[i]);
                proof {
                    chain = chain.push(next);
                }
                acc = next;
                i += 1;
            }
            proof {
                assert(is_scalar_chain(*f, Prim::Add, n@, ZERO_BITS, chain) && chain.last() == acc);
            }
            Variable::scalar(acc)
        },
        _ => OperationOutput::default(),
    }
}

/// Takes the least component of a vector as a scalar.
pub fn min_over_n(input: OperationInput) -> (r: OperationOutput)
    ensures
        match input {
            OperationInput::Unary(n) => n@.len() >= 1 && r@ == seq![n@[key_argmin(n@)]],
            _ => r@ == seq![ZERO_BITS],
        },
{
    match input {
        OperationInput::Unary(n) => {
            proof {
                use_type_invariant(&n);
            }
            let nv = n.vector();
            let mut best: usize = 0;
            let mut i: usize = 1;
            while i < nv.len()
                invariant
                    nv@ == n@,
                    n@.len() >= 1,
                    1 <= i <= n@.len(),
                    best < i,
                    best == key_argmin(n@.take(i as int)),
                decreases nv@.len() - i,
            {
                proof {
                    assert(n@.take(i + 1).drop_last() =~= n@.take(i as int));
                    assert(n@.take(i + 1).last() == n@[i as int]);
                }
                if float_key(nv[i]) < float_key(nv[best]) {
                    best = i;
                }
                i += 1;
            }
            proof {
                assert(n@.take(n@.len() as int) =~= n@);
            }
            Variable::scalar(nv[best])
        },
        _ => OperationOutput::default(),
    }
}

/// Takes the greatest component of a vector as a scalar.
pub fn max_over_n(input: OperationInput) -> (r: OperationOutput)
    ensures
        match input {
            OperationInput::Unary(n) => n@.len() >= 1 && r@ == seq![n@[key_argmax(n@)]],
            _ => r@ == seq![ZERO_BITS],
        },
{
    match input {
        OperationInput::Unary(n) => {
            proof {
                use_type_invariant(&n);
            }
            let nv = n.vector();
            let mut best: usize = 0;
            let mut i: usize = 1;
            while i < nv.len()
                invariant
                    nv@ == n@,
                    n@.len() >= 1,
                    1 <= i <= n@.len(),
                    best < i,
                    best == key_argmax(n@.take(i as int)),
                decreases nv@.len() - i,
            {
                proof {
                    assert(n@.take(i + 1).drop_last() =~= n@.take(i as int));
                    assert(n@.take(i + 1).last() == n@[i as int]);
                }
                if float_key(nv[i]) >= float_key(nv[best]) {
                    best = i;
                }
                i += 1;
            }
            proof {
                assert(n@.take(n@.len() as int) =~= n@);
            }
            Variable::scalar(nv[best])
        },
        _ => OperationOutput::default(),
    }
}

/// Returns the lexicographically least value of a non-empty list.
#[verifier::rlimit(50)]
pub fn min(input: OperationInput) -> (r: OperationOutput)
    requires
        input matches OperationInput::NAry(vars) ==> vars@.len() >= 1,
    ensures
        match input {
            OperationInput::NAry(vars) => r@ == views_of(vars@)[lex_argmin(views_of(vars@))],
            _ => r@ == seq![ZERO_BITS],
        },
{
    match input {
        OperationInput::NAry(vars) => {
            let ghost views = views_of(vars@);
            let mut best: usize = 0;
            let mut i: usize = 1;
            while i < vars.len()
                invariant
                    views == views_of(vars@),
                    views.len() == vars@.len(),
                    1 <= i <= vars@.len(),
                    best < i,
                    best == lex_argmin(views.take(i as int)),
                decreases vars@.len() - i,
            {
                proof {
                    assert(views.take(i + 1).drop_last() =~= views.take(i as int));
                    assert(views.take(i + 1).last() == views[i as int]);
                }
                if lex_less(vars[i].vector(), vars[best].vector()) {
                    best = i;
                }
                i += 1;
            }
            proof {
                assert(views.take(vars@.len() as int) =~= views);
            }
            vars[best].clone()
        },
        _ => OperationOutput::default(),
    }
}

/// Returns the lexicographically greatest value of a non-empty list.
#[verifier::rlimit(50)]
pub fn max(input: OperationInput) -> (r: OperationOutput)
    requires
        input matches OperationInput::NAry(vars) ==> vars@.len() >= 1,
    ensures
        match input {
            OperationInput::NAry(vars) => r@ == views_of(vars@)[lex_argmax(views_of(vars@))],
            _ => r@ == seq![ZERO_BITS],
        },
{
    match input {
        OperationInput::NAry(vars) => {
            let ghost views = views_of(vars@);
            let mut best: usize = 0;
            let mut i: usize = 1;
            while i < vars.len()
                invariant
                    views == views_of(vars@),
                    views.len() == vars@.len(),
                    1 <= i <= vars@.len(),
                    best < i,
                    best == lex_argmax(views.take(i as int)),
                decreases vars@.len() - i,
            {
                proof {
                    assert(views.take(i + 1).drop_last() =~= views.take(i as int));
                    assert(views.take(i + 1).last() == views[i as int]);
                }
                if lex_less(vars[i].vector(), vars[best].vector()) {
                    // keep the current maximum
                } else {
                    best = i;
                }
                i += 1;
            }
            proof {
                assert(views.take(vars@.len() as int) =~= views);
            }
            vars[best].clone()
        },
        _ => OperationOutput::default(),
    }
}

} // verus!
