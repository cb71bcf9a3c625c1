//! An atomic is the base operation of the analyst's uploaded
//! algorithms.  It has a unique `name`, an operation tag, the ordered
//! names of the dependency variables involved, an optional constant
//! operand, and a flag that says whether the result is a KPI to be
//! reported.
//!
//! `calc` evaluates one atomic against a table of resolved values:
//! it checks the arity and constant contract of the tag, resolves the
//! operands, rejects zero divisors, applies the operation and records
//! the result under the atomic's name.

use crate::bits::{spec_is_zero_bits, is_zero_bits, ZERO_BITS};
use crate::error::BenchmarkingError;
use crate::operation::{
    self, dims_equal, ew_bin, ew_un, fold_rel, is_const_var_op, is_nary_op, is_two_var_op,
    is_unary_op, is_var_const_op, kernel_total, key_argmax, key_argmin, lex_argmax, lex_argmin,
    scalar_fold_rel, views_of, InputShape, OperationInput, OperationType, Prim,
};
use crate::resolved::{lookup, seq_contains_key, ResolvedValues};
use crate::variable::{Variable, VariableID};
use vstd::prelude::*;

verus! {

/// The checks `calc` makes, in the order it makes them; `Pass` means
/// the atomic evaluates.
#[derive(Clone, Copy, Debug, PartialEq, Eq, Structural)]
pub enum CalcCheck {
    Pass,
    WrongCount,
    UnusedConst,
    MissingConst,
    Unresolved,
    DivZero,
    DimMismatch,
    Duplicate,
}

/// Atomic calculation unit.
#[derive(Debug)]
pub struct Atomic {
    /// Unique variable name.
    name: VariableID,
    /// Whether the result is reported as a KPI.
    is_kpi: bool,
    /// The operation performed.
    op: OperationType,
    /// Names of the dependency variables, in order.
    var: Vec<VariableID>,
    /// Constant operand, where the operation takes one.
    constant: Option<u64>,
}

/// A constant broadcast to the dimension of its variable operand.
pub open spec fn bcast(c: u64, n: nat) -> Seq<u64> {
    Seq::new(n, |i: int| c)
}

/// The resolved value of a name (empty if unresolved).
pub open spec fn val_of(rv: Seq<(Seq<char>, Seq<u64>)>, k: Seq<char>) -> Seq<u64> {
    match lookup(rv, k) {
        Some(v) => v,
        None => Seq::empty(),
    }
}

/// Whether any component of the vector equals zero.
pub open spec fn has_zero(s: Seq<u64>) -> bool {
    exists|i: int| 0 <= i < s.len() && spec_is_zero_bits(#[trigger] s[i])
}

/// Every dependency name is resolved.
pub open spec fn deps_resolved(deps: Seq<Seq<char>>, rv: Seq<(Seq<char>, Seq<u64>)>) -> bool {
    forall|i: int| 0 <= i < deps.len() ==> seq_contains_key(rv, #[trigger] deps[i])
}

/// The first dependency name that is not resolved.
pub open spec fn first_unresolved(
    deps: Seq<Seq<char>>,
    rv: Seq<(Seq<char>, Seq<u64>)>,
) -> Seq<char>
    decreases deps.len(),
{
    if deps.len() == 0 {
        Seq::empty()
    } else if !seq_contains_key(rv, deps[0]) {
        deps[0]
    } else {
        first_unresolved(deps.drop_first(), rv)
    }
}

/// `first_unresolved` names the dependency at the first failing index.
pub proof fn lemma_first_unresolved_at(
    deps: Seq<Seq<char>>,
    rv: Seq<(Seq<char>, Seq<u64>)>,
    i: int,
)
    requires
        0 <= i < deps.len(),
        !seq_contains_key(rv, deps[i]),
        forall|j: int| 0 <= j < i ==> seq_contains_key(rv, #[trigger] deps[j]),
    ensures
        first_unresolved(deps, rv) == deps[i],
    decreases i,
{
    if i > 0 {
        assert forall|j: int| 0 <= j < i - 1 implies seq_contains_key(
            rv,
            #[trigger] deps.drop_first()[j],
        ) by {
            assert(deps.drop_first()[j] == deps[j + 1]);
        }
        assert(deps.drop_first()[i - 1] == deps[i]);
        lemma_first_unresolved_at(deps.drop_first(), rv, i - 1);
    }
}

impl Atomic {
    /// The name, as a sequence of characters.
    pub closed spec fn spec_name(self) -> Seq<char> {
        self.name@
    }

    /// The KPI flag.
    pub closed spec fn spec_is_kpi(self) -> bool {
        self.is_kpi
    }

    /// The operation tag.
    pub closed spec fn spec_op(self) -> OperationType {
        self.op
    }

    /// The dependency names, as sequences of characters.
    pub closed spec fn spec_deps(self) -> Seq<Seq<char>> {
        self.var@.map_values(|s: String| s@)
    }

    /// The constant operand.
    pub closed spec fn spec_constant(self) -> Option<u64> {
        self.constant
    }

    /// The resolved values of this atomic's dependencies, in order.
    pub open spec fn dep_vals(self, rv: Seq<(Seq<char>, Seq<u64>)>) -> Seq<Seq<u64>> {
        Seq::new(self.spec_deps().len(), |i: int| val_of(rv, self.spec_deps()[i]))
    }

    /// The check on which evaluating this atomic against the given
    /// table stops, in the order the checks are made.
    pub open spec fn calc_check(self, rv: Seq<(Seq<char>, Seq<u64>)>) -> CalcCheck {
        let op = self.spec_op();
        let deps = self.spec_deps();
        let vals = self.dep_vals(rv);
        if is_nary_op(op) {
            if deps.len() == 0 {
                CalcCheck::WrongCount
            } else if self.spec_constant() is Some {
                CalcCheck::UnusedConst
            } else if !deps_resolved(deps, rv) {
                CalcCheck::Unresolved
            } else if (op == OperationType::Addition || op == OperationType::Multiplication)
                && !dims_equal(vals) {
                CalcCheck::DimMismatch
            } else if op == OperationType::Subtraction && deps.len() == 1 && vals[0].len() != 1 {
                CalcCheck::DimMismatch
            } else if op == OperationType::Subtraction && deps.len() >= 2 && !dims_equal(vals) {
                CalcCheck::DimMismatch
            } else if seq_contains_key(rv, self.spec_name()) {
                CalcCheck::Duplicate
            } else {
                CalcCheck::Pass
            }
        } else if is_two_var_op(op) {
            if deps.len() != 2 {
                CalcCheck::WrongCount
            } else if self.spec_constant() is Some {
                CalcCheck::UnusedConst
            } else if !deps_resolved(deps, rv) {
                CalcCheck::Unresolved
            } else if op == OperationType::Division && has_zero(vals[1]) {
                CalcCheck::DivZero
            } else if vals[0].len() != vals[1].len() {
                CalcCheck::DimMismatch
            } else if seq_contains_key(rv, self.spec_name()) {
                CalcCheck::Duplicate
            } else {
                CalcCheck::Pass
            }
        } else if is_var_const_op(op) {
            if deps.len() != 1 {
                CalcCheck::WrongCount
            } else if self.spec_constant() is None {
                CalcCheck::MissingConst
            } else if !deps_resolved(deps, rv) {
                CalcCheck::Unresolved
            } else if (op == OperationType::DivisionVarConst || op
                == OperationType::SubtractionVarConst) && spec_is_zero_bits(
                self.spec_constant()->0,
            ) {
                CalcCheck::DivZero
            } else if seq_contains_key(rv, self.spec_name()) {
                CalcCheck::Duplicate
            } else {
                CalcCheck::Pass
            }
        } else if is_const_var_op(op) {
            if deps.len() != 1 {
                CalcCheck::WrongCount
            } else if self.spec_constant() is None {
                CalcCheck::MissingConst
            } else if !deps_resolved(deps, rv) {
                CalcCheck::Unresolved
            } else if op == OperationType::DivisionConstVar && has_zero(vals[0]) {
                CalcCheck::DivZero
            } else if seq_contains_key(rv, self.spec_name()) {
                CalcCheck::Duplicate
            } else {
                CalcCheck::Pass
            }
        } else if is_unary_op(op) {
            if deps.len() != 1 {
                CalcCheck::WrongCount
            } else if self.spec_constant() is Some {
                CalcCheck::UnusedConst
            } else if !deps_resolved(deps, rv) {
                CalcCheck::Unresolved
            } else if seq_contains_key(rv, self.spec_name()) {
                CalcCheck::Duplicate
            } else {
                CalcCheck::Pass
            }
        } else {
            if deps.len() != 0 {
                CalcCheck::WrongCount
            } else if self.spec_constant() is None {
                CalcCheck::MissingConst
            } else if seq_contains_key(rv, self.spec_name()) {
                CalcCheck::Duplicate
            } else {
                CalcCheck::Pass
            }
        }
    }

    /// The shape named in a wrong-operand-count error for this tag.
    pub open spec fn expected_shape(self) -> InputShape {
        if is_nary_op(self.spec_op()) {
            InputShape::NAry
        } else if is_unary_op(self.spec_op()) || self.spec_op() == OperationType::DefConst {
            InputShape::Unary
        } else {
            InputShape::Binary
        }
    }

    /// The error reported for a failed check names this atomic (or,
    /// for an unresolved read, the dependency) and carries the cause.
    pub open spec fn calc_err_matches(
        self,
        rv: Seq<(Seq<char>, Seq<u64>)>,
        e: BenchmarkingError,
    ) -> bool {
        match self.calc_check(rv) {
            CalcCheck::Pass => false,
            CalcCheck::WrongCount => e matches BenchmarkingError::WrongOperandCount(n, sh)
                && n@ == self.spec_name() && sh == self.expected_shape(),
            CalcCheck::UnusedConst => e matches BenchmarkingError::UnusedConstant(n) && n@
                == self.spec_name(),
            CalcCheck::MissingConst => e matches BenchmarkingError::MissingConstant(n) && n@
                == self.spec_name(),
            CalcCheck::Unresolved => e matches BenchmarkingError::UnresolvedValue(n) && n@
                == first_unresolved(self.spec_deps(), rv),
            CalcCheck::DivZero => e matches BenchmarkingError::DivisionByZero(n) && n@
                == self.spec_name(),
            CalcCheck::DimMismatch => e matches BenchmarkingError::DimensionMismatch(n) && n@
                == self.spec_name(),
            CalcCheck::Duplicate => e matches BenchmarkingError::DuplicateResolved(n) && n@
                == self.spec_name(),
        }
    }

    /// How the recorded result relates to the operands through the
    /// kernel, for each operation tag.
    pub open spec fn calc_value_rel<F: Fn(Prim, u64, u64) -> u64>(
        self,
        f: F,
        rv: Seq<(Seq<char>, Seq<u64>)>,
        v: Seq<u64>,
    ) -> bool {
        let vals = self.dep_vals(rv);
        let c = self.spec_constant()->0;
        match self.spec_op() {
            OperationType::Addition => fold_rel(f, Prim::Add, vals, v),
            OperationType::Multiplication => fold_rel(f, Prim::Mul, vals, v),
            OperationType::Subtraction => {
                if vals.len() == 1 {
                    ew_bin(f, Prim::Sub, vals[0], seq![ZERO_BITS], v)
                } else {
                    exists|rest: Seq<u64>|
                        #[trigger] fold_rel(f, Prim::Add, vals.drop_first(), rest) && ew_bin(
                            f,
                            Prim::Sub,
                            vals[0],
                            rest,
                            v,
                        )
                }
            },
            OperationType::Minima => v == vals[lex_argmin(vals)],
            OperationType::Maxima => v == vals[lex_argmax(vals)],
            OperationType::Division => ew_bin(f, Prim::Div, vals[0], vals[1], v),
            OperationType::Power => ew_bin(f, Prim::Pow, vals[0], vals[1], v),
            OperationType::AdditionConst => ew_bin(f, Prim::Add, vals[0], bcast(c, vals[0].len()), v),
            OperationType::SubtractionVarConst => ew_bin(
                f,
                Prim::Sub,
                vals[0],
                bcast(c, vals[0].len()),
                v,
            ),
            OperationType::SubtractionConstVar => ew_bin(
                f,
                Prim::Sub,
                bcast(c, vals[0].len()),
                vals[0],
                v,
            ),
            OperationType::MultiplicationConst => ew_bin(
                f,
                Prim::Mul,
                vals[0],
                bcast(c, vals[0].len()),
                v,
            ),
            OperationType::DivisionVarConst => ew_bin(
                f,
                Prim::Div,
                vals[0],
                bcast(c, vals[0].len()),
                v,
            ),
            OperationType::DivisionConstVar => ew_bin(
                f,
                Prim::Div,
                bcast(c, vals[0].len()),
                vals[0],
                v,
            ),
            OperationType::PowerConst => ew_bin(f, Prim::Pow, vals[0], bcast(c, vals[0].len()), v),
            OperationType::PowerBaseConst => ew_bin(
                f,
                Prim::Pow,
                vals[0],
                bcast(c, vals[0].len()),
                v,
            ),
            OperationType::Squareroot => ew_un(f, Prim::Sqrt, vals[0], v),
            OperationType::Absolute => ew_un(f, Prim::Abs, vals[0], v),
            OperationType::AdditionOverN => v.len() == 1 && scalar_fold_rel(
                f,
                Prim::Add,
                vals[0],
                ZERO_BITS,
                v[0],
            ),
            OperationType::MinimaOverN => v == seq![vals[0][key_argmin(vals[0])]],
            OperationType::MaximaOverN => v == seq![vals[0][key_argmax(vals[0])]],
            OperationType::DefConst => v == seq![c],
        }
    }

    /// Builds an atomic from its parts.
    pub fn new(
        name: VariableID,
        is_kpi: bool,
        op: OperationType,
        var: Vec<VariableID>,
        constant: Option<u64>,
    ) -> (r: Self)
        ensures
            r.spec_name() == name@,
            r.spec_is_kpi() == is_kpi,
            r.spec_op() == op,
            r.spec_deps().len() == var@.len(),
            forall|i: int| 0 <= i < var@.len() ==> r.spec_deps()[i] == (#[trigger] var@[i])@,
            r.spec_constant() == constant,
    {
        Atomic { name, is_kpi, op, var, constant }
    }

    /// The synthesised placeholder for an external input: a zero
    /// addition with no dependencies that is never executed.
    pub fn new_required(name: VariableID) -> (r: Self)
        ensures
            r.spec_name() == name@,
            r.spec_is_kpi() == false,
            r.spec_op() == OperationType::AdditionConst,
            r.spec_deps() =~= Seq::<Seq<char>>::empty(),
            r.spec_constant() == Some(ZERO_BITS),
    {
        let r = Atomic {
            name,
            is_kpi: false,
            op: OperationType::AdditionConst,
            var: Vec::new(),
            constant: Some(ZERO_BITS),
        };
        r
    }

    /// Makes the operation self-referential, which satisfies its own
    /// arity; used only when a placeholder must become executable.
    pub fn make_op_valid(&mut self)
        ensures
            final(self).spec_name() == old(self).spec_name(),
            final(self).spec_is_kpi() == old(self).spec_is_kpi(),
            final(self).spec_op() == old(self).spec_op(),
            final(self).spec_constant() == old(self).spec_constant(),
            final(self).spec_deps() =~= old(self).spec_deps().push(old(self).spec_name()),
    {
        let n = self.name.clone();
        self.var.push(n);
    }

    /// How a well-shaped operand package relates to the table.
    pub open spec fn input_rel(
        self,
        rv: Seq<(Seq<char>, Seq<u64>)>,
        input: OperationInput,
    ) -> bool {
        let vals = self.dep_vals(rv);
        let c = self.spec_constant()->0;
        if is_nary_op(self.spec_op()) {
            input matches OperationInput::NAry(vars) && views_of(vars@) == vals && vars@.len() >= 1
        } else if is_two_var_op(self.spec_op()) {
            input matches OperationInput::Binary(a, b) && a@ == vals[0] && b@ == vals[1]
        } else if is_var_const_op(self.spec_op()) || is_const_var_op(self.spec_op()) {
            input matches OperationInput::Binary(a, b) && a@ == vals[0] && b@ == bcast(
                c,
                vals[0].len(),
            )
        } else if is_unary_op(self.spec_op()) {
            input matches OperationInput::Unary(n) && n@ == vals[0]
        } else {
            input matches OperationInput::Unary(n) && n@ == seq![c]
        }
    }

    /// Select input values from the resolved table, checking the
    /// arity and constant contract of the tag and rejecting zero
    /// divisors.
    #[verifier::loop_isolation(false)]
    fn get_resolved_for_op(&self, resolved_values: &ResolvedValues) -> (r: Result<
        OperationInput,
        BenchmarkingError,
    >)
        ensures
            match r {
                Ok(input) => (self.calc_check(resolved_values@) == CalcCheck::Pass
                    || self.calc_check(resolved_values@) == CalcCheck::DimMismatch
                    || self.calc_check(resolved_values@) == CalcCheck::Duplicate)
                    && self.input_rel(resolved_values@, input),
                Err(e) => self.calc_err_matches(resolved_values@, e),
            },
    {
        let ghost rv = resolved_values@;
        let ghost deps = self.spec_deps();
        match self.op {
            OperationType::Addition | OperationType::Subtraction | OperationType::Multiplication
                | OperationType::Minima | OperationType::Maxima => {
                if self.var.len() == 0 {
                    return Err(
                        BenchmarkingError::WrongOperandCount(self.name.clone(), InputShape::NAry),
                    );
                }
                if self.constant.is_some() {
                    return Err(BenchmarkingError::UnusedConstant(self.name.clone()));
                }
                let mut values: Vec<Variable> = Vec::new();
                let mut i: usize = 0;
                while i < self.var.len()
                    invariant
                        i <= self.var@.len(),
                        deps == self.spec_deps(),
                        deps.len() == self.var@.len(),
                        rv == resolved_values@,
                        forall|j: int| 0 <= j < deps.len() ==> (#[trigger] self.var@[j])@ == deps[j],
                        forall|j: int| 0 <= j < i ==> seq_contains_key(rv, #[trigger] deps[j]),
                        values@.len() == i,
                        forall|j: int|
                            0 <= j < i ==> (#[trigger] values@[j])@ == val_of(rv, deps[j]),
                    decreases self.var@.len() - i,
                {
                    match resolved_values.get(&self.var[i]) {
                        Ok(v) => {
                            proof {
                                crate::resolved::lemma_lookup_contains(rv, deps[i as int]);
                            }
                            values.push(v.clone());
                        },
                        Err(e) => {
                            proof {
                                assert((self.var@[i as int])@ == deps[i as int]);
                                assert(!seq_contains_key(rv, deps[i as int]));
                                assert(!deps_resolved(deps, rv));
                                lemma_first_unresolved_at(deps, rv, i as int);
                            }
                            return Err(e);
                        },
                    }
                    i += 1;
                }
                proof {
                    assert(views_of(values@) =~= self.dep_vals(rv)) by {
                        assert forall|j: int| 0 <= j < deps.len() implies #[trigger] views_of(
                            values@,
                        )[j] == self.dep_vals(rv)[j] by {
                            assert(views_of(values@)[j] == values@[j]@);
                        }
                    }
                }
                Ok(OperationInput::NAry(values))
            },
            OperationType::Division | OperationType::Power => {
                if self.var.len() != 2 {
                    return Err(
                        BenchmarkingError::WrongOperandCount(self.name.clone(), InputShape::Binary),
                    );
                }
                if self.constant.is_some() {
                    return Err(BenchmarkingError::UnusedConstant(self.name.clone()));
                }
                proof {
                    assert((self.var@[0])@ == deps[0]);
                    assert((self.var@[1])@ == deps[1]);
                }
                let operand0 = match resolved_values.get(&self.var[0]) {
                    Ok(v) => v,
                    Err(e) => {
                        proof {
                            lemma_first_unresolved_at(deps, rv, 0);
                        }
                        return Err(e);
                    },
                };
                proof {
                    crate::resolved::lemma_lookup_contains(rv, deps[0]);
                }
                let operand1 = match resolved_values.get(&self.var[1]) {
                    Ok(v) => v,
                    Err(e) => {
                        proof {
                            lemma_first_unresolved_at(deps, rv, 1);
                        }
                        return Err(e);
                    },
                };
                proof {
                    crate::resolved::lemma_lookup_contains(rv, deps[1]);
                    assert(operand0@ == self.dep_vals(rv)[0]);
                    assert(operand1@ == self.dep_vals(rv)[1]);
                }
                if matches!(self.op, OperationType::Division) {
                    let dv = operand1.vector();
                    let mut j: usize = 0;
                    while j < dv.len()
                        invariant
                            j <= dv@.len(),
                            dv@ == operand1@,
                            forall|jj: int| 0 <= jj < j ==> !spec_is_zero_bits(#[trigger] dv@[jj]),
                        decreases dv@.len() - j,
                    {
                        if is_zero_bits(dv[j]) {
                            proof {
                                assert(has_zero(operand1@));
                                assert(deps_resolved(deps, rv)) by {
                                    assert forall|ii: int| 0 <= ii < deps.len() implies
                                        seq_contains_key(rv, #[trigger] deps[ii]) by {
                                        assert(ii == 0 || ii == 1);
                                    }
                                }
                            }
                            return Err(BenchmarkingError::DivisionByZero(self.name.clone()));
                        }
                        j += 1;
                    }
                    proof {
                        assert(!has_zero(operand1@));
                    }
                }
                Ok(OperationInput::Binary(operand0.clone(), operand1.clone()))
            },
            OperationType::AdditionConst | OperationType::SubtractionVarConst
                | OperationType::MultiplicationConst | OperationType::DivisionVarConst
                | OperationType::PowerConst | OperationType::PowerBaseConst => {
                if self.var.len() != 1 {
                    return Err(
                        BenchmarkingError::WrongOperandCount(self.name.clone(), InputShape::Binary),
                    );
                }
                let c = match self.constant {
                    Some(c0) => c0,
                    None => {
                        return Err(BenchmarkingError::MissingConstant(self.name.clone()));
                    },
                };
                proof {
                    assert((self.var@[0])@ == deps[0]);
                }
                let operand0 = match resolved_values.get(&self.var[0]) {
                    Ok(v) => v,
                    Err(e) => {
                        proof {
                            lemma_first_unresolved_at(deps, rv, 0);
                        }
                        return Err(e);
                    },
                };
                proof {
                    crate::resolved::lemma_lookup_contains(rv, deps[0]);
                    assert(operand0@ == self.dep_vals(rv)[0]);
                }
                if matches!(self.op, OperationType::DivisionVarConst)
                    || matches!(self.op, OperationType::SubtractionVarConst) {
                    if is_zero_bits(c) {
                        return Err(BenchmarkingError::DivisionByZero(self.name.clone()));
                    }
                }
                let dim = operand0.dim();
                let operand1 = Variable::filled(c, dim);
                proof {
                    assert(operand1@ =~= bcast(c, self.dep_vals(rv)[0].len()));
                }
                Ok(OperationInput::Binary(operand0.clone(), operand1))
            },
            OperationType::SubtractionConstVar | OperationType::DivisionConstVar => {
                if self.var.len() != 1 {
                    return Err(
                        BenchmarkingError::WrongOperandCount(self.name.clone(), InputShape::Binary),
                    );
                }
                let c = match self.constant {
                    Some(c0) => c0,
                    None => {
                        return Err(BenchmarkingError::MissingConstant(self.name.clone()));
                    },
                };
                proof {
                    assert((self.var@[0])@ == deps[0]);
                }
                let operand0 = match resolved_values.get(&self.var[0]) {
                    Ok(v) => v,
                    Err(e) => {
                        proof {
                            lemma_first_unresolved_at(deps, rv, 0);
                        }
                        return Err(e);
                    },
                };
                proof {
                    crate::resolved::lemma_lookup_contains(rv, deps[0]);
                    assert(operand0@ == self.dep_vals(rv)[0]);
                }
                if matches!(self.op, OperationType::DivisionConstVar) {
                    let dv = operand0.vector();
                    let mut j: usize = 0;
                    while j < dv.len()
                        invariant
                            j <= dv@.len(),
                            dv@ == operand0@,
                            forall|jj: int| 0 <= jj < j ==> !spec_is_zero_bits(#[trigger] dv@[jj]),
                        decreases dv@.len() - j,
                    {
                        if is_zero_bits(dv[j]) {
                            proof {
                                assert(has_zero(operand0@));
                                assert(deps_resolved(deps, rv)) by {
                                    assert forall|ii: int| 0 <= ii < deps.len() implies
                                        seq_contains_key(rv, #[trigger] deps[ii]) by {
                                        assert(ii == 0);
                                    }
                                }
                            }
                            return Err(BenchmarkingError::DivisionByZero(self.name.clone()));
                        }
                        j += 1;
                    }
                    proof {
                        assert(!has_zero(operand0@));
                    }
                }
                let dim = operand0.dim();
                let operand1 = Variable::filled(c, dim);
                proof {
                    assert(operand1@ =~= bcast(c, self.dep_vals(rv)[0].len()));
                }
                Ok(OperationInput::Binary(operand0.clone(), operand1))
            },
            OperationType::Squareroot | OperationType::Absolute | OperationType::AdditionOverN
                | OperationType::MinimaOverN | OperationType::MaximaOverN => {
                if self.var.len() != 1 {
                    return Err(
                        BenchmarkingError::WrongOperandCount(self.name.clone(), InputShape::Unary),
                    );
                }
                if self.constant.is_some() {
                    return Err(BenchmarkingError::UnusedConstant(self.name.clone()));
                }
                proof {
                    assert((self.var@[0])@ == deps[0]);
                }
                let n = match resolved_values.get(&self.var[0]) {
                    Ok(v) => v,
                    Err(e) => {
                        proof {
                            lemma_first_unresolved_at(deps, rv, 0);
                        }
                        return Err(e);
                    },
                };
                proof {
                    crate::resolved::lemma_lookup_contains(rv, deps[0]);
                    assert(n@ == self.dep_vals(rv)[0]);
                }
                Ok(OperationInput::Unary(n.clone()))
            },
            OperationType::DefConst => {
                if self.var.len() != 0 {
                    return Err(
                        BenchmarkingError::WrongOperandCount(self.name.clone(), InputShape::Unary),
                    );
                }
                let c = match self.constant {
                    Some(c0) => c0,
                    None => {
                        return Err(BenchmarkingError::MissingConstant(self.name.clone()));
                    },
                };
                Ok(OperationInput::Unary(Variable::scalar(c)))
            },
        }
    }

    /// Calculate the atomic: resolve the operands, apply the
    /// operation through the kernel, and record the result under this
    /// atomic's name.  On any failed check the table is unchanged and
    /// the error identifies the check.
    pub fn calc<F: Fn(Prim, u64, u64) -> u64>(
        &self,
        resolved: &mut ResolvedValues,
        f: &F,
    ) -> (r: Result<(), BenchmarkingError>)
        requires
            kernel_total(*f),
        ensures
            match r {
                Ok(()) => self.calc_check(old(resolved)@) == CalcCheck::Pass && exists|v: Seq<u64>|
                    #[trigger] self.calc_value_rel(*f, old(resolved)@, v) && final(resolved)@
                        == old(resolved)@.push((self.spec_name(), v)),
                Err(e) => final(resolved)@ == old(resolved)@ && self.calc_err_matches(
                    old(resolved)@,
                    e,
                ),
            },
    {
        let ghost rv = resolved@;
        let input = match self.get_resolved_for_op(&*resolved) {
            Ok(input) => input,
            Err(e) => {
                return Err(e);
            },
        };
        let var_res: Variable = match self.op {
            OperationType::Addition => match operation::add(f, input) {
                Some(v) => v,
                None => {
                    return Err(BenchmarkingError::DimensionMismatch(self.name.clone()));
                },
            },
            OperationType::Multiplication => match operation::mul(f, input) {
                Some(v) => v,
                None => {
                    return Err(BenchmarkingError::DimensionMismatch(self.name.clone()));
                },
            },
            OperationType::Subtraction => match operation::sub(f, input) {
                Some(v) => v,
                None => {
                    return Err(BenchmarkingError::DimensionMismatch(self.name.clone()));
                },
            },
            OperationType::Minima => operation::min(input),
            OperationType::Maxima => operation::max(input),
            OperationType::Division => match operation::div(f, input) {
                Some(v) => v,
                None => {
                    return Err(BenchmarkingError::DimensionMismatch(self.name.clone()));
                },
            },
            OperationType::Power => match operation::power(f, input) {
                Some(v) => v,
                None => {
                    return Err(BenchmarkingError::DimensionMismatch(self.name.clone()));
                },
            },
            OperationType::AdditionConst => match operation::add_const(f, input) {
                Some(v) => v,
                None => {
                    return Err(BenchmarkingError::DimensionMismatch(self.name.clone()));
                },
            },
            OperationType::SubtractionVarConst => match operation::sub_var_const(f, input) {
                Some(v) => v,
                None => {
                    return Err(BenchmarkingError::DimensionMismatch(self.name.clone()));
                },
            },
            OperationType::SubtractionConstVar => match operation::sub_const_var(f, input) {
                Some(v) => v,
                None => {
                    return Err(BenchmarkingError::DimensionMismatch(self.name.clone()));
                },
            },
            OperationType::MultiplicationConst => match operation::mul_const(f, input) {
                Some(v) => v,
                None => {
                    return Err(BenchmarkingError::DimensionMismatch(self.name.clone()));
                },
            },
            OperationType::DivisionVarConst => match operation::div_var_const(f, input) {
                Some(v) => v,
                None => {
                    return Err(BenchmarkingError::DimensionMismatch(self.name.clone()));
                },
            },
            OperationType::DivisionConstVar => match operation::div_const_var(f, input) {
                Some(v) => v,
                None => {
                    return Err(BenchmarkingError::DimensionMismatch(self.name.clone()));
                },
            },
            OperationType::PowerConst => match operation::power(f, input) {
                Some(v) => v,
                None => {
                    return Err(BenchmarkingError::DimensionMismatch(self.name.clone()));
                },
            },
            OperationType::PowerBaseConst => match operation::power_base_const(f, input) {
                Some(v) => v,
                None => {
                    return Err(BenchmarkingError::DimensionMismatch(self.name.clone()));
                },
            },
            OperationType::Squareroot => operation::sqrt(f, input),
            OperationType::Absolute => operation::abs(f, input),
            OperationType::AdditionOverN => operation::add_over_n(f, input),
            OperationType::MinimaOverN => operation::min_over_n(input),
            OperationType::MaximaOverN => operation::max_over_n(input),
            OperationType::DefConst => operation::def_const(input),
        };
        proof {
            assert(self.calc_value_rel(*f, rv, var_res@));
        }
        match resolved.insert(self.name.clone(), var_res) {
            Ok(()) => Ok(()),
            Err(e) => Err(e),
        }
    }

    /// Return name of the atomic.
    pub fn name(&self) -> (r: &str)
        ensures
            r@ == self.spec_name(),
    {
        self.name.as_str()
    }

    /// Return the operation tag.
    pub fn op(&self) -> (r: OperationType)
        ensures
            r == self.spec_op(),
    {
        self.op
    }

    /// Returns `true` if this is a KPI.
    pub fn is_kpi(&self) -> (r: bool)
        ensures
            r == self.spec_is_kpi(),
    {
        self.is_kpi
    }

    /// Returns the names of all dependency variables.
    pub fn var_ids(&self) -> (r: &Vec<VariableID>)
        ensures
            r@.len() == self.spec_deps().len(),
            forall|i: int| 0 <= i < r@.len() ==> (#[trigger] r@[i])@ == self.spec_deps()[i],
    {
        &self.var
    }

    /// Returns the constant operand of the operation.
    pub fn constant(&self) -> (r: &Option<u64>)
        ensures
            *r == self.spec_constant(),
    {
        &self.constant
    }
}

impl Clone for Atomic {
    /// Cloning keeps every part of the atomic.
    fn clone(&self) -> (r: Self)
        ensures
            r.spec_name() == self.spec_name(),
            r.spec_is_kpi() == self.spec_is_kpi(),
            r.spec_op() == self.spec_op(),
            r.spec_deps() == self.spec_deps(),
            r.spec_constant() == self.spec_constant(),
    {
        let mut var: Vec<VariableID> = Vec::new();
        let mut i: usize = 0;
        while i < self.var.len()
            invariant
                i <= self.var@.len(),
                var@.len() == i,
                forall|j: int| 0 <= j < i ==> (#[trigger] var@[j])@ == self.var@[j]@,
            decreases self.var@.len() - i,
        {
            var.push(self.var[i].clone());
            i += 1;
        }
        let r = Atomic {
            name: self.name.clone(),
            is_kpi: self.is_kpi,
            op: self.op,
            var,
            constant: self.constant,
        };
        proof {
            assert(r.spec_deps() =~= self.spec_deps());
        }
        r
    }
}

} // verus!
