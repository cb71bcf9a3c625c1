//! Load and organise the inputs of algorithms.
//!
//! An `Input` maps variable names to non-empty value vectors with
//! optional bounds.  It is the sole way external data enters an
//! evaluation.

use crate::bits::ZERO_BITS;
use crate::strutil::{copy_bits_vec, str_eq};
use vstd::prelude::*;

verus! {

/// One named input variable: a non-empty vector of scalars and its
/// declared bounds.
#[derive(Debug)]
pub struct InputVariable {
    /// Name of variable.
    name: String,
    /// Greatest admissible value.
    max_val: u64,
    /// Least admissible value.
    min_val: u64,
    /// Values of this variable.
    values: Vec<u64>,
}

impl InputVariable {
    /// The name, as a sequence of characters.
    pub closed spec fn spec_name(self) -> Seq<char> {
        self.name@
    }

    /// The values.
    pub closed spec fn spec_values(self) -> Seq<u64> {
        self.values@
    }

    /// The declared lower bound.
    pub closed spec fn spec_min_val(self) -> u64 {
        self.min_val
    }

    /// The declared upper bound.
    pub closed spec fn spec_max_val(self) -> u64 {
        self.max_val
    }

    /// A variable without declared bounds.
    pub fn new(name: String, values: Vec<u64>) -> (r: Self)
        requires
            values@.len() >= 1,
        ensures
            r.spec_name() == name@,
            r.spec_values() == values@,
            r.spec_min_val() == ZERO_BITS,
            r.spec_max_val() == ZERO_BITS,
    {
        InputVariable { name, values, max_val: ZERO_BITS, min_val: ZERO_BITS }
    }

    /// A variable with declared bounds.
    pub fn new_with_bounds(name: String, values: Vec<u64>, min_val: u64, max_val: u64) -> (r: Self)
        requires
            values@.len() >= 1,
        ensures
            r.spec_name() == name@,
            r.spec_values() == values@,
            r.spec_min_val() == min_val,
            r.spec_max_val() == max_val,
    {
        InputVariable { name, values, max_val, min_val }
    }

    /// The name.
    pub fn name(&self) -> (r: &String)
        ensures
            r@ == self.spec_name(),
    {
        &self.name
    }

    /// The values.
    pub fn values(&self) -> (r: &Vec<u64>)
        ensures
            r@ == self.spec_values(),
    {
        &self.values
    }
}

impl Clone for InputVariable {
    /// Cloning keeps every part of the variable.
    fn clone(&self) -> (r: Self)
        ensures
            r.spec_name() == self.spec_name(),
            r.spec_values() == self.spec_values(),
            r.spec_min_val() == self.spec_min_val(),
            r.spec_max_val() == self.spec_max_val(),
    {
        InputVariable {
            name: self.name.clone(),
            max_val: self.max_val,
            min_val: self.min_val,
            values: copy_bits_vec(&self.values),
        }
    }
}

/// Whether some variable in the list carries the name.
pub open spec fn contains_var(s: Seq<InputVariable>, k: Seq<char>) -> bool {
    exists|i: int| 0 <= i < s.len() && (#[trigger] s[i]).spec_name() == k
}

/// Every entry of `s` reproduces some entry of `vars` at index `lo`
/// or later.
pub open spec fn sourced_from(s: Seq<InputVariable>, vars: Seq<InputVariable>, lo: int) -> bool {
    forall|a: int|
        0 <= a < s.len() ==> exists|j: int|
            lo <= j < vars.len() && (#[trigger] s[a]).spec_name() == vars[j].spec_name() && s[
                a
            ].spec_values() == vars[j].spec_values() && s[a].spec_min_val() == vars[
                j
            ].spec_min_val() && s[a].spec_max_val() == vars[j].spec_max_val()
}

/// The set of input variables of one company.
#[derive(Debug)]
pub struct Input {
    vars: Vec<InputVariable>,
}

impl Input {
    /// The variables, in storage order.
    pub closed spec fn spec_vars(self) -> Seq<InputVariable> {
        self.vars@
    }

    /// Well-formed: names are unique and every vector is non-empty.
    pub open spec fn wf(self) -> bool {
        &&& forall|i: int, j: int|
            0 <= i < j < self.spec_vars().len() ==> (#[trigger] self.spec_vars()[i]).spec_name()
                != (#[trigger] self.spec_vars()[j]).spec_name()
        &&& forall|i: int|
            0 <= i < self.spec_vars().len() ==> (#[trigger] self.spec_vars()[i]).spec_values().len()
                >= 1
    }

    /// Whether the input carries a variable of this name.
    pub open spec fn spec_has(self, k: Seq<char>) -> bool {
        contains_var(self.spec_vars(), k)
    }

    /// Collects parsed variables; of entries sharing a name the last
    /// one is kept, as in a map built by repeated insertion.
    #[verifier::loop_isolation(false)]
    pub fn from_vars(vars: Vec<InputVariable>) -> (r: Self)
        requires
            forall|i: int| 0 <= i < vars@.len() ==> (#[trigger] vars@[i]).spec_values().len() >= 1,
        ensures
            r.wf(),
            forall|k: Seq<char>| #[trigger] r.spec_has(k) <==> contains_var(vars@, k),
            sourced_from(r.spec_vars(), vars@, 0),
    {
        let mut out: Vec<InputVariable> = Vec::new();
        let mut i: usize = vars.len();
        while i > 0
            invariant
                i <= vars@.len(),
                forall|a: int, b: int|
                    0 <= a < b < out@.len() ==> (#[trigger] out@[a]).spec_name() != (
                    #[trigger] out@[b]).spec_name(),
                sourced_from(out@, vars@, i as int),
                forall|k: Seq<char>| #[trigger]
                    contains_var(out@, k) <==> contains_var(vars@.skip(i as int), k),
                forall|a: int| 0 <= a < vars@.len() ==> (#[trigger] vars@[a]).spec_values().len() >= 1,
            decreases i,
        {
            i -= 1;
            let mut present = false;
            let mut j: usize = 0;
            while j < out.len()
                invariant
                    j <= out@.len(),
                    i < vars@.len(),
                    present == exists|a: int|
                        0 <= a < j && (#[trigger] out@[a]).spec_name() == vars@[i as int].spec_name(),
                decreases out@.len() - j,
            {
                if str_eq(out[j].name().as_str(), vars[i].name().as_str()) {
                    proof {
                        assert((out@[j as int]).spec_name() == vars@[i as int].spec_name());
                    }
                    present = true;
                }
                j += 1;
            }
            let ghost out0 = out@;
            if !present {
                out.push(vars[i].clone());
                proof {
                    assert((out@[out@.len() - 1]).spec_name() == vars@[i as int].spec_name());
                }
            }
            proof {
                let ghost tail = vars@.skip(i as int);
                assert(tail[0] == vars@[i as int]);
                assert(tail.drop_first() =~= vars@.skip(i + 1));
                assert(sourced_from(out@, vars@, i as int)) by {
                    assert forall|a: int|
                        0 <= a < out@.len() implies exists|j: int|
                            i <= j < vars@.len() && (#[trigger] out@[a]).spec_name()
                                == vars@[j].spec_name() && out@[a].spec_values()
                                == vars@[j].spec_values() && out@[a].spec_min_val()
                                == vars@[j].spec_min_val() && out@[a].spec_max_val()
                                == vars@[j].spec_max_val() by {
                        if a < out0.len() {
                            assert(out@[a] == out0[a]);
                            assert(sourced_from(out0, vars@, i + 1));
                            let j = choose|j: int|
                                i + 1 <= j < vars@.len() && (out0[a]).spec_name()
                                    == vars@[j].spec_name() && (out0[a]).spec_values()
                                    == vars@[j].spec_values() && (out0[a]).spec_min_val()
                                    == vars@[j].spec_min_val() && (out0[a]).spec_max_val()
                                    == vars@[j].spec_max_val();
                            assert(i <= j < vars@.len() && (out@[a]).spec_name()
                                == vars@[j].spec_name() && (out@[a]).spec_values()
                                == vars@[j].spec_values() && (out@[a]).spec_min_val()
                                == vars@[j].spec_min_val() && (out@[a]).spec_max_val()
                                == vars@[j].spec_max_val());
                        } else {
                            assert(out@[a] == out@[out@.len() - 1]);
                            assert((out@[a]).spec_name() == vars@[i as int].spec_name()
                                && (out@[a]).spec_values() == vars@[i as int].spec_values()
                                && (out@[a]).spec_min_val() == vars@[i as int].spec_min_val()
                                && (out@[a]).spec_max_val() == vars@[i as int].spec_max_val());
                        }
                    }
                }
                assert forall|k: Seq<char>| #[trigger] contains_var(out@, k) implies contains_var(
                    tail,
                    k,
                ) by {
                    let a = choose|a: int| 0 <= a < out@.len() && (#[trigger] out@[a]).spec_name()
                        == k;
                    if (out@[a]).spec_name() == vars@[i as int].spec_name() {
                        assert(tail[0].spec_name() == k);
                    } else {
                        assert(a < out0.len());
                        assert(out@[a] == out0[a]);
                        assert(contains_var(out0, k));
                        assert(contains_var(vars@.skip(i + 1), k));
                        let b = choose|b: int|
                            0 <= b < vars@.skip(i + 1).len() && (#[trigger] vars@.skip(
                                i + 1,
                            )[b]).spec_name() == k;
                        assert(tail[b + 1] == vars@.skip(i + 1)[b]);
                    }
                }
                assert forall|k: Seq<char>| contains_var(tail, k) implies #[trigger] contains_var(
                    out@,
                    k,
                ) by {
                    let a = choose|a: int| 0 <= a < tail.len() && (#[trigger] tail[a]).spec_name()
                        == k;
                    if a == 0 {
                        if !present {
                            assert((out@[out@.len() - 1]).spec_name() == k);
                        } else {
                            let b = choose|b: int|
                                0 <= b < out0.len() && (#[trigger] out0[b]).spec_name()
                                    == vars@[i as int].spec_name();
                            assert(out@[b] == out0[b]);
                            assert((out@[b]).spec_name() == k);
                        }
                    } else {
                        assert(vars@.skip(i + 1)[a - 1] == tail[a]);
                        assert(contains_var(vars@.skip(i + 1), k));
                        assert(contains_var(out0, k));
                        let b = choose|b: int| 0 <= b < out0.len() && (#[trigger] out0[b]).spec_name()
                            == k;
                        assert(out@[b] == out0[b]);
                        assert((out@[b]).spec_name() == k);
                    }
                }
            }
        }
        proof {
            assert(vars@.skip(0) =~= vars@);
        }
        let r = Input { vars: out };
        proof {
            assert(r.spec_vars() == out@);
            assert forall|k: Seq<char>| #[trigger] r.spec_has(k) implies contains_var(vars@, k) by {
                assert(contains_var(out@, k));
            }
            assert forall|k: Seq<char>| contains_var(vars@, k) implies #[trigger] r.spec_has(k) by {
                assert(contains_var(out@, k));
            }
            assert(sourced_from(r.spec_vars(), vars@, 0));
        }
        r
    }

    /// Number of variables.
    pub fn size(&self) -> (r: usize)
        ensures
            r == self.spec_vars().len(),
    {
        self.vars.len()
    }

    /// Whether the input carries a variable of this name.
    pub fn has_input_var(&self, id: &str) -> (r: bool)
        ensures
            r == self.spec_has(id@),
    {
        let mut i: usize = 0;
        while i < self.vars.len()
            invariant
                i <= self.spec_vars().len(),
                self.spec_vars().len() == self.vars@.len(),
                forall|j: int| 0 <= j < i ==> (#[trigger] self.spec_vars()[j]).spec_name() != id@,
            decreases self.vars@.len() - i,
        {
            if str_eq(self.vars[i].name().as_str(), id) {
                proof {
                    assert((self.spec_vars()[i as int]).spec_name() == id@);
                }
                return true;
            }
            i += 1;
        }
        false
    }

    /// The variable of this name, if any.
    pub fn get_input_var(&self, id: &str) -> (r: Option<&InputVariable>)
        ensures
            match r {
                Some(v) => self.spec_has(id@) && v.spec_name() == id@ && exists|i: int|
                    0 <= i < self.spec_vars().len() && *v == (#[trigger] self.spec_vars()[i]),
                None => !self.spec_has(id@),
            },
    {
        let mut i: usize = 0;
        while i < self.vars.len()
            invariant
                i <= self.spec_vars().len(),
                self.spec_vars().len() == self.vars@.len(),
                forall|j: int| 0 <= j < i ==> (#[trigger] self.spec_vars()[j]).spec_name() != id@,
            decreases self.vars@.len() - i,
        {
            if str_eq(self.vars[i].name().as_str(), id) {
                proof {
                    assert((self.spec_vars()[i as int]).spec_name() == id@);
                }
                return Some(&self.vars[i]);
            }
            i += 1;
        }
        None
    }
}

impl Default for Input {
    /// The default input holds no variables.
    fn default() -> (r: Self)
        ensures
            r.spec_vars() =~= Seq::<InputVariable>::empty(),
            r.wf(),
    {
        Input { vars: Vec::new() }
    }
}

impl Clone for Input {
    /// Cloning keeps the variables.
    fn clone(&self) -> (r: Self)
        ensures
            r.spec_vars().len() == self.spec_vars().len(),
            forall|i: int|
                0 <= i < self.spec_vars().len() ==> (#[trigger] r.spec_vars()[i]).spec_name()
                    == self.spec_vars()[i].spec_name() && r.spec_vars()[i].spec_values()
                    == self.spec_vars()[i].spec_values() && r.spec_vars()[i].spec_min_val()
                    == self.spec_vars()[i].spec_min_val() && r.spec_vars()[i].spec_max_val()
                    == self.spec_vars()[i].spec_max_val(),
            self.wf() ==> r.wf(),
    {
        let mut out: Vec<InputVariable> = Vec::new();
        let mut i: usize = 0;
        while i < self.vars.len()
            invariant
                i <= self.vars@.len(),
                out@.len() == i,
                forall|j: int|
                    0 <= j < i ==> (#[trigger] out@[j]).spec_name() == self.vars@[j].spec_name()
                        && out@[j].spec_values() == self.vars@[j].spec_values()
                        && out@[j].spec_min_val() == self.vars@[j].spec_min_val()
                        && out@[j].spec_max_val() == self.vars@[j].spec_max_val(),
            decreases self.vars@.len() - i,
        {
            let v = self.vars[i].clone();
            out.push(v);
            i += 1;
        }
        Input { vars: out }
    }
}

} // verus!
