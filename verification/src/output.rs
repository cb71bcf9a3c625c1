//! Results for companies to do comparisons on.
//!
//! An `OutputVariable` carries one KPI's raw per-company result and
//! the six cross-company statistics; an `Output` maps KPI names to
//! output variables.

use crate::strutil::{copy_bits_vec, str_eq};
use vstd::prelude::*;

verus! {

/// One KPI result with its cross-company statistics.
#[derive(Debug)]
pub struct OutputVariable {
    /// Name of variable.
    name: String,
    /// Company result for the variable.
    result: Vec<u64>,
    /// Best in class.
    best_in_class: Vec<u64>,
    /// Worst in class.
    worst_in_class: Vec<u64>,
    /// Average among all.
    average: Vec<u64>,
    /// Median of all.
    median: Vec<u64>,
    /// Lower quantile.
    lower_quantile: Vec<u64>,
    /// Upper quantile.
    upper_quantile: Vec<u64>,
}

impl OutputVariable {
    /// The name, as a sequence of characters.
    pub closed spec fn spec_name(self) -> Seq<char> {
        self.name@
    }

    /// The raw result.
    pub closed spec fn spec_result(self) -> Seq<u64> {
        self.result@
    }

    /// The best result in the population.
    pub closed spec fn spec_best_in_class(self) -> Seq<u64> {
        self.best_in_class@
    }

    /// The worst result in the population.
    pub closed spec fn spec_worst_in_class(self) -> Seq<u64> {
        self.worst_in_class@
    }

    /// The population mean.
    pub closed spec fn spec_average(self) -> Seq<u64> {
        self.average@
    }

    /// The population median.
    pub closed spec fn spec_median(self) -> Seq<u64> {
        self.median@
    }

    /// The lower quartile.
    pub closed spec fn spec_lower_quantile(self) -> Seq<u64> {
        self.lower_quantile@
    }

    /// The upper quartile.
    pub closed spec fn spec_upper_quantile(self) -> Seq<u64> {
        self.upper_quantile@
    }

    /// Create a full variable with all statistical information.
    pub fn new(
        name: String,
        result: Vec<u64>,
        best_in_class: Vec<u64>,
        worst_in_class: Vec<u64>,
        average: Vec<u64>,
        median: Vec<u64>,
        lower_quantile: Vec<u64>,
        upper_quantile: Vec<u64>,
    ) -> (r: Self)
        ensures
            r.spec_name() == name@,
            r.spec_result() == result@,
            r.spec_best_in_class() == best_in_class@,
            r.spec_worst_in_class() == worst_in_class@,
            r.spec_average() == average@,
            r.spec_median() == median@,
            r.spec_lower_quantile() == lower_quantile@,
            r.spec_upper_quantile() == upper_quantile@,
    {
        OutputVariable {
            name,
            result,
            average,
            best_in_class,
            lower_quantile,
            median,
            upper_quantile,
            worst_in_class,
        }
    }

    /// Create only the name and the raw result, without statistics.
    pub fn new_result_only(name: String, result: Vec<u64>) -> (r: Self)
        ensures
            r.spec_name() == name@,
            r.spec_result() == result@,
            r.spec_best_in_class() == Seq::<u64>::empty(),
            r.spec_worst_in_class() == Seq::<u64>::empty(),
            r.spec_average() == Seq::<u64>::empty(),
            r.spec_median() == Seq::<u64>::empty(),
            r.spec_lower_quantile() == Seq::<u64>::empty(),
            r.spec_upper_quantile() == Seq::<u64>::empty(),
    {
        let r = OutputVariable {
            name,
            result,
            average: Vec::new(),
            best_in_class: Vec::new(),
            lower_quantile: Vec::new(),
            median: Vec::new(),
            upper_quantile: Vec::new(),
            worst_in_class: Vec::new(),
        };
        proof {
            assert(r.spec_average() =~= Seq::<u64>::empty());
            assert(r.spec_best_in_class() =~= Seq::<u64>::empty());
            assert(r.spec_lower_quantile() =~= Seq::<u64>::empty());
            assert(r.spec_median() =~= Seq::<u64>::empty());
            assert(r.spec_upper_quantile() =~= Seq::<u64>::empty());
            assert(r.spec_worst_in_class() =~= Seq::<u64>::empty());
        }
        r
    }

    /// Combine a raw result with the statistics computed for its KPI.
    pub fn new_result_with_statistics(result: &Self, statistics: &Self) -> (r: Self)
        ensures
            r.spec_name() == result.spec_name(),
            r.spec_result() == result.spec_result(),
            r.spec_best_in_class() == statistics.spec_best_in_class(),
            r.spec_worst_in_class() == statistics.spec_worst_in_class(),
            r.spec_average() == statistics.spec_average(),
            r.spec_median() == statistics.spec_median(),
            r.spec_lower_quantile() == statistics.spec_lower_quantile(),
            r.spec_upper_quantile() == statistics.spec_upper_quantile(),
    {
        OutputVariable {
            best_in_class: copy_bits_vec(&statistics.best_in_class),
            worst_in_class: copy_bits_vec(&statistics.worst_in_class),
            average: copy_bits_vec(&statistics.average),
            median: copy_bits_vec(&statistics.median),
            lower_quantile: copy_bits_vec(&statistics.lower_quantile),
            upper_quantile: copy_bits_vec(&statistics.upper_quantile),
            name: result.name.clone(),
            result: copy_bits_vec(&result.result),
        }
    }

    /// The name.
    pub fn name(&self) -> (r: &String)
        ensures
            r@ == self.spec_name(),
    {
        &self.name
    }

    /// The raw result.
    pub fn result(&self) -> (r: &Vec<u64>)
        ensures
            r@ == self.spec_result(),
    {
        &self.result
    }

    /// The best result in the population.
    pub fn best_in_class(&self) -> (r: &Vec<u64>)
        ensures
            r@ == self.spec_best_in_class(),
    {
        &self.best_in_class
    }

    /// The worst result in the population.
    pub fn worst_in_class(&self) -> (r: &Vec<u64>)
        ensures
            r@ == self.spec_worst_in_class(),
    {
        &self.worst_in_class
    }

    /// The population mean.
    pub fn average(&self) -> (r: &Vec<u64>)
        ensures
            r@ == self.spec_average(),
    {
        &self.average
    }

    /// The population median.
    pub fn median(&self) -> (r: &Vec<u64>)
        ensures
            r@ == self.spec_median(),
    {
        &self.median
    }

    /// The lower quartile.
    pub fn lower_quantile(&self) -> (r: &Vec<u64>)
        ensures
            r@ == self.spec_lower_quantile(),
    {
        &self.lower_quantile
    }

    /// The upper quartile.
    pub fn upper_quantile(&self) -> (r: &Vec<u64>)
        ensures
            r@ == self.spec_upper_quantile(),
    {
        &self.upper_quantile
    }
}

impl Clone for OutputVariable {
    /// Cloning keeps every part of the variable.
    fn clone(&self) -> (r: Self)
        ensures
            r.spec_name() == self.spec_name(),
            r.spec_result() == self.spec_result(),
            r.spec_best_in_class() == self.spec_best_in_class(),
            r.spec_worst_in_class() == self.spec_worst_in_class(),
            r.spec_average() == self.spec_average(),
            r.spec_median() == self.spec_median(),
            r.spec_lower_quantile() == self.spec_lower_quantile(),
            r.spec_upper_quantile() == self.spec_upper_quantile(),
    {
        OutputVariable {
            name: self.name.clone(),
            result: copy_bits_vec(&self.result),
            best_in_class: copy_bits_vec(&self.best_in_class),
            worst_in_class: copy_bits_vec(&self.worst_in_class),
            average: copy_bits_vec(&self.average),
            median: copy_bits_vec(&self.median),
            lower_quantile: copy_bits_vec(&self.lower_quantile),
            upper_quantile: copy_bits_vec(&self.upper_quantile),
        }
    }
}

impl Default for OutputVariable {
    /// The default output variable is nameless and empty.
    fn default() -> (r: Self)
        ensures
            r.spec_name() == Seq::<char>::empty(),
            r.spec_result() == Seq::<u64>::empty(),
            r.spec_best_in_class() == Seq::<u64>::empty(),
            r.spec_worst_in_class() == Seq::<u64>::empty(),
            r.spec_average() == Seq::<u64>::empty(),
            r.spec_median() == Seq::<u64>::empty(),
            r.spec_lower_quantile() == Seq::<u64>::empty(),
            r.spec_upper_quantile() == Seq::<u64>::empty(),
    {
        let r = OutputVariable {
            name: String::new(),
            result: Vec::new(),
            average: Vec::new(),
            best_in_class: Vec::new(),
            lower_quantile: Vec::new(),
            median: Vec::new(),
            upper_quantile: Vec::new(),
            worst_in_class: Vec::new(),
        };
        proof {
            assert(r.spec_result() =~= Seq::<u64>::empty());
            assert(r.spec_average() =~= Seq::<u64>::empty());
            assert(r.spec_best_in_class() =~= Seq::<u64>::empty());
            assert(r.spec_lower_quantile() =~= Seq::<u64>::empty());
            assert(r.spec_median() =~= Seq::<u64>::empty());
            assert(r.spec_upper_quantile() =~= Seq::<u64>::empty());
            assert(r.spec_worst_in_class() =~= Seq::<u64>::empty());
        }
        r
    }
}

/// Whether some output variable in the list carries the name.
pub open spec fn contains_out(s: Seq<OutputVariable>, k: Seq<char>) -> bool {
    exists|i: int| 0 <= i < s.len() && (#[trigger] s[i]).spec_name() == k
}

/// The outputs of one company, keyed by KPI name.
#[derive(Debug)]
pub struct Output {
    vars: Vec<OutputVariable>,
}

impl Output {
    /// The output variables, in storage order.
    pub closed spec fn spec_vars(self) -> Seq<OutputVariable> {
        self.vars@
    }

    /// Well-formed: names are unique.
    pub open spec fn wf(self) -> bool {
        forall|i: int, j: int|
            0 <= i < j < self.spec_vars().len() ==> (#[trigger] self.spec_vars()[i]).spec_name()
                != (#[trigger] self.spec_vars()[j]).spec_name()
    }

    /// Whether an output of this name is present.
    pub open spec fn spec_has(self, k: Seq<char>) -> bool {
        contains_out(self.spec_vars(), k)
    }

    /// Wraps a list of output variables with unique names.
    pub fn from_output_vars(results: Vec<OutputVariable>) -> (r: Self)
        requires
            forall|i: int, j: int|
                0 <= i < j < results@.len() ==> (#[trigger] results@[i]).spec_name() != (
                #[trigger] results@[j]).spec_name(),
        ensures
            r.spec_vars() == results@,
            r.wf(),
    {
        Output { vars: results }
    }

    /// An output with no variables.
    pub fn new_empty() -> (r: Self)
        ensures
            r.spec_vars() =~= Seq::<OutputVariable>::empty(),
            r.wf(),
    {
        Output { vars: Vec::new() }
    }

    /// Inserts an output variable under its name; an existing entry
    /// of that name is replaced.
    #[verifier::loop_isolation(false)]
    pub fn add_var(&mut self, outvar: OutputVariable)
        ensures
            if old(self).spec_has(outvar.spec_name()) {
                exists|i: int|
                    0 <= i < old(self).spec_vars().len() && (#[trigger] old(
                        self,
                    ).spec_vars()[i]).spec_name() == outvar.spec_name() && final(self).spec_vars()
                        == old(self).spec_vars().update(i, outvar)
            } else {
                final(self).spec_vars() == old(self).spec_vars().push(outvar)
            },
            old(self).wf() ==> final(self).wf(),
    {
        let ghost before = self.vars@;
        let mut i: usize = 0;
        while i < self.vars.len()
            invariant
                i <= self.vars@.len(),
                before == self.vars@,
                forall|j: int| 0 <= j < i ==> (#[trigger] before[j]).spec_name() != outvar.spec_name(),
            decreases self.vars@.len() - i,
        {
            if str_eq(self.vars[i].name().as_str(), outvar.name().as_str()) {
                proof {
                    assert((before[i as int]).spec_name() == outvar.spec_name());
                }
                self.vars.remove(i);
                self.vars.insert(i, outvar);
                proof {
                    assert(before == old(self).spec_vars());
                    assert(self.vars@ =~= before.update(i as int, outvar));
                    if old(self).wf() {
                        assert forall|a: int, b: int|
                            0 <= a < b < self.vars@.len() implies (
                        #[trigger] self.vars@[a]).spec_name() != (
                        #[trigger] self.vars@[b]).spec_name() by {
                            assert((old(self).spec_vars()[a]).spec_name() != (old(
                                self,
                            ).spec_vars()[b]).spec_name());
                            assert((self.vars@[a]).spec_name() == (before[a]).spec_name());
                            assert((self.vars@[b]).spec_name() == (before[b]).spec_name());
                        }
                    }
                }
                return ;
            }
            i += 1;
        }
        self.vars.push(outvar);
        proof {
            assert(before == old(self).spec_vars());
            if old(self).wf() {
                assert forall|a: int, b: int|
                    0 <= a < b < self.vars@.len() implies (#[trigger] self.vars@[a]).spec_name()
                    != (#[trigger] self.vars@[b]).spec_name() by {
                    if b == self.vars@.len() - 1 {
                        assert(self.vars@[a] == before[a]);
                        assert(self.vars@[b] == outvar);
                        assert((before[a]).spec_name() != outvar.spec_name());
                    } else {
                        assert(self.vars@[a] == before[a]);
                        assert(self.vars@[b] == before[b]);
                        assert((old(self).spec_vars()[a]).spec_name() != (old(
                            self,
                        ).spec_vars()[b]).spec_name());
                    }
                }
            }
        }
    }

    /// The raw result stored under a KPI name, if any.
    pub fn get_result_from_var(&self, var_name: &str) -> (r: Option<&Vec<u64>>)
        ensures
            match r {
                Some(v) => exists|i: int|
                    0 <= i < self.spec_vars().len() && (#[trigger] self.spec_vars()[i]).spec_name()
                        == var_name@ && v@ == self.spec_vars()[i].spec_result(),
                None => !self.spec_has(var_name@),
            },
    {
        let mut i: usize = 0;
        while i < self.vars.len()
            invariant
                i <= self.vars@.len(),
                forall|j: int|
                    0 <= j < i ==> (#[trigger] self.spec_vars()[j]).spec_name() != var_name@,
            decreases self.vars@.len() - i,
        {
            if str_eq(self.vars[i].name().as_str(), var_name) {
                proof {
                    assert((self.spec_vars()[i as int]).spec_name() == var_name@);
                }
                return Some(self.vars[i].result());
            }
            i += 1;
        }
        None
    }

    /// Read access to the output variables.
    pub fn vars(&self) -> (r: &Vec<OutputVariable>)
        ensures
            r@ == self.spec_vars(),
    {
        &self.vars
    }

    /// Number of variables.
    pub fn size(&self) -> (r: usize)
        ensures
            r == self.spec_vars().len(),
    {
        self.vars.len()
    }
}

impl Default for Output {
    /// The default output holds no variables.
    fn default() -> (r: Self)
        ensures
            r.spec_vars() =~= Seq::<OutputVariable>::empty(),
            r.wf(),
    {
        Output { vars: Vec::new() }
    }
}

impl Clone for Output {
    /// Cloning keeps the variables' contents.
    fn clone(&self) -> (r: Self)
        ensures
            r.spec_vars().len() == self.spec_vars().len(),
            forall|i: int|
                0 <= i < self.spec_vars().len() ==> (#[trigger] r.spec_vars()[i]).spec_name()
                    == self.spec_vars()[i].spec_name() && r.spec_vars()[i].spec_result()
                    == self.spec_vars()[i].spec_result(),
            self.wf() ==> r.wf(),
    {
        let mut out: Vec<OutputVariable> = Vec::new();
        let mut i: usize = 0;
        while i < self.vars.len()
            invariant
                i <= self.vars@.len(),
                out@.len() == i,
                forall|j: int|
                    0 <= j < i ==> (#[trigger] out@[j]).spec_name() == self.vars@[j].spec_name()
                        && out@[j].spec_result() == self.vars@[j].spec_result(),
            decreases self.vars@.len() - i,
        {
            let v = self.vars[i].clone();
            out.push(v);
            i += 1;
        }
        Output { vars: out }
    }
}

} // verus!
