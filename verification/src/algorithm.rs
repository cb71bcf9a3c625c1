//! The analyst's algorithm: a list of atomic operations forming a
//! directed acyclic dependency graph.
//!
//! Loading parses nothing itself: it takes the atomic list, rejects
//! empty lists and duplicate names, synthesises a required-input
//! placeholder for every dependency that is not itself an atomic,
//! orders the list topologically by depth-first finish time, rejects
//! cycles, and removes the placeholders from the execution list.
//!
//! `run` evaluates the ordered list against one company's inputs;
//! `aggregate_atomic_var` combines one KPI's results across
//! companies.

use crate::atomic::{Atomic, CalcCheck};
use crate::entity::Company;
use crate::error::BenchmarkingError;
use crate::input::Input;
use crate::operation::{kernel_total, Prim};
use crate::output::{Output, OutputVariable};
use crate::resolved::{
    entry_keys_distinct, filtered_entries, lemma_filtered_entries_distinct, seq_contains_key,
    ResolvedValues,
};
use crate::stats::{
    avg2, avg2_rel, lemma_ssort_elems, mean_rel, mean_rows, row_sourced, row_views, rows_has_inf,
    rows_have_infinite, rows_uniform, sort_rows, ssort,
};
use crate::strutil::{copy_bits_vec, str_eq};
use crate::variable::Variable;
use vstd::prelude::*;

verus! {

/// The names of a list of atomics, in order.
pub open spec fn names_of(s: Seq<Atomic>) -> Seq<Seq<char>> {
    s.map_values(|a: Atomic| a.spec_name())
}

/// No two atomics in the list share a name.
pub open spec fn atomic_names_distinct(s: Seq<Atomic>) -> bool {
    forall|i: int, j: int|
        0 <= i < j < s.len() ==> (#[trigger] s[i]).spec_name() != (#[trigger] s[j]).spec_name()
}

/// Some atomic in the list carries the name.
pub open spec fn has_atomic_name(s: Seq<Atomic>, k: Seq<char>) -> bool {
    exists|i: int| 0 <= i < s.len() && (#[trigger] s[i]).spec_name() == k
}

/// Two atomics agree in every observable part.
pub open spec fn atomic_matches(a: Atomic, b: Atomic) -> bool {
    &&& a.spec_name() == b.spec_name()
    &&& a.spec_is_kpi() == b.spec_is_kpi()
    &&& a.spec_op() == b.spec_op()
    &&& a.spec_deps() == b.spec_deps()
    &&& a.spec_constant() == b.spec_constant()
}

/// The KPI-flagged atomics of a list, in declared order.
pub open spec fn kpi_filter(s: Seq<Atomic>) -> Seq<Atomic>
    decreases s.len(),
{
    if s.len() == 0 {
        Seq::empty()
    } else {
        let r = kpi_filter(s.drop_last());
        if s.last().spec_is_kpi() {
            r.push(s.last())
        } else {
            r
        }
    }
}

/// The names of the non-KPI atomics of a list, in declared order.
pub open spec fn nonkpi_names(s: Seq<Atomic>) -> Seq<Seq<char>>
    decreases s.len(),
{
    if s.len() == 0 {
        Seq::empty()
    } else {
        let r = nonkpi_names(s.drop_last());
        if s.last().spec_is_kpi() {
            r
        } else {
            r.push(s.last().spec_name())
        }
    }
}

/// The KPI list is consistent with the execution list and the name
/// sets: every KPI atomic is flagged, is an execution-list atomic,
/// and its name is neither a non-KPI nor a required name.
pub open spec fn kpis_consistent(
    kpis: Seq<Atomic>,
    ops: Seq<Atomic>,
    nk: Seq<Seq<char>>,
    req: Seq<Seq<char>>,
) -> bool {
    forall|i: int|
        0 <= i < kpis.len() ==> (#[trigger] kpis[i]).spec_is_kpi() && has_atomic_name(
            ops,
            kpis[i].spec_name(),
        ) && !nk.contains(kpis[i].spec_name()) && !req.contains(kpis[i].spec_name())
}

/// The flags of the execution list are consistent with the name
/// sets: a non-KPI atomic's name is a non-KPI name, and a KPI
/// atomic's name appears in the KPI list.
pub open spec fn ops_flags_consistent(
    ops: Seq<Atomic>,
    kpis: Seq<Atomic>,
    nk: Seq<Seq<char>>,
) -> bool {
    forall|j: int|
        0 <= j < ops.len() ==> (!(#[trigger] ops[j]).spec_is_kpi() ==> nk.contains(
            ops[j].spec_name(),
        )) && (ops[j].spec_is_kpi() ==> exists|i: int|
            0 <= i < kpis.len() && (#[trigger] kpis[i]).spec_name() == ops[j].spec_name())
}

/// The non-KPI names of a list are exactly the names of its non-KPI
/// atomics.
pub proof fn lemma_nonkpi_names_complete(s: Seq<Atomic>)
    ensures
        forall|t: int|
            0 <= t < s.len() && !(#[trigger] s[t]).spec_is_kpi() ==> nonkpi_names(s).contains(
                s[t].spec_name(),
            ),
        forall|a: int|
            0 <= a < nonkpi_names(s).len() ==> exists|t: int|
                0 <= t < s.len() && !(#[trigger] s[t]).spec_is_kpi() && s[t].spec_name()
                    == #[trigger] nonkpi_names(s)[a],
    decreases s.len(),
{
    if s.len() > 0 {
        lemma_nonkpi_names_complete(s.drop_last());
        let r = nonkpi_names(s.drop_last());
        assert forall|t: int|
            0 <= t < s.len() && !(#[trigger] s[t]).spec_is_kpi() implies nonkpi_names(s).contains(
            s[t].spec_name(),
        ) by {
            if t < s.len() - 1 {
                assert(s.drop_last()[t] == s[t]);
                assert(r.contains(s[t].spec_name()));
                let a = choose|a: int| 0 <= a < r.len() && r[a] == s[t].spec_name();
                assert(nonkpi_names(s)[a] == s[t].spec_name());
            } else {
                assert(s.last() == s[t]);
                assert(nonkpi_names(s)[nonkpi_names(s).len() - 1] == s[t].spec_name());
            }
        }
        assert forall|a: int|
            0 <= a < nonkpi_names(s).len() implies exists|t: int|
                0 <= t < s.len() && !(#[trigger] s[t]).spec_is_kpi() && s[t].spec_name()
                    == #[trigger] nonkpi_names(s)[a] by {
            if a < r.len() {
                assert(nonkpi_names(s)[a] == r[a]);
                let t = choose|t: int|
                    0 <= t < s.drop_last().len() && !(#[trigger] s.drop_last()[t]).spec_is_kpi()
                        && s.drop_last()[t].spec_name() == r[a];
                assert(s.drop_last()[t] == s[t]);
            } else {
                assert(nonkpi_names(s)[a] == s.last().spec_name());
                assert(s.last() == s[s.len() - 1]);
            }
        }
    }
}

/// The atomic is one of the list's KPI-flagged atomics.
pub open spec fn kpi_sourced(x: Atomic, s: Seq<Atomic>) -> bool {
    exists|t: int| 0 <= t < s.len() && x == #[trigger] s[t] && s[t].spec_is_kpi()
}

/// The KPI filter of a list holds exactly its KPI-flagged atomics.
pub proof fn lemma_kpi_filter_complete(s: Seq<Atomic>)
    ensures
        forall|t: int|
            0 <= t < s.len() && (#[trigger] s[t]).spec_is_kpi() ==> exists|i: int|
                0 <= i < kpi_filter(s).len() && #[trigger] kpi_filter(s)[i] == s[t],
        forall|i: int|
            0 <= i < kpi_filter(s).len() ==> #[trigger] kpi_sourced(kpi_filter(s)[i], s),
    decreases s.len(),
{
    if s.len() > 0 {
        lemma_kpi_filter_complete(s.drop_last());
        let r = kpi_filter(s.drop_last());
        assert forall|t: int|
            0 <= t < s.len() && (#[trigger] s[t]).spec_is_kpi() implies exists|i: int|
                0 <= i < kpi_filter(s).len() && #[trigger] kpi_filter(s)[i] == s[t] by {
            if t < s.len() - 1 {
                assert(s.drop_last()[t] == s[t]);
                let i = choose|i: int| 0 <= i < r.len() && #[trigger] r[i] == s.drop_last()[t];
                assert(kpi_filter(s)[i] == s[t]);
            } else {
                assert(s.last() == s[t]);
                assert(kpi_filter(s)[kpi_filter(s).len() - 1] == s[t]);
            }
        }
        assert forall|i: int|
            0 <= i < kpi_filter(s).len() implies #[trigger] kpi_sourced(kpi_filter(s)[i], s) by {
            if i < r.len() {
                assert(kpi_filter(s)[i] == r[i]);
                assert(kpi_sourced(r[i], s.drop_last()));
                let t = choose|t: int|
                    0 <= t < s.drop_last().len() && r[i] == #[trigger] s.drop_last()[t]
                        && s.drop_last()[t].spec_is_kpi();
                assert(s.drop_last()[t] == s[t]);
                assert(kpi_filter(s)[i] == s[t] && s[t].spec_is_kpi());
            } else {
                assert(s.last().spec_is_kpi());
                assert(kpi_filter(s)[i] == s.last());
                assert(s.last() == s[s.len() - 1]);
                assert(kpi_filter(s)[i] == s[s.len() - 1] && s[s.len() - 1].spec_is_kpi());
            }
        }
    }
}

/// There is a dependency edge from index `a` to index `b`: the atomic
/// at `b` is named as a dependency of the atomic at `a`.
pub open spec fn dep_edge(s: Seq<Atomic>, a: int, b: int) -> bool {
    &&& 0 <= a < s.len()
    &&& 0 <= b < s.len()
    &&& s[a].spec_deps().contains(s[b].spec_name())
}

/// `p` is a walk along dependency edges.
pub open spec fn is_dep_path(s: Seq<Atomic>, p: Seq<int>) -> bool {
    &&& p.len() >= 1
    &&& forall|t: int| 0 <= t < p.len() ==> 0 <= #[trigger] p[t] < s.len()
    &&& forall|t: int| 0 <= t < p.len() - 1 ==> dep_edge(s, #[trigger] p[t], p[t + 1])
}

/// Some dependency walk returns to its starting atomic.
pub open spec fn has_cycle(s: Seq<Atomic>) -> bool {
    exists|p: Seq<int>| #[trigger] is_dep_path(s, p) && p.len() >= 2 && p[0] == p.last()
}

/// The name is demanded as a dependency but not declared as an
/// atomic: it must come from company inputs.
pub open spec fn is_required_name(s: Seq<Atomic>, k: Seq<char>) -> bool {
    &&& !has_atomic_name(s, k)
    &&& exists|i: int| 0 <= i < s.len() && (#[trigger] s[i]).spec_deps().contains(k)
}

/// Every dependency of every atomic is declared earlier in the list
/// or is a required-input name.
pub open spec fn deps_topo_sorted(ops: Seq<Atomic>, required: Seq<Seq<char>>) -> bool {
    forall|i: int, d: int|
        0 <= i < ops.len() && 0 <= d < (#[trigger] ops[i]).spec_deps().len() ==> (exists|j: int|
            0 <= j < i && (#[trigger] ops[j]).spec_name() == ops[i].spec_deps()[d])
            || required.contains(#[trigger] ops[i].spec_deps()[d])
}

/// The names missing from an input, in required-list order.
pub open spec fn missing_names(required: Seq<Seq<char>>, input: Input) -> Seq<Seq<char>>
    decreases required.len(),
{
    if required.len() == 0 {
        Seq::empty()
    } else {
        let r = missing_names(required.drop_last(), input);
        if input.spec_has(required.last()) {
            r
        } else {
            r.push(required.last())
        }
    }
}

/// Structure that holds all atomic operations of the compiled
/// program: the topologically ordered execution list, the
/// required-input names, the KPI atomics and the non-KPI names.
#[derive(Debug)]
pub struct Algorithm {
    /// Execution list: every declared atomic, ordered so that
    /// dependencies come first; required-input placeholders removed.
    operations: Vec<Atomic>,
    /// Names of the synthesised required inputs.
    required: Vec<String>,
    /// The KPI atomics, in declared order.
    kpis: Vec<Atomic>,
    /// Names of everything that is not a KPI, required inputs
    /// included.
    non_kpis: Vec<String>,
}

impl Algorithm {
    /// The execution list.
    pub closed spec fn spec_operations(self) -> Seq<Atomic> {
        self.operations@
    }

    /// The required-input names.
    pub closed spec fn spec_required(self) -> Seq<Seq<char>> {
        self.required@.map_values(|s: String| s@)
    }

    /// The KPI atomics.
    pub closed spec fn spec_kpis(self) -> Seq<Atomic> {
        self.kpis@
    }

    /// The non-KPI names.
    pub closed spec fn spec_non_kpis(self) -> Seq<Seq<char>> {
        self.non_kpis@.map_values(|s: String| s@)
    }

    /// What loading guarantees of every algorithm it returns.
    pub open spec fn wf(self) -> bool {
        &&& atomic_names_distinct(self.spec_operations())
        &&& deps_topo_sorted(self.spec_operations(), self.spec_required())
        &&& forall|k: Seq<char>|
            self.spec_required().contains(k) ==> !has_atomic_name(self.spec_operations(), k)
        &&& forall|i: int, j: int|
            0 <= i < j < self.spec_required().len() ==> self.spec_required()[i]
                != self.spec_required()[j]
        &&& kpis_consistent(
            self.spec_kpis(),
            self.spec_operations(),
            self.spec_non_kpis(),
            self.spec_required(),
        )
        &&& ops_flags_consistent(self.spec_operations(), self.spec_kpis(), self.spec_non_kpis())
    }

    /// Returns the number of operations in the execution list.
    pub fn len(&self) -> (r: usize)
        ensures
            r == self.spec_operations().len(),
    {
        self.operations.len()
    }

    /// Return all operations of the execution list.
    pub fn operations(&self) -> (r: &Vec<Atomic>)
        ensures
            r@ == self.spec_operations(),
    {
        &self.operations
    }

    /// Return all KPI atomics.
    pub fn get_kpis(&self) -> (r: &Vec<Atomic>)
        ensures
            r@ == self.spec_kpis(),
    {
        &self.kpis
    }

    /// Return the names of everything that is not a KPI.
    pub fn get_non_kpis(&self) -> (r: &Vec<String>)
        ensures
            r@.len() == self.spec_non_kpis().len(),
            forall|i: int|
                0 <= i < r@.len() ==> (#[trigger] r@[i])@ == self.spec_non_kpis()[i],
    {
        &self.non_kpis
    }

    /// The names of the synthesised required inputs.
    fn required_input_atomics(&self) -> (r: &Vec<String>)
        ensures
            r@.len() == self.spec_required().len(),
            forall|i: int| 0 <= i < r@.len() ==> (#[trigger] r@[i])@ == self.spec_required()[i],
    {
        &self.required
    }

    /// Whether an atomic with this name exists in the execution list.
    fn has_atomic_as_var(&self, id: &str) -> (r: bool)
        ensures
            r == has_atomic_name(self.spec_operations(), id@),
    {
        let mut i: usize = 0;
        while i < self.operations.len()
            invariant
                i <= self.spec_operations().len(),
                self.spec_operations().len() == self.operations@.len(),
                forall|j: int|
                    0 <= j < i ==> (#[trigger] self.spec_operations()[j]).spec_name() != id@,
            decreases self.operations@.len() - i,
        {
            if str_eq(self.operations[i].name(), id) {
                proof {
                    assert((self.spec_operations()[i as int]).spec_name() == id@);
                }
                return true;
            }
            i += 1;
        }
        false
    }

    /// Parses the atomic list into a runnable algorithm: rejects
    /// empty lists, duplicate names and cycles, synthesises a
    /// required-input placeholder for every dependency that is not an
    /// atomic, orders everything topologically, and drops the
    /// placeholders from the execution list.
    #[verifier::loop_isolation(false)]
    #[verifier::rlimit(80)]
    pub fn load(atomics: Vec<Atomic>) -> (r: Result<Algorithm, BenchmarkingError>)
        ensures
            match r {
                Ok(alg) => {
                    &&& atomics@.len() > 0
                    &&& atomic_names_distinct(atomics@)
                    &&& !has_cycle(atomics@)
                    &&& alg.wf()
                    &&& same_names(alg.spec_operations(), atomics@)
                    &&& alg.spec_operations().len() == atomics@.len()
                    &&& all_sourced(alg.spec_operations(), atomics@)
                    &&& required_matches(alg.spec_required(), atomics@)
                    &&& atomics_match(alg.spec_kpis(), kpi_filter(atomics@))
                    &&& non_kpi_matches(alg.spec_non_kpis(), atomics@)
                },
                Err(e) => {
                    ||| (e matches BenchmarkingError::EmptyAlgorithm && atomics@.len() == 0)
                    ||| (e matches BenchmarkingError::DuplicateAtomic(n) && !atomic_names_distinct(
                        atomics@,
                    ) && has_atomic_name(atomics@, n@))
                    ||| (e matches BenchmarkingError::CyclicDependency(n) && on_cycle(atomics@, n@))
                },
            },
            (r is Ok) <==> (atomics@.len() > 0 && atomic_names_distinct(atomics@) && !has_cycle(
                atomics@,
            )),
    {
        let ghost orig = atomics@;
        if atomics.len() == 0 {
            return Err(BenchmarkingError::EmptyAlgorithm);
        }
        // Sanity check: operations are unique.
        let n0 = atomics.len();
        let mut i: usize = 0;
        while i < n0
            invariant
                i <= n0,
                n0 == orig.len(),
                orig == atomics@,
                forall|a: int, b: int|
                    0 <= a < b < n0 && a < i ==> (#[trigger] orig[a]).spec_name() != (
                    #[trigger] orig[b]).spec_name(),
            decreases n0 - i,
        {
            let mut j = i + 1;
            while j < n0
                invariant
                    i < j <= n0,
                    forall|b: int|
                        i < b < j ==> (#[trigger] orig[b]).spec_name() != orig[i as int].spec_name(),
                decreases n0 - j,
            {
                if str_eq(atomics[i].name(), atomics[j].name()) {
                    proof {
                        assert(orig[i as int].spec_name() == orig[j as int].spec_name());
                        assert(!atomic_names_distinct(orig));
                        assert(has_atomic_name(orig, orig[j as int].spec_name()));
                    }
                    return Err(
                        BenchmarkingError::DuplicateAtomic(String::from_str(atomics[j].name())),
                    );
                }
                j += 1;
            }
            i += 1;
        }
        proof {
            assert(atomic_names_distinct(orig));
        }
        // Create the KPI list and the non-KPI name set.
        let mut kpis: Vec<Atomic> = Vec::new();
        let mut non_kpis: Vec<String> = Vec::new();
        i = 0;
        while i < n0
            invariant
                i <= n0,
                n0 == orig.len(),
                orig == atomics@,
                atomics_match(kpis@, kpi_filter(orig.take(i as int))),
                non_kpis@.map_values(|s: String| s@) == nonkpi_names(orig.take(i as int)),
            decreases n0 - i,
        {
            proof {
                assert(orig.take(i + 1).drop_last() =~= orig.take(i as int));
                assert(orig.take(i + 1).last() == orig[i as int]);
            }
            if atomics[i].is_kpi() {
                kpis.push(atomics[i].clone());
                proof {
                    assert(atomics_match(kpis@, kpi_filter(orig.take(i + 1)))) by {
                        assert(kpi_filter(orig.take(i + 1)) =~= kpi_filter(orig.take(i as int)).push(
                            orig[i as int],
                        ));
                    }
                }
            } else {
                non_kpis.push(String::from_str(atomics[i].name()));
                proof {
                    assert(non_kpis@.map_values(|s: String| s@) =~= nonkpi_names(orig.take(i + 1)));
                }
            }
            i += 1;
        }
        proof {
            assert(orig.take(n0 as int) =~= orig);
        }
        // Extend the dependency graph with required-input
        // placeholders.
        let mut full = atomics;
        let mut required: Vec<String> = Vec::new();
        let orig_len = n0;
        i = 0;
        while i < orig_len
            invariant
                i <= orig_len,
                orig_len == orig.len(),
                full@.len() >= orig_len,
                full@.take(orig_len as int) == orig,
                atomic_names_distinct(full@),
                required@.len() == full@.len() - orig_len,
                forall|t: int|
                    orig_len <= t < full@.len() ==> (#[trigger] full@[t]).spec_deps().len() == 0
                        && !full@[t].spec_is_kpi() && is_required_name(orig, full@[t].spec_name())
                        && required@[t - orig_len]@ == full@[t].spec_name(),
                non_kpis@.map_values(|s: String| s@) == nonkpi_names(orig) + required@.map_values(
                    |s: String| s@,
                ),
                forall|i2: int, d: int|
                    0 <= i2 < i && 0 <= d < orig[i2].spec_deps().len() ==> has_atomic_name(
                        full@,
                        #[trigger] orig[i2].spec_deps()[d],
                    ),
            decreases orig_len - i,
        {
            let nd = full[i].var_ids().len();
            let mut d: usize = 0;
            while d < nd
                invariant
                    i < orig_len,
                    nd == orig[i as int].spec_deps().len(),
                    full@.len() >= orig_len,
                    full@.take(orig_len as int) == orig,
                    atomic_names_distinct(full@),
                    required@.len() == full@.len() - orig_len,
                    forall|t: int|
                        orig_len <= t < full@.len() ==> (#[trigger] full@[t]).spec_deps().len() == 0
                            && !full@[t].spec_is_kpi() && is_required_name(
                            orig,
                            full@[t].spec_name(),
                        ) && required@[t - orig_len]@ == full@[t].spec_name(),
                    non_kpis@.map_values(|s: String| s@) == nonkpi_names(orig)
                        + required@.map_values(|s: String| s@),
                    forall|i2: int, dd: int|
                        0 <= i2 < i && 0 <= dd < orig[i2].spec_deps().len() ==> has_atomic_name(
                            full@,
                            #[trigger] orig[i2].spec_deps()[dd],
                        ),
                    forall|dd: int|
                        0 <= dd < d ==> has_atomic_name(full@, orig[i as int].spec_deps()[dd]),
                decreases nd - d,
            {
                let dep = full[i].var_ids()[d].clone();
                proof {
                    assert(full@[i as int] == orig[i as int]) by {
                        assert(full@.take(orig_len as int)[i as int] == full@[i as int]);
                    }
                    assert(dep@ == orig[i as int].spec_deps()[d as int]);
                }
                match find_name_index(&full, dep.as_str()) {
                    Some(_) => {
                        proof {
                            assert(has_atomic_name(full@, dep@));
                        }
                    },
                    None => {
                        let ghost full0 = full@;
                        let ghost nk0 = non_kpis@.map_values(|s: String| s@);
                        let ghost rq0 = required@.map_values(|s: String| s@);
                        let placeholder = Atomic::new_required(dep.clone());
                        full.push(placeholder);
                        required.push(dep.clone());
                        non_kpis.push(dep);
                        proof {
                            assert(full@.take(orig_len as int) =~= full0.take(orig_len as int));
                            assert(full@[full@.len() - 1].spec_name() == orig[i as int].spec_deps()[d as int]);
                            assert(atomic_names_distinct(full@)) by {
                                assert forall|a: int, b: int|
                                    0 <= a < b < full@.len() implies (
                                #[trigger] full@[a]).spec_name() != (#[trigger] full@[b]).spec_name() by {
                                    if b == full@.len() - 1 {
                                        assert(full@[a] == full0[a]);
                                        assert(!has_atomic_name(full0, full@[b].spec_name()));
                                    } else {
                                        assert(full@[a] == full0[a]);
                                        assert(full@[b] == full0[b]);
                                    }
                                }
                            }
                            assert(is_required_name(orig, full@[full@.len() - 1].spec_name())) by {
                                assert(!has_atomic_name(full0, dep@));
                                assert(!has_atomic_name(orig, dep@)) by {
                                    if has_atomic_name(orig, dep@) {
                                        let t = choose|t: int|
                                            0 <= t < orig.len() && (#[trigger] orig[t]).spec_name()
                                                == dep@;
                                        assert(full0.take(orig_len as int)[t] == full0[t]);
                                        assert((full0[t]).spec_name() == dep@);
                                    }
                                }
                                assert((orig[i as int]).spec_deps().contains(dep@)) by {
                                    assert(orig[i as int].spec_deps()[d as int] == dep@);
                                }
                            }
                            assert(non_kpis@.map_values(|s: String| s@) =~= nk0.push(dep@));
                            assert(required@.map_values(|s: String| s@) =~= rq0.push(dep@));
                            assert(nk0.push(dep@) =~= nonkpi_names(orig) + rq0.push(dep@));
                            assert(has_atomic_name(full@, dep@)) by {
                                assert((full@[full@.len() - 1]).spec_name() == dep@);
                            }
                            assert forall|x: Seq<char>| #[trigger] has_atomic_name(full0, x)
                                implies has_atomic_name(full@, x) by {
                                let t = choose|t: int|
                                    0 <= t < full0.len() && (#[trigger] full0[t]).spec_name() == x;
                                assert(full@[t] == full0[t]);
                            }
                        }
                    },
                }
                d += 1;
            }
            i += 1;
        }
        proof {
            assert forall|k2: int, dd: int|
                0 <= k2 < full@.len() && 0 <= dd < full@[k2].spec_deps().len() implies
                has_atomic_name(full@, #[trigger] full@[k2].spec_deps()[dd]) by {
                if k2 < orig_len {
                    assert(full@.take(orig_len as int)[k2] == full@[k2]);
                    assert(orig[k2] == full@[k2]);
                }
            }
        }
        // Order topologically by depth-first finish time.
        let empty_ext: Vec<String> = Vec::new();
        let sorted = match sort_by_finish_time(&full, &empty_ext) {
            Ok(s) => s,
            Err(e) => {
                proof {
                    let ghost ext0 = empty_ext@.map_values(|s: String| s@);
                    match &e {
                        BenchmarkingError::MissingDependency(nm) => {
                            assert(has_unresolvable_dep(full@, ext0, nm@));
                            let t = choose|t: int|
                                0 <= t < full@.len() && (#[trigger] full@[t]).spec_deps().contains(
                                    nm@,
                                );
                            let dd = choose|dd: int|
                                0 <= dd < full@[t].spec_deps().len() && full@[t].spec_deps()[dd]
                                    == nm@;
                            assert(has_atomic_name(full@, full@[t].spec_deps()[dd]));
                        },
                        BenchmarkingError::CyclicDependency(nm) => {
                            lemma_on_cycle_prefix(full@, orig_len as int, nm@);
                            assert(full@.take(orig_len as int) == orig);
                        },
                        _ => {},
                    }
                }
                return Err(e);
            },
        };
        proof {
            assert(!has_cycle(orig)) by {
                if has_cycle(orig) {
                    lemma_cycle_extends(full@, orig_len as int);
                }
            }
        }
        // Remove the required-input placeholders: their values come
        // from company inputs, not from running an operation.
        let ghost req_names = required@.map_values(|s: String| s@);
        let mut ops: Vec<Atomic> = Vec::new();
        let ghost mut srcf: Seq<int> = Seq::empty();
        i = 0;
        while i < sorted.len()
            invariant
                i <= sorted@.len(),
                req_names == required@.map_values(|s: String| s@),
                req_names.len() == required@.len(),
                srcf.len() == ops@.len(),
                forall|j: int| 0 <= j < srcf.len() ==> 0 <= #[trigger] srcf[j] < i,
                forall|j1: int, j2: int| 0 <= j1 < j2 < srcf.len() ==> srcf[j1] < srcf[j2],
                forall|j: int|
                    0 <= j < srcf.len() ==> atomic_matches(#[trigger] ops@[j], sorted@[srcf[j]]),
                forall|j: int|
                    0 <= j < ops@.len() ==> !req_names.contains(
                        (#[trigger] ops@[j]).spec_name(),
                    ),
                forall|t: int|
                    0 <= t < i ==> req_names.contains((#[trigger] sorted@[t]).spec_name())
                        || exists|j: int| 0 <= j < srcf.len() && #[trigger] srcf[j] == t,
            decreases sorted@.len() - i,
        {
            let mut in_req = false;
            let mut e: usize = 0;
            while e < required.len()
                invariant
                    e <= required@.len(),
                    i < sorted@.len(),
                    req_names.len() == required@.len(),
                    req_names == required@.map_values(|s: String| s@),
                    in_req == exists|t: int|
                        0 <= t < e && (#[trigger] req_names[t]) == sorted@[i as int].spec_name(),
                decreases required@.len() - e,
            {
                if str_eq(required[e].as_str(), sorted[i].name()) {
                    proof {
                        assert(req_names[e as int] == sorted@[i as int].spec_name());
                    }
                    in_req = true;
                }
                e += 1;
            }
            proof {
                assert(in_req == req_names.contains(sorted@[i as int].spec_name()));
            }
            if !in_req {
                ops.push(sorted[i].clone());
                proof {
                    let srcf0 = srcf;
                    srcf = srcf.push(i as int);
                    assert(srcf[srcf.len() - 1] == i as int);
                    assert(atomic_matches(ops@[ops@.len() - 1], sorted@[i as int]));
                    assert forall|t: int|
                        0 <= t < i implies req_names.contains(
                        (#[trigger] sorted@[t]).spec_name(),
                    ) || exists|j: int| 0 <= j < srcf.len() && #[trigger] srcf[j] == t by {
                        if !req_names.contains((sorted@[t]).spec_name()) {
                            let j = choose|j: int|
                                0 <= j < srcf0.len() && #[trigger] srcf0[j] == t;
                            assert(srcf[j] == t);
                        }
                    }
                }
            }
            i += 1;
        }
        let ghost opsv = ops@;
        proof {
            // Execution-list names are unique.
            assert(atomic_names_distinct(opsv)) by {
                assert forall|a: int, b: int| 0 <= a < b < opsv.len() implies (
                #[trigger] opsv[a]).spec_name() != (#[trigger] opsv[b]).spec_name() by {
                    assert(srcf[a] < srcf[b]);
                    assert(atomic_matches(opsv[a], sorted@[srcf[a]]));
                    assert(atomic_matches(opsv[b], sorted@[srcf[b]]));
                }
            }
            // Dependencies come earlier in the list or are required.
            assert(deps_topo_sorted(opsv, req_names)) by {
                assert forall|j: int, d: int|
                    0 <= j < opsv.len() && 0 <= d < (#[trigger] opsv[j]).spec_deps().len() implies (
                exists|j2: int|
                    0 <= j2 < j && (#[trigger] opsv[j2]).spec_name() == opsv[j].spec_deps()[d])
                    || req_names.contains(#[trigger] opsv[j].spec_deps()[d]) by {
                    let dep = opsv[j].spec_deps()[d];
                    if !req_names.contains(dep) {
                        assert(sorted@[srcf[j]].spec_deps()[d] == dep);
                        assert(deps_topo_sorted(sorted@, empty_ext@.map_values(|s: String| s@)));
                        let j2s = choose|j2s: int|
                            0 <= j2s < srcf[j] && (#[trigger] sorted@[j2s]).spec_name() == dep;
                        assert(!req_names.contains(sorted@[j2s].spec_name()));
                        let jj = choose|jj: int| 0 <= jj < srcf.len() && #[trigger] srcf[jj] == j2s;
                        assert(jj < j) by {
                            if jj >= j {
                                if jj > j {
                                    assert(srcf[j] < srcf[jj]);
                                }
                            }
                        }
                        assert((opsv[jj]).spec_name() == dep);
                    }
                }
            }
            // Required names are not execution-list names.
            assert forall|k2: Seq<char>| req_names.contains(k2) implies !has_atomic_name(
                opsv,
                k2,
            ) by {
                if has_atomic_name(opsv, k2) {
                    let j = choose|j: int|
                        0 <= j < opsv.len() && (#[trigger] opsv[j]).spec_name() == k2;
                }
            }
            // Required names are mutually distinct.
            assert forall|a: int, b: int| 0 <= a < b < req_names.len() implies req_names[a]
                != req_names[b] by {
                assert(required@[a]@ == full@[orig_len + a].spec_name());
                assert(required@[b]@ == full@[orig_len + b].spec_name());
            }
            // The execution list carries exactly the original names.
            assert(same_names(opsv, orig)) by {
                assert forall|k2: Seq<char>| #[trigger] has_atomic_name(opsv, k2) implies
                    has_atomic_name(orig, k2) by {
                    let j = choose|j: int|
                        0 <= j < opsv.len() && (#[trigger] opsv[j]).spec_name() == k2;
                    assert(atomic_matches(opsv[j], sorted@[srcf[j]]));
                    assert(has_atomic_name(sorted@, k2)) by {
                        assert((sorted@[srcf[j]]).spec_name() == k2);
                    }
                    assert(same_names(sorted@, full@));
                    let t = choose|t: int|
                        0 <= t < full@.len() && (#[trigger] full@[t]).spec_name() == k2;
                    assert(!req_names.contains(k2));
                    assert(t < orig_len) by {
                        if t >= orig_len {
                            assert(req_names[t - orig_len] == full@[t].spec_name());
                        }
                    }
                    assert(full@.take(orig_len as int)[t] == full@[t]);
                    assert((orig[t]).spec_name() == k2);
                }
                assert forall|k2: Seq<char>| has_atomic_name(orig, k2) implies
                    #[trigger] has_atomic_name(opsv, k2) by {
                    let t = choose|t: int|
                        0 <= t < orig.len() && (#[trigger] orig[t]).spec_name() == k2;
                    assert(full@.take(orig_len as int)[t] == full@[t]);
                    assert(has_atomic_name(full@, k2)) by {
                        assert((full@[t]).spec_name() == k2);
                    }
                    assert(same_names(sorted@, full@));
                    let ts = choose|ts: int|
                        0 <= ts < sorted@.len() && (#[trigger] sorted@[ts]).spec_name() == k2;
                    assert(!req_names.contains(k2)) by {
                        if req_names.contains(k2) {
                            let a = choose|a: int|
                                0 <= a < req_names.len() && #[trigger] req_names[a] == k2;
                            assert(is_required_name(orig, full@[orig_len + a].spec_name()));
                        }
                    }
                    assert(has_atomic_name(sorted@, k2));
                    assert(0 <= ts < sorted@.len() && (sorted@[ts]).spec_name() == k2);
                    assert(!req_names.contains((sorted@[ts as int]).spec_name()));
                    let jj = choose|jj: int| 0 <= jj < srcf.len() && #[trigger] srcf[jj] == ts;
                    assert(atomic_matches(opsv[jj], sorted@[srcf[jj]]));
                    assert((opsv[jj]).spec_name() == k2);
                }
            }
            lemma_same_names_same_len(opsv, orig);
            // Every kept atomic reproduces an original one.
            assert(all_sourced(opsv, orig)) by {
                assert forall|j: int| 0 <= j < opsv.len() implies #[trigger] sourced_one(
                    opsv[j],
                    orig,
                ) by {
                    assert(atomic_matches(opsv[j], sorted@[srcf[j]]));
                    assert(all_sourced(sorted@, full@));
                    assert(sourced_one(sorted@[srcf[j]], full@));
                    let t = choose|t: int|
                        0 <= t < full@.len() && atomic_matches(sorted@[srcf[j]], #[trigger] full@[t]);
                    assert(!req_names.contains(opsv[j].spec_name()));
                    assert(t < orig_len) by {
                        if t >= orig_len {
                            assert(req_names[t - orig_len] == full@[t].spec_name());
                        }
                    }
                    assert(full@.take(orig_len as int)[t] == full@[t]);
                    assert(atomic_matches(opsv[j], orig[t]));
                }
            }
            // The required set is exactly the undeclared dependencies.
            assert(required_matches(req_names, orig)) by {
                assert forall|k2: Seq<char>| #[trigger] req_names.contains(k2) implies
                    is_required_name(orig, k2) by {
                    let a = choose|a: int| 0 <= a < req_names.len() && #[trigger] req_names[a] == k2;
                    assert(is_required_name(orig, full@[orig_len + a].spec_name()));
                }
                assert forall|k2: Seq<char>| is_required_name(orig, k2) implies
                    #[trigger] req_names.contains(k2) by {
                    let i2 = choose|i2: int|
                        0 <= i2 < orig.len() && (#[trigger] orig[i2]).spec_deps().contains(k2);
                    let dd = choose|dd: int|
                        0 <= dd < orig[i2].spec_deps().len() && orig[i2].spec_deps()[dd] == k2;
                    assert(has_atomic_name(full@, k2));
                    let t = choose|t: int|
                        0 <= t < full@.len() && (#[trigger] full@[t]).spec_name() == k2;
                    assert(t >= orig_len) by {
                        if t < orig_len {
                            assert(full@.take(orig_len as int)[t] == full@[t]);
                            assert((orig[t]).spec_name() == k2);
                        }
                    }
                    assert(req_names[t - orig_len] == k2);
                }
            }
            // The non-KPI names are the non-KPI originals plus the
            // required inputs.
            assert(non_kpi_matches(
                non_kpis@.map_values(|s: String| s@),
                orig,
            )) by {
                let nk = non_kpis@.map_values(|s: String| s@);
                assert(nk == nonkpi_names(orig) + req_names);
                assert forall|k2: Seq<char>| #[trigger] nk.contains(k2) implies (nonkpi_names(
                    orig,
                ).contains(k2) || is_required_name(orig, k2)) by {
                    let a = choose|a: int| 0 <= a < nk.len() && #[trigger] nk[a] == k2;
                    if a < nonkpi_names(orig).len() {
                        assert(nonkpi_names(orig)[a] == k2);
                    } else {
                        assert(req_names[a - nonkpi_names(orig).len()] == k2);
                        assert(req_names.contains(k2));
                    }
                }
                assert forall|k2: Seq<char>| (nonkpi_names(orig).contains(k2) || is_required_name(
                    orig,
                    k2,
                )) implies #[trigger] nk.contains(k2) by {
                    if nonkpi_names(orig).contains(k2) {
                        let a = choose|a: int|
                            0 <= a < nonkpi_names(orig).len() && #[trigger] nonkpi_names(orig)[a]
                                == k2;
                        assert(nk[a] == k2);
                    } else {
                        assert(req_names.contains(k2));
                        let a = choose|a: int|
                            0 <= a < req_names.len() && #[trigger] req_names[a] == k2;
                        assert(nk[nonkpi_names(orig).len() + a] == k2);
                    }
                }
            }
        }
        proof {
            let nkv = non_kpis@.map_values(|s2: String| s2@);
            lemma_nonkpi_names_complete(orig);
            lemma_kpi_filter_complete(orig);
            // Every KPI atomic is flagged, is an execution-list
            // atomic, and carries neither a non-KPI nor a required
            // name.
            assert(kpis_consistent(kpis@, opsv, nkv, req_names)) by {
                assert forall|i: int|
                    0 <= i < kpis@.len() implies (#[trigger] kpis@[i]).spec_is_kpi()
                    && has_atomic_name(opsv, kpis@[i].spec_name()) && !nkv.contains(
                    kpis@[i].spec_name(),
                ) && !req_names.contains(kpis@[i].spec_name()) by {
                    assert(atomic_matches(kpis@[i], kpi_filter(orig)[i]));
                    assert(kpi_sourced(kpi_filter(orig)[i], orig));
                    let t = choose|t: int|
                        0 <= t < orig.len() && kpi_filter(orig)[i] == #[trigger] orig[t]
                            && orig[t].spec_is_kpi();
                    let nm = kpis@[i].spec_name();
                    assert(nm == orig[t].spec_name());
                    assert(has_atomic_name(orig, nm)) by {
                        assert((orig[t]).spec_name() == nm);
                    }
                    assert(has_atomic_name(opsv, nm));
                    assert(!req_names.contains(nm)) by {
                        if req_names.contains(nm) {
                            assert(is_required_name(orig, nm));
                        }
                    }
                    assert(!nkv.contains(nm)) by {
                        if nkv.contains(nm) {
                            assert(nonkpi_names(orig).contains(nm) || is_required_name(orig, nm));
                            let a = choose|a: int|
                                0 <= a < nonkpi_names(orig).len() && #[trigger] nonkpi_names(
                                    orig,
                                )[a] == nm;
                            let t2 = choose|t2: int|
                                0 <= t2 < orig.len() && !(#[trigger] orig[t2]).spec_is_kpi()
                                    && orig[t2].spec_name() == nonkpi_names(orig)[a];
                            assert(t2 == t) by {
                                if t2 != t {
                                    if t2 < t {
                                        assert(orig[t2].spec_name() != orig[t].spec_name());
                                    } else {
                                        assert(orig[t].spec_name() != orig[t2].spec_name());
                                    }
                                }
                            }
                        }
                    }
                }
            }
            // A non-KPI execution atomic's name is a non-KPI name; a
            // KPI atomic's name appears in the KPI list.
            assert(ops_flags_consistent(opsv, kpis@, nkv)) by {
                assert forall|j: int|
                    0 <= j < opsv.len() implies (!(#[trigger] opsv[j]).spec_is_kpi()
                    ==> nkv.contains(opsv[j].spec_name())) && (opsv[j].spec_is_kpi()
                    ==> exists|i: int|
                    0 <= i < kpis@.len() && (#[trigger] kpis@[i]).spec_name()
                        == opsv[j].spec_name()) by {
                    assert(sourced_one(opsv[j], orig));
                    let t = choose|t: int|
                        0 <= t < orig.len() && atomic_matches(opsv[j], #[trigger] orig[t]);
                    if !opsv[j].spec_is_kpi() {
                        assert(nonkpi_names(orig).contains(orig[t].spec_name()));
                        assert(nkv.contains(opsv[j].spec_name()));
                    } else {
                        let i = choose|i: int|
                            0 <= i < kpi_filter(orig).len() && #[trigger] kpi_filter(orig)[i]
                                == orig[t];
                        assert(atomic_matches(kpis@[i], kpi_filter(orig)[i]));
                        assert((kpis@[i]).spec_name() == opsv[j].spec_name());
                    }
                }
            }
        }
        let alg = Algorithm { operations: ops, required, kpis, non_kpis };
        proof {
            assert(alg.spec_operations() == opsv);
            assert(alg.spec_required() == req_names);
            assert(alg.spec_kpis() == kpis@);
            assert(alg.spec_non_kpis() == non_kpis@.map_values(|s2: String| s2@));
            assert(alg.wf());
        }
        Ok(alg)
    }

    /// Run the algorithm with company input data.
    ///
    /// Seeds the table with the required inputs, executes every
    /// atomic of the topologically sorted list in order, removes the
    /// non-KPI and required entries, and packages the rest as the
    /// company's raw results.
    #[verifier::loop_isolation(false)]
    #[verifier::rlimit(60)]
    pub fn run<F: Fn(Prim, u64, u64) -> u64>(&self, company: &Company, f: &F) -> (r: Result<
        Output,
        BenchmarkingError,
    >)
        requires
            kernel_total(*f),
            self.wf(),
            company.spec_input_data().wf(),
            forall|i: int|
                0 <= i < self.spec_required().len() ==> company.spec_input_data().spec_has(
                    #[trigger] self.spec_required()[i],
                ),
        ensures
            match r {
                Ok(out) => {
                    &&& out.wf()
                    &&& exists|rvs: Seq<Seq<(Seq<char>, Seq<u64>)>>|
                        #[trigger] is_run_trace(*f, self.spec_operations(), rvs) && rvs[0]
                            == seed_entries(self.spec_required(), company.spec_input_data())
                            && output_packs(
                            out,
                            rvs.last(),
                            self.spec_non_kpis(),
                            self.spec_required(),
                        )
                },
                Err(e) => exists|rvs: Seq<Seq<(Seq<char>, Seq<u64>)>>, t: int|
                    #[trigger] run_fails_at(
                        *f,
                        self.spec_operations(),
                        seed_entries(self.spec_required(), company.spec_input_data()),
                        rvs,
                        t,
                        e,
                    ),
            },
    {
        let ghost reqv = self.spec_required();
        let ghost input = company.spec_input_data();
        let ghost seed = seed_entries(reqv, input);
        let mut resolved_vals = ResolvedValues::new();
        // Store all initially resolved variables.
        let mut i: usize = 0;
        while i < self.required.len()
            invariant
                i <= self.required@.len(),
                reqv.len() == self.required@.len(),
                resolved_vals@ == seed.take(i as int),
                entry_keys_distinct(resolved_vals@),
            decreases self.required@.len() - i,
        {
            let name = self.required[i].clone();
            proof {
                assert(name@ == reqv[i as int]);
            }
            let iv = match company.input_data().get_input_var(name.as_str()) {
                Some(v) => v,
                None => {
                    proof {
                        assert(input.spec_has(reqv[i as int]));
                    }
                    return Err(BenchmarkingError::MissingInputs(Vec::new()));
                },
            };
            let ghost ci = choose|ci: int|
                0 <= ci < input.spec_vars().len() && (#[trigger] input.spec_vars()[ci]).spec_name()
                    == name@;
            proof {
                let i2 = choose|i2: int|
                    0 <= i2 < input.spec_vars().len() && *iv == (#[trigger] input.spec_vars()[i2]);
                assert(input.spec_vars()[i2].spec_name() == name@);
                assert(ci == i2) by {
                    if ci != i2 {
                        assert(input.spec_vars()[ci].spec_name() != input.spec_vars()[
                        i2].spec_name());
                    }
                }
                assert(iv.spec_values() == input_value_of(input, reqv[i as int]));
                assert(iv.spec_values().len() >= 1);
            }
            let var = Variable::new(copy_bits_vec(iv.values()));
            let ghost before = resolved_vals@;
            match resolved_vals.insert(name, var) {
                Ok(()) => {
                    proof {
                        assert(resolved_vals@ =~= seed.take(i + 1));
                    }
                },
                Err(e) => {
                    proof {
                        let j = choose|j: int|
                            0 <= j < before.len() && (#[trigger] before[j]).0 == reqv[i as int];
                        assert(before[j].0 == seed.take(i as int)[j].0);
                        assert(reqv[j] == reqv[i as int]);
                        assert(j < i);
                    }
                    return Err(e);
                },
            }
            i += 1;
        }
        proof {
            assert(seed.take(reqv.len() as int) =~= seed);
        }
        // Compute every atomic in the given order.
        let ghost opsv = self.spec_operations();
        let ghost mut rvs: Seq<Seq<(Seq<char>, Seq<u64>)>> = seq![resolved_vals@];
        let mut t: usize = 0;
        while t < self.operations.len()
            invariant
                t <= opsv.len(),
                opsv.len() == self.operations@.len(),
                rvs.len() == t + 1,
                rvs[0] == seed,
                is_run_trace(*f, opsv.take(t as int), rvs),
                rvs.last() == resolved_vals@,
                entry_keys_distinct(resolved_vals@),
                kernel_total(*f),
            decreases opsv.len() - t,
        {
            let ghost rv_before = resolved_vals@;
            match self.operations[t].calc(&mut resolved_vals, f) {
                Ok(()) => {
                    proof {
                        let prev = rvs;
                        rvs = rvs.push(resolved_vals@);
                        assert(run_step(*f, opsv[t as int], rv_before, resolved_vals@));
                        assert(opsv.take(t + 1).drop_last() =~= opsv.take(t as int));
                        assert(is_run_trace(*f, opsv.take(t + 1), rvs)) by {
                            assert forall|t2: int| 0 <= t2 < t + 1 implies #[trigger] run_step(
                                *f,
                                opsv.take(t + 1)[t2],
                                rvs[t2],
                                rvs[t2 + 1],
                            ) by {
                                if t2 < t {
                                    assert(run_step(
                                        *f,
                                        opsv.take(t as int)[t2],
                                        prev[t2],
                                        prev[t2 + 1],
                                    ));
                                    assert(rvs[t2] == prev[t2]);
                                    assert(rvs[t2 + 1] == prev[t2 + 1]);
                                    assert(opsv.take(t + 1)[t2] == opsv.take(t as int)[t2]);
                                } else {
                                    assert(rvs[t2] == rv_before);
                                    assert(rvs[t2 + 1] == resolved_vals@);
                                    assert(opsv.take(t + 1)[t2] == opsv[t as int]);
                                }
                            }
                        }
                        // The passed duplicate check keeps the keys
                        // distinct.
                        let v = choose|v: Seq<u64>|
                            #[trigger] opsv[t as int].calc_value_rel(*f, rv_before, v)
                                && resolved_vals@ == rv_before.push(
                                (opsv[t as int].spec_name(), v),
                            );
                        assert(!seq_contains_key(rv_before, opsv[t as int].spec_name()));
                        assert(entry_keys_distinct(resolved_vals@)) by {
                            assert forall|a: int, b: int|
                                0 <= a < b < resolved_vals@.len() implies (
                            #[trigger] resolved_vals@[a]).0 != (#[trigger] resolved_vals@[b]).0 by {
                                if b == resolved_vals@.len() - 1 {
                                    assert(resolved_vals@[a] == rv_before[a]);
                                } else {
                                    assert(resolved_vals@[a] == rv_before[a]);
                                    assert(resolved_vals@[b] == rv_before[b]);
                                }
                            }
                        }
                    }
                },
                Err(e) => {
                    proof {
                        assert(opsv[t as int].calc_err_matches(rv_before, e));
                        assert(run_fails_at(*f, opsv, seed, rvs, t as int, e));
                    }
                    return Err(e);
                },
            }
            t += 1;
        }
        proof {
            assert(opsv.take(opsv.len() as int) =~= opsv);
        }
        let ghost rv_final = resolved_vals@;
        // Return only relevant data - the rest is discarded.
        resolved_vals.filter_atomics_by_name(&self.non_kpis);
        resolved_vals.filter_atomics_by_name(&self.required);
        proof {
            assert(self.non_kpis@.map_values(|s2: String| s2@) == self.spec_non_kpis());
            assert(self.required@.map_values(|s2: String| s2@) == self.spec_required());
            lemma_filtered_entries_distinct(rv_final, self.spec_non_kpis());
            lemma_filtered_entries_distinct(
                filtered_entries(rv_final, self.spec_non_kpis()),
                self.spec_required(),
            );
        }
        // Add output variables for the remaining entries.
        let mut output_vars = Output::new_empty();
        let entries = resolved_vals.resolved();
        let ghost fin = resolved_vals@;
        let mut j: usize = 0;
        while j < entries.len()
            invariant
                j <= fin.len(),
                fin.len() == entries@.len(),
                fin == resolved_vals@,
                entries@.len() == resolved_vals@.len(),
                forall|a: int|
                    0 <= a < fin.len() ==> (#[trigger] entries@[a]).0@ == fin[a].0 && entries@[
                    a].1@ == fin[a].1,
                entry_keys_distinct(fin),
                output_vars.spec_vars().len() == j,
                forall|a: int|
                    0 <= a < j ==> (#[trigger] output_vars.spec_vars()[a]).spec_name() == fin[a].0
                        && output_vars.spec_vars()[a].spec_result() == fin[a].1
                        && output_vars.spec_vars()[a].spec_best_in_class() == Seq::<u64>::empty()
                        && output_vars.spec_vars()[a].spec_worst_in_class() == Seq::<u64>::empty()
                        && output_vars.spec_vars()[a].spec_average() == Seq::<u64>::empty()
                        && output_vars.spec_vars()[a].spec_median() == Seq::<u64>::empty()
                        && output_vars.spec_vars()[a].spec_lower_quantile() == Seq::<u64>::empty()
                        && output_vars.spec_vars()[a].spec_upper_quantile() == Seq::<u64>::empty(),
                output_vars.wf(),
            decreases fin.len() - j,
        {
            let out_var = OutputVariable::new_result_only(
                entries[j].0.clone(),
                copy_bits_vec(entries[j].1.vector()),
            );
            proof {
                assert(!output_vars.spec_has(out_var.spec_name())) by {
                    if output_vars.spec_has(out_var.spec_name()) {
                        let a = choose|a: int|
                            0 <= a < output_vars.spec_vars().len() && (
                            #[trigger] output_vars.spec_vars()[a]).spec_name()
                                == out_var.spec_name();
                        assert(fin[a].0 == fin[j as int].0);
                    }
                }
            }
            output_vars.add_var(out_var);
            j += 1;
        }
        proof {
            assert(output_packs(output_vars, rv_final, self.spec_non_kpis(), self.spec_required()));
            assert(is_run_trace(*f, opsv, rvs) && rvs[0] == seed && output_packs(
                output_vars,
                rvs.last(),
                self.spec_non_kpis(),
                self.spec_required(),
            ));
        }
        Ok(output_vars)
    }

    /// Aggregate one variable which was evaluated among many
    /// companies.
    ///
    /// Sorts the per-company vectors in place by the first component
    /// under the documented total order, then yields the best, worst,
    /// median, quartiles and mean of the population.  A zero-company
    /// population or an infinite component yields the default-empty
    /// result.
    #[verifier::loop_isolation(false)]
    #[verifier::rlimit(60)]
    pub fn aggregate_atomic_var<F: Fn(Prim, u64, u64) -> u64>(
        &self,
        company_results: &mut Vec<Vec<u64>>,
        f: &F,
    ) -> (r: Result<OutputVariable, BenchmarkingError>)
        requires
            kernel_total(*f),
            rows_uniform(row_views(old(company_results)@)),
            3 * old(company_results)@.len() <= usize::MAX,
            old(company_results)@.len() <= u64::MAX,
        ensures
            r is Ok,
            r matches Ok(out) ==> aggregate_post(
                *f,
                row_views(old(company_results)@),
                out,
            ),
            r matches Ok(out) ==> (if row_views(old(company_results)@).len() == 0 || rows_has_inf(
                row_views(old(company_results)@),
            ) {
                final(company_results)@ == old(company_results)@
            } else {
                row_views(final(company_results)@) == ssort(row_views(old(company_results)@))
            }),
    {
        let ghost rows = row_views(company_results@);
        let n = company_results.len();
        if n == 0 {
            return Ok(OutputVariable::default());
        }
        // Sanity check: no infinite components.
        let has_inf = rows_have_infinite(company_results);
        if has_inf {
            return Ok(OutputVariable::default());
        }
        // Statistical measurements that rely on ranks.
        proof {
            assert forall|a: int| 0 <= a < company_results@.len() implies (
            #[trigger] company_results@[a])@.len() >= 1 by {
                assert(rows[a] == company_results@[a]@);
            }
        }
        sort_rows(company_results);
        let ghost sorted = ssort(rows);
        proof {
            lemma_ssort_elems(rows);
            assert forall|a: int| 0 <= a < sorted.len() implies (#[trigger] sorted[a]).len()
                == rows[0].len() && sorted[a].len() >= 1 by {
                assert(row_sourced(sorted[a], rows));
                let b = choose|b: int| 0 <= b < rows.len() && sorted[a] == #[trigger] rows[b];
            }
            assert forall|a: int|
                0 <= a < company_results@.len() implies (#[trigger] company_results@[a])@
                == sorted[a] by {
                assert(row_views(company_results@)[a] == company_results@[a]@);
            }
        }
        let median = if n % 2 == 0 {
            avg2(f, &company_results[n / 2 - 1], &company_results[n / 2])
        } else {
            copy_bits_vec(&company_results[n / 2])
        };
        let lq = if n % 4 == 0 {
            avg2(f, &company_results[n / 4 - 1], &company_results[n / 4])
        } else {
            copy_bits_vec(&company_results[n / 4])
        };
        let uq = if n % 4 == 0 {
            avg2(f, &company_results[3 * n / 4 - 1], &company_results[3 * n / 4])
        } else {
            copy_bits_vec(&company_results[3 * n / 4])
        };
        let min = copy_bits_vec(&company_results[0]);
        let max = copy_bits_vec(&company_results[n - 1]);
        // Component-wise mean across all companies.
        let kpi_dimension = company_results[0].len();
        let avg = mean_rows(f, &company_results, kpi_dimension);
        proof {
            assert(row_views(company_results@) == sorted);
        }
        let output = OutputVariable::new(
            String::new(),
            Vec::new(),
            max,
            min,
            avg,
            median,
            lq,
            uq,
        );
        proof {
            assert(output.spec_result() =~= Seq::<u64>::empty());
        }
        Ok(output)
    }

    /// Resolve dependencies and verify the computability of the
    /// algorithm: re-orders the execution list by depth-first finish
    /// time.  Dependencies on required inputs need no edge, so on a
    /// loaded algorithm this always succeeds.
    pub fn topological_op_sort(&self) -> (r: Result<Vec<Atomic>, BenchmarkingError>)
        requires
            self.wf(),
        ensures
            r is Ok,
            r matches Ok(sorted) ==> {
                &&& atomic_names_distinct(sorted@)
                &&& same_names(sorted@, self.spec_operations())
                &&& all_sourced(sorted@, self.spec_operations())
                &&& deps_topo_sorted(sorted@, self.spec_required())
                &&& sorted@.len() == self.spec_operations().len()
            },
    {
        let r = sort_by_finish_time(&self.operations, &self.required);
        proof {
            assert(self.spec_operations() == self.operations@);
            match &r {
                Ok(_) => {},
                Err(e) => {
                    match e {
                        BenchmarkingError::MissingDependency(nm) => {
                            assert(has_unresolvable_dep(
                                self.operations@,
                                self.required@.map_values(|s2: String| s2@),
                                nm@,
                            ));
                            let i = choose|i: int|
                                0 <= i < self.operations@.len() && (
                                #[trigger] self.operations@[i]).spec_deps().contains(nm@);
                            let d = choose|d: int|
                                0 <= d < self.operations@[i].spec_deps().len()
                                    && self.operations@[i].spec_deps()[d] == nm@;
                            assert((exists|j: int|
                                0 <= j < i && (#[trigger] self.spec_operations()[j]).spec_name()
                                    == self.spec_operations()[i].spec_deps()[d])
                                || self.spec_required().contains(
                                self.spec_operations()[i].spec_deps()[d],
                            ));
                            if self.spec_required().contains(nm@) {
                            } else {
                                let j = choose|j: int|
                                    0 <= j < i && (
                                    #[trigger] self.spec_operations()[j]).spec_name() == nm@;
                                assert(has_atomic_name(self.operations@, nm@));
                            }
                        },
                        BenchmarkingError::CyclicDependency(nm) => {
                            assert(on_cycle(self.operations@, nm@));
                            crate::laws::law_algorithm_acyclic(*self);
                        },
                        _ => {},
                    }
                },
            }
        }
        r
    }

    /// Verifies the input of a company and reports every missing
    /// required variable.
    #[verifier::loop_isolation(false)]
    pub fn verify_input(&self, input: Input) -> (r: Result<(), BenchmarkingError>)
        ensures
            match r {
                Ok(()) => forall|i: int|
                    0 <= i < self.spec_required().len() ==> input.spec_has(
                        #[trigger] self.spec_required()[i],
                    ),
                Err(e) => missing_names(self.spec_required(), input).len() > 0 && (
                e matches BenchmarkingError::MissingInputs(ns) && ns@.map_values(|s: String| s@)
                    == missing_names(self.spec_required(), input)),
            },
    {
        let ghost req = self.spec_required();
        let mut missing_vars: Vec<String> = Vec::new();
        let mut i: usize = 0;
        while i < self.required.len()
            invariant
                i <= self.required@.len(),
                missing_vars@.map_values(|s: String| s@) == missing_names(
                    req.take(i as int),
                    input,
                ),
            decreases self.required@.len() - i,
        {
            proof {
                assert(req.take(i + 1).drop_last() =~= req.take(i as int));
                assert(req.take(i + 1).last() == req[i as int]);
            }
            if !input.has_input_var(self.required[i].as_str()) {
                missing_vars.push(self.required[i].clone());
                proof {
                    assert(missing_vars@.map_values(|s: String| s@) =~= missing_names(
                        req.take(i + 1),
                        input,
                    ));
                }
            }
            i += 1;
        }
        proof {
            assert(req.take(req.len() as int) =~= req);
        }
        if missing_vars.len() != 0 {
            return Err(BenchmarkingError::MissingInputs(missing_vars));
        }
        proof {
            assert forall|j: int| 0 <= j < req.len() implies input.spec_has(#[trigger] req[j]) by {
                if !input.spec_has(req[j]) {
                    lemma_missing_names_contains(req, input, j);
                }
            }
        }
        Ok(())
    }
}

/// A dependency cycle runs through an atomic of this name.
pub open spec fn on_cycle(s: Seq<Atomic>, k: Seq<char>) -> bool {
    exists|p: Seq<int>|
        #[trigger] is_dep_path(s, p) && p.len() >= 2 && p[0] == p.last() && s[p[0]].spec_name()
            == k
}

/// How many entries of the sequence equal the value.
spec fn count_eq(s: Seq<u8>, v: u8) -> nat
    decreases s.len(),
{
    if s.len() == 0 {
        0
    } else {
        count_eq(s.drop_last(), v) + (if s.last() == v {
            1nat
        } else {
            0nat
        })
    }
}

/// Counting never exceeds the length, and is strictly below it when
/// some entry differs from the value.
proof fn lemma_count_le(s: Seq<u8>, v: u8, i: int)
    requires
        0 <= i < s.len(),
        s[i] != v,
    ensures
        count_eq(s, v) < s.len(),
    decreases s.len(),
{
    lemma_count_bound(s, v);
    if i == s.len() - 1 {
        lemma_count_bound(s.drop_last(), v);
    } else {
        assert(s.drop_last()[i] == s[i]);
        lemma_count_le(s.drop_last(), v, i);
    }
}

/// Counting never exceeds the length.
proof fn lemma_count_bound(s: Seq<u8>, v: u8)
    ensures
        count_eq(s, v) <= s.len(),
    decreases s.len(),
{
    if s.len() > 0 {
        lemma_count_bound(s.drop_last(), v);
    }
}

/// How an update changes the count.
proof fn lemma_count_update(s: Seq<u8>, v: u8, i: int, x: u8)
    requires
        0 <= i < s.len(),
    ensures
        count_eq(s.update(i, x), v) == count_eq(s, v) + (if x == v {
            1int
        } else {
            0int
        }) - (if s[i] == v {
            1int
        } else {
            0int
        }),
    decreases s.len(),
{
    let s2 = s.update(i, x);
    if i == s.len() - 1 {
        assert(s2.drop_last() =~= s.drop_last());
        assert(s2.last() == x);
    } else {
        assert(s2.drop_last() =~= s.drop_last().update(i, x));
        assert(s2.last() == s.last());
        lemma_count_update(s.drop_last(), v, i, x);
    }
}

/// Pointwise monotone colorings never gain unvisited atoms.
proof fn lemma_count0_mono(s1: Seq<u8>, s2: Seq<u8>)
    requires
        s1.len() == s2.len(),
        forall|k: int| 0 <= k < s1.len() ==> #[trigger] s2[k] == s1[k] || (s1[k] == 0 && s2[k] == 2),
    ensures
        count_eq(s2, 0) <= count_eq(s1, 0),
    decreases s1.len(),
{
    if s1.len() > 0 {
        assert forall|k: int| 0 <= k < s1.drop_last().len() implies #[trigger] s2.drop_last()[k]
            == s1.drop_last()[k] || (s1.drop_last()[k] == 0 && s2.drop_last()[k] == 2) by {
            assert(s2.drop_last()[k] == s2[k]);
            assert(s1.drop_last()[k] == s1[k]);
        }
        lemma_count0_mono(s1.drop_last(), s2.drop_last());
        assert(s1.last() == s1[s1.len() - 1]);
        assert(s2.last() == s2[s1.len() - 1]);
    }
}

/// The views of resolved dependency index lists.
spec fn idx_views(s: Seq<Vec<usize>>) -> Seq<Seq<usize>> {
    s.map_values(|v: Vec<usize>| v@)
}

/// The resolved dependency indices describe the atom list: entry `d`
/// of node `k` either points at the atom named by dependency `d` of
/// atom `k`, or is the out-of-range marker for an external name.
spec fn graph_wf(
    full: Seq<Atomic>,
    deps_idx: Seq<Seq<usize>>,
    external: Seq<Seq<char>>,
) -> bool {
    &&& deps_idx.len() == full.len()
    &&& forall|k: int|
        0 <= k < full.len() ==> (#[trigger] deps_idx[k]).len() == full[k].spec_deps().len()
    &&& forall|k: int, d: int|
        0 <= k < full.len() && 0 <= d < deps_idx[k].len() ==> (#[trigger] deps_idx[k][d])
            <= full.len() && (deps_idx[k][d] < full.len() ==> full[deps_idx[k][d] as int].spec_name()
            == full[k].spec_deps()[d]) && (deps_idx[k][d] == full.len() ==> external.contains(
            full[k].spec_deps()[d],
        ) && !has_atomic_name(full, full[k].spec_deps()[d]))
}

/// The depth-first state: colors (0 unvisited, 1 on the stack, 2
/// finished), finish numbers, the next number to hand out, and the
/// ghost chain of atoms currently being visited.
spec fn dfs_inv(
    full: Seq<Atomic>,
    deps_idx: Seq<Seq<usize>>,
    external: Seq<Seq<char>>,
    colors: Seq<u8>,
    nums: Seq<usize>,
    counter: usize,
    stack: Seq<int>,
) -> bool {
    &&& graph_wf(full, deps_idx, external)
    &&& colors.len() == full.len()
    &&& nums.len() == full.len()
    &&& counter == count_eq(colors, 2)
    &&& counter <= full.len()
    &&& forall|k: int| 0 <= k < colors.len() ==> #[trigger] colors[k] <= 2
    &&& forall|t: int|
        0 <= t < stack.len() ==> 0 <= #[trigger] stack[t] < full.len() && colors[stack[t]] == 1
    &&& forall|k: int| 0 <= k < colors.len() && #[trigger] colors[k] == 1 ==> stack.contains(k)
    &&& forall|t: int| 0 <= t < stack.len() - 1 ==> dep_edge(full, #[trigger] stack[t], stack[t + 1])
    &&& forall|k: int| 0 <= k < colors.len() && #[trigger] colors[k] == 2 ==> nums[k] < counter
    &&& forall|k: int, d: int|
        (0 <= k < colors.len() && colors[k] == 2 && 0 <= d < deps_idx[k].len() && (
        #[trigger] deps_idx[k][d]) < full.len()) ==> colors[deps_idx[k][d] as int] == 2
            && nums[deps_idx[k][d] as int] < nums[k]
    &&& forall|k1: int, k2: int|
        0 <= k1 < k2 < colors.len() && #[trigger] colors[k1] == 2 && #[trigger] colors[k2] == 2
            ==> nums[k1] != nums[k2]
}

/// Finds the index of the atomic with this name.
fn find_name_index(atoms: &Vec<Atomic>, k: &str) -> (r: Option<usize>)
    ensures
        match r {
            Some(j) => j < atoms@.len() && atoms@[j as int].spec_name() == k@,
            None => !has_atomic_name(atoms@, k@),
        },
{
    let mut i: usize = 0;
    while i < atoms.len()
        invariant
            i <= atoms@.len(),
            forall|j: int| 0 <= j < i ==> (#[trigger] atoms@[j]).spec_name() != k@,
        decreases atoms@.len() - i,
    {
        if str_eq(atoms[i].name(), k) {
            return Some(i);
        }
        i += 1;
    }
    None
}

/// One depth-first visit: marks the atom in-visit, finishes every
/// dependency, then assigns the next finish number.  Meeting an atom
/// that is already in-visit proves a cycle.
#[verifier::loop_isolation(false)]
fn dfs_topo_sort_inner(
    full: &Vec<Atomic>,
    deps_idx: &Vec<Vec<usize>>,
    colors: &mut Vec<u8>,
    nums: &mut Vec<usize>,
    counter: &mut usize,
    i: usize,
    Ghost(external): Ghost<Seq<Seq<char>>>,
    Ghost(stack): Ghost<Seq<int>>,
) -> (r: Result<(), BenchmarkingError>)
    requires
        dfs_inv(
            full@,
            idx_views(deps_idx@),
            external,
            old(colors)@,
            old(nums)@,
            *old(counter),
            stack,
        ),
        i < full@.len(),
        old(colors)@[i as int] == 0,
        stack.len() > 0 ==> dep_edge(full@, stack.last(), i as int),
    ensures
        match r {
            Ok(()) => {
                &&& dfs_inv(
                    full@,
                    idx_views(deps_idx@),
                    external,
                    final(colors)@,
                    final(nums)@,
                    *final(counter),
                    stack,
                )
                &&& final(colors)@.len() == old(colors)@.len()
                &&& final(colors)@[i as int] == 2
                &&& forall|k: int|
                    0 <= k < full@.len() ==> #[trigger] final(colors)@[k] == old(colors)@[k] || (old(
                        colors,
                    )@[k] == 0 && final(colors)@[k] == 2)
                &&& forall|k: int|
                    0 <= k < full@.len() && old(colors)@[k] == 2 ==> #[trigger] final(nums)@[k]
                        == old(nums)@[k]
                &&& *final(counter) >= *old(counter)
            },
            Err(e) => e matches BenchmarkingError::CyclicDependency(n) && on_cycle(full@, n@),
        },
    decreases count_eq(old(colors)@, 0),
{
    let ghost colors0 = colors@;
    let n = full.len();
    crate::strutil::set_u8(colors, i, 1);
    let ghost stack2 = stack.push(i as int);
    proof {
        lemma_count_update(colors0, 2, i as int, 1);
        lemma_count_update(colors0, 0, i as int, 1);
        assert forall|k: int| 0 <= k < colors@.len() && #[trigger] colors@[k] == 1 implies
            stack2.contains(k) by {
            if k == i as int {
                assert(stack2[stack2.len() - 1] == k);
            } else {
                assert(colors0[k] == 1);
                let t = choose|t: int| 0 <= t < stack.len() && stack[t] == k;
                assert(stack2[t] == k);
            }
        }
        assert(dfs_inv(
            full@,
            idx_views(deps_idx@),
            external,
            colors@,
            nums@,
            *counter,
            stack2,
        ));
    }
    let di = &deps_idx[i];
    let mut d: usize = 0;
    while d < di.len()
        invariant
            dfs_inv(full@, idx_views(deps_idx@), external, colors@, nums@, *counter, stack2),
            colors@[i as int] == 1,
            di@ == idx_views(deps_idx@)[i as int],
            forall|dd: int|
                0 <= dd < d && (#[trigger] di@[dd]) < full@.len() ==> colors@[di@[dd] as int]
                    == 2,
            count_eq(colors@, 0) < count_eq(colors0, 0),
            forall|k: int|
                0 <= k < full@.len() ==> #[trigger] colors@[k] == colors0[k] || (colors0[k] == 0
                    && colors@[k] == 2) || k == i,
            forall|k: int|
                0 <= k < full@.len() && colors0[k] == 2 ==> #[trigger] nums@[k] == old(nums)@[k],
            *counter >= *old(counter),
        decreases di@.len() - d,
    {
        let j = di[d];
        if j < n {
            let cj = colors[j];
            if cj == 1 {
                // An edge back into the visiting chain closes a cycle.
                proof {
                    let t0 = choose|t: int| 0 <= t < stack2.len() && stack2[t] == j as int;
                    let p = stack2.subrange(t0, stack2.len() as int).push(j as int);
                    assert(p[0] == stack2[t0]);
                    assert(p.last() == j as int);
                    assert forall|t: int| 0 <= t < p.len() - 1 implies dep_edge(
                        full@,
                        #[trigger] p[t],
                        p[t + 1],
                    ) by {
                        if t < p.len() - 2 {
                            assert(p[t] == stack2[t0 + t]);
                            assert(p[t + 1] == stack2[t0 + t + 1]);
                        } else {
                            assert(p[t] == stack2[stack2.len() - 1]);
                            assert(p[t] == i as int);
                            assert(full@[i as int].spec_deps()[d as int] == full@[j as int].spec_name());
                            assert(full@[i as int].spec_deps().contains(
                                full@[j as int].spec_name(),
                            ));
                        }
                    }
                    assert(is_dep_path(full@, p));
                    assert(p.len() >= 2);
                    assert(full@[p[0]].spec_name() == full@[j as int].spec_name());
                    assert(on_cycle(full@, full@[j as int].spec_name()));
                }
                return Err(
                    BenchmarkingError::CyclicDependency(String::from_str(full[j].name())),
                );
            }
            if cj == 0 {
                let ghost colors_before = colors@;
                let res = dfs_topo_sort_inner(
                    full,
                    deps_idx,
                    colors,
                    nums,
                    counter,
                    j,
                    Ghost(external),
                    Ghost(stack2),
                );
                match res {
                    Ok(()) => {},
                    Err(e) => {
                        return Err(e);
                    },
                }
                proof {
                    lemma_count0_mono(colors_before, colors@);
                }
            }
        }
        d += 1;
    }
    // Every dependency is finished; assign the next finish number.
    proof {
        lemma_count_le(colors@, 2, i as int);
    }
    let ghost colors1 = colors@;
    let ghost nums1 = nums@;
    crate::strutil::set_usize(nums, i, *counter);
    crate::strutil::set_u8(colors, i, 2);
    *counter = *counter + 1;
    proof {
        lemma_count_update(colors1, 2, i as int, 2);
        assert forall|k: int| 0 <= k < colors@.len() && #[trigger] colors@[k] == 1 implies
            stack.contains(k) by {
            assert(colors1[k] == 1);
            assert(stack2.contains(k));
            let t = choose|t: int| 0 <= t < stack2.len() && stack2[t] == k;
            assert(t < stack2.len() - 1);
            assert(stack[t] == k);
        }
        assert forall|k: int, dd: int|
            (0 <= k < colors@.len() && colors@[k] == 2 && 0 <= dd < idx_views(deps_idx@)[k].len()
                && (#[trigger] idx_views(deps_idx@)[k][dd]) < full@.len()) implies colors@[idx_views(
            deps_idx@,
        )[k][dd] as int] == 2 && nums@[idx_views(deps_idx@)[k][dd] as int] < nums@[k] by {
            if k == i as int {
                assert(colors1[idx_views(deps_idx@)[k][dd] as int] == 2);
                assert(nums1[idx_views(deps_idx@)[k][dd] as int] < *counter - 1 + 1);
            } else {
                assert(colors1[k] == 2);
            }
        }
        assert(dfs_inv(
            full@,
            idx_views(deps_idx@),
            external,
            colors@,
            nums@,
            *counter,
            stack,
        ));
    }
    Ok(())
}

/// Caller for the depth-first ordering over every root.
#[verifier::loop_isolation(false)]
fn dfs_topo_sort(
    full: &Vec<Atomic>,
    deps_idx: &Vec<Vec<usize>>,
    colors: &mut Vec<u8>,
    nums: &mut Vec<usize>,
    counter: &mut usize,
    Ghost(external): Ghost<Seq<Seq<char>>>,
) -> (r: Result<(), BenchmarkingError>)
    requires
        dfs_inv(
            full@,
            idx_views(deps_idx@),
            external,
            old(colors)@,
            old(nums)@,
            *old(counter),
            Seq::empty(),
        ),
        forall|k: int| 0 <= k < old(colors)@.len() ==> #[trigger] old(colors)@[k] == 0,
        *old(counter) == 0,
    ensures
        match r {
            Ok(()) => {
                &&& dfs_inv(
                    full@,
                    idx_views(deps_idx@),
                    external,
                    final(colors)@,
                    final(nums)@,
                    *final(counter),
                    Seq::empty(),
                )
                &&& forall|k: int| 0 <= k < full@.len() ==> #[trigger] final(colors)@[k] == 2
            },
            Err(e) => e matches BenchmarkingError::CyclicDependency(n) && on_cycle(full@, n@),
        },
{
    let mut i: usize = 0;
    while i < full.len()
        invariant
            dfs_inv(
                full@,
                idx_views(deps_idx@),
                external,
                colors@,
                nums@,
                *counter,
                Seq::empty(),
            ),
            i <= full@.len(),
            forall|k: int| 0 <= k < i ==> #[trigger] colors@[k] == 2,
        decreases full@.len() - i,
    {
        let c = colors[i];
        if c == 0 {
            let res = dfs_topo_sort_inner(
                full,
                deps_idx,
                colors,
                nums,
                counter,
                i,
                Ghost(external),
                Ghost(Seq::empty()),
            );
            match res {
                Ok(()) => {},
                Err(e) => {
                    return Err(e);
                },
            }
        } else {
            proof {
                assert(colors@[i as int] != 1) by {
                    if colors@[i as int] == 1 {
                        assert(Seq::<int>::empty().contains(i as int));
                    }
                }
            }
        }
        i += 1;
    }
    Ok(())
}

/// A dependency that can be resolved neither as an atomic nor as an
/// external name.
pub open spec fn has_unresolvable_dep(
    s: Seq<Atomic>,
    external: Seq<Seq<char>>,
    n: Seq<char>,
) -> bool {
    &&& !has_atomic_name(s, n)
    &&& !external.contains(n)
    &&& exists|i: int| 0 <= i < s.len() && (#[trigger] s[i]).spec_deps().contains(n)
}

/// Pointwise agreement of two atomic lists.
pub open spec fn atomics_match(s1: Seq<Atomic>, s2: Seq<Atomic>) -> bool {
    &&& s1.len() == s2.len()
    &&& forall|i: int| 0 <= i < s1.len() ==> atomic_matches(#[trigger] s1[i], s2[i])
}

/// The two lists declare the same names.
pub open spec fn same_names(s1: Seq<Atomic>, s2: Seq<Atomic>) -> bool {
    forall|k: Seq<char>| #[trigger] has_atomic_name(s1, k) <==> has_atomic_name(s2, k)
}

/// The atomic agrees with some atomic of the list.
pub open spec fn sourced_one(a: Atomic, s2: Seq<Atomic>) -> bool {
    exists|j: int| 0 <= j < s2.len() && atomic_matches(a, #[trigger] s2[j])
}

/// Every atomic of the first list agrees with some atomic of the
/// second.
pub open spec fn all_sourced(s1: Seq<Atomic>, s2: Seq<Atomic>) -> bool {
    forall|i: int| 0 <= i < s1.len() ==> #[trigger] sourced_one(s1[i], s2)
}

/// Resolve dependencies and verify the computability of the atom
/// list: orders it so that every dependency comes before its users.
/// A dependency must name an atomic of the list or one of the
/// external names; a cycle is rejected.
#[verifier::loop_isolation(false)]
fn sort_by_finish_time(atoms: &Vec<Atomic>, external: &Vec<String>) -> (r: Result<
    Vec<Atomic>,
    BenchmarkingError,
>)
    requires
        atomic_names_distinct(atoms@),
    ensures
        match r {
            Ok(sorted) => {
                &&& !has_cycle(atoms@)
                &&& atomic_names_distinct(sorted@)
                &&& same_names(sorted@, atoms@)
                &&& all_sourced(sorted@, atoms@)
                &&& deps_topo_sorted(sorted@, external@.map_values(|s: String| s@))
                &&& sorted@.len() == atoms@.len()
            },
            Err(e) => (e matches BenchmarkingError::CyclicDependency(n) && on_cycle(atoms@, n@)) || (
            e matches BenchmarkingError::MissingDependency(n) && has_unresolvable_dep(
                atoms@,
                external@.map_values(|s: String| s@),
                n@,
            )),
        },
{
    let ghost ext_names = external@.map_values(|s: String| s@);
    let n = atoms.len();

    // Resolve every dependency name to an index, or to the
    // out-of-range marker for an external name.
    let mut deps_idx: Vec<Vec<usize>> = Vec::new();
    let mut k: usize = 0;
    while k < n
        invariant
            k <= n,
            n == atoms@.len(),
            deps_idx@.len() == k,
            forall|kk: int|
                0 <= kk < k ==> (#[trigger] idx_views(deps_idx@)[kk]).len()
                    == atoms@[kk].spec_deps().len(),
            forall|kk: int, d: int|
                0 <= kk < k && 0 <= d < idx_views(deps_idx@)[kk].len() ==> (#[trigger] idx_views(
                    deps_idx@,
                )[kk][d]) <= n && (idx_views(deps_idx@)[kk][d] < n
                    ==> atoms@[idx_views(deps_idx@)[kk][d] as int].spec_name()
                    == atoms@[kk].spec_deps()[d]) && (idx_views(deps_idx@)[kk][d] == n
                    ==> ext_names.contains(atoms@[kk].spec_deps()[d]) && !has_atomic_name(
                    atoms@,
                    atoms@[kk].spec_deps()[d],
                )),
        decreases n - k,
    {
        let mut row: Vec<usize> = Vec::new();
        let nd = atoms[k].var_ids().len();
        let mut d: usize = 0;
        while d < nd
            invariant
                k < n,
                d <= nd,
                nd == atoms@[k as int].spec_deps().len(),
                row@.len() == d,
                forall|dd: int|
                    0 <= dd < d ==> (#[trigger] row@[dd]) <= n && (row@[dd] < n
                        ==> atoms@[row@[dd] as int].spec_name() == atoms@[k as int].spec_deps()[dd])
                        && (row@[dd] == n ==> ext_names.contains(atoms@[k as int].spec_deps()[dd])
                        && !has_atomic_name(atoms@, atoms@[k as int].spec_deps()[dd])),
            decreases nd - d,
        {
            let dep = atoms[k].var_ids()[d].clone();
            proof {
                assert(dep@ == atoms@[k as int].spec_deps()[d as int]);
            }
            match find_name_index(atoms, dep.as_str()) {
                Some(j) => {
                    row.push(j);
                },
                None => {
                    let mut found = false;
                    let mut e: usize = 0;
                    while e < external.len()
                        invariant
                            e <= external@.len(),
                            ext_names.len() == external@.len(),
                            forall|t: int|
                                0 <= t < ext_names.len() ==> (#[trigger] ext_names[t])
                                    == external@[t]@,
                            found == exists|t: int|
                                0 <= t < e && (#[trigger] ext_names[t]) == dep@,
                        decreases external@.len() - e,
                    {
                        if str_eq(external[e].as_str(), dep.as_str()) {
                            proof {
                                assert(ext_names[e as int] == dep@);
                            }
                            found = true;
                        }
                        e += 1;
                    }
                    if !found {
                        proof {
                            assert(!ext_names.contains(dep@));
                            assert(atoms@[k as int].spec_deps().contains(dep@));
                        }
                        return Err(BenchmarkingError::MissingDependency(dep));
                    }
                    proof {
                        assert(ext_names.contains(dep@));
                    }
                    row.push(n);
                },
            }
            d += 1;
        }
        let ghost prev = deps_idx@;
        deps_idx.push(row);
        proof {
            assert(idx_views(deps_idx@)[k as int] == row@);
            assert forall|kk: int| 0 <= kk < k + 1 implies (#[trigger] idx_views(
                deps_idx@,
            )[kk]).len() == atoms@[kk].spec_deps().len() by {
                if kk < k {
                    assert(idx_views(deps_idx@)[kk] == deps_idx@[kk]@);
                    assert(deps_idx@[kk] == prev[kk]);
                    assert(idx_views(prev)[kk] == prev[kk]@);
                }
            }
            assert forall|kk: int, dd: int|
                0 <= kk < k + 1 && 0 <= dd < idx_views(deps_idx@)[kk].len() implies (
            #[trigger] idx_views(deps_idx@)[kk][dd]) <= n && (idx_views(deps_idx@)[kk][dd] < n
                ==> atoms@[idx_views(deps_idx@)[kk][dd] as int].spec_name()
                == atoms@[kk].spec_deps()[dd]) && (idx_views(deps_idx@)[kk][dd] == n
                ==> ext_names.contains(atoms@[kk].spec_deps()[dd]) && !has_atomic_name(
                atoms@,
                atoms@[kk].spec_deps()[dd],
            )) by {
                if kk < k {
                    assert(idx_views(deps_idx@)[kk] == deps_idx@[kk]@);
                    assert(deps_idx@[kk] == prev[kk]);
                    assert(idx_views(prev)[kk] == prev[kk]@);
                }
            }
        }
        k += 1;
    }

    // Depth-first ordering over every root.
    let mut colors: Vec<u8> = Vec::new();
    let mut nums: Vec<usize> = Vec::new();
    let mut i: usize = 0;
    while i < n
        invariant
            i <= n,
            colors@.len() == i,
            nums@.len() == i,
            forall|t: int| 0 <= t < i ==> #[trigger] colors@[t] == 0,
            forall|t: int| 0 <= t < i ==> #[trigger] nums@[t] == 0,
        decreases n - i,
    {
        colors.push(0);
        nums.push(0);
        i += 1;
    }
    let mut counter: usize = 0;
    proof {
        lemma_count_none(colors@, 2);
        assert(dfs_inv(
            atoms@,
            idx_views(deps_idx@),
            ext_names,
            colors@,
            nums@,
            counter,
            Seq::empty(),
        ));
    }
    let res = dfs_topo_sort(
        atoms,
        &deps_idx,
        &mut colors,
        &mut nums,
        &mut counter,
        Ghost(ext_names),
    );
    match res {
        Ok(()) => {},
        Err(e) => {
            return Err(e);
        },
    }
    proof {
        lemma_no_cycle(atoms@, idx_views(deps_idx@), ext_names, colors@, nums@, counter);
    }

    // Collect the atoms in ascending order of finish number.
    let mut ordering: Vec<Atomic> = Vec::new();
    let ghost mut src: Seq<int> = Seq::empty();
    let mut t: usize = 0;
    while t < n
        invariant
            t <= n,
            n == atoms@.len(),
            colors@.len() == n,
            nums@.len() == n,
            dfs_inv(
                atoms@,
                idx_views(deps_idx@),
                ext_names,
                colors@,
                nums@,
                counter,
                Seq::empty(),
            ),
            forall|kk: int| 0 <= kk < n ==> #[trigger] colors@[kk] == 2,
            src.len() == ordering@.len(),
            forall|j: int| 0 <= j < src.len() ==> 0 <= #[trigger] src[j] < n,
            forall|j: int|
                0 <= j < src.len() ==> nums@[#[trigger] src[j]] < t,
            forall|j1: int, j2: int|
                0 <= j1 < j2 < src.len() ==> nums@[#[trigger] src[j1]] < nums@[#[trigger] src[j2]],
            forall|j: int|
                0 <= j < src.len() ==> atomic_matches(
                    #[trigger] ordering@[j],
                    atoms@[src[j]],
                ),
            forall|kk: int|
                0 <= kk < n && nums@[kk] < t ==> exists|j: int|
                    0 <= j < src.len() && #[trigger] src[j] == kk,
        decreases n - t,
    {
        let mut kk: usize = 0;
        let ghost src0 = src;
        let ghost len0 = ordering@.len();
        while kk < n
            invariant
                kk <= n,
                t < n,
                src.len() == ordering@.len(),
                forall|j: int| 0 <= j < src.len() ==> 0 <= #[trigger] src[j] < n,
                forall|j: int| 0 <= j < len0 ==> #[trigger] src[j] == src0[j],
                ordering@.len() >= len0,
                forall|j: int|
                    len0 <= j < src.len() ==> nums@[#[trigger] src[j]] == t && src[j] < kk,
                ordering@.len() <= len0 + 1,
                forall|j: int|
                    0 <= j < src.len() ==> atomic_matches(
                        #[trigger] ordering@[j],
                        atoms@[src[j]],
                    ),
                forall|k2: int|
                    0 <= k2 < kk && nums@[k2] == t ==> exists|j: int|
                        len0 <= j < src.len() && #[trigger] src[j] == k2,
            decreases n - kk,
        {
            if nums[kk] == t {
                ordering.push(atoms[kk].clone());
                proof {
                    src = src.push(kk as int);
                    assert(src[src.len() - 1] == kk as int);
                    if ordering@.len() > len0 + 1 {
                        let ja = len0 as int;
                        let jb = src.len() as int - 1;
                        assert(src[jb] == kk as int);
                        assert(src[ja] < kk as int);
                        assert(nums@[src[ja]] == t && nums@[src[jb]] == t);
                        assert(colors@[src[ja]] == 2 && colors@[src[jb]] == 2);
                        assert(nums@[src[ja]] != nums@[src[jb]]);
                    }
                }
            }
            kk += 1;
        }
        proof {
            assert forall|k2: int| 0 <= k2 < n && nums@[k2] < t + 1 implies exists|j: int|
                0 <= j < src.len() && #[trigger] src[j] == k2 by {
                if nums@[k2] < t {
                    let j = choose|j: int| 0 <= j < src0.len() && #[trigger] src0[j] == k2;
                    assert(src[j] == k2);
                } else {
                    assert(nums@[k2] == t);
                    let j = choose|j: int| len0 <= j < src.len() && #[trigger] src[j] == k2;
                    assert(src[j] == k2);
                }
            }
        }
        t += 1;
    }
    proof {
        assert(atomic_names_distinct(ordering@)) by {
            assert forall|j1: int, j2: int| 0 <= j1 < j2 < ordering@.len() implies (
            #[trigger] ordering@[j1]).spec_name() != (#[trigger] ordering@[j2]).spec_name() by {
                assert(nums@[src[j1]] < nums@[src[j2]]);
                assert(src[j1] != src[j2]);
                assert(atoms@[src[j1]].spec_name() != atoms@[src[j2]].spec_name());
            }
        }
        assert(same_names(ordering@, atoms@)) by {
            assert forall|k2: Seq<char>| has_atomic_name(atoms@, k2) implies
                #[trigger] has_atomic_name(ordering@, k2) by {
                let idx = choose|idx: int|
                    0 <= idx < atoms@.len() && (#[trigger] atoms@[idx]).spec_name() == k2;
                assert(nums@[idx] < n) by {
                    assert(colors@[idx] == 2);
                }
                let j = choose|j: int| 0 <= j < src.len() && #[trigger] src[j] == idx;
                assert((ordering@[j]).spec_name() == k2);
            }
            assert forall|k2: Seq<char>| #[trigger] has_atomic_name(ordering@, k2) implies
                has_atomic_name(atoms@, k2) by {
                let j = choose|j: int|
                    0 <= j < ordering@.len() && (#[trigger] ordering@[j]).spec_name() == k2;
                assert((atoms@[src[j]]).spec_name() == k2);
            }
        }
        // Every dependency of a placed atom is placed earlier or is
        // an external name.
        assert(deps_topo_sorted(ordering@, ext_names)) by {
        assert forall|j: int, d: int|
            0 <= j < ordering@.len() && 0 <= d < (#[trigger] ordering@[j]).spec_deps().len()
                implies (exists|j2: int|
            0 <= j2 < j && (#[trigger] ordering@[j2]).spec_name() == ordering@[j].spec_deps()[d])
            || ext_names.contains(#[trigger] ordering@[j].spec_deps()[d]) by {
            let kk2 = src[j];
            assert(ordering@[j].spec_deps() == atoms@[kk2].spec_deps());
            let di = idx_views(deps_idx@)[kk2][d];
            if di < n {
                assert(colors@[di as int] == 2 && nums@[di as int] < nums@[kk2]);
                let j2 = choose|j2: int| 0 <= j2 < src.len() && src[j2] == di as int;
                assert(nums@[src[j2]] < nums@[src[j]]);
                assert(j2 < j) by {
                    if j2 >= j {
                        if j2 > j {
                            assert(nums@[src[j]] < nums@[src[j2]]);
                        }
                    }
                }
                assert((ordering@[j2]).spec_name() == atoms@[di as int].spec_name());
                assert((ordering@[j2]).spec_name() == ordering@[j].spec_deps()[d]);
            } else {
                assert(ext_names.contains(atoms@[kk2].spec_deps()[d]));
            }
        }
        }
        // Same names, unique on both sides: same length.
        lemma_same_names_same_len(ordering@, atoms@);
        assert(all_sourced(ordering@, atoms@)) by {
            assert forall|j: int| 0 <= j < ordering@.len() implies #[trigger] sourced_one(
                ordering@[j],
                atoms@,
            ) by {
                assert(src.len() == ordering@.len());
                assert(0 <= src[j] < atoms@.len());
                assert(atomic_matches(ordering@[j], atoms@[src[j]]));
            }
        }
    }
    Ok(ordering)
}

/// Counting a value that never occurs gives zero.
proof fn lemma_count_none(s: Seq<u8>, v: u8)
    requires
        forall|k: int| 0 <= k < s.len() ==> #[trigger] s[k] != v,
    ensures
        count_eq(s, v) == 0,
    decreases s.len(),
{
    if s.len() > 0 {
        assert forall|k: int| 0 <= k < s.drop_last().len() implies #[trigger] s.drop_last()[k]
            != v by {
            assert(s.drop_last()[k] == s[k]);
        }
        lemma_count_none(s.drop_last(), v);
        assert(s.last() == s[s.len() - 1]);
    }
}

/// A finished depth-first ordering rules every cycle out: a
/// dependency edge strictly decreases the finish number while a walk
/// never increases it.
proof fn lemma_no_cycle(
    full: Seq<Atomic>,
    deps_idx: Seq<Seq<usize>>,
    external: Seq<Seq<char>>,
    colors: Seq<u8>,
    nums: Seq<usize>,
    counter: usize,
)
    requires
        atomic_names_distinct(full),
        dfs_inv(full, deps_idx, external, colors, nums, counter, Seq::empty()),
        forall|k: int| 0 <= k < full.len() ==> #[trigger] colors[k] == 2,
    ensures
        !has_cycle(full),
{
    assert forall|p: Seq<int>|
        !(#[trigger] is_dep_path(full, p) && p.len() >= 2 && p[0] == p.last()) by {
        if is_dep_path(full, p) && p.len() >= 2 && p[0] == p.last() {
            assert(dep_edge(full, p[0], p[1]));
            lemma_edge_num_decrease(full, deps_idx, external, colors, nums, counter, p[0], p[1]);
            // the walk after the first step
            let q = p.drop_first();
            assert(q[0] == p[1]);
            assert(q.last() == p.last());
            assert forall|t: int| 0 <= t < q.len() implies 0 <= #[trigger] q[t] < full.len() by {
                assert(q[t] == p[t + 1]);
            }
            assert forall|t: int|
                0 <= t < q.len() - 1 implies dep_edge(full, #[trigger] q[t], q[t + 1]) by {
                assert(q[t] == p[t + 1]);
                assert(q[t + 1] == p[t + 2]);
            }
            lemma_cycle_nums_nonincrease(full, deps_idx, external, colors, nums, counter, q);
            assert(nums[p.last()] <= nums[p[1]]);
            assert(nums[p[0]] < nums[p[0]]);
        }
    }
}

/// Along any dependency walk the finish number of the last atom is at
/// most that of the first.
proof fn lemma_cycle_nums_nonincrease(
    full: Seq<Atomic>,
    deps_idx: Seq<Seq<usize>>,
    external: Seq<Seq<char>>,
    colors: Seq<u8>,
    nums: Seq<usize>,
    counter: usize,
    p: Seq<int>,
)
    requires
        atomic_names_distinct(full),
        dfs_inv(full, deps_idx, external, colors, nums, counter, Seq::empty()),
        forall|k: int| 0 <= k < full.len() ==> #[trigger] colors[k] == 2,
        is_dep_path(full, p),
    ensures
        nums[p.last()] <= nums[p[0]],
    decreases p.len(),
{
    if p.len() >= 2 {
        assert(dep_edge(full, p[0], p[1]));
        lemma_edge_num_decrease(full, deps_idx, external, colors, nums, counter, p[0], p[1]);
        let q = p.drop_first();
        assert(q[0] == p[1]);
        assert(q.last() == p.last());
        assert forall|t: int| 0 <= t < q.len() implies 0 <= #[trigger] q[t] < full.len() by {
            assert(q[t] == p[t + 1]);
        }
        assert forall|t: int| 0 <= t < q.len() - 1 implies dep_edge(full, #[trigger] q[t], q[t + 1]) by {
            assert(q[t] == p[t + 1]);
            assert(q[t + 1] == p[t + 2]);
        }
        lemma_cycle_nums_nonincrease(full, deps_idx, external, colors, nums, counter, q);
    }
}

/// A dependency edge points at an atom with a smaller finish number.
proof fn lemma_edge_num_decrease(
    full: Seq<Atomic>,
    deps_idx: Seq<Seq<usize>>,
    external: Seq<Seq<char>>,
    colors: Seq<u8>,
    nums: Seq<usize>,
    counter: usize,
    a: int,
    b: int,
)
    requires
        atomic_names_distinct(full),
        dfs_inv(full, deps_idx, external, colors, nums, counter, Seq::empty()),
        forall|k: int| 0 <= k < full.len() ==> #[trigger] colors[k] == 2,
        dep_edge(full, a, b),
    ensures
        nums[b] < nums[a],
{
    let d = choose|d: int|
        0 <= d < full[a].spec_deps().len() && full[a].spec_deps()[d] == full[b].spec_name();
    let di = deps_idx[a][d];
    assert(di <= full.len());
    assert(di < full.len()) by {
        if di == full.len() {
            assert(!has_atomic_name(full, full[b].spec_name()));
            assert((full[b]).spec_name() == full[b].spec_name());
        }
    }
    assert(full[di as int].spec_name() == full[b].spec_name());
    let dib = di as int;
    assert(dib == b) by {
        if dib != b {
            if dib < b {
                assert(full[dib].spec_name() != full[b].spec_name());
            } else {
                assert(full[b].spec_name() != full[dib].spec_name());
            }
        }
    }
    assert(colors[a] == 2);
}

/// Two lists of uniquely named atomics carrying the same names have
/// the same length.
proof fn lemma_same_names_same_len(s1: Seq<Atomic>, s2: Seq<Atomic>)
    requires
        atomic_names_distinct(s1),
        atomic_names_distinct(s2),
        same_names(s1, s2),
    ensures
        s1.len() == s2.len(),
{
    let n1 = names_of(s1);
    let n2 = names_of(s2);
    assert(n1.no_duplicates()) by {
        assert forall|i: int, j: int| 0 <= i < n1.len() && 0 <= j < n1.len() && i != j implies
            n1[i] != n1[j] by {
            assert(n1[i] == s1[i].spec_name());
            assert(n1[j] == s1[j].spec_name());
        }
    }
    assert(n2.no_duplicates()) by {
        assert forall|i: int, j: int| 0 <= i < n2.len() && 0 <= j < n2.len() && i != j implies
            n2[i] != n2[j] by {
            assert(n2[i] == s2[i].spec_name());
            assert(n2[j] == s2[j].spec_name());
        }
    }
    n1.unique_seq_to_set();
    n2.unique_seq_to_set();
    assert(n1.to_set() =~= n2.to_set()) by {
        assert forall|k: Seq<char>| n1.to_set().contains(k) implies n2.to_set().contains(k) by {
            assert(n1.contains(k));
            let i = choose|i: int| 0 <= i < n1.len() && n1[i] == k;
            assert(s1[i].spec_name() == k);
            assert(has_atomic_name(s1, k));
            assert(has_atomic_name(s2, k));
            let j = choose|j: int| 0 <= j < s2.len() && (s2[j]).spec_name() == k;
            assert(n2[j] == k);
            assert(n2.contains(k));
        }
        assert forall|k: Seq<char>| n2.to_set().contains(k) implies n1.to_set().contains(k) by {
            assert(n2.contains(k));
            let i = choose|i: int| 0 <= i < n2.len() && n2[i] == k;
            assert(s2[i].spec_name() == k);
            assert(has_atomic_name(s2, k));
            assert(has_atomic_name(s1, k));
            let j = choose|j: int| 0 <= j < s1.len() && (s1[j]).spec_name() == k;
            assert(n1[j] == k);
            assert(n1.contains(k));
        }
    }
}

/// The required-input names are exactly the undeclared dependencies.
pub open spec fn required_matches(req: Seq<Seq<char>>, atoms: Seq<Atomic>) -> bool {
    forall|k: Seq<char>| #[trigger] req.contains(k) <==> is_required_name(atoms, k)
}

/// The non-KPI names are the non-KPI originals plus the required
/// inputs.
pub open spec fn non_kpi_matches(nk: Seq<Seq<char>>, atoms: Seq<Atomic>) -> bool {
    forall|k: Seq<char>|
        #[trigger] nk.contains(k) <==> (nonkpi_names(atoms).contains(k) || is_required_name(
            atoms,
            k,
        ))
}

/// A cycle in an extended list whose added atoms have no
/// dependencies already lies in the original prefix.
proof fn lemma_on_cycle_prefix(full: Seq<Atomic>, ol: int, k: Seq<char>)
    requires
        0 <= ol <= full.len(),
        forall|t: int| ol <= t < full.len() ==> (#[trigger] full[t]).spec_deps().len() == 0,
        on_cycle(full, k),
    ensures
        on_cycle(full.take(ol), k),
{
    let p = choose|p: Seq<int>|
        #[trigger] is_dep_path(full, p) && p.len() >= 2 && p[0] == p.last() && full[p[0]].spec_name()
            == k;
    assert forall|t: int| 0 <= t < p.len() implies 0 <= #[trigger] p[t] < ol by {
        if t < p.len() - 1 {
            assert(dep_edge(full, p[t], p[t + 1]));
            assert(full[p[t]].spec_deps().contains(full[p[t + 1]].spec_name()));
            if p[t] >= ol {
                let dd = choose|dd: int|
                    0 <= dd < full[p[t]].spec_deps().len() && full[p[t]].spec_deps()[dd]
                        == full[p[t + 1]].spec_name();
            }
        } else {
            assert(p[t] == p[0]);
            assert(dep_edge(full, p[0], p[1]));
            assert(full[p[0]].spec_deps().contains(full[p[1]].spec_name()));
            if p[0] >= ol {
                let dd = choose|dd: int|
                    0 <= dd < full[p[0]].spec_deps().len() && full[p[0]].spec_deps()[dd]
                        == full[p[1]].spec_name();
            }
        }
    }
    assert(is_dep_path(full.take(ol), p)) by {
        assert forall|t: int| 0 <= t < p.len() - 1 implies dep_edge(
            full.take(ol),
            #[trigger] p[t],
            p[t + 1],
        ) by {
            assert(full.take(ol)[p[t]] == full[p[t]]);
            assert(full.take(ol)[p[t + 1]] == full[p[t + 1]]);
        }
    }
    assert(full.take(ol)[p[0]] == full[p[0]]);
    assert(on_cycle(full.take(ol), k));
}

/// A cycle in the original prefix survives the extension.
proof fn lemma_cycle_extends(full: Seq<Atomic>, ol: int)
    requires
        0 <= ol <= full.len(),
        has_cycle(full.take(ol)),
    ensures
        has_cycle(full),
{
    let p = choose|p: Seq<int>|
        #[trigger] is_dep_path(full.take(ol), p) && p.len() >= 2 && p[0] == p.last();
    assert(is_dep_path(full, p)) by {
        assert forall|t: int| 0 <= t < p.len() implies 0 <= #[trigger] p[t] < full.len() by {}
        assert forall|t: int| 0 <= t < p.len() - 1 implies dep_edge(full, #[trigger] p[t], p[t + 1]) by {
            assert(full.take(ol)[p[t]] == full[p[t]]);
            assert(full.take(ol)[p[t + 1]] == full[p[t + 1]]);
        }
    }
    assert(is_dep_path(full, p) && p.len() >= 2 && p[0] == p.last());
}

/// The value an input holds under a name (meaningful when the name
/// is present and the input well-formed).
pub open spec fn input_value_of(input: Input, k: Seq<char>) -> Seq<u64> {
    let i = choose|i: int|
        0 <= i < input.spec_vars().len() && (#[trigger] input.spec_vars()[i]).spec_name() == k;
    input.spec_vars()[i].spec_values()
}

/// The table an evaluation starts from: one entry per required input,
/// in required-list order, carrying the company's value.
pub open spec fn seed_entries(req: Seq<Seq<char>>, input: Input) -> Seq<(Seq<char>, Seq<u64>)> {
    Seq::new(req.len(), |i: int| (req[i], input_value_of(input, req[i])))
}

/// One evaluation step: the atomic passes every check and its result
/// is appended to the table.
pub open spec fn run_step<F: Fn(Prim, u64, u64) -> u64>(
    f: F,
    a: Atomic,
    rv0: Seq<(Seq<char>, Seq<u64>)>,
    rv1: Seq<(Seq<char>, Seq<u64>)>,
) -> bool {
    &&& a.calc_check(rv0) == CalcCheck::Pass
    &&& exists|v: Seq<u64>|
        #[trigger] a.calc_value_rel(f, rv0, v) && rv1 == rv0.push((a.spec_name(), v))
}

/// The tables passed through while evaluating the whole list.
pub open spec fn is_run_trace<F: Fn(Prim, u64, u64) -> u64>(
    f: F,
    ops: Seq<Atomic>,
    rvs: Seq<Seq<(Seq<char>, Seq<u64>)>>,
) -> bool {
    &&& rvs.len() == ops.len() + 1
    &&& forall|t: int| 0 <= t < ops.len() ==> #[trigger] run_step(f, ops[t], rvs[t], rvs[t + 1])
}

/// Evaluation stopped at step `t` with the error `e`.
pub open spec fn run_fails_at<F: Fn(Prim, u64, u64) -> u64>(
    f: F,
    ops: Seq<Atomic>,
    seed: Seq<(Seq<char>, Seq<u64>)>,
    rvs: Seq<Seq<(Seq<char>, Seq<u64>)>>,
    t: int,
    e: BenchmarkingError,
) -> bool {
    &&& 0 <= t < ops.len()
    &&& rvs.len() == t + 1
    &&& rvs[0] == seed
    &&& is_run_trace(f, ops.take(t), rvs)
    &&& ops[t].calc_err_matches(rvs.last(), e)
}

/// The output carries exactly the table entries left after the
/// non-KPI and required names are removed, as raw results without
/// statistics.
pub open spec fn output_packs(
    out: Output,
    rv: Seq<(Seq<char>, Seq<u64>)>,
    non_kpis: Seq<Seq<char>>,
    required: Seq<Seq<char>>,
) -> bool {
    let fin = filtered_entries(filtered_entries(rv, non_kpis), required);
    &&& out.spec_vars().len() == fin.len()
    &&& forall|i: int|
        0 <= i < fin.len() ==> (#[trigger] out.spec_vars()[i]).spec_name() == fin[i].0
            && out.spec_vars()[i].spec_result() == fin[i].1 && out.spec_vars()[
            i
        ].spec_best_in_class() == Seq::<u64>::empty() && out.spec_vars()[i].spec_worst_in_class()
            == Seq::<u64>::empty() && out.spec_vars()[i].spec_average() == Seq::<u64>::empty()
            && out.spec_vars()[i].spec_median() == Seq::<u64>::empty() && out.spec_vars()[
            i
        ].spec_lower_quantile() == Seq::<u64>::empty() && out.spec_vars()[i].spec_upper_quantile()
            == Seq::<u64>::empty()
}

/// What aggregation promises of its result for a given population:
/// a zero population or an infinite component yields the default-
/// empty result; otherwise the statistics are read off the stable
/// sort of the rows.
pub open spec fn aggregate_post<F: Fn(Prim, u64, u64) -> u64>(
    f: F,
    rows: Seq<Seq<u64>>,
    out: OutputVariable,
) -> bool {
    let n = rows.len() as int;
    if n == 0 || rows_has_inf(rows) {
        empty_output_var(out)
    } else {
        let sorted = ssort(rows);
        &&& out.spec_name() == Seq::<char>::empty()
        &&& out.spec_result() == Seq::<u64>::empty()
        &&& out.spec_best_in_class() == sorted[n - 1]
        &&& out.spec_worst_in_class() == sorted[0]
        &&& (n % 2 == 0 ==> avg2_rel(f, sorted[n / 2 - 1], sorted[n / 2], out.spec_median()))
        &&& (n % 2 != 0 ==> out.spec_median() == sorted[n / 2])
        &&& (n % 4 == 0 ==> avg2_rel(
            f,
            sorted[n / 4 - 1],
            sorted[n / 4],
            out.spec_lower_quantile(),
        ))
        &&& (n % 4 != 0 ==> out.spec_lower_quantile() == sorted[n / 4])
        &&& (n % 4 == 0 ==> avg2_rel(
            f,
            sorted[3 * n / 4 - 1],
            sorted[3 * n / 4],
            out.spec_upper_quantile(),
        ))
        &&& (n % 4 != 0 ==> out.spec_upper_quantile() == sorted[3 * n / 4])
        &&& mean_rel(f, sorted, rows[0].len() as int, out.spec_average())
    }
}

/// A default-empty output variable: nameless, with every vector
/// empty.
pub open spec fn empty_output_var(out: OutputVariable) -> bool {
    &&& out.spec_name() == Seq::<char>::empty()
    &&& out.spec_result() == Seq::<u64>::empty()
    &&& out.spec_best_in_class() == Seq::<u64>::empty()
    &&& out.spec_worst_in_class() == Seq::<u64>::empty()
    &&& out.spec_average() == Seq::<u64>::empty()
    &&& out.spec_median() == Seq::<u64>::empty()
    &&& out.spec_lower_quantile() == Seq::<u64>::empty()
    &&& out.spec_upper_quantile() == Seq::<u64>::empty()
}

/// A non-empty missing list names a required input the company lacks.
pub proof fn lemma_missing_names_nonempty(required: Seq<Seq<char>>, input: Input)
    requires
        missing_names(required, input).len() > 0,
    ensures
        exists|idx: int|
            0 <= idx < required.len() && !input.spec_has(#[trigger] required[idx]),
    decreases required.len(),
{
    if required.len() > 0 {
        if input.spec_has(required.last()) {
            lemma_missing_names_nonempty(required.drop_last(), input);
            let idx = choose|idx: int|
                0 <= idx < required.drop_last().len() && !input.spec_has(
                    #[trigger] required.drop_last()[idx],
                );
            assert(required.drop_last()[idx] == required[idx]);
            assert(!input.spec_has(required[idx]));
        } else {
            assert(required.last() == required[required.len() - 1]);
            assert(!input.spec_has(required[required.len() - 1]));
        }
    }
}

/// The name is one of the KPI list's names.
pub open spec fn is_kpi_name(kpis: Seq<Atomic>, nm: Seq<char>) -> bool {
    exists|i: int| 0 <= i < kpis.len() && (#[trigger] kpis[i]).spec_name() == nm
}

/// A required name absent from the input appears in the missing list.
proof fn lemma_missing_names_contains(required: Seq<Seq<char>>, input: Input, j: int)
    requires
        0 <= j < required.len(),
        !input.spec_has(required[j]),
    ensures
        missing_names(required, input).len() > 0,
    decreases required.len(),
{
    if j == required.len() - 1 {
        assert(required.last() == required[j]);
    } else {
        assert(required.drop_last()[j] == required[j]);
        lemma_missing_names_contains(required.drop_last(), input, j);
    }
}

} // verus!
