//! The laws of the library: what holds of every loaded algorithm,
//! every lowering and every evaluation, proved once and for all from
//! the public contracts.

use crate::algorithm::{
    atomic_names_distinct, atomics_match, deps_topo_sorted, dep_edge, has_atomic_name, has_cycle,
    is_dep_path, is_run_trace, kpi_filter, lemma_nonkpi_names_complete, non_kpi_matches,
    is_kpi_name, nonkpi_names, output_packs, required_matches, run_step, same_names,
    seed_entries, aggregate_post, Algorithm,
};
use crate::atomic::{Atomic, CalcCheck};
use crate::formula::{
    helper_in_range, is_helper_shaped, lemma_helper_name_shaped, lemma_lower_counter_bound,
    lemma_lower_list_counter_bound, lemma_lower_list_names, lemma_lower_sub_names,
    lower_formulas_spec, lower_list_spec, lower_root_spec, lower_sub_spec, Formula,
};
use crate::input::Input;
use crate::operation::Prim;
use crate::output::Output;
use crate::resolved::{entry_keys_distinct, filtered_entries, lemma_filtered_entries_distinct, seq_contains_key};
use crate::stats::{insert_sorted, rows_has_inf, row_sourced, ssort, lemma_ssort_elems};
use vstd::prelude::*;

verus! {

/// Execution lists are sound: their names are distinct, and every
/// dependency of an atomic appears earlier in the list or is a
/// required-input name.
pub proof fn law_execution_list_sound(alg: Algorithm)
    requires
        alg.wf(),
    ensures
        atomic_names_distinct(alg.spec_operations()),
        deps_topo_sorted(alg.spec_operations(), alg.spec_required()),
{
}

/// A dependency edge within a sound execution list points strictly
/// backwards.
proof fn lemma_ops_edge_decreases(alg: Algorithm, a: int, b: int)
    requires
        alg.wf(),
        dep_edge(alg.spec_operations(), a, b),
    ensures
        b < a,
{
    let ops = alg.spec_operations();
    let d = choose|d: int|
        0 <= d < ops[a].spec_deps().len() && ops[a].spec_deps()[d] == ops[b].spec_name();
    if alg.spec_required().contains(ops[a].spec_deps()[d]) {
        assert(!has_atomic_name(ops, ops[b].spec_name()));
        assert((ops[b]).spec_name() == ops[b].spec_name());
    } else {
        let j = choose|j: int|
            0 <= j < a && (#[trigger] ops[j]).spec_name() == ops[a].spec_deps()[d];
        assert(j == b) by {
            if j != b {
                if j < b {
                    assert(ops[j].spec_name() != ops[b].spec_name());
                } else {
                    assert(ops[b].spec_name() != ops[j].spec_name());
                }
            }
        }
    }
}

/// Along any dependency walk in a sound execution list the indices
/// never increase.
proof fn lemma_ops_path_nonincrease(alg: Algorithm, p: Seq<int>)
    requires
        alg.wf(),
        is_dep_path(alg.spec_operations(), p),
    ensures
        p.last() <= p[0],
    decreases p.len(),
{
    if p.len() >= 2 {
        assert(dep_edge(alg.spec_operations(), p[0], p[1]));
        lemma_ops_edge_decreases(alg, p[0], p[1]);
        let q = p.drop_first();
        assert(q[0] == p[1]);
        assert(q.last() == p.last());
        assert forall|t: int| 0 <= t < q.len() implies 0 <= #[trigger] q[t]
            < alg.spec_operations().len() by {
            assert(q[t] == p[t + 1]);
        }
        assert forall|t: int|
            0 <= t < q.len() - 1 implies dep_edge(
            alg.spec_operations(),
            #[trigger] q[t],
            q[t + 1],
        ) by {
            assert(q[t] == p[t + 1]);
            assert(q[t + 1] == p[t + 2]);
        }
        lemma_ops_path_nonincrease(alg, q);
    }
}

/// Algorithms are cycle-free: no dependency walk in the execution
/// list returns to its starting atomic.
pub proof fn law_algorithm_acyclic(alg: Algorithm)
    requires
        alg.wf(),
    ensures
        !has_cycle(alg.spec_operations()),
{
    let ops = alg.spec_operations();
    assert forall|p: Seq<int>|
        !(#[trigger] is_dep_path(ops, p) && p.len() >= 2 && p[0] == p.last()) by {
        if is_dep_path(ops, p) && p.len() >= 2 && p[0] == p.last() {
            assert(dep_edge(ops, p[0], p[1]));
            lemma_ops_edge_decreases(alg, p[0], p[1]);
            let q = p.drop_first();
            assert(q[0] == p[1]);
            assert(q.last() == p.last());
            assert forall|t: int| 0 <= t < q.len() implies 0 <= #[trigger] q[t] < ops.len() by {
                assert(q[t] == p[t + 1]);
            }
            assert forall|t: int|
                0 <= t < q.len() - 1 implies dep_edge(ops, #[trigger] q[t], q[t + 1]) by {
                assert(q[t] == p[t + 1]);
                assert(q[t + 1] == p[t + 2]);
            }
            lemma_ops_path_nonincrease(alg, q);
            assert(p[0] < p[0]);
        }
    }
}

/// No atomic a subtree lowering emits is flagged as a KPI.
proof fn lemma_lowered_sub_not_kpi(e: crate::formula::Expression, c: nat)
    ensures
        forall|i: int|
            0 <= i < lower_sub_spec(e, c).0.len() ==> !(#[trigger] lower_sub_spec(e, c).0[i]).1,
    decreases e, 0int,
{
    match e {
        crate::formula::Expression::Literal(_) => {},
        crate::formula::Expression::UnaryExpression(u) => {
            lemma_lowered_sub_not_kpi(*u.argument, c);
            let (la, ca, na) = lower_sub_spec(*u.argument, c);
            assert forall|i: int|
                0 <= i < lower_sub_spec(e, c).0.len() implies !(#[trigger] lower_sub_spec(
                e,
                c,
            ).0[i]).1 by {
                if i < la.len() {
                    assert(lower_sub_spec(e, c).0[i] == la[i]);
                }
            }
        },
        crate::formula::Expression::Binary(b) => {
            lemma_lowered_sub_not_kpi(*b.left, c);
            let (l1, ca, n1) = lower_sub_spec(*b.left, c);
            lemma_lowered_sub_not_kpi(*b.right, ca);
            let (l2, cb, n2) = lower_sub_spec(*b.right, ca);
            assert forall|i: int|
                0 <= i < lower_sub_spec(e, c).0.len() implies !(#[trigger] lower_sub_spec(
                e,
                c,
            ).0[i]).1 by {
                if i < l1.len() {
                    assert(lower_sub_spec(e, c).0[i] == (l1 + l2)[i]);
                    assert((l1 + l2)[i] == l1[i]);
                } else if i < l1.len() + l2.len() {
                    assert(lower_sub_spec(e, c).0[i] == (l1 + l2)[i]);
                    assert((l1 + l2)[i] == l2[i - l1.len()]);
                }
            }
        },
        crate::formula::Expression::NAryExpression(na) => {
            lemma_lowered_list_not_kpi(na.operands@, 0, c);
            let (ll, cl, ns) = lower_list_spec(na.operands@, 0, c);
            assert forall|i: int|
                0 <= i < lower_sub_spec(e, c).0.len() implies !(#[trigger] lower_sub_spec(
                e,
                c,
            ).0[i]).1 by {
                if i < ll.len() {
                    assert(lower_sub_spec(e, c).0[i] == ll[i]);
                }
            }
        },
    }
}

/// No atomic an operand-list lowering emits is flagged as a KPI.
proof fn lemma_lowered_list_not_kpi(es: Seq<crate::formula::Expression>, i: int, c: nat)
    ensures
        forall|j: int|
            0 <= j < lower_list_spec(es, i, c).0.len() ==> !(#[trigger] lower_list_spec(
                es,
                i,
                c,
            ).0[j]).1,
    decreases es, es.len() - i,
{
    if 0 <= i < es.len() {
        lemma_lowered_sub_not_kpi(es[i], c);
        let (l1, c1, n1) = lower_sub_spec(es[i], c);
        lemma_lowered_list_not_kpi(es, i + 1, c1);
        let (l2, c2, ns) = lower_list_spec(es, i + 1, c1);
        assert forall|j: int|
            0 <= j < lower_list_spec(es, i, c).0.len() implies !(#[trigger] lower_list_spec(
            es,
            i,
            c,
        ).0[j]).1 by {
            if j < l1.len() {
                assert(lower_list_spec(es, i, c).0[j] == (l1 + l2)[j]);
                assert((l1 + l2)[j] == l1[j]);
            } else {
                assert(lower_list_spec(es, i, c).0[j] == (l1 + l2)[j]);
                assert((l1 + l2)[j] == l2[j - l1.len()]);
            }
        }
    }
}

/// Lowering a formula represents its root by the last emitted atomic,
/// which carries the formula's name and KPI flag; every other emitted
/// atomic is not a KPI.
pub proof fn law_lowering_root(
    e: crate::formula::Expression,
    c: nat,
    parent: Seq<char>,
    is_kpi: bool,
)
    ensures
        lower_root_spec(e, c, parent, is_kpi).0.len() >= 1,
        lower_root_spec(e, c, parent, is_kpi).0.last().0 == parent,
        lower_root_spec(e, c, parent, is_kpi).0.last().1 == is_kpi,
        forall|i: int|
            0 <= i < lower_root_spec(e, c, parent, is_kpi).0.len() - 1 ==> !(
            #[trigger] lower_root_spec(e, c, parent, is_kpi).0[i]).1,
{
    let l = lower_root_spec(e, c, parent, is_kpi).0;
    match e {
        crate::formula::Expression::Literal(_) => {},
        crate::formula::Expression::UnaryExpression(u) => {
            lemma_lowered_sub_not_kpi(*u.argument, c);
            let (la, ca, na) = lower_sub_spec(*u.argument, c);
            assert forall|i: int| 0 <= i < l.len() - 1 implies !(#[trigger] l[i]).1 by {
                assert(l[i] == la[i]);
            }
        },
        crate::formula::Expression::Binary(b) => {
            lemma_lowered_sub_not_kpi(*b.left, c);
            let (l1, ca, n1) = lower_sub_spec(*b.left, c);
            lemma_lowered_sub_not_kpi(*b.right, ca);
            let (l2, cb, n2) = lower_sub_spec(*b.right, ca);
            assert forall|i: int| 0 <= i < l.len() - 1 implies !(#[trigger] l[i]).1 by {
                assert(l[i] == (l1 + l2)[i]);
                if i < l1.len() {
                    assert((l1 + l2)[i] == l1[i]);
                } else {
                    assert((l1 + l2)[i] == l2[i - l1.len()]);
                }
            }
        },
        crate::formula::Expression::NAryExpression(na) => {
            lemma_lowered_list_not_kpi(na.operands@, 0, c);
            let (ll, cl, ns) = lower_list_spec(na.operands@, 0, c);
            assert forall|i: int| 0 <= i < l.len() - 1 implies !(#[trigger] l[i]).1 by {
                assert(l[i] == ll[i]);
            }
        },
    }
}

/// Lowering is deterministic: two atomic lists produced for the same
/// formulas with the same starting counter agree in every part.
pub proof fn law_lowering_deterministic(
    fs: Seq<Formula>,
    r1: Seq<Atomic>,
    r2: Seq<Atomic>,
)
    requires
        crate::formula::matches_atomics(r1, lower_formulas_spec(fs, 0, 0).0),
        crate::formula::matches_atomics(r2, lower_formulas_spec(fs, 0, 0).0),
    ensures
        r1.len() == r2.len(),
        forall|i: int|
            0 <= i < r1.len() ==> (#[trigger] r1[i]).spec_name() == r2[i].spec_name() && r1[
            i].spec_is_kpi() == r2[i].spec_is_kpi() && r1[i].spec_op() == r2[i].spec_op() && r1[
            i].spec_deps() == r2[i].spec_deps() && r1[i].spec_constant() == r2[i].spec_constant(),
{
    assert forall|i: int|
        0 <= i < r1.len() implies (#[trigger] r1[i]).spec_name() == r2[i].spec_name() && r1[
    i].spec_is_kpi() == r2[i].spec_is_kpi() && r1[i].spec_op() == r2[i].spec_op() && r1[
    i].spec_deps() == r2[i].spec_deps() && r1[i].spec_constant() == r2[i].spec_constant() by {
        assert(crate::formula::matches_atomic(r1[i], lower_formulas_spec(fs, 0, 0).0[i]));
        assert(crate::formula::matches_atomic(r2[i], lower_formulas_spec(fs, 0, 0).0[i]));
    }
}

/// Loading is deterministic up to execution order: two algorithms
/// loaded from the same atomic list carry the same KPI list, the same
/// required-input names, the same non-KPI names and the same
/// execution-list names.
pub proof fn law_load_deterministic(atomics: Seq<Atomic>, a1: Algorithm, a2: Algorithm)
    requires
        same_names(a1.spec_operations(), atomics),
        same_names(a2.spec_operations(), atomics),
        required_matches(a1.spec_required(), atomics),
        required_matches(a2.spec_required(), atomics),
        non_kpi_matches(a1.spec_non_kpis(), atomics),
        non_kpi_matches(a2.spec_non_kpis(), atomics),
        atomics_match(a1.spec_kpis(), kpi_filter(atomics)),
        atomics_match(a2.spec_kpis(), kpi_filter(atomics)),
    ensures
        a1.spec_kpis().len() == a2.spec_kpis().len(),
        forall|i: int|
            0 <= i < a1.spec_kpis().len() ==> (#[trigger] a1.spec_kpis()[i]).spec_name()
                == a2.spec_kpis()[i].spec_name() && a1.spec_kpis()[i].spec_is_kpi()
                == a2.spec_kpis()[i].spec_is_kpi() && a1.spec_kpis()[i].spec_op()
                == a2.spec_kpis()[i].spec_op() && a1.spec_kpis()[i].spec_deps()
                == a2.spec_kpis()[i].spec_deps() && a1.spec_kpis()[i].spec_constant()
                == a2.spec_kpis()[i].spec_constant(),
        forall|k: Seq<char>|
            #[trigger] a1.spec_required().contains(k) <==> a2.spec_required().contains(k),
        forall|k: Seq<char>|
            #[trigger] a1.spec_non_kpis().contains(k) <==> a2.spec_non_kpis().contains(k),
        forall|k: Seq<char>|
            #[trigger] has_atomic_name(a1.spec_operations(), k) <==> has_atomic_name(
                a2.spec_operations(),
                k,
            ),
{
    assert forall|i: int|
        0 <= i < a1.spec_kpis().len() implies (#[trigger] a1.spec_kpis()[i]).spec_name()
        == a2.spec_kpis()[i].spec_name() && a1.spec_kpis()[i].spec_is_kpi() == a2.spec_kpis()[
    i].spec_is_kpi() && a1.spec_kpis()[i].spec_op() == a2.spec_kpis()[i].spec_op()
        && a1.spec_kpis()[i].spec_deps() == a2.spec_kpis()[i].spec_deps() && a1.spec_kpis()[
    i].spec_constant() == a2.spec_kpis()[i].spec_constant() by {
        assert(crate::algorithm::atomic_matches(a1.spec_kpis()[i], kpi_filter(atomics)[i]));
        assert(crate::algorithm::atomic_matches(a2.spec_kpis()[i], kpi_filter(atomics)[i]));
    }
    assert forall|k: Seq<char>|
        #[trigger] a1.spec_required().contains(k) <==> a2.spec_required().contains(k) by {}
    assert forall|k: Seq<char>|
        #[trigger] a1.spec_non_kpis().contains(k) <==> a2.spec_non_kpis().contains(k) by {}
}

/// Aggregating a population of one company yields that company's own
/// vector as best, worst, median and both quartiles.
pub proof fn law_aggregate_single_company<F: Fn(Prim, u64, u64) -> u64>(
    f: F,
    rows: Seq<Seq<u64>>,
    out: crate::output::OutputVariable,
)
    requires
        aggregate_post(f, rows, out),
        rows.len() == 1,
        !rows_has_inf(rows),
    ensures
        out.spec_best_in_class() == rows[0],
        out.spec_worst_in_class() == rows[0],
        out.spec_median() == rows[0],
        out.spec_lower_quantile() == rows[0],
        out.spec_upper_quantile() == rows[0],
{
    assert(rows.drop_last() =~= Seq::<Seq<u64>>::empty());
    assert(ssort(rows.drop_last()) =~= Seq::<Seq<u64>>::empty());
    assert(ssort(rows) == insert_sorted(ssort(rows.drop_last()), rows.last()));
    assert(insert_sorted(ssort(rows.drop_last()), rows.last()) =~= seq![rows.last()]);
    assert(rows.last() == rows[0]);
}

/// Aggregating any odd-sized population of identical vectors yields
/// that shared vector as best, worst, median and both quartiles.
pub proof fn law_aggregate_identical_companies<F: Fn(Prim, u64, u64) -> u64>(
    f: F,
    rows: Seq<Seq<u64>>,
    out: crate::output::OutputVariable,
)
    requires
        aggregate_post(f, rows, out),
        rows.len() >= 1,
        rows.len() % 2 != 0,
        rows.len() % 4 != 0,
        forall|i: int| 0 <= i < rows.len() ==> #[trigger] rows[i] == rows[0],
        !rows_has_inf(rows),
    ensures
        out.spec_best_in_class() == rows[0],
        out.spec_worst_in_class() == rows[0],
        out.spec_median() == rows[0],
        out.spec_lower_quantile() == rows[0],
        out.spec_upper_quantile() == rows[0],
{
    lemma_ssort_elems(rows);
    let sorted = ssort(rows);
    let n = rows.len() as int;
    assert forall|i: int| 0 <= i < sorted.len() implies #[trigger] sorted[i] == rows[0] by {
        assert(row_sourced(sorted[i], rows));
        let j = choose|j: int| 0 <= j < rows.len() && sorted[i] == #[trigger] rows[j];
    }
    assert(sorted[n - 1] == rows[0]);
    assert(sorted[0] == rows[0]);
    assert(sorted[n / 2] == rows[0]);
    assert(sorted[n / 4] == rows[0]);
    assert(sorted[3 * n / 4] == rows[0]);
}

/// The keys of the final table of an evaluation trace are the seeded
/// keys plus the names of the executed atomics, and stay unique.
pub proof fn lemma_trace_keys<F: Fn(Prim, u64, u64) -> u64>(
    f: F,
    ops: Seq<Atomic>,
    rvs: Seq<Seq<(Seq<char>, Seq<u64>)>>,
)
    requires
        is_run_trace(f, ops, rvs),
        entry_keys_distinct(rvs[0]),
    ensures
        forall|k: Seq<char>|
            #[trigger] seq_contains_key(rvs.last(), k) <==> (seq_contains_key(rvs[0], k)
                || has_atomic_name(ops, k)),
        entry_keys_distinct(rvs.last()),
    decreases ops.len(),
{
    if ops.len() == 0 {
        assert(rvs.last() == rvs[0]);
        assert forall|k: Seq<char>|
            #[trigger] seq_contains_key(rvs.last(), k) <==> (seq_contains_key(rvs[0], k)
                || has_atomic_name(ops, k)) by {}
    } else {
        let ops2 = ops.drop_last();
        let rvs2 = rvs.drop_last();
        assert(is_run_trace(f, ops2, rvs2)) by {
            assert forall|t: int| 0 <= t < ops2.len() implies #[trigger] run_step(
                f,
                ops2[t],
                rvs2[t],
                rvs2[t + 1],
            ) by {
                assert(ops2[t] == ops[t]);
                assert(rvs2[t] == rvs[t]);
                assert(rvs2[t + 1] == rvs[t + 1]);
                assert(run_step(f, ops[t], rvs[t], rvs[t + 1]));
            }
        }
        assert(rvs2[0] == rvs[0]);
        lemma_trace_keys(f, ops2, rvs2);
        let t = ops.len() - 1;
        assert(run_step(f, ops[t], rvs[t], rvs[t + 1]));
        let prev = rvs[t];
        assert(rvs2.last() == prev);
        assert(rvs[t + 1] == rvs.last());
        let v = choose|v: Seq<u64>|
            #[trigger] ops[t].calc_value_rel(f, prev, v) && rvs[t + 1] == prev.push(
                (ops[t].spec_name(), v),
            );
        assert(ops[t].calc_check(prev) == CalcCheck::Pass);
        assert(!seq_contains_key(prev, ops[t].spec_name()));
        assert forall|k: Seq<char>| #[trigger] seq_contains_key(rvs.last(), k) implies (
        seq_contains_key(rvs[0], k) || has_atomic_name(ops, k)) by {
            let i = choose|i: int|
                0 <= i < rvs.last().len() && (#[trigger] rvs.last()[i]).0 == k;
            if i < prev.len() {
                assert(rvs.last()[i] == prev[i]);
                assert(seq_contains_key(prev, k));
                if has_atomic_name(ops2, k) {
                    let j = choose|j: int|
                        0 <= j < ops2.len() && (#[trigger] ops2[j]).spec_name() == k;
                    assert((ops[j]).spec_name() == k);
                }
            } else {
                assert(rvs.last()[i].0 == ops[t].spec_name());
                assert((ops[t]).spec_name() == k);
            }
        }
        assert forall|k: Seq<char>| (seq_contains_key(rvs[0], k) || has_atomic_name(ops, k))
            implies #[trigger] seq_contains_key(rvs.last(), k) by {
            if seq_contains_key(rvs[0], k) {
                assert(seq_contains_key(prev, k));
                let i = choose|i: int| 0 <= i < prev.len() && (#[trigger] prev[i]).0 == k;
                assert(rvs.last()[i] == prev[i]);
            } else {
                let j = choose|j: int| 0 <= j < ops.len() && (#[trigger] ops[j]).spec_name() == k;
                if j < ops.len() - 1 {
                    assert(ops2[j] == ops[j]);
                    assert(has_atomic_name(ops2, k)) by {
                        assert((ops2[j]).spec_name() == k);
                    }
                    assert(seq_contains_key(prev, k));
                    let i = choose|i: int| 0 <= i < prev.len() && (#[trigger] prev[i]).0 == k;
                    assert(rvs.last()[i] == prev[i]);
                } else {
                    assert((rvs.last()[rvs.last().len() - 1]).0 == k);
                }
            }
        }
        assert(entry_keys_distinct(rvs.last())) by {
            assert forall|a: int, b: int|
                0 <= a < b < rvs.last().len() implies (#[trigger] rvs.last()[a]).0 != (
            #[trigger] rvs.last()[b]).0 by {
                if b == rvs.last().len() - 1 {
                    assert(rvs.last()[a] == prev[a]);
                    assert(rvs.last()[b].0 == ops[t].spec_name());
                } else {
                    assert(rvs.last()[a] == prev[a]);
                    assert(rvs.last()[b] == prev[b]);
                }
            }
        }
    }
}

/// A successful evaluation resolves one value per executed atomic
/// plus the seeded required inputs, and its output carries exactly
/// the KPI atomics of the loaded list.
#[verifier::rlimit(80)]
pub proof fn law_run_output_exactly_kpis<F: Fn(Prim, u64, u64) -> u64>(
    f: F,
    atomics: Seq<Atomic>,
    alg: Algorithm,
    input: Input,
    out: Output,
    rvs: Seq<Seq<(Seq<char>, Seq<u64>)>>,
)
    requires
        alg.wf(),
        atomic_names_distinct(atomics),
        same_names(alg.spec_operations(), atomics),
        required_matches(alg.spec_required(), atomics),
        non_kpi_matches(alg.spec_non_kpis(), atomics),
        is_run_trace(f, alg.spec_operations(), rvs),
        rvs[0] == seed_entries(alg.spec_required(), input),
        output_packs(out, rvs.last(), alg.spec_non_kpis(), alg.spec_required()),
    ensures
        forall|k: Seq<char>|
            #[trigger] seq_contains_key(rvs.last(), k) <==> (alg.spec_required().contains(k)
                || has_atomic_name(atomics, k)),
        forall|k: Seq<char>|
            #[trigger] out.spec_has(k) <==> exists|t: int|
                0 <= t < atomics.len() && (#[trigger] atomics[t]).spec_name() == k && atomics[
                t].spec_is_kpi(),
{
    let req = alg.spec_required();
    let nk = alg.spec_non_kpis();
    let ops = alg.spec_operations();
    lemma_seed_keys(req, input);
    lemma_trace_keys(f, ops, rvs);
    let rv_n = rvs.last();
    // Table keys: required names plus atomic names.
    assert forall|k: Seq<char>|
        #[trigger] seq_contains_key(rv_n, k) <==> (req.contains(k) || has_atomic_name(
            atomics,
            k,
        )) by {
        assert(seq_contains_key(rv_n, k) <==> (seq_contains_key(rvs[0], k) || has_atomic_name(
            ops,
            k,
        )));
    }
    // Output keys after the two filters.
    lemma_filtered_entries_distinct(rv_n, nk);
    let mid = filtered_entries(rv_n, nk);
    lemma_filtered_entries_distinct(mid, req);
    let fin = filtered_entries(mid, req);
    lemma_nonkpi_names_complete(atomics);
    assert forall|k: Seq<char>| #[trigger] out.spec_has(k) implies exists|t: int|
        0 <= t < atomics.len() && (#[trigger] atomics[t]).spec_name() == k && atomics[
        t].spec_is_kpi() by {
        let a = choose|a: int|
            0 <= a < out.spec_vars().len() && (#[trigger] out.spec_vars()[a]).spec_name() == k;
        assert((fin[a]).0 == k);
        assert(seq_contains_key(fin, k));
        assert(seq_contains_key(mid, k) && !req.contains(k));
        assert(seq_contains_key(rv_n, k) && !nk.contains(k));
        assert(has_atomic_name(atomics, k));
        let t = choose|t: int| 0 <= t < atomics.len() && (#[trigger] atomics[t]).spec_name() == k;
        assert(atomics[t].spec_is_kpi()) by {
            if !atomics[t].spec_is_kpi() {
                assert(nonkpi_names(atomics).contains(atomics[t].spec_name()));
                assert(nk.contains(k));
            }
        }
    }
    assert forall|k: Seq<char>| (exists|t: int|
        0 <= t < atomics.len() && (#[trigger] atomics[t]).spec_name() == k && atomics[
        t].spec_is_kpi()) implies #[trigger] out.spec_has(k) by {
        let t = choose|t: int|
            0 <= t < atomics.len() && (#[trigger] atomics[t]).spec_name() == k && atomics[
            t].spec_is_kpi();
        assert(has_atomic_name(atomics, k)) by {
            assert((atomics[t]).spec_name() == k);
        }
        assert(!crate::algorithm::is_required_name(atomics, k));
        assert(!req.contains(k));
        assert(!nk.contains(k)) by {
            if nk.contains(k) {
                assert(nonkpi_names(atomics).contains(k) || crate::algorithm::is_required_name(
                    atomics,
                    k,
                ));
                let a = choose|a: int|
                    0 <= a < nonkpi_names(atomics).len() && #[trigger] nonkpi_names(atomics)[a]
                        == k;
                let t2 = choose|t2: int|
                    0 <= t2 < atomics.len() && !(#[trigger] atomics[t2]).spec_is_kpi() && atomics[
                    t2].spec_name() == nonkpi_names(atomics)[a];
                assert(t2 == t) by {
                    if t2 != t {
                        if t2 < t {
                            assert(atomics[t2].spec_name() != atomics[t].spec_name());
                        } else {
                            assert(atomics[t].spec_name() != atomics[t2].spec_name());
                        }
                    }
                }
            }
        }
        assert(seq_contains_key(rv_n, k));
        assert(seq_contains_key(mid, k));
        assert(seq_contains_key(fin, k));
        let a = choose|a: int| 0 <= a < fin.len() && (#[trigger] fin[a]).0 == k;
        assert((out.spec_vars()[a]).spec_name() == k);
    }
}

/// A generated intermediate name never equals a name that is not of
/// the generated shape.
proof fn lemma_helper_differs(nm: Seq<char>, lo: nat, hi: nat, parent: Seq<char>)
    requires
        helper_in_range(nm, lo, hi),
        !is_helper_shaped(parent),
    ensures
        nm != parent,
{
    let k = choose|k: nat| lo <= k < hi && nm == crate::formula::helper_name_seq(k);
    lemma_helper_name_shaped(k);
}

/// Lowering a formula yields atomics with mutually distinct names,
/// provided the formula's own name is not of the generated
/// intermediate shape.
pub proof fn law_lowering_names_distinct(
    e: crate::formula::Expression,
    c: nat,
    parent: Seq<char>,
    is_kpi: bool,
)
    requires
        !is_helper_shaped(parent),
    ensures
        ({
            let l = lower_root_spec(e, c, parent, is_kpi).0;
            forall|i: int, j: int|
                0 <= i < j < l.len() ==> (#[trigger] l[i]).0 != (#[trigger] l[j]).0
        }),
{
    let l = lower_root_spec(e, c, parent, is_kpi).0;
    match e {
        crate::formula::Expression::Literal(_) => {},
        crate::formula::Expression::UnaryExpression(u) => {
            lemma_lower_sub_names(*u.argument, c);
            lemma_lower_counter_bound(*u.argument, c);
            let (la, ca, na) = lower_sub_spec(*u.argument, c);
            assert forall|i: int, j: int|
                0 <= i < j < l.len() implies (#[trigger] l[i]).0 != (#[trigger] l[j]).0 by {
                if j < l.len() - 1 {
                    assert(l[i] == la[i] && l[j] == la[j]);
                } else {
                    assert(l[i] == la[i]);
                    assert(l[j].0 == parent);
                    lemma_helper_differs(l[i].0, c, ca, parent);
                }
            }
        },
        crate::formula::Expression::Binary(b) => {
            lemma_lower_sub_names(*b.left, c);
            lemma_lower_counter_bound(*b.left, c);
            let (l1, ca, n1) = lower_sub_spec(*b.left, c);
            lemma_lower_sub_names(*b.right, ca);
            lemma_lower_counter_bound(*b.right, ca);
            let (l2, cb, n2) = lower_sub_spec(*b.right, ca);
            assert forall|i: int, j: int|
                0 <= i < j < l.len() implies (#[trigger] l[i]).0 != (#[trigger] l[j]).0 by {
                if j < l.len() - 1 {
                    assert(l[i] == (l1 + l2)[i] && l[j] == (l1 + l2)[j]);
                    if i < l1.len() && j < l1.len() {
                        assert((l1 + l2)[i] == l1[i] && (l1 + l2)[j] == l1[j]);
                    } else if i < l1.len() {
                        assert((l1 + l2)[i] == l1[i] && (l1 + l2)[j] == l2[j - l1.len()]);
                        crate::formula::lemma_helpers_distinct_across(
                            (l1 + l2)[i].0,
                            (l1 + l2)[j].0,
                            c,
                            ca,
                            cb,
                        );
                    } else {
                        assert((l1 + l2)[i] == l2[i - l1.len()] && (l1 + l2)[j] == l2[j - l1.len()]);
                    }
                } else {
                    assert(l[j].0 == parent);
                    assert(l[i] == (l1 + l2)[i]);
                    if i < l1.len() {
                        assert((l1 + l2)[i] == l1[i]);
                        lemma_helper_differs(l[i].0, c, ca, parent);
                    } else {
                        assert((l1 + l2)[i] == l2[i - l1.len()]);
                        lemma_helper_differs(l[i].0, ca, cb, parent);
                    }
                }
            }
        },
        crate::formula::Expression::NAryExpression(na) => {
            lemma_lower_list_names(na.operands@, 0, c);
            lemma_lower_list_counter_bound(na.operands@, 0, c);
            let (ll, cl, ns) = lower_list_spec(na.operands@, 0, c);
            assert forall|i: int, j: int|
                0 <= i < j < l.len() implies (#[trigger] l[i]).0 != (#[trigger] l[j]).0 by {
                if j < l.len() - 1 {
                    assert(l[i] == ll[i] && l[j] == ll[j]);
                } else {
                    assert(l[i] == ll[i]);
                    assert(l[j].0 == parent);
                    lemma_helper_differs(l[i].0, c, cl, parent);
                }
            }
        },
    }
}

/// Seeding facts shared by the output-key lemmas: the seed's keys
/// are exactly the required names, and they are unique.
proof fn lemma_seed_keys(req: Seq<Seq<char>>, input: Input)
    requires
        forall|i: int, j: int| 0 <= i < j < req.len() ==> req[i] != req[j],
    ensures
        forall|k: Seq<char>|
            #[trigger] seq_contains_key(seed_entries(req, input), k) <==> req.contains(k),
        entry_keys_distinct(seed_entries(req, input)),
{
    let seed = seed_entries(req, input);
    assert forall|k: Seq<char>| #[trigger] seq_contains_key(seed, k) implies req.contains(k) by {
        let i = choose|i: int| 0 <= i < seed.len() && (#[trigger] seed[i]).0 == k;
        assert(seed[i].0 == req[i]);
    }
    assert forall|k: Seq<char>| req.contains(k) implies #[trigger] seq_contains_key(seed, k) by {
        let i = choose|i: int| 0 <= i < req.len() && req[i] == k;
        assert((seed[i]).0 == k);
    }
    assert forall|a: int, b: int|
        0 <= a < b < seed.len() implies (#[trigger] seed[a]).0 != (#[trigger] seed[b]).0 by {
        assert(seed[a].0 == req[a]);
        assert(seed[b].0 == req[b]);
    }
}

/// With a consistent algorithm, a successful evaluation's output
/// carries every KPI name, and nothing but KPI names.
#[verifier::rlimit(60)]
pub proof fn lemma_run_output_kpis<F: Fn(Prim, u64, u64) -> u64>(
    f: F,
    alg: Algorithm,
    input: Input,
    out: Output,
    rvs: Seq<Seq<(Seq<char>, Seq<u64>)>>,
)
    requires
        alg.wf(),
        is_run_trace(f, alg.spec_operations(), rvs),
        rvs[0] == seed_entries(alg.spec_required(), input),
        output_packs(out, rvs.last(), alg.spec_non_kpis(), alg.spec_required()),
    ensures
        forall|i: int|
            0 <= i < alg.spec_kpis().len() ==> out.spec_has(
                (#[trigger] alg.spec_kpis()[i]).spec_name(),
            ),
        forall|v: int|
            0 <= v < out.spec_vars().len() ==> #[trigger] is_kpi_name(
                alg.spec_kpis(),
                (out.spec_vars()[v]).spec_name(),
            ),
{
    let req = alg.spec_required();
    let nk = alg.spec_non_kpis();
    let ops = alg.spec_operations();
    lemma_seed_keys(req, input);
    lemma_trace_keys(f, ops, rvs);
    let rv_n = rvs.last();
    lemma_filtered_entries_distinct(rv_n, nk);
    let mid = filtered_entries(rv_n, nk);
    lemma_filtered_entries_distinct(mid, req);
    let fin = filtered_entries(mid, req);
    assert forall|i: int|
        0 <= i < alg.spec_kpis().len() implies out.spec_has(
        (#[trigger] alg.spec_kpis()[i]).spec_name(),
    ) by {
        let nm = alg.spec_kpis()[i].spec_name();
        assert(has_atomic_name(ops, nm) && !nk.contains(nm) && !req.contains(nm));
        assert(seq_contains_key(rv_n, nm));
        assert(seq_contains_key(mid, nm));
        assert(seq_contains_key(fin, nm));
        let a = choose|a: int| 0 <= a < fin.len() && (#[trigger] fin[a]).0 == nm;
        assert((out.spec_vars()[a]).spec_name() == nm);
    }
    assert forall|v: int|
        0 <= v < out.spec_vars().len() implies #[trigger] is_kpi_name(
        alg.spec_kpis(),
        (out.spec_vars()[v]).spec_name(),
    ) by {
        let nm = out.spec_vars()[v].spec_name();
        assert((fin[v]).0 == nm);
        assert(seq_contains_key(fin, nm)) by {
            assert((fin[v]).0 == nm);
        }
        assert(seq_contains_key(mid, nm) && !req.contains(nm));
        assert(seq_contains_key(rv_n, nm) && !nk.contains(nm));
        assert(has_atomic_name(ops, nm));
        let j = choose|j: int| 0 <= j < ops.len() && (#[trigger] ops[j]).spec_name() == nm;
        assert(ops[j].spec_is_kpi()) by {
            if !ops[j].spec_is_kpi() {
                assert(nk.contains(ops[j].spec_name()));
            }
        }
        let i = choose|i: int|
            0 <= i < alg.spec_kpis().len() && (#[trigger] alg.spec_kpis()[i]).spec_name()
                == ops[j].spec_name();
        assert((alg.spec_kpis()[i]).spec_name() == nm);
    }
}

} // verus!
