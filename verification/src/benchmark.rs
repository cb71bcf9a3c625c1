//! Company benchmarking: the cross-company pipeline.
//!
//! Four stages: evaluate every company's algorithm run, cluster the
//! raw results by KPI, aggregate the population statistics per KPI,
//! and assemble the final per-company outputs.  A failure in any
//! stage fails the whole benchmark; nothing partial is attached.
//!
//! The embedding drives the stages in order and may report progress
//! between them; the stages themselves are pure computation.

use crate::algorithm::{is_run_trace, output_packs, seed_entries, aggregate_post, Algorithm};
use crate::entity::Company;
use crate::error::BenchmarkingError;
use crate::operation::{kernel_total, Prim};
use crate::output::{Output, OutputVariable};
use crate::stats::{row_views, rows_has_inf, rows_have_infinite, rows_uniform};
use crate::strutil::{copy_bits_vec, str_eq};
use vstd::prelude::*;

verus! {

/// What one company's successful evaluation run promises: a
/// well-formed output packaged from some evaluation trace seeded with
/// the company's inputs.
pub open spec fn company_run_ok<F: Fn(Prim, u64, u64) -> u64>(
    f: F,
    alg: Algorithm,
    comp: Company,
    out: Output,
) -> bool {
    &&& out.wf()
    &&& exists|rvs: Seq<Seq<(Seq<char>, Seq<u64>)>>|
        #[trigger] is_run_trace(f, alg.spec_operations(), rvs) && rvs[0] == seed_entries(
            alg.spec_required(),
            comp.spec_input_data(),
        ) && output_packs(out, rvs.last(), alg.spec_non_kpis(), alg.spec_required())
}

/// The company lacks one of the algorithm's required inputs.
pub open spec fn company_blocked(alg: Algorithm, comp: Company) -> bool {
    exists|idx: int|
        0 <= idx < alg.spec_required().len() && !comp.spec_input_data().spec_has(
            #[trigger] alg.spec_required()[idx],
        )
}

/// The company's evaluation stopped on a failed check.
pub open spec fn company_run_failed<F: Fn(Prim, u64, u64) -> u64>(
    f: F,
    alg: Algorithm,
    comp: Company,
    e: BenchmarkingError,
) -> bool {
    exists|rvs: Seq<Seq<(Seq<char>, Seq<u64>)>>, t: int|
        #[trigger] crate::algorithm::run_fails_at(
            f,
            alg.spec_operations(),
            seed_entries(alg.spec_required(), comp.spec_input_data()),
            rvs,
            t,
            e,
        )
}

/// Every company's inputs are well-formed.
pub open spec fn inputs_wf(companies: Seq<(u128, Company)>) -> bool {
    forall|i: int|
        0 <= i < companies.len() ==> (#[trigger] companies[i]).1.spec_input_data().wf()
}

/// The first stage pairs each company, in order, with its raw
/// results.
pub open spec fn stage_compute_post<F: Fn(Prim, u64, u64) -> u64>(
    f: F,
    alg: Algorithm,
    companies: Seq<(u128, Company)>,
    outs: Seq<(u128, Output)>,
) -> bool {
    &&& outs.len() == companies.len()
    &&& forall|i: int|
        0 <= i < outs.len() ==> (#[trigger] outs[i]).0 == companies[i].0 && company_run_ok(
            f,
            alg,
            companies[i].1,
            outs[i].1,
        )
}

/// The output stores this row as the raw result of the named KPI.
pub open spec fn row_of_output(out: Output, kname: Seq<char>, row: Seq<u64>) -> bool {
    exists|j: int|
        0 <= j < out.spec_vars().len() && (#[trigger] out.spec_vars()[j]).spec_name() == kname
            && out.spec_vars()[j].spec_result() == row
}

/// The second stage gathers, for every KPI in declared order, the
/// per-company result vectors in company order.
pub open spec fn stage_cluster_post(
    alg: Algorithm,
    outs: Seq<(u128, Output)>,
    cl: Seq<(String, Vec<Vec<u64>>)>,
) -> bool {
    &&& cl.len() == alg.spec_kpis().len()
    &&& forall|k: int|
        0 <= k < cl.len() ==> ((#[trigger] cl[k]).0)@ == alg.spec_kpis()[k].spec_name() && cl[
        k].1@.len() == outs.len() && (forall|c: int|
            0 <= c < outs.len() ==> row_of_output(
                outs[c].1,
                alg.spec_kpis()[k].spec_name(),
                ((#[trigger] cl[k].1@[c]))@,
            ))
}

/// Every statistics entry answers its cluster: same KPI name, and
/// the statistics read off that KPI's population.  A population
/// holding an infinity is downgraded to the default-empty result
/// without a dimension check; any other population is uniform.
pub open spec fn agg_entries_ok<F: Fn(Prim, u64, u64) -> u64>(
    f: F,
    cl: Seq<(String, Vec<Vec<u64>>)>,
    st: Seq<(String, OutputVariable)>,
) -> bool {
    forall|k: int|
        0 <= k < st.len() ==> (#[trigger] st[k]).0 == cl[k].0 && (rows_uniform(
            row_views(cl[k].1@),
        ) || rows_has_inf(row_views(cl[k].1@))) && aggregate_post(
            f,
            row_views(cl[k].1@),
            st[k].1,
        )
}

/// The third stage aggregates every KPI's population.
pub open spec fn stage_aggregate_post<F: Fn(Prim, u64, u64) -> u64>(
    f: F,
    cl: Seq<(String, Vec<Vec<u64>>)>,
    st: Seq<(String, OutputVariable)>,
) -> bool {
    &&& st.len() == cl.len()
    &&& agg_entries_ok(f, cl, st)
}

/// A final output variable joins a company's raw result with the
/// population statistics stored under its name.
pub open spec fn assembled_var(
    src: OutputVariable,
    st: Seq<(String, OutputVariable)>,
    out: OutputVariable,
) -> bool {
    &&& out.spec_name() == src.spec_name()
    &&& out.spec_result() == src.spec_result()
    &&& exists|j: int|
        0 <= j < st.len() && ((#[trigger] st[j]).0)@ == src.spec_name()
            && out.spec_best_in_class() == st[j].1.spec_best_in_class()
            && out.spec_worst_in_class() == st[j].1.spec_worst_in_class() && out.spec_average()
            == st[j].1.spec_average() && out.spec_median() == st[j].1.spec_median()
            && out.spec_lower_quantile() == st[j].1.spec_lower_quantile()
            && out.spec_upper_quantile() == st[j].1.spec_upper_quantile()
}

/// The fourth stage rebuilds every company's output with the
/// statistics attached.
pub open spec fn stage_assemble_post(
    outs: Seq<(u128, Output)>,
    st: Seq<(String, OutputVariable)>,
    finals: Seq<(u128, Output)>,
) -> bool {
    &&& finals.len() == outs.len()
    &&& forall|c: int|
        0 <= c < finals.len() ==> (#[trigger] finals[c]).0 == outs[c].0 && finals[c].1.wf() && finals[
        c].1.spec_vars().len() == outs[c].1.spec_vars().len() && (forall|v: int|
            0 <= v < finals[c].1.spec_vars().len() ==> assembled_var(
                outs[c].1.spec_vars()[v],
                st,
                (#[trigger] finals[c].1.spec_vars()[v]),
            ))
}

/// What a successful benchmark run promises: outputs, clusters and
/// statistics chained through the four stage contracts.
pub open spec fn benchmark_post<F: Fn(Prim, u64, u64) -> u64>(
    f: F,
    alg: Algorithm,
    companies: Seq<(u128, Company)>,
    finals: Seq<(u128, Output)>,
) -> bool {
    exists|
        outs: Seq<(u128, Output)>,
        cl: Seq<(String, Vec<Vec<u64>>)>,
        st: Seq<(String, OutputVariable)>,
    |
        #![trigger stage_compute_post(f, alg, companies, outs), stage_aggregate_post(f, cl, st)]
        stage_compute_post(f, alg, companies, outs) && stage_cluster_post(alg, outs, cl)
            && stage_aggregate_post(f, cl, st) && stage_assemble_post(outs, st, finals)
}

/// Some statistics entry carries the name.
pub open spec fn name_in_stats(st: Seq<(String, OutputVariable)>, nm: Seq<char>) -> bool {
    exists|j: int| 0 <= j < st.len() && ((#[trigger] st[j]).0)@ == nm
}

/// Every name stored in any output is covered by a statistics entry.
pub open spec fn stats_cover(
    outs: Seq<(u128, Output)>,
    st: Seq<(String, OutputVariable)>,
) -> bool {
    forall|c: int, v: int|
        0 <= c < outs.len() && 0 <= v < outs[c].1.spec_vars().len() ==> name_in_stats(
            st,
            ((#[trigger] outs[c].1.spec_vars()[v])).spec_name(),
        )
}

/// Some KPI's population mixes dimensions without holding an
/// infinity, and the error names that KPI.
pub open spec fn cluster_dims_failure(
    cl: Seq<(String, Vec<Vec<u64>>)>,
    e: BenchmarkingError,
) -> bool {
    exists|k: int|
        0 <= k < cl.len() && !rows_uniform(row_views((#[trigger] cl[k]).1@)) && !rows_has_inf(
            row_views(cl[k].1@),
        ) && (e matches BenchmarkingError::DimensionMismatch(n) && n@ == cl[k].0@)
}

/// Why a whole benchmark run can fail: some company lacks a required
/// input or its evaluation stopped on a failed check, or some KPI's
/// population mixes dimensions.
pub open spec fn benchmark_failure<F: Fn(Prim, u64, u64) -> u64>(
    f: F,
    alg: Algorithm,
    companies: Seq<(u128, Company)>,
    e: BenchmarkingError,
) -> bool {
    ||| exists|i: int|
        0 <= i < companies.len() && (company_blocked(alg, (#[trigger] companies[i]).1)
            || company_run_failed(f, alg, companies[i].1, e))
    ||| exists|outs: Seq<(u128, Output)>, cl: Seq<(String, Vec<Vec<u64>>)>|
        #![trigger stage_compute_post(f, alg, companies, outs), stage_cluster_post(alg, outs, cl)]
        stage_compute_post(f, alg, companies, outs) && stage_cluster_post(alg, outs, cl)
            && cluster_dims_failure(cl, e)
}

/// Verifies and evaluates every company in order; any failure fails
/// the whole stage.
#[verifier::loop_isolation(false)]
pub fn stage_compute<F: Fn(Prim, u64, u64) -> u64>(
    alg: &Algorithm,
    companies: &Vec<(u128, Company)>,
    f: &F,
) -> (r: Result<Vec<(u128, Output)>, BenchmarkingError>)
    requires
        kernel_total(*f),
        alg.wf(),
        inputs_wf(companies@),
    ensures
        r matches Ok(outs) ==> stage_compute_post(*f, *alg, companies@, outs@),
        r matches Err(e) ==> exists|i: int|
            0 <= i < companies@.len() && (company_blocked(*alg, (#[trigger] companies@[i]).1)
                || company_run_failed(*f, *alg, companies@[i].1, e)),
{
    let mut outs: Vec<(u128, Output)> = Vec::new();
    let mut i: usize = 0;
    while i < companies.len()
        invariant
            i <= companies@.len(),
            outs@.len() == i,
            forall|j: int|
                0 <= j < i ==> (#[trigger] outs@[j]).0 == companies@[j].0 && company_run_ok(
                    *f,
                    *alg,
                    companies@[j].1,
                    outs@[j].1,
                ),
        decreases companies@.len() - i,
    {
        let company = &companies[i].1;
        let cloned = company.input_data().clone();
        match alg.verify_input(cloned) {
            Ok(()) => {
                proof {
                    assert forall|idx: int|
                        0 <= idx < alg.spec_required().len() implies company.spec_input_data().spec_has(
                        #[trigger] alg.spec_required()[idx],
                    ) by {
                        let k = alg.spec_required()[idx];
                        assert(cloned.spec_has(k));
                        let a = choose|a: int|
                            0 <= a < cloned.spec_vars().len() && (
                            #[trigger] cloned.spec_vars()[a]).spec_name() == k;
                        assert(company.spec_input_data().spec_vars()[a].spec_name() == k);
                    }
                }
            },
            Err(e) => {
                proof {
                    crate::algorithm::lemma_missing_names_nonempty(alg.spec_required(), cloned);
                    let idx = choose|idx: int|
                        0 <= idx < alg.spec_required().len() && !cloned.spec_has(
                            #[trigger] alg.spec_required()[idx],
                        );
                    let k = alg.spec_required()[idx];
                    assert(!company.spec_input_data().spec_has(k)) by {
                        if company.spec_input_data().spec_has(k) {
                            let a = choose|a: int|
                                0 <= a < company.spec_input_data().spec_vars().len() && (
                                #[trigger] company.spec_input_data().spec_vars()[a]).spec_name()
                                    == k;
                            assert((cloned.spec_vars()[a]).spec_name() == k);
                        }
                    }
                    assert(company_blocked(*alg, companies@[i as int].1));
                }
                return Err(e);
            },
        }
        match alg.run(company, f) {
            Ok(out) => {
                outs.push((companies[i].0, out));
            },
            Err(e) => {
                proof {
                    assert(company_run_failed(*f, *alg, companies@[i as int].1, e));
                }
                return Err(e);
            },
        }
        i += 1;
    }
    Ok(outs)
}

/// Gathers, for every KPI, the vector of per-company results.  The
/// caller warrants that every output carries every KPI name — which
/// a successful first stage guarantees — so clustering always
/// succeeds.
#[verifier::loop_isolation(false)]
pub fn stage_cluster(alg: &Algorithm, company_kpis: &Vec<(u128, Output)>) -> (r: Result<
    Vec<(String, Vec<Vec<u64>>)>,
    BenchmarkingError,
>)
    requires
        forall|c: int, i: int|
            0 <= c < company_kpis@.len() && 0 <= i < alg.spec_kpis().len() ==> (
            #[trigger] company_kpis@[c]).1.spec_has((#[trigger] alg.spec_kpis()[i]).spec_name()),
    ensures
        r is Ok,
        r matches Ok(cl) ==> stage_cluster_post(*alg, company_kpis@, cl@),
{
    let kpis = alg.get_kpis();
    let mut clustered: Vec<(String, Vec<Vec<u64>>)> = Vec::new();
    let mut k: usize = 0;
    while k < kpis.len()
        invariant
            k <= alg.spec_kpis().len(),
            kpis@ == alg.spec_kpis(),
            clustered@.len() == k,
            forall|k2: int|
                0 <= k2 < k ==> ((#[trigger] clustered@[k2]).0)@ == alg.spec_kpis()[
                k2].spec_name() && clustered@[k2].1@.len() == company_kpis@.len() && (forall|c: int|
                    0 <= c < company_kpis@.len() ==> row_of_output(
                        company_kpis@[c].1,
                        alg.spec_kpis()[k2].spec_name(),
                        ((#[trigger] clustered@[k2].1@[c]))@,
                    )),
        decreases alg.spec_kpis().len() - k,
    {
        let kname = String::from_str(kpis[k].name());
        let mut companies_kpi_result: Vec<Vec<u64>> = Vec::new();
        let mut c: usize = 0;
        while c < company_kpis.len()
            invariant
                k < alg.spec_kpis().len(),
                kpis@ == alg.spec_kpis(),
                c <= company_kpis@.len(),
                companies_kpi_result@.len() == c,
                forall|c2: int|
                    0 <= c2 < c ==> row_of_output(
                        company_kpis@[c2].1,
                        alg.spec_kpis()[k as int].spec_name(),
                        ((#[trigger] companies_kpi_result@[c2]))@,
                    ),
            decreases company_kpis@.len() - c,
        {
            match company_kpis[c].1.get_result_from_var(kpis[k].name()) {
                Some(v) => {
                    companies_kpi_result.push(copy_bits_vec(v));
                },
                None => {
                    proof {
                        assert(company_kpis@[c as int].1.spec_has(
                            alg.spec_kpis()[k as int].spec_name(),
                        ));
                    }
                    return Err(BenchmarkingError::UnresolvedValue(kname));
                },
            }
            c += 1;
        }
        clustered.push((kname, companies_kpi_result));
        k += 1;
    }
    Ok(clustered)
}

/// Aggregates every KPI's population statistics.  Populations whose
/// vectors mix dimensions are rejected before any statistic is
/// computed.
#[verifier::loop_isolation(false)]
pub fn stage_aggregate<F: Fn(Prim, u64, u64) -> u64>(
    alg: &Algorithm,
    clustered: Vec<(String, Vec<Vec<u64>>)>,
    f: &F,
) -> (r: Result<Vec<(String, OutputVariable)>, BenchmarkingError>)
    requires
        kernel_total(*f),
        forall|k: int|
            0 <= k < clustered@.len() ==> 3 * (#[trigger] clustered@[k]).1@.len() <= usize::MAX
                && clustered@[k].1@.len() <= u64::MAX,
    ensures
        r matches Ok(st) ==> stage_aggregate_post(*f, clustered@, st@),
        (forall|k: int|
            0 <= k < clustered@.len() ==> rows_uniform(
                row_views((#[trigger] clustered@[k]).1@),
            ) || rows_has_inf(row_views(clustered@[k].1@))) ==> r is Ok,
        r matches Err(e) ==> cluster_dims_failure(clustered@, e),
{
    let ghost cl0 = clustered@;
    let mut remaining = clustered;
    let mut statistical_data: Vec<(String, OutputVariable)> = Vec::new();
    while remaining.len() > 0
        invariant
            cl0.len() == statistical_data@.len() + remaining@.len(),
            forall|j: int|
                0 <= j < remaining@.len() ==> #[trigger] remaining@[j] == cl0[statistical_data@.len()
                    + j],
            agg_entries_ok(*f, cl0, statistical_data@),
        decreases remaining@.len(),
    {
        let ghost kk = statistical_data@.len();
        let (name, mut rows) = remaining.remove(0);
        proof {
            assert(rows == cl0[kk as int].1);
        }
        // An infinite component downgrades the whole population to
        // the default-empty result before any dimension check.
        if rows_have_infinite(&rows) {
            let ghost st0 = statistical_data@;
            statistical_data.push((name, OutputVariable::default()));
            proof {
                assert(statistical_data@[kk as int].0 == cl0[kk as int].0);
                assert(rows@ == cl0[kk as int].1@);
                assert(row_views(rows@) == row_views(cl0[kk as int].1@));
                assert(rows_has_inf(row_views(cl0[kk as int].1@)));
                assert(crate::algorithm::empty_output_var(statistical_data@[kk as int].1));
                assert(aggregate_post(
                    *f,
                    row_views(cl0[kk as int].1@),
                    statistical_data@[kk as int].1,
                ));
                assert(agg_entries_ok(*f, cl0, statistical_data@)) by {
                    assert forall|k: int|
                        0 <= k < statistical_data@.len() implies (
                    #[trigger] statistical_data@[k]).0 == cl0[k].0 && (rows_uniform(
                        row_views(cl0[k].1@),
                    ) || rows_has_inf(row_views(cl0[k].1@))) && aggregate_post(
                        *f,
                        row_views(cl0[k].1@),
                        statistical_data@[k].1,
                    ) by {
                        if k < kk {
                            assert(statistical_data@[k] == st0[k]);
                        }
                    }
                }
            }
        } else {
            // Reject mixed dimensions before computing statistics.
            let mut c: usize = 0;
            let mut uniform = true;
            while c < rows.len()
                invariant
                    c <= rows@.len(),
                    uniform == (forall|c2: int|
                        0 <= c2 < c ==> (#[trigger] rows@[c2])@.len() == rows@[0]@.len() && rows@[
                        c2]@.len() >= 1),
                decreases rows@.len() - c,
            {
                let ghost was = uniform;
                if rows[c].len() != rows[0].len() || rows[c].len() == 0 {
                    uniform = false;
                }
                proof {
                    if uniform {
                        assert((rows@[c as int])@.len() == rows@[0]@.len() && rows@[c as int]@.len()
                            >= 1);
                    }
                }
                c += 1;
            }
            if !uniform {
                proof {
                    assert(!rows_uniform(row_views(rows@))) by {
                        let c2 = choose|c2: int|
                            0 <= c2 < rows@.len() && !((#[trigger] rows@[c2])@.len()
                                == rows@[0]@.len() && rows@[c2]@.len() >= 1);
                        assert(row_views(rows@)[c2] == rows@[c2]@);
                        assert(row_views(rows@)[0] == rows@[0]@);
                    }
                    assert(cluster_dims_failure(
                        cl0,
                        BenchmarkingError::DimensionMismatch(name),
                    )) by {
                        assert(!rows_uniform(row_views(cl0[kk as int].1@)));
                        assert(!rows_has_inf(row_views(cl0[kk as int].1@)));
                        assert(name@ == cl0[kk as int].0@);
                    }
                }
                return Err(BenchmarkingError::DimensionMismatch(name));
            }
            proof {
                assert(rows_uniform(row_views(rows@))) by {
                    assert forall|i: int|
                        0 <= i < row_views(rows@).len() implies (#[trigger] row_views(
                        rows@,
                    )[i]).len() == row_views(rows@)[0].len() && row_views(rows@)[i].len() >= 1 by {
                        assert(row_views(rows@)[i] == rows@[i]@);
                        assert(row_views(rows@)[0] == rows@[0]@);
                    }
                }
            }
            let ghost rows0 = row_views(rows@);
            let ghost st0 = statistical_data@;
            match alg.aggregate_atomic_var(&mut rows, f) {
                Ok(out) => {
                    statistical_data.push((name, out));
                },
                Err(e) => {
                    return Err(e);
                },
            }
            proof {
                assert(statistical_data@[kk as int].0 == cl0[kk as int].0);
                assert(rows0 == row_views(cl0[kk as int].1@));
                assert(aggregate_post(
                    *f,
                    row_views(cl0[kk as int].1@),
                    statistical_data@[kk as int].1,
                ));
                assert(agg_entries_ok(*f, cl0, statistical_data@)) by {
                    assert forall|k: int|
                        0 <= k < statistical_data@.len() implies (
                    #[trigger] statistical_data@[k]).0 == cl0[k].0 && (rows_uniform(
                        row_views(cl0[k].1@),
                    ) || rows_has_inf(row_views(cl0[k].1@))) && aggregate_post(
                        *f,
                        row_views(cl0[k].1@),
                        statistical_data@[k].1,
                    ) by {
                        if k < kk {
                            assert(statistical_data@[k] == st0[k]);
                        }
                    }
                }
            }
        }
    }
    Ok(statistical_data)
}

/// Rebuilds every company's output with the statistics stored under
/// each KPI name.  The caller warrants that the statistics cover
/// every stored name — which a successful third stage guarantees —
/// so assembly always succeeds.
#[verifier::loop_isolation(false)]
#[verifier::rlimit(40)]
pub fn stage_assemble(
    company_kpis: &Vec<(u128, Output)>,
    statistical_data: &Vec<(String, OutputVariable)>,
) -> (r: Result<Vec<(u128, Output)>, BenchmarkingError>)
    requires
        forall|c: int| 0 <= c < company_kpis@.len() ==> (#[trigger] company_kpis@[c]).1.wf(),
        stats_cover(company_kpis@, statistical_data@),
    ensures
        r is Ok,
        r matches Ok(finals) ==> stage_assemble_post(company_kpis@, statistical_data@, finals@),
{
    let mut finals: Vec<(u128, Output)> = Vec::new();
    let mut c: usize = 0;
    while c < company_kpis.len()
        invariant
            c <= company_kpis@.len(),
            finals@.len() == c,
            forall|c2: int|
                0 <= c2 < c ==> (#[trigger] finals@[c2]).0 == company_kpis@[c2].0 && finals@[
                c2].1.wf() && finals@[c2].1.spec_vars().len() == company_kpis@[
                c2].1.spec_vars().len() && (forall|v: int|
                    0 <= v < finals@[c2].1.spec_vars().len() ==> assembled_var(
                        company_kpis@[c2].1.spec_vars()[v],
                        statistical_data@,
                        (#[trigger] finals@[c2].1.spec_vars()[v]),
                    )),
        decreases company_kpis@.len() - c,
    {
        let vars = company_kpis[c].1.vars();
        let mut rebuilt = Output::new_empty();
        let mut v: usize = 0;
        while v < vars.len()
            invariant
                c < company_kpis@.len(),
                vars@ == company_kpis@[c as int].1.spec_vars(),
                v <= vars@.len(),
                rebuilt.spec_vars().len() == v,
                rebuilt.wf(),
                forall|v2: int|
                    0 <= v2 < v ==> (#[trigger] rebuilt.spec_vars()[v2]).spec_name() == vars@[
                    v2].spec_name() && assembled_var(
                        vars@[v2],
                        statistical_data@,
                        rebuilt.spec_vars()[v2],
                    ),
            decreases vars@.len() - v,
        {
            let var = &vars[v];
            let mut j: usize = 0;
            let mut found: Option<usize> = None;
            while j < statistical_data.len()
                invariant
                    j <= statistical_data@.len(),
                    v < vars@.len(),
                    vars@ == company_kpis@[c as int].1.spec_vars(),
                    var == &vars@[v as int],
                    match found {
                        Some(jj) => jj < statistical_data@.len() && ((statistical_data@[
                        jj as int]).0)@ == vars@[v as int].spec_name(),
                        None => forall|jj: int|
                            0 <= jj < j ==> ((#[trigger] statistical_data@[jj]).0)@ != vars@[
                            v as int].spec_name(),
                    },
                decreases statistical_data@.len() - j,
            {
                if str_eq(statistical_data[j].0.as_str(), var.name().as_str()) {
                    proof {
                        assert(((statistical_data@[j as int]).0)@ == vars@[v as int].spec_name());
                    }
                    found = Some(j);
                }
                j += 1;
            }
            match found {
                Some(jj) => {
                    let res = OutputVariable::new_result_with_statistics(
                        var,
                        &statistical_data[jj].1,
                    );
                    proof {
                        assert(!rebuilt.spec_has(res.spec_name())) by {
                            if rebuilt.spec_has(res.spec_name()) {
                                let a = choose|a: int|
                                    0 <= a < rebuilt.spec_vars().len() && (
                                    #[trigger] rebuilt.spec_vars()[a]).spec_name()
                                        == res.spec_name();
                                assert(vars@[a].spec_name() == vars@[v as int].spec_name());
                            }
                        }
                        assert(assembled_var(
                            vars@[v as int],
                            statistical_data@,
                            res,
                        ));
                    }
                    rebuilt.add_var(res);
                },
                None => {
                    proof {
                        assert(name_in_stats(
                            statistical_data@,
                            (company_kpis@[c as int].1.spec_vars()[v as int]).spec_name(),
                        ));
                        let jw = choose|jw: int|
                            0 <= jw < statistical_data@.len() && ((
                            #[trigger] statistical_data@[jw]).0)@ == (company_kpis@[
                        c as int].1.spec_vars()[v as int]).spec_name();
                        assert(((statistical_data@[jw]).0)@ != vars@[v as int].spec_name());
                    }
                    return Err(
                        BenchmarkingError::UnresolvedValue(String::from_str(var.name().as_str())),
                    );
                },
            }
            v += 1;
        }
        finals.push((company_kpis[c].0, rebuilt));
        c += 1;
    }
    Ok(finals)
}

/// Benchmarking start: runs the four stages in order and yields the
/// per-company outputs with statistics attached.  On success the
/// result satisfies the chained stage contracts; on failure the
/// error traces to a blocked or failed company or to a KPI
/// population of mixed dimensions.
#[verifier::loop_isolation(false)]
#[verifier::rlimit(60)]
pub fn run_benchmark<F: Fn(Prim, u64, u64) -> u64>(
    alg: &Algorithm,
    companies: &Vec<(u128, Company)>,
    f: &F,
) -> (r: Result<Vec<(u128, Output)>, BenchmarkingError>)
    requires
        kernel_total(*f),
        alg.wf(),
        inputs_wf(companies@),
        3 * companies@.len() <= usize::MAX,
        companies@.len() <= u64::MAX,
    ensures
        r matches Ok(finals) ==> benchmark_post(*f, *alg, companies@, finals@),
        r matches Err(e) ==> benchmark_failure(*f, *alg, companies@, e),
{
    let company_kpis = match stage_compute(alg, companies, f) {
        Ok(outs) => outs,
        Err(e) => {
            return Err(e);
        },
    };
    // A successful first stage guarantees every output carries every
    // KPI name, and nothing but KPI names.
    proof {
        assert forall|c: int, i: int|
            0 <= c < company_kpis@.len() && 0 <= i < alg.spec_kpis().len() implies (
        #[trigger] company_kpis@[c]).1.spec_has(
            (#[trigger] alg.spec_kpis()[i]).spec_name(),
        ) by {
            assert(company_run_ok(*f, *alg, companies@[c].1, company_kpis@[c].1));
            let rvs = choose|rvs: Seq<Seq<(Seq<char>, Seq<u64>)>>|
                #[trigger] is_run_trace(*f, alg.spec_operations(), rvs) && rvs[0] == seed_entries(
                    alg.spec_required(),
                    companies@[c].1.spec_input_data(),
                ) && output_packs(
                    company_kpis@[c].1,
                    rvs.last(),
                    alg.spec_non_kpis(),
                    alg.spec_required(),
                );
            crate::laws::lemma_run_output_kpis(
                *f,
                *alg,
                companies@[c].1.spec_input_data(),
                company_kpis@[c].1,
                rvs,
            );
        }
    }
    let clustered = match stage_cluster(alg, &company_kpis) {
        Ok(cl) => cl,
        Err(e) => {
            return Err(e);
        },
    };
    let ghost clv = clustered@;
    let statistical_data = match stage_aggregate(alg, clustered, f) {
        Ok(st) => st,
        Err(e) => {
            proof {
                assert(stage_compute_post(*f, *alg, companies@, company_kpis@));
                assert(stage_cluster_post(*alg, company_kpis@, clv));
                assert(cluster_dims_failure(clv, e));
            }
            return Err(e);
        },
    };
    // A successful third stage covers every stored KPI name with a
    // statistics entry.
    proof {
        assert forall|c: int, v: int|
            0 <= c < company_kpis@.len() && 0 <= v < company_kpis@[c].1.spec_vars().len() implies
            name_in_stats(
            statistical_data@,
            ((#[trigger] company_kpis@[c].1.spec_vars()[v])).spec_name(),
        ) by {
            assert(company_run_ok(*f, *alg, companies@[c].1, company_kpis@[c].1));
            let rvs = choose|rvs: Seq<Seq<(Seq<char>, Seq<u64>)>>|
                #[trigger] is_run_trace(*f, alg.spec_operations(), rvs) && rvs[0] == seed_entries(
                    alg.spec_required(),
                    companies@[c].1.spec_input_data(),
                ) && output_packs(
                    company_kpis@[c].1,
                    rvs.last(),
                    alg.spec_non_kpis(),
                    alg.spec_required(),
                );
            crate::laws::lemma_run_output_kpis(
                *f,
                *alg,
                companies@[c].1.spec_input_data(),
                company_kpis@[c].1,
                rvs,
            );
            let nm = (company_kpis@[c].1.spec_vars()[v]).spec_name();
            assert(crate::algorithm::is_kpi_name(alg.spec_kpis(), nm));
            let i = choose|i: int|
                0 <= i < alg.spec_kpis().len() && (#[trigger] alg.spec_kpis()[i]).spec_name()
                    == nm;
            assert(((statistical_data@[i]).0)@ == (clv[i].0)@);
            assert((clv[i].0)@ == alg.spec_kpis()[i].spec_name());
            assert(name_in_stats(statistical_data@, nm)) by {
                assert(((statistical_data@[i]).0)@ == nm);
            }
        }
        assert(stats_cover(company_kpis@, statistical_data@));
    }
    let finals = match stage_assemble(&company_kpis, &statistical_data) {
        Ok(fv) => fv,
        Err(e) => {
            return Err(e);
        },
    };
    proof {
        assert(stage_compute_post(*f, *alg, companies@, company_kpis@));
        assert(stage_cluster_post(*alg, company_kpis@, clv));
        assert(stage_aggregate_post(*f, clv, statistical_data@));
        assert(stage_assemble_post(company_kpis@, statistical_data@, finals@));
    }
    Ok(finals)
}

} // verus!
