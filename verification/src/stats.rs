//! Rank statistics over per-company result vectors.
//!
//! Aggregation sorts the companies' vectors by the first component
//! under the documented total order; the sort is stable, so equal
//! keys keep their arrival order.  Minima, maxima, median and
//! quartiles are then positional; averaging goes through the kernel.

use crate::bits::{spec_float_key, spec_is_infinite_bits, float_key, TWO_BITS, ZERO_BITS};
use crate::operation::{kernel_total, kstep, scalar_fold_rel, is_scalar_chain, Prim};
use vstd::prelude::*;

verus! {

/// The views of a list of row vectors.
pub open spec fn row_views(s: Seq<Vec<u64>>) -> Seq<Seq<u64>> {
    s.map_values(|v: Vec<u64>| v@)
}

/// The ranking key of a row: the total-order key of its first
/// component.
pub open spec fn row_key(v: Seq<u64>) -> u64 {
    spec_float_key(v[0])
}

/// Inserts a row into a sorted list, after every row of equal or
/// smaller key: the insertion of a stable sort.
pub open spec fn insert_sorted(t: Seq<Seq<u64>>, x: Seq<u64>) -> Seq<Seq<u64>>
    decreases t.len(),
{
    if t.len() == 0 {
        seq![x]
    } else if row_key(t.last()) <= row_key(x) {
        t.push(x)
    } else {
        insert_sorted(t.drop_last(), x).push(t.last())
    }
}

/// The stable sort of the rows by ranking key.
pub open spec fn ssort(s: Seq<Seq<u64>>) -> Seq<Seq<u64>>
    decreases s.len(),
{
    if s.len() == 0 {
        Seq::empty()
    } else {
        insert_sorted(ssort(s.drop_last()), s.last())
    }
}

/// Rows all share the dimension of the first row, which is positive.
pub open spec fn rows_uniform(s: Seq<Seq<u64>>) -> bool {
    forall|i: int|
        0 <= i < s.len() ==> (#[trigger] s[i]).len() == s[0].len() && s[i].len() >= 1
}

/// The row holds an infinite component.
pub open spec fn row_has_inf(v: Seq<u64>) -> bool {
    exists|j: int| 0 <= j < v.len() && spec_is_infinite_bits(#[trigger] v[j])
}

/// Some row holds an infinite component.
pub open spec fn rows_has_inf(s: Seq<Seq<u64>>) -> bool {
    exists|i: int| 0 <= i < s.len() && row_has_inf(#[trigger] s[i])
}

/// The row appears in the list.
pub open spec fn row_sourced(x: Seq<u64>, s: Seq<Seq<u64>>) -> bool {
    exists|j: int| 0 <= j < s.len() && x == #[trigger] s[j]
}

/// Insertion keeps the length and the rows.
pub proof fn lemma_insert_sorted_elems(t: Seq<Seq<u64>>, x: Seq<u64>)
    ensures
        insert_sorted(t, x).len() == t.len() + 1,
        forall|i: int|
            0 <= i < insert_sorted(t, x).len() ==> #[trigger] insert_sorted(t, x)[i] == x
                || row_sourced(insert_sorted(t, x)[i], t),
    decreases t.len(),
{
    if t.len() == 0 {
    } else if row_key(t.last()) <= row_key(x) {
        assert forall|i: int| 0 <= i < insert_sorted(t, x).len() implies #[trigger] insert_sorted(
            t,
            x,
        )[i] == x || row_sourced(insert_sorted(t, x)[i], t) by {
            if i < t.len() {
                assert(insert_sorted(t, x)[i] == t[i]);
            }
        }
    } else {
        lemma_insert_sorted_elems(t.drop_last(), x);
        let r0 = insert_sorted(t.drop_last(), x);
        assert forall|i: int| 0 <= i < insert_sorted(t, x).len() implies #[trigger] insert_sorted(
            t,
            x,
        )[i] == x || row_sourced(insert_sorted(t, x)[i], t) by {
            if i < r0.len() {
                assert(insert_sorted(t, x)[i] == r0[i]);
                if r0[i] != x {
                    let j = choose|j: int| 0 <= j < t.drop_last().len() && r0[i] == t.drop_last()[j];
                    assert(t.drop_last()[j] == t[j]);
                    assert(insert_sorted(t, x)[i] == t[j]);
                }
            } else {
                assert(insert_sorted(t, x)[i] == t.last());
                assert(t.last() == t[t.len() - 1]);
            }
        }
    }
}

/// Sorting keeps the length and the rows.
pub proof fn lemma_ssort_elems(s: Seq<Seq<u64>>)
    ensures
        ssort(s).len() == s.len(),
        forall|i: int| 0 <= i < ssort(s).len() ==> row_sourced(#[trigger] ssort(s)[i], s),
    decreases s.len(),
{
    if s.len() > 0 {
        lemma_ssort_elems(s.drop_last());
        lemma_insert_sorted_elems(ssort(s.drop_last()), s.last());
        assert forall|i: int| 0 <= i < ssort(s).len() implies row_sourced(
            #[trigger] ssort(s)[i],
            s,
        ) by {
            if ssort(s)[i] == s.last() {
                assert(ssort(s)[i] == s[s.len() - 1]);
            } else {
                assert(row_sourced(ssort(s)[i], ssort(s.drop_last())));
                let j = choose|j: int|
                    0 <= j < ssort(s.drop_last()).len() && ssort(s)[i] == #[trigger] ssort(
                        s.drop_last(),
                    )[j];
                assert(row_sourced(ssort(s.drop_last())[j], s.drop_last()));
                let j2 = choose|j2: int|
                    0 <= j2 < s.drop_last().len() && ssort(s.drop_last())[j] == #[trigger] s.drop_last()[j2];
                assert(s.drop_last()[j2] == s[j2]);
            }
        }
    }
}

/// Where a stable insertion lands: after the last row of equal or
/// smaller key.
proof fn lemma_insert_sorted_at(t: Seq<Seq<u64>>, x: Seq<u64>, idx: int)
    requires
        0 <= idx <= t.len(),
        forall|j: int| idx <= j < t.len() ==> row_key(#[trigger] t[j]) > row_key(x),
        idx > 0 ==> row_key(t[idx - 1]) <= row_key(x),
    ensures
        insert_sorted(t, x) == t.take(idx) + seq![x] + t.skip(idx),
    decreases t.len(),
{
    if t.len() == 0 {
        assert(insert_sorted(t, x) =~= t.take(idx) + seq![x] + t.skip(idx));
    } else if row_key(t.last()) <= row_key(x) {
        assert(idx == t.len()) by {
            if idx < t.len() {
                assert(row_key(t[t.len() - 1]) > row_key(x));
            }
        }
        assert(insert_sorted(t, x) =~= t.take(idx) + seq![x] + t.skip(idx));
    } else {
        assert(idx < t.len()) by {
            if idx == t.len() {
                assert(row_key(t[idx - 1]) <= row_key(x));
            }
        }
        assert forall|j: int| idx <= j < t.drop_last().len() implies row_key(
            #[trigger] t.drop_last()[j],
        ) > row_key(x) by {
            assert(t.drop_last()[j] == t[j]);
        }
        if idx > 0 {
            assert(t.drop_last()[idx - 1] == t[idx - 1]);
        }
        lemma_insert_sorted_at(t.drop_last(), x, idx);
        assert(insert_sorted(t, x) =~= t.take(idx) + seq![x] + t.skip(idx)) by {
            assert(insert_sorted(t, x) == (t.drop_last().take(idx) + seq![x] + t.drop_last().skip(
                idx,
            )).push(t.last()));
            assert(t.drop_last().take(idx) =~= t.take(idx));
        }
    }
}

/// Decides whether any row holds an infinite component.
#[verifier::loop_isolation(false)]
pub fn rows_have_infinite(rows: &Vec<Vec<u64>>) -> (r: bool)
    ensures
        r == rows_has_inf(row_views(rows@)),
{
    let ghost rv = row_views(rows@);
    let mut has_inf = false;
    let mut i: usize = 0;
    while i < rows.len()
        invariant
            i <= rows@.len(),
            rv == row_views(rows@),
            rv.len() == rows@.len(),
            has_inf == exists|a: int| 0 <= a < i && row_has_inf(#[trigger] rv[a]),
        decreases rows@.len() - i,
    {
        let row = &rows[i];
        let mut j: usize = 0;
        let mut this_inf = false;
        while j < row.len()
            invariant
                j <= row@.len(),
                i < rows@.len(),
                row@ == rv[i as int],
                this_inf == exists|b: int|
                    0 <= b < j && crate::bits::spec_is_infinite_bits(#[trigger] rv[i as int][b]),
            decreases row@.len() - j,
        {
            if crate::bits::is_infinite_bits(row[j]) {
                proof {
                    assert(crate::bits::spec_is_infinite_bits(rv[i as int][j as int]));
                }
                this_inf = true;
            }
            j += 1;
        }
        proof {
            assert(this_inf == row_has_inf(rv[i as int]));
        }
        if this_inf {
            has_inf = true;
        }
        i += 1;
    }
    proof {
        assert(has_inf == rows_has_inf(rv));
    }
    has_inf
}

/// Sorts the rows in place, stably, by the key of their first
/// component.
#[verifier::loop_isolation(false)]
pub fn sort_rows(rows: &mut Vec<Vec<u64>>)
    requires
        forall|i: int| 0 <= i < old(rows)@.len() ==> (#[trigger] old(rows)@[i])@.len() >= 1,
    ensures
        row_views(final(rows)@) == ssort(row_views(old(rows)@)),
{
    let ghost orig = row_views(rows@);
    let mut out: Vec<Vec<u64>> = Vec::new();
    let mut i: usize = 0;
    while i < rows.len()
        invariant
            i <= rows@.len(),
            orig == row_views(rows@),
            orig.len() == rows@.len(),
            forall|a: int| 0 <= a < orig.len() ==> (#[trigger] orig[a]).len() >= 1,
            forall|a: int| 0 <= a < out@.len() ==> (#[trigger] out@[a])@.len() >= 1,
            row_views(out@) == ssort(orig.take(i as int)),
        decreases rows@.len() - i,
    {
        let row = crate::strutil::copy_bits_vec(&rows[i]);
        proof {
            assert(row@ == orig[i as int]);
        }
        let key = float_key(row[0]);
        let mut idx: usize = out.len();
        while idx > 0
            invariant
                idx <= out@.len(),
                key == row_key(row@),
                forall|a: int| 0 <= a < out@.len() ==> (#[trigger] out@[a])@.len() >= 1,
                forall|j: int|
                    idx <= j < out@.len() ==> row_key(#[trigger] row_views(out@)[j]) > row_key(
                        row@,
                    ),
            decreases idx,
        {
            if float_key(out[idx - 1][0]) <= key {
                break ;
            }
            proof {
                assert(row_views(out@)[idx - 1] == out@[idx - 1]@);
            }
            idx -= 1;
        }
        proof {
            if idx > 0 {
                assert(row_views(out@)[idx - 1] == out@[idx - 1]@);
            }
        }
        let ghost out0 = row_views(out@);
        out.insert(idx, row);
        proof {
            lemma_insert_sorted_at(out0, orig[i as int], idx as int);
            assert(row_views(out@) =~= out0.take(idx as int) + seq![orig[i as int]] + out0.skip(
                idx as int,
            ));
            assert(orig.take(i + 1).drop_last() =~= orig.take(i as int));
            assert(orig.take(i + 1).last() == orig[i as int]);
            assert(row_views(out@) == ssort(orig.take(i + 1)));
        }
        i += 1;
    }
    proof {
        assert(orig.take(orig.len() as int) =~= orig);
    }
    *rows = out;
}

/// The component-wise average of two rows through the kernel: sum,
/// then divide by two.
pub open spec fn avg2_at<F: Fn(Prim, u64, u64) -> u64>(f: F, a: u64, b: u64, m: u64) -> bool {
    exists|sm: u64| #[trigger] kstep(f, Prim::Add, a, b, sm) && kstep(f, Prim::Div, sm, TWO_BITS, m)
}

/// Component-wise average relation of two rows.
pub open spec fn avg2_rel<F: Fn(Prim, u64, u64) -> u64>(
    f: F,
    a: Seq<u64>,
    b: Seq<u64>,
    m: Seq<u64>,
) -> bool {
    &&& m.len() == a.len()
    &&& a.len() == b.len()
    &&& forall|i: int| 0 <= i < a.len() ==> #[trigger] avg2_at(f, a[i], b[i], m[i])
}

/// One component of the population mean: the column is summed from
/// zero and divided by the population count converted to a double.
pub open spec fn mean_at<F: Fn(Prim, u64, u64) -> u64>(
    f: F,
    col: Seq<u64>,
    n: u64,
    m: u64,
) -> bool {
    exists|sm: u64, nb: u64|
        #[trigger] scalar_fold_rel(f, Prim::Add, col, ZERO_BITS, sm) && #[trigger] kstep(
            f,
            Prim::OfUint,
            n,
            0u64,
            nb,
        ) && kstep(f, Prim::Div, sm, nb, m)
}

/// The column of component `c` over the rows.
pub open spec fn column_of(rows: Seq<Seq<u64>>, c: int) -> Seq<u64> {
    Seq::new(rows.len(), |r: int| rows[r][c])
}

/// The component-wise mean relation over the rows.
pub open spec fn mean_rel<F: Fn(Prim, u64, u64) -> u64>(
    f: F,
    rows: Seq<Seq<u64>>,
    dim: int,
    m: Seq<u64>,
) -> bool {
    &&& m.len() == dim
    &&& forall|c: int|
        0 <= c < dim ==> #[trigger] mean_at(f, column_of(rows, c), rows.len() as u64, m[c])
}

/// Averages two rows of equal dimension component-wise.
#[verifier::loop_isolation(false)]
pub fn avg2<F: Fn(Prim, u64, u64) -> u64>(f: &F, a: &Vec<u64>, b: &Vec<u64>) -> (r: Vec<u64>)
    requires
        kernel_total(*f),
        a@.len() == b@.len(),
    ensures
        avg2_rel(*f, a@, b@, r@),
{
    let mut out: Vec<u64> = Vec::new();
    let mut i: usize = 0;
    while i < a.len()
        invariant
            kernel_total(*f),
            a@.len() == b@.len(),
            i <= a@.len(),
            out@.len() == i,
            forall|j: int| 0 <= j < i ==> #[trigger] avg2_at(*f, a@[j], b@[j], out@[j]),
        decreases a@.len() - i,
    {
        let sm = f(Prim::Add, a[i], b[i]);
        let m = f(Prim::Div, sm, TWO_BITS);
        out.push(m);
        proof {
            assert(kstep(*f, Prim::Add, a@[i as int], b@[i as int], sm));
            assert(avg2_at(*f, a@[i as int], b@[i as int], m));
        }
        i += 1;
    }
    out
}

/// Computes the component-wise mean of the rows through the kernel.
#[verifier::loop_isolation(false)]
pub fn mean_rows<F: Fn(Prim, u64, u64) -> u64>(f: &F, rows: &Vec<Vec<u64>>, dim: usize) -> (r: Vec<
    u64,
>)
    requires
        kernel_total(*f),
        rows@.len() >= 1,
        rows@.len() <= u64::MAX,
        forall|i: int| 0 <= i < rows@.len() ==> (#[trigger] rows@[i])@.len() == dim,
    ensures
        mean_rel(*f, row_views(rows@), dim as int, r@),
{
    let ghost rv = row_views(rows@);
    let n = rows.len();
    let mut out: Vec<u64> = Vec::new();
    let mut c: usize = 0;
    while c < dim
        invariant
            kernel_total(*f),
            rv == row_views(rows@),
            rv.len() == rows@.len(),
            n == rows@.len(),
            forall|i: int| 0 <= i < rv.len() ==> (#[trigger] rv[i]).len() == dim,
            c <= dim,
            out@.len() == c,
            forall|c2: int|
                0 <= c2 < c ==> #[trigger] mean_at(*f, column_of(rv, c2), rv.len() as u64, out@[c2]),
        decreases dim - c,
    {
        let ghost col = column_of(rv, c as int);
        let mut component_sum: u64 = 0;
        let ghost mut chain: Seq<u64> = seq![0u64];
        let mut rr: usize = 0;
        while rr < n
            invariant
                kernel_total(*f),
                rv == row_views(rows@),
                rv.len() == rows@.len(),
                n == rows@.len(),
                c < dim,
                forall|i: int| 0 <= i < rv.len() ==> (#[trigger] rv[i]).len() == dim,
                col == column_of(rv, c as int),
                col.len() == n,
                rr <= n,
                chain.len() == rr + 1,
                chain[0] == ZERO_BITS,
                chain.last() == component_sum,
                forall|j: int|
                    0 <= j < rr ==> #[trigger] kstep(*f, Prim::Add, chain[j], col[j], chain[j + 1]),
            decreases n - rr,
        {
            let next = f(Prim::Add, component_sum, rows[rr][c]);
            proof {
                assert(rv[rr as int] == rows@[rr as int]@);
                assert(col[rr as int] == rv[rr as int][c as int]);
                chain = chain.push(next);
            }
            component_sum = next;
            rr += 1;
        }
        let nb = f(Prim::OfUint, n as u64, 0);
        let m = f(Prim::Div, component_sum, nb);
        out.push(m);
        proof {
            assert(is_scalar_chain(*f, Prim::Add, col, ZERO_BITS, chain) && chain.last()
                == component_sum);
            assert(scalar_fold_rel(*f, Prim::Add, col, ZERO_BITS, component_sum));
            assert(kstep(*f, Prim::OfUint, n as u64, 0u64, nb));
            assert(mean_at(*f, col, rv.len() as u64, m));
        }
        c += 1;
    }
    out
}

} // verus!
