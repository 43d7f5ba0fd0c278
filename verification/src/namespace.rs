use vstd::prelude::*;

use crate::column::{
    elems_fit, non_null_count, opt_fits, row_wf, ArrayColumn, Column, IdxColumn, ListColumn,
    SortOptions,
};
use crate::dispersion::{dispersion_post, median_with_nulls, std_with_nulls, var_with_nulls};
use crate::dtype::DataType;
use crate::error::Error;
use crate::gather::clone_string;
use crate::min_max::{array_dispatch, is_row_extreme, AggType};
use crate::scalar::{opt_scalar_clone, Scalar, ScalarVal};
use crate::sorting::{sort_row, sort_row_spec};
use crate::sum_mean::{count_boolean_bits, row_sum_val, sum_array_numerical, sum_with_nulls};

verus! {

/// Whether a non-null row holds a null element.
pub open spec fn row_opt_has_null(r: Option<Seq<Option<ScalarVal>>>) -> bool {
    match r {
        Some(row) => exists|j: int| 0 <= j < row.len() && (#[trigger] row[j]) is None,
        None => false,
    }
}

/// Whether any non-null row of the column holds a null element; the
/// element-level validity layer, independent of row-level validity.
pub open spec fn spec_has_inner_nulls(rows: Seq<Option<Seq<Option<ScalarVal>>>>) -> bool {
    exists|i: int| 0 <= i < rows.len() && row_opt_has_null(#[trigger] rows[i])
}

/// Decides whether the column carries any intra-row null; the sum kernel
/// picks its fast path by this.
pub fn has_inner_nulls(ca: &ArrayColumn) -> (r: bool)
    ensures
        r == spec_has_inner_nulls(ca.rows_v()),
{
    let mut found: bool = false;
    let mut i: usize = 0;
    let n = ca.rows.len();
    while i < n
        invariant
            i <= n,
            n == ca.spec_len(),
            found == spec_has_inner_nulls(ca.rows_v().take(i as int)),
        decreases n - i,
    {
        match &ca.rows[i] {
            Some(row) => {
                let ghost rv = row.deep_view();
                let mut k: usize = 0;
                let mut row_null: bool = false;
                while k < row.len()
                    invariant
                        k <= row@.len(),
                        rv == row.deep_view(),
                        row_null == exists|t: int| 0 <= t < k && rv[t] is None,
                    decreases row.len() - k,
                {
                    proof {
                        assert(rv[k as int] == row@[k as int].deep_view());
                    }
                    if row[k].is_none() {
                        row_null = true;
                    }
                    k += 1;
                }
                if row_null {
                    found = true;
                    proof {
                        assert(ca.rows_v()[i as int] == Some(rv));
                        assert(ca.rows_v().take(i + 1)[i as int] == Some(rv));
                        let t = choose|t: int| 0 <= t < rv.len() && rv[t] is None;
                        assert(rv[t] is None);
                        assert(row_opt_has_null(Some(rv)));
                        assert(spec_has_inner_nulls(ca.rows_v().take(i + 1)));
                    }
                } else {
                    proof {
                        assert(ca.rows_v().take(i + 1).drop_last() =~= ca.rows_v().take(i as int));
                        assert(ca.rows_v()[i as int] == Some(rv));
                        if spec_has_inner_nulls(ca.rows_v().take(i + 1)) && !found {
                            let w = choose|w: int|
                                0 <= w < i + 1 && row_opt_has_null(
                                    #[trigger] ca.rows_v().take(i + 1)[w],
                                );
                            assert(w == i);
                            assert(false);
                        }
                    }
                }
            },
            None => {
                proof {
                    if spec_has_inner_nulls(ca.rows_v().take(i + 1)) && !found {
                        assert(ca.rows_v().take(i + 1).drop_last() =~= ca.rows_v().take(i as int));
                        let w = choose|w: int|
                            0 <= w < i + 1 && row_opt_has_null(
                                #[trigger] ca.rows_v().take(i + 1)[w],
                            );
                        assert(ca.rows_v()[i as int] is None);
                        assert(w == i);
                        assert(false);
                    }
                }
            },
        }
        proof {
            if found && !spec_has_inner_nulls(ca.rows_v().take(i + 1)) {
                assert(false);
            }
        }
        i += 1;
    }
    proof {
        assert(ca.rows_v().take(n as int) =~= ca.rows_v());
    }
    found
}

/// The common contract of the per-row extreme reductions.
pub open spec fn extreme_post(r: Column, ca: ArrayColumn, is_max: bool) -> bool {
    &&& r.name == ca.name
    &&& r.dtype == ca.inner_dtype
    &&& r.spec_len() == ca.spec_len()
    &&& r.wf()
    &&& forall|i: int|
        0 <= i < ca.spec_len() ==> (match ca.rows_v()[i] {
            None => r.values_v()[i] is None,
            Some(row) => {
                &&& (r.values_v()[i] is None <==> non_null_count(row) == 0)
                &&& ((#[trigger] r.values_v()[i]) matches Some(m) ==> is_row_extreme(
                    row,
                    m,
                    is_max,
                ))
            },
        })
}

fn get_agg(ca: &ArrayColumn, agg_type: AggType) -> (r: Column)
    requires
        ca.wf(),
    ensures
        extreme_post(r, *ca, agg_type == AggType::Max),
{
    array_dispatch(ca, agg_type)
}

/// Per-row maximum of the non-null elements; null where the row is null or
/// holds no non-null element.
pub fn array_max(ca: &ArrayColumn) -> (r: Column)
    requires
        ca.wf(),
    ensures
        extreme_post(r, *ca, true),
{
    get_agg(ca, AggType::Max)
}

/// Per-row minimum of the non-null elements; null where the row is null or
/// holds no non-null element.
pub fn array_min(ca: &ArrayColumn) -> (r: Column)
    requires
        ca.wf(),
    ensures
        extreme_post(r, *ca, false),
{
    get_agg(ca, AggType::Min)
}

/// Per-row sum. Nulls are excluded, never treated as zero: a row with no
/// non-null element (all-null or empty) sums to null, whether or not the row
/// itself is null. Boolean rows sum to the count of their true elements;
/// integer rows to the wrapped 64-bit machine sum. Columns without inner
/// nulls take a dedicated fast path with the same result.
pub fn array_sum(ca: &ArrayColumn) -> (r: Result<Column, Error>)
    requires
        ca.wf(),
    ensures
        r is Err <==> ca.inner_dtype.binary_like(),
        match r {
            Ok(out) => {
                &&& out.name == ca.name
                &&& out.dtype == (if ca.inner_dtype == DataType::Boolean {
                    DataType::UInt64
                } else {
                    ca.inner_dtype
                })
                &&& out.spec_len() == ca.spec_len()
                &&& forall|i: int|
                    0 <= i < ca.spec_len() ==> out.values_v()[i] == row_sum_val(
                        ca.rows_v()[i],
                        ca.inner_dtype,
                    )
            },
            Err(e) => e == Error::UnsupportedDtype,
        },
{
    if has_inner_nulls(ca) {
        return sum_with_nulls(ca, &ca.inner_dtype);
    }
    if ca.inner_dtype == DataType::Boolean {
        Ok(count_boolean_bits(ca))
    } else if ca.inner_dtype.is_primitive_numeric() {
        Ok(sum_array_numerical(ca))
    } else {
        sum_with_nulls(ca, &ca.inner_dtype)
    }
}

/// Per-row median input; see the dispersion module.
pub fn array_median(ca: &ArrayColumn) -> (r: Vec<Option<Vec<i64>>>)
    requires
        ca.wf(),
        crate::dispersion::dispersion_dtype(*ca),
    ensures
        dispersion_post(r.deep_view(), *ca, 0),
{
    median_with_nulls(ca)
}

/// Per-row mean input; see the dispersion module.
pub fn array_mean(ca: &ArrayColumn) -> (r: Vec<Option<Vec<i64>>>)
    requires
        ca.wf(),
        crate::dispersion::dispersion_dtype(*ca),
    ensures
        dispersion_post(r.deep_view(), *ca, 0),
{
    crate::dispersion::mean_with_nulls(ca)
}

/// Per-row standard-deviation input with denominator `count - ddof`; null
/// where the denominator is not positive.
pub fn array_std(ca: &ArrayColumn, ddof: u8) -> (r: Vec<Option<Vec<i64>>>)
    requires
        ca.wf(),
        crate::dispersion::dispersion_dtype(*ca),
    ensures
        dispersion_post(r.deep_view(), *ca, ddof),
{
    std_with_nulls(ca, ddof)
}

/// Per-row variance input with denominator `count - ddof`; null where the
/// denominator is not positive.
pub fn array_var(ca: &ArrayColumn, ddof: u8) -> (r: Vec<Option<Vec<i64>>>)
    requires
        ca.wf(),
        crate::dispersion::dispersion_dtype(*ca),
    ensures
        dispersion_post(r.deep_view(), *ca, ddof),
{
    var_with_nulls(ca, ddof)
}

/// The deduplication of a row in first-occurrence order: an element is kept
/// exactly where no earlier element equals it. Nulls count as one value.
pub open spec fn dedup_first(r: Seq<Option<ScalarVal>>) -> Seq<Option<ScalarVal>>
    decreases r.len(),
{
    if r.len() == 0 {
        Seq::empty()
    } else {
        let pre = dedup_first(r.drop_last());
        if r.drop_last().contains(r.last()) {
            pre
        } else {
            pre.push(r.last())
        }
    }
}

pub proof fn lemma_dedup_len(r: Seq<Option<ScalarVal>>)
    ensures
        dedup_first(r).len() <= r.len(),
    decreases r.len(),
{
    if r.len() > 0 {
        lemma_dedup_len(r.drop_last());
    }
}

/// Deduplication keeps exactly the row's values and keeps each of them
/// once: the stable and the plain deduplication therefore agree on the set
/// of values every row carries.
pub proof fn lemma_dedup_first_set(r: Seq<Option<ScalarVal>>)
    ensures
        forall|x: Option<ScalarVal>| #[trigger] dedup_first(r).contains(x) <==> r.contains(x),
        forall|a: int, b: int|
            0 <= a < b < dedup_first(r).len() ==> dedup_first(r)[a] != dedup_first(r)[b],
    decreases r.len(),
{
    if r.len() > 0 {
        let last = r.last();
        let body = r.drop_last();
        let pre = dedup_first(body);
        let d = dedup_first(r);
        lemma_dedup_first_set(body);
        assert forall|x: Option<ScalarVal>| #[trigger] d.contains(x) implies r.contains(x) by {
            let t = choose|t: int| 0 <= t < d.len() && d[t] == x;
            if t < pre.len() {
                assert(pre.contains(x));
                let j = choose|j: int| 0 <= j < body.len() && body[j] == x;
                assert(r[j] == x);
            } else {
                assert(r[r.len() - 1] == x);
            }
        }
        assert forall|x: Option<ScalarVal>| r.contains(x) implies #[trigger] d.contains(x) by {
            let j = choose|j: int| 0 <= j < r.len() && r[j] == x;
            if j < r.len() - 1 {
                assert(body[j] == x);
                assert(body.contains(x));
                assert(pre.contains(x));
                let t = choose|t: int| 0 <= t < pre.len() && pre[t] == x;
                assert(d[t] == x);
            } else {
                if body.contains(last) {
                    assert(pre.contains(last));
                    let t = choose|t: int| 0 <= t < pre.len() && pre[t] == last;
                    assert(d[t] == x);
                } else {
                    assert(d[d.len() - 1] == x);
                }
            }
        }
        if !body.contains(last) {
            assert(!pre.contains(last));
            assert forall|a: int, b: int| 0 <= a < b < d.len() implies d[a] != d[b] by {
                if b < pre.len() {
                    assert(d[a] == pre[a] && d[b] == pre[b]);
                } else {
                    assert(d[b] == last);
                    assert(d[a] == pre[a]);
                    if pre[a] == last {
                        assert(pre.contains(last));
                    }
                }
            }
        }
    }
}

proof fn lemma_dedup_fits(r: Seq<Option<ScalarVal>>, dt: DataType)
    requires
        elems_fit(r, dt),
    ensures
        elems_fit(dedup_first(r), dt),
    decreases r.len(),
{
    if r.len() > 0 {
        assert(elems_fit(r.drop_last(), dt)) by {
            assert forall|j: int| 0 <= j < r.len() - 1 implies opt_fits(
                #[trigger] r.drop_last()[j],
                dt,
            ) by {
                assert(opt_fits(r[j], dt));
            }
        }
        lemma_dedup_fits(r.drop_last(), dt);
        assert(opt_fits(r[r.len() - 1], dt));
    }
}

/// Deduplicates one row in first-occurrence order.
fn unique_row(row: &Vec<Option<Scalar>>) -> (out: Vec<Option<Scalar>>)
    ensures
        out.deep_view() == dedup_first(row.deep_view()),
{
    let ghost rv = row.deep_view();
    let mut out: Vec<Option<Scalar>> = Vec::new();
    let mut i: usize = 0;
    proof {
        assert(rv.take(0) =~= Seq::<Option<ScalarVal>>::empty());
        assert(out.deep_view() =~= dedup_first(rv.take(0)));
    }
    while i < row.len()
        invariant
            i <= row@.len(),
            rv == row.deep_view(),
            out.deep_view() == dedup_first(rv.take(i as int)),
        decreases row.len() - i,
    {
        let mut seen: bool = false;
        let mut k: usize = 0;
        while k < i
            invariant
                k <= i,
                i < row@.len(),
                rv == row.deep_view(),
                seen == exists|t: int| 0 <= t < k && rv[t] == rv[i as int],
            decreases i - k,
        {
            proof {
                assert(rv[k as int] == row@[k as int].deep_view());
                assert(rv[i as int] == row@[i as int].deep_view());
            }
            if crate::scalar::opt_scalar_eq(&row[k], &row[i]) {
                seen = true;
            }
            k += 1;
        }
        let ghost prev = out.deep_view();
        proof {
            assert(rv.take(i + 1).drop_last() =~= rv.take(i as int));
            assert(rv.take(i + 1).last() == rv[i as int]);
            assert(seen == rv.take(i as int).contains(rv[i as int])) by {
                if seen {
                    let t = choose|t: int| 0 <= t < i && rv[t] == rv[i as int];
                    assert(rv.take(i as int)[t] == rv[i as int]);
                }
                if rv.take(i as int).contains(rv[i as int]) {
                    let t = choose|t: int|
                        0 <= t < i && rv.take(i as int)[t] == rv[i as int];
                    assert(rv[t] == rv[i as int]);
                }
            }
        }
        if !seen {
            let v = opt_scalar_clone(&row[i]);
            out.push(v);
            proof {
                assert(out.deep_view() =~= prev.push(v.deep_view()));
            }
        }
        i += 1;
    }
    proof {
        assert(rv.take(rv.len() as int) =~= rv);
    }
    out
}

/// The contract shared by the two deduplication kernels: a null row stays
/// null, any other row becomes its first-occurrence deduplication.
pub open spec fn unique_post(r: Result<ListColumn, Error>, ca: ArrayColumn) -> bool {
    match r {
        Ok(out) => {
            &&& out.name == ca.name
            &&& out.inner_dtype == ca.inner_dtype
            &&& out.spec_len() == ca.spec_len()
            &&& out.wf()
            &&& forall|i: int|
                0 <= i < ca.spec_len() ==> out.rows_v()[i] == (match ca.rows_v()[i] {
                    Some(row) => Some(dedup_first(row)),
                    None => None,
                })
        },
        Err(_) => false,
    }
}

fn unique_impl(ca: &ArrayColumn) -> (r: Result<ListColumn, Error>)
    requires
        ca.wf(),
    ensures
        unique_post(r, *ca),
{
    let f = |row: &Vec<Option<Scalar>>| -> (out: Result<Vec<Option<Scalar>>, Error>)
        ensures
            out matches Ok(v) && v.deep_view() == dedup_first(row.deep_view()),
        { Ok(unique_row(row)) };
    proof {
        assert forall|row: &Vec<Option<Scalar>>, out: Result<Vec<Option<Scalar>>, Error>|
            #[trigger] call_ensures(f, (row,), out) implies (out matches Ok(v) ==> (forall|
            dt: DataType,
        |
            crate::column::elems_fit(row.deep_view(), dt) ==> crate::column::elems_fit(
                v.deep_view(),
                dt,
            ))) by {
            if let Ok(v) = out {
                assert forall|dt: DataType| crate::column::elems_fit(row.deep_view(), dt)
                    implies crate::column::elems_fit(v.deep_view(), dt) by {
                    lemma_dedup_fits(row.deep_view(), dt);
                }
            }
        }
    }
    let r = crate::amortized::try_apply_amortized_to_list(ca, f);
    proof {
        match &r {
            Ok(out) => {
                assert forall|i: int| 0 <= i < ca.spec_len() implies out.rows_v()[i] == (
                match ca.rows_v()[i] {
                    Some(row) => Some(dedup_first(row)),
                    None => None,
                }) by {
                    assert(ca.rows_v()[i] == ca.rows@[i].deep_view());
                    assert(out.rows_v()[i] == out.rows@[i].deep_view());
                    if let Some(vrow) = ca.rows@[i] {
                        assert(out.rows@[i] matches Some(vout) && call_ensures(
                            f,
                            (&vrow,),
                            Ok(vout),
                        ));
                    }
                }
            },
            Err(e) => {
                let i = choose|i: int|
                    0 <= i < ca.spec_len() && ((#[trigger] ca.rows@[i]) matches Some(vrow)
                        && call_ensures(f, (&vrow,), Err::<Vec<Option<Scalar>>, Error>(*e)));
                assert(false);
            },
        }
    }
    r
}

/// Per-row deduplication; the order of the kept elements is deterministic
/// (here: first occurrence).
pub fn array_unique(ca: &ArrayColumn) -> (r: Result<ListColumn, Error>)
    requires
        ca.wf(),
    ensures
        unique_post(r, *ca),
{
    unique_impl(ca)
}

/// Per-row deduplication keeping first-occurrence order.
pub fn array_unique_stable(ca: &ArrayColumn) -> (r: Result<ListColumn, Error>)
    requires
        ca.wf(),
    ensures
        unique_post(r, *ca),
{
    unique_impl(ca)
}

/// Per-row count of distinct values, nulls counting as at most one distinct
/// value; a null row counts to null.
pub fn array_n_unique(ca: &ArrayColumn) -> (r: Result<IdxColumn, Error>)
    requires
        ca.wf(),
    ensures
        match r {
            Ok(out) => {
                &&& out.spec_len() == ca.spec_len()
                &&& forall|i: int|
                    0 <= i < ca.spec_len() ==> out.values@[i] == (match ca.rows_v()[i] {
                        Some(row) => Some(dedup_first(row).len() as u64),
                        None => None,
                    })
            },
            Err(_) => false,
        },
{
    let mut values: Vec<Option<u64>> = Vec::new();
    let mut i: usize = 0;
    let n = ca.rows.len();
    while i < n
        invariant
            i <= n,
            n == ca.spec_len(),
            ca.wf(),
            values@.len() == i,
            forall|j: int|
                0 <= j < i ==> values@[j] == (match ca.rows_v()[j] {
                    Some(row) => Some(dedup_first(row).len() as u64),
                    None => None,
                }),
        decreases n - i,
    {
        match &ca.rows[i] {
            Some(row) => {
                let u = unique_row(row);
                proof {
                    lemma_dedup_len(row.deep_view());
                }
                values.push(Some(u.len() as u64));
            },
            None => {
                values.push(None);
            },
        }
        i += 1;
    }
    let name = clone_string(&ca.name);
    Ok(IdxColumn { name, values })
}

/// The zero-based position of the first extremal non-null element of a row.
pub open spec fn is_first_extreme(row: Seq<Option<ScalarVal>>, p: int, is_max: bool) -> bool {
    &&& 0 <= p < row.len()
    &&& row[p] is Some
    &&& forall|k: int|
        0 <= k < row.len() ==> ((#[trigger] row[k]) matches Some(v) ==> (if is_max {
            crate::scalar::scalar_le(v, row[p].unwrap())
        } else {
            crate::scalar::scalar_le(row[p].unwrap(), v)
        }))
    &&& forall|k: int| 0 <= k < p ==> (#[trigger] row[k]) != row[p]
}

/// The position of the first extremal non-null element per row.
fn arg_extreme_row(row: &Vec<Option<Scalar>>, agg_type: AggType) -> (r: Option<u64>)
    ensures
        r is None <==> non_null_count(row.deep_view()) == 0,
        r matches Some(p) ==> is_first_extreme(
            row.deep_view(),
            p as int,
            agg_type == AggType::Max,
        ),
{
    let ghost rv = row.deep_view();
    let ghost is_max = agg_type == AggType::Max;
    let mut best: Option<usize> = None;
    let mut i: usize = 0;
    while i < row.len()
        invariant
            i <= row@.len(),
            rv == row.deep_view(),
            is_max == (agg_type == AggType::Max),
            best is None <==> (forall|j: int| 0 <= j < i ==> rv[j] is None),
            best matches Some(p) ==> {
                &&& 0 <= p < i
                &&& rv[p as int] is Some
                &&& forall|k: int|
                    0 <= k < i ==> ((#[trigger] rv[k]) matches Some(v) ==> (if is_max {
                        crate::scalar::scalar_le(v, rv[p as int].unwrap())
                    } else {
                        crate::scalar::scalar_le(rv[p as int].unwrap(), v)
                    }))
                &&& forall|k: int| 0 <= k < p ==> (#[trigger] rv[k]) != rv[p as int]
            },
        decreases row.len() - i,
    {
        proof {
            assert(rv[i as int] == row@[i as int].deep_view());
        }
        match (&row[i], best) {
            (Some(v), None) => {
                proof {
                    crate::scalar::lemma_scalar_le_total(v@, v@);
                }
                best = Some(i);
            },
            (Some(v), Some(p)) => {
                proof {
                    assert(rv[p as int] == row@[p as int].deep_view());
                }
                let better = match (&row[p], agg_type) {
                    (Some(b), AggType::Max) => {
                        let not_le = !crate::scalar::scalar_le_exec(v, b);
                        not_le
                    },
                    (Some(b), AggType::Min) => !crate::scalar::scalar_le_exec(b, v),
                    _ => false,
                };
                let ghost b = rv[p as int].unwrap();
                if better {
                    proof {
                        crate::scalar::lemma_scalar_le_total(b, v@);
                        crate::scalar::lemma_scalar_le_total(v@, v@);
                        assert forall|k: int| 0 <= k < i implies ((#[trigger] rv[k]) matches Some(
                            w,
                        ) ==> (if is_max {
                            crate::scalar::scalar_le(w, v@)
                        } else {
                            crate::scalar::scalar_le(v@, w)
                        })) by {
                            if let Some(w) = rv[k] {
                                if is_max {
                                    crate::scalar::lemma_scalar_le_trans(w, b, v@);
                                } else {
                                    crate::scalar::lemma_scalar_le_trans(v@, b, w);
                                }
                            }
                        }
                        assert forall|k: int| 0 <= k < i implies (#[trigger] rv[k]) != rv[i as int]
                            by {
                            if let Some(w) = rv[k] {
                                if w == v@ {
                                    if is_max {
                                        assert(crate::scalar::scalar_le(v@, b));
                                    } else {
                                        assert(crate::scalar::scalar_le(b, v@));
                                    }
                                    assert(false);
                                }
                            }
                        }
                    }
                    best = Some(i);
                } else {
                    proof {
                        if is_max {
                            crate::scalar::lemma_scalar_le_total(v@, b);
                        } else {
                            crate::scalar::lemma_scalar_le_total(b, v@);
                        }
                    }
                }
            },
            (None, _) => {},
        }
        i += 1;
    }
    proof {
        crate::column::lemma_nnc_zero(rv);
    }
    match best {
        Some(p) => Some(p as u64),
        None => None,
    }
}

/// The common contract of the two first-extreme position kernels.
pub open spec fn arg_extreme_post(r: IdxColumn, ca: ArrayColumn, is_max: bool) -> bool {
    &&& r.name == ca.name
    &&& r.spec_len() == ca.spec_len()
    &&& forall|i: int|
        0 <= i < ca.spec_len() ==> (match ca.rows_v()[i] {
            None => r.values@[i] is None,
            Some(row) => {
                &&& (r.values@[i] is None <==> non_null_count(row) == 0)
                &&& ((#[trigger] r.values@[i]) matches Some(p) ==> is_first_extreme(
                    row,
                    p as int,
                    is_max,
                ))
            },
        })
}

fn arg_extreme(ca: &ArrayColumn, agg_type: AggType) -> (r: IdxColumn)
    requires
        ca.wf(),
    ensures
        arg_extreme_post(r, *ca, agg_type == AggType::Max),
{
    let mut values: Vec<Option<u64>> = Vec::new();
    let mut i: usize = 0;
    let n = ca.rows.len();
    while i < n
        invariant
            i <= n,
            n == ca.spec_len(),
            ca.wf(),
            values@.len() == i,
            forall|j: int|
                0 <= j < i ==> (match ca.rows_v()[j] {
                    None => values@[j] is None,
                    Some(row) => {
                        &&& (values@[j] is None <==> non_null_count(row) == 0)
                        &&& ((#[trigger] values@[j]) matches Some(p) ==> is_first_extreme(
                            row,
                            p as int,
                            agg_type == AggType::Max,
                        ))
                    },
                }),
        decreases n - i,
    {
        match &ca.rows[i] {
            Some(row) => {
                let v = arg_extreme_row(row, agg_type);
                values.push(v);
            },
            None => {
                values.push(None);
            },
        }
        i += 1;
    }
    let name = clone_string(&ca.name);
    IdxColumn { name, values }
}

/// Zero-based position of the first minimal non-null element per row; null
/// for a null, empty or entirely-null row.
pub fn array_arg_min(ca: &ArrayColumn) -> (r: IdxColumn)
    requires
        ca.wf(),
    ensures
        arg_extreme_post(r, *ca, false),
{
    arg_extreme(ca, AggType::Min)
}

/// Zero-based position of the first maximal non-null element per row; null
/// for a null, empty or entirely-null row.
pub fn array_arg_max(ca: &ArrayColumn) -> (r: IdxColumn)
    requires
        ca.wf(),
    ensures
        arg_extreme_post(r, *ca, true),
{
    arg_extreme(ca, AggType::Max)
}

/// Sorts each row per the configuration; a same-shape transform: row count,
/// width and dtype are unchanged.
pub fn array_sort(ca: &ArrayColumn, options: SortOptions) -> (r: Result<ArrayColumn, Error>)
    requires
        ca.wf(),
    ensures
        match r {
            Ok(out) => {
                &&& out.name == ca.name
                &&& out.inner_dtype == ca.inner_dtype
                &&& out.width == ca.width
                &&& out.spec_len() == ca.spec_len()
                &&& out.wf()
                &&& forall|i: int|
                    0 <= i < ca.spec_len() ==> out.rows_v()[i] == (match ca.rows_v()[i] {
                        Some(row) => Some(
                            sort_row_spec(row, options.descending, options.nulls_last),
                        ),
                        None => None,
                    })
            },
            Err(_) => false,
        },
{
    let descending = options.descending;
    let nulls_last = options.nulls_last;
    let f = |row: &Vec<Option<Scalar>>| -> (out: Result<Vec<Option<Scalar>>, Error>)
        ensures
            out matches Ok(v) && v.deep_view() == sort_row_spec(
                row.deep_view(),
                descending,
                nulls_last,
            ),
        { Ok(sort_row(row, descending, nulls_last)) };
    proof {
        assert forall|row: &Vec<Option<Scalar>>, out: Result<Vec<Option<Scalar>>, Error>|
            #[trigger] call_ensures(f, (row,), out) implies (out matches Ok(v) ==> v@.len()
            == row@.len() && (forall|dt: DataType|
            crate::column::elems_fit(row.deep_view(), dt) ==> crate::column::elems_fit(
                v.deep_view(),
                dt,
            ))) by {
            if let Ok(v) = out {
                assert forall|dt: DataType| crate::column::elems_fit(row.deep_view(), dt)
                    implies crate::column::elems_fit(v.deep_view(), dt) by {
                    crate::sorting::lemma_sort_row_fits(
                        row.deep_view(),
                        dt,
                        descending,
                        nulls_last,
                    );
                }
                assert(v.deep_view().len() == v@.len());
                lemma_same_shape_width(row.deep_view(), descending, nulls_last, 0);
            }
        }
    }
    let r = crate::amortized::try_apply_amortized_same_type(ca, f);
    proof {
        match &r {
            Ok(out) => {
                assert forall|i: int| 0 <= i < ca.spec_len() implies out.rows_v()[i] == (
                match ca.rows_v()[i] {
                    Some(row) => Some(sort_row_spec(row, descending, nulls_last)),
                    None => None,
                }) by {
                    assert(ca.rows_v()[i] == ca.rows@[i].deep_view());
                    assert(out.rows_v()[i] == out.rows@[i].deep_view());
                    if let Some(vrow) = ca.rows@[i] {
                        assert(out.rows@[i] matches Some(vout) && call_ensures(
                            f,
                            (&vrow,),
                            Ok(vout),
                        ));
                    }
                }
            },
            Err(e) => {
                let i = choose|i: int|
                    0 <= i < ca.spec_len() && ((#[trigger] ca.rows@[i]) matches Some(vrow)
                        && call_ensures(f, (&vrow,), Err::<Vec<Option<Scalar>>, Error>(*e)));
                assert(false);
            },
        }
    }
    r
}

/// Reverses the element order within each row; a same-shape transform.
pub fn array_reverse(ca: &ArrayColumn) -> (r: ArrayColumn)
    requires
        ca.wf(),
    ensures
        r.name == ca.name,
        r.inner_dtype == ca.inner_dtype,
        r.width == ca.width,
        r.spec_len() == ca.spec_len(),
        r.wf(),
        forall|i: int|
            0 <= i < ca.spec_len() ==> r.rows_v()[i] == (match ca.rows_v()[i] {
                Some(row) => Some(row.reverse()),
                None => None,
            }),
{
    let f = |row: &Vec<Option<Scalar>>| -> (out: Vec<Option<Scalar>>)
        ensures
            out.deep_view() == row.deep_view().reverse(),
        { reverse_row(row) };
    proof {
        assert forall|row: &Vec<Option<Scalar>>, out: Vec<Option<Scalar>>|
            #[trigger] call_ensures(f, (row,), out) implies out@.len() == row@.len() && (forall|
            dt: DataType,
        |
            crate::column::elems_fit(row.deep_view(), dt) ==> crate::column::elems_fit(
                out.deep_view(),
                dt,
            )) by {
            let rv = row.deep_view();
            assert(out.deep_view().len() == rv.len());
            assert forall|dt: DataType| crate::column::elems_fit(rv, dt)
                implies crate::column::elems_fit(out.deep_view(), dt) by {
                assert forall|t: int| 0 <= t < rv.reverse().len() implies opt_fits(
                    #[trigger] rv.reverse()[t],
                    dt,
                ) by {
                    assert(rv.reverse()[t] == rv[rv.len() - 1 - t]);
                    assert(opt_fits(rv[rv.len() - 1 - t], dt));
                }
            }
        }
    }
    let out = crate::amortized::apply_amortized_same_type(ca, f);
    proof {
        assert forall|i: int| 0 <= i < ca.spec_len() implies out.rows_v()[i] == (
        match ca.rows_v()[i] {
            Some(row) => Some(row.reverse()),
            None => None,
        }) by {
            assert(ca.rows_v()[i] == ca.rows@[i].deep_view());
            assert(out.rows_v()[i] == out.rows@[i].deep_view());
            if let Some(vrow) = ca.rows@[i] {
                assert(out.rows@[i] matches Some(vout) && call_ensures(f, (&vrow,), vout));
            }
        }
    }
    out
}

fn reverse_row(row: &Vec<Option<Scalar>>) -> (out: Vec<Option<Scalar>>)
    ensures
        out.deep_view() == row.deep_view().reverse(),
{
    let ghost rv = row.deep_view();
    let mut out: Vec<Option<Scalar>> = Vec::new();
    let n = row.len();
    let mut k: usize = 0;
    while k < n
        invariant
            k <= n,
            n == row@.len(),
            rv == row.deep_view(),
            out@.len() == k,
            forall|t: int| 0 <= t < k ==> out.deep_view()[t] == rv[n - 1 - t],
        decreases n - k,
    {
        let ghost prev = out.deep_view();
        let v = opt_scalar_clone(&row[n - 1 - k]);
        proof {
            assert(rv[n - 1 - k as int] == row@[n - 1 - k as int].deep_view());
        }
        out.push(v);
        proof {
            assert(out.deep_view() =~= prev.push(v.deep_view()));
        }
        k += 1;
    }
    proof {
        assert(out.deep_view() =~= rv.reverse());
    }
    out
}

/// One row shifted by `n` positions: element `k` takes the element that was
/// `n` places earlier, and the vacated end fills with nulls.
pub open spec fn shift_row_spec(row: Seq<Option<ScalarVal>>, n: int) -> Seq<Option<ScalarVal>> {
    Seq::new(
        row.len(),
        |k: int|
            if 0 <= k - n < row.len() {
                row[k - n]
            } else {
                None
            },
    )
}

fn shift_one_row(row: &Vec<Option<Scalar>>, n: i64) -> (out: Vec<Option<Scalar>>)
    ensures
        out.deep_view() == shift_row_spec(row.deep_view(), n as int),
{
    let ghost rv = row.deep_view();
    let len = row.len();
    let mut out: Vec<Option<Scalar>> = Vec::new();
    let mut k: usize = 0;
    while k < len
        invariant
            k <= len,
            len == row@.len(),
            rv == row.deep_view(),
            out@.len() == k,
            forall|t: int| 0 <= t < k ==> out.deep_view()[t] == shift_row_spec(rv, n as int)[t],
        decreases len - k,
    {
        let ghost prev = out.deep_view();
        let src: i128 = k as i128 - n as i128;
        if 0 <= src && src < len as i128 {
            let v = opt_scalar_clone(&row[src as usize]);
            proof {
                assert(rv[src as int] == row@[src as int].deep_view());
            }
            out.push(v);
        } else {
            out.push(None);
        }
        proof {
            assert(out.deep_view() =~= prev.push(out.deep_view().last()));
        }
        k += 1;
    }
    proof {
        assert(out.deep_view() =~= shift_row_spec(rv, n as int));
    }
    out
}

/// Shifts elements within each row. A length-1 shift column is shared by
/// every row; if its single value is null the whole result is all-null rows
/// of the same shape. Otherwise the shift column is zipped with the rows:
/// a null on either side gives a null row, and traversal stops at the
/// shorter operand. A same-shape transform: width and dtype are unchanged.
pub fn array_shift(ca: &ArrayColumn, n: &Column) -> (r: Result<ArrayColumn, Error>)
    requires
        ca.wf(),
        n.wf(),
        n.dtype == DataType::Int64,
    ensures
        match r {
            Ok(out) => {
                &&& out.name == ca.name
                &&& out.inner_dtype == ca.inner_dtype
                &&& out.width == ca.width
                &&& out.wf()
                &&& if n.spec_len() == 1 {
                    &&& out.spec_len() == ca.spec_len()
                    &&& match n.values_v()[0] {
                        Some(ScalarVal::Int(v)) => forall|i: int|
                            0 <= i < ca.spec_len() ==> out.rows_v()[i] == (
                            match ca.rows_v()[i] {
                                Some(row) => Some(shift_row_spec(row, v as int)),
                                None => None,
                            }),
                        _ => forall|i: int| 0 <= i < ca.spec_len() ==> out.rows_v()[i] is None,
                    }
                } else {
                    let m = if ca.spec_len() <= n.spec_len() {
                        ca.spec_len() as int
                    } else {
                        n.spec_len() as int
                    };
                    &&& out.spec_len() == m
                    &&& forall|i: int|
                        0 <= i < m ==> out.rows_v()[i] == (match (
                            ca.rows_v()[i],
                            n.values_v()[i],
                        ) {
                            (Some(row), Some(ScalarVal::Int(v))) => Some(
                                shift_row_spec(row, v as int),
                            ),
                            _ => None,
                        })
                }
            },
            Err(_) => false,
        },
{
    if n.values.len() == 1 {
        match &n.values[0] {
            Some(Scalar::Int(v)) => {
                proof {
                    assert(n.values_v()[0] == n.values@[0].deep_view());
                }
                let shifted = shift_all_rows(ca, *v);
                Ok(shifted)
            },
            Some(_) => {
                proof {
                    assert(crate::column::opt_fits(n.values_v()[0], n.dtype));
                    assert(n.values_v()[0] == n.values@[0].deep_view());
                    assert(false);
                }
                Err(Error::UnsupportedDtype)
            },
            None => {
                proof {
                    assert(n.values_v()[0] == n.values@[0].deep_view());
                }
                let name = clone_string(&ca.name);
                Ok(ArrayColumn::full_null(name, ca.rows.len(), ca.inner_dtype, ca.width))
            },
        }
    } else {
        let f = |row: &Vec<Option<Scalar>>, v: i64| -> (out: Vec<Option<Scalar>>)
            ensures
                out.deep_view() == shift_row_spec(row.deep_view(), v as int),
            { shift_one_row(row, v) };
        proof {
            assert forall|row: &Vec<Option<Scalar>>, v: i64, out: Vec<Option<Scalar>>|
                #[trigger] call_ensures(f, (row, v), out) implies out@.len() == row@.len() && (
            forall|dt: DataType|
                crate::column::elems_fit(row.deep_view(), dt) ==> crate::column::elems_fit(
                    out.deep_view(),
                    dt,
                )) by {
                assert(out.deep_view().len() == out@.len());
                assert forall|dt: DataType| crate::column::elems_fit(row.deep_view(), dt)
                    implies crate::column::elems_fit(out.deep_view(), dt) by {
                    lemma_shift_fits(row.deep_view(), v as int, dt);
                }
            }
        }
        let out = crate::amortized::zip_and_apply_amortized_same_type(ca, n, f);
        proof {
            assert forall|i: int| 0 <= i < out.spec_len() implies out.rows_v()[i] == (match (
                ca.rows_v()[i],
                n.values_v()[i],
            ) {
                (Some(row), Some(ScalarVal::Int(v))) => Some(shift_row_spec(row, v as int)),
                _ => None,
            }) by {
                assert(ca.rows_v()[i] == ca.rows@[i].deep_view());
                assert(out.rows_v()[i] == out.rows@[i].deep_view());
                match (ca.rows@[i], n.values_v()[i]) {
                    (Some(vrow), Some(ScalarVal::Int(v))) => {
                        assert(out.rows@[i] matches Some(vout) && call_ensures(
                            f,
                            (&vrow, v),
                            vout,
                        ));
                    },
                    _ => {},
                }
            }
        }
        Ok(out)
    }
}

/// Width invariance of the same-shape transforms: sorting, reversing or
/// shifting a row never changes how many elements it holds, so the fixed
/// width of an array column survives every one of them.
pub proof fn lemma_same_shape_width(
    row: Seq<Option<ScalarVal>>,
    descending: bool,
    nulls_last: bool,
    n: int,
)
    ensures
        sort_row_spec(row, descending, nulls_last).len() == row.len(),
        row.reverse().len() == row.len(),
        shift_row_spec(row, n).len() == row.len(),
{
    crate::scalar::lemma_scalar_total_ordering();
    let nnv = crate::sorting::non_null_vals(row);
    nnv.lemma_sort_by_ensures(crate::scalar::scalar_leq());
    let srt = nnv.sort_by(crate::scalar::scalar_leq());
    assert(srt.len() == nnv.len()) by {
        broadcast use vstd::seq_lib::group_to_multiset_ensures;

        assert(nnv.to_multiset() == srt.to_multiset());
        assert(nnv.len() == nnv.to_multiset().len());
        assert(srt.len() == srt.to_multiset().len());
    }
    crate::sorting::lemma_non_null_vals_len(row);
    crate::column::lemma_nnc_le_len(row);
}

proof fn lemma_shift_fits(row: Seq<Option<ScalarVal>>, n: int, dt: DataType)
    requires
        elems_fit(row, dt),
    ensures
        elems_fit(shift_row_spec(row, n), dt),
        shift_row_spec(row, n).len() == row.len(),
{
    let out = shift_row_spec(row, n);
    assert forall|t: int| 0 <= t < out.len() implies opt_fits(#[trigger] out[t], dt) by {
        if 0 <= t - n < row.len() {
            assert(opt_fits(row[t - n], dt));
        }
    }
}

/// Shifts every row of the column by one shared amount.
fn shift_all_rows(ca: &ArrayColumn, v: i64) -> (out: ArrayColumn)
    requires
        ca.wf(),
    ensures
        out.name == ca.name,
        out.inner_dtype == ca.inner_dtype,
        out.width == ca.width,
        out.spec_len() == ca.spec_len(),
        out.wf(),
        forall|i: int|
            0 <= i < ca.spec_len() ==> out.rows_v()[i] == (match ca.rows_v()[i] {
                Some(row) => Some(shift_row_spec(row, v as int)),
                None => None,
            }),
{
    let mut rows: Vec<Option<Vec<Option<Scalar>>>> = Vec::new();
    let mut i: usize = 0;
    let n = ca.rows.len();
    while i < n
        invariant
            i <= n,
            n == ca.spec_len(),
            ca.wf(),
            rows@.len() == i,
            forall|j: int|
                0 <= j < i ==> rows.deep_view()[j] == (match ca.rows_v()[j] {
                    Some(row) => Some(shift_row_spec(row, v as int)),
                    None => None,
                }),
            forall|j: int|
                0 <= j < i ==> row_wf(
                    #[trigger] rows.deep_view()[j],
                    ca.width as nat,
                    ca.inner_dtype,
                ),
        decreases n - i,
    {
        let ghost prev = rows.deep_view();
        match &ca.rows[i] {
            Some(row) => {
                proof {
                    assert(row_wf(ca.rows_v()[i as int], ca.width as nat, ca.inner_dtype));
                }
                let s = shift_one_row(row, v);
                proof {
                    lemma_shift_fits(row.deep_view(), v as int, ca.inner_dtype);
                }
                rows.push(Some(s));
            },
            None => {
                rows.push(None);
            },
        }
        proof {
            assert(rows.deep_view() =~= prev.push(rows.deep_view().last()));
        }
        i += 1;
    }
    let name = clone_string(&ca.name);
    ArrayColumn { name, inner_dtype: ca.inner_dtype, width: ca.width, rows }
}

} // verus!
