use vstd::prelude::*;
use vstd::relations::sorted_by;
use vstd::seq_lib::to_multiset_insert;

use crate::column::non_null_count;
use crate::scalar::{
    lemma_scalar_le_total, lemma_scalar_le_trans, lemma_scalar_total_ordering, scalar_le,
    scalar_le_exec, scalar_leq, Scalar, ScalarVal,
};

verus! {

/// The row's non-null values, in row order.
pub open spec fn non_null_vals(row: Seq<Option<ScalarVal>>) -> Seq<ScalarVal>
    decreases row.len(),
{
    if row.len() == 0 {
        Seq::empty()
    } else {
        non_null_vals(row.drop_last()) + (match row.last() {
            Some(v) => seq![v],
            None => Seq::empty(),
        })
    }
}

pub proof fn lemma_non_null_vals_len(row: Seq<Option<ScalarVal>>)
    ensures
        non_null_vals(row).len() == non_null_count(row),
    decreases row.len(),
{
    if row.len() > 0 {
        lemma_non_null_vals_len(row.drop_last());
    }
}

/// What sorting one row yields: the non-null values in the configured order
/// (vstd's total-order sort, reversed for a descending sort), with the null
/// elements packed at the front or at the back.
pub open spec fn sort_row_spec(
    row: Seq<Option<ScalarVal>>,
    descending: bool,
    nulls_last: bool,
) -> Seq<Option<ScalarVal>> {
    let sorted = non_null_vals(row).sort_by(scalar_leq());
    let ordered = if descending {
        sorted.reverse()
    } else {
        sorted
    };
    let vals = ordered.map_values(|v: ScalarVal| Some(v));
    let nulls = Seq::new((row.len() - non_null_vals(row).len()) as nat, |t: int| None::<ScalarVal>);
    if nulls_last {
        vals + nulls
    } else {
        nulls + vals
    }
}

pub proof fn lemma_non_null_vals_membership(row: Seq<Option<ScalarVal>>, v: ScalarVal)
    requires
        non_null_vals(row).contains(v),
    ensures
        row.contains(Some(v)),
    decreases row.len(),
{
    if row.len() > 0 {
        if row.last() == Some(v) {
            assert(row[row.len() - 1] == Some(v));
        } else {
            assert(non_null_vals(row.drop_last()).contains(v)) by {
                let t = choose|t: int|
                    0 <= t < non_null_vals(row).len() && non_null_vals(row)[t] == v;
                assert(non_null_vals(row.drop_last())[t] == v || (match row.last() {
                    Some(w) => w == v,
                    None => false,
                }));
            }
            lemma_non_null_vals_membership(row.drop_last(), v);
            let j = choose|j: int| 0 <= j < row.len() - 1 && row.drop_last()[j] == Some(v);
            assert(row[j] == Some(v));
        }
    }
}

/// Sorting keeps every element inside the source dtype: the sorted values
/// all occur in the source row.
pub proof fn lemma_sort_row_fits(
    row: Seq<Option<ScalarVal>>,
    dt: crate::dtype::DataType,
    descending: bool,
    nulls_last: bool,
)
    requires
        crate::column::elems_fit(row, dt),
    ensures
        crate::column::elems_fit(sort_row_spec(row, descending, nulls_last), dt),
        sort_row_spec(row, descending, nulls_last).len() == row.len(),
{
    lemma_scalar_total_ordering();
    let nnv = non_null_vals(row);
    nnv.lemma_sort_by_ensures(scalar_leq());
    let srt = nnv.sort_by(scalar_leq());
    assert(srt.len() == nnv.len()) by {
        broadcast use vstd::seq_lib::group_to_multiset_ensures;

        assert(nnv.to_multiset() == srt.to_multiset());
        assert(nnv.len() == nnv.to_multiset().len());
        assert(srt.len() == srt.to_multiset().len());
    }
    lemma_non_null_vals_len(row);
    crate::column::lemma_nnc_le_len(row);
    let out = sort_row_spec(row, descending, nulls_last);
    assert forall|k: int| 0 <= k < out.len() implies crate::column::opt_fits(
        #[trigger] out[k],
        dt,
    ) by {
        if let Some(v) = out[k] {
            let ordered = if descending {
                srt.reverse()
            } else {
                srt
            };
            let t = choose|t: int| 0 <= t < ordered.len() && ordered[t] == v;
            if descending {
                assert(srt[srt.len() - 1 - t] == v);
            }
            assert(srt.contains(v));
            assert(nnv.contains(v));
            lemma_non_null_vals_membership(row, v);
            let j = choose|j: int| 0 <= j < row.len() && row[j] == Some(v);
            assert(crate::column::opt_fits(row[j], dt));
        }
    }
}

/// Inserts one value into a run kept sorted by the kernel order.
fn insert_sorted(out: &mut Vec<Scalar>, v: Scalar)
    requires
        sorted_by(old(out).deep_view(), scalar_leq()),
    ensures
        sorted_by(final(out).deep_view(), scalar_leq()),
        final(out).deep_view().to_multiset() == old(out).deep_view().to_multiset().insert(v@),
        final(out)@.len() == old(out)@.len() + 1,
{
    let ghost leq = scalar_leq();
    let ghost dv = out.deep_view();
    let mut k: usize = 0;
    while k < out.len()
        invariant
            k <= out@.len(),
            dv == out.deep_view(),
            forall|t: int| 0 <= t < k ==> scalar_le(#[trigger] dv[t], v@),
        ensures
            k <= out@.len(),
            dv == out.deep_view(),
            forall|t: int| 0 <= t < k ==> scalar_le(#[trigger] dv[t], v@),
            k < out@.len() ==> !scalar_le(dv[k as int], v@),
        decreases out.len() - k,
    {
        proof {
            assert(dv[k as int] == out@[k as int].deep_view());
        }
        if !scalar_le_exec(&out[k], &v) {
            break ;
        }
        k += 1;
    }
    let ghost pos = k as int;
    proof {
        if pos < dv.len() {
            lemma_scalar_le_total(dv[pos], v@);
        }
    }
    let ghost vv = v@;
    out.insert(k, v);
    proof {
        let new_dv = out.deep_view();
        dv.insert_ensures(pos, vv);
        assert forall|t: int| 0 <= t < new_dv.len() implies new_dv[t] == dv.insert(pos, vv)[t] by {
            assert(new_dv[t] == out@[t].deep_view());
            assert(out@ == old(out)@.insert(pos, v));
            old(out)@.insert_ensures(pos, v);
        }
        assert(new_dv =~= dv.insert(pos, vv));
        to_multiset_insert(dv, pos, vv);
        // the inserted run stays sorted: everything before the slot is at
        // most v, everything after is at least v
        assert forall|a: int, b: int| 0 <= a < b < new_dv.len() implies #[trigger] leq(
            new_dv[a],
            new_dv[b],
        ) by {
            if b < pos {
                assert(leq(dv[a], dv[b]));
                assert(scalar_le(dv[a], dv[b]));
            } else if a < pos && b == pos {
                assert(scalar_le(dv[a], vv));
            } else if a < pos && b > pos {
                assert(scalar_le(vv, dv[b - 1])) by {
                    if pos < b - 1 {
                        assert(leq(dv[pos], dv[b - 1]));
                        lemma_scalar_le_trans(vv, dv[pos], dv[b - 1]);
                    }
                }
                lemma_scalar_le_trans(dv[a], vv, dv[b - 1]);
            } else if a == pos {
                assert(scalar_le(vv, dv[b - 1])) by {
                    if pos < b - 1 {
                        assert(leq(dv[pos], dv[b - 1]));
                        lemma_scalar_le_trans(vv, dv[pos], dv[b - 1]);
                    }
                }
            } else {
                assert(leq(dv[a - 1], dv[b - 1]));
                assert(scalar_le(dv[a - 1], dv[b - 1]));
            }
            assert(leq(new_dv[a], new_dv[b]) == scalar_le(new_dv[a], new_dv[b]));
        }
        assert(sorted_by(new_dv, leq));
    }
}

/// Sorts a run of values into the kernel's total order; the result is
/// exactly vstd's order-theoretic sort of the input.
fn sort_values(vals: &Vec<Scalar>) -> (out: Vec<Scalar>)
    ensures
        out.deep_view() == vals.deep_view().sort_by(scalar_leq()),
{
    let ghost leq = scalar_leq();
    let mut out: Vec<Scalar> = Vec::new();
    let mut i: usize = 0;
    proof {
        assert(out.deep_view() =~= vals.deep_view().take(0));
    }
    while i < vals.len()
        invariant
            i <= vals@.len(),
            sorted_by(out.deep_view(), scalar_leq()),
            out.deep_view().to_multiset() == vals.deep_view().take(i as int).to_multiset(),
            out@.len() == i,
        decreases vals.len() - i,
    {
        let v = vals[i].clone_scalar();
        proof {
            assert(vals.deep_view().take(i + 1).drop_last() =~= vals.deep_view().take(i as int));
            assert(vals.deep_view().take(i + 1) =~= vals.deep_view().take(i as int).push(
                vals.deep_view()[i as int],
            ));
            vstd::seq_lib::to_multiset_build(vals.deep_view().take(i as int), v@);
        }
        insert_sorted(&mut out, v);
        i += 1;
    }
    proof {
        assert(vals.deep_view().take(vals@.len() as int) =~= vals.deep_view());
        lemma_scalar_total_ordering();
        vals.deep_view().lemma_sort_by_ensures(scalar_leq());
        vstd::seq_lib::lemma_sorted_unique(
            out.deep_view(),
            vals.deep_view().sort_by(scalar_leq()),
            scalar_leq(),
        );
        assert(out.deep_view() =~= vals.deep_view().sort_by(scalar_leq()));
    }
    out
}

/// Sorts one row: non-null values in the configured direction, nulls packed
/// at the configured end. Length, dtype and (trivially here) the multiset of
/// elements are preserved.
pub fn sort_row(row: &Vec<Option<Scalar>>, descending: bool, nulls_last: bool) -> (out: Vec<
    Option<Scalar>,
>)
    ensures
        out.deep_view() == sort_row_spec(row.deep_view(), descending, nulls_last),
        out@.len() == row@.len(),
{
    let ghost rv = row.deep_view();
    let mut vals: Vec<Scalar> = Vec::new();
    let mut i: usize = 0;
    proof {
        assert(rv.take(0) =~= Seq::<Option<ScalarVal>>::empty());
    }
    while i < row.len()
        invariant
            i <= row@.len(),
            rv == row.deep_view(),
            vals.deep_view() =~= non_null_vals(rv.take(i as int)),
        decreases row.len() - i,
    {
        proof {
            assert(rv.take(i + 1).drop_last() =~= rv.take(i as int));
            assert(rv.take(i + 1).last() == rv[i as int]);
            assert(rv[i as int] == row@[i as int].deep_view());
        }
        let ghost prev = vals.deep_view();
        match &row[i] {
            Some(v) => {
                let c = v.clone_scalar();
                vals.push(c);
                proof {
                    assert(vals.deep_view() =~= prev.push(c@));
                    assert(vals.deep_view() =~= non_null_vals(rv.take(i + 1)));
                }
            },
            None => {},
        }
        i += 1;
    }
    proof {
        assert(rv.take(rv.len() as int) =~= rv);
        assert(vals.deep_view() == non_null_vals(rv));
        lemma_non_null_vals_len(rv);
        crate::column::lemma_nnc_le_len(rv);
        assert(vals@.len() == vals.deep_view().len());
    }
    let sorted = sort_values(&vals);
    let n_nulls = row.len() - vals.len();
    let mut out: Vec<Option<Scalar>> = Vec::new();
    if !nulls_last {
        push_nulls(&mut out, n_nulls);
    }
    push_vals(&mut out, &sorted, descending);
    if nulls_last {
        push_nulls(&mut out, n_nulls);
    }
    proof {
        lemma_scalar_total_ordering();
        let nnv = non_null_vals(rv);
        nnv.lemma_sort_by_ensures(scalar_leq());
        broadcast use vstd::seq_lib::group_to_multiset_ensures;

        assert(nnv.sort_by(scalar_leq()).len() == nnv.len()) by {
            let srt = nnv.sort_by(scalar_leq());
            assert(nnv.to_multiset() == srt.to_multiset());
            assert(nnv.len() == nnv.to_multiset().len());
            assert(srt.len() == srt.to_multiset().len());
        }
        assert(out.deep_view() =~= sort_row_spec(rv, descending, nulls_last));
        assert(out@.len() == out.deep_view().len());
    }
    out
}

/// Appends a run of nulls.
fn push_nulls(out: &mut Vec<Option<Scalar>>, n: usize)
    ensures
        final(out).deep_view() =~= old(out).deep_view() + Seq::new(
            n as nat,
            |t: int| None::<ScalarVal>,
        ),
{
    let mut k: usize = 0;
    while k < n
        invariant
            k <= n,
            out.deep_view() =~= old(out).deep_view() + Seq::new(
                k as nat,
                |t: int| None::<ScalarVal>,
            ),
        decreases n - k,
    {
        let ghost prev = out.deep_view();
        out.push(None);
        proof {
            assert(out.deep_view() =~= prev.push(None));
            assert(out.deep_view() =~= old(out).deep_view() + Seq::new(
                (k + 1) as nat,
                |t: int| None::<ScalarVal>,
            ));
        }
        k += 1;
    }
}

/// Appends the sorted values, front to back or back to front.
fn push_vals(out: &mut Vec<Option<Scalar>>, sorted: &Vec<Scalar>, descending: bool)
    ensures
        final(out).deep_view() =~= old(out).deep_view() + (if descending {
            sorted.deep_view().reverse()
        } else {
            sorted.deep_view()
        }).map_values(|v: ScalarVal| Some(v)),
{
    let ghost sv = sorted.deep_view();
    let ghost target = (if descending {
        sv.reverse()
    } else {
        sv
    }).map_values(|v: ScalarVal| Some(v));
    let n = sorted.len();
    let mut k: usize = 0;
    while k < n
        invariant
            k <= n,
            n == sorted@.len(),
            sv == sorted.deep_view(),
            target == (if descending {
                sv.reverse()
            } else {
                sv
            }).map_values(|v: ScalarVal| Some(v)),
            target.len() == n,
            out.deep_view() =~= old(out).deep_view() + target.take(k as int),
        decreases n - k,
    {
        let idx = if descending {
            n - 1 - k
        } else {
            k
        };
        let c = sorted[idx].clone_scalar();
        let ghost prev = out.deep_view();
        out.push(Some(c));
        proof {
            assert(sv[idx as int] == sorted@[idx as int].deep_view());
            assert(target[k as int] == Some(sv[idx as int]));
            assert(out.deep_view() =~= prev.push(Some(c@)));
            assert(target.take(k + 1) =~= target.take(k as int).push(target[k as int]));
        }
        k += 1;
    }
    proof {
        assert(target.take(n as int) =~= target);
    }
}

} // verus!
