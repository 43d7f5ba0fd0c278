use vstd::prelude::*;

use crate::column::{non_null_count, ArrayColumn, Column};
use crate::gather::clone_string;
use crate::scalar::{
    lemma_scalar_le_total, lemma_scalar_le_trans, scalar_le, scalar_le_exec, Scalar, ScalarVal,
};

verus! {

/// Which extreme a dispatch computes.
#[derive(Clone, Copy, Debug, PartialEq, Eq, Structural)]
pub enum AggType {
    Min,
    Max,
}

/// `m` is an extreme of the row: it occurs among the non-null elements and
/// bounds them all (from above for a maximum, from below for a minimum).
pub open spec fn is_row_extreme(row: Seq<Option<ScalarVal>>, m: ScalarVal, is_max: bool) -> bool {
    &&& exists|j: int| 0 <= j < row.len() && row[j] == Some(m)
    &&& forall|k: int|
        0 <= k < row.len() ==> ((#[trigger] row[k]) matches Some(v) ==> if is_max {
            scalar_le(v, m)
        } else {
            scalar_le(m, v)
        })
}

/// The extreme of one row's non-null elements, or null where there is none.
fn row_extreme(row: &Vec<Option<Scalar>>, agg_type: AggType) -> (r: Option<Scalar>)
    ensures
        r is None <==> non_null_count(row.deep_view()) == 0,
        r matches Some(m) ==> is_row_extreme(row.deep_view(), m@, agg_type == AggType::Max),
{
    let ghost rv = row.deep_view();
    let ghost is_max = agg_type == AggType::Max;
    let mut best: Option<Scalar> = None;
    let mut i: usize = 0;
    while i < row.len()
        invariant
            i <= row@.len(),
            rv == row.deep_view(),
            is_max == (agg_type == AggType::Max),
            best is None <==> (forall|j: int| 0 <= j < i ==> rv[j] is None),
            best matches Some(b) ==> (exists|j: int| 0 <= j < i && rv[j] == Some(b@)) && (
            forall|k: int|
                0 <= k < i ==> ((#[trigger] rv[k]) matches Some(v) ==> if is_max {
                    scalar_le(v, b@)
                } else {
                    scalar_le(b@, v)
                })),
        decreases row.len() - i,
    {
        proof {
            assert(rv[i as int] == row@[i as int].deep_view());
        }
        match (&row[i], &best) {
            (Some(v), None) => {
                proof {
                    lemma_scalar_le_total(v@, v@);
                }
                best = Some(v.clone_scalar());
            },
            (Some(v), Some(b)) => {
                let replace = match agg_type {
                    AggType::Max => scalar_le_exec(b, v),
                    AggType::Min => scalar_le_exec(v, b),
                };
                if replace {
                    proof {
                        lemma_scalar_le_total(v@, v@);
                        assert forall|k: int| 0 <= k < i implies ((#[trigger] rv[k]) matches Some(
                            w,
                        ) ==> (if is_max {
                            scalar_le(w, v@)
                        } else {
                            scalar_le(v@, w)
                        })) by {
                            if let Some(w) = rv[k] {
                                if is_max {
                                    lemma_scalar_le_trans(w, b@, v@);
                                } else {
                                    lemma_scalar_le_trans(v@, b@, w);
                                }
                            }
                        }
                    }
                    best = Some(v.clone_scalar());
                } else {
                    proof {
                        if is_max {
                            lemma_scalar_le_total(b@, v@);
                        } else {
                            lemma_scalar_le_total(v@, b@);
                        }
                    }
                }
            },
            (None, _) => {},
        }
        i += 1;
    }
    proof {
        crate::column::lemma_nnc_zero(rv);
    }
    best
}

/// Per-row extreme over the whole array column: null where the row is null
/// or holds no non-null element.
pub fn array_dispatch(ca: &ArrayColumn, agg_type: AggType) -> (r: Column)
    requires
        ca.wf(),
    ensures
        r.name == ca.name,
        r.dtype == ca.inner_dtype,
        r.spec_len() == ca.spec_len(),
        r.wf(),
        forall|i: int|
            0 <= i < ca.spec_len() ==> (match ca.rows_v()[i] {
                None => r.values_v()[i] is None,
                Some(row) => {
                    &&& (r.values_v()[i] is None <==> non_null_count(row) == 0)
                    &&& ((#[trigger] r.values_v()[i]) matches Some(m) ==> is_row_extreme(
                        row,
                        m,
                        agg_type == AggType::Max,
                    ))
                },
            }),
{
    let mut values: Vec<Option<Scalar>> = Vec::new();
    let mut i: usize = 0;
    let n = ca.rows.len();
    while i < n
        invariant
            i <= n,
            n == ca.spec_len(),
            ca.wf(),
            values@.len() == i,
            forall|j: int|
                0 <= j < i ==> (match ca.rows_v()[j] {
                    None => values.deep_view()[j] is None,
                    Some(row) => {
                        &&& (values.deep_view()[j] is None <==> non_null_count(row) == 0)
                        &&& ((#[trigger] values.deep_view()[j]) matches Some(m) ==> is_row_extreme(
                            row,
                            m,
                            agg_type == AggType::Max,
                        ))
                    },
                }),
            forall|j: int|
                0 <= j < i ==> crate::column::opt_fits(
                    #[trigger] values.deep_view()[j],
                    ca.inner_dtype,
                ),
        decreases n - i,
    {
        let ghost prev = values.deep_view();
        match &ca.rows[i] {
            Some(row) => {
                proof {
                    assert(crate::column::row_wf(
                        ca.rows_v()[i as int],
                        ca.width as nat,
                        ca.inner_dtype,
                    ));
                }
                let m = row_extreme(row, agg_type);
                proof {
                    if let Some(b) = &m {
                        let j = choose|j: int|
                            0 <= j < row.deep_view().len() && row.deep_view()[j] == Some(b@);
                        assert(crate::column::opt_fits(row.deep_view()[j], ca.inner_dtype));
                    }
                }
                values.push(m);
            },
            None => {
                values.push(None);
            },
        }
        proof {
            assert(values.deep_view() =~= prev.push(values.deep_view().last()));
        }
        i += 1;
    }
    let name = clone_string(&ca.name);
    Column { name, dtype: ca.inner_dtype, values }
}

} // verus!
