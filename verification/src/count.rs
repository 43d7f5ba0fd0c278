use vstd::prelude::*;

use crate::column::{ArrayColumn, Column};
use crate::dtype::DataType;
use crate::error::Error;
use crate::gather::clone_string;
use crate::scalar::{opt_scalar_eq, Scalar, ScalarVal};

verus! {

/// How many elements of the row equal the probe; a null probe counts the
/// null elements.
pub open spec fn count_matches_row(r: Seq<Option<ScalarVal>>, x: Option<ScalarVal>) -> int
    decreases r.len(),
{
    if r.len() == 0 {
        0
    } else {
        count_matches_row(r.drop_last(), x) + if r.last() == x {
            1int
        } else {
            0int
        }
    }
}

proof fn lemma_count_matches_bounds(r: Seq<Option<ScalarVal>>, x: Option<ScalarVal>)
    ensures
        0 <= count_matches_row(r, x) <= r.len(),
    decreases r.len(),
{
    if r.len() > 0 {
        lemma_count_matches_bounds(r.drop_last(), x);
    }
}

/// Counts, per row, the elements equal to the probe value; a null row counts
/// to null.
pub fn array_count_matches(ca: &ArrayColumn, element: &Option<Scalar>) -> (r: Result<
    Column,
    Error,
>)
    requires
        ca.wf(),
    ensures
        match r {
            Ok(out) => {
                &&& out.name == ca.name
                &&& out.dtype == DataType::UInt64
                &&& out.spec_len() == ca.spec_len()
                &&& forall|i: int|
                    0 <= i < ca.spec_len() ==> out.values_v()[i] == (match ca.rows_v()[i] {
                        Some(row) => Some(
                            ScalarVal::UInt(
                                count_matches_row(row, element.deep_view()) as u64,
                            ),
                        ),
                        None => None,
                    })
            },
            Err(_) => false,
        },
{
    let ghost x = element.deep_view();
    let mut values: Vec<Option<Scalar>> = Vec::new();
    let mut i: usize = 0;
    let n = ca.rows.len();
    while i < n
        invariant
            i <= n,
            n == ca.spec_len(),
            ca.wf(),
            x == element.deep_view(),
            values@.len() == i,
            forall|j: int|
                0 <= j < i ==> values.deep_view()[j] == (match ca.rows_v()[j] {
                    Some(row) => Some(ScalarVal::UInt(count_matches_row(row, x) as u64)),
                    None => None,
                }),
        decreases n - i,
    {
        let ghost prev = values.deep_view();
        match &ca.rows[i] {
            Some(row) => {
                let ghost rv = row.deep_view();
                let mut count: usize = 0;
                let mut k: usize = 0;
                proof {
                    assert(rv.take(0) =~= Seq::<Option<ScalarVal>>::empty());
                }
                while k < row.len()
                    invariant
                        k <= row@.len(),
                        rv == row.deep_view(),
                        x == element.deep_view(),
                        count == count_matches_row(rv.take(k as int), x),
                        count <= k,
                    decreases row.len() - k,
                {
                    proof {
                        assert(rv.take(k + 1).drop_last() =~= rv.take(k as int));
                        assert(rv.take(k + 1).last() == rv[k as int]);
                        assert(rv[k as int] == row@[k as int].deep_view());
                    }
                    if opt_scalar_eq(&row[k], element) {
                        count += 1;
                    }
                    k += 1;
                }
                proof {
                    assert(rv.take(rv.len() as int) =~= rv);
                    lemma_count_matches_bounds(rv, x);
                }
                values.push(Some(Scalar::UInt(count as u64)));
            },
            None => {
                values.push(None);
            },
        }
        proof {
            assert(values.deep_view() =~= prev.push(values.deep_view().last()));
        }
        i += 1;
    }
    let name = clone_string(&ca.name);
    Ok(Column { name, dtype: DataType::UInt64, values })
}

} // verus!
