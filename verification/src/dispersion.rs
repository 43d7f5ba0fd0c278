use vstd::prelude::*;

use crate::column::{lemma_nnc_take_succ, non_null_count, ArrayColumn};
use crate::scalar::{Scalar, ScalarVal};

verus! {

/// The row's non-null signed values, in row order: the exact per-row input
/// of a median, variance or standard-deviation computation. The floating
/// point reduction itself lives outside the verified kernels.
pub open spec fn non_null_ints(row: Seq<Option<ScalarVal>>) -> Seq<i64>
    decreases row.len(),
{
    if row.len() == 0 {
        Seq::empty()
    } else {
        non_null_ints(row.drop_last()) + (match row.last() {
            Some(ScalarVal::Int(v)) => seq![v],
            _ => Seq::empty(),
        })
    }
}

/// Whether a dispersion row yields a value: the denominator
/// `count_non_null - ddof` must be positive, so a row whose non-null count
/// does not exceed `ddof` yields null.
pub open spec fn dispersion_defined(row: Seq<Option<ScalarVal>>, ddof: u8) -> bool {
    non_null_count(row) > ddof as nat
}

/// A `ddof` that reaches the row's non-null count makes the denominator
/// `count - ddof` zero or negative, so the row yields null.
pub proof fn lemma_ddof_exhausts_row(row: Seq<Option<ScalarVal>>, ddof: u8)
    requires
        non_null_count(row) <= ddof as nat,
    ensures
        !dispersion_defined(row, ddof),
{
}

/// A dispersion input column accepts signed-integer-backed or float storage;
/// float rows can hold no representable value here and always yield null.
pub open spec fn dispersion_dtype(ca: ArrayColumn) -> bool {
    ca.inner_dtype.signed_integer() || ca.inner_dtype == crate::dtype::DataType::Date
        || ca.inner_dtype.float()
}

/// Every non-null element of the row is a signed integer value.
pub open spec fn signed_backed(row: Seq<Option<ScalarVal>>) -> bool {
    forall|j: int| 0 <= j < row.len() ==> ((#[trigger] row[j]) matches Some(v) ==> v is Int)
}

/// Extracts one row's non-null values when at least `ddof + 1` of them
/// exist, and null otherwise.
fn dispersion_row(row: &Vec<Option<Scalar>>, ddof: u8) -> (r: Option<Vec<i64>>)
    requires
        signed_backed(row.deep_view()),
    ensures
        r is Some <==> dispersion_defined(row.deep_view(), ddof),
        r matches Some(vals) ==> vals@ == non_null_ints(row.deep_view()),
{
    let ghost rv = row.deep_view();
    let mut vals: Vec<i64> = Vec::new();
    let mut count: usize = 0;
    let mut i: usize = 0;
    proof {
        assert(rv.take(0) =~= Seq::<Option<ScalarVal>>::empty());
    }
    while i < row.len()
        invariant
            i <= row@.len(),
            rv == row.deep_view(),
            count <= i,
            count == non_null_count(rv.take(i as int)),
            vals@ =~= non_null_ints(rv.take(i as int)),
        decreases row.len() - i,
    {
        proof {
            lemma_nnc_take_succ(rv, i as int);
            assert(rv.take(i + 1).drop_last() =~= rv.take(i as int));
            assert(rv.take(i + 1).last() == rv[i as int]);
            assert(rv[i as int] == row@[i as int].deep_view());
        }
        match &row[i] {
            Some(Scalar::Int(v)) => {
                vals.push(*v);
                count += 1;
            },
            Some(_) => {
                // unsigned, boolean and binary elements cannot appear under
                // the accepted dtypes; a float dtype admits no value at all
                count += 1;
            },
            None => {},
        }
        i += 1;
    }
    proof {
        assert(rv.take(rv.len() as int) =~= rv);
    }
    if count > (ddof as usize) {
        Some(vals)
    } else {
        None
    }
}

/// The common shape of the three dispersion kernels: per row, either null
/// (row null, or too few non-null values for the denominator) or the exact
/// run of non-null values the floating-point reduction consumes.
pub open spec fn dispersion_post(
    r: Seq<Option<Seq<i64>>>,
    ca: ArrayColumn,
    ddof: u8,
) -> bool {
    &&& r.len() == ca.spec_len()
    &&& forall|i: int|
        0 <= i < ca.spec_len() ==> r[i] == (match ca.rows_v()[i] {
            Some(row) => if dispersion_defined(row, ddof) {
                Some(non_null_ints(row))
            } else {
                None
            },
            None => None,
        })
}

fn dispersion_rows(ca: &ArrayColumn, ddof: u8) -> (r: Vec<Option<Vec<i64>>>)
    requires
        ca.wf(),
        dispersion_dtype(*ca),
    ensures
        dispersion_post(r.deep_view(), *ca, ddof),
{
    let mut out: Vec<Option<Vec<i64>>> = Vec::new();
    let mut i: usize = 0;
    let n = ca.rows.len();
    while i < n
        invariant
            i <= n,
            n == ca.spec_len(),
            ca.wf(),
            dispersion_dtype(*ca),
            out@.len() == i,
            forall|j: int|
                0 <= j < i ==> out.deep_view()[j] == (match ca.rows_v()[j] {
                    Some(row) => if dispersion_defined(row, ddof) {
                        Some(non_null_ints(row))
                    } else {
                        None
                    },
                    None => None,
                }),
        decreases n - i,
    {
        let ghost prev = out.deep_view();
        match &ca.rows[i] {
            Some(row) => {
                proof {
                    assert(crate::column::row_wf(
                        ca.rows_v()[i as int],
                        ca.width as nat,
                        ca.inner_dtype,
                    ));
                    assert forall|j: int| 0 <= j < row.deep_view().len() implies ((
                    #[trigger] row.deep_view()[j]) matches Some(v) ==> v is Int) by {
                        assert(crate::column::opt_fits(row.deep_view()[j], ca.inner_dtype));
                    }
                }
                let v = dispersion_row(row, ddof);
                out.push(v);
            },
            None => {
                out.push(None);
            },
        }
        proof {
            assert(out.deep_view() =~= prev.push(out.deep_view().last()));
        }
        i += 1;
    }
    out
}

/// Per-row median input: the non-null values of each row, null where the row
/// is null or empty of values. The caller averages the two middle elements
/// of the sorted run.
pub fn median_with_nulls(ca: &ArrayColumn) -> (r: Vec<Option<Vec<i64>>>)
    requires
        ca.wf(),
        dispersion_dtype(*ca),
    ensures
        dispersion_post(r.deep_view(), *ca, 0),
{
    dispersion_rows(ca, 0)
}

/// Per-row mean input: the non-null values of each row, null where the row
/// is null or holds nothing to average.
pub fn mean_with_nulls(ca: &ArrayColumn) -> (r: Vec<Option<Vec<i64>>>)
    requires
        ca.wf(),
        dispersion_dtype(*ca),
    ensures
        dispersion_post(r.deep_view(), *ca, 0),
{
    dispersion_rows(ca, 0)
}

/// Per-row variance input with denominator `count_non_null - ddof`: null
/// where the denominator would be zero or negative.
pub fn var_with_nulls(ca: &ArrayColumn, ddof: u8) -> (r: Vec<Option<Vec<i64>>>)
    requires
        ca.wf(),
        dispersion_dtype(*ca),
    ensures
        dispersion_post(r.deep_view(), *ca, ddof),
{
    dispersion_rows(ca, ddof)
}

/// Per-row standard-deviation input: null exactly where the variance is.
pub fn std_with_nulls(ca: &ArrayColumn, ddof: u8) -> (r: Vec<Option<Vec<i64>>>)
    requires
        ca.wf(),
        dispersion_dtype(*ca),
    ensures
        dispersion_post(r.deep_view(), *ca, ddof),
{
    dispersion_rows(ca, ddof)
}

} // verus!
