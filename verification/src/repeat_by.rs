use vstd::prelude::*;

use crate::column::{elems_fit, Column, IdxColumn, ListColumn};
use crate::error::Error;
use crate::gather::clone_string;
use crate::scalar::{opt_scalar_clone, Scalar, ScalarVal};

verus! {

/// Two operand lengths are reconcilable when they are equal or one of them
/// is 1 (a broadcast).
pub open spec fn lengths_ok(a: nat, b: nat) -> bool {
    a == b || a == 1 || b == 1
}

/// The row count of the reconciled result: a length-1 operand follows the
/// other side's length.
pub open spec fn out_len(a: nat, b: nat) -> nat {
    if a == b {
        a
    } else if b == 1 {
        a
    } else {
        b
    }
}

/// The element a length-1 operand contributes to every row.
pub open spec fn bcast_at<T>(s: Seq<T>, i: int) -> T {
    if s.len() == 1 {
        s[0]
    } else {
        s[i]
    }
}

/// One output row of a repeat: null when the value or the count is null,
/// otherwise a run of `k` copies of the value — an empty (but non-null) run
/// when `k` is zero.
pub open spec fn repeat_row(v: Option<ScalarVal>, k: Option<u64>) -> Option<
    Seq<Option<ScalarVal>>,
> {
    match (v, k) {
        (Some(x), Some(n)) => Some(Seq::new(n as nat, |j: int| Some(x))),
        _ => None,
    }
}

/// The whole result for same-length operands.
pub open spec fn repeat_spec(vals: Seq<Option<ScalarVal>>, by: Seq<Option<u64>>) -> Seq<
    Option<Seq<Option<ScalarVal>>>,
> {
    Seq::new(vals.len(), |i: int| repeat_row(vals[i], by[i]))
}

/// Rejects operand lengths that are neither equal nor broadcastable; checked
/// before any row is processed, so a mismatch never returns a partial
/// result.
pub fn check_lengths(length_srs: usize, length_by: usize) -> (r: Result<(), Error>)
    ensures
        r is Ok <==> lengths_ok(length_srs as nat, length_by as nat),
        r is Err ==> r == Err::<(), Error>(Error::LengthMismatch),
{
    if length_srs == length_by || length_by == 1 || length_srs == 1 {
        Ok(())
    } else {
        Err(Error::LengthMismatch)
    }
}

/// Replicates the single count of a length-1 count column to the value
/// column's length.
pub fn new_by(by: &IdxColumn, len: usize) -> (r: IdxColumn)
    requires
        by.spec_len() >= 1,
    ensures
        r.spec_len() == len,
        forall|i: int| 0 <= i < len ==> r.values@[i] == by.values@[0],
{
    let first = by.values[0];
    let mut values: Vec<Option<u64>> = Vec::new();
    let mut i: usize = 0;
    while i < len
        invariant
            i <= len,
            values@.len() == i,
            forall|j: int| 0 <= j < i ==> values@[j] == by.values@[0],
            first == by.values@[0],
        decreases len - i,
    {
        values.push(first);
        i += 1;
    }
    IdxColumn { name: String::new(), values }
}

/// Replicates the single value of a length-1 column to the given length.
pub fn new_from_index(ca: &Column, len: usize) -> (r: Column)
    requires
        ca.spec_len() >= 1,
    ensures
        r.spec_len() == len,
        forall|i: int| 0 <= i < len ==> r.values_v()[i] == ca.values_v()[0],
        r.dtype == ca.dtype,
        r.name == ca.name,
{
    let mut values: Vec<Option<Scalar>> = Vec::new();
    let mut i: usize = 0;
    while i < len
        invariant
            i <= len,
            ca.spec_len() >= 1,
            values@.len() == i,
            forall|j: int| 0 <= j < i ==> values.deep_view()[j] == ca.values_v()[0],
        decreases len - i,
    {
        let ghost prev = values.deep_view();
        let v = opt_scalar_clone(&ca.values[0]);
        proof {
            assert(ca.values_v()[0] == ca.values@[0].deep_view());
        }
        values.push(v);
        proof {
            assert(values.deep_view() =~= prev.push(v.deep_view()));
        }
        i += 1;
    }
    let name = clone_string(&ca.name);
    Column { name, dtype: ca.dtype, values }
}

/// Builds the repeated rows for operands of one common length.
fn repeat_rows(vals: &Vec<Option<Scalar>>, by: &Vec<Option<u64>>) -> (rows: Vec<
    Option<Vec<Option<Scalar>>>,
>)
    requires
        vals@.len() == by@.len(),
    ensures
        rows.deep_view() =~= repeat_spec(vals.deep_view(), by@),
{
    let mut rows: Vec<Option<Vec<Option<Scalar>>>> = Vec::new();
    let mut i: usize = 0;
    while i < vals.len()
        invariant
            i <= vals@.len(),
            vals@.len() == by@.len(),
            rows@.len() == i,
            forall|j: int|
                0 <= j < i ==> rows.deep_view()[j] == repeat_row(vals.deep_view()[j], by@[j]),
        decreases vals.len() - i,
    {
        let ghost prev = rows.deep_view();
        match (&vals[i], by[i]) {
            (Some(x), Some(k)) => {
                let mut run: Vec<Option<Scalar>> = Vec::new();
                let mut j: u64 = 0;
                while j < k
                    invariant
                        j <= k,
                        run.deep_view() =~= Seq::new(j as nat, |t: int| Some(x@)),
                    decreases k - j,
                {
                    let ghost prev_run = run.deep_view();
                    let c = x.clone_scalar();
                    run.push(Some(c));
                    proof {
                        assert(run.deep_view() =~= prev_run.push(Some(c@)));
                        assert(run.deep_view() =~= Seq::new((j + 1) as nat, |t: int| Some(x@)));
                    }
                    j += 1;
                }
                rows.push(Some(run));
                proof {
                    assert(vals.deep_view()[i as int] == Some(x@));
                }
            },
            _ => {
                rows.push(None);
            },
        }
        proof {
            assert(rows.deep_view() =~= prev.push(rows.deep_view().last()));
        }
        i += 1;
    }
    proof {
        assert(rows.deep_view() =~= repeat_spec(vals.deep_view(), by@));
    }
    rows
}

/// The common contract of the per-category builders: the operands reconcile
/// by broadcast, and row `i` of the result is `bcast_at(vals, i)` repeated
/// `bcast_at(by, i)` times, null when either side is null.
pub open spec fn repeat_by_post(r: Result<ListColumn, Error>, ca: Column, by: IdxColumn) -> bool {
    &&& (r is Ok <==> lengths_ok(ca.spec_len(), by.spec_len()))
    &&& match r {
        Ok(out) => {
            &&& out.name == ca.name
            &&& out.inner_dtype == ca.dtype
            &&& out.spec_len() == out_len(ca.spec_len(), by.spec_len())
            &&& forall|i: int|
                0 <= i < out.spec_len() ==> out.rows_v()[i] == repeat_row(
                    bcast_at(ca.values_v(), i),
                    bcast_at(by.values@, i),
                )
        },
        Err(e) => e == Error::LengthMismatch,
    }
}

/// Broadcast reconciliation shared by the per-category builders.
fn repeat_by_impl(ca: &Column, by: &IdxColumn) -> (r: Result<ListColumn, Error>)
    ensures
        repeat_by_post(r, *ca, *by),
{
    check_lengths(ca.values.len(), by.values.len())?;
    let n_ca = ca.values.len();
    let n_by = by.values.len();
    let rows: Vec<Option<Vec<Option<Scalar>>>> = if n_ca == n_by {
        repeat_rows(&ca.values, &by.values)
    } else if n_by == 1 {
        let by2 = new_by(by, n_ca);
        let rows = repeat_rows(&ca.values, &by2.values);
        proof {
            assert forall|i: int| 0 <= i < n_ca implies rows.deep_view()[i] == repeat_row(
                bcast_at(ca.values_v(), i),
                bcast_at(by.values@, i),
            ) by {
                assert(by2.values@[i] == by.values@[0]);
            }
        }
        rows
    } else {
        let ca2 = new_from_index(ca, n_by);
        let rows = repeat_rows(&ca2.values, &by.values);
        proof {
            assert forall|i: int| 0 <= i < n_by implies rows.deep_view()[i] == repeat_row(
                bcast_at(ca.values_v(), i),
                bcast_at(by.values@, i),
            ) by {
                assert(ca2.values_v()[i] == ca.values_v()[0]);
            }
        }
        rows
    };
    let name = clone_string(&ca.name);
    Ok(ListColumn { name, inner_dtype: ca.dtype, rows })
}

/// Repeat-by for primitive numeric storage (dates run through their integer
/// physical representation).
pub fn repeat_by_primitive(ca: &Column, by: &IdxColumn) -> (r: Result<ListColumn, Error>)
    requires
        ca.dtype.spec_to_physical().primitive_numeric(),
    ensures
        repeat_by_post(r, *ca, *by),
{
    repeat_by_impl(ca, by)
}

/// Repeat-by for boolean storage.
pub fn repeat_by_bool(ca: &Column, by: &IdxColumn) -> (r: Result<ListColumn, Error>)
    requires
        ca.dtype == crate::dtype::DataType::Boolean,
    ensures
        repeat_by_post(r, *ca, *by),
{
    repeat_by_impl(ca, by)
}

/// Repeat-by for binary-like storage; string columns run through their byte
/// representation and keep their logical type.
pub fn repeat_by_binary(ca: &Column, by: &IdxColumn) -> (r: Result<ListColumn, Error>)
    requires
        ca.dtype.binary_like(),
    ensures
        repeat_by_post(r, *ca, *by),
{
    repeat_by_impl(ca, by)
}

/// Builds a list column whose row `i` holds `s[i]` repeated `by[i]` times.
/// Operand lengths must be equal or broadcastable (length 1); a null value
/// or count at a row gives a null row, a zero count an empty one. Dispatches
/// on the physical storage category and restores the logical dtype on the
/// way out.
pub fn repeat_by(s: &Column, by: &IdxColumn) -> (r: Result<ListColumn, Error>)
    requires
        s.wf(),
    ensures
        repeat_by_post(r, *s, *by),
        r matches Ok(out) ==> out.wf(),
{
    let phys = s.dtype.to_physical();
    let out = if phys == crate::dtype::DataType::Boolean {
        repeat_by_bool(s, by)
    } else if phys.is_binary_like() {
        repeat_by_binary(s, by)
    } else {
        repeat_by_primitive(s, by)
    };
    proof {
        if let Ok(res) = &out {
            assert forall|i: int| 0 <= i < res.spec_len() implies crate::column::row_fits_opt(
                #[trigger] res.rows_v()[i],
                res.inner_dtype,
            ) by {
                if res.rows_v()[i] is Some {
                    let v = bcast_at(s.values_v(), i);
                    assert(crate::column::opt_fits(
                        if s.values_v().len() == 1 {
                            s.values_v()[0]
                        } else {
                            s.values_v()[i]
                        },
                        s.dtype,
                    ));
                    let row = res.rows_v()[i].unwrap();
                    assert forall|j: int| 0 <= j < row.len() implies crate::column::opt_fits(
                        #[trigger] row[j],
                        res.inner_dtype,
                    ) by {
                        assert(row[j] == Some(v.unwrap()));
                    }
                }
            }
        }
    }
    out
}

} // verus!
