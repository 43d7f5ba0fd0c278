use vstd::prelude::*;

use crate::column::{elems_fit, row_fits_opt, row_wf, ArrayColumn, Column, ListColumn};
use crate::dtype::DataType;
use crate::error::Error;
use crate::gather::clone_string;
use crate::scalar::{Scalar, ScalarVal};

verus! {

/// Applies a same-shape transform to every non-null row, reusing one view
/// per step and allocating no intermediate column. The transform must
/// preserve each row's element count and dtype; here that caller obligation
/// is a checked precondition, not an unchecked trust.
pub fn apply_amortized_same_type<F: Fn(&Vec<Option<Scalar>>) -> Vec<Option<Scalar>>>(
    ca: &ArrayColumn,
    f: F,
) -> (r: ArrayColumn)
    requires
        ca.wf(),
        forall|row: &Vec<Option<Scalar>>| #[trigger] call_requires(f, (row,)),
        forall|row: &Vec<Option<Scalar>>, out: Vec<Option<Scalar>>|
            #[trigger] call_ensures(f, (row,), out) ==> out@.len() == row@.len() && (forall|
                dt: crate::dtype::DataType,
            |
                elems_fit(row.deep_view(), dt) ==> elems_fit(out.deep_view(), dt)),
    ensures
        r.name == ca.name,
        r.inner_dtype == ca.inner_dtype,
        r.width == ca.width,
        r.spec_len() == ca.spec_len(),
        r.wf(),
        forall|i: int|
            0 <= i < ca.spec_len() ==> (match ca.rows@[i] {
                Some(vrow) => (#[trigger] r.rows@[i]) matches Some(vout) && call_ensures(
                    f,
                    (&vrow,),
                    vout,
                ),
                None => r.rows@[i] is None,
            }),
{
    let mut rows: Vec<Option<Vec<Option<Scalar>>>> = Vec::new();
    let mut i: usize = 0;
    let n = ca.rows.len();
    while i < n
        invariant
            i <= n,
            n == ca.spec_len(),
            ca.wf(),
            forall|row: &Vec<Option<Scalar>>| #[trigger] call_requires(f, (row,)),
            forall|row: &Vec<Option<Scalar>>, out: Vec<Option<Scalar>>|
                #[trigger] call_ensures(f, (row,), out) ==> out@.len() == row@.len() && (forall|
                    dt: crate::dtype::DataType,
                |
                    elems_fit(row.deep_view(), dt) ==> elems_fit(out.deep_view(), dt)),
            rows@.len() == i,
            forall|j: int|
                0 <= j < i ==> (match ca.rows@[j] {
                    Some(vrow) => (#[trigger] rows@[j]) matches Some(vout) && call_ensures(
                        f,
                        (&vrow,),
                        vout,
                    ),
                    None => rows@[j] is None,
                }),
            forall|j: int|
                0 <= j < i ==> row_wf(
                    #[trigger] rows.deep_view()[j],
                    ca.width as nat,
                    ca.inner_dtype,
                ),
        decreases n - i,
    {
        let ghost prev = rows.deep_view();
        match &ca.rows[i] {
            Some(row) => {
                proof {
                    assert(row_wf(ca.rows_v()[i as int], ca.width as nat, ca.inner_dtype));
                    assert(ca.rows_v()[i as int] == ca.rows@[i as int].deep_view());
                }
                let out = f(row);
                proof {
                    assert(elems_fit(row.deep_view(), ca.inner_dtype));
                    assert(elems_fit(out.deep_view(), ca.inner_dtype));
                    assert(out@.len() == row@.len());
                    assert(out.deep_view().len() == out@.len());
                }
                let ghost outv = out.deep_view();
                rows.push(Some(out));
                proof {
                    assert(rows.deep_view() =~= prev.push(Some(outv)));
                }
            },
            None => {
                rows.push(None);
                proof {
                    assert(rows.deep_view() =~= prev.push(None));
                }
            },
        }
        i += 1;
    }
    let name = clone_string(&ca.name);
    ArrayColumn { name, inner_dtype: ca.inner_dtype, width: ca.width, rows }
}

/// Fallible map-to-list traversal: every non-null row is transformed into a
/// new list row; the first failure aborts the remaining traversal and is
/// returned as the whole call's error, with no partial result. The transform
/// must keep elements inside the child dtype.
pub fn try_apply_amortized_to_list<
    F: Fn(&Vec<Option<Scalar>>) -> Result<Vec<Option<Scalar>>, Error>,
>(ca: &ArrayColumn, f: F) -> (r: Result<ListColumn, Error>)
    requires
        ca.wf(),
        forall|row: &Vec<Option<Scalar>>| #[trigger] call_requires(f, (row,)),
        forall|row: &Vec<Option<Scalar>>, out: Result<Vec<Option<Scalar>>, Error>|
            #[trigger] call_ensures(f, (row,), out) ==> (out matches Ok(v) ==> (forall|
                dt: crate::dtype::DataType,
            |
                elems_fit(row.deep_view(), dt) ==> elems_fit(v.deep_view(), dt))),
    ensures
        match r {
            Ok(out) => {
                &&& out.name == ca.name
                &&& out.inner_dtype == ca.inner_dtype
                &&& out.spec_len() == ca.spec_len()
                &&& out.wf()
                &&& forall|i: int|
                    0 <= i < ca.spec_len() ==> (match ca.rows@[i] {
                        Some(vrow) => (#[trigger] out.rows@[i]) matches Some(vout)
                            && call_ensures(f, (&vrow,), Ok(vout)),
                        None => out.rows@[i] is None,
                    })
            },
            Err(e) => exists|i: int|
                0 <= i < ca.spec_len() && ((#[trigger] ca.rows@[i]) matches Some(vrow)
                    && call_ensures(f, (&vrow,), Err::<Vec<Option<Scalar>>, Error>(e))),
        },
{
    let mut rows: Vec<Option<Vec<Option<Scalar>>>> = Vec::new();
    let mut i: usize = 0;
    let n = ca.rows.len();
    while i < n
        invariant
            i <= n,
            n == ca.spec_len(),
            ca.wf(),
            forall|row: &Vec<Option<Scalar>>| #[trigger] call_requires(f, (row,)),
            forall|row: &Vec<Option<Scalar>>, out: Result<Vec<Option<Scalar>>, Error>|
                #[trigger] call_ensures(f, (row,), out) ==> (out matches Ok(v) ==> (forall|
                    dt: crate::dtype::DataType,
                |
                    elems_fit(row.deep_view(), dt) ==> elems_fit(v.deep_view(), dt))),
            rows@.len() == i,
            forall|j: int|
                0 <= j < i ==> (match ca.rows@[j] {
                    Some(vrow) => (#[trigger] rows@[j]) matches Some(vout) && call_ensures(
                        f,
                        (&vrow,),
                        Ok(vout),
                    ),
                    None => rows@[j] is None,
                }),
            forall|j: int|
                0 <= j < i ==> row_fits_opt(#[trigger] rows.deep_view()[j], ca.inner_dtype),
        decreases n - i,
    {
        let ghost prev = rows.deep_view();
        match &ca.rows[i] {
            Some(row) => {
                proof {
                    assert(row_wf(ca.rows_v()[i as int], ca.width as nat, ca.inner_dtype));
                    assert(ca.rows_v()[i as int] == ca.rows@[i as int].deep_view());
                }
                match f(row) {
                    Ok(out) => {
                        proof {
                            assert(elems_fit(row.deep_view(), ca.inner_dtype));
                            assert(elems_fit(out.deep_view(), ca.inner_dtype));
                        }
                        let ghost outv = out.deep_view();
                        rows.push(Some(out));
                        proof {
                            assert(rows.deep_view() =~= prev.push(Some(outv)));
                        }
                    },
                    Err(e) => {
                        return Err(e);
                    },
                }
            },
            None => {
                rows.push(None);
                proof {
                    assert(rows.deep_view() =~= prev.push(None));
                }
            },
        }
        i += 1;
    }
    let name = clone_string(&ca.name);
    Ok(ListColumn { name, inner_dtype: ca.inner_dtype, rows })
}

/// Zipped same-shape traversal: each row is transformed together with its
/// positional parameter from a second column; a null on either side gives a
/// null row, and the traversal stops at the shorter operand. The transform
/// must preserve each row's element count and dtype.
pub fn zip_and_apply_amortized_same_type<F: Fn(&Vec<Option<Scalar>>, i64) -> Vec<Option<Scalar>>>(
    ca: &ArrayColumn,
    n: &Column,
    f: F,
) -> (r: ArrayColumn)
    requires
        ca.wf(),
        n.wf(),
        n.dtype == DataType::Int64,
        forall|row: &Vec<Option<Scalar>>, v: i64| #[trigger] call_requires(f, (row, v)),
        forall|row: &Vec<Option<Scalar>>, v: i64, out: Vec<Option<Scalar>>|
            #[trigger] call_ensures(f, (row, v), out) ==> out@.len() == row@.len() && (forall|
                dt: DataType,
            |
                elems_fit(row.deep_view(), dt) ==> elems_fit(out.deep_view(), dt)),
    ensures
        r.name == ca.name,
        r.inner_dtype == ca.inner_dtype,
        r.width == ca.width,
        r.wf(),
        r.spec_len() == (if ca.spec_len() <= n.spec_len() {
            ca.spec_len()
        } else {
            n.spec_len()
        }),
        forall|i: int|
            0 <= i < r.spec_len() ==> (match (ca.rows@[i], n.values_v()[i]) {
                (Some(vrow), Some(ScalarVal::Int(v))) => (#[trigger] r.rows@[i]) matches Some(
                    vout,
                ) && call_ensures(f, (&vrow, v), vout),
                _ => r.rows@[i] is None,
            }),
{
    let m = if ca.rows.len() <= n.values.len() {
        ca.rows.len()
    } else {
        n.values.len()
    };
    let mut rows: Vec<Option<Vec<Option<Scalar>>>> = Vec::new();
    let mut i: usize = 0;
    while i < m
        invariant
            i <= m,
            m <= ca.spec_len(),
            m <= n.spec_len(),
            ca.wf(),
            n.wf(),
            n.dtype == DataType::Int64,
            forall|row: &Vec<Option<Scalar>>, v: i64| #[trigger] call_requires(f, (row, v)),
            forall|row: &Vec<Option<Scalar>>, v: i64, out: Vec<Option<Scalar>>|
                #[trigger] call_ensures(f, (row, v), out) ==> out@.len() == row@.len() && (
                forall|dt: DataType|
                    elems_fit(row.deep_view(), dt) ==> elems_fit(out.deep_view(), dt)),
            rows@.len() == i,
            forall|j: int|
                0 <= j < i ==> (match (ca.rows@[j], n.values_v()[j]) {
                    (Some(vrow), Some(ScalarVal::Int(v))) => (#[trigger] rows@[j]) matches Some(
                        vout,
                    ) && call_ensures(f, (&vrow, v), vout),
                    _ => rows@[j] is None,
                }),
            forall|j: int|
                0 <= j < i ==> row_wf(
                    #[trigger] rows.deep_view()[j],
                    ca.width as nat,
                    ca.inner_dtype,
                ),
        decreases m - i,
    {
        let ghost prev = rows.deep_view();
        proof {
            assert(n.values_v()[i as int] == n.values@[i as int].deep_view());
            assert(crate::column::opt_fits(n.values_v()[i as int], n.dtype));
        }
        match (&ca.rows[i], &n.values[i]) {
            (Some(row), Some(Scalar::Int(v))) => {
                proof {
                    assert(row_wf(ca.rows_v()[i as int], ca.width as nat, ca.inner_dtype));
                    assert(ca.rows_v()[i as int] == ca.rows@[i as int].deep_view());
                }
                let out = f(row, *v);
                proof {
                    assert(elems_fit(row.deep_view(), ca.inner_dtype));
                    assert(elems_fit(out.deep_view(), ca.inner_dtype));
                    assert(out@.len() == row@.len());
                    assert(out.deep_view().len() == out@.len());
                }
                let ghost outv = out.deep_view();
                rows.push(Some(out));
                proof {
                    assert(rows.deep_view() =~= prev.push(Some(outv)));
                }
            },
            _ => {
                rows.push(None);
                proof {
                    assert(rows.deep_view() =~= prev.push(None));
                }
            },
        }
        i += 1;
    }
    let name = clone_string(&ca.name);
    ArrayColumn { name, inner_dtype: ca.inner_dtype, width: ca.width, rows }
}

/// Fallible same-shape traversal: as the same-shape map, but the transform
/// may fail; the first failure aborts the remaining traversal and is
/// returned as the whole call's error, with no partial result.
pub fn try_apply_amortized_same_type<
    F: Fn(&Vec<Option<Scalar>>) -> Result<Vec<Option<Scalar>>, Error>,
>(ca: &ArrayColumn, f: F) -> (r: Result<ArrayColumn, Error>)
    requires
        ca.wf(),
        forall|row: &Vec<Option<Scalar>>| #[trigger] call_requires(f, (row,)),
        forall|row: &Vec<Option<Scalar>>, out: Result<Vec<Option<Scalar>>, Error>|
            #[trigger] call_ensures(f, (row,), out) ==> (out matches Ok(v) ==> v@.len()
                == row@.len() && (forall|dt: DataType|
                elems_fit(row.deep_view(), dt) ==> elems_fit(v.deep_view(), dt))),
    ensures
        match r {
            Ok(out) => {
                &&& out.name == ca.name
                &&& out.inner_dtype == ca.inner_dtype
                &&& out.width == ca.width
                &&& out.spec_len() == ca.spec_len()
                &&& out.wf()
                &&& forall|i: int|
                    0 <= i < ca.spec_len() ==> (match ca.rows@[i] {
                        Some(vrow) => (#[trigger] out.rows@[i]) matches Some(vout)
                            && call_ensures(f, (&vrow,), Ok(vout)),
                        None => out.rows@[i] is None,
                    })
            },
            Err(e) => exists|i: int|
                0 <= i < ca.spec_len() && ((#[trigger] ca.rows@[i]) matches Some(vrow)
                    && call_ensures(f, (&vrow,), Err::<Vec<Option<Scalar>>, Error>(e))),
        },
{
    let mut rows: Vec<Option<Vec<Option<Scalar>>>> = Vec::new();
    let mut i: usize = 0;
    let n = ca.rows.len();
    while i < n
        invariant
            i <= n,
            n == ca.spec_len(),
            ca.wf(),
            forall|row: &Vec<Option<Scalar>>| #[trigger] call_requires(f, (row,)),
            forall|row: &Vec<Option<Scalar>>, out: Result<Vec<Option<Scalar>>, Error>|
                #[trigger] call_ensures(f, (row,), out) ==> (out matches Ok(v) ==> v@.len()
                    == row@.len() && (forall|dt: DataType|
                    elems_fit(row.deep_view(), dt) ==> elems_fit(v.deep_view(), dt))),
            rows@.len() == i,
            forall|j: int|
                0 <= j < i ==> (match ca.rows@[j] {
                    Some(vrow) => (#[trigger] rows@[j]) matches Some(vout) && call_ensures(
                        f,
                        (&vrow,),
                        Ok(vout),
                    ),
                    None => rows@[j] is None,
                }),
            forall|j: int|
                0 <= j < i ==> row_wf(
                    #[trigger] rows.deep_view()[j],
                    ca.width as nat,
                    ca.inner_dtype,
                ),
        decreases n - i,
    {
        let ghost prev = rows.deep_view();
        match &ca.rows[i] {
            Some(row) => {
                proof {
                    assert(row_wf(ca.rows_v()[i as int], ca.width as nat, ca.inner_dtype));
                    assert(ca.rows_v()[i as int] == ca.rows@[i as int].deep_view());
                }
                match f(row) {
                    Ok(out) => {
                        proof {
                            assert(elems_fit(row.deep_view(), ca.inner_dtype));
                            assert(elems_fit(out.deep_view(), ca.inner_dtype));
                            assert(out.deep_view().len() == out@.len());
                        }
                        let ghost outv = out.deep_view();
                        rows.push(Some(out));
                        proof {
                            assert(rows.deep_view() =~= prev.push(Some(outv)));
                        }
                    },
                    Err(e) => {
                        return Err(e);
                    },
                }
            },
            None => {
                rows.push(None);
                proof {
                    assert(rows.deep_view() =~= prev.push(None));
                }
            },
        }
        i += 1;
    }
    let name = clone_string(&ca.name);
    Ok(ArrayColumn { name, inner_dtype: ca.inner_dtype, width: ca.width, rows })
}

} // verus!
