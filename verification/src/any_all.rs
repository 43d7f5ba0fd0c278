use vstd::prelude::*;

use crate::column::{ArrayColumn, Column};
use crate::dtype::DataType;
use crate::error::Error;
use crate::gather::clone_string;
use crate::scalar::{Scalar, ScalarVal};

verus! {

/// Three-valued disjunction over one row: true as soon as any element is
/// true; false only when every element is a non-null false; null when no
/// element is true but a null could still flip the answer.
pub open spec fn row_any(r: Seq<Option<ScalarVal>>) -> Option<bool> {
    if exists|j: int| 0 <= j < r.len() && r[j] == Some(ScalarVal::Bool(true)) {
        Some(true)
    } else if exists|j: int| 0 <= j < r.len() && r[j] is None {
        None
    } else {
        Some(false)
    }
}

/// Three-valued conjunction over one row: false as soon as any element is a
/// non-null false; true only when every element is a non-null true; null
/// otherwise.
pub open spec fn row_all(r: Seq<Option<ScalarVal>>) -> Option<bool> {
    if exists|j: int| 0 <= j < r.len() && r[j] == Some(ScalarVal::Bool(false)) {
        Some(false)
    } else if exists|j: int| 0 <= j < r.len() && r[j] is None {
        None
    } else {
        Some(true)
    }
}

/// One Kleene reduction over every row of a boolean array column; a null row
/// reduces to null.
fn kleene_rows(ca: &ArrayColumn, want: bool) -> (values: Vec<Option<Scalar>>)
    requires
        ca.wf(),
        ca.inner_dtype == DataType::Boolean,
    ensures
        values@.len() == ca.spec_len(),
        forall|i: int|
            0 <= i < ca.spec_len() ==> values.deep_view()[i] == (match ca.rows_v()[i] {
                Some(row) => {
                    let v = if want {
                        row_any(row)
                    } else {
                        row_all(row)
                    };
                    match v {
                        Some(b) => Some(ScalarVal::Bool(b)),
                        None => None,
                    }
                },
                None => None,
            }),
{
    let mut values: Vec<Option<Scalar>> = Vec::new();
    let mut i: usize = 0;
    let n = ca.rows.len();
    while i < n
        invariant
            i <= n,
            n == ca.spec_len(),
            ca.wf(),
            ca.inner_dtype == DataType::Boolean,
            values@.len() == i,
            forall|j: int|
                0 <= j < i ==> values.deep_view()[j] == (match ca.rows_v()[j] {
                    Some(row) => {
                        let v = if want {
                            row_any(row)
                        } else {
                            row_all(row)
                        };
                        match v {
                            Some(b) => Some(ScalarVal::Bool(b)),
                            None => None,
                        }
                    },
                    None => None,
                }),
        decreases n - i,
    {
        let ghost prev = values.deep_view();
        match &ca.rows[i] {
            Some(row) => {
                proof {
                    assert(crate::column::row_wf(
                        ca.rows_v()[i as int],
                        ca.width as nat,
                        ca.inner_dtype,
                    ));
                }
                let ghost rv = row.deep_view();
                let mut seen_decider: bool = false;
                let mut seen_null: bool = false;
                let mut k: usize = 0;
                while k < row.len()
                    invariant
                        k <= row@.len(),
                        rv == row.deep_view(),
                        crate::column::elems_fit(rv, DataType::Boolean),
                        seen_decider == exists|t: int|
                            0 <= t < k && rv[t] == Some(ScalarVal::Bool(want)),
                        seen_null == exists|t: int| 0 <= t < k && rv[t] is None,
                    decreases row.len() - k,
                {
                    proof {
                        assert(rv[k as int] == row@[k as int].deep_view());
                    }
                    match &row[k] {
                        Some(Scalar::Bool(b)) => {
                            if *b == want {
                                seen_decider = true;
                            }
                        },
                        None => {
                            seen_null = true;
                        },
                        _ => {
                            proof {
                                assert(crate::column::opt_fits(rv[k as int], DataType::Boolean));
                                assert(false);
                            }
                        },
                    }
                    k += 1;
                }
                if seen_decider {
                    values.push(Some(Scalar::Bool(want)));
                } else if seen_null {
                    values.push(None);
                } else {
                    values.push(Some(Scalar::Bool(!want)));
                }
            },
            None => {
                values.push(None);
            },
        }
        proof {
            assert(values.deep_view() =~= prev.push(values.deep_view().last()));
        }
        i += 1;
    }
    values
}

/// Kleene `any` per row: see `row_any`.
pub fn array_any(ca: &ArrayColumn) -> (r: Result<Column, Error>)
    requires
        ca.wf(),
    ensures
        r is Ok <==> ca.inner_dtype == DataType::Boolean,
        match r {
            Ok(out) => {
                &&& out.name == ca.name
                &&& out.dtype == DataType::Boolean
                &&& out.spec_len() == ca.spec_len()
                &&& forall|i: int|
                    0 <= i < ca.spec_len() ==> out.values_v()[i] == (match ca.rows_v()[i] {
                        Some(row) => match row_any(row) {
                            Some(b) => Some(ScalarVal::Bool(b)),
                            None => None,
                        },
                        None => None,
                    })
            },
            Err(e) => e == Error::UnsupportedDtype,
        },
{
    if !(ca.inner_dtype == DataType::Boolean) {
        return Err(Error::UnsupportedDtype);
    }
    let values = kleene_rows(ca, true);
    let name = clone_string(&ca.name);
    Ok(Column { name, dtype: DataType::Boolean, values })
}

/// Kleene `all` per row: see `row_all`.
pub fn array_all(ca: &ArrayColumn) -> (r: Result<Column, Error>)
    requires
        ca.wf(),
    ensures
        r is Ok <==> ca.inner_dtype == DataType::Boolean,
        match r {
            Ok(out) => {
                &&& out.name == ca.name
                &&& out.dtype == DataType::Boolean
                &&& out.spec_len() == ca.spec_len()
                &&& forall|i: int|
                    0 <= i < ca.spec_len() ==> out.values_v()[i] == (match ca.rows_v()[i] {
                        Some(row) => match row_all(row) {
                            Some(b) => Some(ScalarVal::Bool(b)),
                            None => None,
                        },
                        None => None,
                    })
            },
            Err(e) => e == Error::UnsupportedDtype,
        },
{
    if !(ca.inner_dtype == DataType::Boolean) {
        return Err(Error::UnsupportedDtype);
    }
    let values = kleene_rows(ca, false);
    let name = clone_string(&ca.name);
    Ok(Column { name, dtype: DataType::Boolean, values })
}

} // verus!
