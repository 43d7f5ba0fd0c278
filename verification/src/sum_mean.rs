use vstd::arithmetic::div_mod::{
    lemma_add_mod_noop, lemma_mod_add_multiples_vanish, lemma_mod_sub_multiples_vanish,
};
use vstd::prelude::*;
use vstd::wrapping::{i64_specs, u64_specs};

use crate::column::{lemma_nnc_take_succ, non_null_count, ArrayColumn, Column};
use crate::dtype::DataType;
use crate::error::Error;
use crate::gather::clone_string;
use crate::scalar::{Scalar, ScalarVal};

verus! {

/// The exact integer sum of a row's non-null signed elements.
pub open spec fn row_sum_int(r: Seq<Option<ScalarVal>>) -> int
    decreases r.len(),
{
    if r.len() == 0 {
        0
    } else {
        row_sum_int(r.drop_last()) + match r.last() {
            Some(ScalarVal::Int(v)) => v as int,
            _ => 0,
        }
    }
}

/// The exact integer sum of a row's non-null unsigned elements.
pub open spec fn row_sum_uint(r: Seq<Option<ScalarVal>>) -> int
    decreases r.len(),
{
    if r.len() == 0 {
        0
    } else {
        row_sum_uint(r.drop_last()) + match r.last() {
            Some(ScalarVal::UInt(v)) => v as int,
            _ => 0,
        }
    }
}

/// How many elements of a boolean row are non-null and true.
pub open spec fn row_true_count(r: Seq<Option<ScalarVal>>) -> int
    decreases r.len(),
{
    if r.len() == 0 {
        0
    } else {
        row_true_count(r.drop_last()) + if r.last() == Some(ScalarVal::Bool(true)) {
            1int
        } else {
            0int
        }
    }
}

/// Reduction of an exact sum into the unsigned 64-bit machine range.
pub open spec fn crop_u64(x: int) -> u64 {
    (x % 0x1_0000_0000_0000_0000) as u64
}

/// The value one row sums to: null where the row is null or holds no
/// non-null element (a null is excluded, never treated as zero); otherwise
/// the machine sum of the non-null elements — a count of the true elements
/// for booleans, the wrapped 64-bit sum for integers. Float rows can hold no
/// representable non-null element, so they always sum to null here.
pub open spec fn row_sum_val(row: Option<Seq<Option<ScalarVal>>>, dt: DataType) -> Option<
    ScalarVal,
> {
    match row {
        None => None,
        Some(r) => if non_null_count(r) == 0 {
            None
        } else if dt == DataType::Boolean {
            Some(ScalarVal::UInt(crop_u64(row_true_count(r))))
        } else if dt.signed_integer() || dt == DataType::Date {
            Some(ScalarVal::Int(i64_specs::signed_crop(row_sum_int(r))))
        } else if dt.unsigned_integer() {
            Some(ScalarVal::UInt(crop_u64(row_sum_uint(r))))
        } else {
            None
        },
    }
}

proof fn lemma_crop_u64_add(s: int, v: u64)
    requires
        s >= 0,
    ensures
        u64_specs::wrapping_add(crop_u64(s), v) == crop_u64(s + v),
{
    let m = 0x1_0000_0000_0000_0000int;
    let a = s % m;
    lemma_add_mod_noop(s, v as int, m);
    assert((a + v) % m == (s + v) % m);
    if a + v < m {
        assert((a + v) % m == a + v);
    } else {
        lemma_mod_sub_multiples_vanish(a + v, m);
        assert((a + v - m) % m == (a + v) % m);
        assert((a + v - m) % m == a + v - m);
    }
}

proof fn lemma_signed_crop_add(s: int, v: i64)
    ensures
        i64_specs::wrapping_add(i64_specs::signed_crop(s), v) == i64_specs::signed_crop(s + v),
{
    let m = 0x1_0000_0000_0000_0000int;
    let hi = i64::MAX as int;
    let sm = s % m;
    let a: int = if sm > hi {
        sm - m
    } else {
        sm
    };
    assert(i64_specs::signed_crop(s) == a as i64);
    // a is congruent to s modulo m
    lemma_mod_sub_multiples_vanish(sm, m);
    assert(a % m == s % m);
    // both the wrapped sum and the crop of the exact sum are congruent to
    // s + v and lie in the signed range, so they coincide
    let w: int = {
        let t = a + v;
        if t > hi {
            t - m
        } else if t < i64::MIN {
            t + m
        } else {
            t
        }
    };
    assert(i64_specs::wrapping_add(i64_specs::signed_crop(s), v) == w as i64);
    lemma_add_mod_noop(a, v as int, m);
    lemma_add_mod_noop(s, v as int, m);
    assert((a + v) % m == (s + v) % m);
    lemma_mod_sub_multiples_vanish(a + v, m);
    lemma_mod_add_multiples_vanish(a + v, m);
    assert(w % m == (s + v) % m);
    let c: int = {
        let sv = (s + v) % m;
        if sv > hi {
            sv - m
        } else {
            sv
        }
    };
    assert(i64_specs::signed_crop(s + v) == c as i64);
    lemma_mod_sub_multiples_vanish((s + v) % m, m);
    assert(c % m == (s + v) % m);
    if w >= 0 {
        assert(w % m == w);
    } else {
        lemma_mod_add_multiples_vanish(w, m);
        assert((w + m) % m == w % m);
        assert(w % m == w + m);
    }
    if c >= 0 {
        assert(c % m == c);
    } else {
        lemma_mod_add_multiples_vanish(c, m);
        assert(c % m == c + m);
    }
    assert(w == c);
}

proof fn lemma_row_sum_uint_nonneg(r: Seq<Option<ScalarVal>>)
    ensures
        row_sum_uint(r) >= 0,
    decreases r.len(),
{
    if r.len() > 0 {
        lemma_row_sum_uint_nonneg(r.drop_last());
    }
}

proof fn lemma_row_true_count_bounds(r: Seq<Option<ScalarVal>>)
    ensures
        0 <= row_true_count(r) <= r.len(),
    decreases r.len(),
{
    if r.len() > 0 {
        lemma_row_true_count_bounds(r.drop_last());
    }
}

/// The per-row machine sum shared by the fast and the null-aware paths.
fn sum_rows(ca: &ArrayColumn) -> (values: Vec<Option<Scalar>>)
    requires
        ca.wf(),
        !ca.inner_dtype.binary_like(),
    ensures
        values@.len() == ca.spec_len(),
        forall|i: int|
            0 <= i < ca.spec_len() ==> values.deep_view()[i] == row_sum_val(
                ca.rows_v()[i],
                ca.inner_dtype,
            ),
{
    let mut values: Vec<Option<Scalar>> = Vec::new();
    let mut i: usize = 0;
    let n = ca.rows.len();
    while i < n
        invariant
            i <= n,
            n == ca.spec_len(),
            ca.wf(),
            !ca.inner_dtype.binary_like(),
            values@.len() == i,
            forall|j: int|
                0 <= j < i ==> values.deep_view()[j] == row_sum_val(
                    ca.rows_v()[j],
                    ca.inner_dtype,
                ),
        decreases n - i,
    {
        let ghost prev = values.deep_view();
        match &ca.rows[i] {
            Some(row) => {
                proof {
                    assert(crate::column::row_wf(
                        ca.rows_v()[i as int],
                        ca.width as nat,
                        ca.inner_dtype,
                    ));
                }
                let v = sum_one_row(row, &ca.inner_dtype);
                values.push(v);
            },
            None => {
                values.push(None);
            },
        }
        proof {
            assert(values.deep_view() =~= prev.push(values.deep_view().last()));
        }
        i += 1;
    }
    values
}

/// Sums one non-null row under its dtype's machine arithmetic.
fn sum_one_row(row: &Vec<Option<Scalar>>, dt: &DataType) -> (r: Option<Scalar>)
    requires
        crate::column::elems_fit(row.deep_view(), *dt),
        !dt.binary_like(),
    ensures
        r.deep_view() == row_sum_val(Some(row.deep_view()), *dt),
{
    let ghost rv = row.deep_view();
    let mut acc_i: i64 = 0;
    let mut acc_u: u64 = 0;
    let mut count: usize = 0;
    let mut i: usize = 0;
    proof {
        assert(rv.take(0) =~= Seq::<Option<ScalarVal>>::empty());
    }
    while i < row.len()
        invariant
            i <= row@.len(),
            rv == row.deep_view(),
            count as int <= i,
            crate::column::elems_fit(rv, *dt),
            !dt.binary_like(),
            count == non_null_count(rv.take(i as int)),
            (dt.signed_integer() || *dt == DataType::Date) ==> acc_i == i64_specs::signed_crop(
                row_sum_int(rv.take(i as int)),
            ),
            dt.unsigned_integer() ==> acc_u == crop_u64(row_sum_uint(rv.take(i as int))),
            *dt == DataType::Boolean ==> acc_u as int == row_true_count(rv.take(i as int)),
            *dt == DataType::Boolean ==> acc_u as int <= i,
        decreases row.len() - i,
    {
        proof {
            assert(rv[i as int] == row@[i as int].deep_view());
            lemma_nnc_take_succ(rv, i as int);
            assert(rv.take(i + 1).drop_last() =~= rv.take(i as int));
            assert(rv.take(i + 1).last() == rv[i as int]);
        }
        let ghost s_int = row_sum_int(rv.take(i as int));
        let ghost s_uint = row_sum_uint(rv.take(i as int));
        match &row[i] {
            Some(Scalar::Int(v)) => {
                proof {
                    lemma_signed_crop_add(s_int, *v);
                }
                acc_i = acc_i.wrapping_add(*v);
                count += 1;
            },
            Some(Scalar::UInt(v)) => {
                proof {
                    lemma_row_sum_uint_nonneg(rv.take(i as int));
                    lemma_crop_u64_add(s_uint, *v);
                }
                acc_u = acc_u.wrapping_add(*v);
                count += 1;
            },
            Some(Scalar::Bool(b)) => {
                if *b {
                    acc_u = acc_u + 1;
                }
                count += 1;
            },
            Some(Scalar::Bytes(_)) => {
                proof {
                    assert(crate::column::opt_fits(rv[i as int], *dt));
                    assert(false);
                }
            },
            None => {},
        }
        i += 1;
    }
    proof {
        assert(rv.take(rv.len() as int) =~= rv);
    }
    if count == 0 {
        return None;
    }
    let dtc = *dt;
    if dtc == DataType::Boolean {
        proof {
            lemma_row_true_count_bounds(rv);
            assert(crop_u64(row_true_count(rv)) == acc_u) by {
                vstd::arithmetic::div_mod::lemma_small_mod(
                    row_true_count(rv) as nat,
                    0x1_0000_0000_0000_0000nat,
                );
            }
        }
        Some(Scalar::UInt(acc_u))
    } else if dtc.is_signed_integer() || dtc == DataType::Date {
        Some(Scalar::Int(acc_i))
    } else if dtc.is_unsigned_integer() {
        Some(Scalar::UInt(acc_u))
    } else {
        // float dtypes admit no representable non-null element
        proof {
            crate::column::lemma_nnc_zero(rv);
            let j = choose|j: int| 0 <= j < rv.len() && rv[j] is Some;
            assert(crate::column::opt_fits(rv[j], dtc));
            assert(false);
        }
        None
    }
}

/// Per-row count of the true elements of a boolean array column, null where
/// a row is null or holds no non-null element. The fast no-inner-null path
/// of a sum over booleans.
pub fn count_boolean_bits(ca: &ArrayColumn) -> (r: Column)
    requires
        ca.wf(),
        ca.inner_dtype == DataType::Boolean,
    ensures
        r.name == ca.name,
        r.dtype == DataType::UInt64,
        r.spec_len() == ca.spec_len(),
        forall|i: int|
            0 <= i < ca.spec_len() ==> r.values_v()[i] == row_sum_val(
                ca.rows_v()[i],
                DataType::Boolean,
            ),
{
    let values = sum_rows(ca);
    let name = clone_string(&ca.name);
    Column { name, dtype: DataType::UInt64, values }
}

/// The fast no-inner-null path of a sum over primitive numeric storage.
pub fn sum_array_numerical(ca: &ArrayColumn) -> (r: Column)
    requires
        ca.wf(),
        ca.inner_dtype.primitive_numeric(),
    ensures
        r.name == ca.name,
        r.dtype == ca.inner_dtype,
        r.spec_len() == ca.spec_len(),
        forall|i: int|
            0 <= i < ca.spec_len() ==> r.values_v()[i] == row_sum_val(
                ca.rows_v()[i],
                ca.inner_dtype,
            ),
{
    let values = sum_rows(ca);
    let name = clone_string(&ca.name);
    Column { name, dtype: ca.inner_dtype, values }
}

/// The generic null-aware summation: nulls are excluded from each row's sum,
/// and a row with nothing to sum yields null. Binary-like storage has no
/// summation.
pub fn sum_with_nulls(ca: &ArrayColumn, dt: &DataType) -> (r: Result<Column, Error>)
    requires
        ca.wf(),
        *dt == ca.inner_dtype,
    ensures
        r is Err <==> ca.inner_dtype.binary_like(),
        match r {
            Ok(out) => {
                &&& out.name == ca.name
                &&& out.dtype == (if ca.inner_dtype == DataType::Boolean {
                    DataType::UInt64
                } else {
                    ca.inner_dtype
                })
                &&& out.spec_len() == ca.spec_len()
                &&& forall|i: int|
                    0 <= i < ca.spec_len() ==> out.values_v()[i] == row_sum_val(
                        ca.rows_v()[i],
                        ca.inner_dtype,
                    )
            },
            Err(e) => e == Error::UnsupportedDtype,
        },
{
    if ca.inner_dtype.is_binary_like() {
        return Err(Error::UnsupportedDtype);
    }
    let values = sum_rows(ca);
    let name = clone_string(&ca.name);
    let dtype = if ca.inner_dtype == DataType::Boolean {
        DataType::UInt64
    } else {
        ca.inner_dtype
    };
    Ok(Column { name, dtype, values })
}

} // verus!
