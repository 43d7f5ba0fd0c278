use vstd::prelude::*;

use crate::column::{ArrayColumn, Column};
use crate::dtype::DataType;
use crate::error::Error;
use crate::gather::clone_string;
use crate::scalar::{Scalar, ScalarVal};

verus! {

/// The byte runs of a row's non-null elements, in row order.
pub open spec fn non_null_bytes(row: Seq<Option<ScalarVal>>) -> Seq<Seq<u8>>
    decreases row.len(),
{
    if row.len() == 0 {
        Seq::empty()
    } else {
        non_null_bytes(row.drop_last()) + (match row.last() {
            Some(ScalarVal::Bytes(b)) => seq![b],
            _ => Seq::empty(),
        })
    }
}

/// The concatenation of the parts with the separator between neighbours.
pub open spec fn join_bytes(parts: Seq<Seq<u8>>, sep: Seq<u8>) -> Seq<u8>
    decreases parts.len(),
{
    if parts.len() == 0 {
        Seq::empty()
    } else if parts.len() == 1 {
        parts[0]
    } else {
        parts[0] + sep + join_bytes(parts.drop_first(), sep)
    }
}

proof fn lemma_join_push(parts: Seq<Seq<u8>>, x: Seq<u8>, sep: Seq<u8>)
    ensures
        join_bytes(parts.push(x), sep) == if parts.len() == 0 {
            x
        } else {
            join_bytes(parts, sep) + sep + x
        },
    decreases parts.len(),
{
    let p = parts.push(x);
    if parts.len() == 0 {
        assert(p.len() == 1);
        assert(p[0] == x);
    } else if parts.len() == 1 {
        assert(p.len() == 2);
        assert(p.drop_first() =~= seq![x]);
        assert(join_bytes(p.drop_first(), sep) == x);
        assert(join_bytes(parts, sep) == parts[0]);
        assert(p[0] == parts[0]);
    } else {
        assert(p.drop_first() =~= parts.drop_first().push(x));
        lemma_join_push(parts.drop_first(), x, sep);
        assert(p[0] == parts[0]);
        assert(join_bytes(p, sep) == parts[0] + sep + (join_bytes(parts.drop_first(), sep) + sep
            + x));
        assert(parts[0] + sep + (join_bytes(parts.drop_first(), sep) + sep + x) =~= (parts[0] + sep
            + join_bytes(parts.drop_first(), sep)) + sep + x);
    }
}

/// Appends the bytes of `b` to `acc`.
fn append_bytes(acc: &mut Vec<u8>, b: &Vec<u8>)
    ensures
        final(acc)@ == old(acc)@ + b@,
{
    let mut k: usize = 0;
    while k < b.len()
        invariant
            k <= b@.len(),
            acc@ =~= old(acc)@ + b@.take(k as int),
        decreases b.len() - k,
    {
        acc.push(b[k]);
        proof {
            assert(old(acc)@ + b@.take(k + 1) =~= (old(acc)@ + b@.take(k as int)).push(
                b@[k as int],
            ));
        }
        k += 1;
    }
    proof {
        assert(acc@ =~= old(acc)@ + b@);
    }
}

/// Joins one row's byte runs with the separator; skips null elements.
fn join_row(row: &Vec<Option<Scalar>>, sep: &Vec<u8>) -> (r: Vec<u8>)
    ensures
        r@ == join_bytes(non_null_bytes(row.deep_view()), sep@),
{
    let ghost rv = row.deep_view();
    let mut acc: Vec<u8> = Vec::new();
    let mut nparts: usize = 0;
    let mut i: usize = 0;
    proof {
        assert(rv.take(0) =~= Seq::<Option<ScalarVal>>::empty());
    }
    while i < row.len()
        invariant
            i <= row@.len(),
            rv == row.deep_view(),
            nparts <= i,
            nparts == non_null_bytes(rv.take(i as int)).len(),
            acc@ == join_bytes(non_null_bytes(rv.take(i as int)), sep@),
        decreases row.len() - i,
    {
        proof {
            assert(rv.take(i + 1).drop_last() =~= rv.take(i as int));
            assert(rv.take(i + 1).last() == rv[i as int]);
            assert(rv[i as int] == row@[i as int].deep_view());
        }
        let ghost parts = non_null_bytes(rv.take(i as int));
        match &row[i] {
            Some(Scalar::Bytes(b)) => {
                proof {
                    assert(non_null_bytes(rv.take(i + 1)) =~= parts.push(b@));
                    lemma_join_push(parts, b@, sep@);
                }
                if nparts > 0 {
                    append_bytes(&mut acc, sep);
                }
                append_bytes(&mut acc, b);
                nparts += 1;
                proof {
                    if parts.len() == 0 {
                        assert(acc@ =~= b@);
                    }
                }
            },
            _ => {
                proof {
                    assert(non_null_bytes(rv.take(i + 1)) =~= parts);
                }
            },
        }
        i += 1;
    }
    proof {
        assert(rv.take(rv.len() as int) =~= rv);
    }
    acc
}

/// Whether a row holds a null element.
pub open spec fn row_has_null_elem(row: Seq<Option<ScalarVal>>) -> bool {
    exists|j: int| 0 <= j < row.len() && (#[trigger] row[j]) is None
}

/// The value one join row takes: null where the row or its separator is
/// null, or where the row holds a null element and nulls are not ignored;
/// otherwise the elements (the non-null ones, when ignoring nulls) joined
/// with the separator.
pub open spec fn join_row_spec(
    row: Option<Seq<Option<ScalarVal>>>,
    sep: Option<ScalarVal>,
    ignore_nulls: bool,
) -> Option<ScalarVal> {
    match (row, sep) {
        (Some(r), Some(ScalarVal::Bytes(sb))) => if !ignore_nulls && row_has_null_elem(r) {
            None
        } else {
            Some(ScalarVal::Bytes(join_bytes(non_null_bytes(r), sb)))
        },
        _ => None,
    }
}

/// Joins each string row into one string, with a per-row (or broadcast
/// length-1) separator column. A null row or null separator joins to null; a
/// null element makes the row null unless nulls are ignored.
pub fn array_join(ca: &ArrayColumn, separator: &Column, ignore_nulls: bool) -> (r: Result<
    Column,
    Error,
>)
    requires
        ca.wf(),
        ca.inner_dtype == DataType::String,
        separator.wf(),
        separator.dtype == DataType::String,
    ensures
        r is Ok <==> (separator.spec_len() == 1 || separator.spec_len() == ca.spec_len()),
        match r {
            Ok(out) => {
                &&& out.name == ca.name
                &&& out.dtype == DataType::String
                &&& out.spec_len() == ca.spec_len()
                &&& forall|i: int|
                    0 <= i < ca.spec_len() ==> out.values_v()[i] == join_row_spec(
                        ca.rows_v()[i],
                        if separator.spec_len() == 1 {
                            separator.values_v()[0]
                        } else {
                            separator.values_v()[i]
                        },
                        ignore_nulls,
                    )
            },
            Err(e) => e == Error::LengthMismatch,
        },
{
    let n = ca.rows.len();
    let sep_len = separator.values.len();
    if !(sep_len == 1 || sep_len == n) {
        return Err(Error::LengthMismatch);
    }
    let ghost sv = separator.values_v();
    let mut values: Vec<Option<Scalar>> = Vec::new();
    let mut i: usize = 0;
    while i < n
        invariant
            i <= n,
            n == ca.spec_len(),
            ca.wf(),
            separator.wf(),
            ca.inner_dtype == DataType::String,
            separator.dtype == DataType::String,
            sv == separator.values_v(),
            sep_len == sv.len(),
            sep_len == 1 || sep_len == n,
            values@.len() == i,
            forall|j: int|
                0 <= j < i ==> values.deep_view()[j] == join_row_spec(
                    ca.rows_v()[j],
                    if sv.len() == 1 {
                        sv[0]
                    } else {
                        sv[j]
                    },
                    ignore_nulls,
                ),
        decreases n - i,
    {
        let ghost prev = values.deep_view();
        let sep_idx = if sep_len == 1 {
            0
        } else {
            i
        };
        proof {
            assert(sv[sep_idx as int] == separator.values@[sep_idx as int].deep_view());
        }
        match (&ca.rows[i], &separator.values[sep_idx]) {
            (Some(row), Some(Scalar::Bytes(sb))) => {
                proof {
                    assert(crate::column::row_wf(
                        ca.rows_v()[i as int],
                        ca.width as nat,
                        ca.inner_dtype,
                    ));
                }
                let mut has_null: bool = false;
                let mut k: usize = 0;
                let ghost rv = row.deep_view();
                while k < row.len()
                    invariant
                        k <= row@.len(),
                        rv == row.deep_view(),
                        has_null == exists|t: int| 0 <= t < k && (#[trigger] rv[t]) is None,
                    decreases row.len() - k,
                {
                    proof {
                        assert(rv[k as int] == row@[k as int].deep_view());
                    }
                    if row[k].is_none() {
                        has_null = true;
                    }
                    k += 1;
                }
                if !ignore_nulls && has_null {
                    values.push(None);
                } else {
                    let joined = join_row(row, sb);
                    values.push(Some(Scalar::Bytes(joined)));
                }
            },
            (_, Some(Scalar::Bytes(_))) => {
                values.push(None);
            },
            (_, None) => {
                values.push(None);
            },
            (_, Some(_)) => {
                proof {
                    assert(crate::column::opt_fits(sv[sep_idx as int], separator.dtype));
                    assert(false);
                }
                values.push(None);
            },
        }
        proof {
            assert(values.deep_view() =~= prev.push(values.deep_view().last()));
        }
        i += 1;
    }
    let name = clone_string(&ca.name);
    Ok(Column { name, dtype: DataType::String, values })
}

} // verus!
