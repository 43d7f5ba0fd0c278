use vstd::prelude::*;

use crate::column::{ArrayColumn, Column, IdxColumn, ListColumn};
use crate::error::Error;
use crate::scalar::{opt_scalar_clone, Scalar, ScalarVal};

verus! {

/// Resolution of one signed index against a run of `len` elements:
/// non-negative indices address from the front, negative indices from the
/// back (`-1` is the last element); anything outside `[-len, len)` is
/// out of bounds.
pub open spec fn resolve_signed(v: i64, len: nat) -> Option<u64> {
    if 0 <= v && v < len {
        Some(v as u64)
    } else if v < 0 && v + len >= 0 {
        Some((v + len) as u64)
    } else {
        None
    }
}

/// Resolution of one unsigned index: in bounds or out.
pub open spec fn resolve_unsigned(v: u64, len: nat) -> Option<u64> {
    if v < len {
        Some(v)
    } else {
        None
    }
}

/// What index normalization turns one element into. A null index stays null
/// deliberately. A signed index is resolved (and so nullified when out of
/// bounds); an unsigned index is bounds-checked only in null-on-oob mode and
/// passes through unchanged in strict mode, where the gather step itself
/// rejects it.
pub open spec fn normalized(x: Option<ScalarVal>, len: nat, null_on_oob: bool) -> Option<u64> {
    match x {
        Some(ScalarVal::Int(v)) => resolve_signed(v, len),
        Some(ScalarVal::UInt(v)) => if null_on_oob {
            resolve_unsigned(v, len)
        } else {
            Some(v)
        },
        _ => None,
    }
}

/// Whether one index value lands inside a run of `len` elements.
pub open spec fn index_in_bounds(x: ScalarVal, len: nat) -> bool {
    match x {
        ScalarVal::Int(v) => resolve_signed(v, len) is Some,
        ScalarVal::UInt(v) => (v as nat) < len,
        _ => false,
    }
}

/// The position one index value finally addresses, if any.
pub open spec fn effective_index(x: ScalarVal, len: nat) -> Option<u64> {
    match x {
        ScalarVal::Int(v) => resolve_signed(v, len),
        ScalarVal::UInt(v) => resolve_unsigned(v, len),
        _ => None,
    }
}

/// Boundary behaviour of index resolution on a run of `w` elements: the
/// signed index `-1` addresses the last element, the unsigned index `w` (one
/// past the end) misses the run, and the signed index `-w - 1` misses it
/// from the other side.
pub proof fn lemma_index_boundaries(w: u64)
    requires
        0 < w,
    ensures
        resolve_signed(-1i64, w as nat) == Some((w - 1) as u64),
        resolve_unsigned(w, w as nat) is None,
        w <= i64::MAX ==> resolve_signed(w as i64, w as nat) is None,
        w <= i64::MAX - 1 ==> resolve_signed(((-(w as int) - 1) as i64), w as nat) is None,
{
}

/// Every non-null index of the run lands in bounds.
pub open spec fn ids_all_in_bounds(ids: Seq<Option<ScalarVal>>, len: nat) -> bool {
    forall|k: int|
        0 <= k < ids.len() ==> ((#[trigger] ids[k]) matches Some(x) ==> index_in_bounds(x, len))
}

/// Every index element is an integer (or null).
pub open spec fn ids_integer(ids: Seq<Option<ScalarVal>>) -> bool {
    forall|k: int|
        0 <= k < ids.len() ==> ((#[trigger] ids[k]) matches Some(x) ==> (x is Int || x is UInt))
}

/// The row a gather produces: position `k` holds the element the `k`-th
/// index addresses, and null where that index is null or misses the run.
pub open spec fn take_spec(row: Seq<Option<ScalarVal>>, ids: Seq<Option<ScalarVal>>) -> Seq<
    Option<ScalarVal>,
> {
    Seq::new(
        ids.len(),
        |k: int|
            match ids[k] {
                Some(x) => match effective_index(x, row.len()) {
                    Some(j) => row[j as int],
                    None => None,
                },
                None => None,
            },
    )
}

fn resolve_signed_exec(v: i64, len: usize) -> (r: Option<u64>)
    ensures
        r == resolve_signed(v, len as nat),
{
    if v >= 0 {
        if (v as u64) < (len as u64) {
            Some(v as u64)
        } else {
            None
        }
    } else {
        let vl: i128 = v as i128 + len as i128;
        if vl >= 0 {
            Some(vl as u64)
        } else {
            None
        }
    }
}

/// Normalizes a run of signed indices against a run length: negative values
/// resolve from the back, out-of-bounds values become null.
pub fn cast_signed_index_ca(idx: &Vec<Option<i64>>, len: usize) -> (out: Vec<Option<u64>>)
    ensures
        out@.len() == idx@.len(),
        forall|i: int|
            0 <= i < idx@.len() ==> out@[i] == (match idx@[i] {
                Some(v) => resolve_signed(v, len as nat),
                None => None,
            }),
{
    let mut out: Vec<Option<u64>> = Vec::new();
    let mut i: usize = 0;
    while i < idx.len()
        invariant
            i <= idx@.len(),
            out@.len() == i,
            forall|j: int|
                0 <= j < i ==> out@[j] == (match idx@[j] {
                    Some(v) => resolve_signed(v, len as nat),
                    None => None,
                }),
        decreases idx.len() - i,
    {
        match idx[i] {
            Some(v) => out.push(resolve_signed_exec(v, len)),
            None => out.push(None),
        }
        i += 1;
    }
    out
}

/// Bounds-checks a run of unsigned indices: out-of-bounds values become null.
pub fn cast_unsigned_index_ca(idx: &Vec<Option<u64>>, len: usize) -> (out: Vec<Option<u64>>)
    ensures
        out@.len() == idx@.len(),
        forall|i: int|
            0 <= i < idx@.len() ==> out@[i] == (match idx@[i] {
                Some(v) => resolve_unsigned(v, len as nat),
                None => None,
            }),
{
    let mut out: Vec<Option<u64>> = Vec::new();
    let mut i: usize = 0;
    while i < idx.len()
        invariant
            i <= idx@.len(),
            out@.len() == i,
            forall|j: int|
                0 <= j < i ==> out@[j] == (match idx@[j] {
                    Some(v) => resolve_unsigned(v, len as nat),
                    None => None,
                }),
        decreases idx.len() - i,
    {
        match idx[i] {
            Some(v) => {
                if v < (len as u64) {
                    out.push(Some(v));
                } else {
                    out.push(None);
                }
            },
            None => out.push(None),
        }
        i += 1;
    }
    out
}

/// Normalizes an integer index run against a run length. In strict mode
/// (`null_on_oob` false) any index that normalization had to nullify —
/// detected as an increase of the null count — is an out-of-bounds failure;
/// an index that was already null stays null deliberately.
pub fn cast_index(ids: &Vec<Option<Scalar>>, len: usize, null_on_oob: bool) -> (r: Result<
    IdxColumn,
    Error,
>)
    requires
        ids_integer(ids.deep_view()),
    ensures
        match r {
            Ok(out) => {
                &&& out.spec_len() == ids@.len()
                &&& forall|i: int|
                    0 <= i < ids@.len() ==> out.values@[i] == normalized(
                        ids.deep_view()[i],
                        len as nat,
                        null_on_oob,
                    )
                &&& (null_on_oob || forall|i: int|
                    0 <= i < ids@.len() ==> (ids.deep_view()[i] is Some
                        ==> out.values@[i] is Some))
            },
            Err(e) => {
                &&& e == Error::OutOfBounds
                &&& !null_on_oob
                &&& exists|i: int|
                    0 <= i < ids@.len() && ids.deep_view()[i] is Some && normalized(
                        ids.deep_view()[i],
                        len as nat,
                        null_on_oob,
                    ) is None
            },
        },
{
    let mut out: Vec<Option<u64>> = Vec::new();
    let mut nullified: bool = false;
    let ghost idv = ids.deep_view();
    let mut i: usize = 0;
    while i < ids.len()
        invariant
            i <= ids@.len(),
            idv == ids.deep_view(),
            ids_integer(idv),
            out@.len() == i,
            forall|j: int|
                0 <= j < i ==> out@[j] == normalized(idv[j], len as nat, null_on_oob),
            nullified == exists|j: int|
                0 <= j < i && idv[j] is Some && normalized(idv[j], len as nat, null_on_oob)
                    is None,
        decreases ids.len() - i,
    {
        let ghost old_nullified = nullified;
        match &ids[i] {
            Some(Scalar::Int(v)) => {
                let nv = resolve_signed_exec(*v, len);
                if nv.is_none() {
                    nullified = true;
                }
                out.push(nv);
            },
            Some(Scalar::UInt(v)) => {
                if null_on_oob {
                    if *v < (len as u64) {
                        out.push(Some(*v));
                    } else {
                        out.push(None);
                        nullified = true;
                    }
                } else {
                    out.push(Some(*v));
                }
            },
            None => {
                out.push(None);
            },
            _ => {
                proof {
                    assert(idv[i as int] matches Some(x) ==> (x is Int || x is UInt));
                    assert(false);
                }
                out.push(None);
            },
        }
        proof {
            if nullified && !old_nullified {
                assert(idv[i as int] is Some && normalized(idv[i as int], len as nat, null_on_oob)
                    is None);
            }
        }
        i += 1;
    }
    if nullified && !null_on_oob {
        Err(Error::OutOfBounds)
    } else {
        Ok(IdxColumn { name: String::new(), values: out })
    }
}

/// Gathers elements of one run at the given integer indices. In strict mode
/// the whole call fails on the first index outside the run; otherwise such
/// positions come back null.
pub fn take_row(row: &Vec<Option<Scalar>>, ids: &Vec<Option<Scalar>>, null_on_oob: bool) -> (r:
    Result<Vec<Option<Scalar>>, Error>)
    requires
        ids_integer(ids.deep_view()),
    ensures
        r is Ok <==> (null_on_oob || ids_all_in_bounds(ids.deep_view(), row@.len())),
        match r {
            Ok(out) => out.deep_view() == take_spec(row.deep_view(), ids.deep_view()),
            Err(e) => e == Error::OutOfBounds,
        },
{
    let ghost idv = ids.deep_view();
    let ghost rowv = row.deep_view();
    let positions = match cast_index(ids, row.len(), null_on_oob) {
        Ok(p) => p,
        Err(e) => {
            proof {
                let i = choose|i: int|
                    0 <= i < idv.len() && idv[i] is Some && normalized(
                        idv[i],
                        row@.len() as nat,
                        null_on_oob,
                    ) is None;
                assert(!index_in_bounds(idv[i].unwrap(), row@.len() as nat));
            }
            return Err(e);
        },
    };
    let mut out: Vec<Option<Scalar>> = Vec::new();
    let mut i: usize = 0;
    while i < positions.values.len()
        invariant
            i <= positions.spec_len(),
            idv == ids.deep_view(),
            rowv == row.deep_view(),
            rowv.len() == row@.len(),
            ids_integer(idv),
            positions.spec_len() == idv.len(),
            forall|j: int|
                0 <= j < idv.len() ==> positions.values@[j] == normalized(
                    idv[j],
                    row@.len() as nat,
                    null_on_oob,
                ),
            null_on_oob || forall|j: int|
                0 <= j < idv.len() ==> (idv[j] is Some ==> positions.values@[j] is Some),
            forall|j: int|
                0 <= j < i ==> ((#[trigger] positions.values@[j]) matches Some(p) ==> (p as nat)
                    < rowv.len()),
            out.deep_view() =~= take_spec(rowv, idv).take(i as int),
        decreases positions.values.len() - i,
    {
        let ghost prev = out.deep_view();
        match positions.values[i] {
            Some(j) => {
                if (j as u64) < (row.len() as u64) {
                    let v = opt_scalar_clone(&row[j as usize]);
                    out.push(v);
                } else {
                    // only reachable for a strict unsigned index that passed
                    // through normalization unchecked
                    proof {
                        assert(idv[i as int] is Some);
                        assert(!index_in_bounds(idv[i as int].unwrap(), row@.len() as nat));
                    }
                    return Err(Error::OutOfBounds);
                }
            },
            None => {
                out.push(None);
            },
        }
        proof {
            assert(take_spec(rowv, idv).take(i + 1) =~= take_spec(rowv, idv).take(i as int).push(
                take_spec(rowv, idv)[i as int],
            ));
        }
        i += 1;
    }
    proof {
        assert(out.deep_view() =~= take_spec(rowv, idv));
        if !null_on_oob {
            assert forall|k: int| 0 <= k < idv.len() implies ((#[trigger] idv[k]) matches Some(x)
                ==> index_in_bounds(x, row@.len() as nat)) by {
                if idv[k] is Some {
                    assert(positions.values@[k] is Some);
                    assert(positions.values@[k] matches Some(p) ==> (p as nat) < rowv.len());
                }
            }
        }
    }
    Ok(out)
}

/// Gathers from a scalar column at the given integer index column; the
/// result keeps the source column's name and dtype.
pub fn take_series(s: &Column, idx: &Column, null_on_oob: bool) -> (r: Result<Column, Error>)
    requires
        idx.wf(),
        idx.dtype.integer(),
    ensures
        r is Ok <==> (null_on_oob || ids_all_in_bounds(idx.values_v(), s.spec_len())),
        match r {
            Ok(out) => {
                &&& out.values.deep_view() == take_spec(s.values.deep_view(), idx.values_v())
                &&& out.name == s.name
                &&& out.dtype == s.dtype
            },
            Err(e) => e == Error::OutOfBounds,
        },
{
    proof {
        lemma_integer_column_ids(*idx);
    }
    let vals = take_row(&s.values, &idx.values, null_on_oob)?;
    let name = clone_string(&s.name);
    Ok(Column { name, dtype: s.dtype, values: vals })
}

/// A well-formed integer column holds only integer (or null) values.
pub proof fn lemma_integer_column_ids(c: Column)
    requires
        c.wf(),
        c.dtype.integer(),
    ensures
        ids_integer(c.values_v()),
{
    assert forall|k: int| 0 <= k < c.values_v().len() implies ((#[trigger] c.values_v()[k]) matches
        Some(x) ==> (x is Int || x is UInt)) by {
        assert(crate::column::opt_fits(c.values_v()[k], c.dtype));
    }
}

pub fn clone_string(s: &String) -> (r: String)
    ensures
        r == s,
{
    s.clone()
}

/// A gathered row holds only elements of the source row (or nulls), so it
/// fits the source dtype.
pub proof fn lemma_take_spec_fits(
    row: Seq<Option<ScalarVal>>,
    ids: Seq<Option<ScalarVal>>,
    dt: crate::dtype::DataType,
)
    requires
        crate::column::elems_fit(row, dt),
    ensures
        crate::column::elems_fit(take_spec(row, ids), dt),
{
    let out = take_spec(row, ids);
    assert forall|k: int| 0 <= k < out.len() implies crate::column::opt_fits(
        #[trigger] out[k],
        dt,
    ) by {
        if let Some(x) = ids[k] {
            if let Some(j) = effective_index(x, row.len()) {
                assert(crate::column::opt_fits(row[j as int], dt));
            }
        }
    }
}

/// The index column shapes a gather accepts: one index list per row, or one
/// flat index run shared by every row.
pub enum GatherIndices {
    List(ListColumn),
    Flat(Column),
}

impl GatherIndices {
    pub open spec fn wf(self) -> bool {
        match self {
            GatherIndices::List(l) => l.wf(),
            GatherIndices::Flat(c) => c.wf(),
        }
    }
}

/// The value one row of an element-wise gather takes: null where the source
/// row is null, otherwise the gathered run.
pub open spec fn get_spec(
    row: Option<Seq<Option<ScalarVal>>>,
    id: Option<ScalarVal>,
    width: nat,
) -> Option<ScalarVal> {
    match (row, id) {
        (Some(r), Some(x)) => match effective_index(x, width) {
            Some(j) => r[j as int],
            None => None,
        },
        _ => None,
    }
}

/// Selects, per row, the single element the index column addresses; the
/// index is broadcast when it has length 1. Negative indices resolve from
/// the back of the row. In strict mode any non-null index outside the row
/// width fails the whole call; otherwise it yields null.
pub fn array_get(ca: &ArrayColumn, index: &Column, null_on_oob: bool) -> (r: Result<Column, Error>)
    requires
        ca.wf(),
        index.wf(),
        index.dtype == crate::dtype::DataType::Int64,
    ensures
        index.spec_len() != 1 && index.spec_len() != ca.spec_len() ==> r == Err::<
            Column,
            Error,
        >(Error::LengthMismatch),
        index.spec_len() == 1 || index.spec_len() == ca.spec_len() ==> {
            &&& r is Ok <==> (null_on_oob || forall|k: int|
                0 <= k < index.spec_len() ==> ((#[trigger] index.values_v()[k]) matches Some(x)
                    ==> index_in_bounds(x, ca.width as nat)))
            &&& match r {
                Ok(out) => {
                    &&& out.name == ca.name
                    &&& out.dtype == ca.inner_dtype
                    &&& out.spec_len() == ca.spec_len()
                    &&& forall|i: int|
                        0 <= i < ca.spec_len() ==> out.values_v()[i] == get_spec(
                            ca.rows_v()[i],
                            if index.spec_len() == 1 {
                                index.values_v()[0]
                            } else {
                                index.values_v()[i]
                            },
                            ca.width as nat,
                        )
                },
                Err(e) => e == Error::OutOfBounds,
            }
        },
{
    let idx_len = index.values.len();
    let n = ca.rows.len();
    if !(idx_len == 1 || idx_len == n) {
        return Err(Error::LengthMismatch);
    }
    proof {
        lemma_integer_column_ids(*index);
    }
    let positions = match cast_index(&index.values, ca.width, null_on_oob) {
        Ok(p) => p,
        Err(e) => {
            return Err(e);
        },
    };
    let ghost idv = index.values_v();
    let mut out: Vec<Option<Scalar>> = Vec::new();
    let mut i: usize = 0;
    while i < n
        invariant
            i <= n,
            n == ca.spec_len(),
            ca.wf(),
            idv == index.values_v(),
            idx_len == idv.len(),
            idx_len == 1 || idx_len == n,
            positions.spec_len() == idv.len(),
            forall|j: int|
                0 <= j < idv.len() ==> positions.values@[j] == normalized(
                    idv[j],
                    ca.width as nat,
                    null_on_oob,
                ),
            forall|j: int|
                0 <= j < idv.len() ==> ((#[trigger] idv[j]) matches Some(x) ==> (x is Int)),
            out@.len() == i,
            forall|j: int|
                0 <= j < i ==> out.deep_view()[j] == get_spec(
                    ca.rows_v()[j],
                    if idx_len == 1 {
                        idv[0]
                    } else {
                        idv[j]
                    },
                    ca.width as nat,
                ),
        decreases n - i,
    {
        let pos = if idx_len == 1 {
            positions.values[0]
        } else {
            positions.values[i]
        };
        let ghost prev = out.deep_view();
        match (&ca.rows[i], pos) {
            (Some(row), Some(j)) => {
                proof {
                    assert(crate::column::row_wf(
                        ca.rows_v()[i as int],
                        ca.width as nat,
                        ca.inner_dtype,
                    ));
                }
                let v = opt_scalar_clone(&row[j as usize]);
                out.push(v);
            },
            _ => {
                out.push(None);
            },
        }
        proof {
            assert(out.deep_view() =~= prev.push(out.deep_view().last()));
        }
        i += 1;
    }
    proof {
        if !null_on_oob {
            assert forall|k: int| 0 <= k < idv.len() implies ((#[trigger] idv[k]) matches Some(x)
                ==> index_in_bounds(x, ca.width as nat)) by {
                if idv[k] is Some {
                    assert(positions.values@[k] is Some);
                }
            }
        }
        assert forall|i: int| 0 <= i < ca.spec_len() implies crate::column::opt_fits(
            #[trigger] out.deep_view()[i],
            ca.inner_dtype,
        ) by {
            assert(crate::column::row_wf(ca.rows_v()[i], ca.width as nat, ca.inner_dtype));
            if let Some(row) = ca.rows_v()[i] {
                let id = if idv.len() == 1 {
                    idv[0]
                } else {
                    idv[i]
                };
                if let Some(x) = id {
                    if let Some(j) = effective_index(x, ca.width as nat) {
                        assert(crate::column::opt_fits(row[j as int], ca.inner_dtype));
                    }
                }
            }
        }
    }
    let name = clone_string(&ca.name);
    Ok(Column { name, dtype: ca.inner_dtype, values: out })
}

/// Whether every paired index row of a ragged gather stays inside the row
/// width, wherever both sides are non-null.
pub open spec fn ragged_in_bounds(
    rows: Seq<Option<Seq<Option<ScalarVal>>>>,
    idrows: Seq<Option<Seq<Option<ScalarVal>>>>,
    n: int,
    width: nat,
) -> bool {
    forall|i: int|
        0 <= i < n ==> (match ((#[trigger] rows[i]), idrows[i]) {
            (Some(_), Some(ids)) => ids_all_in_bounds(ids, width),
            _ => true,
        })
}

/// Whether a shared flat index run stays inside the row width for every
/// non-null source row.
pub open spec fn shared_in_bounds(
    rows: Seq<Option<Seq<Option<ScalarVal>>>>,
    ids: Seq<Option<ScalarVal>>,
    width: nat,
) -> bool {
    forall|i: int|
        0 <= i < rows.len() ==> ((#[trigger] rows[i]) is Some ==> ids_all_in_bounds(ids, width))
}

/// Selects, per row, the elements addressed by an index column. A ragged
/// index (one list per row) is zipped with the source rows: a null on either
/// side gives a null row, and the traversal stops at the shorter operand. A
/// flat integer index is applied to every non-null row; a flat signed index
/// with no non-null value at all is rejected. A non-integer index dtype is
/// rejected. The result always carries the source column's name.
pub fn array_gather(ca: &ArrayColumn, idx: &GatherIndices, null_on_oob: bool) -> (r: Result<
    ListColumn,
    Error,
>)
    requires
        ca.wf(),
        idx.wf(),
    ensures
        match *idx {
            GatherIndices::List(l) => {
                if !l.inner_dtype.integer() {
                    r == Err::<ListColumn, Error>(Error::UnsupportedDtype)
                } else {
                    let n = if ca.spec_len() <= l.spec_len() {
                        ca.spec_len() as int
                    } else {
                        l.spec_len() as int
                    };
                    &&& r is Ok <==> (null_on_oob || ragged_in_bounds(
                        ca.rows_v(),
                        l.rows_v(),
                        n,
                        ca.width as nat,
                    ))
                    &&& match r {
                        Ok(out) => {
                            &&& out.name == ca.name
                            &&& out.inner_dtype == ca.inner_dtype
                            &&& out.spec_len() == n
                            &&& out.wf()
                            &&& forall|i: int|
                                0 <= i < n ==> out.rows_v()[i] == (match (
                                    ca.rows_v()[i],
                                    l.rows_v()[i],
                                ) {
                                    (Some(row), Some(ids)) => Some(take_spec(row, ids)),
                                    _ => None,
                                })
                        },
                        Err(e) => e == Error::OutOfBounds,
                    }
                }
            },
            GatherIndices::Flat(c) => {
                if !c.dtype.integer() {
                    r == Err::<ListColumn, Error>(Error::UnsupportedDtype)
                } else if c.dtype.signed_integer() && (forall|k: int|
                    0 <= k < c.spec_len() ==> c.values_v()[k] is None) {
                    r == Err::<ListColumn, Error>(Error::AllIndicesNull)
                } else {
                    &&& r is Ok <==> (null_on_oob || shared_in_bounds(
                        ca.rows_v(),
                        c.values_v(),
                        ca.width as nat,
                    ))
                    &&& match r {
                        Ok(out) => {
                            &&& out.name == ca.name
                            &&& out.inner_dtype == ca.inner_dtype
                            &&& out.spec_len() == ca.spec_len()
                            &&& out.wf()
                            &&& forall|i: int|
                                0 <= i < ca.spec_len() ==> out.rows_v()[i] == (
                                match ca.rows_v()[i] {
                                    Some(row) => Some(take_spec(row, c.values_v())),
                                    None => None,
                                })
                        },
                        Err(e) => e == Error::OutOfBounds,
                    }
                }
            },
        },
{
    match idx {
        GatherIndices::List(l) => {
            if !l.inner_dtype.is_integer() {
                return Err(Error::UnsupportedDtype);
            }
            let n = if ca.rows.len() <= l.rows.len() {
                ca.rows.len()
            } else {
                l.rows.len()
            };
            let mut rows: Vec<Option<Vec<Option<Scalar>>>> = Vec::new();
            let mut i: usize = 0;
            while i < n
                invariant
                    i <= n,
                    (*idx) == GatherIndices::List(*l),
                    n == if ca.spec_len() <= l.spec_len() {
                        ca.spec_len() as int
                    } else {
                        l.spec_len() as int
                    },
                    ca.wf(),
                    l.wf(),
                    l.inner_dtype.integer(),
                    n <= ca.spec_len(),
                    n <= l.spec_len(),
                    rows@.len() == i,
                    forall|j: int|
                        0 <= j < i ==> rows.deep_view()[j] == (match (
                            ca.rows_v()[j],
                            l.rows_v()[j],
                        ) {
                            (Some(row), Some(ids)) => Some(take_spec(row, ids)),
                            _ => None,
                        }),
                    forall|j: int|
                        0 <= j < i ==> crate::column::row_fits_opt(
                            rows.deep_view()[j],
                            ca.inner_dtype,
                        ),
                    null_on_oob || ragged_in_bounds(
                        ca.rows_v(),
                        l.rows_v(),
                        i as int,
                        ca.width as nat,
                    ),
                decreases n - i,
            {
                let ghost prev = rows.deep_view();
                match (&ca.rows[i], &l.rows[i]) {
                    (Some(row), Some(ids)) => {
                        proof {
                            assert(l.rows_v()[i as int] matches Some(iv) ==> crate::column::elems_fit(
                                iv,
                                l.inner_dtype,
                            ));
                            assert forall|k: int| 0 <= k < ids.deep_view().len() implies ((
                            #[trigger] ids.deep_view()[k]) matches Some(x) ==> (x is Int
                                || x is UInt)) by {
                                assert(crate::column::opt_fits(ids.deep_view()[k], l.inner_dtype));
                            }
                            assert(crate::column::row_wf(
                                ca.rows_v()[i as int],
                                ca.width as nat,
                                ca.inner_dtype,
                            ));
                        }
                        match take_row(row, ids, null_on_oob) {
                            Ok(taken) => {
                                proof {
                                    lemma_take_spec_fits(
                                        row.deep_view(),
                                        ids.deep_view(),
                                        ca.inner_dtype,
                                    );
                                }
                                rows.push(Some(taken));
                            },
                            Err(e) => {
                                proof {
                                    assert(ca.rows_v()[i as int] == Some(row.deep_view()));
                                    assert(l.rows_v()[i as int] == Some(ids.deep_view()));
                                    assert(row.deep_view().len() == ca.width as nat);
                                    assert(ids.deep_view().len() == ids@.len());
                                    assert(row.deep_view().len() == row@.len());
                                    assert(!ids_all_in_bounds(ids.deep_view(), ca.width as nat));
                                    assert(!ragged_in_bounds(
                                        ca.rows_v(),
                                        l.rows_v(),
                                        n as int,
                                        ca.width as nat,
                                    ));
                                }
                                return Err(e);
                            },
                        }
                    },
                    _ => {
                        rows.push(None);
                    },
                }
                proof {
                    assert(rows.deep_view() =~= prev.push(rows.deep_view().last()));
                }
                i += 1;
            }
            let name = clone_string(&ca.name);
            Ok(ListColumn { name, inner_dtype: ca.inner_dtype, rows })
        },
        GatherIndices::Flat(c) => {
            if !c.dtype.is_integer() {
                return Err(Error::UnsupportedDtype);
            }
            if c.dtype.is_signed_integer() {
                let mut any_valid: bool = false;
                let mut k: usize = 0;
                while k < c.values.len()
                    invariant
                        k <= c.spec_len(),
                        any_valid == exists|j: int| 0 <= j < k && c.values_v()[j] is Some,
                    decreases c.values.len() - k,
                {
                    proof {
                        assert(c.values_v()[k as int] == c.values@[k as int].deep_view());
                    }
                    if c.values[k].is_some() {
                        any_valid = true;
                    }
                    k += 1;
                }
                if !any_valid {
                    return Err(Error::AllIndicesNull);
                }
            }
            proof {
                lemma_integer_column_ids(*c);
            }
            let mut rows: Vec<Option<Vec<Option<Scalar>>>> = Vec::new();
            let mut i: usize = 0;
            let n = ca.rows.len();
            while i < n
                invariant
                    i <= n,
                    (*idx) == GatherIndices::Flat(*c),
                    n == ca.spec_len(),
                    ca.wf(),
                    c.wf(),
                    c.dtype.integer(),
                    ids_integer(c.values_v()),
                    rows@.len() == i,
                    forall|j: int|
                        0 <= j < i ==> rows.deep_view()[j] == (match ca.rows_v()[j] {
                            Some(row) => Some(take_spec(row, c.values_v())),
                            None => None,
                        }),
                    forall|j: int|
                        0 <= j < i ==> crate::column::row_fits_opt(
                            rows.deep_view()[j],
                            ca.inner_dtype,
                        ),
                    null_on_oob || forall|j: int|
                        0 <= j < i ==> ((#[trigger] ca.rows_v()[j]) is Some ==> ids_all_in_bounds(
                            c.values_v(),
                            ca.width as nat,
                        )),
                decreases n - i,
            {
                let ghost prev = rows.deep_view();
                match &ca.rows[i] {
                    Some(row) => {
                        proof {
                            assert(crate::column::row_wf(
                                ca.rows_v()[i as int],
                                ca.width as nat,
                                ca.inner_dtype,
                            ));
                        }
                        match take_row(row, &c.values, null_on_oob) {
                            Ok(taken) => {
                                proof {
                                    lemma_take_spec_fits(
                                        row.deep_view(),
                                        c.values_v(),
                                        ca.inner_dtype,
                                    );
                                }
                                rows.push(Some(taken));
                            },
                            Err(e) => {
                                proof {
                                    assert(ca.rows_v()[i as int] == Some(row.deep_view()));
                                    assert(row.deep_view().len() == ca.width as nat);
                                    assert(!shared_in_bounds(
                                        ca.rows_v(),
                                        c.values_v(),
                                        ca.width as nat,
                                    ));
                                }
                                return Err(e);
                            },
                        }
                    },
                    None => {
                        rows.push(None);
                    },
                }
                proof {
                    assert(rows.deep_view() =~= prev.push(rows.deep_view().last()));
                }
                i += 1;
            }
            let name = clone_string(&ca.name);
            Ok(ListColumn { name, inner_dtype: ca.inner_dtype, rows })
        },
    }
}

} // verus!
