use vstd::prelude::*;

use crate::dtype::DataType;
use crate::scalar::{scalar_fits, Scalar, ScalarVal};

verus! {

/// Whether a possibly-null element is legal in a column of the given dtype.
pub open spec fn opt_fits(s: Option<ScalarVal>, dt: DataType) -> bool {
    s matches Some(v) ==> scalar_fits(v, dt)
}

/// Every element of the run fits the dtype.
pub open spec fn elems_fit(r: Seq<Option<ScalarVal>>, dt: DataType) -> bool {
    forall|j: int| 0 <= j < r.len() ==> opt_fits(#[trigger] r[j], dt)
}

/// A non-null array row must hold exactly `width` elements, all fitting the
/// child dtype.
pub open spec fn row_wf(r: Option<Seq<Option<ScalarVal>>>, width: nat, dt: DataType) -> bool {
    r matches Some(row) ==> row.len() == width && elems_fit(row, dt)
}

/// A non-null list row must hold only elements of the child dtype.
pub open spec fn row_fits_opt(r: Option<Seq<Option<ScalarVal>>>, dt: DataType) -> bool {
    r matches Some(row) ==> elems_fit(row, dt)
}

/// Number of non-null elements in a row.
pub open spec fn non_null_count(r: Seq<Option<ScalarVal>>) -> nat
    decreases r.len(),
{
    if r.len() == 0 {
        0
    } else {
        non_null_count(r.drop_last()) + if r.last() is Some {
            1nat
        } else {
            0nat
        }
    }
}

pub proof fn lemma_nnc_take_succ(r: Seq<Option<ScalarVal>>, i: int)
    requires
        0 <= i < r.len(),
    ensures
        non_null_count(r.take(i + 1)) == non_null_count(r.take(i)) + if r[i] is Some {
            1nat
        } else {
            0nat
        },
{
    assert(r.take(i + 1).drop_last() =~= r.take(i));
    assert(r.take(i + 1).last() == r[i]);
}

pub proof fn lemma_nnc_le_len(r: Seq<Option<ScalarVal>>)
    ensures
        non_null_count(r) <= r.len(),
    decreases r.len(),
{
    if r.len() > 0 {
        lemma_nnc_le_len(r.drop_last());
    }
}

/// A row counts zero non-null elements exactly when every element is null.
pub proof fn lemma_nnc_zero(r: Seq<Option<ScalarVal>>)
    ensures
        (non_null_count(r) == 0) <==> (forall|j: int| 0 <= j < r.len() ==> r[j] is None),
    decreases r.len(),
{
    if r.len() > 0 {
        lemma_nnc_zero(r.drop_last());
        if non_null_count(r) == 0 {
            assert forall|j: int| 0 <= j < r.len() implies r[j] is None by {
                if j < r.len() - 1 {
                    assert(r.drop_last()[j] == r[j]);
                }
            }
        } else {
            if !(r.last() is Some) {
                let j = choose|j: int| 0 <= j < r.len() - 1 && r.drop_last()[j] is Some;
                assert(r[j] is Some);
            }
        }
    }
}

/// A scalar column: one possibly-null value per row.
pub struct Column {
    pub name: String,
    pub dtype: DataType,
    pub values: Vec<Option<Scalar>>,
}

impl Column {
    pub open spec fn values_v(self) -> Seq<Option<ScalarVal>> {
        self.values.deep_view()
    }

    pub open spec fn wf(self) -> bool {
        elems_fit(self.values_v(), self.dtype)
    }

    pub open spec fn spec_len(self) -> nat {
        self.values@.len()
    }

    pub fn len(&self) -> (r: usize)
        ensures
            r == self.spec_len(),
    {
        self.values.len()
    }
}

/// A fixed-width array column: each non-null row holds exactly `width`
/// elements of the child dtype; row validity and element validity are
/// independent.
pub struct ArrayColumn {
    pub name: String,
    pub inner_dtype: DataType,
    pub width: usize,
    pub rows: Vec<Option<Vec<Option<Scalar>>>>,
}

impl ArrayColumn {
    pub open spec fn rows_v(self) -> Seq<Option<Seq<Option<ScalarVal>>>> {
        self.rows.deep_view()
    }

    /// The shape invariant: every non-null row is exactly `width` wide and
    /// holds only elements of the child dtype.
    pub open spec fn wf(self) -> bool {
        forall|i: int|
            0 <= i < self.rows_v().len() ==> row_wf(
                #[trigger] self.rows_v()[i],
                self.width as nat,
                self.inner_dtype,
            )
    }

    pub open spec fn spec_len(self) -> nat {
        self.rows@.len()
    }

    pub fn len(&self) -> (r: usize)
        ensures
            r == self.spec_len(),
    {
        self.rows.len()
    }

    /// An all-null array column of the given shape.
    pub fn full_null(name: String, length: usize, inner_dtype: DataType, width: usize) -> (r:
        ArrayColumn)
        ensures
            r.name == name,
            r.inner_dtype == inner_dtype,
            r.width == width,
            r.spec_len() == length,
            forall|i: int| 0 <= i < length ==> r.rows_v()[i] is None,
            r.wf(),
    {
        let mut rows: Vec<Option<Vec<Option<Scalar>>>> = Vec::new();
        let mut i: usize = 0;
        while i < length
            invariant
                i <= length,
                rows@.len() == i,
                forall|j: int| 0 <= j < i ==> rows.deep_view()[j] is None,
            decreases length - i,
        {
            let ghost prev = rows.deep_view();
            rows.push(None);
            proof {
                assert(rows.deep_view() =~= prev.push(None));
            }
            i += 1;
        }
        ArrayColumn { name, inner_dtype, width, rows }
    }

    /// Borrows one row as a view, without copying it: the amortized per-row
    /// access the traversals build on.
    pub fn row_at(&self, i: usize) -> (r: &Option<Vec<Option<Scalar>>>)
        requires
            i < self.spec_len(),
        ensures
            r.deep_view() == self.rows_v()[i as int],
    {
        &self.rows[i]
    }
}

/// A variable-width list column: each non-null row is an independently sized
/// run of the child dtype.
pub struct ListColumn {
    pub name: String,
    pub inner_dtype: DataType,
    pub rows: Vec<Option<Vec<Option<Scalar>>>>,
}

impl ListColumn {
    pub open spec fn rows_v(self) -> Seq<Option<Seq<Option<ScalarVal>>>> {
        self.rows.deep_view()
    }

    pub open spec fn wf(self) -> bool {
        forall|i: int|
            0 <= i < self.rows_v().len() ==> row_fits_opt(
                #[trigger] self.rows_v()[i],
                self.inner_dtype,
            )
    }

    pub open spec fn spec_len(self) -> nat {
        self.rows@.len()
    }

    pub fn len(&self) -> (r: usize)
        ensures
            r == self.spec_len(),
    {
        self.rows.len()
    }
}

/// An index column: unsigned positions of the build-fixed native width.
pub struct IdxColumn {
    pub name: String,
    pub values: Vec<Option<u64>>,
}

impl IdxColumn {
    pub open spec fn spec_len(self) -> nat {
        self.values@.len()
    }

    pub fn len(&self) -> (r: usize)
        ensures
            r == self.spec_len(),
    {
        self.values.len()
    }
}

/// Within-row sort configuration; `multithreaded` is a hint only and
/// `maintain_order` cannot be observed on plain values, where equal means
/// identical.
#[derive(Clone, Copy, Debug, PartialEq, Eq, Structural)]
pub struct SortOptions {
    pub descending: bool,
    pub nulls_last: bool,
    pub multithreaded: bool,
    pub maintain_order: bool,
}

} // verus!
