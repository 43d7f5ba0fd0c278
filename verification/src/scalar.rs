use vstd::prelude::*;
use vstd::relations::total_ordering;

use crate::dtype::DataType;

verus! {

/// A single element value, in its physical representation: booleans, signed
/// and unsigned machine integers, and byte runs (strings are carried as their
/// UTF-8 bytes). A null element is an absent `Option<Scalar>`, never a
/// `Scalar`.
#[derive(Debug)]
pub enum Scalar {
    Bool(bool),
    Int(i64),
    UInt(u64),
    Bytes(Vec<u8>),
}

/// The mathematical value of a `Scalar`: byte runs become sequences, so two
/// values are equal exactly when they hold the same content.
#[verifier::ext_equal]
pub enum ScalarVal {
    Bool(bool),
    Int(i64),
    UInt(u64),
    Bytes(Seq<u8>),
}

impl View for Scalar {
    type V = ScalarVal;

    open spec fn view(&self) -> ScalarVal {
        match self {
            Scalar::Bool(b) => ScalarVal::Bool(*b),
            Scalar::Int(v) => ScalarVal::Int(*v),
            Scalar::UInt(v) => ScalarVal::UInt(*v),
            Scalar::Bytes(bs) => ScalarVal::Bytes(bs@),
        }
    }
}

impl DeepView for Scalar {
    type V = ScalarVal;

    open spec fn deep_view(&self) -> ScalarVal {
        self.view()
    }
}

/// Whether a value is a legal inhabitant of a column of the given dtype:
/// booleans in boolean columns, signed integers in signed-integer and date
/// columns, unsigned integers in unsigned columns, byte runs in string and
/// binary columns. Float columns have no representable non-null element.
pub open spec fn scalar_fits(s: ScalarVal, dt: DataType) -> bool {
    match s {
        ScalarVal::Bool(_) => dt == DataType::Boolean,
        ScalarVal::Int(_) => dt.signed_integer() || dt == DataType::Date,
        ScalarVal::UInt(_) => dt.unsigned_integer(),
        ScalarVal::Bytes(_) => dt.binary_like(),
    }
}

impl Scalar {
    pub fn clone_scalar(&self) -> (r: Scalar)
        ensures
            r@ == self@,
    {
        match self {
            Scalar::Bool(b) => Scalar::Bool(*b),
            Scalar::Int(v) => Scalar::Int(*v),
            Scalar::UInt(v) => Scalar::UInt(*v),
            Scalar::Bytes(bs) => {
                let mut out: Vec<u8> = Vec::new();
                let mut i: usize = 0;
                while i < bs.len()
                    invariant
                        i <= bs.len(),
                        out@ =~= bs@.take(i as int),
                    decreases bs.len() - i,
                {
                    out.push(bs[i]);
                    i += 1;
                }
                proof {
                    assert(out@ =~= bs@);
                }
                Scalar::Bytes(out)
            },
        }
    }
}

pub fn opt_scalar_clone(s: &Option<Scalar>) -> (r: Option<Scalar>)
    ensures
        r.deep_view() == s.deep_view(),
{
    match s {
        Some(v) => Some(v.clone_scalar()),
        None => None,
    }
}

/// Structural equality on values, decided at run time.
pub fn scalar_eq(a: &Scalar, b: &Scalar) -> (r: bool)
    ensures
        r == (a@ == b@),
{
    match (a, b) {
        (Scalar::Bool(x), Scalar::Bool(y)) => *x == *y,
        (Scalar::Int(x), Scalar::Int(y)) => *x == *y,
        (Scalar::UInt(x), Scalar::UInt(y)) => *x == *y,
        (Scalar::Bytes(x), Scalar::Bytes(y)) => {
            let r = bytes_eq(x, y);
            proof {
                if x@ == y@ {
                    assert(a@ =~= b@);
                }
            }
            r
        },
        _ => false,
    }
}

pub fn opt_scalar_eq(a: &Option<Scalar>, b: &Option<Scalar>) -> (r: bool)
    ensures
        r == (a.deep_view() == b.deep_view()),
{
    match (a, b) {
        (None, None) => true,
        (Some(x), Some(y)) => scalar_eq(x, y),
        _ => false,
    }
}

fn bytes_eq(a: &Vec<u8>, b: &Vec<u8>) -> (r: bool)
    ensures
        r == (a@ == b@),
{
    if a.len() != b.len() {
        proof {
            assert(a@ != b@);
        }
        return false;
    }
    let mut i: usize = 0;
    while i < a.len()
        invariant
            i <= a.len(),
            a@.len() == b@.len(),
            forall|j: int| 0 <= j < i ==> a@[j] == b@[j],
        decreases a.len() - i,
    {
        if a[i] != b[i] {
            proof {
                assert(a@ != b@);
            }
            return false;
        }
        i += 1;
    }
    proof {
        assert(a@ =~= b@);
    }
    true
}

/// Lexicographic order on byte runs: the shorter run precedes any extension
/// of itself; otherwise the first differing byte decides.
pub open spec fn lex_le(a: Seq<u8>, b: Seq<u8>) -> bool
    decreases a.len(),
{
    if a.len() == 0 {
        true
    } else if b.len() == 0 {
        false
    } else if a[0] < b[0] {
        true
    } else if a[0] > b[0] {
        false
    } else {
        lex_le(a.drop_first(), b.drop_first())
    }
}

/// Rank of each physical category; values of distinct categories are ordered
/// by rank so that the ordering is total over all values.
pub open spec fn scalar_rank(s: ScalarVal) -> int {
    match s {
        ScalarVal::Bool(_) => 0,
        ScalarVal::Int(_) => 1,
        ScalarVal::UInt(_) => 2,
        ScalarVal::Bytes(_) => 3,
    }
}

/// The total order kernels compare values by: within one category the
/// natural order (false before true, numeric order, lexicographic bytes);
/// across categories the category rank.
pub open spec fn scalar_le(a: ScalarVal, b: ScalarVal) -> bool {
    match (a, b) {
        (ScalarVal::Bool(x), ScalarVal::Bool(y)) => !x || y,
        (ScalarVal::Int(x), ScalarVal::Int(y)) => x <= y,
        (ScalarVal::UInt(x), ScalarVal::UInt(y)) => x <= y,
        (ScalarVal::Bytes(x), ScalarVal::Bytes(y)) => lex_le(x, y),
        _ => scalar_rank(a) < scalar_rank(b),
    }
}

/// The order as a relation value, for use with vstd's sorting vocabulary.
pub open spec fn scalar_leq() -> spec_fn(ScalarVal, ScalarVal) -> bool {
    |a: ScalarVal, b: ScalarVal| scalar_le(a, b)
}

pub fn scalar_le_exec(a: &Scalar, b: &Scalar) -> (r: bool)
    ensures
        r == scalar_le(a@, b@),
{
    match (a, b) {
        (Scalar::Bool(x), Scalar::Bool(y)) => !*x || *y,
        (Scalar::Int(x), Scalar::Int(y)) => *x <= *y,
        (Scalar::UInt(x), Scalar::UInt(y)) => *x <= *y,
        (Scalar::Bytes(x), Scalar::Bytes(y)) => bytes_le(x, y),
        (x, y) => scalar_rank_exec(x) < scalar_rank_exec(y),
    }
}

fn scalar_rank_exec(s: &Scalar) -> (r: u8)
    ensures
        r == scalar_rank(s@),
{
    match s {
        Scalar::Bool(_) => 0,
        Scalar::Int(_) => 1,
        Scalar::UInt(_) => 2,
        Scalar::Bytes(_) => 3,
    }
}

fn bytes_le(a: &Vec<u8>, b: &Vec<u8>) -> (r: bool)
    ensures
        r == lex_le(a@, b@),
{
    let mut i: usize = 0;
    proof {
        assert(a@.skip(0) =~= a@);
        assert(b@.skip(0) =~= b@);
    }
    loop
        invariant
            i <= a.len(),
            i <= b.len(),
            lex_le(a@, b@) == lex_le(a@.skip(i as int), b@.skip(i as int)),
        decreases a.len() - i,
    {
        if i == a.len() {
            proof {
                assert(a@.skip(i as int).len() == 0);
            }
            return true;
        }
        if i == b.len() {
            proof {
                assert(b@.skip(i as int).len() == 0);
                assert(a@.skip(i as int).len() > 0);
            }
            return false;
        }
        let x = a[i];
        let y = b[i];
        proof {
            assert(a@.skip(i as int)[0] == a@[i as int]);
            assert(b@.skip(i as int)[0] == b@[i as int]);
        }
        if x < y {
            return true;
        }
        if x > y {
            return false;
        }
        proof {
            assert(a@.skip(i as int).drop_first() =~= a@.skip(i as int + 1));
            assert(b@.skip(i as int).drop_first() =~= b@.skip(i as int + 1));
        }
        i += 1;
    }
}

pub proof fn lemma_lex_refl(a: Seq<u8>)
    ensures
        lex_le(a, a),
    decreases a.len(),
{
    if a.len() > 0 {
        lemma_lex_refl(a.drop_first());
    }
}

pub proof fn lemma_lex_total(a: Seq<u8>, b: Seq<u8>)
    ensures
        lex_le(a, b) || lex_le(b, a),
    decreases a.len(),
{
    if a.len() > 0 && b.len() > 0 && a[0] == b[0] {
        lemma_lex_total(a.drop_first(), b.drop_first());
    }
}

pub proof fn lemma_lex_antisym(a: Seq<u8>, b: Seq<u8>)
    requires
        lex_le(a, b),
        lex_le(b, a),
    ensures
        a =~= b,
    decreases a.len(),
{
    if a.len() > 0 {
        lemma_lex_antisym(a.drop_first(), b.drop_first());
        assert(a =~= seq![a[0]] + a.drop_first());
        assert(b =~= seq![b[0]] + b.drop_first());
    }
}

pub proof fn lemma_lex_trans(a: Seq<u8>, b: Seq<u8>, c: Seq<u8>)
    requires
        lex_le(a, b),
        lex_le(b, c),
    ensures
        lex_le(a, c),
    decreases a.len(),
{
    if a.len() > 0 && c.len() > 0 {
        if a[0] == c[0] {
            if a[0] == b[0] && b[0] == c[0] {
                lemma_lex_trans(a.drop_first(), b.drop_first(), c.drop_first());
            }
        }
    }
}

pub proof fn lemma_scalar_le_trans(a: ScalarVal, b: ScalarVal, c: ScalarVal)
    requires
        scalar_le(a, b),
        scalar_le(b, c),
    ensures
        scalar_le(a, c),
{
    if let (ScalarVal::Bytes(x), ScalarVal::Bytes(y), ScalarVal::Bytes(z)) = (a, b, c) {
        lemma_lex_trans(x, y, z);
    }
}

pub proof fn lemma_scalar_le_total(a: ScalarVal, b: ScalarVal)
    ensures
        scalar_le(a, b) || scalar_le(b, a),
{
    if let (ScalarVal::Bytes(x), ScalarVal::Bytes(y)) = (a, b) {
        lemma_lex_total(x, y);
    }
}

/// The comparison used by the kernels is a total order, so sorted runs of
/// values are unique up to equality.
pub proof fn lemma_scalar_total_ordering()
    ensures
        total_ordering(scalar_leq()),
{
    let leq = scalar_leq();
    assert forall|a: ScalarVal| #[trigger] leq(a, a) by {
        if let ScalarVal::Bytes(x) = a {
            lemma_lex_refl(x);
        }
    }
    assert forall|a: ScalarVal, b: ScalarVal| #[trigger] leq(a, b) && #[trigger] leq(b, a)
        implies a == b by {
        if let (ScalarVal::Bytes(x), ScalarVal::Bytes(y)) = (a, b) {
            lemma_lex_antisym(x, y);
            assert(a =~= b);
        }
    }
    assert forall|a: ScalarVal, b: ScalarVal, c: ScalarVal|
        #[trigger] leq(a, b) && #[trigger] leq(b, c) implies leq(a, c) by {
        if let (ScalarVal::Bytes(x), ScalarVal::Bytes(y), ScalarVal::Bytes(z)) = (a, b, c) {
            lemma_lex_trans(x, y, z);
        }
    }
    assert forall|a: ScalarVal, b: ScalarVal| #[trigger] leq(a, b) || #[trigger] leq(b, a) by {
        if let (ScalarVal::Bytes(x), ScalarVal::Bytes(y)) = (a, b) {
            lemma_lex_total(x, y);
        }
    }
}

} // verus!
