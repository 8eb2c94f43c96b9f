use vstd::prelude::*;
use crate::error::Error;
use crate::scalar::{values, Scalar};

verus! {

/// An owned, ordered sequence of scalars: one row or one column of a matrix.
pub struct Vector<T> {
    data: Vec<T>,
}

impl<T: Scalar> View for Vector<T> {
    type V = Seq<int>;

    closed spec fn view(&self) -> Seq<int> {
        values(self.data@)
    }
}

impl<T: Scalar> Vector<T> {
    /// Wraps `data`; the vector stands for the integers of its elements, in order.
    pub fn new(data: Vec<T>) -> (v: Self)
        ensures
            v@ == values(data@),
    {
        Vector { data }
    }

    /// The number of elements.
    pub fn len(&self) -> (n: usize)
        ensures
            n == self@.len(),
    {
        self.data.len()
    }

    /// The elements, in order.
    pub fn as_slice(&self) -> (elements: &[T])
        ensures
            values(elements@) == self@,
    {
        self.data.as_slice()
    }

    /// The element at position `i`.
    pub fn get(&self, i: usize) -> (x: T)
        requires
            i < self@.len(),
        ensures
            x.value() == self@[i as int],
    {
        self.data[i]
    }
}

/// The sum of the pairwise products of two sequences of equal length.
pub open spec fn dot(a: Seq<int>, b: Seq<int>) -> int
    recommends
        a.len() == b.len(),
    decreases a.len(),
{
    if a.len() == 0 {
        0
    } else {
        dot(a.drop_last(), b.drop_last()) + a.last() * b.last()
    }
}

/// The dot product of the first `n` elements of each sequence.
pub open spec fn partial_dot(a: Seq<int>, b: Seq<int>, n: int) -> int {
    dot(a.take(n), b.take(n))
}

/// Whether step `k` of the left-to-right accumulation stays representable
/// in `T`: the product of the two elements, and the sum once it is added.
pub open spec fn step_fits<T: Scalar>(a: Seq<int>, b: Seq<int>, k: int) -> bool {
    T::fits(a[k] * b[k]) && T::fits(partial_dot(a, b, k + 1))
}

/// Whether the dot product of `a` and `b` can be accumulated from left to
/// right in `T` without leaving the type's range at any step.
pub open spec fn dot_fits<T: Scalar>(a: Seq<int>, b: Seq<int>) -> bool {
    forall|k: int| 0 <= k < a.len() ==> #[trigger] step_fits::<T>(a, b, k)
}

/// What a dot product yields: the sum of products for equal lengths, a
/// dimension mismatch otherwise.
pub open spec fn dot_outcome(a: Seq<int>, b: Seq<int>) -> Result<int, Error> {
    if a.len() == b.len() {
        Ok(dot(a, b))
    } else {
        Err(Error::DimensionMismatch)
    }
}

/// Extending both prefixes by one element adds that pair's product.
pub proof fn lemma_partial_dot_step(a: Seq<int>, b: Seq<int>, k: int)
    requires
        0 <= k < a.len(),
        k < b.len(),
    ensures
        partial_dot(a, b, k + 1) == partial_dot(a, b, k) + a[k] * b[k],
{
    assert(a.take(k + 1).drop_last() =~= a.take(k));
    assert(b.take(k + 1).drop_last() =~= b.take(k));
}

/// The dot product does not depend on the order of its two operands.
pub proof fn law_dot_commutes(a: Seq<int>, b: Seq<int>)
    ensures
        dot_outcome(a, b) == dot_outcome(b, a),
    decreases a.len(),
{
    if a.len() == b.len() && a.len() > 0 {
        law_dot_commutes(a.drop_last(), b.drop_last());
        assert(a.last() * b.last() == b.last() * a.last()) by (nonlinear_arith);
    }
}

/// Swapping the operands does not change whether the accumulation stays
/// representable.
pub proof fn law_dot_fits_commutes<T: Scalar>(a: Seq<int>, b: Seq<int>)
    requires
        a.len() == b.len(),
    ensures
        dot_fits::<T>(a, b) == dot_fits::<T>(b, a),
{
    assert forall|k: int| 0 <= k < a.len() implies step_fits::<T>(a, b, k) == step_fits::<T>(
        b,
        a,
        k,
    ) by {
        law_dot_commutes(a.take(k + 1), b.take(k + 1));
        assert(a[k] * b[k] == b[k] * a[k]) by (nonlinear_arith);
    }
}

/// The dot product of two vectors.
///
/// Fails with a dimension mismatch when the lengths differ. For equal
/// lengths the caller must rule out overflow: every product and every
/// running sum has to be representable in `T`.
pub fn dot_product<T: Scalar>(row: Vector<T>, col: Vector<T>) -> (result: Result<T, Error>)
    requires
        row@.len() == col@.len() ==> dot_fits::<T>(row@, col@),
    ensures
        match result {
            Ok(v) => dot_outcome(row@, col@) == Ok::<int, Error>(v.value()),
            Err(e) => dot_outcome(row@, col@) == Err::<int, Error>(e),
        },
{
    if row.len() != col.len() {
        return Err(Error::DimensionMismatch);
    }
    let n = row.len();
    let mut acc = T::zero();
    let mut i: usize = 0;
    while i < n
        invariant
            i <= n,
            n == row@.len(),
            n == col@.len(),
            dot_fits::<T>(row@, col@),
            acc.value() == partial_dot(row@, col@, i as int),
        decreases n - i,
    {
        proof {
            lemma_partial_dot_step(row@, col@, i as int);
            assert(step_fits::<T>(row@, col@, i as int));
        }
        acc = acc.plus(row.get(i).times(col.get(i)));
        i = i + 1;
    }
    proof {
        assert(row@.take(n as int) =~= row@);
        assert(col@.take(n as int) =~= col@);
    }
    Ok(acc)
}

/// Decides what `dot_product` asks of its caller: whether, for vectors of
/// equal length, every product and every running sum is representable in
/// `T`. Vectors of different lengths pass, since their dot product fails
/// before anything is computed.
pub fn check_dot_fits<T: Scalar>(row: &Vector<T>, col: &Vector<T>) -> (ok: bool)
    ensures
        ok == (row@.len() == col@.len() ==> dot_fits::<T>(row@, col@)),
{
    if row.len() != col.len() {
        return true;
    }
    let n = row.len();
    let mut acc = T::zero();
    let mut i: usize = 0;
    while i < n
        invariant
            i <= n,
            n == row@.len(),
            n == col@.len(),
            forall|k: int| 0 <= k < i ==> #[trigger] step_fits::<T>(row@, col@, k),
            acc.value() == partial_dot(row@, col@, i as int),
        decreases n - i,
    {
        proof {
            lemma_partial_dot_step(row@, col@, i as int);
        }
        match row.get(i).checked_times(col.get(i)) {
            None => {
                assert(!step_fits::<T>(row@, col@, i as int));
                return false;
            },
            Some(term) => match acc.checked_plus(term) {
                None => {
                    assert(!step_fits::<T>(row@, col@, i as int));
                    return false;
                },
                Some(sum) => {
                    acc = sum;
                },
            },
        }
        assert(step_fits::<T>(row@, col@, i as int));
        i = i + 1;
    }
    true
}

} // verus!
