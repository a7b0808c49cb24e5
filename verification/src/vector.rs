//! An owned sequence of elements and the dot product of two of them.

use crate::error::MatrixError;
use std::ops::{Add, Deref, Mul};
use vstd::prelude::*;
use vstd::std_specs::ops::{AddSpec, MulSpec};

verus! {

/// An ordered sequence of elements, such as one row or one column of a matrix.
#[derive(Debug)]
pub struct Vector<T> {
    data: Vec<T>,
}

impl<T> View for Vector<T> {
    type V = Seq<T>;

    closed spec fn view(&self) -> Seq<T> {
        self.data@
    }
}

impl<T> Vector<T> {
    /// Wraps `data`, keeping its elements and their order.
    pub fn new(data: Vec<T>) -> (v: Self)
        ensures
            v@ == data@,
    {
        Vector { data }
    }
}

impl<T> Deref for Vector<T> {
    type Target = Vec<T>;

    fn deref(&self) -> (items: &Vec<T>)
        ensures
            items@ == self@,
    {
        &self.data
    }
}

/// Whether `z` is a value that `T::default()` may return.
pub open spec fn is_default<T: Default>(z: T) -> bool {
    call_ensures(T::default, (), z)
}

/// The sum of the first `n` elementwise products of `row` and `col`, folded
/// from the seed `z` in ascending index order.
pub open spec fn dot_prefix<T: Add<Output = T> + Mul<Output = T>>(
    z: T,
    row: Seq<T>,
    col: Seq<T>,
    n: nat,
) -> T
    decreases n,
{
    if n == 0 {
        z
    } else {
        dot_prefix(z, row, col, (n - 1) as nat).add_spec(row[n - 1].mul_spec(col[n - 1]))
    }
}

/// Whether every multiplication and addition in `dot_prefix(z, row, col, n)`
/// is within what the element type's operators accept.
pub open spec fn dot_defined<T: Add<Output = T> + Mul<Output = T>>(
    z: T,
    row: Seq<T>,
    col: Seq<T>,
    n: nat,
) -> bool
    decreases n,
{
    n == 0 || {
        &&& dot_defined(z, row, col, (n - 1) as nat)
        &&& row[n - 1].mul_req(col[n - 1])
        &&& dot_prefix(z, row, col, (n - 1) as nat).add_req(row[n - 1].mul_spec(col[n - 1]))
    }
}

/// A dot product that is defined up to `n` terms is defined up to any `k <= n`.
pub proof fn lemma_dot_defined_prefix<T: Add<Output = T> + Mul<Output = T>>(
    z: T,
    row: Seq<T>,
    col: Seq<T>,
    n: nat,
    k: nat,
)
    requires
        k <= n,
        dot_defined(z, row, col, n),
    ensures
        dot_defined(z, row, col, k),
    decreases n,
{
    if k < n {
        lemma_dot_defined_prefix(z, row, col, (n - 1) as nat, k);
    }
}

/// Whether `T::default()` can return one value only.
pub open spec fn single_default<T: Default>() -> bool {
    forall|y: T, z: T| is_default(y) && is_default(z) ==> y == z
}

/// Whether `T` is an element type that sums of products can be stated of:
/// `+` and `*` on `T` compute what `add_spec` and `mul_spec` say, and
/// `T::default()`, the value that every sum starts from, is one value.
pub open spec fn lawful<T: Default + Add<Output = T> + Mul<Output = T>>() -> bool {
    T::obeys_add_spec() && T::obeys_mul_spec() && single_default::<T>()
}

/// What must hold of two equally long vectors before their dot product is
/// taken: `T` is lawful and no step of the sum, from the default value on,
/// leaves what the operators of `T` accept.
pub open spec fn dot_ready<T: Default + Add<Output = T> + Mul<Output = T>>(
    row: Seq<T>,
    col: Seq<T>,
) -> bool {
    &&& lawful::<T>()
    &&& forall|z: T| #[trigger] is_default(z) ==> dot_defined(z, row, col, row.len())
}

/// Whether `v` is the dot product of `row` and `col`: the fold of all their
/// elementwise products, in ascending index order, from a default seed.
pub open spec fn is_dot<T: Default + Add<Output = T> + Mul<Output = T>>(
    v: T,
    row: Seq<T>,
    col: Seq<T>,
) -> bool {
    exists|z: T| #[trigger] is_default(z) && v == dot_prefix(z, row, col, row.len())
}

/// Whether `val` reads the elements of `T` as integers in step with `T`'s
/// operators: wherever an addition or a multiplication is within what the
/// operator accepts, the result reads as the integer sum or product.
pub open spec fn exact<T: Add<Output = T> + Mul<Output = T>>(val: spec_fn(T) -> int) -> bool {
    &&& forall|x: T, y: T| #[trigger] x.add_req(y) ==> val(x.add_spec(y)) == val(x) + val(y)
    &&& forall|x: T, y: T| #[trigger] x.mul_req(y) ==> val(x.mul_spec(y)) == val(x) * val(y)
}

/// The sum of the first `n` products of the integers that `val` reads in
/// `row` and `col`.
pub open spec fn int_dot<T>(val: spec_fn(T) -> int, row: Seq<T>, col: Seq<T>, n: nat) -> int
    decreases n,
{
    if n == 0 {
        0
    } else {
        int_dot(val, row, col, (n - 1) as nat) + val(row[n - 1]) * val(col[n - 1])
    }
}

/// Under an exact reading with the seed read as zero, a defined dot product
/// reads as the integer sum of products.
pub proof fn lemma_dot_exact<T: Add<Output = T> + Mul<Output = T>>(
    val: spec_fn(T) -> int,
    z: T,
    row: Seq<T>,
    col: Seq<T>,
    n: nat,
)
    requires
        exact(val),
        val(z) == 0,
        dot_defined(z, row, col, n),
    ensures
        val(dot_prefix(z, row, col, n)) == int_dot(val, row, col, n),
    decreases n,
{
    if n > 0 {
        lemma_dot_exact(val, z, row, col, (n - 1) as nat);
    }
}

/// The dot product of `row` and `col`.
///
/// Vectors of different lengths are rejected with
/// [`MatrixError::ShapeMismatch`]. Two empty vectors give the default value.
pub fn dot_product<T>(row: Vector<T>, col: Vector<T>) -> (r: Result<T, MatrixError>) where
    T: Copy + Default + Add<Output = T> + Mul<Output = T>,

    requires
        row@.len() == col@.len() ==> dot_ready(row@, col@),
    ensures
        row@.len() != col@.len() <==> r is Err,
        r is Err ==> r->Err_0 == MatrixError::ShapeMismatch,
        r is Ok ==> is_dot(r->Ok_0, row@, col@),
{
    if row.len() != col.len() {
        return Err(MatrixError::ShapeMismatch);
    }
    let zero = T::default();
    assert(is_default(zero));
    let mut sum = zero;
    let n: usize = row.len();
    let mut i: usize = 0;
    while i < n
        invariant
            lawful::<T>(),
            n == row@.len(),
            n == col@.len(),
            i <= n,
            dot_defined(zero, row@, col@, n as nat),
            sum == dot_prefix(zero, row@, col@, i as nat),
        decreases n - i,
    {
        proof {
            lemma_dot_defined_prefix(zero, row@, col@, n as nat, (i + 1) as nat);
        }
        sum = sum + row[i] * col[i];
        i = i + 1;
    }
    Ok(sum)
}

} // verus!
