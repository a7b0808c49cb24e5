//! The product of two matrices, computed one output cell at a time: each
//! cell is a tagged dot-product request whose tagged answer is put back at
//! the position that the tag names.

use crate::error::MatrixError;
use crate::matrix::{lemma_cell_index, lemma_flat_index, lemma_row_bounds, Matrix, MatrixView};
use crate::vector::{
    dot_defined, dot_prefix, dot_product, dot_ready, exact, is_default, is_dot, lawful, Vector,
};
use std::ops::{Add, Mul};
use vstd::prelude::*;
use vstd::std_specs::ops::{AddSpec, MulSpec};

verus! {

/// The sum of the first `n` products `a[i][k] * b[k][j]`, folded from the
/// seed `z` with `k` ascending.
pub open spec fn cell_sum<T: Add<Output = T> + Mul<Output = T>>(
    z: T,
    a: MatrixView<T>,
    b: MatrixView<T>,
    i: int,
    j: int,
    n: nat,
) -> T
    decreases n,
{
    if n == 0 {
        z
    } else {
        cell_sum(z, a, b, i, j, (n - 1) as nat).add_spec(a.at(i, n - 1).mul_spec(b.at(n - 1, j)))
    }
}

/// Whether every multiplication and addition in `cell_sum(z, a, b, i, j, n)`
/// is within what the element type's operators accept.
pub open spec fn cell_defined<T: Add<Output = T> + Mul<Output = T>>(
    z: T,
    a: MatrixView<T>,
    b: MatrixView<T>,
    i: int,
    j: int,
    n: nat,
) -> bool
    decreases n,
{
    n == 0 || {
        &&& cell_defined(z, a, b, i, j, (n - 1) as nat)
        &&& a.at(i, n - 1).mul_req(b.at(n - 1, j))
        &&& cell_sum(z, a, b, i, j, (n - 1) as nat).add_req(
            a.at(i, n - 1).mul_spec(b.at(n - 1, j)),
        )
    }
}

/// Whether `v` is cell `(i, j)` of the product of `a` and `b`: the sum over
/// `k` of `a[i][k] * b[k][j]`, from a default seed.
pub open spec fn is_cell<T: Default + Add<Output = T> + Mul<Output = T>>(
    v: T,
    a: MatrixView<T>,
    b: MatrixView<T>,
    i: int,
    j: int,
) -> bool {
    exists|z: T| #[trigger] is_default(z) && v == cell_sum(z, a, b, i, j, a.col)
}

/// Whether `m` is the product of `a` and `b`: it has the rows of `a`, the
/// columns of `b`, and every cell is the sum that `is_cell` describes.
pub open spec fn is_product<T: Default + Add<Output = T> + Mul<Output = T>>(
    m: MatrixView<T>,
    a: MatrixView<T>,
    b: MatrixView<T>,
) -> bool {
    &&& m.row == a.row
    &&& m.col == b.col
    &&& m.wf()
    &&& forall|i: int, j: int|
        0 <= i < m.row && 0 <= j < m.col ==> is_cell(#[trigger] m.at(i, j), a, b, i, j)
}

/// What must hold of two matrices of fitting shapes before they are
/// multiplied: the product's element count fits the machine, `T` is lawful
/// and no step of any cell's sum, from the default value on, leaves what the
/// operators of `T` accept.
pub open spec fn product_ready<T: Default + Add<Output = T> + Mul<Output = T>>(
    a: MatrixView<T>,
    b: MatrixView<T>,
) -> bool {
    &&& a.row * b.col <= usize::MAX
    &&& lawful::<T>()
    &&& forall|z: T, i: int, j: int|
        is_default(z) && 0 <= i < a.row && 0 <= j < b.col ==> #[trigger] cell_defined(
            z,
            a,
            b,
            i,
            j,
            a.col,
        )
}

/// One unit of work: the operands of the output cell at flat index `idx`.
pub struct MsgInput<T> {
    pub idx: usize,
    pub row: Vector<T>,
    pub col: Vector<T>,
}

impl<T> MsgInput<T> {
    /// The request for cell `idx`, to be computed from `row` and `col`.
    pub fn new(idx: usize, row: Vector<T>, col: Vector<T>) -> (input: Self)
        ensures
            input.idx == idx,
            input.row == row,
            input.col == col,
    {
        MsgInput { idx, row, col }
    }
}

/// The answer to one unit of work: the value of the output cell at flat
/// index `idx`.
pub struct MsgOutput<T> {
    pub idx: usize,
    pub value: T,
}

/// The unit of work for cell `(i, j)` of the product of `a` and `b`: row `i`
/// of `a` and column `j` of `b`, tagged with the cell's flat index in the
/// product.
pub fn request<T: Copy>(a: &Matrix<T>, b: &Matrix<T>, i: usize, j: usize) -> (input: MsgInput<T>)
    requires
        a@.wf(),
        b@.wf(),
        i < a@.row,
        j < b@.col,
        a@.row * b@.col <= usize::MAX,
    ensures
        input.idx == i * b@.col + j,
        input.row@ == a@.row_at(i as int),
        input.col@ == b@.col_at(j as int),
        input.row@.len() == a@.col,
        input.col@.len() == b@.row,
{
    proof {
        lemma_cell_index(a@.row, b@.col, i as nat, j as nat);
    }
    let row = a.row(i);
    let col = b.column(j);
    MsgInput::new(i * b.cols() + j, row, col)
}

/// Whether `output` answers `input`: it carries the request's index and the
/// dot product of the request's operands.
pub open spec fn is_answer<T: Default + Add<Output = T> + Mul<Output = T>>(
    output: MsgOutput<T>,
    input: MsgInput<T>,
) -> bool {
    output.idx == input.idx && is_dot(output.value, input.row@, input.col@)
}

/// Computes one unit of work: the dot product of the request's operands,
/// tagged with the request's index.
pub fn answer<T>(input: MsgInput<T>) -> (r: Result<MsgOutput<T>, MatrixError>) where
    T: Copy + Default + Add<Output = T> + Mul<Output = T>,

    requires
        input.row@.len() == input.col@.len() ==> dot_ready(input.row@, input.col@),
    ensures
        input.row@.len() != input.col@.len() <==> r is Err,
        r is Err ==> r->Err_0 == MatrixError::ShapeMismatch,
        r is Ok ==> is_answer(r->Ok_0, input),
{
    let idx: usize = input.idx;
    match dot_product(input.row, input.col) {
        Ok(value) => Ok(MsgOutput { idx, value }),
        Err(e) => Err(e),
    }
}

/// What `base` becomes when each answer, first to last, overwrites the
/// position that its own index names.
pub open spec fn placed<T>(base: Seq<T>, outputs: Seq<MsgOutput<T>>) -> Seq<T>
    decreases outputs.len(),
{
    if outputs.len() == 0 {
        base
    } else {
        placed(base, outputs.drop_last()).update(outputs.last().idx as int, outputs.last().value)
    }
}

/// Whether some answer names a position at or beyond `len`.
pub open spec fn misplaced<T>(outputs: Seq<MsgOutput<T>>, len: nat) -> bool {
    exists|k: int| 0 <= k < outputs.len() && (#[trigger] outputs[k]).idx >= len
}

/// Whether some answer names position `p`.
pub open spec fn answered<T>(outputs: Seq<MsgOutput<T>>, p: int) -> bool {
    exists|k: int| 0 <= k < outputs.len() && (#[trigger] outputs[k]).idx == p
}

/// Whether `m` is what the answers `outputs` assemble to: a `row` by `col`
/// matrix that holds a default value wherever no answer was placed.
pub open spec fn is_assembly<T: Default>(
    m: MatrixView<T>,
    outputs: Seq<MsgOutput<T>>,
    row: nat,
    col: nat,
) -> bool {
    &&& m.row == row
    &&& m.col == col
    &&& m.wf()
    &&& exists|z: T| #[trigger]
        is_default(z) && m.data == placed(Seq::new(row * col, |n: int| z), outputs)
}

/// Puts answers into a `row` by `col` matrix, each at the position that its
/// own index names, whatever order they come in. Positions that no answer
/// names hold the default value; of two answers for one position the later
/// stays. An answer that names a position outside the matrix fails the whole
/// with [`MatrixError::WorkerCommunicationFailure`].
pub fn assemble<T: Copy + Default>(outputs: Vec<MsgOutput<T>>, row: usize, col: usize) -> (r:
    Result<Matrix<T>, MatrixError>)
    requires
        row * col <= usize::MAX,
    ensures
        r is Err <==> misplaced(outputs@, (row * col) as nat),
        r is Err ==> r->Err_0 == MatrixError::WorkerCommunicationFailure,
        r is Ok ==> is_assembly(r->Ok_0@, outputs@, row as nat, col as nat),
{
    let len: usize = row * col;
    let zero = T::default();
    assert(is_default(zero));
    let mut data: Vec<T> = Vec::with_capacity(len);
    let mut n: usize = 0;
    while n < len
        invariant
            n <= len,
            data@ == Seq::new(n as nat, |n: int| zero),
        decreases len - n,
    {
        data.push(zero);
        n = n + 1;
    }
    let ghost base = data@;
    let mut k: usize = 0;
    while k < outputs.len()
        invariant
            k <= outputs@.len(),
            len == row * col,
            base.len() == len,
            data@.len() == len,
            !misplaced(outputs@.take(k as int), len as nat),
            data@ == placed(base, outputs@.take(k as int)),
        decreases outputs@.len() - k,
    {
        let idx: usize = outputs[k].idx;
        let value: T = outputs[k].value;
        if idx >= len {
            assert(misplaced(outputs@, len as nat));
            return Err(MatrixError::WorkerCommunicationFailure);
        }
        data.set(idx, value);
        proof {
            let before = outputs@.take(k as int);
            let after = outputs@.take(k + 1);
            assert(after.drop_last() == before);
            assert(after.last() == outputs@[k as int]);
            assert forall|p: int| 0 <= p < after.len() implies (#[trigger] after[p]).idx < len by {
                if p < k {
                    assert(before[p] == after[p]);
                }
            }
        }
        k = k + 1;
    }
    assert(outputs@.take(k as int) == outputs@);
    Ok(Matrix::new(data, row, col))
}

/// Placing answers that all name positions inside `base` changes no length.
pub proof fn lemma_placed_len<T>(base: Seq<T>, outputs: Seq<MsgOutput<T>>)
    requires
        !misplaced(outputs, base.len()),
    ensures
        placed(base, outputs).len() == base.len(),
    decreases outputs.len(),
{
    if outputs.len() > 0 {
        let front = outputs.drop_last();
        assert forall|k: int| 0 <= k < front.len() implies (#[trigger] front[k]).idx
            < base.len() by {
            assert(front[k] == outputs[k]);
        }
        lemma_placed_len(base, front);
        assert(outputs[outputs.len() - 1].idx < base.len());
    }
}

/// What stands at position `p` after the answers were placed is the value of
/// an answer that names `p`, or, if there is none, what `base` had there.
/// Answers for other positions leave it alone.
pub proof fn lemma_placed_at<T>(base: Seq<T>, outputs: Seq<MsgOutput<T>>, p: int)
    requires
        !misplaced(outputs, base.len()),
        0 <= p < base.len(),
    ensures
        !answered(outputs, p) ==> placed(base, outputs)[p] == base[p],
        answered(outputs, p) ==> exists|k: int|
            0 <= k < outputs.len() && (#[trigger] outputs[k]).idx == p && placed(base, outputs)[p]
                == outputs[k].value,
    decreases outputs.len(),
{
    if outputs.len() > 0 {
        let front = outputs.drop_last();
        let last = outputs.len() - 1;
        assert forall|k: int| 0 <= k < front.len() implies (#[trigger] front[k]).idx
            < base.len() by {
            assert(front[k] == outputs[k]);
        }
        lemma_placed_at(base, front, p);
        lemma_placed_len(base, front);
        assert(outputs[last].idx < base.len());
        if outputs[last].idx != p {
            if answered(front, p) {
                let k = choose|k: int|
                    0 <= k < front.len() && (#[trigger] front[k]).idx == p && placed(base, front)[p]
                        == front[k].value;
                assert(front[k] == outputs[k]);
            }
            if answered(outputs, p) {
                let k = choose|k: int| 0 <= k < outputs.len() && (#[trigger] outputs[k]).idx == p;
                assert(front[k] == outputs[k]);
            }
        }
    }
}

/// Whether `output` answers the request for the cell of the product of `a`
/// and `b` that its index names.
pub open spec fn answers_cell<T: Default + Add<Output = T> + Mul<Output = T>>(
    output: MsgOutput<T>,
    a: MatrixView<T>,
    b: MatrixView<T>,
) -> bool {
    &&& output.idx < a.row * b.col
    &&& is_cell(
        output.value,
        a,
        b,
        output.idx as int / (b.col as int),
        output.idx as int % (b.col as int),
    )
}

/// The order of the answers does not matter: when every answer belongs to
/// the cell that its index names, and every cell has an answer, the answers
/// placed by index are the product, whatever order they came in and whatever
/// stood there before.
pub proof fn lemma_answers_assemble<T: Default + Add<Output = T> + Mul<Output = T>>(
    a: MatrixView<T>,
    b: MatrixView<T>,
    base: Seq<T>,
    outputs: Seq<MsgOutput<T>>,
)
    requires
        base.len() == a.row * b.col,
        forall|k: int| 0 <= k < outputs.len() ==> answers_cell(#[trigger] outputs[k], a, b),
        forall|p: int| 0 <= p < a.row * b.col ==> #[trigger] answered(outputs, p),
    ensures
        is_product(MatrixView { data: placed(base, outputs), row: a.row, col: b.col }, a, b),
{
    let m = MatrixView { data: placed(base, outputs), row: a.row, col: b.col };
    assert(!misplaced(outputs, base.len())) by {
        if misplaced(outputs, base.len()) {
            let k = choose|k: int|
                0 <= k < outputs.len() && (#[trigger] outputs[k]).idx >= base.len();
            assert(answers_cell(outputs[k], a, b));
        }
    }
    lemma_placed_len(base, outputs);
    assert forall|i: int, j: int| 0 <= i < m.row && 0 <= j < m.col implies is_cell(
        #[trigger] m.at(i, j),
        a,
        b,
        i,
        j,
    ) by {
        lemma_cell_index(m.row, m.col, i as nat, j as nat);
        let p = i * m.col + j;
        assert(answered(outputs, p));
        lemma_placed_at(base, outputs, p);
        let k = choose|k: int|
            0 <= k < outputs.len() && (#[trigger] outputs[k]).idx == p && placed(base, outputs)[p]
                == outputs[k].value;
        assert(answers_cell(outputs[k], a, b));
    }
}

/// Row `i` of `a` and column `j` of `b` hold, position by position, the
/// factors of cell `(i, j)`: the cell's sum is their dot product.
pub proof fn lemma_cell_is_dot<T: Add<Output = T> + Mul<Output = T>>(
    z: T,
    a: MatrixView<T>,
    b: MatrixView<T>,
    i: int,
    j: int,
    n: nat,
)
    requires
        a.wf(),
        b.wf(),
        a.col == b.row,
        0 <= i < a.row,
        0 <= j < b.col,
        n <= a.col,
    ensures
        cell_sum(z, a, b, i, j, n) == dot_prefix(z, a.row_at(i), b.col_at(j), n),
        cell_defined(z, a, b, i, j, n) == dot_defined(z, a.row_at(i), b.col_at(j), n),
    decreases n,
{
    lemma_row_bounds(a.row, a.col, i as nat);
    if n > 0 {
        lemma_cell_is_dot(z, a, b, i, j, (n - 1) as nat);
        lemma_cell_index(b.row, b.col, (n - 1) as nat, j as nat);
        assert(a.row_at(i)[n - 1] == a.at(i, n - 1));
        assert(b.col_at(j)[n - 1] == b.at(n - 1, j));
    }
}

/// The product of `a` and `b`.
///
/// Shapes that do not fit, `a`'s columns against `b`'s rows, are rejected
/// with [`MatrixError::ShapeMismatch`] before any cell is worked on.
/// Otherwise every output cell, in row-major order, becomes a request that
/// is answered and put back at its own index.
pub fn multiply<T>(a: &Matrix<T>, b: &Matrix<T>) -> (r: Result<Matrix<T>, MatrixError>) where
    T: Copy + Default + Add<Output = T> + Mul<Output = T>,

    requires
        a@.col == b@.row ==> a@.wf() && b@.wf() && product_ready(a@, b@),
    ensures
        a@.col != b@.row <==> r is Err,
        r is Err ==> r->Err_0 == MatrixError::ShapeMismatch,
        r is Ok ==> is_product(r->Ok_0@, a@, b@),
{
    if a.cols() != b.rows() {
        return Err(MatrixError::ShapeMismatch);
    }
    let rows: usize = a.rows();
    let cols: usize = b.cols();
    let mut outputs: Vec<MsgOutput<T>> = Vec::with_capacity(rows * cols);
    let mut i: usize = 0;
    while i < rows
        invariant
            a@.wf(),
            b@.wf(),
            a@.col == b@.row,
            product_ready(a@, b@),
            rows == a@.row,
            cols == b@.col,
            i <= rows,
            outputs@.len() == i * cols,
            forall|k: int|
                0 <= k < outputs@.len() ==> (#[trigger] outputs@[k]).idx == k && answers_cell(
                    outputs@[k],
                    a@,
                    b@,
                ),
        decreases rows - i,
    {
        let mut j: usize = 0;
        while j < cols
            invariant
                a@.wf(),
                b@.wf(),
                a@.col == b@.row,
                product_ready(a@, b@),
                rows == a@.row,
                cols == b@.col,
                i < rows,
                j <= cols,
                outputs@.len() == i * cols + j,
                forall|k: int|
                    0 <= k < outputs@.len() ==> (#[trigger] outputs@[k]).idx == k && answers_cell(
                        outputs@[k],
                        a@,
                        b@,
                    ),
            decreases cols - j,
        {
            let input = request(a, b, i, j);
            proof {
                lemma_cell_index(a@.row, b@.col, i as nat, j as nat);
                assert forall|z: T| #[trigger] is_default(z) implies dot_defined(
                    z,
                    input.row@,
                    input.col@,
                    input.row@.len(),
                ) by {
                    assert(cell_defined(z, a@, b@, i as int, j as int, a@.col));
                    lemma_cell_is_dot(z, a@, b@, i as int, j as int, a@.col);
                }
            }
            match answer(input) {
                Ok(output) => {
                    proof {
                        let z = choose|z: T| #[trigger]
                            is_default(z) && output.value == dot_prefix(
                                z,
                                a@.row_at(i as int),
                                b@.col_at(j as int),
                                a@.col,
                            );
                        lemma_cell_is_dot(z, a@, b@, i as int, j as int, a@.col);
                        assert(is_cell(output.value, a@, b@, i as int, j as int));
                    }
                    outputs.push(output);
                },
                Err(e) => {
                    return Err(e);
                },
            }
            j = j + 1;
        }
        proof {
            lemma_row_bounds(a@.row, b@.col, i as nat);
        }
        i = i + 1;
    }
    proof {
        assert forall|p: int| 0 <= p < a@.row * b@.col implies #[trigger] answered(
            outputs@,
            p,
        ) by {
            assert(outputs@[p].idx == p);
        }
        assert(!misplaced(outputs@, (rows * cols) as nat));
    }
    let r = assemble(outputs, rows, cols);
    proof {
        let z = choose|z: T| #[trigger]
            is_default(z) && r->Ok_0@.data == placed(
                Seq::new(a@.row * b@.col, |n: int| z),
                outputs@,
            );
        lemma_answers_assemble(a@, b@, Seq::new(a@.row * b@.col, |n: int| z), outputs@);
    }
    r
}

impl<T> Mul for Matrix<T> where T: Copy + Default + Add<Output = T> + Mul<Output = T> {
    type Output = Self;

    /// The product of `self` and `rhs`, for operands whose shapes fit.
    fn mul(self, rhs: Self) -> (m: Self)
        ensures
            is_product(m@, self@, rhs@),
    {
        multiply(&self, &rhs).expect("Matrix multiply error!")
    }
}

/// `*` on matrices is described by what `mul` ensures, not by a function of
/// the operands: the product is fixed by its view, which `is_product` pins,
/// and not as a value with its storage.
impl<T> vstd::std_specs::ops::MulSpecImpl for Matrix<T> where T: Copy + Default + Add<Output = T> + Mul<Output = T> {
    open spec fn obeys_mul_spec() -> bool {
        false
    }

    open spec fn mul_req(self, rhs: Self) -> bool {
        &&& self@.wf()
        &&& rhs@.wf()
        &&& self@.col == rhs@.row
        &&& product_ready(self@, rhs@)
    }

    open spec fn mul_spec(self, rhs: Self) -> Self {
        arbitrary()
    }
}

/// Two products of the same operands are the same matrix.
pub proof fn lemma_product_unique<T: Default + Add<Output = T> + Mul<Output = T>>(
    a: MatrixView<T>,
    b: MatrixView<T>,
    m1: MatrixView<T>,
    m2: MatrixView<T>,
)
    requires
        lawful::<T>(),
        is_product(m1, a, b),
        is_product(m2, a, b),
    ensures
        m1 == m2,
{
    assert forall|p: int| 0 <= p < m1.data.len() implies m1.data[p] == m2.data[p] by {
        lemma_flat_index(m1.row, m1.col, p);
        let i = p / (m1.col as int);
        let j = p % (m1.col as int);
        assert(is_cell(m1.at(i, j), a, b, i, j));
        assert(is_cell(m2.at(i, j), a, b, i, j));
    }
    assert(m1.data =~= m2.data);
}

/// Multiplying twice gives the same: two results that [`multiply`] may
/// return for the same operands both fail, with the same error, or both
/// succeed, with the same shape and the same elements.
pub proof fn lemma_multiply_twice<T: Default + Add<Output = T> + Mul<Output = T>>(
    a: MatrixView<T>,
    b: MatrixView<T>,
    r1: Result<Matrix<T>, MatrixError>,
    r2: Result<Matrix<T>, MatrixError>,
)
    requires
        lawful::<T>(),
        a.col != b.row <==> r1 is Err,
        r1 is Err ==> r1->Err_0 == MatrixError::ShapeMismatch,
        r1 is Ok ==> is_product(r1->Ok_0@, a, b),
        a.col != b.row <==> r2 is Err,
        r2 is Err ==> r2->Err_0 == MatrixError::ShapeMismatch,
        r2 is Ok ==> is_product(r2->Ok_0@, a, b),
    ensures
        r1 is Ok <==> r2 is Ok,
        r1 is Ok ==> r1->Ok_0@ == r2->Ok_0@,
        r1 is Err ==> r1->Err_0 == r2->Err_0,
{
    if r1 is Ok {
        lemma_product_unique(a, b, r1->Ok_0@, r2->Ok_0@);
    }
}

/// The sum of the first `n` products of the integers that `val` reads in
/// row `i` of `a` and column `j` of `b`: the cell as three nested loops over
/// integers compute it.
pub open spec fn int_cell_sum<T>(
    val: spec_fn(T) -> int,
    a: MatrixView<T>,
    b: MatrixView<T>,
    i: int,
    j: int,
    n: nat,
) -> int
    decreases n,
{
    if n == 0 {
        0
    } else {
        int_cell_sum(val, a, b, i, j, (n - 1) as nat) + val(a.at(i, n - 1)) * val(b.at(n - 1, j))
    }
}

/// Under an exact reading with the seed read as zero, a defined cell sum
/// reads as the integer sum of products.
pub proof fn lemma_cell_sum_exact<T: Add<Output = T> + Mul<Output = T>>(
    val: spec_fn(T) -> int,
    z: T,
    a: MatrixView<T>,
    b: MatrixView<T>,
    i: int,
    j: int,
    n: nat,
)
    requires
        exact(val),
        val(z) == 0,
        cell_defined(z, a, b, i, j, n),
    ensures
        val(cell_sum(z, a, b, i, j, n)) == int_cell_sum(val, a, b, i, j, n),
    decreases n,
{
    if n > 0 {
        lemma_cell_sum_exact(val, z, a, b, i, j, (n - 1) as nat);
    }
}

/// A product agrees with the three nested loops over integers: under an
/// exact reading that reads every default value as zero, each cell of a
/// product of operands that are ready reads as the integer sum over `k` of
/// `a[i][k] * b[k][j]`.
pub proof fn lemma_product_exact<T: Default + Add<Output = T> + Mul<Output = T>>(
    val: spec_fn(T) -> int,
    a: MatrixView<T>,
    b: MatrixView<T>,
    m: MatrixView<T>,
    i: int,
    j: int,
)
    requires
        exact(val),
        forall|z: T| #[trigger] is_default(z) ==> val(z) == 0,
        product_ready(a, b),
        is_product(m, a, b),
        0 <= i < m.row,
        0 <= j < m.col,
    ensures
        val(m.at(i, j)) == int_cell_sum(val, a, b, i, j, a.col),
{
    assert(is_cell(m.at(i, j), a, b, i, j));
    let z = choose|z: T| #[trigger] is_default(z) && m.at(i, j) == cell_sum(z, a, b, i, j, a.col);
    assert(cell_defined(z, a, b, i, j, a.col));
    lemma_cell_sum_exact(val, z, a, b, i, j, a.col);
}

} // verus!
