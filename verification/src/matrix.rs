//! Row-major dense matrices: their shape, their rows and columns, and their
//! text.

use crate::text::{decimal, join, joined, numeral, texts};
use crate::vector::Vector;
use std::fmt::Display;
use vstd::prelude::*;
use vstd::string::{to_string_from_display_ensures, StringExecFns};

verus! {

/// A dense matrix that stores its `row * col` elements row by row.
pub struct Matrix<T> {
    data: Vec<T>,
    row: usize,
    col: usize,
}

/// The mathematical content of a [`Matrix`].
pub struct MatrixView<T> {
    pub data: Seq<T>,
    pub row: nat,
    pub col: nat,
}

impl<T> MatrixView<T> {
    /// The elements fill the shape exactly.
    pub open spec fn wf(self) -> bool {
        self.data.len() == self.row * self.col
    }

    /// The element in row `i` and column `j`.
    pub open spec fn at(self, i: int, j: int) -> T {
        self.data[i * self.col + j]
    }

    /// Row `i`: the `col` consecutive elements that start at `i * col`.
    pub open spec fn row_at(self, i: int) -> Seq<T> {
        self.data.subrange(i * self.col, (i + 1) * self.col)
    }

    /// Column `j`: the elements at `j`, `j + col`, `j + 2 * col`, and so on,
    /// one for each row.
    pub open spec fn col_at(self, j: int) -> Seq<T> {
        Seq::new(self.row, |k: int| self.data[k * self.col + j])
    }
}

impl<T> View for Matrix<T> {
    type V = MatrixView<T>;

    closed spec fn view(&self) -> MatrixView<T> {
        MatrixView { data: self.data@, row: self.row as nat, col: self.col as nat }
    }
}

/// Row `i` of a `row` by `col` shape lies inside its `row * col` elements.
pub proof fn lemma_row_bounds(row: nat, col: nat, i: nat)
    requires
        i < row,
    ensures
        0 <= i * col,
        (i + 1) * col == i * col + col,
        i * col + col <= row * col,
{
    assert(0 <= i * col) by (nonlinear_arith);
    assert((i + 1) * col == i * col + col) by (nonlinear_arith);
    assert((i + 1) * col <= row * col) by (nonlinear_arith)
        requires
            i < row,
    ;
}

/// Row `i` and column `j` of a `row` by `col` shape meet at the flat index
/// `i * col + j`, which names no other cell.
pub proof fn lemma_cell_index(row: nat, col: nat, i: nat, j: nat)
    requires
        i < row,
        j < col,
    ensures
        0 <= i * col,
        i * col + j < row * col,
        ((i * col + j) as int) / (col as int) == i,
        ((i * col + j) as int) % (col as int) == j,
{
    lemma_row_bounds(row, col, i);
    vstd::arithmetic::div_mod::lemma_fundamental_div_mod_converse(
        (i * col + j) as int,
        col as int,
        i as int,
        j as int,
    );
}

/// A flat index inside a `row` by `col` shape names the cell in row
/// `p / col` and column `p % col`.
pub proof fn lemma_flat_index(row: nat, col: nat, p: int)
    requires
        0 <= p < row * col,
    ensures
        col > 0,
        0 <= p / (col as int) < row,
        0 <= p % (col as int) < col,
        (p / (col as int)) * col + p % (col as int) == p,
{
    let c = col as int;
    assert(c > 0) by (nonlinear_arith)
        requires
            0 <= p < row * c,
            0 <= c,
    ;
    vstd::arithmetic::div_mod::lemma_fundamental_div_mod(p, c);
    vstd::arithmetic::div_mod::lemma_mod_bound(p, c);
    assert(0 <= p / c < row) by (nonlinear_arith)
        requires
            0 <= p < row * c,
            p == c * (p / c) + p % c,
            0 <= p % c < c,
    ;
    assert((p / c) * c + p % c == p) by (nonlinear_arith)
        requires
            p == c * (p / c) + p % c,
    ;
}

impl<T> Matrix<T> {
    /// A matrix of `row` rows and `col` columns over `data`, which lists the
    /// elements row by row. The three are kept as they are given: that the
    /// elements fill the shape is for the caller to see to, and
    /// [`Matrix::well_formed`] tells whether they do.
    pub fn new(data: Vec<T>, row: usize, col: usize) -> (m: Self)
        ensures
            m@ == (MatrixView { data: data@, row: row as nat, col: col as nat }),
    {
        Matrix { data, row, col }
    }

    /// Whether the elements fill the shape exactly.
    pub fn well_formed(&self) -> (ok: bool)
        ensures
            ok == self@.wf(),
    {
        let len: usize = self.data.len();
        match self.row.checked_mul(self.col) {
            Some(n) => len == n,
            None => false,
        }
    }

    /// The number of rows.
    pub fn rows(&self) -> (n: usize)
        ensures
            n == self@.row,
    {
        self.row
    }

    /// The number of columns.
    pub fn cols(&self) -> (n: usize)
        ensures
            n == self@.col,
    {
        self.col
    }
}

impl<T: Copy> Matrix<T> {
    /// A copy of row `i`.
    pub fn row(&self, i: usize) -> (v: Vector<T>)
        requires
            self@.wf(),
            i < self@.row,
        ensures
            v@ == self@.row_at(i as int),
            v@.len() == self@.col,
    {
        proof {
            lemma_row_bounds(self@.row, self@.col, i as nat);
            assert(self.data.len() == self.row * self.col);
        }
        let start: usize = i * self.col;
        let mut items: Vec<T> = Vec::with_capacity(self.col);
        let mut k: usize = 0;
        while k < self.col
            invariant
                self@.wf(),
                k <= self.col,
                start == i * self.col,
                start + self.col <= self.data.len(),
                items@ == self.data@.subrange(start as int, start + k),
            decreases self.col - k,
        {
            items.push(self.data[start + k]);
            k = k + 1;
        }
        Vector::new(items)
    }

    /// A copy of column `j`.
    pub fn column(&self, j: usize) -> (v: Vector<T>)
        requires
            self@.wf(),
            j < self@.col,
        ensures
            v@ == self@.col_at(j as int),
            v@.len() == self@.row,
    {
        let mut items: Vec<T> = Vec::with_capacity(self.row);
        let mut k: usize = 0;
        while k < self.row
            invariant
                self@.wf(),
                j < self.col,
                k <= self.row,
                self.data.len() == self.row * self.col,
                items@ == Seq::new(k as nat, |n: int| self.data@[n * self.col + j]),
            decreases self.row - k,
        {
            proof {
                lemma_cell_index(self@.row, self@.col, k as nat, j as nat);
            }
            items.push(self.data[k * self.col + j]);
            k = k + 1;
        }
        Vector::new(items)
    }
}

/// Whether `s` is a text that `x` may show itself as.
pub open spec fn shows<T: Display>(x: T, s: Seq<char>) -> bool {
    exists|t: String| t@ == s && #[trigger] to_string_from_display_ensures::<T>(&x, t)
}

/// Whether `cells` holds, element by element, a text that the element of
/// `data` may show itself as.
pub open spec fn show_each<T: Display>(data: Seq<T>, cells: Seq<Seq<char>>) -> bool {
    &&& cells.len() == data.len()
    &&& forall|k: int| 0 <= k < cells.len() ==> shows(data[k], #[trigger] cells[k])
}

/// The text of a `row` by `col` matrix whose cells, row by row, read
/// `cells`: the cells of a row with one space between them, the rows with a
/// comma and a space between them, and braces around the whole.
pub open spec fn matrix_text(cells: Seq<Seq<char>>, row: nat, col: nat) -> Seq<char> {
    seq!['{'] + joined(
        Seq::new(row, |i: int| joined(cells.subrange(i * col, (i + 1) * col), seq![' '])),
        seq![',', ' '],
    ) + seq!['}']
}

/// Lays out the texts of a matrix's cells as the text of the matrix.
pub fn layout(cells: &Vec<String>, row: usize, col: usize) -> (text: String)
    requires
        cells@.len() == row * col,
    ensures
        text@ == matrix_text(texts(cells@), row as nat, col as nat),
{
    let ghost all = texts(cells@);
    let ghost lines = Seq::new(
        row as nat,
        |i: int| joined(all.subrange(i * col, (i + 1) * col), seq![' ']),
    );
    let mut rows: Vec<String> = Vec::new();
    let mut i: usize = 0;
    while i < row
        invariant
            cells@.len() == row * col,
            all == texts(cells@),
            i <= row,
            rows@.len() == i,
            forall|k: int| 0 <= k < i ==> (#[trigger] rows@[k])@ == lines[k],
            lines == Seq::new(
                row as nat,
                |i: int| joined(all.subrange(i * col, (i + 1) * col), seq![' ']),
            ),
        decreases row - i,
    {
        proof {
            lemma_row_bounds(row as nat, col as nat, i as nat);
            assert(cells.len() == row * col);
            reveal_strlit(" ");
            assert(" "@ =~= seq![' ']);
        }
        let line = join(cells, i * col, i * col + col, " ");
        rows.push(line);
        i = i + 1;
    }
    let mut text = String::from_str("{");
    let body = join(&rows, 0, row, ", ");
    text.append(body.as_str());
    text.append("}");
    proof {
        reveal_strlit("{");
        reveal_strlit(", ");
        reveal_strlit("}");
        assert(", "@ =~= seq![',', ' ']);
        assert(texts(rows@).subrange(0, row as int) =~= lines);
        assert(text@ =~= matrix_text(all, row as nat, col as nat));
    }
    text
}

impl<T: Display> Matrix<T> {
    /// The matrix as text: `{1 2, 3 4}` for the rows `1 2` and `3 4`.
    pub fn to_string(&self) -> (text: String)
        requires
            self@.wf(),
        ensures
            exists|cells: Seq<Seq<char>>| #[trigger]
                show_each(self@.data, cells) && text@ == matrix_text(cells, self@.row, self@.col),
    {
        let mut cells: Vec<String> = Vec::with_capacity(self.data.len());
        let mut k: usize = 0;
        while k < self.data.len()
            invariant
                k <= self.data@.len(),
                cells@.len() == k,
                forall|n: int| 0 <= n < k ==> shows(self.data@[n], (#[trigger] cells@[n])@),
            decreases self.data@.len() - k,
        {
            let cell = self.data[k].to_string();
            assert(shows(self.data@[k as int], cell@));
            cells.push(cell);
            k = k + 1;
        }
        proof {
            let shown = texts(cells@);
            assert forall|n: int| 0 <= n < shown.len() implies shows(
                self@.data[n],
                #[trigger] shown[n],
            ) by {
                assert(shown[n] == cells@[n]@);
            }
            assert(show_each(self@.data, shown));
        }
        layout(&cells, self.row, self.col)
    }

    /// The matrix with its shape, as text: the elements as `to_string`
    /// gives them, then the row and column counts in decimal.
    pub fn to_debug_string(&self) -> (text: String)
        requires
            self@.wf(),
        ensures
            exists|cells: Seq<Seq<char>>| #[trigger]
                show_each(self@.data, cells) && text@ == "Matrix { data: "@ + matrix_text(
                    cells,
                    self@.row,
                    self@.col,
                ) + ", row: "@ + numeral(self@.row) + ", col: "@ + numeral(self@.col) + " }"@,
    {
        let mut text = String::from_str("Matrix { data: ");
        let body = self.to_string();
        let ghost cells = choose|cells: Seq<Seq<char>>| #[trigger]
            show_each(self@.data, cells) && body@ == matrix_text(cells, self@.row, self@.col);
        text.append(body.as_str());
        text.append(", row: ");
        text.append(decimal(self.row as u64).as_str());
        text.append(", col: ");
        text.append(decimal(self.col as u64).as_str());
        text.append(" }");
        assert(text@ =~= "Matrix { data: "@ + matrix_text(cells, self@.row, self@.col)
            + ", row: "@ + numeral(self@.row) + ", col: "@ + numeral(self@.col) + " }"@);
        text
    }
}

} // verus!
