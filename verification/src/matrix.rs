use vstd::prelude::*;
use vstd::arithmetic::div_mod::lemma_fundamental_div_mod_converse;
use vstd::string::*;
use crate::error::Error;
use crate::scalar::{values, Scalar};
use crate::text::{decimal, join, lemma_join_push};
use crate::vector::{
    check_dot_fits, dot, dot_fits, lemma_partial_dot_step, partial_dot, step_fits, Vector,
};

verus! {

/// A dense matrix in row-major order: element `(i, j)` is stored at
/// position `i * cols + j`, and the storage holds `rows * cols` elements.
pub struct Matrix<T> {
    rows: usize,
    cols: usize,
    data: Vec<T>,
}

/// What a matrix stands for: its shape and the integers of its cells in
/// row-major order.
pub struct MatrixView {
    pub rows: nat,
    pub cols: nat,
    pub cells: Seq<int>,
}

impl MatrixView {
    /// There is one cell for every position of the shape.
    pub open spec fn well_formed(self) -> bool {
        self.cells.len() == self.rows * self.cols
    }

    /// Row `i`: the cells at positions `i * cols .. (i + 1) * cols`.
    pub open spec fn row(self, i: int) -> Seq<int> {
        self.cells.subrange(i * self.cols, (i + 1) * self.cols)
    }

    /// Column `j`: every `cols`-th cell, starting at position `j`.
    pub open spec fn col(self, j: int) -> Seq<int> {
        Seq::new(self.rows, |k: int| self.cells[k * self.cols + j])
    }
}

/// The cell at flat position `k` of the product of `a` and `b`: row
/// `k / b.cols` of `a` times column `k % b.cols` of `b`.
pub open spec fn product_cell(a: MatrixView, b: MatrixView, k: int) -> int {
    dot(a.row(k / (b.cols as int)), b.col(k % (b.cols as int)))
}

/// The matrix product of `a` and `b`.
pub open spec fn product(a: MatrixView, b: MatrixView) -> MatrixView {
    MatrixView {
        rows: a.rows,
        cols: b.cols,
        cells: Seq::new(a.rows * b.cols, |k: int| product_cell(a, b, k)),
    }
}

/// Whether every cell of the product can be accumulated in `T` without
/// leaving the type's range.
pub open spec fn product_fits<T: Scalar>(a: MatrixView, b: MatrixView) -> bool {
    forall|i: int, j: int|
        0 <= i < a.rows && 0 <= j < b.cols ==> #[trigger] dot_fits::<T>(a.row(i), b.col(j))
}

/// What a multiplication yields: the product where the inner dimensions
/// agree, a dimension mismatch otherwise.
pub open spec fn multiply_outcome(a: MatrixView, b: MatrixView) -> Result<MatrixView, Error> {
    if a.cols == b.rows {
        Ok(product(a, b))
    } else {
        Err(Error::DimensionMismatch)
    }
}

/// The text of row `i`: the decimal texts of its cells, one space between
/// each two.
pub open spec fn row_text(m: MatrixView, i: int) -> Seq<char> {
    join(Seq::new(m.cols, |j: int| decimal(m.cells[i * m.cols + j])), seq![' '])
}

/// The text of a matrix: its rows separated by a comma and a space, the
/// whole in braces.
pub open spec fn matrix_text(m: MatrixView) -> Seq<char> {
    seq!['{'] + join(Seq::new(m.rows, |i: int| row_text(m, i)), seq![',', ' ']) + seq!['}']
}

/// Flat positions and `(row, column)` pairs determine each other.
pub proof fn lemma_flat_index(i: int, j: int, rows: int, cols: int)
    requires
        0 <= i < rows,
        0 <= j < cols,
    ensures
        0 <= i * cols,
        i * cols + j < rows * cols,
        (i + 1) * cols <= rows * cols,
        (i * cols + j) / cols == i,
        (i * cols + j) % cols == j,
{
    assert(0 <= i * cols && (i + 1) * cols <= rows * cols && (i + 1) * cols == i * cols + cols)
        by (nonlinear_arith)
        requires
            0 <= i < rows,
            0 < cols,
    ;
    lemma_fundamental_div_mod_converse(i * cols + j, cols, i, j);
}

/// A row of a well-formed matrix has `cols` elements, and its element `j`
/// is the cell at position `i * cols + j`.
pub proof fn lemma_row_shape(m: MatrixView, i: int)
    requires
        m.well_formed(),
        0 <= i < m.rows,
    ensures
        m.row(i).len() == m.cols,
        forall|j: int| 0 <= j < m.cols ==> #[trigger] m.row(i)[j] == m.cells[i * m.cols + j],
{
    let cols = m.cols as int;
    let rows = m.rows as int;
    assert(0 <= i * cols && (i + 1) * cols <= rows * cols && (i + 1) * cols == i * cols + cols)
        by (nonlinear_arith)
        requires
            0 <= i < rows,
            0 <= cols,
    ;
}

impl<T: Scalar> View for Matrix<T> {
    type V = MatrixView;

    closed spec fn view(&self) -> MatrixView {
        MatrixView { rows: self.rows as nat, cols: self.cols as nat, cells: values(self.data@) }
    }
}

impl<T> Matrix<T> {
    #[verifier::type_invariant]
    spec fn storage_matches_shape(self) -> bool {
        self.data@.len() == self.rows * self.cols
    }
}

impl<T: Scalar> Matrix<T> {
    /// A matrix of the given shape over `data`, read in row-major order.
    ///
    /// The length of `data` is the caller's responsibility: it has to be
    /// `rows * cols`.
    pub fn new(rows: usize, cols: usize, data: Vec<T>) -> (m: Self)
        requires
            data@.len() == rows * cols,
        ensures
            m@ == (MatrixView { rows: rows as nat, cols: cols as nat, cells: values(data@) }),
            m@.well_formed(),
    {
        Matrix { rows, cols, data }
    }

    /// The number of rows.
    pub fn rows(&self) -> (n: usize)
        ensures
            n == self@.rows,
            self@.well_formed(),
    {
        proof {
            use_type_invariant(self);
        }
        self.rows
    }

    /// The number of columns.
    pub fn cols(&self) -> (n: usize)
        ensures
            n == self@.cols,
            self@.well_formed(),
    {
        proof {
            use_type_invariant(self);
        }
        self.cols
    }

    /// The element in row `i` and column `j`.
    pub fn get(&self, i: usize, j: usize) -> (x: T)
        requires
            i < self@.rows,
            j < self@.cols,
        ensures
            x.value() == self@.cells[i * self@.cols + j],
            x.value() == self@.row(i as int)[j as int],
            x.value() == self@.col(j as int)[i as int],
    {
        let len = self.data.len();
        proof {
            use_type_invariant(self);
            lemma_flat_index(i as int, j as int, self.rows as int, self.cols as int);
            lemma_row_shape(self@, i as int);
            assert(i * self.cols + j < len);
        }
        self.data[i * self.cols + j]
    }

    /// A copy of row `i`.
    pub fn row(&self, i: usize) -> (v: Vector<T>)
        requires
            i < self@.rows,
        ensures
            v@ == self@.row(i as int),
    {
        let mut out: Vec<T> = Vec::new();
        let mut j: usize = 0;
        while j < self.cols
            invariant
                j <= self.cols,
                i < self.rows,
                values(out@) == self@.row(i as int).take(j as int),
            decreases self.cols - j,
        {
            let x = self.get(i, j);
            let ghost before = out@;
            out.push(x);
            proof {
                use_type_invariant(self);
                lemma_flat_index(i as int, j as int, self.rows as int, self.cols as int);
                lemma_row_shape(self@, i as int);
                assert(values(out@) =~= values(before).push(x.value()));
                assert(self@.row(i as int).take(j + 1) =~= self@.row(i as int).take(j as int).push(
                    self@.row(i as int)[j as int],
                ));
            }
            j = j + 1;
        }
        proof {
            use_type_invariant(self);
            lemma_row_shape(self@, i as int);
            assert(self@.row(i as int).take(self.cols as int) =~= self@.row(i as int));
        }
        Vector::new(out)
    }

    /// A copy of column `j`.
    pub fn col(&self, j: usize) -> (v: Vector<T>)
        requires
            j < self@.cols,
        ensures
            v@ == self@.col(j as int),
    {
        let mut out: Vec<T> = Vec::new();
        let mut i: usize = 0;
        while i < self.rows
            invariant
                i <= self.rows,
                j < self.cols,
                values(out@) == self@.col(j as int).take(i as int),
            decreases self.rows - i,
        {
            let x = self.get(i, j);
            let ghost before = out@;
            out.push(x);
            proof {
                assert(values(out@) =~= values(before).push(x.value()));
                assert(self@.col(j as int).take(i + 1) =~= self@.col(j as int).take(i as int).push(
                    self@.col(j as int)[i as int],
                ));
            }
            i = i + 1;
        }
        proof {
            assert(self@.col(j as int).take(self.rows as int) =~= self@.col(j as int));
        }
        Vector::new(out)
    }

    /// The text of the matrix, such as `{1 2 3, 4 5 6}` for two rows of
    /// three.
    pub fn to_string(&self) -> (s: String)
        ensures
            s@ == matrix_text(self@),
    {
        proof {
            reveal_strlit("{");
            reveal_strlit("}");
            reveal_strlit(", ");
            reveal_strlit(" ");
            use_type_invariant(self);
        }
        let ghost m = self@;
        let ghost row_sep = seq![',', ' '];
        let ghost cell_sep = seq![' '];
        let mut out = String::from_str("{");
        assert(out@ =~= seq!['{'] + join(Seq::new(0, |r: int| row_text(m, r)), row_sep));
        let mut i: usize = 0;
        while i < self.rows
            invariant
                i <= self.rows,
                m == self@,
                row_sep == seq![',', ' '],
                cell_sep == seq![' '],
                ", "@ == row_sep,
                " "@ == cell_sep,
                out@ == seq!['{'] + join(Seq::new(i as nat, |r: int| row_text(m, r)), row_sep),
            decreases self.rows - i,
        {
            let ghost done = Seq::new(i as nat, |r: int| row_text(m, r));
            if i > 0 {
                out.append(", ");
            }
            let ghost head = out@;
            assert(out@ =~= head + join(
                Seq::new(0, |c: int| decimal(m.cells[i * m.cols + c])),
                cell_sep,
            ));
            let mut j: usize = 0;
            while j < self.cols
                invariant
                    j <= self.cols,
                    i < self.rows,
                    m == self@,
                    cell_sep == seq![' '],
                    " "@ == cell_sep,
                    out@ == head + join(
                        Seq::new(j as nat, |c: int| decimal(m.cells[i * m.cols + c])),
                        cell_sep,
                    ),
                decreases self.cols - j,
            {
                let ghost shown = Seq::new(j as nat, |c: int| decimal(m.cells[i * m.cols + c]));
                if j > 0 {
                    out.append(" ");
                }
                let x = self.get(i, j);
                x.push_text(&mut out);
                proof {
                    let piece = decimal(m.cells[i * m.cols + j]);
                    lemma_join_push(shown, cell_sep, piece);
                    assert(Seq::new((j + 1) as nat, |c: int| decimal(m.cells[i * m.cols + c]))
                        =~= shown.push(piece));
                    assert(out@ =~= head + join(shown.push(piece), cell_sep));
                }
                j = j + 1;
            }
            proof {
                let piece = row_text(m, i as int);
                lemma_join_push(done, row_sep, piece);
                assert(Seq::new((i + 1) as nat, |r: int| row_text(m, r)) =~= done.push(piece));
                assert(out@ =~= seq!['{'] + join(done.push(piece), row_sep));
            }
            i = i + 1;
        }
        out.append("}");
        assert(out@ =~= matrix_text(m));
        out
    }
}

/// The product of `a` and `b`, computed cell by cell on the calling thread.
///
/// Fails with a dimension mismatch unless `a` has as many columns as `b`
/// has rows. For matching shapes the caller must rule out overflow: the
/// number of cells of the product has to fit in `usize`, and every cell has
/// to be computable in `T`.
pub fn sequential_multiply<T: Scalar>(a: &Matrix<T>, b: &Matrix<T>) -> (result: Result<
    Matrix<T>,
    Error,
>)
    requires
        a@.cols == b@.rows ==> a@.rows * b@.cols <= usize::MAX && product_fits::<T>(a@, b@),
    ensures
        match result {
            Ok(m) => multiply_outcome(a@, b@) == Ok::<MatrixView, Error>(m@),
            Err(e) => multiply_outcome(a@, b@) == Err::<MatrixView, Error>(e),
        },
{
    if a.cols() != b.rows() {
        return Err(Error::DimensionMismatch);
    }
    let rows = a.rows();
    let inner = a.cols();
    let cols = b.cols();
    let mut data: Vec<T> = Vec::new();
    let mut i: usize = 0;
    while i < rows
        invariant
            rows == a@.rows,
            inner == a@.cols,
            inner == b@.rows,
            cols == b@.cols,
            a@.well_formed(),
            b@.well_formed(),
            rows * cols <= usize::MAX,
            product_fits::<T>(a@, b@),
            i <= rows,
            data@.len() == i * cols,
            forall|k: int|
                0 <= k < data@.len() ==> #[trigger] data@[k].value() == product_cell(a@, b@, k),
        decreases rows - i,
    {
        let mut j: usize = 0;
        while j < cols
            invariant
                rows == a@.rows,
                inner == a@.cols,
                inner == b@.rows,
                cols == b@.cols,
                a@.well_formed(),
                b@.well_formed(),
                product_fits::<T>(a@, b@),
                i < rows,
                j <= cols,
                data@.len() == i * cols + j,
                forall|k: int|
                    0 <= k < data@.len() ==> #[trigger] data@[k].value() == product_cell(
                        a@,
                        b@,
                        k,
                    ),
            decreases cols - j,
        {
            let ghost r = a@.row(i as int);
            let ghost c = b@.col(j as int);
            proof {
                lemma_row_shape(a@, i as int);
                assert(dot_fits::<T>(a@.row(i as int), b@.col(j as int)));
            }
            let mut acc = T::zero();
            let mut k: usize = 0;
            while k < inner
                invariant
                    rows == a@.rows,
                    inner == a@.cols,
                    inner == b@.rows,
                    cols == b@.cols,
                    i < rows,
                    j < cols,
                    k <= inner,
                    r == a@.row(i as int),
                    c == b@.col(j as int),
                    r.len() == inner,
                    c.len() == inner,
                    dot_fits::<T>(r, c),
                    acc.value() == partial_dot(r, c, k as int),
                decreases inner - k,
            {
                proof {
                    lemma_partial_dot_step(r, c, k as int);
                    assert(step_fits::<T>(r, c, k as int));
                }
                acc = acc.plus(a.get(i, k).times(b.get(k, j)));
                k = k + 1;
            }
            proof {
                assert(r.take(inner as int) =~= r);
                assert(c.take(inner as int) =~= c);
                lemma_flat_index(i as int, j as int, rows as int, cols as int);
            }
            data.push(acc);
            j = j + 1;
        }
        proof {
            assert((i + 1) * cols == i * cols + cols) by (nonlinear_arith);
        }
        i = i + 1;
    }
    let m = Matrix::new(rows, cols, data);
    proof {
        assert(m@.cells =~= product(a@, b@).cells);
    }
    Ok(m)
}

/// Decides what the multiplications ask of their caller: whether, for
/// matching shapes, the number of cells of the product fits in `usize` and
/// every cell can be computed in `T`. Shapes that do not match pass, since
/// their multiplication fails before anything is computed.
pub fn check_product_fits<T: Scalar>(a: &Matrix<T>, b: &Matrix<T>) -> (ok: bool)
    ensures
        ok == (a@.cols == b@.rows ==> a@.rows * b@.cols <= usize::MAX && product_fits::<T>(
            a@,
            b@,
        )),
{
    if a.cols() != b.rows() {
        return true;
    }
    let rows = a.rows();
    let cols = b.cols();
    if rows.checked_mul(cols).is_none() {
        return false;
    }
    let mut i: usize = 0;
    while i < rows
        invariant
            rows == a@.rows,
            cols == b@.cols,
            a@.cols == b@.rows,
            a@.well_formed(),
            i <= rows,
            forall|r: int, c: int|
                0 <= r < i && 0 <= c < cols ==> #[trigger] dot_fits::<T>(a@.row(r), b@.col(c)),
        decreases rows - i,
    {
        let row = a.row(i);
        let mut j: usize = 0;
        while j < cols
            invariant
                rows == a@.rows,
                cols == b@.cols,
                a@.cols == b@.rows,
                a@.well_formed(),
                i < rows,
                j <= cols,
                row@ == a@.row(i as int),
                forall|r: int, c: int|
                    0 <= r < i && 0 <= c < cols ==> #[trigger] dot_fits::<T>(a@.row(r), b@.col(c)),
                forall|c: int| 0 <= c < j ==> #[trigger] dot_fits::<T>(a@.row(i as int), b@.col(c)),
            decreases cols - j,
        {
            let col = b.col(j);
            proof {
                lemma_row_shape(a@, i as int);
            }
            if !check_dot_fits(&row, &col) {
                assert(!dot_fits::<T>(a@.row(i as int), b@.col(j as int)));
                return false;
            }
            j = j + 1;
        }
        i = i + 1;
    }
    true
}

} // verus!
