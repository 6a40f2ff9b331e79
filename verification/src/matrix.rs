//! The fixed-rank matrix adapter: a rank-2 container with row storage,
//! element-wise and dot-product arithmetic, transpose and identity.

use vstd::prelude::*;

verus! {

/// Every row of the grid has exactly `cols` elements.
pub open spec fn grid_is_rectangular(g: Seq<Seq<i64>>, cols: nat) -> bool {
    forall|i: int| 0 <= i < g.len() ==> #[trigger] g[i].len() == cols
}

/// Element-wise sums of two same-shape grids stay within `i64`.
pub open spec fn add_fits(a: Seq<Seq<i64>>, b: Seq<Seq<i64>>) -> bool {
    forall|i: int, j: int|
        0 <= i < a.len() && 0 <= j < a[i].len() && i < b.len() && j < b[i].len()
            ==> i64::MIN <= #[trigger] (a[i][j] + b[i][j]) <= i64::MAX
}

/// The dot product of the first `k` entries of row `i` of `a` with the
/// first `k` entries of column `j` of `b`.
pub open spec fn dot_prefix(a: Seq<Seq<i64>>, b: Seq<Seq<i64>>, i: int, j: int, k: int) -> int
    decreases k,
{
    if k <= 0 {
        0
    } else {
        dot_prefix(a, b, i, j, k - 1) + a[i][k - 1] * b[k - 1][j]
    }
}

/// Every partial product and every partial dot-product sum arising in the
/// row-by-column multiplication of an `m x n` grid by an `n x p` grid stays
/// within `i64`.
pub open spec fn mul_fits(a: Seq<Seq<i64>>, b: Seq<Seq<i64>>, m: int, n: int, p: int) -> bool {
    &&& (forall|i: int, j: int, k: int|
        0 <= i < m && 0 <= j < p && 0 <= k < n
            ==> i64::MIN <= #[trigger] (a[i][k] * b[k][j]) <= i64::MAX)
    &&& (forall|i: int, j: int, k: int|
        0 <= i < m && 0 <= j < p && 0 <= k <= n
            ==> i64::MIN <= #[trigger] dot_prefix(a, b, i, j, k) <= i64::MAX)
}

/// A rank-2 matrix: `rows` rows of `cols` elements each.
#[derive(Debug, Clone, PartialEq)]
pub struct Matrix {
    data: Vec<Vec<i64>>,
    rows: usize,
    cols: usize,
}

impl Matrix {
    /// The matrix contents as a sequence of row sequences.
    pub closed spec fn grid(&self) -> Seq<Seq<i64>> {
        Seq::new(self.data@.len(), |i: int| self.data@[i]@)
    }

    /// The number of rows.
    pub closed spec fn spec_rows(&self) -> nat {
        self.rows as nat
    }

    /// The number of columns.
    pub closed spec fn spec_cols(&self) -> nat {
        self.cols as nat
    }

    /// Well-formedness: the grid has `rows` rows and every row has
    /// exactly `cols` elements.
    pub open spec fn wf(&self) -> bool {
        &&& self.grid().len() == self.spec_rows()
        &&& grid_is_rectangular(self.grid(), self.spec_cols())
    }

    /// Create a matrix of the given dimensions filled with the default
    /// value 0.
    pub fn new(rows: usize, cols: usize) -> (r: Self)
        ensures
            r.wf(),
            r.spec_rows() == rows,
            r.spec_cols() == cols,
            forall|i: int, j: int| 0 <= i < rows && 0 <= j < cols ==> r.grid()[i][j] == 0i64,
    {
        let mut data: Vec<Vec<i64>> = Vec::new();
        let mut i: usize = 0;
        while i < rows
            invariant
                i <= rows,
                data@.len() == i,
                forall|a: int| 0 <= a < i ==> #[trigger] data@[a]@.len() == cols,
                forall|a: int, b: int| 0 <= a < i && 0 <= b < cols ==> data@[a]@[b] == 0i64,
            decreases rows - i,
        {
            let mut row: Vec<i64> = Vec::new();
            let mut j: usize = 0;
            while j < cols
                invariant
                    j <= cols,
                    row@.len() == j,
                    forall|b: int| 0 <= b < j ==> row@[b] == 0i64,
                decreases cols - j,
            {
                row.push(0);
                j = j + 1;
            }
            data.push(row);
            i = i + 1;
        }
        Matrix { data, rows, cols }
    }

    /// Build a matrix from rows of values.  Succeeds exactly when the input
    /// is non-empty and every row has the length of the first row.
    pub fn from_vec(data: Vec<Vec<i64>>) -> (r: Result<Self, &'static str>)
        ensures
            r is Ok <==> (data@.len() > 0 && forall|i: int|
                0 <= i < data@.len() ==> #[trigger] data@[i]@.len() == data@[0]@.len()),
            data@.len() == 0 ==> r == Err::<Self, &'static str>("Matrix cannot be empty"),
            r is Err && data@.len() > 0 ==> r == Err::<Self, &'static str>(
                "All rows must have the same length",
            ),
            r matches Ok(m) ==> {
                &&& m.wf()
                &&& m.spec_rows() == data@.len()
                &&& m.spec_cols() == data@[0]@.len()
                &&& forall|i: int| 0 <= i < data@.len() ==> #[trigger] m.grid()[i] == data@[i]@
            },
    {
        if data.len() == 0 {
            return Err("Matrix cannot be empty");
        }
        let rows: usize = data.len();
        let cols: usize = data[0].len();
        let mut i: usize = 0;
        while i < rows
            invariant
                rows == data@.len(),
                cols == data@[0]@.len(),
                i <= rows,
                forall|a: int| 0 <= a < i ==> #[trigger] data@[a]@.len() == cols,
            decreases rows - i,
        {
            if data[i].len() != cols {
                return Err("All rows must have the same length");
            }
            i = i + 1;
        }
        Ok(Matrix { data, rows, cols })
    }

    /// The number of rows.
    pub fn rows(&self) -> (r: usize)
        ensures
            r == self.spec_rows(),
    {
        self.rows
    }

    /// The number of columns.
    pub fn cols(&self) -> (r: usize)
        ensures
            r == self.spec_cols(),
    {
        self.cols
    }

    /// The dimensions as a `(rows, cols)` pair.
    pub fn dimensions(&self) -> (r: (usize, usize))
        ensures
            r.0 == self.spec_rows(),
            r.1 == self.spec_cols(),
    {
        (self.rows, self.cols)
    }

    /// Read the element at `(row, col)`; `None` on an out-of-range probe,
    /// which is an expected, recoverable condition.
    pub fn get(&self, row: usize, col: usize) -> (r: Option<i64>)
        requires
            self.wf(),
        ensures
            r is Some <==> row < self.spec_rows() && col < self.spec_cols(),
            r matches Some(v) ==> v == self.grid()[row as int][col as int],
    {
        if row < self.rows && col < self.cols {
            proof {
                assert(self.grid()[row as int].len() == self.spec_cols());
            }
            Some(self.data[row][col])
        } else {
            None
        }
    }

    /// Borrow one in-bounds cell mutably.  The contract spells the effect
    /// out row by row, in the shape the mutable-reference encoding can
    /// discharge directly; `get_mut` rebuilds well-formedness from it.
    fn cell_mut(&mut self, row: usize, col: usize) -> (p: &mut i64)
        requires
            old(self).wf(),
            row < old(self).spec_rows(),
            col < old(self).spec_cols(),
        ensures
            *p == old(self).grid()[row as int][col as int],
            final(self).spec_rows() == old(self).spec_rows(),
            final(self).spec_cols() == old(self).spec_cols(),
            final(self).grid().len() == old(self).spec_rows(),
            final(self).grid()[row as int].len() == old(self).spec_cols(),
            forall|i: int|
                0 <= i < old(self).spec_rows() && i != row ==> #[trigger] final(self).grid()[i]
                    == old(self).grid()[i],
            forall|i: int, j: int|
                0 <= i < old(self).spec_rows() && 0 <= j < old(self).spec_cols()
                    ==> final(self).grid()[i][j] == (if i == row && j == col {
                        *final(p)
                    } else {
                        old(self).grid()[i][j]
                    }),
    {
        proof {
            assert(old(self).grid()[row as int].len() == old(self).spec_cols());
        }
        let row_ref: &mut Vec<i64> = vstd::std_specs::vec::vec_index_mut(&mut self.data, row);
        vstd::std_specs::vec::vec_index_mut(row_ref, col)
    }

    /// Borrow the element at `(row, col)` mutably; `None` on an
    /// out-of-range probe.  Writing through the borrow updates exactly
    /// the addressed cell.
    pub fn get_mut(&mut self, row: usize, col: usize) -> (r: Option<&mut i64>)
        requires
            old(self).wf(),
        ensures
            final(self).wf(),
            r is Some <==> row < old(self).spec_rows() && col < old(self).spec_cols(),
            final(self).spec_rows() == old(self).spec_rows(),
            final(self).spec_cols() == old(self).spec_cols(),
            r matches Some(p) ==> *p == old(self).grid()[row as int][col as int] && (forall|
                i: int,
                j: int,
            |
                0 <= i < old(self).spec_rows() && 0 <= j < old(self).spec_cols()
                    ==> final(self).grid()[i][j] == (if i == row && j == col {
                        *final(p)
                    } else {
                        old(self).grid()[i][j]
                    })),
            r is None ==> *final(self) == *old(self),
    {
        if row < self.rows && col < self.cols {
            Some(self.cell_mut(row, col))
        } else {
            None
        }
    }

    /// Write the element at `(row, col)`; fails explicitly when either
    /// coordinate is out of range and leaves the matrix untouched.
    pub fn set(&mut self, row: usize, col: usize, value: i64) -> (r: Result<(), &'static str>)
        requires
            old(self).wf(),
        ensures
            final(self).wf(),
            r is Ok <==> row < old(self).spec_rows() && col < old(self).spec_cols(),
            final(self).spec_rows() == old(self).spec_rows(),
            final(self).spec_cols() == old(self).spec_cols(),
            r is Ok ==> final(self).grid() == old(self).grid().update(
                row as int,
                old(self).grid()[row as int].update(col as int, value),
            ),
            r is Err ==> r == Err::<(), &'static str>("Index out of bounds") && *final(self)
                == *old(self),
    {
        if row >= self.rows || col >= self.cols {
            return Err("Index out of bounds");
        }
        proof {
            assert(old(self).grid()[row as int].len() == old(self).spec_cols());
        }
        let row_ref: &mut Vec<i64> = &mut self.data[row];
        row_ref.set(col, value);
        proof {
            assert(final(self).grid() =~~= old(self).grid().update(
                row as int,
                old(self).grid()[row as int].update(col as int, value),
            ));
        }
        Ok(())
    }

    /// A copy of row `row`; `None` when the row does not exist.
    pub fn row(&self, row: usize) -> (r: Option<Vec<i64>>)
        requires
            self.wf(),
        ensures
            r is Some <==> row < self.spec_rows(),
            r matches Some(v) ==> v@ == self.grid()[row as int],
    {
        if row >= self.rows {
            return None;
        }
        let src: &Vec<i64> = &self.data[row];
        let n: usize = src.len();
        let mut out: Vec<i64> = Vec::new();
        let mut j: usize = 0;
        while j < n
            invariant
                n == src@.len(),
                j <= n,
                out@.len() == j,
                forall|b: int| 0 <= b < j ==> out@[b] == src@[b],
            decreases n - j,
        {
            out.push(src[j]);
            j = j + 1;
        }
        proof {
            assert(out@ =~= self.grid()[row as int]);
        }
        Some(out)
    }

    /// Column `col`, newly materialized as a vector; `None` when the
    /// column does not exist.
    pub fn col(&self, col: usize) -> (r: Option<Vec<i64>>)
        requires
            self.wf(),
        ensures
            r is Some <==> col < self.spec_cols(),
            r matches Some(v) ==> v@.len() == self.spec_rows() && forall|i: int|
                0 <= i < self.spec_rows() ==> v@[i] == self.grid()[i][col as int],
    {
        if col >= self.cols {
            return None;
        }
        let mut out: Vec<i64> = Vec::new();
        let mut i: usize = 0;
        while i < self.rows
            invariant
                self.wf(),
                col < self.spec_cols(),
                i <= self.spec_rows(),
                out@.len() == i,
                forall|a: int| 0 <= a < i ==> out@[a] == self.grid()[a][col as int],
            decreases self.rows - i,
        {
            proof {
                assert(self.grid()[i as int].len() == self.spec_cols());
            }
            out.push(self.data[i][col]);
            i = i + 1;
        }
        Some(out)
    }

    /// The identity matrix: 1 on every diagonal cell and 0 elsewhere.
    pub fn identity(size: usize) -> (r: Self)
        ensures
            r.wf(),
            r.spec_rows() == size,
            r.spec_cols() == size,
            forall|i: int, j: int|
                0 <= i < size && 0 <= j < size
                    ==> r.grid()[i][j] == (if i == j { 1i64 } else { 0i64 }),
    {
        let mut data: Vec<Vec<i64>> = Vec::new();
        let mut i: usize = 0;
        while i < size
            invariant
                i <= size,
                data@.len() == i,
                forall|a: int| 0 <= a < i ==> #[trigger] data@[a]@.len() == size,
                forall|a: int, b: int|
                    0 <= a < i && 0 <= b < size
                        ==> data@[a]@[b] == (if a == b { 1i64 } else { 0i64 }),
            decreases size - i,
        {
            let mut row: Vec<i64> = Vec::new();
            let mut j: usize = 0;
            while j < size
                invariant
                    j <= size,
                    row@.len() == j,
                    forall|b: int| 0 <= b < j ==> row@[b] == (if i == b { 1i64 } else { 0i64 }),
                decreases size - j,
            {
                if i == j {
                    row.push(1);
                } else {
                    row.push(0);
                }
                j = j + 1;
            }
            data.push(row);
            i = i + 1;
        }
        Matrix { data, rows: size, cols: size }
    }

    /// A new matrix with the dimensions swapped and
    /// `result[j][i] == self[i][j]` for all valid `i`, `j`.  Always succeeds.
    pub fn transpose(&self) -> (r: Self)
        requires
            self.wf(),
        ensures
            r.wf(),
            r.spec_rows() == self.spec_cols(),
            r.spec_cols() == self.spec_rows(),
            forall|i: int, j: int|
                0 <= i < self.spec_rows() && 0 <= j < self.spec_cols()
                    ==> r.grid()[j][i] == self.grid()[i][j],
    {
        let mut data: Vec<Vec<i64>> = Vec::new();
        let mut j: usize = 0;
        while j < self.cols
            invariant
                self.wf(),
                j <= self.spec_cols(),
                data@.len() == j,
                forall|b: int| 0 <= b < j ==> #[trigger] data@[b]@.len() == self.spec_rows(),
                forall|b: int, a: int|
                    0 <= b < j && 0 <= a < self.spec_rows()
                        ==> data@[b]@[a] == self.grid()[a][b],
            decreases self.cols - j,
        {
            let mut row: Vec<i64> = Vec::new();
            let mut i: usize = 0;
            while i < self.rows
                invariant
                    self.wf(),
                    j < self.spec_cols(),
                    i <= self.spec_rows(),
                    row@.len() == i,
                    forall|a: int| 0 <= a < i ==> row@[a] == self.grid()[a][j as int],
                decreases self.rows - i,
            {
                proof {
                    assert(self.grid()[i as int].len() == self.spec_cols());
                }
                row.push(self.data[i][j]);
                i = i + 1;
            }
            data.push(row);
            j = j + 1;
        }
        Matrix { data, rows: self.cols, cols: self.rows }
    }

    /// Element-wise addition.  Fails exactly when the dimensions differ;
    /// otherwise produces a new matrix of cell-wise sums.
    pub fn add(self, other: Matrix) -> (r: Result<Matrix, &'static str>)
        requires
            self.wf(),
            other.wf(),
            (self.spec_rows() == other.spec_rows() && self.spec_cols() == other.spec_cols())
                ==> add_fits(self.grid(), other.grid()),
        ensures
            r is Ok <==> (self.spec_rows() == other.spec_rows() && self.spec_cols()
                == other.spec_cols()),
            r is Err ==> r == Err::<Matrix, &'static str>(
                "Matrices must have the same dimensions for addition",
            ),
            r matches Ok(m) ==> {
                &&& m.wf()
                &&& m.spec_rows() == self.spec_rows()
                &&& m.spec_cols() == self.spec_cols()
                &&& forall|i: int, j: int|
                    0 <= i < self.spec_rows() && 0 <= j < self.spec_cols()
                        ==> m.grid()[i][j] == self.grid()[i][j] + other.grid()[i][j]
            },
    {
        if self.rows != other.rows || self.cols != other.cols {
            return Err("Matrices must have the same dimensions for addition");
        }
        let mut data: Vec<Vec<i64>> = Vec::new();
        let mut i: usize = 0;
        while i < self.rows
            invariant
                self.wf(),
                other.wf(),
                self.spec_rows() == other.spec_rows(),
                self.spec_cols() == other.spec_cols(),
                add_fits(self.grid(), other.grid()),
                i <= self.spec_rows(),
                data@.len() == i,
                forall|a: int| 0 <= a < i ==> #[trigger] data@[a]@.len() == self.spec_cols(),
                forall|a: int, b: int|
                    0 <= a < i && 0 <= b < self.spec_cols()
                        ==> data@[a]@[b] == self.grid()[a][b] + other.grid()[a][b],
            decreases self.rows - i,
        {
            let mut row: Vec<i64> = Vec::new();
            let mut j: usize = 0;
            while j < self.cols
                invariant
                    self.wf(),
                    other.wf(),
                    self.spec_rows() == other.spec_rows(),
                    self.spec_cols() == other.spec_cols(),
                    add_fits(self.grid(), other.grid()),
                    i < self.spec_rows(),
                    j <= self.spec_cols(),
                    row@.len() == j,
                    forall|b: int|
                        0 <= b < j
                            ==> row@[b] == self.grid()[i as int][b] + other.grid()[i as int][b],
                decreases self.cols - j,
            {
                proof {
                    assert(self.grid()[i as int].len() == self.spec_cols());
                    assert(other.grid()[i as int].len() == other.spec_cols());
                    assert(i64::MIN
                        <= self.grid()[i as int][j as int] + other.grid()[i as int][j as int]
                        <= i64::MAX);
                }
                row.push(self.data[i][j] + other.data[i][j]);
                j = j + 1;
            }
            data.push(row);
            i = i + 1;
        }
        Ok(Matrix { data, rows: self.rows, cols: self.cols })
    }

    /// Row-by-column multiplication.  Fails exactly when the inner
    /// dimensions differ; each output cell is the dot product of a row of
    /// `self` with a column of `other`, accumulated from 0.
    pub fn mul(self, other: Matrix) -> (r: Result<Matrix, &'static str>)
        requires
            self.wf(),
            other.wf(),
            self.spec_cols() == other.spec_rows() ==> mul_fits(
                self.grid(),
                other.grid(),
                self.spec_rows() as int,
                self.spec_cols() as int,
                other.spec_cols() as int,
            ),
        ensures
            r is Ok <==> self.spec_cols() == other.spec_rows(),
            r is Err ==> r == Err::<Matrix, &'static str>(
                "Number of columns in first matrix must equal number of rows in second matrix",
            ),
            r matches Ok(m) ==> {
                &&& m.wf()
                &&& m.spec_rows() == self.spec_rows()
                &&& m.spec_cols() == other.spec_cols()
                &&& forall|i: int, j: int|
                    0 <= i < self.spec_rows() && 0 <= j < other.spec_cols()
                        ==> m.grid()[i][j] == dot_prefix(
                            self.grid(),
                            other.grid(),
                            i,
                            j,
                            self.spec_cols() as int,
                        )
            },
    {
        if self.cols != other.rows {
            return Err("Number of columns in first matrix must equal number of rows in second matrix");
        }
        let mut data: Vec<Vec<i64>> = Vec::new();
        let mut i: usize = 0;
        while i < self.rows
            invariant
                self.wf(),
                other.wf(),
                self.spec_cols() == other.spec_rows(),
                mul_fits(
                    self.grid(),
                    other.grid(),
                    self.spec_rows() as int,
                    self.spec_cols() as int,
                    other.spec_cols() as int,
                ),
                i <= self.spec_rows(),
                data@.len() == i,
                forall|a: int| 0 <= a < i ==> #[trigger] data@[a]@.len() == other.spec_cols(),
                forall|a: int, b: int|
                    0 <= a < i && 0 <= b < other.spec_cols()
                        ==> data@[a]@[b] == dot_prefix(
                            self.grid(),
                            other.grid(),
                            a,
                            b,
                            self.spec_cols() as int,
                        ),
            decreases self.rows - i,
        {
            let mut row: Vec<i64> = Vec::new();
            let mut j: usize = 0;
            while j < other.cols
                invariant
                    self.wf(),
                    other.wf(),
                    self.spec_cols() == other.spec_rows(),
                    mul_fits(
                        self.grid(),
                        other.grid(),
                        self.spec_rows() as int,
                        self.spec_cols() as int,
                        other.spec_cols() as int,
                    ),
                    i < self.spec_rows(),
                    j <= other.spec_cols(),
                    row@.len() == j,
                    forall|b: int|
                        0 <= b < j ==> row@[b] == dot_prefix(
                            self.grid(),
                            other.grid(),
                            i as int,
                            b,
                            self.spec_cols() as int,
                        ),
                decreases other.cols - j,
            {
                let mut sum: i64 = 0;
                let mut k: usize = 0;
                while k < self.cols
                    invariant
                        self.wf(),
                        other.wf(),
                        self.spec_cols() == other.spec_rows(),
                        mul_fits(
                            self.grid(),
                            other.grid(),
                            self.spec_rows() as int,
                            self.spec_cols() as int,
                            other.spec_cols() as int,
                        ),
                        i < self.spec_rows(),
                        j < other.spec_cols(),
                        k <= self.spec_cols(),
                        sum == dot_prefix(self.grid(), other.grid(), i as int, j as int, k as int),
                    decreases self.cols - k,
                {
                    proof {
                        assert(self.grid()[i as int].len() == self.spec_cols());
                        assert(other.grid()[k as int].len() == other.spec_cols());
                        let ga = self.grid();
                        let gb = other.grid();
                        assert(dot_prefix(ga, gb, i as int, j as int, k + 1)
                            == dot_prefix(ga, gb, i as int, j as int, k as int)
                                + ga[i as int][k as int] * gb[k as int][j as int]);
                    }
                    sum = sum + self.data[i][k] * other.data[k][j];
                    k = k + 1;
                }
                row.push(sum);
                j = j + 1;
            }
            data.push(row);
            i = i + 1;
        }
        Ok(Matrix { data, rows: self.rows, cols: other.cols })
    }
}

} // verus!
