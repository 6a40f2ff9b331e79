//! Conversions between the rank-2 matrix and the strided array: a matrix
//! embeds losslessly as a rank-2 array by row-major flattening, and a rank-2
//! array extracts back into a matrix.

use vstd::prelude::*;
use vstd::arithmetic::div_mod::{lemma_fundamental_div_mod, lemma_fundamental_div_mod_converse};
use vstd::arithmetic::mul::lemma_mul_inequality;
use crate::matrix::{grid_is_rectangular, Matrix};
use crate::ndarray::{shape_product, strides_fit, suffix_product, NDArray, NDArrayError};

verus! {

/// The row-major flattening of a grid whose rows have `cols` elements:
/// flat position `k` holds the grid cell in row `k / cols`, column
/// `k % cols`.
pub open spec fn grid_flat(g: Seq<Seq<i64>>, cols: nat) -> Seq<i64> {
    Seq::new(g.len() * cols, |k: int| g[k / (cols as int)][k % (cols as int)])
}

/// The `rows x cols` grid that reads flat storage in row-major order:
/// cell `(i, j)` holds flat element `i * cols + j`.
pub open spec fn flat_grid(d: Seq<i64>, rows: nat, cols: nat) -> Seq<Seq<i64>> {
    Seq::new(rows, |i: int| Seq::new(cols, |j: int| d[i * (cols as int) + j]))
}

/// Row-major offsets of earlier rows land strictly below the offsets of
/// the current row: `a * cols + b < i * cols` whenever `a < i` and
/// `b < cols`.
proof fn lemma_row_major_below(a: int, b: int, i: int, cols: int)
    by (nonlinear_arith)
    requires
        0 <= a < i,
        0 <= b < cols,
    ensures
        0 <= a * cols + b,
        a * cols + b < i * cols,
{
}

impl NDArray {
    /// Losslessly embed a matrix as a rank-2 array of shape
    /// `[rows, cols]`, flattening row-major.  Always succeeds.
    pub fn from_matrix(m: &Matrix) -> (r: Self)
        requires
            m.wf(),
        ensures
            r.wf(),
            r.shape_seq().len() == 2,
            r.shape_seq()[0] == m.spec_rows(),
            r.shape_seq()[1] == m.spec_cols(),
            r.data_seq() == grid_flat(m.grid(), m.spec_cols()),
    {
        let rows: usize = m.rows();
        let cols: usize = m.cols();
        let mut data: Vec<i64> = Vec::new();
        let mut i: usize = 0;
        while i < rows
            invariant
                m.wf(),
                rows == m.spec_rows(),
                cols == m.spec_cols(),
                i <= rows,
                data@.len() == i * cols,
                forall|a: int, b: int|
                    0 <= a < i && 0 <= b < cols ==> data@[a * (cols as int) + b] == m.grid()[a][b],
            decreases rows - i,
        {
            let mut j: usize = 0;
            while j < cols
                invariant
                    m.wf(),
                    rows == m.spec_rows(),
                    cols == m.spec_cols(),
                    i < rows,
                    j <= cols,
                    data@.len() == i * cols + j,
                    forall|a: int, b: int|
                        0 <= a < i && 0 <= b < cols
                            ==> data@[a * (cols as int) + b] == m.grid()[a][b],
                    forall|b: int|
                        0 <= b < j ==> data@[i as int * (cols as int) + b] == m.grid()[i as int][b],
                decreases cols - j,
            {
                let v: i64 = match m.get(i, j) {
                    Some(v) => v,
                    None => {
                        proof {
                            assert(false);
                        }
                        0
                    },
                };
                data.push(v);
                proof {
                    assert forall|a: int, b: int| 0 <= a < i && 0 <= b < cols implies data@[a * (
                    cols as int) + b] == m.grid()[a][b] by {
                        lemma_row_major_below(a, b, i as int, cols as int);
                    }
                }
                j = j + 1;
            }
            proof {
                assert((i + 1) * (cols as int) == i * (cols as int) + cols) by (nonlinear_arith);
                assert forall|a: int, b: int| 0 <= a < i + 1 && 0 <= b < cols implies data@[a * (
                cols as int) + b] == m.grid()[a][b] by {
                    lemma_row_major_below(a, b, i + 1, cols as int);
                }
            }
            i = i + 1;
        }
        let total: usize = data.len();
        let mut shape: Vec<usize> = Vec::new();
        shape.push(rows);
        shape.push(cols);
        proof {
            assert(shape@ =~= seq![rows, cols]);
            assert(suffix_product(shape@, 2) == 1);
            assert(suffix_product(shape@, 1) == (cols as nat) * suffix_product(shape@, 2));
            assert(suffix_product(shape@, 0) == (rows as nat) * suffix_product(shape@, 1));
            assert(suffix_product(shape@, 0) == data@.len());
            assert forall|q: int| 0 <= q <= shape@.len() implies #[trigger] suffix_product(
                shape@,
                q,
            ) <= usize::MAX by {
                assert(suffix_product(shape@, 0) == total);
            }
        }
        let r = match Self::from_vec(data, shape.as_slice()) {
            Ok(a) => a,
            Err(_) => {
                proof {
                    assert(false);
                }
                Self::with_value(&[], 0)
            },
        };
        proof {
            assert(r.data_seq() =~= grid_flat(m.grid(), m.spec_cols())) by {
                assert(forall|k: int|
                    0 <= k < r.data_seq().len() ==> r.data_seq()[k] == grid_flat(
                        m.grid(),
                        m.spec_cols(),
                    )[k]) by {
                    assert forall|k: int| 0 <= k < rows as int * cols as int implies r.data_seq()[k]
                        == grid_flat(m.grid(), m.spec_cols())[k] by {
                        lemma_fundamental_div_mod(k, cols as int);
                        let a = k / (cols as int);
                        let b = k % (cols as int);
                        assert(a < rows) by (nonlinear_arith)
                            requires
                                0 <= b < cols,
                                k == a * (cols as int) + b,
                                k < rows as int * cols as int,
                                cols > 0,
                        ;
                    }
                }
            }
        }
        r
    }

    /// Extract a rank-2 array into a matrix whose cell `(r, c)` equals the
    /// array element at `[r, c]`.  Succeeds for every rank-2 array — a
    /// zero extent yields the corresponding degenerate matrix — and fails
    /// with `DimensionError` exactly when the rank is not 2.
    pub fn to_matrix(&self) -> (r: Result<Matrix, NDArrayError>)
        requires
            self.wf(),
        ensures
            r is Ok <==> self.shape_seq().len() == 2,
            r matches Ok(m) ==> {
                &&& m.wf()
                &&& m.spec_rows() == self.shape_seq()[0]
                &&& m.spec_cols() == self.shape_seq()[1]
                &&& m.grid() == flat_grid(
                    self.data_seq(),
                    self.shape_seq()[0] as nat,
                    self.shape_seq()[1] as nat,
                )
            },
            r is Err ==> r == Err::<Matrix, NDArrayError>(NDArrayError::DimensionError),
    {
        if self.ndim() != 2 {
            return Err(NDArrayError::DimensionError);
        }
        let rows: usize = match self.axis_size(0) {
            Ok(s) => s,
            Err(_) => {
                proof {
                    assert(false);
                }
                0
            },
        };
        let cols: usize = match self.axis_size(1) {
            Ok(s) => s,
            Err(_) => {
                proof {
                    assert(false);
                }
                0
            },
        };
        if rows == 0 {
            let m = Matrix::new(0, cols);
            proof {
                assert(m.grid() =~~= flat_grid(self.data_seq(), 0, cols as nat));
            }
            return Ok(m);
        }
        let mut matrix_data: Vec<Vec<i64>> = Vec::new();
        let mut i: usize = 0;
        while i < rows
            invariant
                self.wf(),
                self.shape_seq().len() == 2,
                rows == self.shape_seq()[0],
                cols == self.shape_seq()[1],
                i <= rows,
                matrix_data@.len() == i,
                forall|a: int|
                    0 <= a < i ==> #[trigger] matrix_data@[a]@ == flat_grid(
                        self.data_seq(),
                        rows as nat,
                        cols as nat,
                    )[a],
            decreases rows - i,
        {
            let mut row: Vec<i64> = Vec::new();
            let mut j: usize = 0;
            while j < cols
                invariant
                    self.wf(),
                    self.shape_seq().len() == 2,
                    rows == self.shape_seq()[0],
                    cols == self.shape_seq()[1],
                    i < rows,
                    j <= cols,
                    row@.len() == j,
                    forall|b: int|
                        0 <= b < j ==> row@[b] == self.data_seq()[i as int * (cols as int) + b],
                decreases cols - j,
            {
                let mut idx: Vec<usize> = Vec::new();
                idx.push(i);
                idx.push(j);
                proof {
                    assert(idx@ =~= seq![i, j]);
                    let shape = self.shape_seq();
                    assert(suffix_product(shape, 2) == 1);
                    assert(suffix_product(shape, 1) == (cols as nat) * suffix_product(shape, 2));
                    assert(crate::ndarray::flat_index_prefix(shape, idx@, 0) == 0);
                    assert(crate::ndarray::flat_index_prefix(shape, idx@, 1)
                        == crate::ndarray::flat_index_prefix(shape, idx@, 0)
                            + (i as nat) * suffix_product(shape, 1));
                    assert(crate::ndarray::flat_index_prefix(shape, idx@, 2)
                        == crate::ndarray::flat_index_prefix(shape, idx@, 1)
                            + (j as nat) * suffix_product(shape, 2));
                    assert(crate::ndarray::flat_index_of(shape, idx@)
                        == i as int * (cols as int) + j);
                    assert(crate::ndarray::index_in_bounds(shape, idx@));
                }
                let v: i64 = match self.get(idx.as_slice()) {
                    Some(v) => v,
                    None => {
                        proof {
                            assert(false);
                        }
                        0
                    },
                };
                row.push(v);
                j = j + 1;
            }
            proof {
                assert(row@ =~= flat_grid(self.data_seq(), rows as nat, cols as nat)[i as int]);
            }
            matrix_data.push(row);
            i = i + 1;
        }
        match Matrix::from_vec(matrix_data) {
            Ok(m) => {
                proof {
                    assert(m.grid() =~~= flat_grid(self.data_seq(), rows as nat, cols as nat));
                }
                Ok(m)
            },
            Err(_) => {
                proof {
                    assert(false);
                }
                Err(NDArrayError::DimensionError)
            },
        }
    }
}

/// Flattening inverts gridding: reading flat storage as a `rows x cols`
/// grid and flattening it again row-major restores the storage exactly.
pub proof fn lemma_grid_flat_inverse(d: Seq<i64>, rows: nat, cols: nat)
    requires
        d.len() == rows * cols,
    ensures
        grid_flat(flat_grid(d, rows, cols), cols) == d,
{
    let g = flat_grid(d, rows, cols);
    assert forall|k: int| 0 <= k < rows * cols implies grid_flat(g, cols)[k] == d[k] by {
        assert(cols > 0) by (nonlinear_arith)
            requires
                0 <= k < rows * cols,
        ;
        lemma_fundamental_div_mod(k, cols as int);
        let a = k / (cols as int);
        let b = k % (cols as int);
        assert(a < rows) by (nonlinear_arith)
            requires
                0 <= b < cols,
                k == a * (cols as int) + b,
                k < rows * cols,
                cols > 0,
        ;
    }
    assert(grid_flat(g, cols) =~= d);
}

/// Gridding inverts flattening: flattening a rectangular grid row-major
/// and reading the result back as a grid restores every row exactly.
pub proof fn lemma_flat_grid_inverse(g: Seq<Seq<i64>>, cols: nat)
    requires
        grid_is_rectangular(g, cols),
    ensures
        flat_grid(grid_flat(g, cols), g.len(), cols) == g,
{
    let d = grid_flat(g, cols);
    let g2 = flat_grid(d, g.len(), cols);
    assert forall|i: int| 0 <= i < g.len() implies g2[i] == g[i] by {
        assert(g[i].len() == cols);
        assert forall|j: int| 0 <= j < cols implies g2[i][j] == g[i][j] by {
            lemma_row_major_below(i, j, g.len() as int, cols as int);
            lemma_mul_inequality(i + 1, g.len() as int, cols as int);
            lemma_fundamental_div_mod_converse(
                i * (cols as int) + j,
                cols as int,
                i,
                j,
            );
        }
        assert(g2[i] =~= g[i]);
    }
    assert(g2 =~= g);
}

/// Round-trip, array direction: extracting a rank-2 array into a matrix
/// (as `to_matrix`'s contract describes the result) and embedding that
/// matrix again (as `from_matrix`'s contract describes it) restores the
/// original array: same storage, same shape, same strides.
pub proof fn lemma_array_matrix_round_trip(a: NDArray, m: Matrix, b: NDArray)
    requires
        a.wf(),
        m.wf(),
        b.wf(),
        a.shape_seq().len() == 2,
        m.spec_rows() == a.shape_seq()[0],
        m.spec_cols() == a.shape_seq()[1],
        m.grid() == flat_grid(a.data_seq(), a.shape_seq()[0] as nat, a.shape_seq()[1] as nat),
        b.shape_seq().len() == 2,
        b.shape_seq()[0] == m.spec_rows(),
        b.shape_seq()[1] == m.spec_cols(),
        b.data_seq() == grid_flat(m.grid(), m.spec_cols()),
    ensures
        b.data_seq() == a.data_seq(),
        b.shape_seq() == a.shape_seq(),
        b.strides_seq() == a.strides_seq(),
{
    let rows = a.shape_seq()[0] as nat;
    let cols = a.shape_seq()[1] as nat;
    assert(suffix_product(a.shape_seq(), 2) == 1);
    assert(suffix_product(a.shape_seq(), 1) == cols * suffix_product(a.shape_seq(), 2));
    assert(suffix_product(a.shape_seq(), 0) == rows * suffix_product(a.shape_seq(), 1));
    assert(a.data_seq().len() == rows * cols);
    lemma_grid_flat_inverse(a.data_seq(), rows, cols);
    assert(b.shape_seq() =~= a.shape_seq());
    assert(b.strides_seq() =~= a.strides_seq());
}

/// Round-trip, matrix direction: embedding a matrix as a rank-2 array
/// (as `from_matrix`'s contract describes the result) and extracting it
/// again (as `to_matrix`'s contract describes it) restores the original
/// matrix: same grid, same dimensions.
pub proof fn lemma_matrix_array_round_trip(m: Matrix, a: NDArray, m2: Matrix)
    requires
        m.wf(),
        a.wf(),
        m2.wf(),
        a.shape_seq().len() == 2,
        a.shape_seq()[0] == m.spec_rows(),
        a.shape_seq()[1] == m.spec_cols(),
        a.data_seq() == grid_flat(m.grid(), m.spec_cols()),
        m2.spec_rows() == a.shape_seq()[0],
        m2.spec_cols() == a.shape_seq()[1],
        m2.grid() == flat_grid(a.data_seq(), a.shape_seq()[0] as nat, a.shape_seq()[1] as nat),
    ensures
        m2.grid() == m.grid(),
        m2.spec_rows() == m.spec_rows(),
        m2.spec_cols() == m.spec_cols(),
{
    lemma_flat_grid_inverse(m.grid(), m.spec_cols());
}

} // verus!
